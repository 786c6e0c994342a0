//! The generator itself: a raw 32-bit state, stepped by the minimal standard
//! linear congruential rule, and the 15-bit outputs drawn from it.

use crate::model::{extract, raw_iter, raw_next, signed, State};
use crate::orbit::lemma_wait;
use vstd::prelude::*;

verus! {

/// The largest output: 15 bits.
pub const BASH_RAND_MAX: u16 = 0x7fff;

pub struct Random {
    pub seed: u32,
    last: u16,
    /// If true, outputs follow the rule of bash 5.0 and earlier.
    is_old: bool,
}

impl View for Random {
    type V = State;

    closed spec fn view(&self) -> State {
        State { seed: self.seed, last: self.last, is_old: self.is_old }
    }
}

impl Random {
    pub fn new(seed: u32, is_old: bool) -> (rng: Self)
        ensures
            rng@ == State::start(seed, is_old),
    {
        Self { seed, last: 0, is_old }
    }

    /// Draws raw values until one gives an output other than the last one,
    /// and returns that output.
    pub fn next_16(&mut self) -> (result: u16)
        ensures
            final(self)@ == old(self)@.next(),
            result == final(self)@.last,
            result != old(self)@.last,
            result <= BASH_RAND_MAX,
    {
        let ghost start = self@;
        let ghost mut k: nat = 0;
        proof {
            lemma_wait(start);
        }
        loop
            invariant
                start == old(self)@,
                start.first_fresh_at(start.wait()),
                self.seed == raw_iter(start.seed, k),
                self.last == start.last,
                self.is_old == start.is_old,
                k < start.wait(),
                forall|j: nat| 1 <= j <= k ==> !start.fresh_at(j),
            decreases start.wait() - k,
        {
            self.next_seed();
            proof {
                k = k + 1;
            }
            let result = self.fold();
            if result != self.last {
                assert(start.fresh_at(k));
                assert(k == start.wait());
                self.last = result;
                return result;
            }
        }
    }

    /// The output that the present raw state stands for.
    fn fold(&self) -> (result: u16)
        ensures
            result == extract(self.seed, self.is_old),
            result <= BASH_RAND_MAX,
    {
        let seed = self.seed;
        if self.is_old {
            // Bash 5.0 and earlier
            let result = #[verifier::truncate] (seed as u16) & BASH_RAND_MAX;
            assert(result == (seed & 0x7fff) as u16 && result <= 0x7fff) by (bit_vector)
                requires
                    result == (seed as u16) & 0x7fff,
            ;
            result
        } else {
            // Bash 5.1 and later
            let folded = (seed >> 16) ^ (seed & 0xffff);
            let result = #[verifier::truncate] (folded as u16) & BASH_RAND_MAX;
            assert(result == (((seed >> 16) ^ (seed & 0xffff)) & 0x7fff) as u16 && result
                <= 0x7fff) by (bit_vector)
                requires
                    folded == (seed >> 16) ^ (seed & 0xffff),
                    result == (folded as u16) & 0x7fff,
            ;
            result
        }
    }

    pub fn next_16_n(&mut self, n: usize) -> (result: Vec<u16>)
        ensures
            result@ == old(self)@.outputs(n as nat),
            final(self)@ == old(self)@.after(n as nat),
    {
        let ghost start = self@;
        let mut result = Vec::with_capacity(n);
        let mut i: usize = 0;
        while i < n
            invariant
                i <= n,
                result@ == start.outputs(i as nat),
                self@ == start.after(i as nat),
            decreases n - i,
        {
            let value = self.next_16();
            result.push(value);
            i = i + 1;
        }
        result
    }

    pub fn skip(&mut self, n: usize)
        ensures
            final(self)@ == old(self)@.after(n as nat),
    {
        let ghost start = self@;
        let mut i: usize = 0;
        while i < n
            invariant
                i <= n,
                self@ == start.after(i as nat),
            decreases n - i,
        {
            self.next_16();
            i = i + 1;
        }
    }

    /// One raw step. Zero is replaced by a constant first; the product is
    /// taken by Schrage's split, which never leaves 32 bits.
    pub fn next_seed(&mut self) -> (seed: u32)
        ensures
            seed == raw_next(old(self)@.seed),
            final(self)@ == old(self)@.stepped(),
    {
        if self.seed == 0 {
            self.seed = 123459876;
        }
        let current = self.seed;
        let value = #[verifier::truncate] (current as i32);
        assert(value == signed(current)) by (bit_vector)
            requires
                value == current as i32,
        ;
        let h: i32 = value / 127773;
        let l: i32 = value - (127773 * h);
        let t: i32 = 16807 * l - 2836 * h;
        let next: i32 = if t < 0 {
            t + 0x7fffffff
        } else {
            t
        };
        self.seed = next as u32;

        self.seed
    }

    pub fn next_seed_n(&mut self, n: usize) -> (result: Vec<u32>)
        ensures
            result@ == old(self)@.raw_values(n as nat),
            final(self)@ == (State { seed: raw_iter(old(self)@.seed, n as nat), ..old(self)@ }),
    {
        let ghost start = self@;
        let mut result = Vec::with_capacity(n);
        let mut i: usize = 0;
        while i < n
            invariant
                i <= n,
                result@ == start.raw_values(i as nat),
                self@ == (State { seed: raw_iter(start.seed, i as nat), ..start }),
            decreases n - i,
        {
            let value = self.next_seed();
            result.push(value);
            i = i + 1;
        }
        result
    }
}

/// The `count` outputs that follow the first `skip` outputs of a generator
/// made with `seed`.
pub fn generate(seed: u32, is_old: bool, skip: usize, count: usize) -> (outputs: Vec<u16>)
    ensures
        outputs@ == State::start(seed, is_old).after(skip as nat).outputs(count as nat),
{
    let mut rng = Random::new(seed, is_old);
    rng.skip(skip);
    rng.next_16_n(count)
}

} // verus!
