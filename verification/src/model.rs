//! The mathematical model of the generator: the raw 31-bit stream, the two
//! ways of folding a raw value into a 15-bit output, and the stream of
//! outputs in which no value follows itself.

use vstd::prelude::*;

verus! {

/// The modulus of the linear congruential step, `2^31 - 1`.
pub open spec fn modulus() -> int {
    0x7fff_ffff
}

/// The multiplier of the linear congruential step.
pub open spec fn multiplier() -> int {
    16807
}

/// A 32-bit state read as a two's complement number.
pub open spec fn signed(v: u32) -> int {
    if v >= 0x8000_0000u32 {
        v - 0x1_0000_0000
    } else {
        v as int
    }
}

/// The state that a step starts from: zero is replaced by a fixed constant.
pub open spec fn effective(seed: u32) -> u32 {
    if seed == 0 {
        123459876
    } else {
        seed
    }
}

/// One raw step: the state times the multiplier, reduced to `0 .. modulus`.
pub open spec fn raw_next(seed: u32) -> u32 {
    ((multiplier() * signed(effective(seed))) % modulus()) as u32
}

/// The state after `n` raw steps.
pub open spec fn raw_iter(seed: u32, n: nat) -> u32
    decreases n,
{
    if n == 0 {
        seed
    } else {
        raw_next(raw_iter(seed, (n - 1) as nat))
    }
}

/// The 15-bit output that a raw value stands for. The old rule keeps the low
/// bits; the new rule folds the high half onto the low half first.
pub open spec fn extract(raw: u32, is_old: bool) -> u16 {
    if is_old {
        (raw & 0x7fff) as u16
    } else {
        (((raw >> 16) ^ (raw & 0xffff)) & 0x7fff) as u16
    }
}

/// What a generator is: its raw state, the output it gave last, and its rule.
pub struct State {
    pub seed: u32,
    pub last: u16,
    pub is_old: bool,
}

impl State {
    /// A generator that has given no output yet.
    pub open spec fn start(seed: u32, is_old: bool) -> State {
        State { seed, last: 0, is_old }
    }

    /// The state after one raw step; the last output stays.
    pub open spec fn stepped(self) -> State {
        State { seed: raw_next(self.seed), ..self }
    }

    /// The raw value reached after `k` steps gives an output other than the last one.
    pub open spec fn fresh_at(self, k: nat) -> bool {
        extract(raw_iter(self.seed, k), self.is_old) != self.last
    }

    /// `k` is the first step, counted from one, whose output differs from the last one.
    pub open spec fn first_fresh_at(self, k: nat) -> bool {
        &&& k >= 1
        &&& self.fresh_at(k)
        &&& forall|j: nat| 1 <= j < k ==> !self.fresh_at(j)
    }

    /// The number of raw steps that the next draw takes.
    pub open spec fn wait(self) -> nat {
        choose|k: nat| self.first_fresh_at(k)
    }

    /// The state after one draw.
    pub open spec fn next(self) -> State {
        let seed = raw_iter(self.seed, self.wait());
        State { seed, last: extract(seed, self.is_old), is_old: self.is_old }
    }

    /// The state after `n` draws.
    pub open spec fn after(self, n: nat) -> State
        decreases n,
    {
        if n == 0 {
            self
        } else {
            self.after((n - 1) as nat).next()
        }
    }

    /// The first `n` outputs.
    pub open spec fn outputs(self, n: nat) -> Seq<u16> {
        Seq::new(n, |i: int| self.after((i + 1) as nat).last)
    }

    /// The first `n` raw values.
    pub open spec fn raw_values(self, n: nat) -> Seq<u32> {
        Seq::new(n, |i: int| raw_iter(self.seed, (i + 1) as nat))
    }
}

/// The first `n` outputs of a generator made with `seed`.
pub open spec fn stream(seed: u32, is_old: bool, n: nat) -> Seq<u16> {
    State::start(seed, is_old).outputs(n)
}

} // verus!
