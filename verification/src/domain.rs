//! Why a search needs only part of the 32-bit range: every seed gives the
//! outputs of some seed in the lower half, and under the new rule of some seed
//! in the lowest quarter.

use crate::model::{extract, modulus, raw_iter, raw_next, signed, stream, State};
use crate::orbit::{lemma_raw_iter_add, lemma_regular_iter, lemma_regular_next, lemma_wait, regular};
use vstd::arithmetic::div_mod::{
    lemma_fundamental_div_mod,
    lemma_fundamental_div_mod_converse,
    lemma_mul_mod_noop_right,
};
use vstd::prelude::*;

verus! {

/// The largest seed that a search tries: half the range under the old rule,
/// a quarter under the new one.
pub open spec fn domain_limit(is_old: bool) -> u32 {
    if is_old {
        0x7fff_ffff
    } else {
        0x3fff_ffff
    }
}

/// Two seeds that give the same outputs, however many are drawn.
pub open spec fn same_stream(a: u32, b: u32, is_old: bool) -> bool {
    forall|n: nat| stream(a, is_old, n) == stream(b, is_old, n)
}

/// Two generators that give the same output at every raw step from the first
/// on, and gave the same output last.
pub open spec fn alike(s: State, t: State) -> bool {
    &&& s.is_old == t.is_old
    &&& s.last == t.last
    &&& forall|k: nat|
        k >= 1 ==> extract(#[trigger] raw_iter(s.seed, k), s.is_old) == extract(
            raw_iter(t.seed, k),
            t.is_old,
        )
}

/// Only one step is the first whose output is fresh.
pub proof fn lemma_first_fresh_unique(s: State, a: nat, b: nat)
    requires
        s.first_fresh_at(a),
        s.first_fresh_at(b),
    ensures
        a == b,
{
}

/// A draw is one raw step where its output is fresh, and otherwise the draw
/// that the stepped generator makes.
pub proof fn lemma_draw_unfold(s: State)
    ensures
        s.fresh_at(1) ==> s.next() == (State {
            seed: raw_next(s.seed),
            last: extract(raw_next(s.seed), s.is_old),
            is_old: s.is_old,
        }),
        !s.fresh_at(1) ==> s.next() == s.stepped().next(),
{
    let t = s.stepped();
    lemma_wait(s);
    lemma_wait(t);
    assert(raw_iter(s.seed, 1) == raw_next(s.seed)) by {
        reveal_with_fuel(raw_iter, 2);
    }
    assert forall|k: nat| t.fresh_at(k) == s.fresh_at(k + 1) by {
        lemma_raw_iter_add(s.seed, 1, k);
    }
    if s.fresh_at(1) {
        assert(s.first_fresh_at(1));
        lemma_first_fresh_unique(s, 1, s.wait());
    } else {
        let w = t.wait();
        assert(s.first_fresh_at(w + 1)) by {
            assert forall|j: nat| 1 <= j < w + 1 implies !s.fresh_at(j) by {
                if j > 1 {
                    assert(t.fresh_at((j - 1) as nat) == s.fresh_at((j - 1) as nat + 1));
                }
            }
        }
        lemma_first_fresh_unique(s, w + 1, s.wait());
        lemma_raw_iter_add(s.seed, 1, w);
    }
}

/// Generators that are alike stay alike after a draw.
pub proof fn lemma_alike_next(s: State, t: State)
    requires
        alike(s, t),
    ensures
        alike(s.next(), t.next()),
{
    lemma_wait(s);
    lemma_wait(t);
    let w = s.wait();
    assert forall|k: nat| k >= 1 implies s.fresh_at(k) == t.fresh_at(k) by {
        assert(extract(raw_iter(s.seed, k), s.is_old) == extract(raw_iter(t.seed, k), t.is_old));
    }
    assert(t.first_fresh_at(w));
    lemma_first_fresh_unique(t, w, t.wait());
    assert forall|k: nat| k >= 1 implies extract(#[trigger] raw_iter(s.next().seed, k), s.is_old)
        == extract(raw_iter(t.next().seed, k), t.is_old) by {
        lemma_raw_iter_add(s.seed, w, k);
        lemma_raw_iter_add(t.seed, w, k);
    }
}

/// Generators that are alike stay alike after any number of draws.
pub proof fn lemma_alike_after(s: State, t: State, n: nat)
    requires
        alike(s, t),
    ensures
        alike(s.after(n), t.after(n)),
    decreases n,
{
    if n > 0 {
        let n1 = (n - 1) as nat;
        lemma_alike_after(s, t, n1);
        lemma_alike_next(s.after(n1), t.after(n1));
    }
}

/// Generators that are alike give the same outputs.
pub proof fn lemma_alike_outputs(s: State, t: State, n: nat)
    requires
        alike(s, t),
    ensures
        s.outputs(n) == t.outputs(n),
{
    assert forall|i: int| 0 <= i < n implies s.outputs(n)[i] == t.outputs(n)[i] by {
        lemma_alike_after(s, t, (i + 1) as nat);
    }
    assert(s.outputs(n) =~= t.outputs(n));
}

/// Seeds that step to the same raw value are alike.
pub proof fn lemma_same_step_alike(a: u32, b: u32, last: u16, is_old: bool)
    requires
        raw_next(a) == raw_next(b),
    ensures
        alike(State { seed: a, last, is_old }, State { seed: b, last, is_old }),
{
    assert(raw_iter(a, 1) == raw_next(a) && raw_iter(b, 1) == raw_next(b)) by {
        reveal_with_fuel(raw_iter, 2);
    }
    assert forall|k: nat| k >= 1 implies #[trigger] raw_iter(a, k) == raw_iter(b, k) by {
        lemma_raw_iter_add(a, 1, (k - 1) as nat);
        lemma_raw_iter_add(b, 1, (k - 1) as nat);
    }
}

/// Every seed steps to the raw value that some seed of the lower half steps to.
pub proof fn lemma_lower_half(seed: u32) -> (y: u32)
    ensures
        y <= 0x7fff_ffff,
        raw_next(y) == raw_next(seed),
{
    if seed <= 0x7fff_ffff {
        seed
    } else {
        let x = signed(seed);
        let c = x % 0x7fff_ffff;
        lemma_mul_mod_noop_right(16807, x, 0x7fff_ffff);
        if c == 0 {
            0x7fff_ffff
        } else {
            c as u32
        }
    }
}

/// The mirror image of a regular state steps to the mirror image of what the
/// state steps to.
proof fn lemma_mirror_next(u: u32)
    requires
        regular(u),
    ensures
        regular((modulus() - u) as u32),
        raw_next((modulus() - u) as u32) == modulus() - raw_next(u),
{
    let v = (0x7fff_ffff - u) as u32;
    lemma_regular_next(u);
    lemma_regular_next(v);
    let p = 16807 * (u as int);
    let q = p / 0x7fff_ffff;
    let r = p % 0x7fff_ffff;
    lemma_fundamental_div_mod(p, 0x7fff_ffff);
    lemma_fundamental_div_mod_converse(16807 * (v as int), 0x7fff_ffff, 16806 - q, 0x7fff_ffff - r);
}

proof fn lemma_mirror_iter(u: u32, k: nat)
    requires
        regular(u),
    ensures
        regular(raw_iter(u, k)),
        raw_iter((modulus() - u) as u32, k) == modulus() - raw_iter(u, k),
    decreases k,
{
    if k > 0 {
        lemma_mirror_iter(u, (k - 1) as nat);
        lemma_mirror_next(raw_iter(u, (k - 1) as nat));
        lemma_regular_iter(u, k);
    }
}

/// Under the new rule a state and its mirror image give the same output:
/// mirroring flips all 31 bits, and the fold takes the flip out again.
proof fn lemma_mirror_extract(u: u32)
    requires
        u <= modulus(),
    ensures
        extract((modulus() - u) as u32, false) == extract(u, false),
{
    let v = (0x7fff_ffff - u) as u32;
    assert(extract(v, false) == extract(u, false)) by (bit_vector)
        requires
            u <= 0x7fff_ffff,
            v == 0x7fff_ffff - u,
    ;
}

/// Under the new rule a regular seed and its mirror image are alike.
pub proof fn lemma_mirror_alike(u: u32, last: u16)
    requires
        regular(u),
    ensures
        regular((modulus() - u) as u32),
        alike(
            State { seed: (modulus() - u) as u32, last, is_old: false },
            State { seed: u, last, is_old: false },
        ),
{
    let v = (0x7fff_ffff - u) as u32;
    assert forall|k: nat| k >= 1 implies extract(#[trigger] raw_iter(v, k), false) == extract(
        raw_iter(u, k),
        false,
    ) by {
        lemma_mirror_iter(u, k);
        lemma_mirror_extract(raw_iter(u, k));
    }
}

/// `n` draws are one draw and then `n - 1` draws.
pub proof fn lemma_after_shift(s: State, n: nat)
    requires
        n >= 1,
    ensures
        s.after(n) == s.next().after((n - 1) as nat),
    decreases n,
{
    if n > 1 {
        lemma_after_shift(s, (n - 1) as nat);
    } else {
        reveal_with_fuel(State::after, 2);
    }
}

/// The seed `2^31 - 1` steps to zero, which a new generator takes for a
/// repeat: it then goes on as a generator made with the seed zero.
proof fn lemma_modulus_seed(is_old: bool, n: nat)
    ensures
        stream(0x7fff_ffff, is_old, n) == stream(0, is_old, n),
{
    let s = State::start(0x7fff_ffff, is_old);
    let t = State::start(0, is_old);
    assert(raw_next(0x7fff_ffff) == 0);
    assert(raw_iter(s.seed, 1) == raw_next(s.seed)) by {
        reveal_with_fuel(raw_iter, 2);
    }
    assert(extract(0, is_old) == 0) by {
        assert(0u32 & 0x7fff == 0) by (bit_vector);
        assert((((0u32 >> 16) ^ (0u32 & 0xffff)) & 0x7fff) == 0) by (bit_vector);
    }
    lemma_draw_unfold(s);
    assert(s.stepped() == t);
    assert forall|i: int| 0 <= i < n implies s.outputs(n)[i] == t.outputs(n)[i] by {
        lemma_after_shift(s, (i + 1) as nat);
        lemma_after_shift(t, (i + 1) as nat);
    }
    assert(s.outputs(n) =~= t.outputs(n));
}

/// Every seed gives the outputs of some seed within the domain of its rule.
pub proof fn lemma_domain_covers(seed: u32, is_old: bool) -> (y: u32)
    ensures
        y <= domain_limit(is_old),
        same_stream(y, seed, is_old),
{
    let h = lemma_lower_half(seed);
    lemma_same_step_alike(h, seed, 0, is_old);
    assert forall|n: nat| stream(h, is_old, n) == stream(seed, is_old, n) by {
        lemma_alike_outputs(State::start(h, is_old), State::start(seed, is_old), n);
    }
    if is_old || h <= 0x3fff_ffff {
        h
    } else if h == 0x7fff_ffff {
        assert forall|n: nat| stream(0, is_old, n) == stream(seed, is_old, n) by {
            lemma_modulus_seed(is_old, n);
        }
        0
    } else {
        let y = (0x7fff_ffff - h) as u32;
        lemma_mirror_alike(h, 0);
        assert forall|n: nat| stream(y, is_old, n) == stream(seed, is_old, n) by {
            lemma_alike_outputs(State::start(y, is_old), State::start(h, is_old), n);
        }
        y
    }
}

} // verus!
