//! Why a draw always ends: the raw stream cannot give one output forever.

use crate::model::{effective, extract, modulus, multiplier, raw_iter, raw_next, signed, State};
use vstd::arithmetic::div_mod::*;
use vstd::arithmetic::mul::*;
use vstd::prelude::*;

verus! {

/// A state that the stream stays in forever: `1 ..= modulus - 1`.
pub open spec fn regular(u: u32) -> bool {
    0 < u < modulus()
}

/// Whatever the state, the next one is below the modulus.
pub proof fn lemma_raw_next_bound(seed: u32)
    ensures
        raw_next(seed) < modulus(),
        raw_next(seed) == (multiplier() * signed(effective(seed))) % modulus(),
{
}

/// From a regular state the step multiplies modulo the modulus and stays regular.
pub proof fn lemma_regular_next(u: u32)
    requires
        regular(u),
    ensures
        regular(raw_next(u)),
        raw_next(u) == (multiplier() * u) % modulus(),
{
    let p = 16807 * (u as int);
    let q = p / 0x7fff_ffff;
    let r = p % 0x7fff_ffff;
    assert(p == 0x7fff_ffff * q + r) by {
        lemma_fundamental_div_mod(p, 0x7fff_ffff);
    }
    if r == 0 {
        // 16807 * 1407677000 == 1 + 11017 * (2^31 - 1)
        let z = 1407677000 * q - 11017 * (u as int);
        assert(u == 0x7fff_ffff * z);
        assert(false);
    }
}

/// Steps add up: `a + b` steps are `b` steps after `a` steps.
pub proof fn lemma_raw_iter_add(seed: u32, a: nat, b: nat)
    ensures
        raw_iter(seed, a + b) == raw_iter(raw_iter(seed, a), b),
    decreases b,
{
    if b > 0 {
        lemma_raw_iter_add(seed, a, (b - 1) as nat);
        assert(a + b - 1 == a + (b - 1) as nat);
    }
}

/// The multiplier to the power `k`, modulo the modulus.
pub open spec fn mult_pow(k: nat) -> int
    decreases k,
{
    if k == 0 {
        1
    } else {
        (multiplier() * mult_pow((k - 1) as nat)) % modulus()
    }
}

pub proof fn lemma_mult_pow_add(j: nat, k: nat)
    ensures
        mult_pow(j + k) == (mult_pow(j) * mult_pow(k)) % modulus(),
        0 <= mult_pow(j) < modulus(),
    decreases k,
{
    let m = modulus();
    if j > 0 {
        assert(mult_pow(j) == (multiplier() * mult_pow((j - 1) as nat)) % m);
    }
    if k == 0 {
        assert(mult_pow(j) * 1 == mult_pow(j));
        lemma_small_mod(mult_pow(j) as nat, m as nat);
    } else {
        let k1 = (k - 1) as nat;
        lemma_mult_pow_add(j, k1);
        assert(j + k - 1 == j + k1);
        let pj = mult_pow(j);
        let pk = mult_pow(k1);
        // mult_pow(j + k) == (a * ((pj * pk) % m)) % m
        lemma_mul_mod_noop_right(16807, pj * pk, m);
        // == (a * (pj * pk)) % m
        assert(16807 * (pj * pk) == pj * (16807 * pk)) by {
            lemma_mul_is_associative(16807, pj, pk);
            lemma_mul_is_commutative(16807, pj);
            lemma_mul_is_associative(pj, 16807, pk);
        }
        // == (pj * ((a * pk) % m)) % m
        lemma_mul_mod_noop_right(pj, 16807 * pk, m);
    }
}

/// From a regular state, `k` steps multiply by the `k`-th power of the multiplier.
pub proof fn lemma_regular_iter(u: u32, k: nat)
    requires
        regular(u),
    ensures
        regular(raw_iter(u, k)),
        raw_iter(u, k) == (mult_pow(k) * u) % modulus(),
    decreases k,
{
    let m = modulus();
    if k == 0 {
        assert(1 * (u as int) == u);
        lemma_small_mod(u as nat, m as nat);
    } else {
        let k1 = (k - 1) as nat;
        lemma_regular_iter(u, k1);
        let w = raw_iter(u, k1);
        lemma_regular_next(w);
        let pk = mult_pow(k1);
        // raw_iter(u, k) == (a * ((pk * u) % m)) % m
        lemma_mul_mod_noop_right(16807, pk * u, m);
        assert(16807 * (pk * u) == (16807 * pk) * u) by {
            lemma_mul_is_associative(16807, pk, u as int);
        }
        lemma_mul_mod_noop_left(16807 * pk, u as int, m);
    }
}

/// The number of raw steps after which a regular state has doubled modulo the modulus.
pub open spec fn doubling_steps() -> nat {
    1385473320
}

proof fn lemma_mult_pow_join(j: nat, k: nat, vj: int, vk: int)
    requires
        mult_pow(j) == vj,
        mult_pow(k) == vk,
    ensures
        mult_pow(j + k) == (vj * vk) % modulus(),
{
    lemma_mult_pow_add(j, k);
}

/// The multiplier raised to each power of two up to `2^30`, by repeated squaring.
proof fn lemma_mult_pow_squares()
    ensures
        mult_pow(0x1) == 16807,
        mult_pow(0x2) == 282475249,
        mult_pow(0x4) == 984943658,
        mult_pow(0x8) == 1457850878,
        mult_pow(0x10) == 1137522503,
        mult_pow(0x20) == 1636807826,
        mult_pow(0x40) == 685118024,
        mult_pow(0x80) == 515204530,
        mult_pow(0x100) == 897054849,
        mult_pow(0x200) == 2038299453,
        mult_pow(0x400) == 1836275591,
        mult_pow(0x800) == 349037107,
        mult_pow(0x1000) == 149796865,
        mult_pow(0x2000) == 1186652285,
        mult_pow(0x4000) == 2106880871,
        mult_pow(0x8000) == 877809922,
        mult_pow(0x10000) == 1682791109,
        mult_pow(0x20000) == 1900685356,
        mult_pow(0x40000) == 2080563572,
        mult_pow(0x80000) == 612544882,
        mult_pow(0x100000) == 1295048709,
        mult_pow(0x200000) == 1987420232,
        mult_pow(0x400000) == 868966365,
        mult_pow(0x800000) == 1331238991,
        mult_pow(0x1000000) == 1550655590,
        mult_pow(0x2000000) == 766698560,
        mult_pow(0x4000000) == 1154667137,
        mult_pow(0x8000000) == 901595110,
        mult_pow(0x10000000) == 1008653149,
        mult_pow(0x20000000) == 1821072732,
        mult_pow(0x40000000) == 2147466840,
{
    assert(mult_pow(1) == 16807) by {
        reveal_with_fuel(mult_pow, 2);
    }
    lemma_mult_pow_join(0x1, 0x1, 16807, 16807);
    lemma_mult_pow_join(0x2, 0x2, 282475249, 282475249);
    lemma_mult_pow_join(0x4, 0x4, 984943658, 984943658);
    lemma_mult_pow_join(0x8, 0x8, 1457850878, 1457850878);
    lemma_mult_pow_join(0x10, 0x10, 1137522503, 1137522503);
    lemma_mult_pow_join(0x20, 0x20, 1636807826, 1636807826);
    lemma_mult_pow_join(0x40, 0x40, 685118024, 685118024);
    lemma_mult_pow_join(0x80, 0x80, 515204530, 515204530);
    lemma_mult_pow_join(0x100, 0x100, 897054849, 897054849);
    lemma_mult_pow_join(0x200, 0x200, 2038299453, 2038299453);
    lemma_mult_pow_join(0x400, 0x400, 1836275591, 1836275591);
    lemma_mult_pow_join(0x800, 0x800, 349037107, 349037107);
    lemma_mult_pow_join(0x1000, 0x1000, 149796865, 149796865);
    lemma_mult_pow_join(0x2000, 0x2000, 1186652285, 1186652285);
    lemma_mult_pow_join(0x4000, 0x4000, 2106880871, 2106880871);
    lemma_mult_pow_join(0x8000, 0x8000, 877809922, 877809922);
    lemma_mult_pow_join(0x10000, 0x10000, 1682791109, 1682791109);
    lemma_mult_pow_join(0x20000, 0x20000, 1900685356, 1900685356);
    lemma_mult_pow_join(0x40000, 0x40000, 2080563572, 2080563572);
    lemma_mult_pow_join(0x80000, 0x80000, 612544882, 612544882);
    lemma_mult_pow_join(0x100000, 0x100000, 1295048709, 1295048709);
    lemma_mult_pow_join(0x200000, 0x200000, 1987420232, 1987420232);
    lemma_mult_pow_join(0x400000, 0x400000, 868966365, 868966365);
    lemma_mult_pow_join(0x800000, 0x800000, 1331238991, 1331238991);
    lemma_mult_pow_join(0x1000000, 0x1000000, 1550655590, 1550655590);
    lemma_mult_pow_join(0x2000000, 0x2000000, 766698560, 766698560);
    lemma_mult_pow_join(0x4000000, 0x4000000, 1154667137, 1154667137);
    lemma_mult_pow_join(0x8000000, 0x8000000, 901595110, 901595110);
    lemma_mult_pow_join(0x10000000, 0x10000000, 1008653149, 1008653149);
    lemma_mult_pow_join(0x20000000, 0x20000000, 1821072732, 1821072732);
}

/// Two is a power of the multiplier: `16807^1385473320` is `2` modulo `2^31 - 1`.
pub proof fn lemma_two_is_a_power()
    ensures
        mult_pow(doubling_steps()) == 2,
{
    lemma_mult_pow_squares();
    lemma_mult_pow_join(0x8, 0x20, 1457850878, 1636807826);
    lemma_mult_pow_join(0x28, 0x100, 784558821, 897054849);
    lemma_mult_pow_join(0x128, 0x400, 218264607, 1836275591);
    lemma_mult_pow_join(0x528, 0x2000, 432969045, 1186652285);
    lemma_mult_pow_join(0x2528, 0x8000, 680391071, 877809922);
    lemma_mult_pow_join(0xa528, 0x40000, 2081485055, 2080563572);
    lemma_mult_pow_join(0x4a528, 0x100000, 2041480909, 1295048709);
    lemma_mult_pow_join(0x14a528, 0x800000, 1328379265, 1331238991);
    lemma_mult_pow_join(0x94a528, 0x2000000, 200902138, 766698560);
    lemma_mult_pow_join(0x294a528, 0x10000000, 1473158130, 1008653149);
    lemma_mult_pow_join(0x1294a528, 0x40000000, 1479613294, 2147466840);
}

/// The low 31 bits of `u`, rotated left by `i` places.
pub open spec fn turned(u: u32, i: u32) -> u32 {
    ((u << i) | (u >> ((31 - i) as u32))) & 0x7fff_ffff
}

/// Doubling modulo `2^31 - 1` rotates the 31 bits by one place.
proof fn lemma_double_turns(u: u32, i: u32)
    requires
        regular(u),
        1 <= i <= 30,
    ensures
        regular(turned(u, i)),
        (2 * u) % modulus() == turned(u, 1),
        i < 30 ==> (2 * turned(u, i)) % modulus() == turned(u, (i + 1) as u32),
        i == 30 ==> (2 * turned(u, i)) % modulus() == u,
{
    assert(0 < turned(u, i) < 0x7fff_ffff) by (bit_vector)
        requires
            0 < u < 0x7fff_ffff,
            1 <= i <= 30,
    ;
    assert((2 * u) % 0x7fff_ffff == turned(u, 1)) by (bit_vector)
        requires
            0 < u < 0x7fff_ffff,
    ;
    assert(i < 30 ==> (2 * turned(u, i)) % 0x7fff_ffff == turned(u, (i + 1) as u32)) by (bit_vector)
        requires
            0 < u < 0x7fff_ffff,
            1 <= i <= 30,
    ;
    assert(i == 30 ==> (2 * turned(u, i)) % 0x7fff_ffff == u) by (bit_vector)
        requires
            0 < u < 0x7fff_ffff,
            1 <= i <= 30,
    ;
}

/// After `i` times the doubling steps, a regular state is rotated by `i` places.
proof fn lemma_spin(u: u32, i: u32)
    requires
        regular(u),
        1 <= i <= 30,
    ensures
        raw_iter(u, (i as nat) * doubling_steps()) == turned(u, i),
        regular(turned(u, i)),
    decreases i,
{
    let k = doubling_steps();
    lemma_two_is_a_power();
    lemma_double_turns(u, i);
    if i == 1 {
        lemma_regular_iter(u, k);
    } else {
        let h = (i - 1) as u32;
        lemma_spin(u, h);
        lemma_double_turns(u, h);
        lemma_raw_iter_add(u, (h as nat) * k, k);
        lemma_regular_iter(turned(u, h), k);
        assert(h * k + k == i * k);
    }
}

/// After 31 times the doubling steps, a regular state is back where it was.
proof fn lemma_full_turn(u: u32)
    requires
        regular(u),
    ensures
        raw_iter(u, 31 * doubling_steps()) == u,
{
    let k = doubling_steps();
    lemma_two_is_a_power();
    lemma_spin(u, 30);
    lemma_double_turns(u, 30);
    lemma_raw_iter_add(u, 30 * k, k);
    lemma_regular_iter(turned(u, 30), k);
    assert(30 * k + k == 31 * k);
}

/// A regular state and its rotations by one and by sixteen places do not all
/// give the same output: that would make all 31 bits equal.
proof fn lemma_turns_disagree(u: u32, is_old: bool)
    requires
        regular(u),
    ensures
        extract(turned(u, 1), is_old) != extract(u, is_old) || extract(turned(u, 16), is_old)
            != extract(u, is_old),
{
    if is_old {
        assert(extract(turned(u, 1), true) != extract(u, true) || extract(turned(u, 16), true)
            != extract(u, true)) by (bit_vector)
            requires
                0 < u < 0x7fff_ffff,
        ;
    } else {
        assert(extract(turned(u, 1), false) != extract(u, false) || extract(turned(u, 16), false)
            != extract(u, false)) by (bit_vector)
            requires
                0 < u < 0x7fff_ffff,
        ;
    }
}

/// From a regular state some later raw value gives an output other than `last`.
proof fn lemma_regular_fresh(u: u32, last: u16, is_old: bool) -> (k: nat)
    requires
        regular(u),
    ensures
        k >= 1,
        extract(raw_iter(u, k), is_old) != last,
{
    let d = doubling_steps();
    if extract(u, is_old) != last {
        lemma_full_turn(u);
        31 * d
    } else {
        lemma_turns_disagree(u, is_old);
        if extract(turned(u, 1), is_old) != last {
            lemma_spin(u, 1);
            1 * d
        } else {
            lemma_spin(u, 16);
            16 * d
        }
    }
}

/// Whatever the state and the last output, some later raw value gives another output.
pub proof fn lemma_fresh_exists(s: State)
    ensures
        exists|k: nat| k >= 1 && s.fresh_at(k),
{
    lemma_raw_next_bound(s.seed);
    let j: nat = if raw_next(s.seed) == 0 { 2 } else { 1 };
    assert(raw_iter(s.seed, 1) == raw_next(s.seed)) by {
        reveal_with_fuel(raw_iter, 2);
    }
    if raw_next(s.seed) == 0 {
        lemma_regular_next(123459876);
        assert(raw_iter(s.seed, 2) == raw_next(0)) by {
            reveal_with_fuel(raw_iter, 3);
        }
    }
    let u = raw_iter(s.seed, j);
    assert(regular(u));
    let k = lemma_regular_fresh(u, s.last, s.is_old);
    lemma_raw_iter_add(s.seed, j, k);
    assert(s.fresh_at(j + k));
}

/// Among the steps that give a fresh output there is a first one.
proof fn lemma_first_fresh(s: State, k: nat)
    requires
        k >= 1,
        s.fresh_at(k),
    ensures
        exists|f: nat| s.first_fresh_at(f),
    decreases k,
{
    if exists|j: nat| 1 <= j < k && s.fresh_at(j) {
        let j = choose|j: nat| 1 <= j < k && s.fresh_at(j);
        lemma_first_fresh(s, j);
    } else {
        assert(s.first_fresh_at(k));
    }
}

/// Every draw ends: `wait` names the first step whose output is fresh.
pub proof fn lemma_wait(s: State)
    ensures
        s.first_fresh_at(s.wait()),
{
    lemma_fresh_exists(s);
    let k = choose|k: nat| k >= 1 && s.fresh_at(k);
    lemma_first_fresh(s, k);
}

} // verus!
