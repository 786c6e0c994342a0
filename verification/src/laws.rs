//! What holds of the generator and of the searches whatever the seed.

use crate::cli::Version;
use crate::crack::{in_range, matched, unique_outcome};
use crate::domain::{domain_limit, lemma_domain_covers, same_stream};
use crate::error::CrackError;
use crate::model::{extract, stream, State};
use crate::orbit::lemma_wait;
use crate::random::BASH_RAND_MAX;
use vstd::prelude::*;

verus! {

/// Every output fits in 15 bits.
pub proof fn law_outputs_in_range(s: State, n: nat)
    ensures
        in_range(s.outputs(n)),
{
    assert forall|i: int| 0 <= i < n implies s.outputs(n)[i] <= BASH_RAND_MAX by {
        let seed = s.after((i + 1) as nat).seed;
        let is_old = s.is_old;
        lemma_rule_kept(s, (i + 1) as nat);
        lemma_rule_kept(s, i as nat);
        assert(extract(seed, true) <= 0x7fff) by {
            assert((seed & 0x7fff) as u16 <= 0x7fff) by (bit_vector);
        }
        assert(extract(seed, false) <= 0x7fff) by {
            assert((((seed >> 16) ^ (seed & 0xffff)) & 0x7fff) as u16 <= 0x7fff) by (bit_vector);
        }
    }
}

/// Draws keep the rule, and each leaves in `last` the output of the raw state
/// that it stopped at.
pub proof fn lemma_rule_kept(s: State, n: nat)
    ensures
        s.after(n).is_old == s.is_old,
        n >= 1 ==> s.after(n).last == extract(s.after(n).seed, s.is_old),
    decreases n,
{
    if n > 0 {
        lemma_rule_kept(s, (n - 1) as nat);
    }
}

/// No output follows itself: each differs from the one before it, and the
/// first from what the generator gave last.
pub proof fn law_no_repeat(s: State, n: nat)
    ensures
        n >= 1 ==> s.outputs(n)[0] != s.last,
        forall|i: int| 1 <= i < n ==> #[trigger] s.outputs(n)[i] != s.outputs(n)[i - 1],
{
    if n >= 1 {
        lemma_wait(s);
        assert(s.after(1) == s.next()) by {
            reveal_with_fuel(State::after, 2);
        }
    }
    assert forall|i: int| 1 <= i < n implies #[trigger] s.outputs(n)[i] != s.outputs(n)[i - 1] by {
        lemma_wait(s.after(i as nat));
    }
}

/// Every seed outside the domain of its rule gives, output for output, what
/// some seed inside gives.
pub proof fn law_domain_reduction(seed: u32, is_old: bool)
    ensures
        exists|inside: u32|
            inside <= domain_limit(is_old) && #[trigger] same_stream(inside, seed, is_old),
{
    let inside = lemma_domain_covers(seed, is_old);
    assert(same_stream(inside, seed, is_old));
}

/// The first three outputs of any seed, searched under the rule that gave
/// them, lead back to a seed of the domain that gives the same three; where
/// only one seed of the domain gives them, to that seed.
pub proof fn law_round_trip(seed: u32, is_old: bool, r: Result<(u32, bool), CrackError>)
    requires
        unique_outcome(stream(seed, is_old, 3), Version::only(is_old), r),
    ensures
        r matches Ok((found, rule)) && rule == is_old && found <= domain_limit(is_old) && stream(
            found,
            is_old,
            3,
        ) == stream(seed, is_old, 3),
        seed <= domain_limit(is_old) && (forall|other: u32|
            other <= domain_limit(is_old) && stream(other, is_old, 3) == stream(seed, is_old, 3)
                ==> other == seed) ==> (r matches Ok((found, rule)) && found == seed),
{
    let numbers = stream(seed, is_old, 3);
    law_outputs_in_range(State::start(seed, is_old), 3);
    assert(matched(numbers, is_old));
}

} // verus!
