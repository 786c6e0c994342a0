//! Scanning a range of candidate seeds in parallel with rayon.

use crate::channel::{delivery, reported, send_pair, send_seed, sent_pairs, sent_seeds};
use crate::error::CrackError;
use crate::model::stream;
use crate::random::Random;
use crossbeam_channel::Sender;
use rayon::iter::{IntoParallelIterator, ParallelIterator};
use vstd::prelude::*;

verus! {

/// What a candidate seed is tested against.
pub enum Probe {
    /// The first three outputs are these.
    Triple { triple: [u16; 3], is_old: bool },
    /// The first two outputs are these.
    Pair { pair: [u16; 2], is_old: bool },
    /// The second output is this.
    Second { target: u16, is_old: bool },
    /// The second output is this under the old rule and under the new one.
    Collision { target: u16 },
}

impl Probe {
    /// A generator made with `seed` gives what the probe asks for.
    pub open spec fn hits(self, seed: u32) -> bool {
        match self {
            Probe::Triple { triple, is_old } => stream(seed, is_old, 3) == triple@,
            Probe::Pair { pair, is_old } => stream(seed, is_old, 2) == pair@,
            Probe::Second { target, is_old } => stream(seed, is_old, 2)[1] == target,
            Probe::Collision { target } => stream(seed, true, 2)[1] == target && stream(
                seed,
                false,
                2,
            )[1] == target,
        }
    }

    /// Some seed up to `limit` hits.
    pub open spec fn hits_within(self, limit: u32) -> bool {
        exists|seed: u32| seed <= limit && self.hits(seed)
    }

    /// The seeds up to `limit` that hit.
    pub open spec fn hits_up_to(self, limit: u32) -> Set<u32> {
        Set::new(|seed: u32| seed <= limit && self.hits(seed))
    }

    /// The seeds up to `limit` that hit, each with the flag `is_old`.
    pub open spec fn tagged_hits_up_to(self, limit: u32, is_old: bool) -> Set<(u32, bool)> {
        Set::new(|pair: (u32, bool)| pair.0 <= limit && self.hits(pair.0) && pair.1 == is_old)
    }

    /// Makes a generator with `seed` and draws from it what the probe asks for.
    pub fn test(&self, seed: u32) -> (hit: bool)
        ensures
            hit == self.hits(seed),
    {
        proof {
            reveal_with_fuel(crate::model::State::after, 4);
        }
        match self {
            Probe::Triple { triple, is_old } => {
                let mut rng = Random::new(seed, *is_old);

                let hit = rng.next_16() == triple[0] && rng.next_16() == triple[1]
                    && rng.next_16() == triple[2];
                assert(hit == (stream(seed, *is_old, 3) =~= triple@));
                hit
            },
            Probe::Pair { pair, is_old } => {
                let mut rng = Random::new(seed, *is_old);

                let hit = rng.next_16() == pair[0] && rng.next_16() == pair[1];
                assert(hit == (stream(seed, *is_old, 2) =~= pair@));
                hit
            },
            Probe::Second { target, is_old } => {
                let mut rng = Random::new(seed, *is_old);
                // Setting RANDOM= already iterates once
                rng.next_16();
                rng.next_16() == *target
            },
            Probe::Collision { target } => {
                let mut rng_old = Random::new(seed, true);
                rng_old.next_16();
                if rng_old.next_16() == *target {
                    // Also check the new rule
                    let mut rng_new = Random::new(seed, false);
                    rng_new.next_16();
                    rng_new.next_16() == *target
                } else {
                    false
                }
            },
        }
    }
}

/// Tests one seed and, on a hit, sends it with its flag.
pub fn offer_pair(tx: &mut Sender<(u32, bool)>, probe: &Probe, is_old: bool, seed: u32) -> (r:
    Result<(), CrackError>)
    ensures
        !probe.hits(seed) ==> r is Ok && sent_pairs(*final(tx)) == sent_pairs(*old(tx)),
        probe.hits(seed) && r is Ok ==> sent_pairs(*final(tx)) == sent_pairs(*old(tx)).push(
            (seed, is_old),
        ),
        r matches Err(e) ==> e == CrackError::ChannelProtocolViolation && sent_pairs(*final(tx))
            == sent_pairs(*old(tx)),
{
    if probe.test(seed) {
        delivery(send_pair(tx, seed, is_old))
    } else {
        Ok(())
    }
}

/// Tests one seed and, on a hit, sends it.
pub fn offer_seed(tx: &mut Sender<u32>, probe: &Probe, seed: u32) -> (r: Result<(), CrackError>)
    ensures
        !probe.hits(seed) ==> r is Ok && sent_seeds(*final(tx)) == sent_seeds(*old(tx)),
        probe.hits(seed) && r is Ok ==> sent_seeds(*final(tx)) == sent_seeds(*old(tx)).push(seed),
        r matches Err(e) ==> e == CrackError::ChannelProtocolViolation && sent_seeds(*final(tx))
            == sent_seeds(*old(tx)),
{
    if probe.test(seed) {
        delivery(send_seed(tx, seed))
    } else {
        Ok(())
    }
}

/// rayon's `find_any` on the seeds `0..=limit`, with `Probe::test` as the
/// predicate: some seed that hits, whichever a worker reaches first, or `None`
/// once every seed was tested and none hit.
#[verifier::external_body]
pub(crate) fn par_find_any(limit: u32, probe: &Probe) -> (found: Option<u32>)
    ensures
        match found {
            Some(seed) => seed <= limit && probe.hits(seed),
            None => forall|seed: u32| seed <= limit ==> !probe.hits(seed),
        },
{
    (0..=limit).into_par_iter().find_any(|seed| probe.test(*seed))
}

/// rayon's `try_for_each_with` on the seeds `0..=limit`, started with a clone
/// of the sender: each worker gets a clone of its own and calls `offer_pair`
/// once for each of its seeds, so the channel takes each hit once, in no fixed
/// order. A failed send stops the scan early and comes back as the error; the
/// hits sent until then stay sent. Where no seed hits, nothing is sent and
/// nothing fails.
#[verifier::external_body]
pub(crate) fn par_offer_pairs(
    limit: u32,
    probe: &Probe,
    is_old: bool,
    tx: &mut Sender<(u32, bool)>,
) -> (r: Result<(), CrackError>)
    ensures
        reported(
            sent_pairs(*old(tx)),
            sent_pairs(*final(tx)),
            probe.tagged_hits_up_to(limit, is_old),
            r is Ok,
        ),
        r matches Err(e) ==> e == CrackError::ChannelProtocolViolation,
        r is Err ==> probe.hits_within(limit),
{
    (0..=limit).into_par_iter().try_for_each_with(
        tx.clone(),
        |tx, seed| offer_pair(tx, probe, is_old, seed),
    )
}

/// rayon's `try_for_each_with` on the seeds `0..=limit`, started with a clone
/// of the sender: each worker gets a clone of its own and calls `offer_seed`
/// once for each of its seeds, so the channel takes each hit once, in no fixed
/// order. A failed send stops the scan early and comes back as the error; the
/// hits sent until then stay sent. Where no seed hits, nothing is sent and
/// nothing fails.
#[verifier::external_body]
pub(crate) fn par_offer_seeds(limit: u32, probe: &Probe, tx: &mut Sender<u32>) -> (r: Result<
    (),
    CrackError,
>)
    ensures
        reported(sent_seeds(*old(tx)), sent_seeds(*final(tx)), probe.hits_up_to(limit), r is Ok),
        r matches Err(e) ==> e == CrackError::ChannelProtocolViolation,
        r is Err ==> probe.hits_within(limit),
{
    (0..=limit).into_par_iter().try_for_each_with(tx.clone(), |tx, seed| offer_seed(tx, probe, seed))
}

} // verus!
