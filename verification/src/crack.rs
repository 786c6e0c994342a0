//! The searches: each walks the whole domain of candidate seeds in parallel
//! and tests every seed with a generator of its own.

use crate::channel::{
    lemma_reported_chain, lemma_reported_nothing, reported, sent_pairs, sent_seeds,
};
use crate::cli::Version;
use crate::domain::{domain_limit, lemma_domain_covers};
use crate::error::CrackError;
use crate::model::stream;
use crate::random::BASH_RAND_MAX;
use crate::scan::{par_find_any, par_offer_pairs, par_offer_seeds, Probe};
use crossbeam_channel::Sender;
use vstd::prelude::*;

verus! {

/// A search that ends with the first seed found.
pub trait OneResultCracker {
    /// What a seed must give to be found.
    spec fn probe(&self) -> Probe;

    /// The largest seed that is tried.
    spec fn limit(&self) -> u32;

    /// Some seed of the domain that hits, or `None` where none does. Where
    /// several hit, any of them may come back.
    fn find(&self) -> (found: Option<u32>)
        ensures
            match found {
                Some(seed) => seed <= self.limit() && self.probe().hits(seed),
                None => forall|seed: u32| seed <= self.limit() ==> !self.probe().hits(seed),
            },
    ;
}

pub struct New3Cracker {
    target: [u16; 3],
}

impl New3Cracker {
    pub fn new(target: [u16; 3]) -> (cracker: Self)
        ensures
            cracker.probe() == (Probe::Triple { triple: target, is_old: false }),
    {
        Self { target }
    }
}

impl OneResultCracker for New3Cracker {
    closed spec fn probe(&self) -> Probe {
        Probe::Triple { triple: self.target, is_old: false }
    }

    open spec fn limit(&self) -> u32 {
        domain_limit(false)
    }

    fn find(&self) -> (found: Option<u32>) {
        // 30 bits
        par_find_any(u32::MAX / 4, &Probe::Triple { triple: self.target, is_old: false })
    }
}

pub struct Old3Cracker {
    target: [u16; 3],
}

impl Old3Cracker {
    pub fn new(target: [u16; 3]) -> (cracker: Self)
        ensures
            cracker.probe() == (Probe::Triple { triple: target, is_old: true }),
    {
        Self { target }
    }
}

impl OneResultCracker for Old3Cracker {
    closed spec fn probe(&self) -> Probe {
        Probe::Triple { triple: self.target, is_old: true }
    }

    open spec fn limit(&self) -> u32 {
        domain_limit(true)
    }

    fn find(&self) -> (found: Option<u32>) {
        // 31 bits
        par_find_any(u32::MAX / 2, &Probe::Triple { triple: self.target, is_old: true })
    }
}

/// A search that sends every seed found, with the flag of its rule.
pub trait MultiResultCracker {
    /// What a seed must give to be sent.
    spec fn probe(&self) -> Probe;

    /// The largest seed that is tried.
    spec fn limit(&self) -> u32;

    /// The flag that goes with each seed: whether the rule is the old one.
    spec fn is_old(&self) -> bool;

    /// Sends each seed of the domain that hits, once, as soon as it is found.
    /// The scan never stops early on a hit; it ends early, with the error,
    /// only where the channel no longer takes a message.
    fn find(&self, tx: &mut Sender<(u32, bool)>) -> (r: Result<(), CrackError>)
        ensures
            reported(
                sent_pairs(*old(tx)),
                sent_pairs(*final(tx)),
                self.probe().tagged_hits_up_to(self.limit(), self.is_old()),
                r is Ok,
            ),
            r matches Err(e) ==> e == CrackError::ChannelProtocolViolation,
            r is Err ==> self.probe().hits_within(self.limit()),
    ;
}

pub struct New2Cracker {
    target: [u16; 2],
}

impl New2Cracker {
    pub fn new(target: [u16; 2]) -> (cracker: Self)
        ensures
            cracker.probe() == (Probe::Pair { pair: target, is_old: false }),
    {
        Self { target }
    }
}

impl MultiResultCracker for New2Cracker {
    closed spec fn probe(&self) -> Probe {
        Probe::Pair { pair: self.target, is_old: false }
    }

    open spec fn limit(&self) -> u32 {
        domain_limit(false)
    }

    open spec fn is_old(&self) -> bool {
        false
    }

    fn find(&self, tx: &mut Sender<(u32, bool)>) -> (r: Result<(), CrackError>) {
        par_offer_pairs(u32::MAX / 4, &Probe::Pair { pair: self.target, is_old: false }, false, tx)
    }
}

pub struct Old2Cracker {
    target: [u16; 2],
}

impl Old2Cracker {
    pub fn new(target: [u16; 2]) -> (cracker: Self)
        ensures
            cracker.probe() == (Probe::Pair { pair: target, is_old: true }),
    {
        Self { target }
    }
}

impl MultiResultCracker for Old2Cracker {
    closed spec fn probe(&self) -> Probe {
        Probe::Pair { pair: self.target, is_old: true }
    }

    open spec fn limit(&self) -> u32 {
        domain_limit(true)
    }

    open spec fn is_old(&self) -> bool {
        true
    }

    fn find(&self, tx: &mut Sender<(u32, bool)>) -> (r: Result<(), CrackError>) {
        // 31 bits
        par_offer_pairs(u32::MAX / 2, &Probe::Pair { pair: self.target, is_old: true }, true, tx)
    }
}

/// A search that sends every seed found, without a flag.
pub trait MultiResultVersionCracker {
    /// What a seed must give to be sent.
    spec fn probe(&self) -> Probe;

    /// The largest seed that is tried.
    spec fn limit(&self) -> u32;

    /// Sends each seed of the domain that hits, once, as soon as it is found.
    /// The scan never stops early on a hit; it ends early, with the error,
    /// only where the channel no longer takes a message.
    fn find(&self, tx: &mut Sender<u32>) -> (r: Result<(), CrackError>)
        ensures
            reported(
                sent_seeds(*old(tx)),
                sent_seeds(*final(tx)),
                self.probe().hits_up_to(self.limit()),
                r is Ok,
            ),
            r matches Err(e) ==> e == CrackError::ChannelProtocolViolation,
            r is Err ==> self.probe().hits_within(self.limit()),
    ;
}

pub struct CollisionCracker {
    target: u16,
}

impl CollisionCracker {
    pub fn new(target: u16) -> (cracker: Self)
        ensures
            cracker.probe() == (Probe::Collision { target }),
    {
        Self { target }
    }
}

impl MultiResultVersionCracker for CollisionCracker {
    closed spec fn probe(&self) -> Probe {
        Probe::Collision { target: self.target }
    }

    open spec fn limit(&self) -> u32 {
        domain_limit(false)
    }

    fn find(&self, tx: &mut Sender<u32>) -> (r: Result<(), CrackError>) {
        par_offer_seeds(u32::MAX / 4, &Probe::Collision { target: self.target }, tx)
    }
}

pub struct New1Cracker {
    target: u16,
}

impl New1Cracker {
    pub fn new(target: u16) -> (cracker: Self)
        ensures
            cracker.probe() == (Probe::Second { target, is_old: false }),
    {
        Self { target }
    }
}

impl MultiResultVersionCracker for New1Cracker {
    closed spec fn probe(&self) -> Probe {
        Probe::Second { target: self.target, is_old: false }
    }

    open spec fn limit(&self) -> u32 {
        domain_limit(false)
    }

    fn find(&self, tx: &mut Sender<u32>) -> (r: Result<(), CrackError>) {
        par_offer_seeds(u32::MAX / 4, &Probe::Second { target: self.target, is_old: false }, tx)
    }
}

pub struct Old1Cracker {
    target: u16,
}

impl Old1Cracker {
    pub fn new(target: u16) -> (cracker: Self)
        ensures
            cracker.probe() == (Probe::Second { target, is_old: true }),
    {
        Self { target }
    }
}

impl MultiResultVersionCracker for Old1Cracker {
    closed spec fn probe(&self) -> Probe {
        Probe::Second { target: self.target, is_old: true }
    }

    open spec fn limit(&self) -> u32 {
        domain_limit(true)
    }

    fn find(&self, tx: &mut Sender<u32>) -> (r: Result<(), CrackError>) {
        par_offer_seeds(u32::MAX / 2, &Probe::Second { target: self.target, is_old: true }, tx)
    }
}

/// Every observed value fits in 15 bits.
pub open spec fn in_range(numbers: Seq<u16>) -> bool {
    forall|i: int| 0 <= i < numbers.len() ==> numbers[i] <= BASH_RAND_MAX
}

/// Some seed gives `numbers` as its first outputs under the rule.
pub open spec fn matched(numbers: Seq<u16>, is_old: bool) -> bool {
    exists|seed: u32| stream(seed, is_old, numbers.len()) == numbers
}

/// What `crack_unique` may return on `numbers` under the choice `version`.
pub open spec fn unique_outcome(
    numbers: Seq<u16>,
    version: Version,
    r: Result<(u32, bool), CrackError>,
) -> bool {
    match r {
        Ok((seed, is_old)) => {
            &&& in_range(numbers)
            &&& version.allows(is_old)
            &&& seed <= domain_limit(is_old)
            &&& stream(seed, is_old, numbers.len()) == numbers
            &&& is_old && version.allows(false) ==> !matched(numbers, false)
        },
        Err(CrackError::InvalidObservation) => !in_range(numbers),
        Err(CrackError::NotFound) => {
            &&& in_range(numbers)
            &&& forall|is_old: bool| version.allows(is_old) ==> !matched(numbers, is_old)
        },
        Err(CrackError::ChannelProtocolViolation) => false,
    }
}

/// Whether every observed value fits in 15 bits.
pub fn check_observations(numbers: &[u16]) -> (ok: bool)
    ensures
        ok == in_range(numbers@),
{
    let mut i: usize = 0;
    while i < numbers.len()
        invariant
            i <= numbers.len(),
            forall|j: int| 0 <= j < i ==> numbers[j] <= BASH_RAND_MAX,
        decreases numbers.len() - i,
    {
        if numbers[i] > BASH_RAND_MAX {
            return false;
        }
        i = i + 1;
    }
    true
}

/// Where no seed of the domain hits, no seed at all gives the numbers.
proof fn lemma_none_in_domain(probe: Probe, numbers: Seq<u16>, is_old: bool)
    requires
        forall|seed: u32| seed <= domain_limit(is_old) ==> !probe.hits(seed),
        forall|seed: u32| probe.hits(seed) == (stream(seed, is_old, numbers.len()) == numbers),
    ensures
        !matched(numbers, is_old),
{
    if matched(numbers, is_old) {
        let seed = choose|seed: u32| stream(seed, is_old, numbers.len()) == numbers;
        let y = lemma_domain_covers(seed, is_old);
        assert(stream(y, is_old, numbers.len()) == numbers);
        assert(probe.hits(y));
    }
}

/// Finds a seed whose first three outputs are `numbers`, under the new rule
/// where `version` takes it in and a seed matches, else under the old rule.
pub fn crack_unique(numbers: [u16; 3], version: Version) -> (r: Result<(u32, bool), CrackError>)
    ensures
        unique_outcome(numbers@, version, r),
{
    if !check_observations(numbers.as_slice()) {
        return Err(CrackError::InvalidObservation);
    }
    let (version_old, version_new) = version.flags();
    let mut seed: Option<u32> = None;
    let mut is_old = false;

    if version_new {
        let cracker = New3Cracker::new(numbers);
        seed = cracker.find();
        proof {
            if seed is None {
                lemma_none_in_domain(cracker.probe(), numbers@, false);
            }
        }
    }
    if version_old && seed.is_none() {
        let cracker = Old3Cracker::new(numbers);
        seed = cracker.find();
        is_old = true;
        proof {
            if seed is None {
                lemma_none_in_domain(cracker.probe(), numbers@, true);
            }
        }
    }
    match seed {
        Some(seed) => Ok((seed, is_old)),
        None => Err(CrackError::NotFound),
    }
}

/// The seeds of the domains, each with the flag of its rule, that give
/// `numbers` as their first outputs under a rule that `version` takes in.
pub open spec fn wanted_pairs(numbers: Seq<u16>, version: Version) -> Set<(u32, bool)> {
    Set::new(
        |pair: (u32, bool)|
            version.allows(pair.1) && pair.0 <= domain_limit(pair.1) && stream(
                pair.0,
                pair.1,
                numbers.len(),
            ) == numbers,
    )
}

/// No seed of the old rule stands before a seed of the new rule.
pub open spec fn news_first(pairs: Seq<(u32, bool)>) -> bool {
    forall|i: int, j: int| 0 <= i < j < pairs.len() && pairs[i].1 ==> pairs[j].1
}

/// Where every wanted pair carries one flag, so does every pair that was sent.
proof fn lemma_reported_flag(
    before: Seq<(u32, bool)>,
    after: Seq<(u32, bool)>,
    wanted: Set<(u32, bool)>,
    complete: bool,
    is_old: bool,
)
    requires
        reported(before, after, wanted, complete),
        forall|pair: (u32, bool)| wanted.contains(pair) ==> pair.1 == is_old,
    ensures
        forall|i: int|
            0 <= i < after.skip(before.len() as int).len() ==> (#[trigger] after.skip(
                before.len() as int,
            )[i]).1 == is_old,
{
    let added = after.skip(before.len() as int);
    assert forall|i: int| 0 <= i < added.len() implies (#[trigger] added[i]).1 == is_old by {
        assert(added.contains(added[i]));
    }
}

/// Sends every seed whose first two outputs are `numbers`: the whole domain
/// of the new rule first, where `version` takes it in, then that of the old.
pub fn crack_multi(numbers: [u16; 2], version: Version, tx: &mut Sender<(u32, bool)>) -> (r: Result<
    (),
    CrackError,
>)
    ensures
        !in_range(numbers@) ==> (r matches Err(e) && e == CrackError::InvalidObservation)
            && sent_pairs(*final(tx)) == sent_pairs(*old(tx)),
        in_range(numbers@) ==> reported(
            sent_pairs(*old(tx)),
            sent_pairs(*final(tx)),
            wanted_pairs(numbers@, version),
            r is Ok,
        ),
        in_range(numbers@) ==> news_first(
            sent_pairs(*final(tx)).skip(sent_pairs(*old(tx)).len() as int),
        ),
        in_range(numbers@) ==> (r matches Err(e) ==> e == CrackError::ChannelProtocolViolation),
        in_range(numbers@) && r is Err ==> exists|pair: (u32, bool)|
            wanted_pairs(numbers@, version).contains(pair),
{
    if !check_observations(numbers.as_slice()) {
        return Err(CrackError::InvalidObservation);
    }
    let (version_old, version_new) = version.flags();
    let ghost before = sent_pairs(*tx);
    let ghost news = if version_new {
        wanted_pairs(numbers@, Version::New)
    } else {
        Set::empty()
    };
    let ghost olds = if version_old {
        wanted_pairs(numbers@, Version::Old)
    } else {
        Set::empty()
    };
    let mut outcome: Result<(), CrackError> = Ok(());

    if version_new {
        let cracker = New2Cracker::new(numbers);
        outcome = cracker.find(tx);
        proof {
            assert(news =~= cracker.probe().tagged_hits_up_to(cracker.limit(), cracker.is_old()));
        }
    } else {
        proof {
            lemma_reported_nothing(before, news, true);
        }
    }
    let ghost mid = sent_pairs(*tx);
    let ghost news_complete = outcome is Ok;
    proof {
        if outcome is Err {
            let probe = Probe::Pair { pair: numbers, is_old: false };
            let seed = choose|seed: u32| seed <= domain_limit(false) && probe.hits(seed);
            assert(wanted_pairs(numbers@, version).contains((seed, false)));
        }
    }

    if version_old && outcome.is_ok() {
        let cracker = Old2Cracker::new(numbers);
        outcome = cracker.find(tx);
        proof {
            assert(olds =~= cracker.probe().tagged_hits_up_to(cracker.limit(), cracker.is_old()));
            if outcome is Err {
                let probe = Probe::Pair { pair: numbers, is_old: true };
                let seed = choose|seed: u32| seed <= domain_limit(true) && probe.hits(seed);
                assert(wanted_pairs(numbers@, version).contains((seed, true)));
            }
        }
    } else {
        proof {
            lemma_reported_nothing(mid, olds, outcome is Ok);
        }
    }
    proof {
        let after = sent_pairs(*tx);
        lemma_reported_flag(before, mid, news, news_complete, false);
        lemma_reported_flag(mid, after, olds, outcome is Ok, true);
        lemma_reported_chain(before, mid, after, news, olds, news_complete, outcome is Ok);
        assert(wanted_pairs(numbers@, version) =~= news.union(olds));
    }
    outcome
}

/// Sends every seed of the lowest quarter whose second output is `target`
/// under the old rule and under the new rule alike.
pub fn crack_collision(target: u16, tx: &mut Sender<u32>) -> (r: Result<(), CrackError>)
    ensures
        target > BASH_RAND_MAX ==> (r matches Err(e) && e == CrackError::InvalidObservation)
            && sent_seeds(*final(tx)) == sent_seeds(*old(tx)),
        target <= BASH_RAND_MAX ==> reported(
            sent_seeds(*old(tx)),
            sent_seeds(*final(tx)),
            (Probe::Collision { target }).hits_up_to(domain_limit(false)),
            r is Ok,
        ),
        target <= BASH_RAND_MAX ==> (r matches Err(e) ==> e
            == CrackError::ChannelProtocolViolation),
        target <= BASH_RAND_MAX && r is Err ==> (Probe::Collision { target }).hits_within(
            domain_limit(false),
        ),
{
    if target > BASH_RAND_MAX {
        return Err(CrackError::InvalidObservation);
    }
    let cracker = CollisionCracker::new(target);
    cracker.find(tx)
}

} // verus!
