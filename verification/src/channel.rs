//! The result channel: the sending half of an unbounded crossbeam channel,
//! through which a search hands over each seed as soon as it is found.

use crate::error::CrackError;
use crossbeam_channel::{SendError, Sender};
use vstd::prelude::*;
use vstd::seq_lib::lemma_no_dup_in_concat;

verus! {

#[verifier::external_type_specification]
#[verifier::external_body]
#[verifier::reject_recursive_types(T)]
pub struct ExSender<T>(Sender<T>);

#[verifier::external_type_specification]
#[verifier::external_body]
#[verifier::reject_recursive_types(T)]
pub struct ExSendError<T>(SendError<T>);

/// The seeds with their variant flags that the channel has taken through this
/// sender, and through the clones that a scan makes of it for its workers,
/// oldest first. What a receiver has taken out again still counts.
pub uninterp spec fn sent_pairs(tx: Sender<(u32, bool)>) -> Seq<(u32, bool)>;

/// The seeds that the channel has taken through this sender, and through the
/// clones that a scan makes of it for its workers, oldest first. What a
/// receiver has taken out again still counts.
pub uninterp spec fn sent_seeds(tx: Sender<u32>) -> Seq<u32>;

/// `crossbeam_channel::Sender::send`: the channel takes the message, or, when
/// every receiver is gone, hands it back in the error and takes nothing. On an
/// unbounded channel the call does not wait; on a bounded one it waits for room.
#[verifier::external_body]
pub(crate) fn send_pair(tx: &mut Sender<(u32, bool)>, seed: u32, is_old: bool) -> (r: Result<
    (),
    SendError<(u32, bool)>,
>)
    ensures
        r is Ok ==> sent_pairs(*final(tx)) == sent_pairs(*old(tx)).push((seed, is_old)),
        r is Err ==> sent_pairs(*final(tx)) == sent_pairs(*old(tx)),
{
    tx.send((seed, is_old))
}

/// `crossbeam_channel::Sender::send`, for a channel of bare seeds: the channel
/// takes the seed, or, when every receiver is gone, hands it back in the error
/// and takes nothing. On an unbounded channel the call does not wait; on a
/// bounded one it waits for room.
#[verifier::external_body]
pub(crate) fn send_seed(tx: &mut Sender<u32>, seed: u32) -> (r: Result<(), SendError<u32>>)
    ensures
        r is Ok ==> sent_seeds(*final(tx)) == sent_seeds(*old(tx)).push(seed),
        r is Err ==> sent_seeds(*final(tx)) == sent_seeds(*old(tx)),
{
    tx.send(seed)
}

/// What a search makes of a send: one that the channel refused, because the
/// consumer has gone away, is a violation of the protocol.
pub fn delivery<T>(sent: Result<(), SendError<T>>) -> (r: Result<(), CrackError>)
    ensures
        r is Ok <==> sent is Ok,
        r matches Err(e) ==> e == CrackError::ChannelProtocolViolation,
{
    match sent {
        Ok(()) => Ok(()),
        Err(_) => Err(CrackError::ChannelProtocolViolation),
    }
}

/// What a scan does to a channel: `after` is `before` with new messages
/// behind it, none of them twice and each of them wanted; where the scan was
/// `complete`, every wanted message is among them.
pub open spec fn reported<A>(before: Seq<A>, after: Seq<A>, wanted: Set<A>, complete: bool) -> bool {
    &&& before.is_prefix_of(after)
    &&& after.skip(before.len() as int).no_duplicates()
    &&& forall|x: A| #[trigger] after.skip(before.len() as int).contains(x) ==> wanted.contains(x)
    &&& complete ==> forall|x: A| #[trigger]
        wanted.contains(x) ==> after.skip(before.len() as int).contains(x)
}

/// A scan that wants nothing, or was not made, leaves the channel as reported.
pub proof fn lemma_reported_nothing<A>(before: Seq<A>, wanted: Set<A>, complete: bool)
    requires
        complete ==> wanted =~= Set::empty(),
    ensures
        reported(before, before, wanted, complete),
{
    assert(before.skip(before.len() as int) =~= Seq::<A>::empty());
}

/// Two scans, one after the other, that want different messages: together
/// they report what either wants, the first scan's messages first.
pub proof fn lemma_reported_chain<A>(
    before: Seq<A>,
    mid: Seq<A>,
    after: Seq<A>,
    first: Set<A>,
    second: Set<A>,
    first_complete: bool,
    second_complete: bool,
)
    requires
        reported(before, mid, first, first_complete),
        reported(mid, after, second, second_complete),
        first.disjoint(second),
    ensures
        reported(before, after, first.union(second), first_complete && second_complete),
        after.skip(before.len() as int) == mid.skip(before.len() as int) + after.skip(
            mid.len() as int,
        ),
{
    let added = after.skip(before.len() as int);
    let a1 = mid.skip(before.len() as int);
    let a2 = after.skip(mid.len() as int);
    assert(added =~= a1 + a2);
    assert forall|i: int, j: int| 0 <= i < a1.len() && 0 <= j < a2.len() implies a1[i] != a2[j] by {
        assert(a1.contains(a1[i]));
        assert(a2.contains(a2[j]));
    }
    lemma_no_dup_in_concat(a1, a2);
    assert forall|x: A| #[trigger] added.contains(x) implies first.union(second).contains(x) by {
        let i = choose|i: int| 0 <= i < added.len() && added[i] == x;
        if i < a1.len() {
            assert(a1[i] == x);
            assert(a1.contains(x));
        } else {
            assert(a2[i - a1.len()] == x);
            assert(a2.contains(x));
        }
    }
    if first_complete && second_complete {
        assert forall|x: A| #[trigger] first.union(second).contains(x) implies added.contains(
            x,
        ) by {
            if first.contains(x) {
                assert(a1.contains(x));
                let i = choose|i: int| 0 <= i < a1.len() && a1[i] == x;
                assert(added[i] == x);
            } else {
                assert(a2.contains(x));
                let j = choose|j: int| 0 <= j < a2.len() && a2[j] == x;
                assert(added[a1.len() + j] == x);
            }
        }
    }
}

} // verus!
