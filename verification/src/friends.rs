//! The friend-request protocol over an identity's root lists: what sending,
//! accepting, rejecting and closing a request, adding and removing a friend,
//! blocking and unblocking do to the lists, and what the store then sends
//! the other identity and announces to its own subscribers. Sending over the
//! network and the announcements themselves are the caller's part.
use crate::error::Error;
use crate::request::{payload_verify_outcome, Event, PayloadView, RequestResponsePayload, RequestResponsePayloadVersion};
use crate::root::{
    first_request, has_request, request_position, requests_view, same_request, Request, RequestType, RootLists,
    RootListsView,
};
use vstd::prelude::*;

verus! {

/// What the store announces to its subscribers about the other identity.
#[derive(PartialEq, Eq, Structural, Clone, Copy, Debug)]
pub enum FriendNotice {
    FriendAdded,
    FriendRemoved,
    FriendRequestReceived,
    OutgoingFriendRequestRejected,
    IncomingFriendRequestClosed,
    OutgoingFriendRequestClosed,
    BlockedBy,
    UnblockedBy,
}

/// A payload to send the other identity: its event, whether an outgoing
/// request is recorded for it (see `record_outgoing`), and whether it waits
/// in the queue when it cannot be delivered now.
#[derive(PartialEq, Eq, Structural, Clone, Copy, Debug)]
pub struct Broadcast {
    pub event: Event,
    pub store_request: bool,
    pub queue: bool,
}

/// What a step of the protocol asks of the caller: what to send the other
/// identity, and what to announce, in order.
#[derive(Debug)]
pub struct FriendStep {
    pub broadcast: Option<Broadcast>,
    pub notices: Vec<FriendNotice>,
}

/// `s` sends `b` and announces `n`.
pub open spec fn step_is(s: FriendStep, b: Option<Broadcast>, n: Seq<FriendNotice>) -> bool {
    s.broadcast == b && s.notices@ == n
}

pub open spec fn sending(event: Event, store_request: bool, queue: bool) -> Option<Broadcast> {
    Some(Broadcast { event, store_request, queue })
}

/// A request of direction `t` with `did`, whatever its date.
pub open spec fn key(t: RequestType, did: Seq<char>) -> (RequestType, Seq<char>, i64) {
    (t, did, 0)
}

/// A request of direction `t` with `did` is pending.
pub open spec fn pending(v: RootListsView, t: RequestType, did: Seq<char>) -> bool {
    has_request(v.requests, key(t, did))
}

/// The lists without the first pending request of direction `t` with `did`.
pub open spec fn without_request(v: RootListsView, t: RequestType, did: Seq<char>) -> RootListsView {
    RootListsView { requests: v.requests.remove(first_request(v.requests, key(t, did))), ..v }
}

/// Whether a request is with another identity than `did`.
pub open spec fn not_with(did: Seq<char>) -> spec_fn((RequestType, Seq<char>, i64)) -> bool {
    |r: (RequestType, Seq<char>, i64)| r.1 != did
}

/// The lists without any request with `did`.
pub open spec fn without_requests_of(v: RootListsView, did: Seq<char>) -> RootListsView {
    RootListsView { requests: v.requests.filter(not_with(did)), ..v }
}

pub open spec fn with_friend(v: RootListsView, did: Seq<char>) -> RootListsView {
    RootListsView { friends: v.friends.push(did), ..v }
}

pub open spec fn without_friend(v: RootListsView, did: Seq<char>) -> RootListsView {
    RootListsView { friends: v.friends.remove(v.friends.index_of_first(did).unwrap()), ..v }
}

/// What adding `did` as a friend does (after a request was accepted): one
/// that is a friend, or blocked, is refused; a new friend is announced.
pub open spec fn add_friend_outcome(
    before: RootListsView,
    did: Seq<char>,
    after: RootListsView,
    r: Result<FriendStep, Error>,
) -> bool {
    if before.friends.contains(did) {
        r == Err::<FriendStep, Error>(Error::FriendExist) && after == before
    } else if before.blocks.contains(did) {
        r == Err::<FriendStep, Error>(Error::PublicKeyIsBlocked) && after == before
    } else {
        r matches Ok(s) && step_is(s, None, seq![FriendNotice::FriendAdded]) && after == with_friend(before, did)
    }
}

/// What removing the friend `did` does: one that is not a friend is
/// refused; the removal is announced, and sent to `did` when `broadcast`.
pub open spec fn remove_friend_outcome(
    before: RootListsView,
    did: Seq<char>,
    broadcast: bool,
    after: RootListsView,
    r: Result<FriendStep, Error>,
) -> bool {
    if !before.friends.contains(did) {
        r == Err::<FriendStep, Error>(Error::FriendDoesntExist) && after == before
    } else {
        r matches Ok(s) && step_is(
            s,
            if broadcast {
                sending(Event::Remove, false, true)
            } else {
                None
            },
            seq![FriendNotice::FriendRemoved],
        ) && after == without_friend(before, did)
    }
}

/// What accepting the request of `did` does: accepting oneself, or a
/// request that is not pending, is refused. The request goes; a friend
/// already is left as is; otherwise `did` becomes a friend (refused when
/// blocked, the request gone all the same) and is told so.
pub open spec fn accept_outcome(
    before: RootListsView,
    own: Seq<char>,
    did: Seq<char>,
    after: RootListsView,
    r: Result<FriendStep, Error>,
) -> bool {
    let b1 = without_request(before, RequestType::Incoming, did);
    if own == did {
        r == Err::<FriendStep, Error>(Error::CannotAcceptSelfAsFriend) && after == before
    } else if !pending(before, RequestType::Incoming, did) {
        r == Err::<FriendStep, Error>(Error::FriendRequestDoesntExist) && after == before
    } else if before.friends.contains(did) {
        r matches Ok(s) && step_is(s, None, Seq::empty()) && after == b1
    } else if before.blocks.contains(did) {
        r == Err::<FriendStep, Error>(Error::PublicKeyIsBlocked) && after == b1
    } else {
        r matches Ok(s) && step_is(s, sending(Event::Accept, false, true), seq![FriendNotice::FriendAdded])
            && after == with_friend(b1, did)
    }
}

/// What sending a friend request to `did` does: refused to oneself, to a
/// friend, to one that blocked this identity or that it blocked, and when a
/// request to `did` is pending already; a request from `did` is accepted
/// instead. Otherwise the request is sent, recorded as outgoing.
pub open spec fn send_outcome(
    before: RootListsView,
    own: Seq<char>,
    did: Seq<char>,
    after: RootListsView,
    r: Result<FriendStep, Error>,
) -> bool {
    if own == did {
        r == Err::<FriendStep, Error>(Error::CannotSendSelfFriendRequest) && after == before
    } else if before.friends.contains(did) {
        r == Err::<FriendStep, Error>(Error::FriendExist) && after == before
    } else if before.block_by.contains(did) {
        r == Err::<FriendStep, Error>(Error::BlockedByUser) && after == before
    } else if before.blocks.contains(did) {
        r == Err::<FriendStep, Error>(Error::PublicKeyIsBlocked) && after == before
    } else if pending(before, RequestType::Incoming, did) {
        accept_outcome(before, own, did, after, r)
    } else if pending(before, RequestType::Outgoing, did) {
        r == Err::<FriendStep, Error>(Error::FriendRequestExist) && after == before
    } else {
        r matches Ok(s) && step_is(s, sending(Event::Request, true, true), Seq::empty()) && after == before
    }
}

/// What rejecting the request of `did` does: rejecting oneself, or a
/// request that is not pending, is refused; otherwise the request goes and
/// `did` is told.
pub open spec fn reject_outcome(
    before: RootListsView,
    own: Seq<char>,
    did: Seq<char>,
    after: RootListsView,
    r: Result<FriendStep, Error>,
) -> bool {
    if own == did {
        r == Err::<FriendStep, Error>(Error::CannotDenySelfAsFriend) && after == before
    } else if !pending(before, RequestType::Incoming, did) {
        r == Err::<FriendStep, Error>(Error::FriendRequestDoesntExist) && after == before
    } else {
        r matches Ok(s) && step_is(s, sending(Event::Reject, false, true), Seq::empty()) && after == without_request(
            before,
            RequestType::Incoming,
            did,
        )
    }
}

/// What closing the request sent to `did` does: one that is not pending is
/// refused; otherwise it goes. When it still waits in the queue, unsent, it
/// is dropped there and its closing announced; otherwise `did` is told.
pub open spec fn close_outcome(
    before: RootListsView,
    did: Seq<char>,
    queued_request: bool,
    after: RootListsView,
    r: Result<FriendStep, Error>,
) -> bool {
    if !pending(before, RequestType::Outgoing, did) {
        r == Err::<FriendStep, Error>(Error::CannotFindFriendRequest) && after == before
    } else {
        &&& after == without_request(before, RequestType::Outgoing, did)
        &&& r matches Ok(s) && if queued_request {
            step_is(s, None, seq![FriendNotice::OutgoingFriendRequestClosed])
        } else {
            step_is(s, sending(Event::Retract, false, true), Seq::empty())
        }
    }
}

/// What blocking `did` does: blocking oneself, or one blocked already, is
/// refused. Otherwise `did` is blocked, its requests go, a friend is
/// removed (and that announced), and `did` is told.
pub open spec fn block_outcome(
    before: RootListsView,
    own: Seq<char>,
    did: Seq<char>,
    after: RootListsView,
    r: Result<FriendStep, Error>,
) -> bool {
    let b = without_requests_of(RootListsView { blocks: before.blocks.push(did), ..before }, did);
    if own == did {
        r == Err::<FriendStep, Error>(Error::CannotBlockOwnKey) && after == before
    } else if before.blocks.contains(did) {
        r == Err::<FriendStep, Error>(Error::PublicKeyIsBlocked) && after == before
    } else if before.friends.contains(did) {
        r matches Ok(s) && step_is(s, sending(Event::Block, false, true), seq![FriendNotice::FriendRemoved])
            && after == without_friend(b, did)
    } else {
        r matches Ok(s) && step_is(s, sending(Event::Block, false, true), Seq::empty()) && after == b
    }
}

/// What unblocking `did` does: unblocking oneself, or one not blocked, is
/// refused; otherwise `did` is unblocked and told.
pub open spec fn unblock_outcome(
    before: RootListsView,
    own: Seq<char>,
    did: Seq<char>,
    after: RootListsView,
    r: Result<FriendStep, Error>,
) -> bool {
    if own == did {
        r == Err::<FriendStep, Error>(Error::CannotUnblockOwnKey) && after == before
    } else if !before.blocks.contains(did) {
        r == Err::<FriendStep, Error>(Error::PublicKeyIsntBlocked) && after == before
    } else {
        r matches Ok(s) && step_is(s, sending(Event::Unblock, false, true), Seq::empty()) && after == RootListsView {
            blocks: before.blocks.remove(before.blocks.index_of_first(did).unwrap()),
            ..before
        }
    }
}

/// The lists once the request sent to `did` at `date` is recorded as
/// outgoing, unless one is pending already.
pub open spec fn recorded(before: RootListsView, did: Seq<char>, date: i64) -> RootListsView {
    if pending(before, RequestType::Outgoing, did) {
        before
    } else {
        RootListsView { requests: before.requests.push((RequestType::Outgoing, did, date)), ..before }
    }
}

/// The text of the error an acceptance gives when no request to its sender
/// is pending.
pub open spec fn unlocated() -> Seq<char> {
    "Unable to locate pending request. Already been accepted or rejected?"@
}

/// The notices of a block received from `did`: a pending request is closed
/// (one from `did`) or rejected (one to `did`).
pub open spec fn blocked_notices(before: RootListsView, did: Seq<char>) -> Seq<FriendNotice> {
    if pending(before, RequestType::Incoming, did) {
        seq![FriendNotice::IncomingFriendRequestClosed]
    } else if pending(before, RequestType::Outgoing, did) {
        seq![FriendNotice::OutgoingFriendRequestRejected]
    } else {
        Seq::empty()
    }
}

/// What a payload received from another identity does, `verified` telling
/// whether its signature checked out. A payload that fails the check is
/// ignored, unless it is of the first layout (which carries no
/// signature). A request already pending from its sender is ignored. A
/// blocked sender is told again that it is blocked, whatever else it sent.
/// Otherwise, by event:
/// - an acceptance needs the request sent to its sender, which goes; the
///   sender becomes a friend;
/// - a request from a friend is answered with an acceptance; one that meets
///   the request sent to its sender makes it a friend; any other is
///   recorded as incoming and announced; either way a response is sent;
/// - a rejection needs the request sent to its sender, which goes;
/// - a removal removes a friend;
/// - a retraction needs the request from its sender, which goes;
/// - a block closes or rejects the pending request between the two, drops
///   every request with the sender, removes it as a friend and records that
///   it blocked this identity;
/// - an unblock forgets that the sender blocked this identity;
/// - a response changes nothing.
pub open spec fn receive_outcome(
    before: RootListsView,
    p: PayloadView,
    verified: bool,
    now: i64,
    after: RootListsView,
    r: Result<FriendStep, Error>,
) -> bool {
    let sender = p.sender;
    if !verified && p.version != RequestResponsePayloadVersion::V0 {
        r matches Ok(s) && step_is(s, None, Seq::empty()) && after == before
    } else if p.event == Event::Request && pending(before, RequestType::Incoming, sender) {
        r matches Ok(s) && step_is(s, None, Seq::empty()) && after == before
    } else if before.blocks.contains(sender) && p.event != Event::Block {
        r matches Ok(s) && step_is(s, sending(Event::Block, false, true), Seq::empty()) && after == before
    } else {
        match p.event {
            Event::Accept => if !pending(before, RequestType::Outgoing, sender) {
                r matches Err(Error::OtherWithContext(t)) && t@ == unlocated() && after == before
            } else {
                add_friend_outcome(without_request(before, RequestType::Outgoing, sender), sender, after, r)
            },
            Event::Request => if before.friends.contains(sender) {
                r matches Ok(s) && step_is(s, sending(Event::Accept, false, false), Seq::empty()) && after == before
            } else if pending(before, RequestType::Outgoing, sender) {
                r matches Ok(s) && step_is(s, sending(Event::Response, false, false), seq![FriendNotice::FriendAdded])
                    && after == with_friend(without_request(before, RequestType::Outgoing, sender), sender)
            } else {
                r matches Ok(s) && step_is(
                    s,
                    sending(Event::Response, false, false),
                    seq![FriendNotice::FriendRequestReceived],
                ) && after == RootListsView {
                    requests: before.requests.push(
                        (
                            RequestType::Incoming,
                            sender,
                            match p.created {
                                Some(d) => d,
                                None => now,
                            },
                        ),
                    ),
                    ..before
                }
            },
            Event::Reject => if !pending(before, RequestType::Outgoing, sender) {
                r == Err::<FriendStep, Error>(Error::FriendRequestDoesntExist) && after == before
            } else {
                r matches Ok(s) && step_is(s, None, seq![FriendNotice::OutgoingFriendRequestRejected]) && after
                    == without_request(before, RequestType::Outgoing, sender)
            },
            Event::Remove => if before.friends.contains(sender) {
                r matches Ok(s) && step_is(s, None, seq![FriendNotice::FriendRemoved]) && after == without_friend(
                    before,
                    sender,
                )
            } else {
                r matches Ok(s) && step_is(s, None, Seq::empty()) && after == before
            },
            Event::Retract => if !pending(before, RequestType::Incoming, sender) {
                r == Err::<FriendStep, Error>(Error::FriendRequestDoesntExist) && after == before
            } else {
                r matches Ok(s) && step_is(s, None, seq![FriendNotice::IncomingFriendRequestClosed]) && after
                    == without_request(before, RequestType::Incoming, sender)
            },
            Event::Block => {
                let b1 = without_requests_of(before, sender);
                let b2 = if before.friends.contains(sender) {
                    without_friend(b1, sender)
                } else {
                    b1
                };
                let n = if before.friends.contains(sender) {
                    blocked_notices(before, sender).push(FriendNotice::FriendRemoved)
                } else {
                    blocked_notices(before, sender)
                };
                if before.block_by.contains(sender) {
                    r matches Ok(s) && step_is(s, None, n) && after == b2
                } else {
                    r matches Ok(s) && step_is(s, None, n.push(FriendNotice::BlockedBy)) && after == RootListsView {
                        block_by: before.block_by.push(sender),
                        ..b2
                    }
                }
            },
            Event::Unblock => if before.block_by.contains(sender) {
                r matches Ok(s) && step_is(s, None, seq![FriendNotice::UnblockedBy]) && after == RootListsView {
                    block_by: before.block_by.remove(before.block_by.index_of_first(sender).unwrap()),
                    ..before
                }
            } else {
                r matches Ok(s) && step_is(s, None, Seq::empty()) && after == before
            },
            Event::Response => r matches Ok(s) && step_is(s, None, Seq::empty()) && after == before,
        }
    }
}

fn step(broadcast: Option<Broadcast>, notices: Vec<FriendNotice>) -> (r: FriendStep)
    ensures
        r.broadcast == broadcast,
        r.notices@ == notices@,
{
    FriendStep { broadcast, notices }
}

fn no_notice() -> (r: Vec<FriendNotice>)
    ensures
        r@ == Seq::<FriendNotice>::empty(),
{
    Vec::new()
}

fn one_notice(n: FriendNotice) -> (r: Vec<FriendNotice>)
    ensures
        r@ == seq![n],
{
    let mut v = Vec::new();
    v.push(n);
    assert(v@ =~= seq![n]);
    v
}

fn probe(t: RequestType, did: &String) -> (r: Request)
    ensures
        crate::root::request_view(r) == key(t, did@),
{
    match t {
        RequestType::Incoming => Request::In { did: did.clone(), date: 0 },
        RequestType::Outgoing => Request::Out { did: did.clone(), date: 0 },
    }
}

/// Whether a request of direction `t` with `did` is pending.
pub fn is_pending(lists: &RootLists, t: RequestType, did: &String) -> (b: bool)
    ensures
        b == pending(lists@, t, did@),
{
    let req = probe(t, did);
    let i = request_position(&lists.requests, &req);
    if i < lists.requests.len() {
        assert(same_request(requests_view(lists.requests@)[i as int], key(t, did@)));
        true
    } else {
        assert forall|k: int| 0 <= k < lists@.requests.len() implies !(#[trigger] same_request(
            lists@.requests[k],
            key(t, did@),
        )) by {}
        false
    }
}

/// The lists once every request to or from a friend is dropped.
pub open spec fn without_friend_requests(v: RootListsView) -> RootListsView {
    RootListsView { requests: v.requests.filter(|r: (RequestType, Seq<char>, i64)| !v.friends.contains(r.1)), ..v }
}

/// Drops every pending request to or from an identity that is a friend
/// already, as a precaution when the store starts.
pub fn drop_friend_requests(lists: &mut RootLists)
    ensures
        final(lists)@ == without_friend_requests(old(lists)@),
{
    let ghost before = lists@;
    let ghost all = requests_view(lists.requests@);
    let mut kept: Vec<Request> = Vec::new();
    let mut i: usize = 0;
    while i < lists.requests.len()
        invariant
            i <= lists.requests@.len(),
            all == requests_view(lists.requests@),
            lists@ == before,
            requests_view(kept@) == all.subrange(0, i as int).filter(
                |r: (RequestType, Seq<char>, i64)| !before.friends.contains(r.1),
            ),
        decreases lists.requests@.len() - i,
    {
        proof {
            assert(all.subrange(0, i + 1).drop_last() =~= all.subrange(0, i as int));
            reveal_with_fuel(Seq::filter, 1);
        }
        let friend = crate::assoc::contains_did(&lists.friends, lists.requests[i].did());
        proof {
            crate::assoc::lemma_has_did_view(lists.friends@, all[i as int].1);
        }
        if !friend {
            let ghost k = requests_view(kept@);
            kept.push(lists.requests[i].copy());
            assert(requests_view(kept@) =~= k.push(all[i as int]));
        }
        i += 1;
    }
    assert(all.subrange(0, all.len() as int) =~= all);
    lists.requests = kept;
}

fn drop_request(lists: &mut RootLists, t: RequestType, did: &String)
    requires
        pending(old(lists)@, t, did@),
    ensures
        final(lists)@ == without_request(old(lists)@, t, did@),
{
    let req = probe(t, did);
    let r = lists.remove_request(&req);
}

fn drop_requests_of(lists: &mut RootLists, did: &String)
    ensures
        final(lists)@ == without_requests_of(old(lists)@, did@),
{
    let ghost before = lists@;
    let ghost all = requests_view(lists.requests@);
    let mut kept: Vec<Request> = Vec::new();
    let mut i: usize = 0;
    while i < lists.requests.len()
        invariant
            i <= lists.requests@.len(),
            all == requests_view(lists.requests@),
            lists@ == before,
            requests_view(kept@) == all.subrange(0, i as int).filter(not_with(did@)),
        decreases lists.requests@.len() - i,
    {
        proof {
            assert(all.subrange(0, i + 1).drop_last() =~= all.subrange(0, i as int));
            reveal_with_fuel(Seq::filter, 1);
        }
        if *lists.requests[i].did() != *did {
            let ghost k = requests_view(kept@);
            kept.push(lists.requests[i].copy());
            assert(requests_view(kept@) =~= k.push(all[i as int]));
        }
        i += 1;
    }
    assert(all.subrange(0, all.len() as int) =~= all);
    lists.requests = kept;
}

/// Adds `did` as a friend once a request between the two was accepted.
pub fn add_friend(lists: &mut RootLists, did: &String) -> (r: Result<FriendStep, Error>)
    ensures
        add_friend_outcome(old(lists)@, did@, final(lists)@, r),
{
    if lists.is_friend(did) {
        return Err(Error::FriendExist);
    }
    if lists.is_blocked(did) {
        return Err(Error::PublicKeyIsBlocked);
    }
    let _ = lists.add_friend(did);
    Ok(step(None, one_notice(FriendNotice::FriendAdded)))
}

/// Removes the friend `did`, telling it when `broadcast`.
pub fn remove_friend(lists: &mut RootLists, did: &String, broadcast: bool) -> (r: Result<FriendStep, Error>)
    ensures
        remove_friend_outcome(old(lists)@, did@, broadcast, final(lists)@, r),
{
    if !lists.is_friend(did) {
        return Err(Error::FriendDoesntExist);
    }
    let _ = lists.remove_friend(did);
    let b = if broadcast {
        Some(Broadcast { event: Event::Remove, store_request: false, queue: true })
    } else {
        None
    };
    Ok(step(b, one_notice(FriendNotice::FriendRemoved)))
}

/// Accepts the friend request of `did`.
pub fn accept_request(lists: &mut RootLists, own: &String, did: &String) -> (r: Result<FriendStep, Error>)
    ensures
        accept_outcome(old(lists)@, own@, did@, final(lists)@, r),
{
    if *own == *did {
        return Err(Error::CannotAcceptSelfAsFriend);
    }
    if !is_pending(lists, RequestType::Incoming, did) {
        return Err(Error::FriendRequestDoesntExist);
    }
    drop_request(lists, RequestType::Incoming, did);
    if lists.is_friend(did) {
        return Ok(step(None, no_notice()));
    }
    match add_friend(lists, did) {
        Err(e) => Err(e),
        Ok(_) => Ok(
            step(
                Some(Broadcast { event: Event::Accept, store_request: false, queue: true }),
                one_notice(FriendNotice::FriendAdded),
            ),
        ),
    }
}

/// Sends a friend request to `did`.
pub fn send_request(lists: &mut RootLists, own: &String, did: &String) -> (r: Result<FriendStep, Error>)
    ensures
        send_outcome(old(lists)@, own@, did@, final(lists)@, r),
{
    if *own == *did {
        return Err(Error::CannotSendSelfFriendRequest);
    }
    if lists.is_friend(did) {
        return Err(Error::FriendExist);
    }
    if lists.is_blocked_by(did) {
        return Err(Error::BlockedByUser);
    }
    if lists.is_blocked(did) {
        return Err(Error::PublicKeyIsBlocked);
    }
    if is_pending(lists, RequestType::Incoming, did) {
        return accept_request(lists, own, did);
    }
    if is_pending(lists, RequestType::Outgoing, did) {
        return Err(Error::FriendRequestExist);
    }
    Ok(step(Some(Broadcast { event: Event::Request, store_request: true, queue: true }), no_notice()))
}

/// Records the request sent to `did` at `date` as outgoing, unless one is
/// pending already.
pub fn record_outgoing(lists: &mut RootLists, did: &String, date: i64)
    ensures
        final(lists)@ == recorded(old(lists)@, did@, date),
{
    let req = Request::Out { did: did.clone(), date };
    let ghost v = lists@.requests;
    proof {
        lemma_same_key(v, (RequestType::Outgoing, did@, date), key(RequestType::Outgoing, did@));
    }
    let _ = lists.add_request(&req);
}

/// Requests that agree in direction and DID are the same request, whatever
/// their dates.
proof fn lemma_same_key(v: Seq<(RequestType, Seq<char>, i64)>, a: (RequestType, Seq<char>, i64), b: (RequestType, Seq<char>, i64))
    requires
        a.0 == b.0,
        a.1 == b.1,
    ensures
        has_request(v, a) == has_request(v, b),
{
    if has_request(v, a) {
        let i = choose|i: int| 0 <= i < v.len() && #[trigger] same_request(v[i], a);
        assert(same_request(v[i], b));
    }
    if has_request(v, b) {
        let i = choose|i: int| 0 <= i < v.len() && #[trigger] same_request(v[i], b);
        assert(same_request(v[i], a));
    }
}

/// Rejects the friend request of `did`.
pub fn reject_request(lists: &mut RootLists, own: &String, did: &String) -> (r: Result<FriendStep, Error>)
    ensures
        reject_outcome(old(lists)@, own@, did@, final(lists)@, r),
{
    if *own == *did {
        return Err(Error::CannotDenySelfAsFriend);
    }
    if !is_pending(lists, RequestType::Incoming, did) {
        return Err(Error::FriendRequestDoesntExist);
    }
    drop_request(lists, RequestType::Incoming, did);
    Ok(step(Some(Broadcast { event: Event::Reject, store_request: false, queue: true }), no_notice()))
}

/// Closes the friend request sent to `did`; `queued_request` tells whether
/// it still waits, unsent, in the queue.
pub fn close_request(lists: &mut RootLists, did: &String, queued_request: bool) -> (r: Result<FriendStep, Error>)
    ensures
        close_outcome(old(lists)@, did@, queued_request, final(lists)@, r),
{
    if !is_pending(lists, RequestType::Outgoing, did) {
        return Err(Error::CannotFindFriendRequest);
    }
    drop_request(lists, RequestType::Outgoing, did);
    if queued_request {
        Ok(step(None, one_notice(FriendNotice::OutgoingFriendRequestClosed)))
    } else {
        Ok(step(Some(Broadcast { event: Event::Retract, store_request: false, queue: true }), no_notice()))
    }
}

/// Blocks `did`.
pub fn block(lists: &mut RootLists, own: &String, did: &String) -> (r: Result<FriendStep, Error>)
    ensures
        block_outcome(old(lists)@, own@, did@, final(lists)@, r),
{
    if *own == *did {
        return Err(Error::CannotBlockOwnKey);
    }
    if lists.is_blocked(did) {
        return Err(Error::PublicKeyIsBlocked);
    }
    let _ = lists.block_key(did);
    drop_requests_of(lists, did);
    let b = Some(Broadcast { event: Event::Block, store_request: false, queue: true });
    if lists.is_friend(did) {
        let _ = lists.remove_friend(did);
        Ok(step(b, one_notice(FriendNotice::FriendRemoved)))
    } else {
        Ok(step(b, no_notice()))
    }
}

/// Unblocks `did`.
pub fn unblock(lists: &mut RootLists, own: &String, did: &String) -> (r: Result<FriendStep, Error>)
    ensures
        unblock_outcome(old(lists)@, own@, did@, final(lists)@, r),
{
    if *own == *did {
        return Err(Error::CannotUnblockOwnKey);
    }
    if !lists.is_blocked(did) {
        return Err(Error::PublicKeyIsntBlocked);
    }
    let _ = lists.unblock_key(did);
    Ok(step(Some(Broadcast { event: Event::Unblock, store_request: false, queue: true }), no_notice()))
}

/// Takes a payload another identity sent (see `receive_outcome`); its
/// signature is checked with `check`, and `now` dates an incoming request
/// that carries no date.
pub fn receive_request<G: Fn(&String, &RequestResponsePayload, &Vec<u8>) -> bool>(
    lists: &mut RootLists,
    payload: &RequestResponsePayload,
    check: &G,
    now: i64,
) -> (r: Result<FriendStep, Error>)
    requires
        forall|d: &String, p: &RequestResponsePayload, s: &Vec<u8>| call_requires(*check, (d, p, s)),
    ensures
        exists|v: Result<(), Error>|
            #[trigger] payload_verify_outcome(*check, payload@, v) && receive_outcome(
                old(lists)@,
                payload@,
                v is Ok,
                now,
                final(lists)@,
                r,
            ),
{
    let v = payload.verify(check);
    let verified = v.is_ok();
    let sender = &payload.sender;
    if !verified && payload.version != RequestResponsePayloadVersion::V0 {
        return Ok(step(None, no_notice()));
    }
    if payload.event == Event::Request && is_pending(lists, RequestType::Incoming, sender) {
        return Ok(step(None, no_notice()));
    }
    if lists.is_blocked(sender) && payload.event != Event::Block {
        return Ok(step(Some(Broadcast { event: Event::Block, store_request: false, queue: true }), no_notice()));
    }
    match payload.event {
        Event::Accept => {
            if !is_pending(lists, RequestType::Outgoing, sender) {
                return Err(
                    Error::OtherWithContext(
                        String::from_str("Unable to locate pending request. Already been accepted or rejected?"),
                    ),
                );
            }
            drop_request(lists, RequestType::Outgoing, sender);
            add_friend(lists, sender)
        },
        Event::Request => {
            if lists.is_friend(sender) {
                return Ok(
                    step(Some(Broadcast { event: Event::Accept, store_request: false, queue: false }), no_notice()),
                );
            }
            let response = Some(Broadcast { event: Event::Response, store_request: false, queue: false });
            if is_pending(lists, RequestType::Outgoing, sender) {
                drop_request(lists, RequestType::Outgoing, sender);
                let _ = lists.add_friend(sender);
                Ok(step(response, one_notice(FriendNotice::FriendAdded)))
            } else {
                let date = match payload.created {
                    Some(d) => d,
                    None => now,
                };
                let req = Request::In { did: sender.clone(), date };
                proof {
                    lemma_same_key(lists@.requests, (RequestType::Incoming, sender@, date), key(RequestType::Incoming, sender@));
                }
                let _ = lists.add_request(&req);
                Ok(step(response, one_notice(FriendNotice::FriendRequestReceived)))
            }
        },
        Event::Reject => {
            if !is_pending(lists, RequestType::Outgoing, sender) {
                return Err(Error::FriendRequestDoesntExist);
            }
            drop_request(lists, RequestType::Outgoing, sender);
            Ok(step(None, one_notice(FriendNotice::OutgoingFriendRequestRejected)))
        },
        Event::Remove => {
            if lists.is_friend(sender) {
                let _ = lists.remove_friend(sender);
                Ok(step(None, one_notice(FriendNotice::FriendRemoved)))
            } else {
                Ok(step(None, no_notice()))
            }
        },
        Event::Retract => {
            if !is_pending(lists, RequestType::Incoming, sender) {
                return Err(Error::FriendRequestDoesntExist);
            }
            drop_request(lists, RequestType::Incoming, sender);
            Ok(step(None, one_notice(FriendNotice::IncomingFriendRequestClosed)))
        },
        Event::Block => {
            let mut notices: Vec<FriendNotice> = Vec::new();
            if is_pending(lists, RequestType::Incoming, sender) {
                notices.push(FriendNotice::IncomingFriendRequestClosed);
            } else if is_pending(lists, RequestType::Outgoing, sender) {
                notices.push(FriendNotice::OutgoingFriendRequestRejected);
            }
            let ghost before = lists@;
            assert(notices@ =~= blocked_notices(before, sender@));
            drop_requests_of(lists, sender);
            if lists.is_friend(sender) {
                let _ = lists.remove_friend(sender);
                notices.push(FriendNotice::FriendRemoved);
            }
            if lists.add_blockby_key(sender).is_ok() {
                notices.push(FriendNotice::BlockedBy);
            }
            Ok(step(None, notices))
        },
        Event::Unblock => {
            if lists.remove_blockby_key(sender).is_ok() {
                Ok(step(None, one_notice(FriendNotice::UnblockedBy)))
            } else {
                Ok(step(None, no_notice()))
            }
        },
        Event::Response => Ok(step(None, no_notice())),
    }
}

/// A request of direction `t` with `did`, added where none was pending, is
/// pending; dropping it gives the requests back.
proof fn lemma_pushed_request(v: RootListsView, t: RequestType, did: Seq<char>, date: i64)
    requires
        !pending(v, t, did),
    ensures
        pending(RootListsView { requests: v.requests.push((t, did, date)), ..v }, t, did),
        without_request(RootListsView { requests: v.requests.push((t, did, date)), ..v }, t, did) == v,
{
    let w = RootListsView { requests: v.requests.push((t, did, date)), ..v };
    let l = w.requests;
    assert(same_request(l[v.requests.len() as int], key(t, did)));
    assert(has_request(l, key(t, did)));
    let f = first_request(l, key(t, did));
    assert(f == v.requests.len()) by {
        if f < v.requests.len() {
            assert(l[f] == v.requests[f]);
        }
    }
    assert(l.remove(f) =~= v.requests);
    assert(without_request(w, t, did) =~= v);
}

/// A friend request that the other identity takes and accepts makes each
/// the other's friend and leaves no request pending between them: `a` sends
/// a request to `b` (and records it), `b` receives it (checked) and accepts
/// it, and `a` receives the acceptance (checked). Neither knew the other
/// before, and `a` was not blocked by or blocking `b`.
pub proof fn law_accepted_request_makes_friends(
    a: Seq<char>,
    b: Seq<char>,
    va: RootListsView,
    va1: RootListsView,
    s1: FriendStep,
    date: i64,
    vb: RootListsView,
    req: PayloadView,
    now: i64,
    vb1: RootListsView,
    rb1: Result<FriendStep, Error>,
    vb2: RootListsView,
    rb2: Result<FriendStep, Error>,
    acc: PayloadView,
    va3: RootListsView,
    ra: Result<FriendStep, Error>,
)
    requires
        a != b,
        !va.friends.contains(b),
        !va.blocks.contains(b),
        !va.block_by.contains(b),
        !pending(va, RequestType::Incoming, b),
        !pending(va, RequestType::Outgoing, b),
        !vb.friends.contains(a),
        !vb.blocks.contains(a),
        !pending(vb, RequestType::Incoming, a),
        !pending(vb, RequestType::Outgoing, a),
        send_outcome(va, a, b, va1, Ok(s1)),
        req.sender == a,
        req.event == Event::Request,
        req.created == Some(date),
        receive_outcome(vb, req, true, now, vb1, rb1),
        accept_outcome(vb1, b, a, vb2, rb2),
        acc.sender == b,
        acc.event == Event::Accept,
        receive_outcome(recorded(va1, b, date), acc, true, now, va3, ra),
    ensures
        s1.broadcast == sending(Event::Request, true, true),
        rb1 matches Ok(s) && s.broadcast == sending(Event::Response, false, false),
        rb2 matches Ok(s) && s.broadcast == sending(Event::Accept, false, true),
        ra is Ok,
        va3.friends.contains(b),
        vb2.friends.contains(a),
        !pending(va3, RequestType::Outgoing, b),
        !pending(vb2, RequestType::Incoming, a),
{
    // a sends: nothing changes until the request is recorded
    assert(va1 == va);
    let va2 = recorded(va1, b, date);
    lemma_pushed_request(va, RequestType::Outgoing, b, date);
    // b receives the request: it is recorded as incoming
    let vb_in = RootListsView { requests: vb.requests.push((RequestType::Incoming, a, date)), ..vb };
    assert(vb1 == vb_in);
    lemma_pushed_request(vb, RequestType::Incoming, a, date);
    // b accepts: the request goes and a is a friend
    assert(without_request(vb1, RequestType::Incoming, a) == vb);
    assert(vb2 == with_friend(vb, a));
    assert(vb2.friends[vb.friends.len() as int] == a);
    assert(vb2.requests == vb.requests);
    // a receives the acceptance: its request goes and b is a friend
    assert(without_request(va2, RequestType::Outgoing, b) == va);
    assert(va3 == with_friend(va, b));
    assert(va3.friends[va.friends.len() as int] == b);
    assert(va3.requests == va.requests);
}

/// Blocking succeeds exactly when `did` is another identity that is not
/// blocked yet. Then `did` is in the block list, whether or not it was a
/// friend; it is no longer a friend (it was one at most once); no request
/// with it is left pending; the other lists keep their entries; and the
/// block is sent to it. Otherwise nothing changes.
pub proof fn law_block_records_the_block(
    before: RootListsView,
    own: Seq<char>,
    did: Seq<char>,
    after: RootListsView,
    r: Result<FriendStep, Error>,
)
    requires
        block_outcome(before, own, did, after, r),
        before.friends.no_duplicates(),
    ensures
        r is Ok <==> own != did && !before.blocks.contains(did),
        r is Err ==> after == before,
        r matches Ok(s) ==> {
            &&& after.blocks.contains(did)
            &&& forall|x: Seq<char>| before.blocks.contains(x) ==> after.blocks.contains(x)
            &&& !after.friends.contains(did)
            &&& forall|x: Seq<char>| x != did && before.friends.contains(x) ==> after.friends.contains(x)
            &&& forall|k: int| 0 <= k < after.requests.len() ==> (#[trigger] after.requests[k]).1 != did
            &&& after.block_by == before.block_by
            &&& s.broadcast matches Some(b) && b.event == Event::Block
        },
{
    if r is Ok {
        let b0 = RootListsView { blocks: before.blocks.push(did), ..before };
        let b = without_requests_of(b0, did);
        assert(b0.blocks[before.blocks.len() as int] == did);
        assert(b.blocks.contains(did));
        assert forall|x: Seq<char>| before.blocks.contains(x) implies after.blocks.contains(x) by {
            let i = choose|i: int| 0 <= i < before.blocks.len() && before.blocks[i] == x;
            assert(after.blocks[i] == x);
        }
        assert(after.requests == b.requests);
        assert forall|k: int| 0 <= k < after.requests.len() implies (#[trigger] after.requests[k]).1 != did by {
            b0.requests.lemma_filter_pred(not_with(did), k);
        }
        if before.friends.contains(did) {
            let i = before.friends.index_of_first(did);
            let j = i.unwrap();
            before.friends.index_of_first_ensures(did);
            assert(after.friends == before.friends.remove(j));
            assert forall|x: Seq<char>| x != did && before.friends.contains(x) implies after.friends.contains(x) by {
                let m = choose|m: int| 0 <= m < before.friends.len() && before.friends[m] == x;
                if m < j {
                    assert(after.friends[m] == x);
                } else {
                    assert(m != j);
                    assert(after.friends[m - 1] == x);
                }
            }
            assert(!after.friends.contains(did)) by {
                if after.friends.contains(did) {
                    let m = choose|m: int| 0 <= m < after.friends.len() && after.friends[m] == did;
                    if m < j {
                        assert(before.friends[m] == did);
                    } else {
                        assert(before.friends[m + 1] == did);
                    }
                }
            }
        }
    }
}

/// Unblocking succeeds exactly when `did` is another identity that is
/// blocked. Then `did` is no longer in the block list (it was in it once),
/// every other blocked identity stays blocked, friends and requests are
/// untouched, and the unblock is sent to it. Otherwise nothing changes.
pub proof fn law_unblock_lifts_the_block(
    before: RootListsView,
    own: Seq<char>,
    did: Seq<char>,
    after: RootListsView,
    r: Result<FriendStep, Error>,
)
    requires
        unblock_outcome(before, own, did, after, r),
        before.blocks.no_duplicates(),
    ensures
        r is Ok <==> own != did && before.blocks.contains(did),
        r is Err ==> after == before,
        r matches Ok(s) ==> {
            &&& !after.blocks.contains(did)
            &&& forall|x: Seq<char>| x != did && before.blocks.contains(x) ==> after.blocks.contains(x)
            &&& forall|x: Seq<char>| after.blocks.contains(x) ==> before.blocks.contains(x)
            &&& after.friends == before.friends && after.requests == before.requests
            &&& s.broadcast matches Some(b) && b.event == Event::Unblock
        },
{
    if r is Ok {
        before.blocks.index_of_first_ensures(did);
        let j = before.blocks.index_of_first(did)->0;
        assert(after.blocks == before.blocks.remove(j));
        assert forall|x: Seq<char>| x != did && before.blocks.contains(x) implies after.blocks.contains(x) by {
            let m = choose|m: int| 0 <= m < before.blocks.len() && before.blocks[m] == x;
            if m < j {
                assert(after.blocks[m] == x);
            } else {
                assert(m != j);
                assert(after.blocks[m - 1] == x);
            }
        }
        assert forall|x: Seq<char>| after.blocks.contains(x) implies before.blocks.contains(x) by {
            let m = choose|m: int| 0 <= m < after.blocks.len() && after.blocks[m] == x;
            if m < j {
                assert(before.blocks[m] == x);
            } else {
                assert(before.blocks[m + 1] == x);
            }
        }
        assert(!after.blocks.contains(did)) by {
            if after.blocks.contains(did) {
                let m = choose|m: int| 0 <= m < after.blocks.len() && after.blocks[m] == did;
                if m < j {
                    assert(before.blocks[m] == did);
                } else {
                    assert(before.blocks[m + 1] == did);
                }
            }
        }
    }
}

} // verus!
