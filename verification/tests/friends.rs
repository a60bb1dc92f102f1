use warp_ipfs::error::Error;
use warp_ipfs::friends::{
    accept_request, add_friend, drop_friend_requests, block, close_request, receive_request, record_outgoing, reject_request, remove_friend,
    send_request, unblock, Broadcast, FriendNotice,
};
use warp_ipfs::request::{Event, RequestResponsePayload, RequestResponsePayloadVersion};
use warp_ipfs::root::{Request, RootLists};

const A: &str = "did:key:z6MkAlice";
const B: &str = "did:key:z6MkBob";

fn s(x: &str) -> String {
    x.to_string()
}

/// A stand-in signature: the sender's DID and the event, as bytes.
fn toy_sign(p: &RequestResponsePayload) -> Vec<u8> {
    format!("{}|{:?}|{:?}", p.sender, p.event, p.created).into_bytes()
}

fn toy_check(sender: &String, p: &RequestResponsePayload, sig: &Vec<u8>) -> bool {
    *sender == p.sender && toy_sign(p) == *sig
}

fn payload(from: &str, event: Event, at: i64) -> RequestResponsePayload {
    RequestResponsePayload::new_unsigned(&s(from), event).sign_at(at, &toy_sign).expect("signed")
}

fn sends(event: Event, store_request: bool, queue: bool) -> Option<Broadcast> {
    Some(Broadcast { event, store_request, queue })
}

#[test]
fn a_request_accepted_makes_friends_on_both_sides() {
    let (a, b) = (s(A), s(B));
    let mut alice = RootLists::new();
    let mut bob = RootLists::new();

    let step = send_request(&mut alice, &a, &b).expect("sent");
    assert_eq!(step.broadcast, sends(Event::Request, true, true));
    record_outgoing(&mut alice, &b, 5);
    assert_eq!(alice.list_outgoing_request(), vec![b.clone()]);

    let step = receive_request(&mut bob, &payload(A, Event::Request, 5), &toy_check, 99).expect("taken");
    assert_eq!(step.broadcast, sends(Event::Response, false, false));
    assert_eq!(step.notices, vec![FriendNotice::FriendRequestReceived]);
    assert_eq!(bob.list_incoming_request(), vec![a.clone()]);
    assert!(matches!(bob.requests[0], Request::In { date: 5, .. }));
    // the same request again is ignored
    let again = receive_request(&mut bob, &payload(A, Event::Request, 6), &toy_check, 99).expect("ignored");
    assert_eq!((again.broadcast, again.notices.len()), (None, 0));

    let step = accept_request(&mut bob, &b, &a).expect("accepted");
    assert_eq!(step.broadcast, sends(Event::Accept, false, true));
    assert_eq!(step.notices, vec![FriendNotice::FriendAdded]);

    let step = receive_request(&mut alice, &payload(B, Event::Accept, 7), &toy_check, 99).expect("taken");
    assert_eq!(step.notices, vec![FriendNotice::FriendAdded]);

    assert!(alice.is_friend(&b) && bob.is_friend(&a));
    assert!(alice.requests.is_empty() && bob.requests.is_empty());
}

#[test]
fn sending_requests_is_checked() {
    let (a, b) = (s(A), s(B));
    let mut lists = RootLists::new();
    assert_eq!(send_request(&mut lists, &a, &a).err(), Some(Error::CannotSendSelfFriendRequest));
    lists.block_by.push(b.clone());
    assert_eq!(send_request(&mut lists, &a, &b).err(), Some(Error::BlockedByUser));
    lists.block_by.clear();
    lists.blocks.push(b.clone());
    assert_eq!(send_request(&mut lists, &a, &b).err(), Some(Error::PublicKeyIsBlocked));
    lists.blocks.clear();
    record_outgoing(&mut lists, &b, 1);
    assert_eq!(send_request(&mut lists, &a, &b).err(), Some(Error::FriendRequestExist));
    // recording twice keeps one request
    record_outgoing(&mut lists, &b, 2);
    assert_eq!(lists.requests.len(), 1);

    // a request from the other side is accepted instead
    let mut lists = RootLists::new();
    lists.add_request(&Request::request_in_at(b.clone(), 1)).unwrap();
    let step = send_request(&mut lists, &a, &b).expect("accepted");
    assert_eq!(step.broadcast, sends(Event::Accept, false, true));
    assert!(lists.is_friend(&b));
    assert_eq!(send_request(&mut lists, &a, &b).err(), Some(Error::FriendExist));
}

#[test]
fn rejecting_closing_and_removing() {
    let (a, b) = (s(A), s(B));
    let mut lists = RootLists::new();
    assert_eq!(reject_request(&mut lists, &a, &a).err(), Some(Error::CannotDenySelfAsFriend));
    assert_eq!(reject_request(&mut lists, &a, &b).err(), Some(Error::FriendRequestDoesntExist));
    assert_eq!(accept_request(&mut lists, &a, &a).err(), Some(Error::CannotAcceptSelfAsFriend));
    assert_eq!(accept_request(&mut lists, &a, &b).err(), Some(Error::FriendRequestDoesntExist));
    lists.add_request(&Request::request_in_at(b.clone(), 1)).unwrap();
    let step = reject_request(&mut lists, &a, &b).expect("rejected");
    assert_eq!(step.broadcast, sends(Event::Reject, false, true));
    assert!(lists.requests.is_empty());

    assert_eq!(close_request(&mut lists, &b, false).err(), Some(Error::CannotFindFriendRequest));
    record_outgoing(&mut lists, &b, 1);
    let step = close_request(&mut lists, &b, false).expect("closed");
    assert_eq!(step.broadcast, sends(Event::Retract, false, true));
    record_outgoing(&mut lists, &b, 1);
    let step = close_request(&mut lists, &b, true).expect("closed");
    assert_eq!(step.broadcast, None);
    assert_eq!(step.notices, vec![FriendNotice::OutgoingFriendRequestClosed]);

    assert_eq!(remove_friend(&mut lists, &b, true).err(), Some(Error::FriendDoesntExist));
    add_friend(&mut lists, &b).expect("added");
    assert_eq!(add_friend(&mut lists, &b).err(), Some(Error::FriendExist));
    let step = remove_friend(&mut lists, &b, true).expect("removed");
    assert_eq!(step.broadcast, sends(Event::Remove, false, true));
    assert_eq!(step.notices, vec![FriendNotice::FriendRemoved]);
    assert!(!lists.is_friend(&b));
}

#[test]
fn blocking_and_unblocking() {
    let (a, b) = (s(A), s(B));
    let mut lists = RootLists::new();
    assert_eq!(block(&mut lists, &a, &a).err(), Some(Error::CannotBlockOwnKey));
    lists.add_friend(&b).unwrap();
    lists.add_request(&Request::request_in_at(b.clone(), 1)).unwrap();
    lists.add_request(&Request::request_out_at(b.clone(), 2)).unwrap();
    let step = block(&mut lists, &a, &b).expect("blocked");
    assert_eq!(step.broadcast, sends(Event::Block, false, true));
    assert_eq!(step.notices, vec![FriendNotice::FriendRemoved]);
    assert!(lists.is_blocked(&b) && !lists.is_friend(&b) && lists.requests.is_empty());
    assert_eq!(block(&mut lists, &a, &b).err(), Some(Error::PublicKeyIsBlocked));
    // a blocked identity cannot be added as a friend
    assert_eq!(add_friend(&mut lists, &b).err(), Some(Error::PublicKeyIsBlocked));
    // whatever it sends is answered with a block
    let step = receive_request(&mut lists, &payload(B, Event::Request, 3), &toy_check, 9).expect("answered");
    assert_eq!(step.broadcast, sends(Event::Block, false, true));
    assert!(lists.requests.is_empty());

    assert_eq!(unblock(&mut lists, &a, &a).err(), Some(Error::CannotUnblockOwnKey));
    let step = unblock(&mut lists, &a, &b).expect("unblocked");
    assert_eq!(step.broadcast, sends(Event::Unblock, false, true));
    assert_eq!(unblock(&mut lists, &a, &b).err(), Some(Error::PublicKeyIsntBlocked));
}

#[test]
fn events_received() {
    let b = s(B);
    let mut lists = RootLists::new();

    // an unsigned payload of the current layout is ignored; the original layout is taken
    let mut forged = RequestResponsePayload::new_unsigned(&b, Event::Request);
    let step = receive_request(&mut lists, &forged, &toy_check, 4).expect("ignored");
    assert!(step.broadcast.is_none() && lists.requests.is_empty());
    forged.version = RequestResponsePayloadVersion::V0;
    let step = receive_request(&mut lists, &forged, &toy_check, 4).expect("taken");
    assert_eq!(step.notices, vec![FriendNotice::FriendRequestReceived]);
    // no date: dated now
    assert!(matches!(lists.requests[0], Request::In { date: 4, .. }));

    let step = receive_request(&mut lists, &payload(B, Event::Retract, 5), &toy_check, 9).expect("retracted");
    assert_eq!(step.notices, vec![FriendNotice::IncomingFriendRequestClosed]);
    assert_eq!(
        receive_request(&mut lists, &payload(B, Event::Retract, 5), &toy_check, 9).err(),
        Some(Error::FriendRequestDoesntExist)
    );
    assert_eq!(
        receive_request(&mut lists, &payload(B, Event::Reject, 5), &toy_check, 9).err(),
        Some(Error::FriendRequestDoesntExist)
    );
    assert!(matches!(
        receive_request(&mut lists, &payload(B, Event::Accept, 5), &toy_check, 9),
        Err(Error::OtherWithContext(_))
    ));

    record_outgoing(&mut lists, &b, 1);
    let step = receive_request(&mut lists, &payload(B, Event::Reject, 6), &toy_check, 9).expect("rejected");
    assert_eq!(step.notices, vec![FriendNotice::OutgoingFriendRequestRejected]);

    // a request that meets ours makes a friend
    record_outgoing(&mut lists, &b, 1);
    let step = receive_request(&mut lists, &payload(B, Event::Request, 7), &toy_check, 9).expect("friend");
    assert_eq!(step.notices, vec![FriendNotice::FriendAdded]);
    assert!(lists.is_friend(&b));
    // a request from a friend is answered with an acceptance
    let step = receive_request(&mut lists, &payload(B, Event::Request, 8), &toy_check, 9).expect("answered");
    assert_eq!(step.broadcast, sends(Event::Accept, false, false));

    // a block: the friend goes, the block is recorded
    let step = receive_request(&mut lists, &payload(B, Event::Block, 9), &toy_check, 9).expect("blocked by");
    assert_eq!(step.notices, vec![FriendNotice::FriendRemoved, FriendNotice::BlockedBy]);
    assert!(lists.is_blocked_by(&b) && !lists.is_friend(&b));
    let step = receive_request(&mut lists, &payload(B, Event::Unblock, 10), &toy_check, 9).expect("unblocked by");
    assert_eq!(step.notices, vec![FriendNotice::UnblockedBy]);
    let step = receive_request(&mut lists, &payload(B, Event::Response, 11), &toy_check, 9).expect("nothing");
    assert!(step.broadcast.is_none() && step.notices.is_empty());
    let step = receive_request(&mut lists, &payload(B, Event::Remove, 12), &toy_check, 9).expect("nothing");
    assert!(step.notices.is_empty());
}

#[test]
fn requests_of_friends_are_dropped_at_start() {
    let mut lists = RootLists::new();
    assert_eq!(lists.add_friend(&s(B)), Ok(()));
    assert_eq!(lists.add_request(&Request::request_in_at(s(B), 1)), Ok(()));
    assert_eq!(lists.add_request(&Request::request_out_at(s(A), 2)), Ok(()));
    assert_eq!(lists.add_request(&Request::request_out_at(s(B), 3)), Ok(()));
    drop_friend_requests(&mut lists);
    assert_eq!(lists.requests.len(), 1);
    assert_eq!(lists.requests[0].did(), &s(A));
    assert_eq!(lists.friends, vec![s(B)]);
}
