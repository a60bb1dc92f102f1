use warp_ipfs::error::Error;
use warp_ipfs::root::{insert_item, remove_item, Request, RequestType, RootLists};

const A: &str = "did:key:z6MkA";
const B: &str = "did:key:z6MkB";

#[test]
fn friends() {
    let mut lists = RootLists::new();
    assert_eq!(lists.add_friend(&A.to_string()), Ok(()));
    assert_eq!(lists.add_friend(&A.to_string()), Err(Error::FriendExist));
    assert_eq!(lists.add_friend(&B.to_string()), Ok(()));
    assert_eq!(lists.friends, vec![A.to_string(), B.to_string()]);
    assert_eq!(lists.remove_friend(&A.to_string()), Ok(()));
    assert_eq!(lists.remove_friend(&A.to_string()), Err(Error::FriendDoesntExist));
    assert_eq!(lists.friends, vec![B.to_string()]);
}

#[test]
fn blocks() {
    let mut lists = RootLists::new();
    assert!(!lists.is_blocked(&A.to_string()));
    assert_eq!(lists.block_key(&A.to_string()), Ok(()));
    assert!(lists.is_blocked(&A.to_string()));
    assert_eq!(lists.block_key(&A.to_string()), Err(Error::PublicKeyIsBlocked));
    assert_eq!(lists.unblock_key(&A.to_string()), Ok(()));
    assert_eq!(lists.unblock_key(&A.to_string()), Err(Error::PublicKeyIsntBlocked));
    assert_eq!(lists.add_blockby_key(&B.to_string()), Ok(()));
    assert!(lists.is_blocked_by(&B.to_string()));
    assert_eq!(lists.add_blockby_key(&B.to_string()), Err(Error::PublicKeyIsntBlocked));
    assert_eq!(lists.remove_blockby_key(&B.to_string()), Ok(()));
    assert_eq!(lists.remove_blockby_key(&B.to_string()), Err(Error::PublicKeyIsntBlocked));
    assert!(lists.friends.is_empty() && lists.blocks.is_empty() && lists.block_by.is_empty());
}

#[test]
fn requests() {
    let mut lists = RootLists::new();
    let incoming = Request::request_in_at(A.to_string(), 5);
    assert_eq!(incoming.request_type(), RequestType::Incoming);
    assert_eq!(incoming.did(), A);
    assert_eq!(incoming.date(), 5);
    assert_eq!(lists.add_request(&incoming), Ok(()));
    // Same direction and DID: the same request, whatever the date.
    assert_eq!(lists.add_request(&Request::request_in_at(A.to_string(), 9)), Err(Error::FriendRequestExist));
    // The other direction is another request.
    assert_eq!(lists.add_request(&Request::request_out_at(A.to_string(), 9)), Ok(()));
    assert_eq!(lists.requests.len(), 2);
    assert_eq!(lists.remove_request(&Request::request_in_at(A.to_string(), 1)), Ok(()));
    assert_eq!(lists.requests.len(), 1);
    assert_eq!(lists.requests[0].request_type(), RequestType::Outgoing);
    // Removing what is not there: the store answers with the same error.
    assert_eq!(lists.remove_request(&Request::request_in_at(A.to_string(), 1)), Err(Error::FriendRequestExist));
    let now = Request::request_out(B.to_string());
    assert!(now.same(&Request::request_out_at(B.to_string(), 0)));
    assert!(!now.same(&Request::request_in_at(B.to_string(), 0)));
}

#[test]
fn insert_then_remove_gives_the_list_back() {
    let mut list = vec![A.to_string()];
    assert!(insert_item(&mut list, &B.to_string()));
    assert!(!insert_item(&mut list, &B.to_string()));
    assert!(remove_item(&mut list, &B.to_string()));
    assert_eq!(list, vec![A.to_string()]);
    assert!(!remove_item(&mut list, &B.to_string()));
}

#[test]
fn request_queries() {
    let mut lists = RootLists::new();
    lists.add_request(&Request::request_in_at(A.to_string(), 1)).unwrap();
    lists.add_request(&Request::request_out_at(B.to_string(), 2)).unwrap();
    lists.add_request(&Request::request_in_at(B.to_string(), 3)).unwrap();
    assert_eq!(lists.list_incoming_request(), vec![A.to_string(), B.to_string()]);
    assert_eq!(lists.list_outgoing_request(), vec![B.to_string()]);
    assert!(lists.received_friend_request_from(&A.to_string()));
    assert!(lists.has_request_from(&B.to_string()));
    assert!(lists.sent_friend_request_to(&B.to_string()));
    assert!(!lists.sent_friend_request_to(&A.to_string()));
    assert!(!lists.is_friend(&A.to_string()));
    lists.add_friend(&A.to_string()).unwrap();
    assert!(lists.is_friend(&A.to_string()));
}
