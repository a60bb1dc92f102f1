//! The lists an identity's root document keeps: friends, blocked identities,
//! identities that blocked it, and pending friend requests. Each holds an
//! entry at most once; adding what is there, or removing what is not, is
//! refused with the list's own error.
use crate::assoc::{contains_did, has_did, lemma_has_did_view};
use crate::clock::now_nanos;
use crate::codec::strings_view;
use crate::error::Error;
use vstd::prelude::*;

verus! {

/// Adding `did` to `list`: refused when it is there, else it goes last.
pub open spec fn spec_insert_item(list: Seq<Seq<char>>, did: Seq<char>) -> Option<Seq<Seq<char>>> {
    if list.contains(did) {
        None
    } else {
        Some(list.push(did))
    }
}

/// Removing `did` from `list`: refused when it is not there, else its first
/// occurrence goes.
pub open spec fn spec_remove_item(list: Seq<Seq<char>>, did: Seq<char>) -> Option<Seq<Seq<char>>> {
    if list.contains(did) {
        Some(list.remove(list.index_of_first(did).unwrap()))
    } else {
        None
    }
}

fn position(list: &Vec<String>, did: &String) -> (r: usize)
    ensures
        r <= list@.len(),
        r < list@.len() ==> list@[r as int]@ == did@,
        forall|k: int| 0 <= k < r ==> list@[k]@ != did@,
{
    let mut i: usize = 0;
    while i < list.len()
        invariant
            i <= list@.len(),
            forall|k: int| 0 <= k < i ==> list@[k]@ != did@,
        decreases list@.len() - i,
    {
        if list[i] == *did {
            return i;
        }
        i += 1;
    }
    i
}

/// Adds `did` unless it is there; tells whether it was added.
pub fn insert_item(list: &mut Vec<String>, did: &String) -> (added: bool)
    ensures
        match spec_insert_item(strings_view(old(list)@), did@) {
            Some(l) => added && strings_view(final(list)@) == l,
            None => !added && final(list)@ == old(list)@,
        },
{
    proof {
        lemma_has_did_view(list@, did@);
    }
    if contains_did(list, did) {
        return false;
    }
    let ghost before = strings_view(list@);
    list.push(did.clone());
    assert(strings_view(list@) =~= before.push(did@));
    true
}

/// Removes the first `did` if there is one; tells whether one was removed.
pub fn remove_item(list: &mut Vec<String>, did: &String) -> (removed: bool)
    ensures
        match spec_remove_item(strings_view(old(list)@), did@) {
            Some(l) => removed && strings_view(final(list)@) == l,
            None => !removed && final(list)@ == old(list)@,
        },
{
    let ghost before = strings_view(list@);
    let i = position(list, did);
    if i == list.len() {
        assert forall|k: int| 0 <= k < before.len() implies before[k] != did@ by {
            assert(before[k] == list@[k]@);
        }
        return false;
    }
    proof {
        assert(before[i as int] == did@);
        assert(before.contains(did@));
        let f = before.index_of_first(did@);
        before.index_of_first_ensures(did@);
        assert forall|k: int| 0 <= k < i implies before[k] != did@ by {
            assert(before[k] == list@[k]@);
        }
        assert(f.unwrap() == i);
    }
    list.remove(i);
    assert(strings_view(list@) =~= before.remove(i as int));
    true
}

#[derive(PartialEq, Eq, Structural, Clone, Copy, Debug)]
pub enum RequestType {
    Incoming,
    Outgoing,
}

/// A friend request, incoming or outgoing, with the other identity's DID and
/// its date (nanoseconds since the epoch).
#[derive(Debug)]
pub enum Request {
    In { did: String, date: i64 },
    Out { did: String, date: i64 },
}

/// A request by view: its direction, DID and date.
pub open spec fn request_view(r: Request) -> (RequestType, Seq<char>, i64) {
    match r {
        Request::In { did, date } => (RequestType::Incoming, did@, date),
        Request::Out { did, date } => (RequestType::Outgoing, did@, date),
    }
}

pub open spec fn requests_view(s: Seq<Request>) -> Seq<(RequestType, Seq<char>, i64)> {
    Seq::new(s.len(), |i: int| request_view(s[i]))
}

/// Two requests are the same when direction and DID agree; the date does
/// not count.
pub open spec fn same_request(a: (RequestType, Seq<char>, i64), b: (RequestType, Seq<char>, i64)) -> bool {
    a.0 == b.0 && a.1 == b.1
}

/// Some request of `list` is the same as `r`.
pub open spec fn has_request(list: Seq<(RequestType, Seq<char>, i64)>, r: (RequestType, Seq<char>, i64)) -> bool {
    exists|i: int| 0 <= i < list.len() && #[trigger] same_request(list[i], r)
}

/// Position of the first request of `list` that is the same as `r`.
pub open spec fn first_request(list: Seq<(RequestType, Seq<char>, i64)>, r: (RequestType, Seq<char>, i64)) -> int {
    choose|i: int|
        0 <= i < list.len() && same_request(list[i], r) && forall|k: int| 0 <= k < i ==> !same_request(list[k], r)
}

/// The DIDs of the requests of direction `t`, in order.
pub open spec fn request_dids(s: Seq<(RequestType, Seq<char>, i64)>, t: RequestType) -> Seq<Seq<char>>
    decreases s.len(),
{
    if s.len() == 0 {
        Seq::empty()
    } else if s.last().0 == t {
        request_dids(s.drop_last(), t).push(s.last().1)
    } else {
        request_dids(s.drop_last(), t)
    }
}

impl Request {
    /// An incoming request from `did` at time `now`.
    pub fn request_in_at(did: String, now: i64) -> (r: Self)
        ensures
            request_view(r) == (RequestType::Incoming, did@, now),
    {
        Request::In { did, date: now }
    }

    /// An outgoing request to `did` at time `now`.
    pub fn request_out_at(did: String, now: i64) -> (r: Self)
        ensures
            request_view(r) == (RequestType::Outgoing, did@, now),
    {
        Request::Out { did, date: now }
    }

    /// An incoming request from `did`, dated now.
    pub fn request_in(did: String) -> (r: Self)
        ensures
            request_view(r).0 == RequestType::Incoming && request_view(r).1 == did@,
    {
        Self::request_in_at(did, now_nanos())
    }

    /// An outgoing request to `did`, dated now.
    pub fn request_out(did: String) -> (r: Self)
        ensures
            request_view(r).0 == RequestType::Outgoing && request_view(r).1 == did@,
    {
        Self::request_out_at(did, now_nanos())
    }

    pub fn request_type(&self) -> (t: RequestType)
        ensures
            t == request_view(*self).0,
    {
        match self {
            Request::In { .. } => RequestType::Incoming,
            Request::Out { .. } => RequestType::Outgoing,
        }
    }

    pub fn did(&self) -> (d: &String)
        ensures
            d@ == request_view(*self).1,
    {
        match self {
            Request::In { did, .. } => did,
            Request::Out { did, .. } => did,
        }
    }

    pub fn date(&self) -> (d: i64)
        ensures
            d == request_view(*self).2,
    {
        match self {
            Request::In { date, .. } => *date,
            Request::Out { date, .. } => *date,
        }
    }

    /// The requests' equality: same direction and DID.
    pub fn same(&self, other: &Self) -> (b: bool)
        ensures
            b == same_request(request_view(*self), request_view(*other)),
    {
        self.request_type() == other.request_type() && *self.did() == *other.did()
    }

    pub fn copy(&self) -> (r: Self)
        ensures
            request_view(r) == request_view(*self),
    {
        match self {
            Request::In { did, date } => Request::In { did: did.clone(), date: *date },
            Request::Out { did, date } => Request::Out { did: did.clone(), date: *date },
        }
    }
}

pub(crate) fn request_position(list: &Vec<Request>, request: &Request) -> (r: usize)
    ensures
        r <= list@.len(),
        r < list@.len() ==> same_request(requests_view(list@)[r as int], request_view(*request)),
        forall|k: int| 0 <= k < r ==> !same_request(requests_view(list@)[k], request_view(*request)),
{
    let mut i: usize = 0;
    while i < list.len()
        invariant
            i <= list@.len(),
            forall|k: int| 0 <= k < i ==> !same_request(requests_view(list@)[k], request_view(*request)),
        decreases list@.len() - i,
    {
        if list[i].same(request) {
            return i;
        }
        i += 1;
    }
    i
}

/// The root document's lists.
#[derive(Debug)]
pub struct RootLists {
    pub friends: Vec<String>,
    pub blocks: Vec<String>,
    pub block_by: Vec<String>,
    pub requests: Vec<Request>,
}

#[verifier::ext_equal]
pub struct RootListsView {
    pub friends: Seq<Seq<char>>,
    pub blocks: Seq<Seq<char>>,
    pub block_by: Seq<Seq<char>>,
    pub requests: Seq<(RequestType, Seq<char>, i64)>,
}

impl View for RootLists {
    type V = RootListsView;

    open spec fn view(&self) -> RootListsView {
        RootListsView {
            friends: strings_view(self.friends@),
            blocks: strings_view(self.blocks@),
            block_by: strings_view(self.block_by@),
            requests: requests_view(self.requests@),
        }
    }
}

/// What adding to or removing from one list gives: the new list, or the
/// error and the old list.
pub open spec fn list_step(
    before: Seq<Seq<char>>,
    after: Seq<Seq<char>>,
    step: Option<Seq<Seq<char>>>,
    err: Error,
    r: Result<(), Error>,
) -> bool {
    match step {
        Some(l) => r is Ok && after == l,
        None => r == Err::<(), Error>(err) && after == before,
    }
}

impl RootLists {
    /// Empty lists.
    pub fn new() -> (r: Self)
        ensures
            r@.friends.len() == 0 && r@.blocks.len() == 0 && r@.block_by.len() == 0 && r@.requests.len() == 0,
    {
        let r = RootLists { friends: Vec::new(), blocks: Vec::new(), block_by: Vec::new(), requests: Vec::new() };
        assert(r@.friends.len() == 0);
        r
    }

    /// Adds a friend; one that is there already is refused.
    pub fn add_friend(&mut self, did: &String) -> (r: Result<(), Error>)
        ensures
            list_step(
                old(self)@.friends,
                final(self)@.friends,
                spec_insert_item(old(self)@.friends, did@),
                Error::FriendExist,
                r,
            ),
            final(self)@.blocks == old(self)@.blocks,
            final(self)@.block_by == old(self)@.block_by,
            final(self)@.requests == old(self)@.requests,
    {
        if insert_item(&mut self.friends, did) {
            Ok(())
        } else {
            Err(Error::FriendExist)
        }
    }

    /// Removes a friend; one that is not there is refused.
    pub fn remove_friend(&mut self, did: &String) -> (r: Result<(), Error>)
        ensures
            list_step(
                old(self)@.friends,
                final(self)@.friends,
                spec_remove_item(old(self)@.friends, did@),
                Error::FriendDoesntExist,
                r,
            ),
            final(self)@.blocks == old(self)@.blocks,
            final(self)@.block_by == old(self)@.block_by,
            final(self)@.requests == old(self)@.requests,
    {
        if remove_item(&mut self.friends, did) {
            Ok(())
        } else {
            Err(Error::FriendDoesntExist)
        }
    }

    /// Blocks an identity; one blocked already is refused.
    pub fn block_key(&mut self, did: &String) -> (r: Result<(), Error>)
        ensures
            list_step(
                old(self)@.blocks,
                final(self)@.blocks,
                spec_insert_item(old(self)@.blocks, did@),
                Error::PublicKeyIsBlocked,
                r,
            ),
            final(self)@.friends == old(self)@.friends,
            final(self)@.block_by == old(self)@.block_by,
            final(self)@.requests == old(self)@.requests,
    {
        if insert_item(&mut self.blocks, did) {
            Ok(())
        } else {
            Err(Error::PublicKeyIsBlocked)
        }
    }

    /// Unblocks an identity; one not blocked is refused.
    pub fn unblock_key(&mut self, did: &String) -> (r: Result<(), Error>)
        ensures
            list_step(
                old(self)@.blocks,
                final(self)@.blocks,
                spec_remove_item(old(self)@.blocks, did@),
                Error::PublicKeyIsntBlocked,
                r,
            ),
            final(self)@.friends == old(self)@.friends,
            final(self)@.block_by == old(self)@.block_by,
            final(self)@.requests == old(self)@.requests,
    {
        if remove_item(&mut self.blocks, did) {
            Ok(())
        } else {
            Err(Error::PublicKeyIsntBlocked)
        }
    }

    /// Records that an identity blocked this one; one recorded already is
    /// refused (with the error the store uses for it).
    pub fn add_blockby_key(&mut self, did: &String) -> (r: Result<(), Error>)
        ensures
            list_step(
                old(self)@.block_by,
                final(self)@.block_by,
                spec_insert_item(old(self)@.block_by, did@),
                Error::PublicKeyIsntBlocked,
                r,
            ),
            final(self)@.friends == old(self)@.friends,
            final(self)@.blocks == old(self)@.blocks,
            final(self)@.requests == old(self)@.requests,
    {
        if insert_item(&mut self.block_by, did) {
            Ok(())
        } else {
            Err(Error::PublicKeyIsntBlocked)
        }
    }

    /// Forgets that an identity blocked this one; one not recorded is
    /// refused.
    pub fn remove_blockby_key(&mut self, did: &String) -> (r: Result<(), Error>)
        ensures
            list_step(
                old(self)@.block_by,
                final(self)@.block_by,
                spec_remove_item(old(self)@.block_by, did@),
                Error::PublicKeyIsntBlocked,
                r,
            ),
            final(self)@.friends == old(self)@.friends,
            final(self)@.blocks == old(self)@.blocks,
            final(self)@.requests == old(self)@.requests,
    {
        if remove_item(&mut self.block_by, did) {
            Ok(())
        } else {
            Err(Error::PublicKeyIsntBlocked)
        }
    }

    fn request_dids_of(&self, t: RequestType) -> (r: Vec<String>)
        ensures
            strings_view(r@) == request_dids(self@.requests, t),
    {
        let ghost all = requests_view(self.requests@);
        let mut out: Vec<String> = Vec::new();
        let mut i: usize = 0;
        while i < self.requests.len()
            invariant
                i <= self.requests@.len(),
                all == requests_view(self.requests@),
                strings_view(out@) == request_dids(all.subrange(0, i as int), t),
            decreases self.requests@.len() - i,
        {
            assert(all.subrange(0, i + 1).drop_last() =~= all.subrange(0, i as int));
            let r = &self.requests[i];
            if r.request_type() == t {
                let ghost before = strings_view(out@);
                out.push(r.did().clone());
                assert(strings_view(out@) =~= before.push(all[i as int].1));
            }
            i += 1;
        }
        assert(all.subrange(0, all.len() as int) =~= all);
        out
    }

    /// The DIDs of the incoming requests, in order.
    pub fn list_incoming_request(&self) -> (r: Vec<String>)
        ensures
            strings_view(r@) == request_dids(self@.requests, RequestType::Incoming),
    {
        self.request_dids_of(RequestType::Incoming)
    }

    /// The DIDs of the outgoing requests, in order.
    pub fn list_outgoing_request(&self) -> (r: Vec<String>)
        ensures
            strings_view(r@) == request_dids(self@.requests, RequestType::Outgoing),
    {
        self.request_dids_of(RequestType::Outgoing)
    }

    /// Whether `did` sent a friend request.
    pub fn received_friend_request_from(&self, did: &String) -> (b: bool)
        ensures
            b == request_dids(self@.requests, RequestType::Incoming).contains(did@),
    {
        let list = self.list_incoming_request();
        proof {
            lemma_has_did_view(list@, did@);
        }
        contains_did(&list, did)
    }

    /// Whether there is an incoming request from `did`.
    pub fn has_request_from(&self, did: &String) -> (b: bool)
        ensures
            b == request_dids(self@.requests, RequestType::Incoming).contains(did@),
    {
        self.received_friend_request_from(did)
    }

    /// Whether a friend request was sent to `did`.
    pub fn sent_friend_request_to(&self, did: &String) -> (b: bool)
        ensures
            b == request_dids(self@.requests, RequestType::Outgoing).contains(did@),
    {
        let list = self.list_outgoing_request();
        proof {
            lemma_has_did_view(list@, did@);
        }
        contains_did(&list, did)
    }

    /// Whether `did` is a friend.
    pub fn is_friend(&self, did: &String) -> (b: bool)
        ensures
            b == self@.friends.contains(did@),
    {
        proof {
            lemma_has_did_view(self.friends@, did@);
        }
        contains_did(&self.friends, did)
    }

    /// Whether an identity is blocked.
    pub fn is_blocked(&self, did: &String) -> (b: bool)
        ensures
            b == self@.blocks.contains(did@),
    {
        proof {
            lemma_has_did_view(self.blocks@, did@);
        }
        contains_did(&self.blocks, did)
    }

    /// Whether an identity blocked this one.
    pub fn is_blocked_by(&self, did: &String) -> (b: bool)
        ensures
            b == self@.block_by.contains(did@),
    {
        proof {
            lemma_has_did_view(self.block_by@, did@);
        }
        contains_did(&self.block_by, did)
    }

    /// Records a friend request; the same request (direction and DID) twice
    /// is refused.
    pub fn add_request(&mut self, request: &Request) -> (r: Result<(), Error>)
        ensures
            has_request(old(self)@.requests, request_view(*request)) ==> r == Err::<(), Error>(
                Error::FriendRequestExist,
            ) && final(self)@.requests == old(self)@.requests,
            !has_request(old(self)@.requests, request_view(*request)) ==> r is Ok && final(self)@.requests == old(
                self,
            )@.requests.push(request_view(*request)),
            final(self)@.friends == old(self)@.friends,
            final(self)@.blocks == old(self)@.blocks,
            final(self)@.block_by == old(self)@.block_by,
    {
        let ghost before = requests_view(self.requests@);
        let i = request_position(&self.requests, request);
        if i < self.requests.len() {
            return Err(Error::FriendRequestExist);
        }
        self.requests.push(request.copy());
        assert(requests_view(self.requests@) =~= before.push(request_view(*request)));
        Ok(())
    }

    /// Drops a friend request (the first that is the same); when there is
    /// none, the store answers that the request exists.
    pub fn remove_request(&mut self, request: &Request) -> (r: Result<(), Error>)
        ensures
            !has_request(old(self)@.requests, request_view(*request)) ==> r == Err::<(), Error>(
                Error::FriendRequestExist,
            ) && final(self)@.requests == old(self)@.requests,
            has_request(old(self)@.requests, request_view(*request)) ==> r is Ok && final(self)@.requests == old(
                self,
            )@.requests.remove(first_request(old(self)@.requests, request_view(*request))),
            final(self)@.friends == old(self)@.friends,
            final(self)@.blocks == old(self)@.blocks,
            final(self)@.block_by == old(self)@.block_by,
    {
        let ghost before = requests_view(self.requests@);
        let i = request_position(&self.requests, request);
        if i == self.requests.len() {
            return Err(Error::FriendRequestExist);
        }
        proof {
            let f = first_request(before, request_view(*request));
            assert(same_request(before[i as int], request_view(*request)));
            assert(f == i);
        }
        self.requests.remove(i);
        assert(requests_view(self.requests@) =~= before.remove(i as int));
        Ok(())
    }
}

/// Adding an identity that is not in a list and removing it again gives the
/// list back.
pub proof fn law_insert_then_remove(list: Seq<Seq<char>>, did: Seq<char>)
    requires
        !list.contains(did),
    ensures
        spec_insert_item(list, did) matches Some(l) && spec_remove_item(l, did) == Some(list),
{
    let l = list.push(did);
    assert(l.contains(did)) by {
        assert(l[list.len() as int] == did);
    }
    l.index_of_first_ensures(did);
    let f = l.index_of_first(did).unwrap();
    assert(f == list.len()) by {
        if f < list.len() {
            assert(l[f] == list[f]);
        }
    }
    assert(l.remove(f) =~= list);
}

/// An identity can not be added twice in a row: the second add is refused.
pub proof fn law_insert_twice(list: Seq<Seq<char>>, did: Seq<char>)
    requires
        !list.contains(did),
    ensures
        spec_insert_item(list, did) matches Some(l) && spec_insert_item(l, did) is None,
{
    assert(list.push(did)[list.len() as int] == did);
}

/// After an identity is removed from a list that held it once, the list no
/// longer holds it, and removing it again is refused.
pub proof fn law_remove_then_absent(list: Seq<Seq<char>>, did: Seq<char>, i: int)
    requires
        0 <= i < list.len(),
        list[i] == did,
        forall|j: int| 0 <= j < list.len() && j != i ==> list[j] != did,
    ensures
        spec_remove_item(list, did) matches Some(l) && !l.contains(did) && spec_remove_item(l, did) is None,
{
    assert(list.contains(did));
    list.index_of_first_ensures(did);
    let f = list.index_of_first(did).unwrap();
    assert(f == i);
    let l = list.remove(i);
    assert forall|k: int| 0 <= k < l.len() implies l[k] != did by {
        if k < i {
            assert(l[k] == list[k]);
        } else {
            assert(l[k] == list[k + 1]);
        }
    }
}

/// A friend request that is not pending, once recorded and then dropped,
/// leaves the pending requests as they were; recording it twice is refused.
pub proof fn law_request_recorded_then_dropped(
    list: Seq<(RequestType, Seq<char>, i64)>,
    r: (RequestType, Seq<char>, i64),
)
    requires
        !has_request(list, r),
    ensures
        has_request(list.push(r), r),
        list.push(r).remove(first_request(list.push(r), r)) == list,
{
    let l = list.push(r);
    assert(same_request(l[list.len() as int], r));
    assert(has_request(l, r));
    let f = first_request(l, r);
    assert(0 <= f < l.len() && same_request(l[f], r));
    assert(f == list.len()) by {
        if f < list.len() {
            assert(l[f] == list[f]);
        }
    }
    assert(l.remove(f) =~= list);
}

} // verus!
