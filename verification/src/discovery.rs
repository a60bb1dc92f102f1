//! Peer discovery: the peers known to the node and, for each, what it knows
//! of the connections to it, when to ping it and what to announce. Dialing,
//! pinging and answering over the network are the caller's work; this module
//! decides on each event.
use crate::assoc::{contains_did, has_did, lemma_has_did_view};
use crate::codec::strings_view;
use crate::error::Error;
use crate::keyed::{has_key, keyed_map, keys_distinct, lemma_map_absent, lemma_map_at, lemma_map_push, lemma_map_remove};
use vstd::prelude::*;

verus! {

/// What a peer's tracker announces.
#[derive(PartialEq, Eq, Structural, Clone, Copy, Debug)]
pub enum PeerEvent {
    Connected,
    Confirmed,
    Disconnected,
}

/// The open connections to a peer (by connection id, with their address),
/// the addresses known for it, and where its pinging stands.
#[derive(Debug)]
pub struct PeerTracker {
    pub addresses: Vec<String>,
    pub connections: Vec<(u64, String)>,
    pub connected: bool,
    pub confirmed: bool,
    pub pinging: bool,
    pub dialing: bool,
    /// Seconds until the next ping, when one is planned.
    pub ping_timer: Option<u64>,
}

/// The connections by id and address.
pub open spec fn conn_view(c: Seq<(u64, String)>) -> Seq<(u64, Seq<char>)> {
    Seq::new(c.len(), |i: int| (c[i].0, c[i].1@))
}

/// Where `id` first occurs in `s`.
pub open spec fn first_conn(s: Seq<(u64, Seq<char>)>, id: u64) -> int {
    choose|k: int| 0 <= k < s.len() && s[k].0 == id && forall|j: int| 0 <= j < k ==> s[j].0 != id
}

/// `s` with connection `id` at `a`: its entry replaced where it is there,
/// else added.
pub open spec fn conn_put(s: Seq<(u64, Seq<char>)>, id: u64, a: Seq<char>) -> Seq<(u64, Seq<char>)> {
    if exists|k: int| 0 <= k < s.len() && s[k].0 == id {
        s.update(first_conn(s, id), (id, a))
    } else {
        s.push((id, a))
    }
}

/// `s` with `x` added unless it is there.
pub open spec fn set_insert(s: Seq<Seq<char>>, x: Seq<char>) -> Seq<Seq<char>> {
    if s.contains(x) {
        s
    } else {
        s.push(x)
    }
}

fn insert_string(list: &mut Vec<String>, s: &String)
    ensures
        strings_view(final(list)@) == set_insert(strings_view(old(list)@), s@),
{
    proof {
        lemma_has_did_view(list@, s@);
    }
    if !contains_did(list, s) {
        let ghost before = strings_view(list@);
        list.push(s.clone());
        assert(strings_view(list@) =~= before.push(s@));
    }
}

proof fn lemma_set_insert_contains(s: Seq<Seq<char>>, x: Seq<char>)
    ensures
        forall|a: Seq<char>| #[trigger] set_insert(s, x).contains(a) <==> (s.contains(a) || a == x),
{
    lemma_push_contains(s, x);
}

proof fn lemma_push_contains(s: Seq<Seq<char>>, x: Seq<char>)
    ensures
        forall|a: Seq<char>| #[trigger] s.push(x).contains(a) <==> (s.contains(a) || a == x),
{
    assert forall|a: Seq<char>| #[trigger] s.push(x).contains(a) <==> (s.contains(a) || a == x) by {
        if s.push(x).contains(a) && a != x {
            let k = choose|k: int| 0 <= k < s.len() + 1 && s.push(x)[k] == a;
            assert(s[k] == a);
        }
        if s.contains(a) {
            let k = choose|k: int| 0 <= k < s.len() && s[k] == a;
            assert(s.push(x)[k] == a);
        }
        if a == x {
            assert(s.push(x)[s.len() as int] == a);
        }
    }
}

fn conn_position(c: &Vec<(u64, String)>, id: u64) -> (r: usize)
    ensures
        r <= c@.len(),
        r < c@.len() ==> c@[r as int].0 == id,
        forall|k: int| 0 <= k < r ==> c@[k].0 != id,
{
    let mut i: usize = 0;
    while i < c.len()
        invariant
            i <= c@.len(),
            forall|k: int| 0 <= k < i ==> c@[k].0 != id,
        decreases c@.len() - i,
    {
        if c[i].0 == id {
            return i;
        }
        i += 1;
    }
    i
}

fn put_connection(c: &mut Vec<(u64, String)>, id: u64, addr: &String)
    ensures
        conn_view(final(c)@) == conn_put(conn_view(old(c)@), id, addr@),
{
    let ghost s = conn_view(c@);
    let k = conn_position(c, id);
    if k < c.len() {
        proof {
            assert(s[k as int].0 == id);
            let f = first_conn(s, id);
            assert(0 <= f < s.len() && s[f].0 == id && forall|j: int| 0 <= j < f ==> s[j].0 != id);
            if f < k {
                assert(c@[f].0 == s[f].0);
            }
            if k < f {
                assert(s[k as int].0 == id);
            }
        }
        c.set(k, (id, addr.clone()));
        assert(conn_view(c@) =~= s.update(k as int, (id, addr@)));
    } else {
        proof {
            assert forall|j: int| 0 <= j < s.len() implies s[j].0 != id by {
                assert(s[j].0 == c@[j].0);
            }
        }
        c.push((id, addr.clone()));
        assert(conn_view(c@) =~= s.push((id, addr@)));
    }
}

/// The connections of `s` other than `id`, in order.
pub open spec fn without_conn(s: Seq<(u64, Seq<char>)>, id: u64) -> Seq<(u64, Seq<char>)> {
    s.filter(|e: (u64, Seq<char>)| e.0 != id)
}

fn drop_connection(c: &mut Vec<(u64, String)>, id: u64)
    ensures
        conn_view(final(c)@) == without_conn(conn_view(old(c)@), id),
{
    let ghost before = conn_view(c@);
    let mut kept: Vec<(u64, String)> = Vec::new();
    let mut i: usize = 0;
    while i < c.len()
        invariant
            i <= c@.len(),
            before == conn_view(c@),
            conn_view(kept@) == without_conn(before.subrange(0, i as int), id),
        decreases c@.len() - i,
    {
        proof {
            assert(before.subrange(0, i + 1).drop_last() =~= before.subrange(0, i as int));
            reveal_with_fuel(Seq::filter, 1);
        }
        if c[i].0 != id {
            let ghost k = conn_view(kept@);
            kept.push((c[i].0, c[i].1.clone()));
            assert(conn_view(kept@) =~= k.push(before[i as int]));
        }
        i += 1;
    }
    assert(before.subrange(0, before.len() as int) =~= before);
    *c = kept;
}

/// A tracker with no connection, address, dial, ping or confirmation yet.
pub open spec fn is_fresh(t: PeerTracker) -> bool {
    &&& t.addresses@.len() == 0 && t.connections@.len() == 0
    &&& !t.connected && !t.confirmed && !t.pinging && !t.dialing && t.ping_timer is None
}

/// What a connection `id` at `addr` opening does to a tracker: the address
/// is known, the connection recorded and the peer connected; the first
/// connection of a peer that was not connected starts a ping and is
/// announced.
pub open spec fn connection_opened(
    before: PeerTracker,
    after: PeerTracker,
    id: u64,
    addr: Seq<char>,
    e: Option<PeerEvent>,
) -> bool {
    &&& strings_view(after.addresses@) == set_insert(strings_view(before.addresses@), addr)
    &&& conn_view(after.connections@) == conn_put(conn_view(before.connections@), id, addr)
    &&& after.connected
    &&& after.confirmed == before.confirmed
    &&& after.dialing == before.dialing
    &&& after.ping_timer == before.ping_timer
    &&& !(before.connections@.len() > 0 || before.connected) ==> e == Some(PeerEvent::Connected) && after.pinging
    &&& (before.connections@.len() > 0 || before.connected) ==> e is None && after.pinging == before.pinging
}

/// What connection `id` closing does: it goes; when none is left, the peer
/// is no longer connected, pinging and planned pings stop, and that is
/// announced.
pub open spec fn connection_closed(before: PeerTracker, after: PeerTracker, id: u64, e: Option<PeerEvent>) -> bool {
    &&& conn_view(after.connections@) == without_conn(conn_view(before.connections@), id)
    &&& after.connections@.len() == 0 ==> e == Some(PeerEvent::Disconnected) && !after.connected && !after.pinging
        && after.ping_timer is None
    &&& after.connections@.len() > 0 ==> e is None && after.connected == before.connected && after.pinging
        == before.pinging && after.ping_timer == before.ping_timer
    &&& after.addresses@ == before.addresses@
    &&& after.confirmed == before.confirmed
    &&& after.dialing == before.dialing
}

/// What the ping timer going off does: the plan is dropped and a ping starts.
pub open spec fn timer_fired(before: PeerTracker, after: PeerTracker) -> bool {
    &&& after.ping_timer is None
    &&& after.pinging
    &&& after.connections@ == before.connections@
    &&& after.confirmed == before.confirmed
    &&& after.addresses@ == before.addresses@
    &&& after.connected == before.connected
    &&& after.dialing == before.dialing
}

/// What a ping coming back (`ok`) or failing does: pinging stops and the
/// next ping is planned 30 seconds after an answer, 60 after a failure; the
/// first answer confirms the peer and is announced.
pub open spec fn ping_answered(before: PeerTracker, after: PeerTracker, ok: bool, e: Option<PeerEvent>) -> bool {
    &&& !after.pinging
    &&& ok ==> after.ping_timer == Some(30u64) && after.confirmed
    &&& ok && !before.confirmed ==> e == Some(PeerEvent::Confirmed)
    &&& ok && before.confirmed ==> e is None
    &&& !ok ==> after.ping_timer == Some(60u64) && e is None && after.confirmed == before.confirmed
    &&& after.connections@ == before.connections@
    &&& after.connected == before.connected
    &&& after.addresses@ == before.addresses@
    &&& after.dialing == before.dialing
}

/// The course of a peer met through one connection: it is announced as
/// connected and pinged; the first answer confirms it and plans the next
/// ping 30 seconds later; when that ping fails, the next is planned 60
/// seconds later and it stays confirmed; when its connection closes, it is
/// announced as disconnected, and no ping is under way or planned.
pub proof fn law_peer_course(
    t0: PeerTracker,
    t1: PeerTracker,
    t2: PeerTracker,
    t3: PeerTracker,
    t4: PeerTracker,
    t5: PeerTracker,
    id: u64,
    addr: Seq<char>,
    e1: Option<PeerEvent>,
    e2: Option<PeerEvent>,
    e4: Option<PeerEvent>,
    e5: Option<PeerEvent>,
)
    requires
        is_fresh(t0),
        connection_opened(t0, t1, id, addr, e1),
        ping_answered(t1, t2, true, e2),
        timer_fired(t2, t3),
        ping_answered(t3, t4, false, e4),
        connection_closed(t4, t5, id, e5),
    ensures
        e1 == Some(PeerEvent::Connected) && t1.connected && t1.pinging,
        e2 == Some(PeerEvent::Confirmed) && t2.confirmed && t2.ping_timer == Some(30u64),
        t3.pinging && t3.ping_timer is None,
        e4 is None && t4.confirmed && t4.ping_timer == Some(60u64),
        e5 == Some(PeerEvent::Disconnected) && !t5.connected && !t5.pinging && t5.ping_timer is None
            && t5.confirmed,
{
    let c0 = conn_view(t0.connections@);
    assert(c0 =~= Seq::<(u64, Seq<char>)>::empty());
    assert(conn_view(t1.connections@) =~= seq![(id, addr)]);
    assert(conn_view(t4.connections@) == seq![(id, addr)]);
    reveal_with_fuel(Seq::filter, 2);
    assert(seq![(id, addr)].drop_last() =~= Seq::<(u64, Seq<char>)>::empty());
    assert(conn_view(t5.connections@) =~= Seq::<(u64, Seq<char>)>::empty());
    assert(t5.connections@.len() == conn_view(t5.connections@).len());
}

impl PeerTracker {
    /// No connection, address or ping yet.
    pub fn new() -> (r: Self)
        ensures
            r.addresses@.len() == 0 && r.connections@.len() == 0 && !r.connected && !r.confirmed && !r.pinging
                && !r.dialing && r.ping_timer is None,
    {
        PeerTracker {
            addresses: Vec::new(),
            connections: Vec::new(),
            connected: false,
            confirmed: false,
            pinging: false,
            dialing: false,
            ping_timer: None,
        }
    }

    /// Whether the peer counts as connected.
    pub fn is_connected(&self) -> (b: bool)
        ensures
            b == (self.connections@.len() > 0 || self.connected),
    {
        self.connections.len() > 0 || self.connected
    }

    /// Starts a ping unless one is under way.
    pub fn ping(&mut self)
        ensures
            final(self).pinging,
            final(self).addresses@ == old(self).addresses@,
            final(self).connections@ == old(self).connections@,
            final(self).connected == old(self).connected,
            final(self).confirmed == old(self).confirmed,
            final(self).dialing == old(self).dialing,
            final(self).ping_timer == old(self).ping_timer,
    {
        self.pinging = true;
    }

    /// Starts dialing, unless the peer has a connection or a dial is under
    /// way; tells whether a dial starts.
    pub fn dial(&mut self) -> (started: bool)
        ensures
            started == (old(self).connections@.len() == 0 && !old(self).dialing),
            final(self).dialing == (old(self).dialing || started),
            final(self).addresses@ == old(self).addresses@,
            final(self).connections@ == old(self).connections@,
            final(self).pinging == old(self).pinging,
            final(self).connected == old(self).connected,
            final(self).confirmed == old(self).confirmed,
            final(self).ping_timer == old(self).ping_timer,
    {
        if self.connections.len() > 0 || self.dialing {
            return false;
        }
        self.dialing = true;
        true
    }

    /// Adds known addresses.
    pub fn set_addresses(&mut self, addresses: &Vec<String>)
        ensures
            forall|a: Seq<char>| strings_view(final(self).addresses@).contains(a) <==> (strings_view(
                old(self).addresses@,
            ).contains(a) || strings_view(addresses@).contains(a)),
            final(self).connections@ == old(self).connections@,
            final(self).connected == old(self).connected,
            final(self).pinging == old(self).pinging,
            final(self).dialing == old(self).dialing,
            final(self).confirmed == old(self).confirmed,
            final(self).ping_timer == old(self).ping_timer,
    {
        let ghost added = strings_view(addresses@);
        let mut i: usize = 0;
        while i < addresses.len()
            invariant
                i <= addresses@.len(),
                added == strings_view(addresses@),
                forall|a: Seq<char>| #[trigger] strings_view(self.addresses@).contains(a) <==> (strings_view(
                    old(self).addresses@,
                ).contains(a) || added.subrange(0, i as int).contains(a)),
                self.connections@ == old(self).connections@,
                self.connected == old(self).connected,
                self.pinging == old(self).pinging,
                self.dialing == old(self).dialing,
                self.confirmed == old(self).confirmed,
                self.ping_timer == old(self).ping_timer,
            decreases addresses@.len() - i,
        {
            let ghost before = strings_view(self.addresses@);
            insert_string(&mut self.addresses, &addresses[i]);
            proof {
                assert(added.subrange(0, i + 1) =~= added.subrange(0, i as int).push(added[i as int]));
                lemma_set_insert_contains(before, added[i as int]);
                lemma_push_contains(added.subrange(0, i as int), added[i as int]);
            }
            i += 1;
        }
        assert(added.subrange(0, added.len() as int) =~= added);
    }

    /// The tracker of a peer met through connection `id` at `addr`: the
    /// address is known, the connection recorded, and a ping starts unless
    /// one is under way or planned.
    pub fn set_connection(&mut self, id: u64, addr: &String)
        ensures
            strings_view(final(self).addresses@) == set_insert(strings_view(old(self).addresses@), addr@),
            conn_view(final(self).connections@) == conn_put(conn_view(old(self).connections@), id, addr@),
            final(self).pinging == (old(self).pinging || old(self).ping_timer is None),
            final(self).connected == old(self).connected,
            final(self).confirmed == old(self).confirmed,
            final(self).dialing == old(self).dialing,
            final(self).ping_timer == old(self).ping_timer,
    {
        insert_string(&mut self.addresses, addr);
        put_connection(&mut self.connections, id, addr);
        if !self.pinging && self.ping_timer.is_none() {
            self.pinging = true;
        }
    }

    /// A connection `id` to the peer, at `addr`, opened: the address is
    /// known and the connection recorded. The first connection of a peer
    /// that was not connected starts a ping and is announced.
    pub fn on_connection(&mut self, id: u64, addr: &String) -> (e: Option<PeerEvent>)
        ensures
            connection_opened(*old(self), *final(self), id, addr@, e),
    {
        let currently_connected = self.connections.len() > 0 || self.connected;
        insert_string(&mut self.addresses, addr);
        put_connection(&mut self.connections, id, addr);
        self.connected = true;
        if !currently_connected {
            self.pinging = true;
            return Some(PeerEvent::Connected);
        }
        None
    }

    /// Connection `id` closed. When no connection is left, the peer is no
    /// longer connected, its pinging stops, and that is announced.
    pub fn on_closed(&mut self, id: u64) -> (e: Option<PeerEvent>)
        ensures
            connection_closed(*old(self), *final(self), id, e),
    {
        drop_connection(&mut self.connections, id);
        if self.connections.len() == 0 {
            self.connected = false;
            self.pinging = false;
            self.ping_timer = None;
            return Some(PeerEvent::Disconnected);
        }
        None
    }

    /// The dial under way ended, whether or not it connected.
    pub fn on_dial_done(&mut self)
        ensures
            !final(self).dialing,
            final(self).addresses@ == old(self).addresses@,
            final(self).connections@ == old(self).connections@,
            final(self).connected == old(self).connected,
            final(self).confirmed == old(self).confirmed,
            final(self).pinging == old(self).pinging,
            final(self).ping_timer == old(self).ping_timer,
    {
        self.dialing = false;
    }

    /// The answer to whether the peer was connected when tracking started: a
    /// connected peer is pinged and announced as connected; otherwise it is
    /// announced as disconnected.
    pub fn on_connected_check(&mut self, connected: bool) -> (e: PeerEvent)
        ensures
            final(self).connected == connected,
            connected ==> e == PeerEvent::Connected && final(self).pinging,
            !connected ==> e == PeerEvent::Disconnected && final(self).pinging == old(self).pinging,
            final(self).connections@ == old(self).connections@,
            final(self).addresses@ == old(self).addresses@,
            final(self).confirmed == old(self).confirmed,
            final(self).dialing == old(self).dialing,
            final(self).ping_timer == old(self).ping_timer,
    {
        self.connected = connected;
        if connected {
            self.pinging = true;
            PeerEvent::Connected
        } else {
            PeerEvent::Disconnected
        }
    }

    /// The ping timer went off: a ping starts.
    pub fn on_timer(&mut self)
        ensures
            timer_fired(*old(self), *final(self)),
    {
        self.ping_timer = None;
        self.pinging = true;
    }

    /// A ping came back (`ok`) or failed. The next ping is planned 30
    /// seconds after an answer, 60 after a failure; the first answer
    /// confirms the peer, which is announced.
    pub fn on_ping(&mut self, ok: bool) -> (e: Option<PeerEvent>)
        ensures
            ping_answered(*old(self), *final(self), ok, e),
    {
        self.pinging = false;
        if ok {
            self.ping_timer = Some(30);
            if !self.confirmed {
                self.confirmed = true;
                return Some(PeerEvent::Confirmed);
            }
            None
        } else {
            self.ping_timer = Some(60);
            None
        }
    }
}

/// A known peer and its addresses.
#[derive(Debug)]
pub struct DiscoveryRecord {
    pub peer_id: String,
    pub addresses: Vec<String>,
}

/// The peers known to the node, each once, with their trackers.
pub struct DiscoveryRegistry {
    peers: Vec<(String, PeerTracker)>,
}

pub open spec fn registry_entries(s: Seq<(String, PeerTracker)>) -> Seq<(Seq<char>, Seq<Seq<char>>)> {
    Seq::new(s.len(), |i: int| (s[i].0@, strings_view(s[i].1.addresses@)))
}

/// Each known peer with its tracker.
pub open spec fn tracker_entries(s: Seq<(String, PeerTracker)>) -> Seq<(Seq<char>, PeerTracker)> {
    Seq::new(s.len(), |i: int| (s[i].0@, s[i].1))
}

impl View for DiscoveryRegistry {
    type V = Map<Seq<char>, Seq<Seq<char>>>;

    /// Each known peer, with its addresses.
    closed spec fn view(&self) -> Map<Seq<char>, Seq<Seq<char>>> {
        keyed_map(registry_entries(self.peers@))
    }
}

fn copy_strings(v: &Vec<String>) -> (r: Vec<String>)
    ensures
        strings_view(r@) == strings_view(v@),
{
    crate::message::clone_strings(v)
}

impl DiscoveryRegistry {
    /// No peer occurs twice.
    pub closed spec fn inv(&self) -> bool {
        keys_distinct(registry_entries(self.peers@))
    }

    /// The tracker of a known peer `p`: its connections, addresses and
    /// whether it is being dialed, pinged or confirmed.
    pub closed spec fn tracker_of(&self, p: Seq<char>) -> PeerTracker {
        keyed_map(tracker_entries(self.peers@))[p]
    }

    proof fn lemma_tracker_at(&self, i: int)
        requires
            self.inv(),
            0 <= i < self.peers@.len(),
        ensures
            self.tracker_of(self.peers@[i].0@) == self.peers@[i].1,
    {
        let s = registry_entries(self.peers@);
        let t = tracker_entries(self.peers@);
        assert forall|a: int, b: int| 0 <= a < b < t.len() implies t[a].0 != t[b].0 by {
            assert(s[a].0 != s[b].0);
        }
        lemma_map_at(t, i);
    }

    pub fn new() -> (r: Self)
        ensures
            r.inv(),
            r@ == Map::<Seq<char>, Seq<Seq<char>>>::empty(),
    {
        let r = DiscoveryRegistry { peers: Vec::new() };
        assert(r@ =~= Map::<Seq<char>, Seq<Seq<char>>>::empty());
        r
    }

    fn find(&self, peer: &String) -> (r: usize)
        requires
            self.inv(),
        ensures
            r <= self.peers@.len(),
            r < self.peers@.len() ==> self.peers@[r as int].0@ == peer@ && self@.contains_key(peer@) && self@[peer@]
                == strings_view(self.peers@[r as int].1.addresses@),
            r == self.peers@.len() ==> !self@.contains_key(peer@),
    {
        let ghost s = registry_entries(self.peers@);
        let mut i: usize = 0;
        while i < self.peers.len()
            invariant
                i <= self.peers@.len(),
                s == registry_entries(self.peers@),
                keys_distinct(s),
                forall|k: int| 0 <= k < i ==> self.peers@[k].0@ != peer@,
            decreases self.peers@.len() - i,
        {
            if self.peers[i].0 == *peer {
                proof {
                    lemma_map_at(s, i as int);
                }
                return i;
            }
            i += 1;
        }
        proof {
            assert forall|k: int| 0 <= k < s.len() implies s[k].0 != peer@ by {
                assert(s[k].0 == self.peers@[k].0@);
            }
            lemma_map_absent(s, peer@);
        }
        i
    }

    fn add(&mut self, peer: &String, tracker: PeerTracker)
        requires
            old(self).inv(),
            !old(self)@.contains_key(peer@),
        ensures
            final(self).inv(),
            final(self)@ == old(self)@.insert(peer@, strings_view(tracker.addresses@)),
            final(self).tracker_of(peer@) == tracker,
            forall|p: Seq<char>| #[trigger] old(self)@.contains_key(p) ==> final(self).tracker_of(p) == old(self).tracker_of(p),
    {
        let ghost s = registry_entries(self.peers@);
        let ghost a = strings_view(tracker.addresses@);
        proof {
            if has_key(s, peer@) {
                let j = choose|j: int| 0 <= j < s.len() && #[trigger] s[j].0 == peer@;
                lemma_map_at(s, j);
            }
        }
        let ghost old_peers = self.peers@;
        let ghost t = tracker;
        self.peers.push((peer.clone(), tracker));
        proof {
            assert(registry_entries(self.peers@) =~= s.push((peer@, a)));
            lemma_map_push(s, (peer@, a));
            self.lemma_tracker_at(old_peers.len() as int);
            assert forall|p: Seq<char>| #[trigger] old(self)@.contains_key(p) implies self.tracker_of(p) == old(
                self,
            ).tracker_of(p) by {
                let j = choose|j: int| 0 <= j < s.len() && #[trigger] s[j].0 == p;
                assert(old_peers[j].0@ == p);
                assert(self.peers@[j] == old_peers[j]);
                old(self).lemma_tracker_at(j);
                self.lemma_tracker_at(j);
            }
        }
    }

    /// Whether a peer is known.
    pub fn contains(&self, peer: &String) -> (b: bool)
        requires
            self.inv(),
        ensures
            b == self@.contains_key(peer@),
    {
        self.find(peer) < self.peers.len()
    }

    /// Starts tracking a peer; a known one is refused. With relays, the new
    /// peer knows their addresses and is dialed.
    pub fn insert(&mut self, peer: &String, relays: &Vec<String>) -> (r: Result<(), Error>)
        requires
            old(self).inv(),
        ensures
            final(self).inv(),
            old(self)@.contains_key(peer@) ==> r == Err::<(), Error>(Error::IdentityExist) && final(self)@ == old(
                self,
            )@,
            !old(self)@.contains_key(peer@) ==> r is Ok && final(self)@.dom() == old(self)@.dom().insert(peer@)
                && forall|a: Seq<char>| #[trigger] final(self)@[peer@].contains(a) <==> strings_view(relays@).contains(a),
            !old(self)@.contains_key(peer@) ==> forall|p: Seq<char>|
                p != peer@ && #[trigger] old(self)@.contains_key(p) ==> final(self)@[p] == old(self)@[p],
            !old(self)@.contains_key(peer@) ==> ({
                let t = final(self).tracker_of(peer@);
                &&& t.dialing == (relays@.len() > 0)
                &&& t.connections@.len() == 0 && !t.connected && !t.confirmed && !t.pinging && t.ping_timer is None
            }),
            forall|p: Seq<char>|
                p != peer@ && #[trigger] old(self)@.contains_key(p) ==> final(self).tracker_of(p) == old(
                    self,
                ).tracker_of(p),
    {
        if self.find(peer) < self.peers.len() {
            proof {
                assert forall|p: Seq<char>|
                    p != peer@ && #[trigger] old(self)@.contains_key(p) implies self.tracker_of(p) == old(
                        self,
                    ).tracker_of(p) by {}
            }
            return Err(Error::IdentityExist);
        }
        let mut tracker = PeerTracker::new();
        if relays.len() > 0 {
            tracker.set_addresses(relays);
            tracker.dial();
        } else {
            proof {
                assert forall|a: Seq<char>| !strings_view(relays@).contains(a) by {}
            }
        }
        let ghost before = self@;
        self.add(peer, tracker);
        assert(self@.dom() =~= before.dom().insert(peer@));
        Ok(())
    }

    /// Stops tracking a peer; an unknown one is refused.
    pub fn remove(&mut self, peer: &String) -> (r: Result<(), Error>)
        requires
            old(self).inv(),
        ensures
            final(self).inv(),
            !old(self)@.contains_key(peer@) ==> r == Err::<(), Error>(Error::IdentityDoesntExist) && final(self)@
                == old(self)@,
            old(self)@.contains_key(peer@) ==> r is Ok && final(self)@ == old(self)@.remove(peer@),
            forall|p: Seq<char>|
                p != peer@ && #[trigger] old(self)@.contains_key(p) ==> final(self).tracker_of(p) == old(
                    self,
                ).tracker_of(p),
    {
        let k = self.find(peer);
        if k == self.peers.len() {
            return Err(Error::IdentityDoesntExist);
        }
        let ghost s = registry_entries(self.peers@);
        let ghost old_peers = self.peers@;
        self.peers.remove(k);
        proof {
            assert(registry_entries(self.peers@) =~= s.remove(k as int));
            lemma_map_remove(s, k as int);
            assert forall|p: Seq<char>|
                p != peer@ && #[trigger] old(self)@.contains_key(p) implies self.tracker_of(p) == old(
                    self,
                ).tracker_of(p) by {
                let j = choose|j: int| 0 <= j < s.len() && #[trigger] s[j].0 == p;
                assert(old_peers[j].0@ == p);
                old(self).lemma_tracker_at(j);
                if j < k {
                    assert(self.peers@[j] == old_peers[j]);
                    self.lemma_tracker_at(j);
                } else {
                    assert(j != k);
                    assert(self.peers@[j - 1] == old_peers[j]);
                    self.lemma_tracker_at(j - 1);
                }
            }
        }
        Ok(())
    }

    /// The record of a known peer; an unknown one is refused.
    pub fn get(&self, peer: &String) -> (r: Result<DiscoveryRecord, Error>)
        requires
            self.inv(),
        ensures
            !self@.contains_key(peer@) ==> (r matches Err(e) && e == Error::IdentityDoesntExist),
            self@.contains_key(peer@) ==> (r matches Ok(rec) && rec.peer_id@ == peer@ && strings_view(rec.addresses@)
                == self@[peer@]),
    {
        let k = self.find(peer);
        if k == self.peers.len() {
            return Err(Error::IdentityDoesntExist);
        }
        Ok(DiscoveryRecord { peer_id: peer.clone(), addresses: copy_strings(&self.peers[k].1.addresses) })
    }

    /// The records of all known peers.
    pub fn list(&self) -> (r: Vec<DiscoveryRecord>)
        requires
            self.inv(),
        ensures
            r@.len() == self@.len(),
            forall|i: int|
                0 <= i < r@.len() ==> self@.contains_key(#[trigger] r@[i].peer_id@) && self@[r@[i].peer_id@]
                    == strings_view(r@[i].addresses@),
            forall|i: int, j: int| 0 <= i < j < r@.len() ==> (#[trigger] r@[i]).peer_id@ != (#[trigger] r@[j]).peer_id@,
    {
        let ghost s = registry_entries(self.peers@);
        let mut out: Vec<DiscoveryRecord> = Vec::new();
        let mut i: usize = 0;
        while i < self.peers.len()
            invariant
                i <= self.peers@.len(),
                s == registry_entries(self.peers@),
                keys_distinct(s),
                out@.len() == i,
                forall|k: int|
                    0 <= k < i ==> (#[trigger] out@[k]).peer_id@ == s[k].0 && strings_view(out@[k].addresses@)
                        == s[k].1,
            decreases self.peers@.len() - i,
        {
            out.push(
                DiscoveryRecord { peer_id: self.peers[i].0.clone(), addresses: copy_strings(&self.peers[i].1.addresses) },
            );
            i += 1;
        }
        proof {
            assert forall|k: int| 0 <= k < out@.len() implies self@.contains_key(#[trigger] out@[k].peer_id@)
                && self@[out@[k].peer_id@] == strings_view(out@[k].addresses@) by {
                lemma_map_at(s, k);
            }
            lemma_keyed_map_len(s);
        }
        out
    }

    /// Peers found by a discovery round: those not known yet start being
    /// tracked, without addresses.
    pub fn add_discovered(&mut self, peers: &Vec<String>)
        requires
            old(self).inv(),
        ensures
            final(self).inv(),
            forall|p: Seq<char>| #[trigger] old(self)@.contains_key(p) ==> final(self)@.contains_key(p)
                && final(self)@[p] == old(self)@[p],
            forall|i: int| 0 <= i < peers@.len() ==> final(self)@.contains_key(#[trigger] peers@[i]@),
            forall|p: Seq<char>|
                #[trigger] final(self)@.contains_key(p) ==> old(self)@.contains_key(p) || strings_view(peers@).contains(
                    p,
                ),
            forall|p: Seq<char>| #[trigger] old(self)@.contains_key(p) ==> final(self).tracker_of(p) == old(self).tracker_of(p),
            forall|p: Seq<char>|
                #[trigger] final(self)@.contains_key(p) && !old(self)@.contains_key(p) ==> is_fresh(final(self).tracker_of(p)),
    {
        let mut i: usize = 0;
        while i < peers.len()
            invariant
                i <= peers@.len(),
                self.inv(),
                forall|p: Seq<char>| #[trigger] old(self)@.contains_key(p) ==> self@.contains_key(p) && self@[p]
                    == old(self)@[p],
                forall|p: Seq<char>| #[trigger] old(self)@.contains_key(p) ==> self.tracker_of(p) == old(self).tracker_of(p),
                forall|p: Seq<char>|
                    #[trigger] self@.contains_key(p) && !old(self)@.contains_key(p) ==> is_fresh(self.tracker_of(p)),
                forall|k: int| 0 <= k < i ==> self@.contains_key(#[trigger] peers@[k]@),
                forall|p: Seq<char>|
                    #[trigger] self@.contains_key(p) ==> old(self)@.contains_key(p) || strings_view(peers@).contains(p),
            decreases peers@.len() - i,
        {
            if !self.contains(&peers[i]) {
                let ghost before = self@;
                self.add(&peers[i], PeerTracker::new());
                proof {
                    assert(strings_view(peers@)[i as int] == peers@[i as int]@);
                }
            }
            i += 1;
        }
    }

    /// A connection `id` to `peer` at `addr` opened: an unknown peer starts
    /// being tracked with that connection.
    pub fn add_connected(&mut self, peer: &String, id: u64, addr: &String)
        requires
            old(self).inv(),
        ensures
            final(self).inv(),
            old(self)@.contains_key(peer@) ==> final(self)@ == old(self)@,
            !old(self)@.contains_key(peer@) ==> final(self)@ == old(self)@.insert(peer@, seq![addr@]),
            !old(self)@.contains_key(peer@) ==> ({
                let t = final(self).tracker_of(peer@);
                &&& conn_view(t.connections@) == seq![(id, addr@)]
                &&& t.pinging && !t.dialing && !t.connected && !t.confirmed && t.ping_timer is None
            }),
            forall|p: Seq<char>| #[trigger] old(self)@.contains_key(p) ==> final(self).tracker_of(p) == old(self).tracker_of(p),
    {
        if self.contains(peer) {
            return;
        }
        let mut tracker = PeerTracker::new();
        tracker.set_connection(id, addr);
        assert(strings_view(tracker.addresses@) =~= seq![addr@]);
        assert(conn_view(tracker.connections@) =~= seq![(id, addr@)]);
        self.add(peer, tracker);
    }
}

proof fn lemma_keyed_map_len(s: Seq<(Seq<char>, Seq<Seq<char>>)>)
    requires
        keys_distinct(s),
    ensures
        keyed_map(s).len() == s.len(),
        keyed_map(s).dom().finite(),
    decreases s.len(),
{
    if s.len() == 0 {
        assert(keyed_map(s).dom() =~= Set::<Seq<char>>::empty());
    } else {
        let t = s.drop_last();
        assert(keys_distinct(t));
        lemma_keyed_map_len(t);
        assert(!has_key(t, s.last().0)) by {
            if has_key(t, s.last().0) {
                let j = choose|j: int| 0 <= j < t.len() && #[trigger] t[j].0 == s.last().0;
                assert(s[j].0 == s[s.len() - 1].0);
            }
        }
        lemma_map_push(t, s.last());
        assert(t.push(s.last()) =~= s);
        assert(!keyed_map(t).contains_key(s.last().0));
    }
}

/// A peer was confirmed: a connected one waits to be announced, once.
pub fn on_peer_confirmed(pending: &mut Vec<String>, peer: &String, connected: bool)
    ensures
        connected ==> strings_view(final(pending)@) == set_insert(strings_view(old(pending)@), peer@),
        !connected ==> final(pending)@ == old(pending)@,
{
    if connected {
        insert_string(pending, peer);
    }
}

/// A peer disconnected: the pending announcements keep only that peer's.
pub fn on_peer_disconnected(pending: &mut Vec<String>, peer: &String)
    ensures
        strings_view(final(pending)@) == strings_view(old(pending)@).filter(|p: Seq<char>| p == peer@),
{
    let ghost before = strings_view(pending@);
    let mut kept: Vec<String> = Vec::new();
    let mut i: usize = 0;
    while i < pending.len()
        invariant
            i <= pending@.len(),
            before == strings_view(pending@),
            strings_view(kept@) == before.subrange(0, i as int).filter(|p: Seq<char>| p == peer@),
        decreases pending@.len() - i,
    {
        proof {
            assert(before.subrange(0, i + 1).drop_last() =~= before.subrange(0, i as int));
            reveal_with_fuel(Seq::filter, 1);
        }
        if pending[i] == *peer {
            let ghost k = strings_view(kept@);
            kept.push(pending[i].clone());
            assert(strings_view(kept@) =~= k.push(before[i as int]));
        }
        i += 1;
    }
    assert(before.subrange(0, before.len() as int) =~= before);
    *pending = kept;
}

/// A discovery request another peer may send.
#[derive(PartialEq, Eq, Structural, Clone, Copy, Debug)]
pub enum DiscoveryRequest {
    Ping,
}

/// The answer to a discovery request.
#[derive(PartialEq, Eq, Structural, Clone, Copy, Debug)]
pub enum DiscoveryResponse {
    Pong,
    InvalidRequest,
}

/// Answers a request from `peer`: `payload` is what it held, when it could
/// be read (its sender, and its request when that could be read). A request
/// that is unreadable, or whose sender is not the peer, is invalid; a ping
/// gets a pong.
pub fn answer_request(peer: &String, payload: &Option<(String, Option<DiscoveryRequest>)>) -> (r: DiscoveryResponse)
    ensures
        r == (match *payload {
            Some((sender, Some(DiscoveryRequest::Ping))) => if sender@ == peer@ {
                DiscoveryResponse::Pong
            } else {
                DiscoveryResponse::InvalidRequest
            },
            _ => DiscoveryResponse::InvalidRequest,
        }),
{
    match payload {
        None => DiscoveryResponse::InvalidRequest,
        Some((sender, request)) => {
            if *sender != *peer {
                return DiscoveryResponse::InvalidRequest;
            }
            match request {
                Some(DiscoveryRequest::Ping) => DiscoveryResponse::Pong,
                None => DiscoveryResponse::InvalidRequest,
            }
        },
    }
}

/// How peers are found under a namespace: through the DHT, or at a
/// rendezvous point, given by its addresses (each with the peer id it
/// carries, if any).
pub enum DiscoveryType {
    Dht,
    RzPoint { addresses: Vec<Option<String>> },
}

/// Which discovery the node runs.
pub enum DiscoveryConfig {
    /// Discovery through a shuttle node: nothing to run here.
    Shuttle,
    /// Discovery under a namespace (the default one when none is set).
    Namespace { namespace: Option<String>, discovery_type: DiscoveryType },
    /// No discovery.
    Disabled,
}

/// A discovery round to start.
pub enum DiscoveryStart {
    Dht { namespace: String },
    Rz { namespace: String, peer: String },
}

/// How the node makes itself known.
pub enum PublishStart {
    /// Nothing is published; that is settled at once.
    Unpublished,
    /// The node provides the namespace in the DHT.
    Dht { namespace: String },
    /// The node registers the namespace at the rendezvous peer.
    Rz { namespace: String, peer: String },
}

/// How publishing went.
#[derive(PartialEq, Eq, Structural, Clone, Copy, Debug)]
pub enum DiscoveryPublish {
    Dht,
    Rz,
    Unpublished,
}

/// The first peer id among the addresses.
pub open spec fn first_peer(a: Seq<Option<Seq<char>>>) -> Option<Seq<char>>
    decreases a.len(),
{
    if a.len() == 0 {
        None
    } else if a[0] is Some {
        a[0]
    } else {
        first_peer(a.drop_first())
    }
}

pub open spec fn peers_view(a: Seq<Option<String>>) -> Seq<Option<Seq<char>>> {
    Seq::new(a.len(), |i: int| crate::page::opt_view(a[i]))
}

/// The namespace used when none is configured.
pub open spec fn default_namespace() -> Seq<char> {
    "satellite-warp"@
}

fn first_peer_exec(a: &Vec<Option<String>>) -> (r: Option<String>)
    ensures
        crate::page::opt_view(r) == first_peer(peers_view(a@)),
{
    let ghost v = peers_view(a@);
    assert(v.subrange(0, v.len() as int) =~= v);
    let mut i: usize = 0;
    while i < a.len()
        invariant
            i <= a@.len(),
            v == peers_view(a@),
            first_peer(v) == first_peer(v.subrange(i as int, v.len() as int)),
        decreases a@.len() - i,
    {
        let ghost tail = v.subrange(i as int, v.len() as int);
        assert(tail.drop_first() =~= v.subrange(i + 1, v.len() as int));
        assert(tail[0] == v[i as int]);
        if let Some(p) = &a[i] {
            return Some(p.clone());
        }
        i += 1;
    }
    assert(v.subrange(i as int, v.len() as int) =~= Seq::<Option<Seq<char>>>::empty());
    None
}

fn default_namespace_exec() -> (r: String)
    ensures
        r@ == default_namespace(),
{
    String::from_str("satellite-warp")
}

/// What a discovery request starts: nothing under a shuttle or without
/// discovery; under a namespace (the configured one, else `ns`, else the
/// default), a DHT round, or a round at the first rendezvous peer (none
/// without one). No round starts while one `running`, or before the node's
/// own publishing was `confirmed`.
pub fn discovery_start(
    config: &DiscoveryConfig,
    ns: Option<String>,
    running: bool,
    confirmed: bool,
) -> (r: Option<DiscoveryStart>)
    ensures
        match config {
            DiscoveryConfig::Namespace { namespace, discovery_type } => {
                let chosen = match crate::page::opt_view(*namespace) {
                    Some(n) => n,
                    None => match crate::page::opt_view(ns) {
                        Some(n) => n,
                        None => default_namespace(),
                    },
                };
                match discovery_type {
                    DiscoveryType::Dht => if running || !confirmed {
                        r is None
                    } else {
                        r matches Some(DiscoveryStart::Dht { namespace: n }) && n@ == chosen
                    },
                    DiscoveryType::RzPoint { addresses } => match first_peer(peers_view(addresses@)) {
                        None => r is None,
                        Some(p) => if running || !confirmed {
                            r is None
                        } else {
                            r matches Some(DiscoveryStart::Rz { namespace: n, peer: q }) && n@ == chosen && q@ == p
                        },
                    },
                }
            },
            _ => r is None,
        },
{
    match config {
        DiscoveryConfig::Namespace { namespace, discovery_type } => {
            let chosen = match namespace {
                Some(n) => n.clone(),
                None => match ns {
                    Some(n) => n,
                    None => default_namespace_exec(),
                },
            };
            match discovery_type {
                DiscoveryType::Dht => {
                    if running || !confirmed {
                        return None;
                    }
                    Some(DiscoveryStart::Dht { namespace: chosen })
                },
                DiscoveryType::RzPoint { addresses } => {
                    let peer = match first_peer_exec(addresses) {
                        Some(p) => p,
                        None => {
                            return None;
                        },
                    };
                    if running || !confirmed {
                        return None;
                    }
                    Some(DiscoveryStart::Rz { namespace: chosen, peer })
                },
            }
        },
        _ => None,
    }
}

/// How the node makes itself known: nothing to publish under a shuttle or
/// without discovery; under a namespace (the configured one, else the
/// default), providing it in the DHT, or registering it at the first
/// rendezvous peer. Without a rendezvous peer nothing is started at all.
pub fn publish_start(config: &DiscoveryConfig) -> (r: Option<PublishStart>)
    ensures
        match config {
            DiscoveryConfig::Namespace { namespace, discovery_type } => {
                let chosen = match crate::page::opt_view(*namespace) {
                    Some(n) => n,
                    None => default_namespace(),
                };
                match discovery_type {
                    DiscoveryType::Dht => r matches Some(PublishStart::Dht { namespace: n }) && n@ == chosen,
                    DiscoveryType::RzPoint { addresses } => match first_peer(peers_view(addresses@)) {
                        None => r is None,
                        Some(p) => r matches Some(PublishStart::Rz { namespace: n, peer: q }) && n@ == chosen && q@
                            == p,
                    },
                }
            },
            _ => r matches Some(PublishStart::Unpublished),
        },
{
    match config {
        DiscoveryConfig::Namespace { namespace, discovery_type } => {
            let chosen = match namespace {
                Some(n) => n.clone(),
                None => default_namespace_exec(),
            };
            match discovery_type {
                DiscoveryType::Dht => Some(PublishStart::Dht { namespace: chosen }),
                DiscoveryType::RzPoint { addresses } => match first_peer_exec(addresses) {
                    Some(peer) => Some(PublishStart::Rz { namespace: chosen, peer }),
                    None => None,
                },
            }
        },
        _ => Some(PublishStart::Unpublished),
    }
}

/// Publishing settled: the node counts as published unless nothing was,
/// and a discovery round is asked for (see `discovery_start`, with no
/// namespace given).
pub fn after_publish(config: &DiscoveryConfig, outcome: DiscoveryPublish, running: bool) -> (r: (
    bool,
    Option<DiscoveryStart>,
))
    ensures
        r.0 == (outcome != DiscoveryPublish::Unpublished),
        match config {
            DiscoveryConfig::Namespace { namespace, discovery_type } => {
                let chosen = match crate::page::opt_view(*namespace) {
                    Some(n) => n,
                    None => default_namespace(),
                };
                match discovery_type {
                    DiscoveryType::Dht => if running || !r.0 {
                        r.1 is None
                    } else {
                        r.1 matches Some(DiscoveryStart::Dht { namespace: n }) && n@ == chosen
                    },
                    DiscoveryType::RzPoint { addresses } => match first_peer(peers_view(addresses@)) {
                        None => r.1 is None,
                        Some(p) => if running || !r.0 {
                            r.1 is None
                        } else {
                            r.1 matches Some(DiscoveryStart::Rz { namespace: n, peer: q }) && n@ == chosen && q@ == p
                        },
                    },
                }
            },
            _ => r.1 is None,
        },
{
    let confirmed = outcome != DiscoveryPublish::Unpublished;
    (confirmed, discovery_start(config, None, running, confirmed))
}

} // verus!
