//! The event subscription queue: emitted events wait in order until at least
//! one subscriber takes them. Each subscriber has a bounded queue of its
//! own; a full queue skips an event, a closed subscriber is dropped. An event
//! that no subscriber took goes back to the front and is offered again.
use vstd::prelude::*;

verus! {

/// Events a subscriber's queue holds: a buffer of 128 plus the one slot the
/// sending side always has.
pub const SUBSCRIBER_CAPACITY: usize = 129;

/// One subscriber: its queued events, how many it may hold, and whether its
/// receiving side is gone.
pub struct Subscriber<T> {
    queue: Vec<T>,
    capacity: usize,
    closed: bool,
}

pub struct SubscriberView<T> {
    pub queue: Seq<T>,
    pub capacity: nat,
    pub closed: bool,
}

/// A subscriber takes an event when it is open and has room.
pub open spec fn ready<T>(s: SubscriberView<T>) -> bool {
    !s.closed && s.queue.len() < s.capacity
}

/// The event queue and its subscribers.
pub struct EventQueue<T> {
    pending: Vec<T>,
    subscribers: Vec<Subscriber<T>>,
}

pub struct EventQueueView<T> {
    pub pending: Seq<T>,
    pub subscribers: Seq<SubscriberView<T>>,
}

pub closed spec fn sub_view<T>(s: Subscriber<T>) -> SubscriberView<T> {
    SubscriberView { queue: s.queue@, capacity: s.capacity as nat, closed: s.closed }
}

impl<T> View for EventQueue<T> {
    type V = EventQueueView<T>;

    closed spec fn view(&self) -> EventQueueView<T> {
        EventQueueView {
            pending: self.pending@,
            subscribers: Seq::new(self.subscribers@.len(), |i: int| sub_view(self.subscribers@[i])),
        }
    }
}

/// The subscribers that stay after a dispatch: the open ones, in order.
pub open spec fn open_subscribers<T>(s: Seq<SubscriberView<T>>) -> Seq<SubscriberView<T>> {
    s.filter(|x: SubscriberView<T>| !x.closed)
}

/// How many of the subscribers take an event.
pub open spec fn ready_count<T>(s: Seq<SubscriberView<T>>) -> nat
    decreases s.len(),
{
    if s.len() == 0 {
        0
    } else {
        ready_count(s.drop_last()) + if ready(s.last()) { 1nat } else { 0nat }
    }
}

/// What offering `e` does to one subscriber: a ready one gets a clone of `e`
/// at the end of its queue, another keeps its queue; capacity and state stay.
pub open spec fn offered_one<T: Clone>(before: SubscriberView<T>, after: SubscriberView<T>, e: T) -> bool {
    &&& after.capacity == before.capacity
    &&& after.closed == before.closed
    &&& if ready(before) {
        &&& after.queue.len() == before.queue.len() + 1
        &&& after.queue.drop_last() == before.queue
        &&& cloned(e, after.queue.last())
    } else {
        after.queue == before.queue
    }
}

/// `after` is `before` once the front event `e` was offered to each of them.
pub open spec fn offered<T: Clone>(before: Seq<SubscriberView<T>>, after: Seq<SubscriberView<T>>, e: T) -> bool {
    &&& after.len() == before.len()
    &&& forall|j: int| 0 <= j < before.len() ==> offered_one(before[j], #[trigger] after[j], e)
}

/// What one dispatch does: with nothing pending, nothing; otherwise the
/// open subscribers are offered the oldest pending event, which leaves the
/// queue when one of them took it.
pub open spec fn dispatched<T: Clone>(before: EventQueueView<T>, after: EventQueueView<T>, delivered: bool) -> bool {
    if before.pending.len() == 0 {
        !delivered && after == before
    } else {
        let open = open_subscribers(before.subscribers);
        &&& offered(open, after.subscribers, before.pending[0])
        &&& delivered == (ready_count(open) > 0)
        &&& after.pending == if delivered {
            before.pending.drop_first()
        } else {
            before.pending
        }
    }
}

proof fn lemma_offered_push<T: Clone>(
    before: Seq<SubscriberView<T>>,
    after: Seq<SubscriberView<T>>,
    e: T,
    b: SubscriberView<T>,
    a: SubscriberView<T>,
)
    requires
        offered(before, after, e),
        offered_one(b, a, e),
    ensures
        offered(before.push(b), after.push(a), e),
{
    assert forall|j: int| 0 <= j < before.push(b).len() implies offered_one(
        before.push(b)[j],
        #[trigger] after.push(a)[j],
        e,
    ) by {
        if j < before.len() {
            assert(after.push(a)[j] == after[j]);
        }
    }
}

impl<T: Clone> EventQueue<T> {
    pub fn new() -> (r: Self)
        ensures
            r@.pending.len() == 0,
            r@.subscribers.len() == 0,
    {
        let r = EventQueue { pending: Vec::new(), subscribers: Vec::new() };
        r
    }

    /// Queues an event behind those already waiting.
    pub fn emit(&mut self, event: T)
        ensures
            final(self)@.pending == old(self)@.pending.push(event),
            final(self)@.subscribers == old(self)@.subscribers,
    {
        let ghost before = self@;
        self.pending.push(event);
        assert(self@.subscribers =~= before.subscribers);
    }

    /// Adds a subscriber with an empty queue; its number is returned.
    pub fn subscribe(&mut self) -> (id: usize)
        ensures
            id == old(self)@.subscribers.len(),
            final(self)@.pending == old(self)@.pending,
            final(self)@.subscribers == old(self)@.subscribers.push(
                SubscriberView { queue: Seq::empty(), capacity: SUBSCRIBER_CAPACITY as nat, closed: false },
            ),
    {
        let ghost before = self@;
        let id = self.subscribers.len();
        self.subscribers.push(Subscriber { queue: Vec::new(), capacity: SUBSCRIBER_CAPACITY, closed: false });
        assert(self@.subscribers =~= before.subscribers.push(
            SubscriberView { queue: Seq::empty(), capacity: SUBSCRIBER_CAPACITY as nat, closed: false },
        ));
        id
    }

    /// The receiving side of subscriber `id` is gone.
    pub fn close(&mut self, id: usize)
        requires
            id < old(self)@.subscribers.len(),
        ensures
            final(self)@.pending == old(self)@.pending,
            final(self)@.subscribers == old(self)@.subscribers.update(
                id as int,
                SubscriberView { closed: true, ..old(self)@.subscribers[id as int] },
            ),
    {
        let ghost before = self@;
        self.subscribers[id].closed = true;
        assert(self@.subscribers =~= before.subscribers.update(
            id as int,
            SubscriberView { closed: true, ..before.subscribers[id as int] },
        ));
    }

    /// Subscriber `id` takes the oldest event of its queue, if any.
    pub fn receive(&mut self, id: usize) -> (r: Option<T>)
        requires
            id < old(self)@.subscribers.len(),
        ensures
            final(self)@.pending == old(self)@.pending,
            old(self)@.subscribers[id as int].queue.len() == 0 ==> r is None && final(self)@ == old(self)@,
            old(self)@.subscribers[id as int].queue.len() > 0 ==> r == Some(old(self)@.subscribers[id as int].queue[0])
                && final(self)@.subscribers == old(self)@.subscribers.update(
                id as int,
                SubscriberView {
                    queue: old(self)@.subscribers[id as int].queue.drop_first(),
                    ..old(self)@.subscribers[id as int]
                },
            ),
    {
        let ghost before = self@;
        if self.subscribers[id].queue.len() == 0 {
            return None;
        }
        let e = self.subscribers[id].queue.remove(0);
        assert(self@.subscribers[id as int].queue =~= before.subscribers[id as int].queue.drop_first());
        assert(self@.subscribers =~= before.subscribers.update(
            id as int,
            SubscriberView { queue: before.subscribers[id as int].queue.drop_first(), ..before.subscribers[id as int] },
        ));
        Some(e)
    }

    /// Offers the oldest pending event to the subscribers. Closed
    /// subscribers are dropped; every open one with room gets a clone of the
    /// event. When none took it, it goes back to the front of the queue.
    /// Tells whether an event was delivered.
    pub fn dispatch(&mut self) -> (delivered: bool)
        ensures
            dispatched(old(self)@, final(self)@, delivered),
    {
        let ghost before = self@;
        if self.pending.len() == 0 {
            return false;
        }
        let event = self.pending.remove(0);
        let ghost e = event;
        let mut kept: Vec<Subscriber<T>> = Vec::new();
        let mut count: usize = 0;
        let mut subs = Vec::new();
        std::mem::swap(&mut subs, &mut self.subscribers);
        let ghost all = Seq::new(subs@.len(), |i: int| sub_view(subs@[i]));
        let ghost n = subs@.len();
        let ghost orig = subs@;
        let total = subs.len();
        assert(all == before.subscribers);
        let mut i: usize = 0;
        while subs.len() > 0
            invariant
                i <= n,
                subs@ == orig.subrange(i as int, n as int),
                n == orig.len(),
                n == total,
                e == event,
                all == Seq::new(orig.len(), |i: int| sub_view(orig[i])),
                offered(
                    open_subscribers(all.subrange(0, i as int)),
                    Seq::new(kept@.len(), |k: int| sub_view(kept@[k])),
                    e,
                ),
                count == ready_count(open_subscribers(all.subrange(0, i as int))),
                count <= i,
            decreases subs@.len(),
        {
            let ghost kv = Seq::new(kept@.len(), |k: int| sub_view(kept@[k]));
            let ghost pre = all.subrange(0, i as int);
            assert(all.subrange(0, i + 1).drop_last() =~= pre);
            assert(all.subrange(0, i + 1).last() == all[i as int]);
            proof {
                reveal_with_fuel(Seq::filter, 1);
            }
            let mut s = subs.remove(0);
            assert(sub_view(s) == all[i as int]);
            if !s.closed {
                let ghost open_pre = open_subscribers(pre);
                assert(open_subscribers(all.subrange(0, i + 1)) =~= open_pre.push(all[i as int]));
                let is_ready = s.queue.len() < s.capacity;
                if is_ready {
                    let c = event.clone();
                    s.queue.push(c);
                    count = count + 1;
                    assert(s.queue@.drop_last() =~= all[i as int].queue);
                }
                assert(offered_one(all[i as int], sub_view(s), e));
                kept.push(s);
                proof {
                    lemma_ready_count_push(open_pre, all[i as int]);
                    let kv2 = Seq::new(kept@.len(), |k: int| sub_view(kept@[k]));
                    assert(kv2 =~= kv.push(sub_view(s)));
                    lemma_offered_push(open_pre, kv, e, all[i as int], sub_view(s));
                }
            } else {
                assert(open_subscribers(all.subrange(0, i + 1)) =~= open_subscribers(pre));
            }
            assert(subs@ =~= orig.subrange(i + 1, n as int));
            i += 1;
        }
        assert(i == n);
        assert(all.subrange(0, n as int) =~= all);
        self.subscribers = kept;
        if count == 0 {
            self.pending.insert(0, event);
            assert(self@.pending =~= before.pending);
            false
        } else {
            assert(self@.pending =~= before.pending.drop_first());
            true
        }
    }
}

/// After `k` of the dispatches from `s0`, the lone open subscriber of `s0`
/// holds, behind its queue of then, clones of the first `k` pending events
/// in order, and those left the pending queue.
pub open spec fn delivered_upto<T: Clone>(s0: EventQueueView<T>, s: EventQueueView<T>, k: int) -> bool {
    let q0 = s0.subscribers[0].queue;
    &&& s.subscribers.len() == 1
    &&& !s.subscribers[0].closed
    &&& s.subscribers[0].capacity == s0.subscribers[0].capacity
    &&& s.pending == s0.pending.skip(k)
    &&& s.subscribers[0].queue.len() == q0.len() + k
    &&& s.subscribers[0].queue.take(q0.len() as int) == q0
    &&& forall|j: int| 0 <= j < k ==> cloned(s0.pending[j], #[trigger] s.subscribers[0].queue[q0.len() + j])
}

proof fn lemma_delivered_upto<T: Clone>(states: Seq<EventQueueView<T>>, delivered: Seq<bool>, k: int)
    requires
        states.len() == delivered.len() + 1,
        forall|i: int| 0 <= i < delivered.len() ==> dispatched(states[i], states[i + 1], #[trigger] delivered[i]),
        states[0].subscribers.len() == 1,
        !states[0].subscribers[0].closed,
        states[0].subscribers[0].queue.len() + delivered.len() <= states[0].subscribers[0].capacity,
        delivered.len() <= states[0].pending.len(),
        0 <= k <= delivered.len(),
    ensures
        delivered_upto(states[0], states[k], k),
        forall|i: int| 0 <= i < k ==> #[trigger] delivered[i],
    decreases k,
{
    let s0 = states[0];
    let q0 = s0.subscribers[0].queue;
    if k == 0 {
        assert(s0.pending.skip(0) =~= s0.pending);
        assert(q0.take(q0.len() as int) =~= q0);
    } else {
        lemma_delivered_upto(states, delivered, k - 1);
        let b = states[k - 1];
        let a = states[k];
        assert(dispatched(b, a, delivered[k - 1]));
        assert(b.pending.len() > 0);
        assert(b.pending[0] == s0.pending[k - 1]);
        reveal_with_fuel(Seq::filter, 2);
        assert(b.subscribers.drop_last() =~= Seq::<SubscriberView<T>>::empty());
        assert(open_subscribers(b.subscribers) =~= b.subscribers);
        assert(ready_count(b.subscribers) == 1nat) by {
            reveal_with_fuel(ready_count, 2);
            assert(b.subscribers.drop_last() =~= Seq::<SubscriberView<T>>::empty());
            assert(b.subscribers.last() == b.subscribers[0]);
            assert(ready(b.subscribers.last()));
        }
        assert(delivered[k - 1]);
        assert(offered_one(b.subscribers[0], a.subscribers[0], b.pending[0]));
        let qb = b.subscribers[0].queue;
        let qa = a.subscribers[0].queue;
        assert(qa.drop_last() == qb);
        assert(a.pending =~= s0.pending.skip(k));
        assert(qa.take(q0.len() as int) =~= q0) by {
            assert forall|j: int| 0 <= j < q0.len() implies qa[j] == q0[j] by {
                assert(qa[j] == qb[j]);
                assert(qb.take(q0.len() as int)[j] == qb[j]);
            }
        }
        assert forall|j: int| 0 <= j < k implies cloned(s0.pending[j], #[trigger] qa[q0.len() + j]) by {
            if j < k - 1 {
                assert(qa[q0.len() + j] == qb[q0.len() + j]);
            } else {
                assert(qa[q0.len() + j] == qa.last());
            }
        }
    }
}

/// Events reach a lone open subscriber in the order they were emitted,
/// those emitted before it subscribed too: while it has room, each dispatch
/// delivers the oldest pending event, a clone of it going to the end of its
/// queue.
pub proof fn law_delivered_in_order<T: Clone>(states: Seq<EventQueueView<T>>, delivered: Seq<bool>)
    requires
        states.len() == delivered.len() + 1,
        forall|i: int| 0 <= i < delivered.len() ==> dispatched(states[i], states[i + 1], #[trigger] delivered[i]),
        states[0].subscribers.len() == 1,
        !states[0].subscribers[0].closed,
        states[0].subscribers[0].queue.len() + delivered.len() <= states[0].subscribers[0].capacity,
        delivered.len() <= states[0].pending.len(),
    ensures
        forall|i: int| 0 <= i < delivered.len() ==> #[trigger] delivered[i],
        delivered_upto(states[0], states.last(), delivered.len() as int),
{
    lemma_delivered_upto(states, delivered, delivered.len() as int);
}

proof fn lemma_ready_count_push<T>(s: Seq<SubscriberView<T>>, x: SubscriberView<T>)
    ensures
        ready_count(s.push(x)) == ready_count(s) + if ready(x) { 1nat } else { 0nat },
{
    assert(s.push(x).drop_last() =~= s);
}

/// One step on the queue: an emit of an event, or a dispatch that did or
/// did not deliver.
pub enum QueueStep<T> {
    Emit(T),
    Dispatch(bool),
}

/// `after` follows `before` by the step `step`.
pub open spec fn step_taken<T: Clone>(before: EventQueueView<T>, after: EventQueueView<T>, step: QueueStep<T>) -> bool {
    match step {
        QueueStep::Emit(e) => after.pending == before.pending.push(e) && after.subscribers == before.subscribers,
        QueueStep::Dispatch(d) => dispatched(before, after, d),
    }
}

/// The events emitted by `steps`, in order.
pub open spec fn emitted<T>(steps: Seq<QueueStep<T>>) -> Seq<T>
    decreases steps.len(),
{
    if steps.len() == 0 {
        Seq::empty()
    } else {
        match steps.last() {
            QueueStep::Emit(e) => emitted(steps.drop_last()).push(e),
            _ => emitted(steps.drop_last()),
        }
    }
}

/// The events that left the queue along `steps` from `states`: the front
/// event of each dispatch that delivered, in order.
pub open spec fn taken<T>(states: Seq<EventQueueView<T>>, steps: Seq<QueueStep<T>>) -> Seq<T>
    decreases steps.len(),
{
    if steps.len() == 0 {
        Seq::empty()
    } else {
        match steps.last() {
            QueueStep::Dispatch(true) => taken(states, steps.drop_last()).push(states[steps.len() - 1].pending[0]),
            _ => taken(states, steps.drop_last()),
        }
    }
}

/// The queue is first in, first out, whatever the subscribers do: along any
/// run of emits and dispatches, what was pending and what was emitted, in
/// order, is what left the queue, in order, followed by what is pending at
/// the end. An event leaves only from the front, and only when a subscriber
/// took it.
pub proof fn law_first_in_first_out<T: Clone>(states: Seq<EventQueueView<T>>, steps: Seq<QueueStep<T>>)
    requires
        states.len() == steps.len() + 1,
        forall|i: int| 0 <= i < steps.len() ==> step_taken(states[i], states[i + 1], #[trigger] steps[i]),
    ensures
        states[0].pending + emitted(steps) == taken(states, steps) + states.last().pending,
    decreases steps.len(),
{
    if steps.len() == 0 {
        assert(states[0].pending + emitted(steps) =~= taken(states, steps) + states.last().pending);
    } else {
        let k = steps.len() - 1;
        let st = states.drop_last();
        let sp = steps.drop_last();
        assert forall|i: int| 0 <= i < sp.len() implies step_taken(st[i], st[i + 1], #[trigger] sp[i]) by {
            assert(step_taken(states[i], states[i + 1], steps[i]));
        }
        law_first_in_first_out(st, sp);
        assert(taken(st, sp) == taken(states, sp)) by {
            lemma_taken_prefix(states, st, sp);
        }
        let b = states[k];
        let a = states[k + 1];
        assert(step_taken(b, a, steps[k]));
        match steps[k] {
            QueueStep::Emit(e) => {
                assert(states[0].pending + emitted(steps) =~= (states[0].pending + emitted(sp)).push(e));
                assert(taken(states, steps) + a.pending =~= (taken(states, sp) + b.pending).push(e));
            },
            QueueStep::Dispatch(d) => {
                if d {
                    assert(b.pending.len() > 0);
                    assert(taken(states, steps) + a.pending =~= taken(states, sp) + b.pending);
                } else {
                    assert(a.pending == b.pending);
                }
            },
        }
    }
}

proof fn lemma_taken_prefix<T>(states: Seq<EventQueueView<T>>, st: Seq<EventQueueView<T>>, sp: Seq<QueueStep<T>>)
    requires
        sp.len() <= st.len(),
        sp.len() <= states.len(),
        forall|i: int| 0 <= i < sp.len() ==> st[i] == states[i],
    ensures
        taken(st, sp) == taken(states, sp),
    decreases sp.len(),
{
    if sp.len() > 0 {
        lemma_taken_prefix(states, st, sp.drop_last());
        assert(st[sp.len() - 1] == states[sp.len() - 1]);
    }
}

} // verus!
