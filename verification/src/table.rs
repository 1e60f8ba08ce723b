//! The routing table: which consumer is registered for which channel key.
//!
//! Every registration opens a fresh slot with a queue of its own; the
//! consumer registered for a key is the latest slot opened under it. Earlier
//! slots of the same key stay where they are, keep what was queued, and
//! receive nothing more. An endpoint is the number of its slot.

use vstd::prelude::*;
use crate::queue::BoundedQueue;

verus! {

/// The depth of the queue that a consumer gets from the manager.
pub const QUEUE_DEPTH: usize = 10;

/// The mathematical value of one slot of the table.
pub struct SlotModel {
    /// The channel key that the slot was opened under.
    pub key: Seq<char>,
    /// The payloads that wait for the consumer, oldest first.
    pub queue: Seq<Seq<char>>,
    /// The most payloads that may wait at one time.
    pub capacity: nat,
}

/// What became of a frame that was handed to the table.
#[derive(Debug, Clone, Copy, PartialEq, Eq, Structural)]
pub enum RouteOutcome {
    /// The payload was queued for the consumer of its channel.
    Delivered,
    /// Nobody is registered for the channel; the frame was dropped.
    NoConsumer,
    /// The consumer's queue was full; the frame was dropped.
    Saturated,
}

/// The receiving end of one registration.
#[derive(Debug, Clone, Copy, PartialEq, Eq, Structural)]
pub struct ConsumerEndpoint {
    id: usize,
}

impl View for ConsumerEndpoint {
    type V = int;

    closed spec fn view(&self) -> int {
        self.id as int
    }
}

impl ConsumerEndpoint {
    /// The number of the slot that the endpoint reads from.
    pub fn id(&self) -> (id: usize)
        ensures
            id == self@,
    {
        self.id
    }
}

struct Slot {
    key: String,
    queue: BoundedQueue,
}

impl Slot {
    spec fn model(&self) -> SlotModel {
        SlotModel { key: self.key@, queue: self.queue@.items, capacity: self.queue@.capacity }
    }
}

/// The table of registrations.
pub struct RoutingTable {
    slots: Vec<Slot>,
}

/// The slot that frames for `key` go to: the latest one opened under `key`.
pub open spec fn producer_of(slots: Seq<SlotModel>, key: Seq<char>) -> Option<int>
    decreases slots.len(),
{
    if slots.len() == 0 {
        None
    } else if slots.last().key == key {
        Some(slots.len() - 1)
    } else {
        producer_of(slots.drop_last(), key)
    }
}

/// Whether every queue is within its capacity. This holds of the empty table
/// and is kept by every operation, so it holds of every table in use.
pub open spec fn bounded(slots: Seq<SlotModel>) -> bool {
    forall|i: int| 0 <= i < slots.len() ==> (#[trigger] slots[i]).queue.len() <= slots[i].capacity
}

/// The slot with one more payload at the back of its queue.
pub open spec fn with_pushed(slot: SlotModel, payload: Seq<char>) -> SlotModel {
    SlotModel { key: slot.key, queue: slot.queue.push(payload), capacity: slot.capacity }
}

/// The slot without the payload at the front of its queue.
pub open spec fn with_popped(slot: SlotModel) -> SlotModel {
    SlotModel { key: slot.key, queue: slot.queue.drop_first(), capacity: slot.capacity }
}

/// The table after a registration for `key` with a queue of `capacity`.
pub open spec fn registered(slots: Seq<SlotModel>, key: Seq<char>, capacity: nat) -> Seq<
    SlotModel,
> {
    slots.push(SlotModel { key, queue: Seq::empty(), capacity })
}

/// What becomes of a frame for `key`.
pub open spec fn outcome_of(slots: Seq<SlotModel>, key: Seq<char>) -> RouteOutcome {
    match producer_of(slots, key) {
        None => RouteOutcome::NoConsumer,
        Some(i) => if slots[i].queue.len() < slots[i].capacity {
            RouteOutcome::Delivered
        } else {
            RouteOutcome::Saturated
        },
    }
}

/// The table after a frame for `key` with `payload` was handed to it.
pub open spec fn routed(slots: Seq<SlotModel>, key: Seq<char>, payload: Seq<char>) -> Seq<
    SlotModel,
> {
    match producer_of(slots, key) {
        None => slots,
        Some(i) => if slots[i].queue.len() < slots[i].capacity {
            slots.update(i, with_pushed(slots[i], payload))
        } else {
            slots
        },
    }
}

/// The payloads that wait for the consumer of slot `id`, oldest first; none
/// for a slot that the table does not have.
pub open spec fn waiting(slots: Seq<SlotModel>, id: int) -> Seq<Seq<char>> {
    if 0 <= id < slots.len() {
        slots[id].queue
    } else {
        Seq::empty()
    }
}

/// What the consumer of slot `id` gets next: the oldest payload that waits.
pub open spec fn next_for(slots: Seq<SlotModel>, id: int) -> Option<Seq<char>> {
    if 0 <= id < slots.len() && slots[id].queue.len() > 0 {
        Some(slots[id].queue[0])
    } else {
        None
    }
}

/// The table after the consumer of slot `id` took what [`next_for`] gives.
pub open spec fn taken(slots: Seq<SlotModel>, id: int) -> Seq<SlotModel> {
    if 0 <= id < slots.len() && slots[id].queue.len() > 0 {
        slots.update(id, with_popped(slots[id]))
    } else {
        slots
    }
}

impl View for RoutingTable {
    type V = Seq<SlotModel>;

    closed spec fn view(&self) -> Seq<SlotModel> {
        Seq::new(self.slots@.len(), |i: int| self.slots@[i].model())
    }
}

impl RoutingTable {
    /// The empty table.
    pub fn new() -> (table: RoutingTable)
        ensures
            table@ == Seq::<SlotModel>::empty(),
            bounded(table@),
    {
        let table = RoutingTable { slots: Vec::new() };
        assert(table@ =~= Seq::<SlotModel>::empty());
        table
    }

    /// The number of slots opened so far.
    pub fn len(&self) -> (n: usize)
        ensures
            n == self@.len(),
    {
        self.slots.len()
    }

    /// Registers a consumer for `key`, with an empty queue that holds at most
    /// `capacity` payloads. A consumer registered earlier for the same key
    /// keeps its slot and receives nothing more.
    pub fn register(&mut self, key: String, capacity: usize) -> (endpoint: ConsumerEndpoint)
        ensures
            final(self)@ == registered(old(self)@, key@, capacity as nat),
            endpoint@ == old(self)@.len(),
            bounded(old(self)@) ==> bounded(final(self)@),
    {
        proof {
            if bounded(old(self)@) {
                lemma_bounded_preserved(old(self)@, key@, Seq::empty(), capacity as nat, 0);
            }
        }
        let id = self.slots.len();
        self.slots.push(Slot { key, queue: BoundedQueue::new(capacity) });
        assert(self@ =~= registered(old(self)@, key@, capacity as nat));
        ConsumerEndpoint { id }
    }

    /// The consumer that frames for `key` go to, if there is one.
    pub fn lookup(&self, key: &String) -> (found: Option<ConsumerEndpoint>)
        ensures
            found matches Some(e) ==> producer_of(self@, key@) == Some(e@) && 0 <= e@ < self@.len(),
            found is None ==> producer_of(self@, key@) is None,
    {
        let mut i: usize = self.slots.len();
        proof {
            assert(self@.take(i as int) =~= self@);
        }
        while i > 0
            invariant
                i <= self.slots.len(),
                producer_of(self@, key@) == producer_of(self@.take(i as int), key@),
            decreases i,
        {
            proof {
                assert(self@.take(i as int).drop_last() =~= self@.take(i as int - 1));
                assert(self@.take(i as int).last() == self.slots@[i as int - 1].model());
            }
            i = i - 1;
            if self.slots[i].key == *key {
                return Some(ConsumerEndpoint { id: i });
            }
        }
        None
    }

    /// Hands a frame to the table. The payload is queued for the consumer
    /// registered for `key` if there is one and its queue has room; otherwise
    /// the frame is dropped and the table stays as it was. Never waits.
    pub fn route(&mut self, key: &String, payload: String) -> (outcome: RouteOutcome)
        ensures
            final(self)@ == routed(old(self)@, key@, payload@),
            outcome == outcome_of(old(self)@, key@),
            bounded(old(self)@) ==> bounded(final(self)@),
    {
        proof {
            if bounded(old(self)@) {
                lemma_bounded_preserved(old(self)@, key@, payload@, 0, 0);
            }
        }
        match self.lookup(key) {
            None => RouteOutcome::NoConsumer,
            Some(endpoint) => {
                let i = endpoint.id;
                let sent = self.slots[i].queue.try_send(payload);
                assert(self@ =~= routed(old(self)@, key@, payload@));
                match sent {
                    Ok(_) => RouteOutcome::Delivered,
                    Err(_) => RouteOutcome::Saturated,
                }
            },
        }
    }

    /// Takes the oldest payload that waits for `endpoint`, if one does. An
    /// endpoint whose slot the table does not have, or one with nothing
    /// waiting, gets `None` and the table stays as it was.
    pub fn take(&mut self, endpoint: &ConsumerEndpoint) -> (payload: Option<String>)
        ensures
            final(self)@ == taken(old(self)@, endpoint@),
            payload matches Some(p) ==> next_for(old(self)@, endpoint@) == Some(p@),
            payload is None ==> next_for(old(self)@, endpoint@) is None,
            bounded(old(self)@) ==> bounded(final(self)@),
    {
        proof {
            if bounded(old(self)@) {
                lemma_bounded_preserved(old(self)@, Seq::empty(), Seq::empty(), 0, endpoint@);
            }
        }
        let i = endpoint.id;
        if i < self.slots.len() {
            let payload = self.slots[i].queue.try_recv();
            assert(self@ =~= taken(old(self)@, endpoint@));
            payload
        } else {
            None
        }
    }

    /// The number of payloads that wait for `endpoint`.
    pub fn pending(&self, endpoint: &ConsumerEndpoint) -> (n: usize)
        ensures
            n == waiting(self@, endpoint@).len(),
    {
        let i = endpoint.id;
        if i < self.slots.len() {
            self.slots[i].queue.len()
        } else {
            0
        }
    }
}

/// Where [`producer_of`] finds a slot, it is a slot of the table opened under
/// `key`, and no later slot was opened under `key`; where it finds none, no
/// slot was opened under `key`.
pub proof fn lemma_producer_is_latest(slots: Seq<SlotModel>, key: Seq<char>)
    ensures
        producer_of(slots, key) matches Some(i) ==> 0 <= i < slots.len() && slots[i].key == key
            && forall|j: int| i < j < slots.len() ==> (#[trigger] slots[j]).key != key,
        producer_of(slots, key) is None ==> forall|j: int|
            0 <= j < slots.len() ==> (#[trigger] slots[j]).key != key,
    decreases slots.len(),
{
    if slots.len() > 0 && slots.last().key != key {
        let rest = slots.drop_last();
        lemma_producer_is_latest(rest, key);
        assert(forall|j: int| 0 <= j < rest.len() ==> rest[j] == slots[j]);
    }
}

/// A registration changes the consumer of its own key and of no other: the
/// consumer of `key` is the new slot, and every other key has the consumer
/// it had before.
pub proof fn lemma_registration_changes_one_key(
    slots: Seq<SlotModel>,
    key: Seq<char>,
    capacity: nat,
    other: Seq<char>,
)
    ensures
        producer_of(registered(slots, key, capacity), key) == Some(slots.len() as int),
        other != key ==> producer_of(registered(slots, key, capacity), other) == producer_of(
            slots,
            other,
        ),
{
    let again = registered(slots, key, capacity);
    assert(again.last().key == key);
    assert(again.drop_last() =~= slots);
}

/// Which slot frames go to depends on the keys alone: two tables with the
/// same keys, slot by slot, send every frame to the same slot.
pub proof fn lemma_producer_by_keys(a: Seq<SlotModel>, b: Seq<SlotModel>, key: Seq<char>)
    requires
        a.len() == b.len(),
        forall|i: int| 0 <= i < a.len() ==> (#[trigger] a[i]).key == b[i].key,
    ensures
        producer_of(a, key) == producer_of(b, key),
    decreases a.len(),
{
    if a.len() > 0 {
        if a.last().key != key {
            assert(b.last().key == a[a.len() - 1].key);
            lemma_producer_by_keys(a.drop_last(), b.drop_last(), key);
        } else {
            assert(b.last().key == a[a.len() - 1].key);
        }
    }
}

/// Routing a frame opens and closes no registration: afterwards every key has
/// the consumer it had before.
pub proof fn lemma_route_keeps_registrations(
    slots: Seq<SlotModel>,
    key: Seq<char>,
    payload: Seq<char>,
    other: Seq<char>,
)
    ensures
        routed(slots, key, payload).len() == slots.len(),
        producer_of(routed(slots, key, payload), other) == producer_of(slots, other),
{
    lemma_producer_is_latest(slots, key);
    lemma_producer_by_keys(routed(slots, key, payload), slots, other);
}

/// Per-channel order. Two frames routed one after the other to the same
/// registered channel reach its consumer's queue in that order, behind what
/// waited there before: both where both find room, the first alone where
/// only it finds room, and neither where the queue is full.
pub proof fn lemma_per_channel_order(
    slots: Seq<SlotModel>,
    key: Seq<char>,
    first: Seq<char>,
    second: Seq<char>,
)
    requires
        producer_of(slots, key) is Some,
    ensures
        ({
            let i = producer_of(slots, key).unwrap();
            let once = routed(slots, key, first);
            let twice = routed(once, key, second);
            let room = slots[i].capacity - slots[i].queue.len();
            &&& producer_of(once, key) == Some(i)
            &&& room >= 2 ==> twice[i].queue == slots[i].queue.push(first).push(second)
            &&& room == 1 ==> twice[i].queue == slots[i].queue.push(first)
            &&& room <= 0 ==> twice[i].queue == slots[i].queue
            &&& next_for(slots, i) is Some ==> next_for(twice, i) == next_for(slots, i)
            &&& next_for(slots, i) is None && room >= 1 ==> next_for(twice, i) == Some(first)
        }),
{
    lemma_producer_is_latest(slots, key);
    lemma_route_keeps_registrations(slots, key, first, key);
}

/// Channel isolation. A frame routed to one channel changes no slot opened
/// under another key, and leaves the other key's registration as it was: the
/// consumer of the other channel never sees the frame.
pub proof fn lemma_channel_isolation(
    slots: Seq<SlotModel>,
    key: Seq<char>,
    payload: Seq<char>,
    other: Seq<char>,
)
    requires
        key != other,
    ensures
        routed(slots, key, payload).len() == slots.len(),
        producer_of(routed(slots, key, payload), other) == producer_of(slots, other),
        forall|j: int|
            0 <= j < slots.len() && (#[trigger] slots[j]).key == other ==> routed(
                slots,
                key,
                payload,
            )[j] == slots[j],
{
    lemma_producer_is_latest(slots, key);
    lemma_route_keeps_registrations(slots, key, payload, other);
}

/// A frame changes at most the slot of the consumer registered for its key:
/// every other slot, an earlier one of the same key too, stays as it was.
pub proof fn lemma_route_touches_one_slot(
    slots: Seq<SlotModel>,
    key: Seq<char>,
    payload: Seq<char>,
    j: int,
)
    requires
        0 <= j < slots.len(),
        producer_of(slots, key) != Some(j),
    ensures
        routed(slots, key, payload)[j] == slots[j],
{
    lemma_producer_is_latest(slots, key);
}

/// No-consumer drop. A frame for a key that nobody is registered for is
/// dropped: the outcome says so and the table stays as it was.
pub proof fn lemma_no_consumer_drop(slots: Seq<SlotModel>, key: Seq<char>, payload: Seq<char>)
    requires
        forall|j: int| 0 <= j < slots.len() ==> (#[trigger] slots[j]).key != key,
    ensures
        outcome_of(slots, key) == RouteOutcome::NoConsumer,
        routed(slots, key, payload) == slots,
{
    lemma_producer_is_latest(slots, key);
}

/// Drop on a full queue. A frame for a consumer whose queue is at capacity is
/// dropped: the outcome says so and the table, that queue included, stays as
/// it was.
pub proof fn lemma_saturated_drop(slots: Seq<SlotModel>, key: Seq<char>, payload: Seq<char>)
    requires
        producer_of(slots, key) is Some,
        waiting(slots, producer_of(slots, key).unwrap()).len() >= slots[producer_of(
            slots,
            key,
        ).unwrap()].capacity,
    ensures
        outcome_of(slots, key) == RouteOutcome::Saturated,
        routed(slots, key, payload) == slots,
{
    lemma_producer_is_latest(slots, key);
}

/// Re-registration replaces. After a registration for `key`, the consumer of
/// `key` is the new endpoint, which differs from every endpoint handed out
/// before; a frame for `key` then goes to the new endpoint's queue and leaves
/// the slot of every earlier endpoint as it was.
pub proof fn lemma_reregistration_replaces(
    slots: Seq<SlotModel>,
    key: Seq<char>,
    capacity: nat,
    payload: Seq<char>,
    earlier: int,
)
    requires
        0 <= earlier < slots.len(),
    ensures
        ({
            let again = registered(slots, key, capacity);
            let fresh = slots.len() as int;
            &&& fresh != earlier
            &&& producer_of(again, key) == Some(fresh)
            &&& again[earlier] == slots[earlier]
            &&& routed(again, key, payload)[earlier] == slots[earlier]
            &&& capacity > 0 ==> routed(again, key, payload)[fresh].queue == seq![payload]
            &&& capacity == 0 ==> routed(again, key, payload)[fresh].queue == Seq::<
                Seq<char>,
            >::empty()
        }),
{
    let again = registered(slots, key, capacity);
    assert(again.last().key == key);
    assert(again[slots.len() as int].queue.push(payload) =~= seq![payload]);
}

/// The table after a run of frames, each a channel key with its payload, was
/// handed to it one after the other.
pub open spec fn routed_all(slots: Seq<SlotModel>, frames: Seq<(Seq<char>, Seq<char>)>) -> Seq<
    SlotModel,
>
    decreases frames.len(),
{
    if frames.len() == 0 {
        slots
    } else {
        routed(routed_all(slots, frames.drop_last()), frames.last().0, frames.last().1)
    }
}

/// The payloads of the frames that carry `key`, in the order of the frames.
pub open spec fn payloads_for(frames: Seq<(Seq<char>, Seq<char>)>, key: Seq<char>) -> Seq<
    Seq<char>,
>
    decreases frames.len(),
{
    if frames.len() == 0 {
        Seq::empty()
    } else if frames.last().0 == key {
        payloads_for(frames.drop_last(), key).push(frames.last().1)
    } else {
        payloads_for(frames.drop_last(), key)
    }
}

/// How many more payloads the queue of a slot takes.
pub open spec fn room(slot: SlotModel) -> nat {
    if slot.queue.len() < slot.capacity {
        (slot.capacity - slot.queue.len()) as nat
    } else {
        0
    }
}

/// The first `n` of `payloads`, or all of them where there are fewer.
pub open spec fn first_of(payloads: Seq<Seq<char>>, n: nat) -> Seq<Seq<char>> {
    if n < payloads.len() {
        payloads.take(n as int)
    } else {
        payloads
    }
}

/// A run of frames opens and closes no registration.
pub proof fn lemma_run_keeps_registrations(
    slots: Seq<SlotModel>,
    frames: Seq<(Seq<char>, Seq<char>)>,
    key: Seq<char>,
)
    ensures
        routed_all(slots, frames).len() == slots.len(),
        producer_of(routed_all(slots, frames), key) == producer_of(slots, key),
        forall|j: int|
            0 <= j < slots.len() ==> (#[trigger] routed_all(slots, frames)[j]).key == slots[j].key
                && routed_all(slots, frames)[j].capacity == slots[j].capacity,
    decreases frames.len(),
{
    if frames.len() > 0 {
        let before = routed_all(slots, frames.drop_last());
        lemma_run_keeps_registrations(slots, frames.drop_last(), key);
        lemma_route_keeps_registrations(before, frames.last().0, frames.last().1, key);
        lemma_producer_is_latest(before, frames.last().0);
        assert forall|j: int| 0 <= j < slots.len() implies (#[trigger] routed_all(
            slots,
            frames,
        )[j]).key == slots[j].key && routed_all(slots, frames)[j].capacity
            == slots[j].capacity by {
            assert(before[j].key == slots[j].key);
        }
    }
}

/// Demultiplexing. After any run of frames, however the channels are mixed
/// in it, the queue of the consumer registered for `key` holds what waited
/// there before, followed by the payloads of the frames for `key` in their
/// order of arrival, as many of them as the queue had room for; what did not
/// fit was dropped, and no frame for another key is among them.
pub proof fn lemma_demultiplex(
    slots: Seq<SlotModel>,
    frames: Seq<(Seq<char>, Seq<char>)>,
    key: Seq<char>,
)
    requires
        producer_of(slots, key) is Some,
    ensures
        ({
            let i = producer_of(slots, key).unwrap();
            &&& 0 <= i < slots.len()
            &&& routed_all(slots, frames).len() == slots.len()
            &&& routed_all(slots, frames)[i].queue == slots[i].queue + first_of(
                payloads_for(frames, key),
                room(slots[i]),
            )
        }),
    decreases frames.len(),
{
    let i = producer_of(slots, key).unwrap();
    lemma_producer_is_latest(slots, key);
    lemma_run_keeps_registrations(slots, frames, key);
    if frames.len() == 0 {
        assert(slots[i].queue + Seq::<Seq<char>>::empty() =~= slots[i].queue);
    } else {
        let earlier = frames.drop_last();
        let before = routed_all(slots, earlier);
        let (to, payload) = frames.last();
        let had = payloads_for(earlier, key);
        lemma_demultiplex(slots, earlier, key);
        lemma_run_keeps_registrations(slots, earlier, key);
        lemma_run_keeps_registrations(slots, earlier, to);
        lemma_producer_is_latest(before, to);
        assert(before[i].key == slots[i].key);
        assert(before[i].capacity == slots[i].capacity);
        if to == key {
            let now = had.push(payload);
            if had.len() < room(slots[i]) {
                assert(first_of(had, room(slots[i])) == had);
                assert(first_of(now, room(slots[i])) =~= now);
                assert((slots[i].queue + had).push(payload) =~= slots[i].queue + now);
            } else {
                assert(first_of(now, room(slots[i])) =~= first_of(had, room(slots[i])));
            }
        }
    }
}

/// Frames for keys that nobody is registered for leave the whole table as it
/// was.
pub proof fn lemma_unregistered_run_is_dropped(
    slots: Seq<SlotModel>,
    frames: Seq<(Seq<char>, Seq<char>)>,
)
    requires
        forall|k: int| 0 <= k < frames.len() ==> producer_of(slots, (#[trigger] frames[k]).0) is None,
    ensures
        routed_all(slots, frames) == slots,
    decreases frames.len(),
{
    if frames.len() > 0 {
        let earlier = frames.drop_last();
        assert forall|k: int| 0 <= k < earlier.len() implies producer_of(
            slots,
            (#[trigger] earlier[k]).0,
        ) is None by {
            assert(earlier[k] == frames[k]);
        }
        lemma_unregistered_run_is_dropped(slots, earlier);
        assert(producer_of(slots, frames[frames.len() - 1].0) is None);
    }
}

/// Queues stay within their capacity: a table in which they are stays so
/// under registration, routing and taking.
pub proof fn lemma_bounded_preserved(
    slots: Seq<SlotModel>,
    key: Seq<char>,
    payload: Seq<char>,
    capacity: nat,
    id: int,
)
    requires
        bounded(slots),
    ensures
        bounded(registered(slots, key, capacity)),
        bounded(routed(slots, key, payload)),
        bounded(taken(slots, id)),
{
    lemma_producer_is_latest(slots, key);
    let r = registered(slots, key, capacity);
    assert forall|i: int| 0 <= i < r.len() implies (#[trigger] r[i]).queue.len()
        <= r[i].capacity by {
        if i < slots.len() {
            assert(r[i] == slots[i]);
        }
    }
    let t = routed(slots, key, payload);
    assert forall|i: int| 0 <= i < t.len() implies (#[trigger] t[i]).queue.len()
        <= t[i].capacity by {
        assert(slots[i].queue.len() <= slots[i].capacity);
    }
    let k = taken(slots, id);
    assert forall|i: int| 0 <= i < k.len() implies (#[trigger] k[i]).queue.len()
        <= k[i].capacity by {
        assert(slots[i].queue.len() <= slots[i].capacity);
    }
}

} // verus!
