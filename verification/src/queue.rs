//! The bounded queue between the reader and one consumer.
//!
//! Sending never waits: a payload goes to the back of the queue where there
//! is room, and comes back to the sender where there is none.

use vstd::prelude::*;

verus! {

/// The mathematical value of a [`BoundedQueue`].
pub struct QueueModel {
    /// The payloads that wait, oldest first.
    pub items: Seq<Seq<char>>,
    /// The most payloads that may wait at one time.
    pub capacity: nat,
}

/// Whether the queue is within its capacity. This holds of a new queue and
/// is kept by every operation, so it holds of every queue in use.
pub open spec fn within_capacity(queue: QueueModel) -> bool {
    queue.items.len() <= queue.capacity
}

/// A first-in, first-out queue of payloads that holds at most `capacity` of
/// them.
pub struct BoundedQueue {
    items: Vec<String>,
    capacity: usize,
}

impl View for BoundedQueue {
    type V = QueueModel;

    closed spec fn view(&self) -> QueueModel {
        QueueModel {
            items: Seq::new(self.items@.len(), |i: int| self.items@[i]@),
            capacity: self.capacity as nat,
        }
    }
}

impl BoundedQueue {
    /// The empty queue that holds at most `capacity` payloads.
    pub fn new(capacity: usize) -> (queue: BoundedQueue)
        ensures
            queue@ == (QueueModel { items: Seq::empty(), capacity: capacity as nat }),
            within_capacity(queue@),
    {
        let queue = BoundedQueue { items: Vec::new(), capacity };
        assert(queue@.items =~= Seq::<Seq<char>>::empty());
        queue
    }

    /// The number of payloads that wait.
    pub fn len(&self) -> (n: usize)
        ensures
            n == self@.items.len(),
    {
        self.items.len()
    }

    /// The most payloads that may wait at one time.
    pub fn capacity(&self) -> (n: usize)
        ensures
            n == self@.capacity,
    {
        self.capacity
    }

    /// Puts `payload` at the back of the queue if there is room; otherwise
    /// hands it back and leaves the queue as it was.
    pub fn try_send(&mut self, payload: String) -> (r: Result<(), String>)
        ensures
            final(self)@.capacity == old(self)@.capacity,
            within_capacity(old(self)@) ==> within_capacity(final(self)@),
            old(self)@.items.len() < old(self)@.capacity ==> r is Ok && final(self)@.items
                == old(self)@.items.push(payload@),
            old(self)@.items.len() >= old(self)@.capacity ==> r == Err::<(), String>(payload)
                && final(self)@ == old(self)@,
    {
        if self.items.len() < self.capacity {
            self.items.push(payload);
            assert(self@.items =~= old(self)@.items.push(payload@));
            Ok(())
        } else {
            Err(payload)
        }
    }

    /// Takes the oldest payload that waits, if one does.
    pub fn try_recv(&mut self) -> (r: Option<String>)
        ensures
            final(self)@.capacity == old(self)@.capacity,
            within_capacity(old(self)@) ==> within_capacity(final(self)@),
            old(self)@.items.len() > 0 ==> (r matches Some(p) && p@ == old(self)@.items[0])
                && final(self)@.items == old(self)@.items.drop_first(),
            old(self)@.items.len() == 0 ==> r is None && final(self)@ == old(self)@,
    {
        if self.items.len() > 0 {
            let p = self.items.remove(0);
            assert(self@.items =~= old(self)@.items.drop_first());
            Some(p)
        } else {
            None
        }
    }
}

} // verus!
