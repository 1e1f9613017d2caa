//! Bounded, lossless FIFO queues.
//!
//! Models the queue primitive the host platform supplies to the core: fixed
//! capacity, FIFO order, head inspection without removal, and an explicit
//! capacity poll so that a dequeue can be committed only once the downstream
//! sink is known to accept the message.

use vstd::prelude::*;

verus! {

pub struct Queue<T> {
    pub items: Vec<T>,
    pub capacity: usize,
}

impl<T> View for Queue<T> {
    type V = Seq<T>;

    open spec fn view(&self) -> Seq<T> {
        self.items@
    }
}

impl<T> Queue<T> {
    /// Bound fixed at construction; the queue never holds more elements.
    pub open spec fn cap(self) -> nat {
        self.capacity as nat
    }

    pub open spec fn wf(self) -> bool {
        self@.len() <= self.cap()
    }

    /// One more message can be accepted right now.
    pub open spec fn has_space(self) -> bool {
        self@.len() < self.cap()
    }

    pub fn with_capacity(capacity: usize) -> (q: Self)
        ensures
            q@ == Seq::<T>::empty(),
            q.cap() == capacity,
            q.wf(),
    {
        Queue { items: Vec::new(), capacity }
    }

    pub fn len(&self) -> (n: usize)
        ensures
            n == self@.len(),
    {
        self.items.len()
    }

    pub fn capacity(&self) -> (n: usize)
        ensures
            n == self.cap(),
    {
        self.capacity
    }

    pub fn is_empty(&self) -> (r: bool)
        ensures
            r == (self@.len() == 0),
    {
        self.items.len() == 0
    }

    /// Readiness of this queue as a sink: does it accept one more message?
    pub fn poll_accept_capacity(&self) -> (r: bool)
        ensures
            r == self.has_space(),
    {
        self.items.len() < self.capacity
    }

    /// Inspect the head without removing it.
    pub fn peek_head(&self) -> (r: Option<&T>)
        ensures
            match r {
                Some(x) => self@.len() > 0 && *x == self@[0],
                None => self@.len() == 0,
            },
    {
        if self.items.len() > 0 {
            Some(&self.items[0])
        } else {
            None
        }
    }

    /// Inspect the head of a queue known to be non-empty.
    pub fn peek_head_ref(&self) -> (r: &T)
        requires
            self@.len() > 0,
        ensures
            *r == self@[0],
    {
        &self.items[0]
    }

    /// Commit the dequeue of the head. Callers check readiness first; the
    /// core only pops a head once the downstream sink has reserved space.
    pub fn pop_head(&mut self) -> (r: T)
        requires
            old(self)@.len() > 0,
        ensures
            r == old(self)@[0],
            final(self)@ == old(self)@.remove(0),
            final(self).cap() == old(self).cap(),
    {
        self.items.remove(0)
    }

    /// Enqueue at the tail. Capacity must have been reserved by the caller.
    pub fn push(&mut self, x: T)
        requires
            old(self).has_space(),
        ensures
            final(self)@ == old(self)@.push(x),
            final(self).cap() == old(self).cap(),
            final(self).wf(),
    {
        self.items.push(x)
    }
}

} // verus!
