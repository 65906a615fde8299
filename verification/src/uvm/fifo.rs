//! `TlmFifo`: a component that encapsulates a queue, so the two components
//! that use it never learn of each other. The default UVM depth is 1.

use vstd::prelude::*;

use crate::sim::poll::TaskId;
use crate::sim::queue::{Get, Put, Queue};

verus! {

pub struct TlmFifo<T> {
    q: Queue<T>,
    size: Option<usize>,
}

impl<T> TlmFifo<T> {
    /// The underlying queue, whose waits the FIFO's `put` and `get` are.
    pub closed spec fn queue(&self) -> Queue<T> {
        self.q
    }

    pub closed spec fn spec_size(&self) -> Option<usize> {
        self.size
    }

    pub open spec fn wf(&self) -> bool {
        self.queue().cap() == self.spec_size()
    }

    /// `None` is unbounded.
    pub fn new(size: Option<usize>) -> (f: TlmFifo<T>)
        ensures
            f.wf(),
            f.spec_size() == size,
            f.queue().items() == Seq::<T>::empty(),
            f.queue().get_waiters() == Seq::<TaskId>::empty(),
            f.queue().put_waiters() == Seq::<TaskId>::empty(),
            f.queue().woken() == Seq::<TaskId>::empty(),
    {
        TlmFifo { q: Queue::new(size), size }
    }

    pub fn size(&self) -> (s: Option<usize>)
        ensures
            s == self.spec_size(),
    {
        self.size
    }

    pub fn used(&self) -> (n: usize)
        ensures
            n == self.queue().items().len(),
    {
        self.q.len()
    }

    pub fn is_empty(&self) -> (b: bool)
        ensures
            b == (self.queue().items().len() == 0),
    {
        self.q.is_empty()
    }

    pub fn is_full(&self) -> (b: bool)
        ensures
            b == match self.spec_size() {
                None => false,
                Some(s) => self.queue().items().len() >= s,
            },
    {
        match self.size {
            None => false,
            Some(s) => self.q.len() >= s,
        }
    }

    /// A put that waits for room; poll it against [`TlmFifo::queue_mut`].
    pub fn put(&self, item: T) -> (p: Put<T>)
        ensures
            p.pending_item() == Some(item),
    {
        self.q.put(item)
    }

    /// A get that waits for an item.
    pub fn get(&self) -> (g: Get)
    {
        self.q.get()
    }

    pub fn try_put(&mut self, item: T) -> (r: Result<(), T>)
        ensures
            final(self).spec_size() == old(self).spec_size(),
            old(self).queue().spec_has_space() ==> r is Ok && final(self).queue().items() == old(self).queue().items().push(item),
            !old(self).queue().spec_has_space() ==> r == Err::<(), T>(item) && final(self).queue().items() == old(self).queue().items(),
            final(self).queue().cap() == old(self).queue().cap(),
    {
        self.q.try_put(item)
    }

    pub fn try_get(&mut self) -> (r: Option<T>)
        ensures
            final(self).spec_size() == old(self).spec_size(),
            old(self).queue().items().len() == 0 ==> r is None && final(self).queue().items()
                == old(self).queue().items(),
            old(self).queue().items().len() > 0 ==> r == Some(old(self).queue().items()[0])
                && final(self).queue().items() == old(self).queue().items().drop_first(),
            final(self).queue().cap() == old(self).queue().cap(),
    {
        self.q.try_get()
    }

    /// Empty the FIFO, waking every waiting putter.
    pub fn flush(&mut self)
        ensures
            final(self).spec_size() == old(self).spec_size(),
            final(self).queue().items() == Seq::<T>::empty(),
            final(self).queue().cap() == old(self).queue().cap(),
            final(self).queue().get_waiters() == old(self).queue().get_waiters(),
    {
        while !self.q.is_empty()
            invariant
                self.spec_size() == old(self).spec_size(),
                self.queue().cap() == old(self).queue().cap(),
                self.queue().get_waiters() == old(self).queue().get_waiters(),
            decreases self.queue().items().len(),
        {
            let _ = self.q.try_get();
        }
    }

    /// The queue, for polling a pending `put` or `get` and draining wakes.
    pub fn queue_mut(&mut self) -> (q: &mut Queue<T>)
        ensures
            *q == old(self).queue(),
            final(self).queue() == *final(q),
            final(self).spec_size() == old(self).spec_size(),
    {
        &mut self.q
    }
}

} // verus!
