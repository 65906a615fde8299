//! A sim-aware FIFO queue with an optional bound (the foundation of the TLM
//! FIFOs).
//!
//! The queue is a state machine. Operations that may wait (`put`, `get`,
//! `peek`, `wait_for_space`) are small values whose `poll` either completes
//! or records the polling task as a waiter; a change that could let a
//! waiter proceed moves the waiters to the queue's wake list, which the
//! scheduler drains with [`Queue::take_woken`].

use vstd::prelude::*;
use std::collections::VecDeque;

use crate::sim::poll::{Poll, TaskId};

verus! {

pub struct Queue<T> {
    buf: VecDeque<T>,
    cap: Option<usize>,
    get_waiters: Vec<TaskId>,
    put_waiters: Vec<TaskId>,
    woken: Vec<TaskId>,
}

impl<T> Queue<T> {
    /// The items in the queue, front first.
    pub closed spec fn items(&self) -> Seq<T> {
        self.buf@
    }

    /// The bound; `None` for an unbounded queue.
    pub closed spec fn cap(&self) -> Option<usize> {
        self.cap
    }

    /// Tasks waiting for an item to arrive.
    pub closed spec fn get_waiters(&self) -> Seq<TaskId> {
        self.get_waiters@
    }

    /// Tasks waiting for room.
    pub closed spec fn put_waiters(&self) -> Seq<TaskId> {
        self.put_waiters@
    }

    /// Tasks woken and not yet handed to the scheduler.
    pub closed spec fn woken(&self) -> Seq<TaskId> {
        self.woken@
    }

    /// Is there room for one more item?
    pub open spec fn spec_has_space(&self) -> bool {
        match self.cap() {
            Some(c) => self.items().len() < c,
            None => true,
        }
    }

    /// A bounded queue holds no more than its bound.
    pub open spec fn bounded(&self) -> bool {
        match self.cap() {
            Some(c) => self.items().len() <= c,
            None => true,
        }
    }

    /// `cap = None` is unbounded; `Some(n)` is bounded at `n`.
    pub fn new(cap: Option<usize>) -> (q: Queue<T>)
        ensures
            q.items() == Seq::<T>::empty(),
            q.cap() == cap,
            q.bounded(),
            q.get_waiters() == Seq::<TaskId>::empty(),
            q.put_waiters() == Seq::<TaskId>::empty(),
            q.woken() == Seq::<TaskId>::empty(),
    {
        Queue {
            buf: VecDeque::new(),
            cap,
            get_waiters: Vec::new(),
            put_waiters: Vec::new(),
            woken: Vec::new(),
        }
    }

    pub fn unbounded() -> (q: Queue<T>)
        ensures
            q.items() == Seq::<T>::empty(),
            q.cap() == None::<usize>,
            q.bounded(),
            q.get_waiters() == Seq::<TaskId>::empty(),
            q.put_waiters() == Seq::<TaskId>::empty(),
            q.woken() == Seq::<TaskId>::empty(),
    {
        Self::new(None)
    }

    pub fn len(&self) -> (n: usize)
        ensures
            n == self.items().len(),
    {
        self.buf.len()
    }

    pub fn is_empty(&self) -> (b: bool)
        ensures
            b == (self.items().len() == 0),
    {
        self.buf.len() == 0
    }

    /// Is there room right now?
    pub fn has_space(&self) -> (b: bool)
        ensures
            b == self.spec_has_space(),
    {
        match self.cap {
            None => true,
            Some(c) => self.buf.len() < c,
        }
    }

    /// Move every task waiting for an item to the wake list.
    fn wake_getters(&mut self)
        ensures
            final(self).items() == old(self).items(),
            final(self).cap() == old(self).cap(),
            old(self).bounded() ==> final(self).bounded(),
            final(self).put_waiters() == old(self).put_waiters(),
            final(self).get_waiters() == Seq::<TaskId>::empty(),
            final(self).woken() == old(self).woken() + old(self).get_waiters(),
    {
        self.woken.append(&mut self.get_waiters);
    }

    /// Move every task waiting for room to the wake list.
    fn wake_putters(&mut self)
        ensures
            final(self).items() == old(self).items(),
            final(self).cap() == old(self).cap(),
            old(self).bounded() ==> final(self).bounded(),
            final(self).get_waiters() == old(self).get_waiters(),
            final(self).put_waiters() == Seq::<TaskId>::empty(),
            final(self).woken() == old(self).woken() + old(self).put_waiters(),
    {
        self.woken.append(&mut self.put_waiters);
    }

    /// Put without waiting. A full queue hands the item back, unchanged.
    pub fn try_put(&mut self, item: T) -> (r: Result<(), T>)
        ensures
            old(self).spec_has_space() ==> {
                &&& r is Ok
                &&& final(self).items() == old(self).items().push(item)
                &&& final(self).get_waiters() == Seq::<TaskId>::empty()
                &&& final(self).woken() == old(self).woken() + old(self).get_waiters()
            },
            !old(self).spec_has_space() ==> {
                &&& r == Err::<(), T>(item)
                &&& final(self).items() == old(self).items()
                &&& final(self).get_waiters() == old(self).get_waiters()
                &&& final(self).woken() == old(self).woken()
            },
            final(self).cap() == old(self).cap(),
            old(self).bounded() ==> final(self).bounded(),
            final(self).put_waiters() == old(self).put_waiters(),
    {
        if self.has_space() {
            self.buf.push_back(item);
            self.wake_getters();
            Ok(())
        } else {
            Err(item)
        }
    }

    /// Take the front item without waiting; `None` when empty.
    pub fn try_get(&mut self) -> (r: Option<T>)
        ensures
            old(self).items().len() == 0 ==> {
                &&& r is None
                &&& final(self).items() == old(self).items()
                &&& final(self).put_waiters() == old(self).put_waiters()
                &&& final(self).woken() == old(self).woken()
            },
            old(self).items().len() > 0 ==> {
                &&& r == Some(old(self).items()[0])
                &&& final(self).items() == old(self).items().drop_first()
                &&& final(self).put_waiters() == Seq::<TaskId>::empty()
                &&& final(self).woken() == old(self).woken() + old(self).put_waiters()
            },
            final(self).cap() == old(self).cap(),
            old(self).bounded() ==> final(self).bounded(),
            final(self).get_waiters() == old(self).get_waiters(),
    {
        let item = self.buf.pop_front();
        if item.is_some() {
            self.wake_putters();
        }
        item
    }

    /// A put that waits for room.
    pub fn put(&self, item: T) -> (p: Put<T>)
        ensures
            p.pending_item() == Some(item),
    {
        Put { item: Some(item) }
    }

    /// A get that waits for an item.
    pub fn get(&self) -> (g: Get)
    {
        Get { _private: () }
    }

    /// Wait until the queue has room, without handing over an item — for a
    /// caller that must act on the item at the instant it is accepted.
    pub fn wait_for_space(&self) -> (s: Space)
    {
        Space { _private: () }
    }

    /// Hand the woken tasks to the scheduler, emptying the wake list.
    pub fn take_woken(&mut self) -> (w: Vec<TaskId>)
        ensures
            w@ == old(self).woken(),
            final(self).woken() == Seq::<TaskId>::empty(),
            final(self).items() == old(self).items(),
            final(self).cap() == old(self).cap(),
            old(self).bounded() ==> final(self).bounded(),
            final(self).get_waiters() == old(self).get_waiters(),
            final(self).put_waiters() == old(self).put_waiters(),
    {
        let mut w = Vec::new();
        w.append(&mut self.woken);
        w
    }
}

impl<T: Clone> Queue<T> {
    /// A copy of the front item, which stays in the queue.
    pub fn try_peek(&self) -> (r: Option<T>)
        ensures
            self.items().len() == 0 ==> r is None,
            self.items().len() > 0 ==> (r matches Some(v) && cloned::<T>(self.items()[0], v)),
    {
        if self.buf.len() == 0 {
            None
        } else {
            Some(self.buf[0].clone())
        }
    }

    /// A peek that waits until there is something to copy.
    pub fn peek(&self) -> (p: Peek)
    {
        Peek { _private: () }
    }
}

/// A pending put: holds the item until there is room for it.
pub struct Put<T> {
    item: Option<T>,
}

impl<T> Put<T> {
    /// The item still to be handed over; `None` once the put has completed.
    pub closed spec fn pending_item(&self) -> Option<T> {
        self.item
    }

    /// Try once: with room, the item joins the back of the queue and any
    /// waiting getters are woken; without, the polling task waits for room.
    pub fn poll(&mut self, q: &mut Queue<T>, waker: TaskId) -> (r: Poll<()>)
        requires
            old(self).pending_item() is Some,
        ensures
            old(q).spec_has_space() ==> {
                &&& r == Poll::Ready(())
                &&& final(q).items() == old(q).items().push(old(self).pending_item()->0)
                &&& final(q).get_waiters() == Seq::<TaskId>::empty()
                &&& final(q).woken() == old(q).woken() + old(q).get_waiters()
                &&& final(q).put_waiters() == old(q).put_waiters()
                &&& final(self).pending_item() is None
            },
            !old(q).spec_has_space() ==> {
                &&& r == Poll::<()>::Pending
                &&& final(q).items() == old(q).items()
                &&& final(q).get_waiters() == old(q).get_waiters()
                &&& final(q).woken() == old(q).woken()
                &&& final(q).put_waiters() == old(q).put_waiters().push(waker)
                &&& final(self).pending_item() == old(self).pending_item()
            },
            final(q).cap() == old(q).cap(),
            old(q).bounded() ==> final(q).bounded(),
    {
        if q.has_space() {
            let item = self.item.take().unwrap();
            q.buf.push_back(item);
            q.wake_getters();
            Poll::Ready(())
        } else {
            q.put_waiters.push(waker);
            Poll::Pending
        }
    }
}

/// A pending get.
pub struct Get {
    _private: (),
}

impl Get {
    /// Try once: take the front item, waking any waiting putters, or record
    /// the polling task as waiting for an item.
    pub fn poll<T>(&self, q: &mut Queue<T>, waker: TaskId) -> (r: Poll<T>)
        ensures
            old(q).items().len() > 0 ==> {
                &&& r == Poll::Ready(old(q).items()[0])
                &&& final(q).items() == old(q).items().drop_first()
                &&& final(q).put_waiters() == Seq::<TaskId>::empty()
                &&& final(q).woken() == old(q).woken() + old(q).put_waiters()
                &&& final(q).get_waiters() == old(q).get_waiters()
            },
            old(q).items().len() == 0 ==> {
                &&& r == Poll::<T>::Pending
                &&& final(q).items() == old(q).items()
                &&& final(q).put_waiters() == old(q).put_waiters()
                &&& final(q).woken() == old(q).woken()
                &&& final(q).get_waiters() == old(q).get_waiters().push(waker)
            },
            final(q).cap() == old(q).cap(),
            old(q).bounded() ==> final(q).bounded(),
    {
        match q.try_get() {
            Some(v) => Poll::Ready(v),
            None => {
                q.get_waiters.push(waker);
                Poll::Pending
            },
        }
    }
}

/// A pending peek.
pub struct Peek {
    _private: (),
}

impl Peek {
    /// Try once: copy the front item (nothing leaves the queue, so no putter
    /// is woken), or record the polling task as waiting for an item.
    pub fn poll<T: Clone>(&self, q: &mut Queue<T>, waker: TaskId) -> (r: Poll<T>)
        ensures
            old(q).items().len() > 0 ==> {
                &&& (r matches Poll::Ready(v) && cloned::<T>(old(q).items()[0], v))
                &&& final(q).get_waiters() == old(q).get_waiters()
            },
            old(q).items().len() == 0 ==> {
                &&& r == Poll::<T>::Pending
                &&& final(q).get_waiters() == old(q).get_waiters().push(waker)
            },
            final(q).items() == old(q).items(),
            final(q).cap() == old(q).cap(),
            old(q).bounded() ==> final(q).bounded(),
            final(q).put_waiters() == old(q).put_waiters(),
            final(q).woken() == old(q).woken(),
    {
        match q.try_peek() {
            Some(v) => Poll::Ready(v),
            None => {
                q.get_waiters.push(waker);
                Poll::Pending
            },
        }
    }
}

/// A pending wait for room.
pub struct Space {
    _private: (),
}

impl Space {
    /// Try once: complete if the queue has room, else wait for room.
    pub fn poll<T>(&self, q: &mut Queue<T>, waker: TaskId) -> (r: Poll<()>)
        ensures
            old(q).spec_has_space() ==> r == Poll::Ready(()) && final(q).put_waiters() == old(
                q,
            ).put_waiters(),
            !old(q).spec_has_space() ==> r == Poll::<()>::Pending && final(q).put_waiters()
                == old(q).put_waiters().push(waker),
            final(q).items() == old(q).items(),
            final(q).cap() == old(q).cap(),
            old(q).bounded() ==> final(q).bounded(),
            final(q).get_waiters() == old(q).get_waiters(),
            final(q).woken() == old(q).woken(),
    {
        if q.has_space() {
            Poll::Ready(())
        } else {
            q.put_waiters.push(waker);
            Poll::Pending
        }
    }
}

} // verus!
