//! Sim-aware synchronisation: a manual-reset `Event` and a FIFO-fair `Lock`.

use vstd::prelude::*;
use std::collections::VecDeque;

use crate::sim::poll::{Poll, TaskId};

verus! {

// ---------------------------------------------------------------------------
// Event
// ---------------------------------------------------------------------------

/// A manual-reset event: `set` latches until `clear`, and a wait on a set
/// event completes at once.
pub struct Event {
    is_set: bool,
    waiters: Vec<TaskId>,
    woken: Vec<TaskId>,
}

impl Event {
    pub closed spec fn spec_is_set(&self) -> bool {
        self.is_set
    }

    /// Tasks waiting for the event.
    pub closed spec fn waiters(&self) -> Seq<TaskId> {
        self.waiters@
    }

    /// Tasks woken and not yet handed to the scheduler.
    pub closed spec fn woken(&self) -> Seq<TaskId> {
        self.woken@
    }

    pub fn new() -> (e: Event)
        ensures
            !e.spec_is_set(),
            e.waiters() == Seq::<TaskId>::empty(),
            e.woken() == Seq::<TaskId>::empty(),
    {
        Event { is_set: false, waiters: Vec::new(), woken: Vec::new() }
    }

    /// Set the event and wake every waiter.
    pub fn set(&mut self)
        ensures
            final(self).spec_is_set(),
            final(self).waiters() == Seq::<TaskId>::empty(),
            final(self).woken() == old(self).woken() + old(self).waiters(),
    {
        self.is_set = true;
        self.woken.append(&mut self.waiters);
    }

    /// Reset the event; later waits block again.
    pub fn clear(&mut self)
        ensures
            !final(self).spec_is_set(),
            final(self).waiters() == old(self).waiters(),
            final(self).woken() == old(self).woken(),
    {
        self.is_set = false;
    }

    pub fn is_set(&self) -> (b: bool)
        ensures
            b == self.spec_is_set(),
    {
        self.is_set
    }

    /// A wait for the event.
    pub fn wait(&self) -> (w: EventWait)
    {
        EventWait { _private: () }
    }

    /// Hand the woken tasks to the scheduler, emptying the wake list.
    pub fn take_woken(&mut self) -> (w: Vec<TaskId>)
        ensures
            w@ == old(self).woken(),
            final(self).woken() == Seq::<TaskId>::empty(),
            final(self).waiters() == old(self).waiters(),
            final(self).spec_is_set() == old(self).spec_is_set(),
    {
        let mut w = Vec::new();
        w.append(&mut self.woken);
        w
    }
}

/// A pending wait on an [`Event`].
pub struct EventWait {
    _private: (),
}

impl EventWait {
    /// Complete if the event is set; otherwise wait for it.
    pub fn poll(&self, ev: &mut Event, waker: TaskId) -> (r: Poll<()>)
        ensures
            old(ev).spec_is_set() ==> r == Poll::Ready(()) && final(ev).waiters() == old(ev).waiters(),
            !old(ev).spec_is_set() ==> r == Poll::<()>::Pending && final(ev).waiters() == old(ev).waiters().push(waker),
            final(ev).spec_is_set() == old(ev).spec_is_set(),
            final(ev).woken() == old(ev).woken(),
    {
        if ev.is_set {
            Poll::Ready(())
        } else {
            ev.waiters.push(waker);
            Poll::Pending
        }
    }
}

// ---------------------------------------------------------------------------
// Lock
// ---------------------------------------------------------------------------

/// A FIFO-fair mutex: on release, ownership passes straight to the longest
/// waiting requester, so requests are granted in the order they were made.
pub struct Lock {
    locked: bool,
    /// Requests not yet granted, oldest first: (request number, task).
    waiters: VecDeque<(u64, TaskId)>,
    /// Requests granted but not yet collected by their `Acquire`.
    granted: Vec<u64>,
    next_request: u64,
    woken: Vec<TaskId>,
}

impl Lock {
    pub closed spec fn spec_locked(&self) -> bool {
        self.locked
    }

    /// Requests waiting for the lock, oldest first.
    pub closed spec fn waiters(&self) -> Seq<(u64, TaskId)> {
        self.waiters@
    }

    /// Requests handed the lock that have not yet been collected.
    pub closed spec fn granted(&self) -> Seq<u64> {
        self.granted@
    }

    pub closed spec fn next_request(&self) -> u64 {
        self.next_request
    }

    pub closed spec fn woken(&self) -> Seq<TaskId> {
        self.woken@
    }

    /// The lock is held whenever anyone waits for it or has been granted it.
    pub open spec fn wf(&self) -> bool {
        !self.spec_locked() ==> self.waiters().len() == 0 && self.granted().len() == 0
    }

    pub fn new() -> (l: Lock)
        ensures
            !l.spec_locked(),
            l.waiters() == Seq::<(u64, TaskId)>::empty(),
            l.granted() == Seq::<u64>::empty(),
            l.woken() == Seq::<TaskId>::empty(),
            l.wf(),
    {
        Lock {
            locked: false,
            waiters: VecDeque::new(),
            granted: Vec::new(),
            next_request: 0,
            woken: Vec::new(),
        }
    }

    pub fn locked(&self) -> (b: bool)
        ensures
            b == self.spec_locked(),
    {
        self.locked
    }

    /// A request for the lock.
    pub fn acquire(&self) -> (a: Acquire)
        ensures
            a.request() is None,
            !a.spec_acquired(),
    {
        Acquire { request: None, acquired: false }
    }

    /// Pass ownership to the oldest waiter (waking its task), or unlock.
    fn release(&mut self)
        requires
            old(self).wf(),
        ensures
            final(self).wf(),
            old(self).waiters().len() == 0 ==> {
                &&& final(self).spec_locked() == (old(self).granted().len() > 0)
                &&& final(self).granted() == old(self).granted()
                &&& final(self).waiters() == old(self).waiters()
                &&& final(self).woken() == old(self).woken()
            },
            old(self).waiters().len() > 0 ==> {
                &&& final(self).spec_locked()
                &&& final(self).granted() == old(self).granted().push(old(self).waiters()[0].0)
                &&& final(self).waiters() == old(self).waiters().drop_first()
                &&& final(self).woken() == old(self).woken().push(old(self).waiters()[0].1)
            },
            final(self).next_request() == old(self).next_request(),
    {
        match self.waiters.pop_front() {
            Some((req, task)) => {
                self.granted.push(req);
                self.woken.push(task);
            },
            None => {
                if self.granted.len() == 0 {
                    self.locked = false;
                }
            },
        }
    }

    /// Hand the woken tasks to the scheduler, emptying the wake list.
    pub fn take_woken(&mut self) -> (w: Vec<TaskId>)
        ensures
            w@ == old(self).woken(),
            final(self).woken() == Seq::<TaskId>::empty(),
            final(self).waiters() == old(self).waiters(),
            final(self).granted() == old(self).granted(),
            final(self).spec_locked() == old(self).spec_locked(),
            final(self).next_request() == old(self).next_request(),
    {
        let mut w = Vec::new();
        w.append(&mut self.woken);
        w
    }
}

/// Position of `req` in `v`, if present.
fn find_u64(v: &Vec<u64>, req: u64) -> (r: Option<usize>)
    ensures
        r matches Some(i) ==> i < v@.len() && v@[i as int] == req,
        r is None ==> !v@.contains(req),
{
    let mut i: usize = 0;
    while i < v.len()
        invariant
            i <= v.len(),
            forall|j: int| 0 <= j < i ==> v@[j] != req,
        decreases v.len() - i,
    {
        if v[i] == req {
            return Some(i);
        }
        i = i + 1;
    }
    None
}

/// Re-points request `req` at the task that polled it last.
fn refresh_request(waiters: &mut VecDeque<(u64, TaskId)>, req: u64, waker: TaskId)
    ensures
        final(waiters)@.len() == old(waiters)@.len(),
        forall|k: int|
            0 <= k < old(waiters)@.len() ==> (#[trigger] final(waiters)@[k]).0 == old(waiters)@[k].0,
        forall|k: int|
            0 <= k < old(waiters)@.len() && old(waiters)@[k].0 != req ==> #[trigger] final(waiters)@[k] == old(waiters)@[k],
{
    let mut i: usize = 0;
    let n = waiters.len();
    while i < n
        invariant
            n == waiters@.len(),
            i <= n,
            forall|k: int| 0 <= k < n ==> (#[trigger] waiters@[k]).0 == old(waiters)@[k].0,
            forall|k: int| 0 <= k < n && old(waiters)@[k].0 != req ==> #[trigger] waiters@[k] == old(waiters)@[k],
        decreases n - i,
    {
        if waiters[i].0 == req {
            waiters.remove(i);
            waiters.insert(i, (req, waker));
        }
        i = i + 1;
    }
}

/// Drops request `req` from the queue, keeping the others in order.
fn remove_request(waiters: &mut VecDeque<(u64, TaskId)>, req: u64)
    ensures
        final(waiters)@.len() <= old(waiters)@.len(),
        final(waiters)@ == old(waiters)@.filter(|w: (u64, TaskId)| w.0 != req),
{
    let mut kept: VecDeque<(u64, TaskId)> = VecDeque::new();
    let ghost orig = waiters@;
    let mut i: usize = 0;
    while i < waiters.len()
        invariant
            waiters@ == orig,
            i <= orig.len(),
            kept@ == orig.subrange(0, i as int).filter(|w: (u64, TaskId)| w.0 != req),
        decreases orig.len() - i,
    {
        let w = waiters[i];
        proof {
            reveal_with_fuel(Seq::filter, 1);
            assert(orig.subrange(0, i + 1).drop_last() =~= orig.subrange(0, i as int));
        }
        if w.0 != req {
            kept.push_back(w);
        }
        i = i + 1;
    }
    proof {
        assert(orig.subrange(0, orig.len() as int) =~= orig);
        broadcast use vstd::seq_lib::group_filter_ensures;
    }
    *waiters = kept;
}

/// A pending request for a [`Lock`].
pub struct Acquire {
    request: Option<u64>,
    acquired: bool,
}

/// Ownership of a [`Lock`]; [`LockGuard::release`] hands it on.
pub struct LockGuard {
    _private: (),
}

impl Acquire {
    pub closed spec fn request(&self) -> Option<u64> {
        self.request
    }

    pub closed spec fn spec_acquired(&self) -> bool {
        self.acquired
    }

    /// Try once. A first poll takes a free lock at once, or queues a request
    /// behind every earlier one; a later poll collects the lock if the
    /// request has been granted, and otherwise keeps waiting.
    pub fn poll(&mut self, lock: &mut Lock, waker: TaskId) -> (r: Poll<LockGuard>)
        requires
            old(lock).wf(),
            !old(self).spec_acquired(),
            old(self).request() is None ==> old(lock).next_request() < u64::MAX,
            old(self).request() matches Some(q) ==> q < old(lock).next_request(),
        ensures
            final(lock).wf(),
            final(lock).next_request() >= old(lock).next_request(),
            old(self).request() is None && !old(lock).spec_locked() ==> {
                &&& r is Ready
                &&& final(self).spec_acquired()
                &&& final(lock).spec_locked()
                &&& final(lock).waiters() == old(lock).waiters()
                &&& final(lock).granted() == old(lock).granted()
            },
            old(self).request() is None && old(lock).spec_locked() ==> {
                &&& r is Pending
                &&& final(self).request() == Some(old(lock).next_request())
                &&& final(lock).waiters() == old(lock).waiters().push(
                    (old(lock).next_request(), waker),
                )
                &&& final(lock).granted() == old(lock).granted()
                &&& final(lock).next_request() == old(lock).next_request() + 1
            },
            old(self).request() matches Some(q) ==> {
                &&& (r is Ready <==> old(lock).granted().contains(q))
                &&& (r is Ready ==> final(self).spec_acquired())
                &&& final(self).request() == old(self).request()
                &&& final(lock).waiters().len() == old(lock).waiters().len()
                &&& forall|k: int|
                    0 <= k < old(lock).waiters().len() ==> (#[trigger] final(lock).waiters()[k]).0
                        == old(lock).waiters()[k].0
            },
            final(lock).spec_locked() == (old(lock).spec_locked() || r is Ready),
            final(lock).woken() == old(lock).woken(),
    {
        match self.request {
            None => {
                if !lock.locked {
                    lock.locked = true;
                    self.acquired = true;
                    Poll::Ready(LockGuard { _private: () })
                } else {
                    let req = lock.next_request;
                    lock.next_request = req + 1;
                    lock.waiters.push_back((req, waker));
                    self.request = Some(req);
                    Poll::Pending
                }
            },
            Some(req) => {
                match find_u64(&lock.granted, req) {
                    Some(i) => {
                        lock.granted.remove(i);
                        self.acquired = true;
                        Poll::Ready(LockGuard { _private: () })
                    },
                    None => {
                        refresh_request(&mut lock.waiters, req, waker);
                        Poll::Pending
                    },
                }
            },
        }
    }

    /// Give up a request that has not been collected: a request already
    /// granted passes the lock on; one still queued leaves the queue.
    pub fn abandon(self, lock: &mut Lock)
        requires
            old(lock).wf(),
        ensures
            final(lock).wf(),
            self.spec_acquired() || self.request() is None ==> *final(lock) == *old(lock),
    {
        if self.acquired {
            return;
        }
        if let Some(req) = self.request {
            match find_u64(&lock.granted, req) {
                Some(i) => {
                    lock.granted.remove(i);
                    lock.release();
                },
                None => {
                    remove_request(&mut lock.waiters, req);
                },
            }
        }
    }
}

impl LockGuard {
    /// Release the lock: it goes to the oldest waiter, or becomes free.
    pub fn release(self, lock: &mut Lock)
        requires
            old(lock).wf(),
            old(lock).spec_locked(),
        ensures
            final(lock).wf(),
            old(lock).waiters().len() == 0 ==> {
                &&& final(lock).spec_locked() == (old(lock).granted().len() > 0)
                &&& final(lock).granted() == old(lock).granted()
                &&& final(lock).woken() == old(lock).woken()
            },
            old(lock).waiters().len() > 0 ==> {
                &&& final(lock).spec_locked()
                &&& final(lock).granted() == old(lock).granted().push(old(lock).waiters()[0].0)
                &&& final(lock).waiters() == old(lock).waiters().drop_first()
                &&& final(lock).woken() == old(lock).woken().push(old(lock).waiters()[0].1)
            },
    {
        lock.release();
    }
}

} // verus!
