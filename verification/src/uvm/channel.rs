//! Bounded channels with counted endpoints: a send waits for room, a
//! receive or a peek waits for an item, and either side learns when every
//! endpoint on the other side is gone.

use vstd::prelude::*;
use std::collections::VecDeque;

use crate::sim::poll::{Poll, TaskId};
use crate::text::to_string;

verus! {

#[derive(Copy, Clone, Debug, PartialEq, Eq, Structural)]
pub enum TlmError {
    /// All endpoints on the other side have been dropped.
    Disconnected,
}

impl TlmError {
    pub fn to_string(&self) -> (s: String)
        ensures
            s@ == "channel disconnected"@,
    {
        to_string("channel disconnected")
    }
}

/// A `try_send` that could not deliver: the item comes back.
pub struct TlmFull<T>(pub T);

/// A `try_recv` or `try_peek` on an empty channel.
#[derive(Copy, Clone, Debug, PartialEq, Eq, Structural)]
pub struct TlmEmpty;

/// The shared state of a channel: its items, its bound, how many senders
/// and receivers are alive, who waits, and who has been woken.
pub struct Channel<T> {
    buf: VecDeque<T>,
    cap: usize,
    senders: usize,
    receivers: usize,
    send_waiters: Vec<TaskId>,
    recv_waiters: Vec<TaskId>,
    woken: Vec<TaskId>,
}

/// The sending endpoint.
pub struct Sender {
    _private: (),
}

/// The receiving endpoint.
pub struct Receiver {
    _private: (),
}

/// A bounded channel with one sender and one receiver. A capacity of 0 is
/// taken as 1, the TLM FIFO's default depth.
pub fn channel<T>(capacity: usize) -> (r: (Sender, Receiver, Channel<T>))
    ensures
        r.2.items() == Seq::<T>::empty(),
        r.2.cap() == if capacity == 0 {
            1
        } else {
            capacity
        },
        r.2.senders() == 1,
        r.2.receivers() == 1,
        r.2.send_waiters() == Seq::<TaskId>::empty(),
        r.2.recv_waiters() == Seq::<TaskId>::empty(),
        r.2.woken() == Seq::<TaskId>::empty(),
{
    let cap = if capacity == 0 {
        1
    } else {
        capacity
    };
    (
        Sender { _private: () },
        Receiver { _private: () },
        Channel {
            buf: VecDeque::new(),
            cap,
            senders: 1,
            receivers: 1,
            send_waiters: Vec::new(),
            recv_waiters: Vec::new(),
            woken: Vec::new(),
        },
    )
}

impl<T> Channel<T> {
    pub closed spec fn items(&self) -> Seq<T> {
        self.buf@
    }

    pub closed spec fn cap(&self) -> usize {
        self.cap
    }

    pub closed spec fn senders(&self) -> usize {
        self.senders
    }

    pub closed spec fn receivers(&self) -> usize {
        self.receivers
    }

    pub closed spec fn send_waiters(&self) -> Seq<TaskId> {
        self.send_waiters@
    }

    pub closed spec fn recv_waiters(&self) -> Seq<TaskId> {
        self.recv_waiters@
    }

    pub closed spec fn woken(&self) -> Seq<TaskId> {
        self.woken@
    }

    pub open spec fn spec_has_space(&self) -> bool {
        self.items().len() < self.cap()
    }

    /// Everything but the items and the waiter and wake lists is as it was.
    pub open spec fn same_ends(&self, other: &Self) -> bool {
        &&& self.cap() == other.cap()
        &&& self.senders() == other.senders()
        &&& self.receivers() == other.receivers()
    }

    fn has_space(&self) -> (b: bool)
        ensures
            b == self.spec_has_space(),
    {
        self.buf.len() < self.cap
    }

    fn wake_senders(&mut self)
        ensures
            final(self).items() == old(self).items(),
            final(self).same_ends(old(self)),
            final(self).recv_waiters() == old(self).recv_waiters(),
            final(self).send_waiters() == Seq::<TaskId>::empty(),
            final(self).woken() == old(self).woken() + old(self).send_waiters(),
    {
        self.woken.append(&mut self.send_waiters);
    }

    fn wake_receivers(&mut self)
        ensures
            final(self).items() == old(self).items(),
            final(self).same_ends(old(self)),
            final(self).send_waiters() == old(self).send_waiters(),
            final(self).recv_waiters() == Seq::<TaskId>::empty(),
            final(self).woken() == old(self).woken() + old(self).recv_waiters(),
    {
        self.woken.append(&mut self.recv_waiters);
    }

    /// Hand the woken tasks to the scheduler, emptying the wake list.
    pub fn take_woken(&mut self) -> (w: Vec<TaskId>)
        ensures
            w@ == old(self).woken(),
            final(self).woken() == Seq::<TaskId>::empty(),
            final(self).items() == old(self).items(),
            final(self).same_ends(old(self)),
            final(self).send_waiters() == old(self).send_waiters(),
            final(self).recv_waiters() == old(self).recv_waiters(),
    {
        let mut w = Vec::new();
        w.append(&mut self.woken);
        w
    }
}

impl Sender {
    /// Another sender for the same channel.
    pub fn clone_on<T>(&self, ch: &mut Channel<T>) -> (s: Sender)
        requires
            old(ch).senders() < usize::MAX,
        ensures
            final(ch).senders() == old(ch).senders() + 1,
            final(ch).receivers() == old(ch).receivers(),
            final(ch).cap() == old(ch).cap(),
            final(ch).items() == old(ch).items(),
            final(ch).send_waiters() == old(ch).send_waiters(),
            final(ch).recv_waiters() == old(ch).recv_waiters(),
            final(ch).woken() == old(ch).woken(),
    {
        ch.senders = ch.senders + 1;
        Sender { _private: () }
    }

    /// This sender goes away; when it was the last, waiting receivers wake
    /// to find the channel disconnected.
    pub fn drop_from<T>(self, ch: &mut Channel<T>)
        requires
            old(ch).senders() > 0,
        ensures
            final(ch).senders() == old(ch).senders() - 1,
            final(ch).receivers() == old(ch).receivers(),
            final(ch).cap() == old(ch).cap(),
            final(ch).items() == old(ch).items(),
            final(ch).send_waiters() == old(ch).send_waiters(),
            old(ch).senders() == 1 ==> final(ch).recv_waiters() == Seq::<TaskId>::empty()
                && final(ch).woken() == old(ch).woken() + old(ch).recv_waiters(),
            old(ch).senders() > 1 ==> final(ch).recv_waiters() == old(ch).recv_waiters()
                && final(ch).woken() == old(ch).woken(),
    {
        ch.senders = ch.senders - 1;
        if ch.senders == 0 {
            ch.wake_receivers();
        }
    }

    /// A send that waits for room.
    pub fn send<T>(&self, item: T) -> (s: Send_<T>)
        ensures
            s.pending_item() == Some(item),
    {
        Send_ { item: Some(item) }
    }

    /// Send without waiting. With no receiver left, or no room, the item
    /// comes back.
    pub fn try_send<T>(&self, ch: &mut Channel<T>, item: T) -> (r: Result<(), TlmFull<T>>)
        ensures
            final(ch).same_ends(old(ch)),
            final(ch).send_waiters() == old(ch).send_waiters(),
            old(ch).receivers() > 0 && old(ch).spec_has_space() ==> {
                &&& r is Ok
                &&& final(ch).items() == old(ch).items().push(item)
                &&& final(ch).recv_waiters() == Seq::<TaskId>::empty()
                &&& final(ch).woken() == old(ch).woken() + old(ch).recv_waiters()
            },
            !(old(ch).receivers() > 0 && old(ch).spec_has_space()) ==> {
                &&& r matches Err(TlmFull(x)) && x == item
                &&& final(ch).items() == old(ch).items()
                &&& final(ch).recv_waiters() == old(ch).recv_waiters()
                &&& final(ch).woken() == old(ch).woken()
            },
    {
        if ch.receivers == 0 {
            return Err(TlmFull(item));
        }
        if ch.has_space() {
            ch.buf.push_back(item);
            ch.wake_receivers();
            Ok(())
        } else {
            Err(TlmFull(item))
        }
    }

    /// Would a send complete now?
    pub fn can_send<T>(&self, ch: &Channel<T>) -> (b: bool)
        ensures
            b == (ch.spec_has_space() && ch.receivers() > 0),
    {
        ch.has_space() && ch.receivers > 0
    }
}

/// A pending send.
pub struct Send_<T> {
    item: Option<T>,
}

impl<T> Send_<T> {
    pub closed spec fn pending_item(&self) -> Option<T> {
        self.item
    }

    /// Try once: fail if no receiver is left; with room, deliver (waking
    /// the receivers); without, wait for room.
    pub fn poll(&mut self, ch: &mut Channel<T>, waker: TaskId) -> (r: Poll<Result<(), TlmError>>)
        requires
            old(self).pending_item() is Some,
        ensures
            final(ch).same_ends(old(ch)),
            old(ch).receivers() == 0 ==> {
                &&& r == Poll::Ready(Err::<(), TlmError>(TlmError::Disconnected))
                &&& final(ch).items() == old(ch).items()
                &&& final(ch).send_waiters() == old(ch).send_waiters()
                &&& final(ch).recv_waiters() == old(ch).recv_waiters()
                &&& final(ch).woken() == old(ch).woken()
                &&& final(self).pending_item() == old(self).pending_item()
            },
            old(ch).receivers() > 0 && old(ch).spec_has_space() ==> {
                &&& r == Poll::Ready(Ok::<(), TlmError>(()))
                &&& final(ch).items() == old(ch).items().push(old(self).pending_item()->0)
                &&& final(ch).send_waiters() == old(ch).send_waiters()
                &&& final(ch).recv_waiters() == Seq::<TaskId>::empty()
                &&& final(ch).woken() == old(ch).woken() + old(ch).recv_waiters()
                &&& final(self).pending_item() is None
            },
            old(ch).receivers() > 0 && !old(ch).spec_has_space() ==> {
                &&& r is Pending
                &&& final(ch).items() == old(ch).items()
                &&& final(ch).send_waiters() == old(ch).send_waiters().push(waker)
                &&& final(ch).recv_waiters() == old(ch).recv_waiters()
                &&& final(ch).woken() == old(ch).woken()
                &&& final(self).pending_item() == old(self).pending_item()
            },
    {
        if ch.receivers == 0 {
            return Poll::Ready(Err(TlmError::Disconnected));
        }
        if ch.has_space() {
            let item = self.item.take().unwrap();
            ch.buf.push_back(item);
            ch.wake_receivers();
            Poll::Ready(Ok(()))
        } else {
            ch.send_waiters.push(waker);
            Poll::Pending
        }
    }
}

impl Receiver {
    /// Another receiver for the same channel.
    pub fn clone_on<T>(&self, ch: &mut Channel<T>) -> (s: Receiver)
        requires
            old(ch).receivers() < usize::MAX,
        ensures
            final(ch).receivers() == old(ch).receivers() + 1,
            final(ch).senders() == old(ch).senders(),
            final(ch).cap() == old(ch).cap(),
            final(ch).items() == old(ch).items(),
            final(ch).send_waiters() == old(ch).send_waiters(),
            final(ch).recv_waiters() == old(ch).recv_waiters(),
            final(ch).woken() == old(ch).woken(),
    {
        ch.receivers = ch.receivers + 1;
        Receiver { _private: () }
    }

    /// This receiver goes away; when it was the last, waiting senders wake
    /// to find the channel disconnected.
    pub fn drop_from<T>(self, ch: &mut Channel<T>)
        requires
            old(ch).receivers() > 0,
        ensures
            final(ch).receivers() == old(ch).receivers() - 1,
            final(ch).senders() == old(ch).senders(),
            final(ch).cap() == old(ch).cap(),
            final(ch).items() == old(ch).items(),
            final(ch).recv_waiters() == old(ch).recv_waiters(),
            old(ch).receivers() == 1 ==> final(ch).send_waiters() == Seq::<TaskId>::empty()
                && final(ch).woken() == old(ch).woken() + old(ch).send_waiters(),
            old(ch).receivers() > 1 ==> final(ch).send_waiters() == old(ch).send_waiters()
                && final(ch).woken() == old(ch).woken(),
    {
        ch.receivers = ch.receivers - 1;
        if ch.receivers == 0 {
            ch.wake_senders();
        }
    }

    /// A receive that waits for an item.
    pub fn recv(&self) -> (r: Recv)
    {
        Recv { _private: () }
    }

    /// Take the front item without waiting.
    pub fn try_recv<T>(&self, ch: &mut Channel<T>) -> (r: Result<T, TlmEmpty>)
        ensures
            final(ch).same_ends(old(ch)),
            final(ch).recv_waiters() == old(ch).recv_waiters(),
            old(ch).items().len() > 0 ==> {
                &&& r == Ok::<T, TlmEmpty>(old(ch).items()[0])
                &&& final(ch).items() == old(ch).items().drop_first()
                &&& final(ch).send_waiters() == Seq::<TaskId>::empty()
                &&& final(ch).woken() == old(ch).woken() + old(ch).send_waiters()
            },
            old(ch).items().len() == 0 ==> {
                &&& r == Err::<T, TlmEmpty>(TlmEmpty)
                &&& final(ch).items() == old(ch).items()
                &&& final(ch).send_waiters() == old(ch).send_waiters()
                &&& final(ch).woken() == old(ch).woken()
            },
    {
        match ch.buf.pop_front() {
            Some(v) => {
                ch.wake_senders();
                Ok(v)
            },
            None => Err(TlmEmpty),
        }
    }

    pub fn len<T>(&self, ch: &Channel<T>) -> (n: usize)
        ensures
            n == ch.items().len(),
    {
        ch.buf.len()
    }

    pub fn is_empty<T>(&self, ch: &Channel<T>) -> (b: bool)
        ensures
            b == (ch.items().len() == 0),
    {
        ch.buf.len() == 0
    }

    /// A peek that waits for an item and copies it, leaving it in place.
    pub fn peek(&self) -> (p: Peek)
    {
        Peek { _private: () }
    }

    /// Copy the front item without waiting.
    pub fn try_peek<T: Clone>(&self, ch: &Channel<T>) -> (r: Result<T, TlmEmpty>)
        ensures
            ch.items().len() == 0 ==> r == Err::<T, TlmEmpty>(TlmEmpty),
            ch.items().len() > 0 ==> (r matches Ok(v) && cloned::<T>(ch.items()[0], v)),
    {
        if ch.buf.len() == 0 {
            Err(TlmEmpty)
        } else {
            Ok(ch.buf[0].clone())
        }
    }
}

/// A pending receive.
pub struct Recv {
    _private: (),
}

impl Recv {
    /// Try once: take the front item (waking the senders); with none and
    /// no sender left, fail; otherwise wait for an item.
    pub fn poll<T>(&self, ch: &mut Channel<T>, waker: TaskId) -> (r: Poll<Result<T, TlmError>>)
        ensures
            final(ch).same_ends(old(ch)),
            old(ch).items().len() > 0 ==> {
                &&& r == Poll::Ready(Ok::<T, TlmError>(old(ch).items()[0]))
                &&& final(ch).items() == old(ch).items().drop_first()
                &&& final(ch).send_waiters() == Seq::<TaskId>::empty()
                &&& final(ch).recv_waiters() == old(ch).recv_waiters()
                &&& final(ch).woken() == old(ch).woken() + old(ch).send_waiters()
            },
            old(ch).items().len() == 0 && old(ch).senders() == 0 ==> {
                &&& r == Poll::Ready(Err::<T, TlmError>(TlmError::Disconnected))
                &&& final(ch).items() == old(ch).items()
                &&& final(ch).send_waiters() == old(ch).send_waiters()
                &&& final(ch).recv_waiters() == old(ch).recv_waiters()
                &&& final(ch).woken() == old(ch).woken()
            },
            old(ch).items().len() == 0 && old(ch).senders() > 0 ==> {
                &&& r is Pending
                &&& final(ch).items() == old(ch).items()
                &&& final(ch).send_waiters() == old(ch).send_waiters()
                &&& final(ch).recv_waiters() == old(ch).recv_waiters().push(waker)
                &&& final(ch).woken() == old(ch).woken()
            },
    {
        match ch.buf.pop_front() {
            Some(v) => {
                ch.wake_senders();
                Poll::Ready(Ok(v))
            },
            None => {
                if ch.senders == 0 {
                    return Poll::Ready(Err(TlmError::Disconnected));
                }
                ch.recv_waiters.push(waker);
                Poll::Pending
            },
        }
    }
}

/// A pending peek.
pub struct Peek {
    _private: (),
}

impl Peek {
    /// Try once: copy the front item; with none and no sender left, fail;
    /// otherwise wait for an item.
    pub fn poll<T: Clone>(&self, ch: &mut Channel<T>, waker: TaskId) -> (r: Poll<Result<T, TlmError>>)
        ensures
            final(ch).same_ends(old(ch)),
            final(ch).items() == old(ch).items(),
            final(ch).send_waiters() == old(ch).send_waiters(),
            final(ch).woken() == old(ch).woken(),
            old(ch).items().len() > 0 ==> (r matches Poll::Ready(Ok(v)) && cloned::<T>(
                old(ch).items()[0],
                v,
            )) && final(ch).recv_waiters() == old(ch).recv_waiters(),
            old(ch).items().len() == 0 && old(ch).senders() == 0 ==> r == Poll::Ready(
                Err::<T, TlmError>(TlmError::Disconnected),
            ) && final(ch).recv_waiters() == old(ch).recv_waiters(),
            old(ch).items().len() == 0 && old(ch).senders() > 0 ==> r is Pending && final(ch).recv_waiters() == old(ch).recv_waiters().push(waker),
    {
        if ch.buf.len() > 0 {
            return Poll::Ready(Ok(ch.buf[0].clone()));
        }
        if ch.senders == 0 {
            return Poll::Ready(Err(TlmError::Disconnected));
        }
        ch.recv_waiters.push(waker);
        Poll::Pending
    }
}

} // verus!
