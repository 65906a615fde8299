//! `TlmFifo`: a component that encapsulates a queue, so two components
//! connect to the same FIFO and neither learns the other exists. Its two
//! analysis taps see every item as it goes in and as it comes out, without
//! taking part in the data path.

use vstd::prelude::*;

use crate::methodology::analysis::SinkId;
use crate::sim::poll::TaskId;
use crate::sim::queue::Queue;

verus! {

pub struct TlmFifo<T> {
    q: Queue<T>,
    size: Option<usize>,
    put_taps: Vec<SinkId>,
    get_taps: Vec<SinkId>,
}

/// One of a FIFO's taps: the put side (`put_ap`) or the get side (`get_ap`).
pub struct TapExport {
    on_put: bool,
}

/// The FIFO's put side.
pub struct PutExport {
    _private: (),
}

/// The FIFO's get side.
pub struct GetExport {
    _private: (),
}

/// The FIFO's peek side.
pub struct PeekExport {
    _private: (),
}

impl<T> TlmFifo<T> {
    pub closed spec fn items(&self) -> Seq<T> {
        self.q.items()
    }

    pub closed spec fn spec_size(&self) -> Option<usize> {
        self.size
    }

    pub closed spec fn put_taps(&self) -> Seq<SinkId> {
        self.put_taps@
    }

    pub closed spec fn get_taps(&self) -> Seq<SinkId> {
        self.get_taps@
    }

    /// Tasks woken (waiting putters or getters) and not yet handed over.
    pub closed spec fn woken(&self) -> Seq<TaskId> {
        self.q.woken()
    }

    /// The FIFO's depth and its queue's bound agree.
    pub closed spec fn wf(&self) -> bool {
        self.q.cap() == self.size
    }

    pub open spec fn spec_is_full(&self) -> bool {
        match self.spec_size() {
            Some(s) => self.items().len() >= s,
            None => false,
        }
    }

    /// A FIFO `size` items deep; depth 1 makes producer and consumer take
    /// turns.
    pub fn new(size: usize) -> (f: TlmFifo<T>)
        ensures
            f.wf(),
            f.spec_size() == Some(size),
            f.items() == Seq::<T>::empty(),
            f.put_taps() == Seq::<SinkId>::empty(),
            f.get_taps() == Seq::<SinkId>::empty(),
            f.woken() == Seq::<TaskId>::empty(),
    {
        TlmFifo { q: Queue::new(Some(size)), size: Some(size), put_taps: Vec::new(), get_taps: Vec::new() }
    }

    /// A FIFO with no depth limit: a put never has to wait.
    pub fn unbounded() -> (f: TlmFifo<T>)
        ensures
            f.wf(),
            f.spec_size() is None,
            f.items() == Seq::<T>::empty(),
            f.put_taps() == Seq::<SinkId>::empty(),
            f.get_taps() == Seq::<SinkId>::empty(),
            f.woken() == Seq::<TaskId>::empty(),
    {
        TlmFifo { q: Queue::unbounded(), size: None, put_taps: Vec::new(), get_taps: Vec::new() }
    }

    /// The declared depth; `None` for an unbounded FIFO.
    pub fn size(&self) -> (s: Option<usize>)
        ensures
            s == self.spec_size(),
    {
        self.size
    }

    /// How many items are in it now.
    pub fn used(&self) -> (n: usize)
        ensures
            n == self.items().len(),
    {
        self.q.len()
    }

    pub fn is_empty(&self) -> (b: bool)
        ensures
            b == (self.items().len() == 0),
    {
        self.q.is_empty()
    }

    pub fn is_full(&self) -> (b: bool)
        ensures
            b == self.spec_is_full(),
    {
        match self.size {
            None => false,
            Some(s) => self.q.len() >= s,
        }
    }

    /// Throw away everything in the FIFO. Flushing is not a get: it names
    /// no sink, so no get tap sees the discarded items.
    pub fn flush(&mut self)
        requires
            old(self).wf(),
        ensures
            final(self).wf(),
            final(self).items() == Seq::<T>::empty(),
            final(self).spec_size() == old(self).spec_size(),
            final(self).put_taps() == old(self).put_taps(),
            final(self).get_taps() == old(self).get_taps(),
    {
        while !self.q.is_empty()
            invariant
                self.wf(),
                self.spec_size() == old(self).spec_size(),
                self.put_taps() == old(self).put_taps(),
                self.get_taps() == old(self).get_taps(),
            decreases self.q.items().len(),
        {
            let _ = self.q.try_get();
        }
    }

    pub fn put_export(&self) -> (e: PutExport)
    {
        PutExport { _private: () }
    }

    pub fn get_export(&self) -> (e: GetExport)
    {
        GetExport { _private: () }
    }

    /// The tap that sees each item as it goes in.
    pub fn put_ap(&self) -> (e: TapExport)
        ensures
            e.on_put(),
    {
        TapExport { on_put: true }
    }

    /// The tap that sees each item as it comes out.
    pub fn get_ap(&self) -> (e: TapExport)
        ensures
            !e.on_put(),
    {
        TapExport { on_put: false }
    }

    /// Put without waiting. A full FIFO hands the item back and names no
    /// sink; an accepted item joins the queue and the second half of the
    /// result names the sinks that see it: every put tap once, in connection
    /// order.
    pub fn try_put(&mut self, item: T) -> (r: (Result<(), T>, Vec<SinkId>))
        requires
            old(self).wf(),
        ensures
            final(self).wf(),
            !old(self).spec_is_full() ==> r.0 is Ok && final(self).items() == old(self).items().push(item) && r.1@ == old(self).put_taps(),
            old(self).spec_is_full() ==> r.0 == Err::<(), T>(item) && final(self).items() == old(self).items() && r.1@ == Seq::<SinkId>::empty(),
            final(self).spec_size() == old(self).spec_size(),
            final(self).put_taps() == old(self).put_taps(),
            final(self).get_taps() == old(self).get_taps(),
    {
        let r = self.q.try_put(item);
        match r {
            Ok(()) => (r, self.put_taps.clone()),
            Err(_) => (r, Vec::new()),
        }
    }

    /// Take the front item without waiting. The second half of the result
    /// names the sinks that see the taken item: every get tap once, in
    /// connection order; none when the FIFO was empty.
    pub fn try_get(&mut self) -> (r: (Option<T>, Vec<SinkId>))
        requires
            old(self).wf(),
        ensures
            final(self).wf(),
            old(self).items().len() == 0 ==> r.0 is None && final(self).items() == old(self).items() && r.1@ == Seq::<SinkId>::empty(),
            old(self).items().len() > 0 ==> r.0 == Some(old(self).items()[0]) && final(self).items() == old(self).items().drop_first() && r.1@ == old(self).get_taps(),
            final(self).spec_size() == old(self).spec_size(),
            final(self).put_taps() == old(self).put_taps(),
            final(self).get_taps() == old(self).get_taps(),
    {
        let r = self.q.try_get();
        match r {
            Some(_) => (r, self.get_taps.clone()),
            None => (r, Vec::new()),
        }
    }

    /// Who sees an accepted item, in order.
    pub fn put_ap_subscribers(&self) -> (s: Vec<SinkId>)
        ensures
            s@ == self.put_taps(),
    {
        self.put_taps.clone()
    }

    /// Who sees a taken item, in order.
    pub fn get_ap_subscribers(&self) -> (s: Vec<SinkId>)
        ensures
            s@ == self.get_taps(),
    {
        self.get_taps.clone()
    }

    /// Hand the woken tasks to the scheduler.
    pub fn take_woken(&mut self) -> (w: Vec<TaskId>)
        requires
            old(self).wf(),
        ensures
            final(self).wf(),
            w@ == old(self).woken(),
            final(self).woken() == Seq::<TaskId>::empty(),
            final(self).items() == old(self).items(),
            final(self).spec_size() == old(self).spec_size(),
            final(self).put_taps() == old(self).put_taps(),
            final(self).get_taps() == old(self).get_taps(),
    {
        self.q.take_woken()
    }
}

impl<T> Default for TlmFifo<T> {
    /// Depth 1: producer and consumer take turns.
    fn default() -> (f: TlmFifo<T>)
        ensures
            f.wf(),
            f.spec_size() == Some(1usize),
            f.items() == Seq::<T>::empty(),
            f.put_taps() == Seq::<SinkId>::empty(),
            f.get_taps() == Seq::<SinkId>::empty(),
            f.woken() == Seq::<TaskId>::empty(),
    {
        TlmFifo::new(1)
    }
}

impl<T: Clone> TlmFifo<T> {
    pub fn peek_export(&self) -> (e: PeekExport)
    {
        PeekExport { _private: () }
    }

    /// A copy of the front item, which stays in the FIFO.
    pub fn try_peek(&self) -> (r: Option<T>)
        ensures
            self.items().len() == 0 ==> r is None,
            self.items().len() > 0 ==> (r matches Some(v) && cloned::<T>(self.items()[0], v)),
    {
        self.q.try_peek()
    }
}

impl TapExport {
    pub closed spec fn on_put(&self) -> bool {
        self.on_put
    }

    /// Add a subscriber to this tap.
    pub fn connect<T>(&self, fifo: &mut TlmFifo<T>, sink: SinkId)
        requires
            old(fifo).wf(),
        ensures
            final(fifo).wf(),
            self.on_put() ==> final(fifo).put_taps() == old(fifo).put_taps().push(sink)
                && final(fifo).get_taps() == old(fifo).get_taps(),
            !self.on_put() ==> final(fifo).get_taps() == old(fifo).get_taps().push(sink)
                && final(fifo).put_taps() == old(fifo).put_taps(),
            final(fifo).items() == old(fifo).items(),
            final(fifo).spec_size() == old(fifo).spec_size(),
    {
        if self.on_put {
            fifo.put_taps.push(sink);
        } else {
            fifo.get_taps.push(sink);
        }
    }
}

} // verus!
