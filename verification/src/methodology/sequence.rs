//! Sequences and the sequencer handshake, as a state machine.
//!
//! 1. Sequence: `start_item` queues a ticket and waits until it is granted.
//! 2. Driver: `get_next_item` takes the oldest ticket, grants it, and waits
//!    until the sequence has filled the item in.
//! 3. Sequence: sets the fields; `finish_item` hands the item over and waits
//!    until the driver is done.
//! 4. Driver: drives the design; `item_done(rsp)` releases the sequence and
//!    files the response under the ticket.
//! 5. Sequence, if it wants the answer: `get_response(ticket)`.
//!
//! Whatever the sequence writes between steps 1 and 3 is what the driver
//! receives. Tickets start at 1 and ascend; arbitration is first come,
//! first served.

use vstd::prelude::*;

use crate::sim::poll::{Poll, TaskId};
use crate::sim::queue::Queue;
use crate::sim::sync::Event;
use crate::text::to_string;
use crate::sim::log::{LogConfig, Level, Logger, longest_match, rank};
use vstd::string::*;

verus! {

/// A transaction's ticket.
#[derive(Copy, Clone, Debug, PartialEq, Eq, Structural, Hash)]
pub struct TxnId(pub u64);

/// What a driver receives: the ticket plus the user's plain payload.
pub struct SeqItem<REQ> {
    id: TxnId,
    payload: REQ,
}

impl<REQ> SeqItem<REQ> {
    pub closed spec fn spec_id(&self) -> TxnId {
        self.id
    }

    pub closed spec fn spec_payload(&self) -> REQ {
        self.payload
    }

    pub fn txn_id(&self) -> (t: TxnId)
        ensures
            t == self.spec_id(),
    {
        self.id
    }

    pub fn payload(&self) -> (p: &REQ)
        ensures
            *p == self.spec_payload(),
    {
        &self.payload
    }

    pub fn payload_mut(&mut self) -> (p: &mut REQ)
        ensures
            *p == old(self).spec_payload(),
            final(self).spec_payload() == *final(p),
            final(self).spec_id() == old(self).spec_id(),
    {
        &mut self.payload
    }

    pub fn into_payload(self) -> (p: REQ)
        ensures
            p == self.spec_payload(),
    {
        self.payload
    }
}

/// Why a sequence could not proceed.
#[derive(Debug)]
pub struct SeqError(pub String);

impl SeqError {
    /// The message the error reads as.
    pub fn to_string(&self) -> (s: String)
        ensures
            s@ == "sequence error: "@ + self.0@,
    {
        let mut s = to_string("sequence error: ");
        s.append(self.0.as_str());
        s
    }
}

/// The first position of a response for `txn` (any response for `None`).
pub open spec fn response_index<RSP>(items: Seq<(TxnId, RSP)>, txn: Option<TxnId>) -> Option<int>
    decreases items.len(),
{
    if items.len() == 0 {
        None
    } else {
        match txn {
            None => Some(0),
            Some(id) => if items[0].0 == id {
                Some(0)
            } else {
                match response_index(items.drop_first(), txn) {
                    Some(i) => Some(i + 1),
                    None => None,
                }
            },
        }
    }
}

proof fn lemma_response_index_bounds<RSP>(items: Seq<(TxnId, RSP)>, txn: Option<TxnId>)
    ensures
        response_index(items, txn) matches Some(i) ==> 0 <= i < items.len() && (txn matches Some(
            id,
        ) ==> items[i].0 == id),
        response_index(items, txn) is None ==> (txn is None ==> items.len() == 0) && (txn matches Some(
            id,
        ) ==> forall|j: int| 0 <= j < items.len() ==> items[j].0 != id),
    decreases items.len(),
{
    if items.len() > 0 {
        lemma_response_index_bounds(items.drop_first(), txn);
        if let Some(id) = txn {
            if items[0].0 != id {
                if response_index(items.drop_first(), txn) is None {
                    assert forall|j: int| 0 <= j < items.len() implies items[j].0 != id by {
                        if j > 0 {
                            assert(items[j] == items.drop_first()[j - 1]);
                        }
                    }
                }
            }
        }
    }
}

/// Responses, retrievable in arrival order or by ticket.
pub struct ResponseQueue<RSP> {
    items: Vec<(TxnId, RSP)>,
    waiters: Vec<TaskId>,
    woken: Vec<TaskId>,
}

impl<RSP> ResponseQueue<RSP> {
    /// The responses not yet taken, in arrival order.
    pub closed spec fn responses(&self) -> Seq<(TxnId, RSP)> {
        self.items@
    }

    pub closed spec fn waiters(&self) -> Seq<TaskId> {
        self.waiters@
    }

    pub closed spec fn woken(&self) -> Seq<TaskId> {
        self.woken@
    }

    pub fn new() -> (q: ResponseQueue<RSP>)
        ensures
            q.responses() == Seq::<(TxnId, RSP)>::empty(),
            q.waiters() == Seq::<TaskId>::empty(),
            q.woken() == Seq::<TaskId>::empty(),
    {
        ResponseQueue { items: Vec::new(), waiters: Vec::new(), woken: Vec::new() }
    }

    /// File a response under its ticket and wake everyone waiting.
    pub fn push(&mut self, id: TxnId, rsp: RSP)
        ensures
            final(self).responses() == old(self).responses().push((id, rsp)),
            final(self).waiters() == Seq::<TaskId>::empty(),
            final(self).woken() == old(self).woken() + old(self).waiters(),
    {
        self.items.push((id, rsp));
        self.woken.append(&mut self.waiters);
    }

    /// A wait for a response: `None` takes whatever is next, `Some(id)`
    /// waits for that ticket however many others arrive first.
    pub fn get_response(&self, txn_id: Option<TxnId>) -> (g: GetResponse)
        ensures
            g.txn() == txn_id,
    {
        GetResponse { txn_id }
    }

    /// Is the answer ready yet? `None` rather than waiting.
    pub fn try_get_response(&mut self, txn_id: Option<TxnId>) -> (r: Option<RSP>)
        ensures
            match response_index(old(self).responses(), txn_id) {
                Some(i) => r == Some(old(self).responses()[i].1) && final(self).responses() == old(self).responses().remove(i),
                None => r is None && final(self).responses() == old(self).responses(),
            },
            final(self).waiters() == old(self).waiters(),
            final(self).woken() == old(self).woken(),
    {
        proof {
            lemma_response_index_bounds(self.responses(), txn_id);
        }
        let idx = self.find(txn_id);
        match idx {
            Some(i) => Some(self.items.remove(i).1),
            None => None,
        }
    }

    fn find(&self, txn_id: Option<TxnId>) -> (r: Option<usize>)
        ensures
            r matches Some(i) ==> response_index(self.responses(), txn_id) == Some(i as int),
            r is None ==> response_index(self.responses(), txn_id) is None,
    {
        let ghost all = self.responses();
        match txn_id {
            None => {
                if self.items.len() == 0 {
                    None
                } else {
                    Some(0)
                }
            },
            Some(id) => {
                let mut i: usize = 0;
                assert(all.subrange(0, all.len() as int) =~= all);
                while i < self.items.len()
                    invariant
                        all == self.responses(),
                        txn_id == Some(id),
                        i <= all.len(),
                        response_index(all, txn_id) == (match response_index(
                            all.subrange(i as int, all.len() as int),
                            txn_id,
                        ) {
                            Some(k) => Some(k + i),
                            None => None,
                        }),
                    decreases all.len() - i,
                {
                    let ghost rest = all.subrange(i as int, all.len() as int);
                    assert(rest.drop_first() =~= all.subrange(i + 1, all.len() as int));
                    assert(rest.len() > 0);
                    assert(rest[0] == all[i as int]);
                    if self.items[i].0 == id {
                        assert(response_index(rest, txn_id) == Some(0int));
                        return Some(i);
                    }
                    assert(response_index(rest, txn_id) == (match response_index(rest.drop_first(), txn_id) {
                        Some(k) => Some(k + 1),
                        None => None,
                    }));
                    i = i + 1;
                }
                None
            },
        }
    }

    pub fn take_woken(&mut self) -> (w: Vec<TaskId>)
        ensures
            w@ == old(self).woken(),
            final(self).woken() == Seq::<TaskId>::empty(),
            final(self).responses() == old(self).responses(),
            final(self).waiters() == old(self).waiters(),
    {
        let mut w = Vec::new();
        w.append(&mut self.woken);
        w
    }
}

/// A pending wait for a response.
pub struct GetResponse {
    txn_id: Option<TxnId>,
}

impl GetResponse {
    pub closed spec fn txn(&self) -> Option<TxnId> {
        self.txn_id
    }

    /// Take the response if it has arrived; otherwise wait for the next
    /// arrival.
    pub fn poll<RSP>(&self, q: &mut ResponseQueue<RSP>, waker: TaskId) -> (r: Poll<RSP>)
        ensures
            match response_index(old(q).responses(), self.txn()) {
                Some(i) => r == Poll::Ready(old(q).responses()[i].1) && final(q).responses() == old(q).responses().remove(i) && final(q).waiters() == old(q).waiters(),
                None => r == Poll::<RSP>::Pending && final(q).responses() == old(q).responses()
                    && final(q).waiters() == old(q).waiters().push(waker),
            },
            final(q).woken() == old(q).woken(),
    {
        match q.try_get_response(self.txn_id) {
            Some(v) => Poll::Ready(v),
            None => {
                q.waiters.push(waker);
                Poll::Pending
            },
        }
    }
}


// ---------------------------------------------------------------------------
// The sequencer
// ---------------------------------------------------------------------------

/// Handshake state for one ticket: granted to the driver, filled in by the
/// sequence, released by the driver.
pub struct ItemSlot<REQ> {
    granted: Event,
    ready: Event,
    done: Event,
    payload: Option<REQ>,
}

impl<REQ> ItemSlot<REQ> {
    pub closed spec fn spec_granted(&self) -> bool {
        self.granted.spec_is_set()
    }

    pub closed spec fn spec_ready(&self) -> bool {
        self.ready.spec_is_set()
    }

    pub closed spec fn spec_done(&self) -> bool {
        self.done.spec_is_set()
    }

    pub closed spec fn spec_payload(&self) -> Option<REQ> {
        self.payload
    }

    /// Tasks waiting for the grant (the sequence in `start_item`).
    pub closed spec fn grant_waiters(&self) -> Seq<TaskId> {
        self.granted.waiters()
    }

    /// Tasks waiting for the item to be filled in (the driver).
    pub closed spec fn ready_waiters(&self) -> Seq<TaskId> {
        self.ready.waiters()
    }

    /// Tasks waiting for the driver to be done (the sequence in `finish_item`).
    pub closed spec fn done_waiters(&self) -> Seq<TaskId> {
        self.done.waiters()
    }

    /// The same observable handshake state.
    pub open spec fn same_state(&self, other: &Self) -> bool {
        &&& self.spec_granted() == other.spec_granted()
        &&& self.spec_ready() == other.spec_ready()
        &&& self.spec_done() == other.spec_done()
        &&& self.spec_payload() == other.spec_payload()
        &&& self.grant_waiters() == other.grant_waiters()
        &&& self.ready_waiters() == other.ready_waiters()
        &&& self.done_waiters() == other.done_waiters()
    }

    pub closed spec fn quiet(&self) -> bool {
        &&& self.granted.woken().len() == 0
        &&& self.ready.woken().len() == 0
        &&& self.done.woken().len() == 0
    }

    fn fresh() -> (s: ItemSlot<REQ>)
        ensures
            !s.spec_granted(),
            !s.spec_ready(),
            !s.spec_done(),
            s.spec_payload() is None,
            s.grant_waiters().len() == 0,
            s.ready_waiters().len() == 0,
            s.done_waiters().len() == 0,
            s.quiet(),
    {
        ItemSlot { granted: Event::new(), ready: Event::new(), done: Event::new(), payload: None }
    }
}

/// A sequencer: a FIFO of tickets feeding one driver, the handshake state of
/// every ticket issued, and the responses filed by the driver.
pub struct Sequencer<REQ, RSP> {
    queue: Queue<u64>,
    next_id: u64,
    responses: ResponseQueue<RSP>,
    current: Option<u64>,
    slots: Vec<ItemSlot<REQ>>,
    woken: Vec<TaskId>,
}

impl<REQ, RSP> Sequencer<REQ, RSP> {
    /// Tickets waiting for the driver, oldest first.
    pub closed spec fn tickets(&self) -> Seq<u64> {
        self.queue.items()
    }

    /// The ticket the next `start_item` receives.
    pub closed spec fn next_ticket(&self) -> u64 {
        self.next_id
    }

    /// The driver's current item: taken, and not yet released by `item_done`.
    pub closed spec fn spec_current(&self) -> Option<u64> {
        self.current
    }

    /// The handshake state of ticket `t` (tickets start at 1).
    pub closed spec fn slot(&self, t: u64) -> ItemSlot<REQ> {
        if 1 <= t <= self.slots@.len() {
            self.slots@[t - 1]
        } else {
            arbitrary()
        }
    }

    pub closed spec fn responses(&self) -> Seq<(TxnId, RSP)> {
        self.responses.responses()
    }

    /// Tasks waiting for a response.
    pub closed spec fn response_waiters(&self) -> Seq<TaskId> {
        self.responses.waiters()
    }

    /// Tasks (drivers) waiting for a ticket to arrive.
    pub closed spec fn item_waiters(&self) -> Seq<TaskId> {
        self.queue.get_waiters()
    }

    /// Tasks woken and not yet handed to the scheduler.
    pub closed spec fn woken(&self) -> Seq<TaskId> {
        self.woken@
    }

    /// Has ticket `t` been issued?
    pub open spec fn issued(&self, t: u64) -> bool {
        1 <= t < self.next_ticket()
    }

    pub closed spec fn wf(&self) -> bool {
        &&& 1 <= self.next_id
        &&& self.slots@.len() == self.next_id - 1
        &&& self.queue.cap() is None
        &&& self.queue.woken().len() == 0
        &&& self.queue.put_waiters().len() == 0
        &&& self.responses.woken().len() == 0
        &&& forall|i: int| 0 <= i < self.slots@.len() ==> #[trigger] self.slots@[i].quiet()
        &&& forall|k: int|
            0 <= k < self.queue.items().len() ==> 1 <= #[trigger] self.queue.items()[k]
                < self.next_id
        &&& self.current matches Some(t) ==> 1 <= t < self.next_id
    }

    pub fn new() -> (s: Sequencer<REQ, RSP>)
        ensures
            s.wf(),
            s.tickets() == Seq::<u64>::empty(),
            s.next_ticket() == 1,
            s.spec_current() is None,
            s.responses() == Seq::<(TxnId, RSP)>::empty(),
            s.response_waiters() == Seq::<TaskId>::empty(),
            s.item_waiters() == Seq::<TaskId>::empty(),
            s.woken() == Seq::<TaskId>::empty(),
    {
        Sequencer {
            queue: Queue::unbounded(),
            next_id: 1,
            responses: ResponseQueue::new(),
            current: None,
            slots: Vec::new(),
            woken: Vec::new(),
        }
    }

    /// Hand the woken tasks to the scheduler, emptying the wake list.
    pub fn take_woken(&mut self) -> (w: Vec<TaskId>)
        ensures
            w@ == old(self).woken(),
            final(self).woken() == Seq::<TaskId>::empty(),
            final(self).tickets() == old(self).tickets(),
            final(self).next_ticket() == old(self).next_ticket(),
            final(self).spec_current() == old(self).spec_current(),
            forall|t: u64| #[trigger] final(self).slot(t) == old(self).slot(t),
            final(self).responses() == old(self).responses(),
            final(self).response_waiters() == old(self).response_waiters(),
            final(self).item_waiters() == old(self).item_waiters(),
            old(self).wf() ==> final(self).wf(),
    {
        let mut w = Vec::new();
        w.append(&mut self.woken);
        w
    }
}


impl<REQ, RSP> Sequencer<REQ, RSP> {
    /// Everything but the wake list and slot `t` is as it was.
    pub open spec fn same_but_slot(&self, other: &Self, t: u64) -> bool {
        &&& self.tickets() == other.tickets()
        &&& self.next_ticket() == other.next_ticket()
        &&& self.spec_current() == other.spec_current()
        &&& self.responses() == other.responses()
        &&& self.response_waiters() == other.response_waiters()
        &&& self.item_waiters() == other.item_waiters()
        &&& forall|u: u64| u != t ==> #[trigger] self.slot(u) == other.slot(u)
    }

    /// Grant ticket `t`, waking the sequence waiting for the grant.
    fn grant(&mut self, t: u64)
        requires
            old(self).wf(),
            old(self).issued(t),
        ensures
            final(self).wf(),
            final(self).same_but_slot(old(self), t),
            final(self).slot(t).spec_granted(),
            final(self).slot(t).grant_waiters().len() == 0,
            final(self).slot(t).spec_ready() == old(self).slot(t).spec_ready(),
            final(self).slot(t).spec_done() == old(self).slot(t).spec_done(),
            final(self).slot(t).spec_payload() == old(self).slot(t).spec_payload(),
            final(self).slot(t).ready_waiters() == old(self).slot(t).ready_waiters(),
            final(self).slot(t).done_waiters() == old(self).slot(t).done_waiters(),
            final(self).woken() == old(self).woken() + old(self).slot(t).grant_waiters(),
    {
        let n = self.slots.len();
        assert(t - 1 < n);
        let i = (t - 1) as usize;
        assert(self.slots@[i as int].quiet());
        self.slots[i].granted.set();
        let mut w = self.slots[i].granted.take_woken();
        self.woken.append(&mut w);
        proof {
            assert forall|j: int| 0 <= j < self.slots@.len() implies #[trigger] self.slots@[j].quiet() by {
                if j != i as int {
                    assert(self.slots@[j] == old(self).slots@[j]);
                }
            }
            assert forall|u: u64| u != t implies #[trigger] self.slot(u) == old(self).slot(u) by {
                assert(u - 1 != i as int);
            }
        }
    }

    /// Store the sequence's item under ticket `t` and wake the driver
    /// waiting for it.
    fn fill(&mut self, t: u64, item: REQ)
        requires
            old(self).wf(),
            old(self).issued(t),
        ensures
            final(self).wf(),
            final(self).same_but_slot(old(self), t),
            final(self).slot(t).spec_ready(),
            final(self).slot(t).spec_payload() == Some(item),
            final(self).slot(t).ready_waiters().len() == 0,
            final(self).slot(t).spec_granted() == old(self).slot(t).spec_granted(),
            final(self).slot(t).spec_done() == old(self).slot(t).spec_done(),
            final(self).slot(t).grant_waiters() == old(self).slot(t).grant_waiters(),
            final(self).slot(t).done_waiters() == old(self).slot(t).done_waiters(),
            final(self).woken() == old(self).woken() + old(self).slot(t).ready_waiters(),
    {
        let n = self.slots.len();
        assert(t - 1 < n);
        let i = (t - 1) as usize;
        assert(self.slots@[i as int].quiet());
        self.slots[i].payload = Some(item);
        self.slots[i].ready.set();
        let mut w = self.slots[i].ready.take_woken();
        self.woken.append(&mut w);
        proof {
            assert forall|j: int| 0 <= j < self.slots@.len() implies #[trigger] self.slots@[j].quiet() by {
                if j != i as int {
                    assert(self.slots@[j] == old(self).slots@[j]);
                }
            }
            assert forall|u: u64| u != t implies #[trigger] self.slot(u) == old(self).slot(u) by {
                assert(u - 1 != i as int);
            }
        }
    }

    /// Take the item stored under ticket `t`, leaving nothing there.
    fn take_payload(&mut self, t: u64) -> (p: Option<REQ>)
        requires
            old(self).wf(),
            old(self).issued(t),
        ensures
            p == old(self).slot(t).spec_payload(),
            final(self).wf(),
            final(self).same_but_slot(old(self), t),
            final(self).slot(t).spec_payload() is None,
            final(self).slot(t).spec_granted() == old(self).slot(t).spec_granted(),
            final(self).slot(t).spec_ready() == old(self).slot(t).spec_ready(),
            final(self).slot(t).spec_done() == old(self).slot(t).spec_done(),
            final(self).slot(t).grant_waiters() == old(self).slot(t).grant_waiters(),
            final(self).slot(t).ready_waiters() == old(self).slot(t).ready_waiters(),
            final(self).slot(t).done_waiters() == old(self).slot(t).done_waiters(),
            final(self).woken() == old(self).woken(),
    {
        let n = self.slots.len();
        assert(t - 1 < n);
        let i = (t - 1) as usize;
        assert(self.slots@[i as int].quiet());
        let p = self.slots[i].payload.take();
        proof {
            assert forall|j: int| 0 <= j < self.slots@.len() implies #[trigger] self.slots@[j].quiet() by {
                if j != i as int {
                    assert(self.slots@[j] == old(self).slots@[j]);
                }
            }
            assert forall|u: u64| u != t implies #[trigger] self.slot(u) == old(self).slot(u) by {
                assert(u - 1 != i as int);
            }
        }
        p
    }

    /// Release ticket `t`, waking the sequence waiting in `finish_item`.
    fn release(&mut self, t: u64)
        requires
            old(self).wf(),
            old(self).issued(t),
        ensures
            final(self).wf(),
            final(self).same_but_slot(old(self), t),
            final(self).slot(t).spec_done(),
            final(self).slot(t).done_waiters().len() == 0,
            final(self).slot(t).spec_granted() == old(self).slot(t).spec_granted(),
            final(self).slot(t).spec_ready() == old(self).slot(t).spec_ready(),
            final(self).slot(t).spec_payload() == old(self).slot(t).spec_payload(),
            final(self).slot(t).grant_waiters() == old(self).slot(t).grant_waiters(),
            final(self).slot(t).ready_waiters() == old(self).slot(t).ready_waiters(),
            final(self).woken() == old(self).woken() + old(self).slot(t).done_waiters(),
    {
        let n = self.slots.len();
        assert(t - 1 < n);
        let i = (t - 1) as usize;
        assert(self.slots@[i as int].quiet());
        self.slots[i].done.set();
        let mut w = self.slots[i].done.take_woken();
        self.woken.append(&mut w);
        proof {
            assert forall|j: int| 0 <= j < self.slots@.len() implies #[trigger] self.slots@[j].quiet() by {
                if j != i as int {
                    assert(self.slots@[j] == old(self).slots@[j]);
                }
            }
            assert forall|u: u64| u != t implies #[trigger] self.slot(u) == old(self).slot(u) by {
                assert(u - 1 != i as int);
            }
        }
    }

    /// Is event `which` of ticket `t` set (0: granted, 1: filled in,
    /// 2: released)?
    pub open spec fn event_set(&self, t: u64, which: u8) -> bool {
        if which == 0 {
            self.slot(t).spec_granted()
        } else if which == 1 {
            self.slot(t).spec_ready()
        } else {
            self.slot(t).spec_done()
        }
    }

    /// Wait on event `which` of ticket `t`: complete if it is set, otherwise
    /// record `waker` as waiting for it.
    fn poll_event(&mut self, t: u64, which: u8, waker: TaskId) -> (r: Poll<()>)
        requires
            old(self).wf(),
            old(self).issued(t),
            which <= 2,
        ensures
            final(self).wf(),
            final(self).same_but_slot(old(self), t),
            final(self).woken() == old(self).woken(),
            r == (if old(self).event_set(t, which) { Poll::Ready(()) } else { Poll::Pending }),
            final(self).slot(t).spec_granted() == old(self).slot(t).spec_granted(),
            final(self).slot(t).spec_ready() == old(self).slot(t).spec_ready(),
            final(self).slot(t).spec_done() == old(self).slot(t).spec_done(),
            final(self).slot(t).spec_payload() == old(self).slot(t).spec_payload(),
            final(self).slot(t).grant_waiters() == if which == 0 && !old(self).event_set(t, which) {
                old(self).slot(t).grant_waiters().push(waker)
            } else {
                old(self).slot(t).grant_waiters()
            },
            final(self).slot(t).ready_waiters() == if which == 1 && !old(self).event_set(t, which) {
                old(self).slot(t).ready_waiters().push(waker)
            } else {
                old(self).slot(t).ready_waiters()
            },
            final(self).slot(t).done_waiters() == if which == 2 && !old(self).event_set(t, which) {
                old(self).slot(t).done_waiters().push(waker)
            } else {
                old(self).slot(t).done_waiters()
            },
    {
        let n = self.slots.len();
        assert(t - 1 < n);
        let i = (t - 1) as usize;
        assert(self.slots@[i as int].quiet());
        let r = if which == 0 {
            let w = self.slots[i].granted.wait();
            w.poll(&mut self.slots[i].granted, waker)
        } else if which == 1 {
            let w = self.slots[i].ready.wait();
            w.poll(&mut self.slots[i].ready, waker)
        } else {
            let w = self.slots[i].done.wait();
            w.poll(&mut self.slots[i].done, waker)
        };
        proof {
            assert forall|j: int| 0 <= j < self.slots@.len() implies #[trigger] self.slots@[j].quiet() by {
                if j != i as int {
                    assert(self.slots@[j] == old(self).slots@[j]);
                }
            }
            assert forall|u: u64| u != t implies #[trigger] self.slot(u) == old(self).slot(u) by {
                assert(u - 1 != i as int);
            }
        }
        r
    }
}

// ---------------------------------------------------------------------------
// The driver's side
// ---------------------------------------------------------------------------

impl<REQ, RSP> Sequencer<REQ, RSP> {
    /// Ask for the next item. A driver must release its current item with
    /// `item_done` before asking again.
    pub fn get_next_item(&self) -> (g: GetNextItem)
        requires
            self.spec_current() is None,
        ensures
            g.spec_ticket() is None,
    {
        GetNextItem { ticket: None }
    }

    /// Take an item only if one is waiting and already filled in. The oldest
    /// ticket is granted either way; one not yet filled in goes to the back
    /// of the queue and `None` comes back.
    pub fn try_next_item(&mut self) -> (r: Option<SeqItem<REQ>>)
        requires
            old(self).wf(),
            old(self).spec_current() is None,
        ensures
            final(self).wf(),
            final(self).next_ticket() == old(self).next_ticket(),
            final(self).responses() == old(self).responses(),
            final(self).response_waiters() == old(self).response_waiters(),
            old(self).tickets().len() == 0 ==> {
                &&& r is None
                &&& final(self).item_waiters() == old(self).item_waiters()
                &&& final(self).tickets() == old(self).tickets()
                &&& final(self).spec_current() is None
                &&& final(self).woken() == old(self).woken()
                &&& forall|u: u64| #[trigger] final(self).slot(u) == old(self).slot(u)
            },
            old(self).tickets().len() > 0 ==> {
                let t = old(self).tickets()[0];
                &&& final(self).slot(t).spec_granted()
                &&& forall|u: u64| u != t ==> #[trigger] final(self).slot(u) == old(self).slot(u)
                &&& match old(self).slot(t).spec_payload() {
                    Some(p) => {
                        &&& r matches Some(item) && item.spec_id() == TxnId(t) && item.spec_payload()
                            == p
                        &&& final(self).tickets() == old(self).tickets().drop_first()
                        &&& final(self).spec_current() == Some(t)
                        &&& final(self).slot(t).spec_payload() is None
                        &&& final(self).item_waiters() == old(self).item_waiters()
                        &&& final(self).woken() == old(self).woken() + old(self).slot(t).grant_waiters()
                    },
                    None => {
                        &&& r is None
                        &&& final(self).tickets() == old(self).tickets().drop_first().push(t)
                        &&& final(self).spec_current() is None
                        &&& final(self).item_waiters() == Seq::<TaskId>::empty()
                        &&& final(self).woken() == old(self).woken() + old(self).slot(t).grant_waiters()
                            + old(self).item_waiters()
                    },
                }
            },
    {
        match self.queue.try_get() {
            None => None,
            Some(t) => {
                assert(old(self).tickets()[0] == t);
                self.grant(t);
                match self.take_payload(t) {
                    Some(p) => {
                        let ghost mid = *self;
                        self.current = Some(t);
                        assert forall|u: u64| u != t implies #[trigger] self.slot(u) == old(self).slot(u) by {
                            assert(mid.slot(u) == old(self).slot(u));
                        }
                        Some(SeqItem { id: TxnId(t), payload: p })
                    },
                    None => {
                        let ghost mid = *self;
                        let ghost before = self.queue.items();
                        let _ = self.queue.try_put(t);
                        assert(self.queue.items() == before.push(t));
                        let mut w = self.queue.take_woken();
                        self.woken.append(&mut w);
                        proof {
                            assert forall|k: int|
                                0 <= k < self.queue.items().len() implies 1 <= #[trigger] self.queue.items()[k]
                                < self.next_id by {
                                if k < self.queue.items().len() - 1 {
                                    assert(self.queue.items()[k] == old(self).queue.items()[k + 1]);
                                }
                            }
                            assert forall|u: u64| u != t implies #[trigger] self.slot(u) == old(self).slot(u) by {
                                assert(mid.slot(u) == old(self).slot(u));
                            }
                            assert(self.slot(t) == mid.slot(t));
                        }
                        None
                    },
                }
            },
        }
    }

    /// Release the driver's current item, filing `rsp`, if any, under its
    /// ticket; the sequence waiting in `finish_item` wakes.
    pub fn item_done(&mut self, rsp: Option<RSP>)
        requires
            old(self).wf(),
            old(self).spec_current() is Some,
        ensures
            final(self).wf(),
            ({
                let t = old(self).spec_current()->0;
                &&& final(self).spec_current() is None
                &&& final(self).slot(t).spec_done()
                &&& forall|u: u64| u != t ==> #[trigger] final(self).slot(u) == old(self).slot(u)
                &&& match rsp {
                    Some(v) => {
                        &&& final(self).responses() == old(self).responses().push((TxnId(t), v))
                        &&& final(self).response_waiters() == Seq::<TaskId>::empty()
                        &&& final(self).woken() == old(self).woken() + old(self).response_waiters()
                            + old(self).slot(t).done_waiters()
                    },
                    None => {
                        &&& final(self).responses() == old(self).responses()
                        &&& final(self).response_waiters() == old(self).response_waiters()
                        &&& final(self).woken() == old(self).woken() + old(self).slot(t).done_waiters()
                    },
                }
            }),
            final(self).tickets() == old(self).tickets(),
            final(self).next_ticket() == old(self).next_ticket(),
            final(self).item_waiters() == old(self).item_waiters(),
    {
        let t = self.current.unwrap();
        self.current = None;
        match rsp {
            Some(v) => {
                self.responses.push(TxnId(t), v);
                let mut w = self.responses.take_woken();
                self.woken.append(&mut w);
            },
            None => {},
        }
        self.release(t);
    }

    /// Answer a request after its `item_done`: the pipelined case.
    pub fn put_response(&mut self, id: TxnId, rsp: RSP)
        requires
            old(self).wf(),
        ensures
            final(self).wf(),
            final(self).responses() == old(self).responses().push((id, rsp)),
            final(self).response_waiters() == Seq::<TaskId>::empty(),
            final(self).woken() == old(self).woken() + old(self).response_waiters(),
            final(self).tickets() == old(self).tickets(),
            final(self).next_ticket() == old(self).next_ticket(),
            final(self).spec_current() == old(self).spec_current(),
            final(self).item_waiters() == old(self).item_waiters(),
            forall|u: u64| #[trigger] final(self).slot(u) == old(self).slot(u),
    {
        self.responses.push(id, rsp);
        let mut w = self.responses.take_woken();
        self.woken.append(&mut w);
    }

    /// Poll a wait for a response (see [`ResponseQueue::get_response`]).
    pub fn poll_response(&mut self, g: &GetResponse, waker: TaskId) -> (r: Poll<RSP>)
        requires
            old(self).wf(),
        ensures
            final(self).wf(),
            match response_index(old(self).responses(), g.txn()) {
                Some(i) => r == Poll::Ready(old(self).responses()[i].1) && final(self).responses()
                    == old(self).responses().remove(i) && final(self).response_waiters() == old(self).response_waiters(),
                None => r == Poll::<RSP>::Pending && final(self).responses() == old(self).responses()
                    && final(self).response_waiters() == old(self).response_waiters().push(waker),
            },
            final(self).woken() == old(self).woken(),
            final(self).tickets() == old(self).tickets(),
            final(self).next_ticket() == old(self).next_ticket(),
            final(self).spec_current() == old(self).spec_current(),
            final(self).item_waiters() == old(self).item_waiters(),
            forall|u: u64| #[trigger] final(self).slot(u) == old(self).slot(u),
    {
        g.poll(&mut self.responses, waker)
    }
}

/// A driver's pending `get_next_item`.
pub struct GetNextItem {
    ticket: Option<u64>,
}

impl GetNextItem {
    /// The ticket this request has taken from the queue, if any.
    pub closed spec fn spec_ticket(&self) -> Option<u64> {
        self.ticket
    }

    /// Try once. Without a ticket yet, take the oldest from the queue and
    /// grant it (or wait for one to arrive). With a ticket, complete when the
    /// sequence has filled the item in; otherwise wait for that.
    pub fn poll<REQ, RSP>(&mut self, seqr: &mut Sequencer<REQ, RSP>, waker: TaskId) -> (r: Poll<
        SeqItem<REQ>,
    >)
        requires
            old(seqr).wf(),
            old(self).spec_ticket() matches Some(t) ==> old(seqr).issued(t),
        ensures
            final(seqr).wf(),
            final(self).spec_ticket() matches Some(t) ==> final(seqr).issued(t),
            final(seqr).next_ticket() == old(seqr).next_ticket(),
            final(seqr).responses() == old(seqr).responses(),
            final(seqr).response_waiters() == old(seqr).response_waiters(),
            old(self).spec_ticket() is None && old(seqr).tickets().len() == 0 ==> {
                &&& r is Pending
                &&& final(self).spec_ticket() is None
                &&& final(seqr).tickets() == old(seqr).tickets()
                &&& final(seqr).item_waiters() == old(seqr).item_waiters().push(waker)
                &&& final(seqr).spec_current() == old(seqr).spec_current()
                &&& final(seqr).woken() == old(seqr).woken()
                &&& forall|u: u64| #[trigger] final(seqr).slot(u) == old(seqr).slot(u)
            },
            old(self).spec_ticket() is Some || old(seqr).tickets().len() > 0 ==> {
                let fresh = old(self).spec_ticket() is None;
                let t = if fresh {
                    old(seqr).tickets()[0]
                } else {
                    old(self).spec_ticket()->0
                };
                &&& final(self).spec_ticket() == Some(t)
                &&& final(seqr).item_waiters() == old(seqr).item_waiters()
                &&& final(seqr).tickets() == if fresh {
                    old(seqr).tickets().drop_first()
                } else {
                    old(seqr).tickets()
                }
                &&& fresh ==> final(seqr).slot(t).spec_granted()
                &&& final(seqr).woken() == if fresh {
                    old(seqr).woken() + old(seqr).slot(t).grant_waiters()
                } else {
                    old(seqr).woken()
                }
                &&& forall|u: u64| u != t ==> #[trigger] final(seqr).slot(u) == old(seqr).slot(u)
                &&& if old(seqr).slot(t).spec_ready() && old(seqr).slot(t).spec_payload() is Some {
                    &&& r matches Poll::Ready(item) && item.spec_id() == TxnId(t)
                        && item.spec_payload() == old(seqr).slot(t).spec_payload()->0
                    &&& final(seqr).spec_current() == Some(t)
                    &&& final(seqr).slot(t).spec_payload() is None
                } else {
                    &&& r is Pending
                    &&& final(seqr).spec_current() == old(seqr).spec_current()
                    &&& !old(seqr).slot(t).spec_ready() ==> final(seqr).slot(t).ready_waiters()
                        == old(seqr).slot(t).ready_waiters().push(waker)
                }
            },
    {
        if self.ticket.is_none() {
            let g = seqr.queue.get();
            match g.poll(&mut seqr.queue, waker) {
                Poll::Pending => {
                    return Poll::Pending;
                },
                Poll::Ready(t) => {
                    self.ticket = Some(t);
                    seqr.grant(t);
                },
            }
        }
        let t = self.ticket.unwrap();
        match seqr.poll_event(t, 1, waker) {
            Poll::Pending => Poll::Pending,
            Poll::Ready(()) => {
                match seqr.take_payload(t) {
                    Some(p) => {
                        let ghost mid = *seqr;
                        seqr.current = Some(t);
                        assert forall|u: u64| u != t implies #[trigger] seqr.slot(u) == old(seqr).slot(u) by {
                            assert(mid.slot(u) == old(seqr).slot(u));
                        }
                        Poll::Ready(SeqItem { id: TxnId(t), payload: p })
                    },
                    None => Poll::Pending,
                }
            },
        }
    }
}

// ---------------------------------------------------------------------------
// The sequence's side
// ---------------------------------------------------------------------------

/// What a running sequence is handed: its name, its seed, whether it runs
/// on a sequencer (a virtual sequence does not), and the ticket it has
/// started and not yet finished.
pub struct SeqCtx {
    name: String,
    seed: u64,
    attached: bool,
    current: Option<u64>,
}

/// The message of a `start_item` in a sequence started without a sequencer.
pub open spec fn virtual_start_message(name: Seq<char>) -> Seq<char> {
    name + ": start_item in a virtual sequence \u{2014} it was started without a sequencer"@
}

impl SeqCtx {
    pub closed spec fn spec_name(&self) -> Seq<char> {
        self.name@
    }

    pub closed spec fn spec_seed(&self) -> u64 {
        self.seed
    }

    /// Does this sequence run on a sequencer?
    pub closed spec fn spec_attached(&self) -> bool {
        self.attached
    }

    /// The ticket started by `start_item` and not yet finished.
    pub closed spec fn spec_current(&self) -> Option<u64> {
        self.current
    }

    /// `attached` is false for a virtual sequence.
    pub fn new(attached: bool, name: &str, seed: u64) -> (c: SeqCtx)
        ensures
            c.spec_attached() == attached,
            c.spec_name() == name@,
            c.spec_seed() == seed,
            c.spec_current() is None,
    {
        SeqCtx { name: to_string(name), seed, attached, current: None }
    }

    /// The sequence's name; for reading only, nothing is looked up by it.
    pub fn name(&self) -> (n: &str)
        ensures
            n@ == self.spec_name(),
    {
        self.name.as_str()
    }

    /// The seed this sequence's random numbers start from.
    pub fn seed(&self) -> (s: u64)
        ensures
            s == self.spec_seed(),
    {
        self.seed
    }

    /// Is an informational message from this sequence emitted? It logs
    /// under its name as a root path.
    pub fn info(&self, cfg: &LogConfig) -> (b: bool)
        ensures
            b == (match longest_match(cfg.target_levels(), self.spec_name()) {
                Some(e) => rank(Level::Info) >= rank(e.1),
                None => rank(Level::Info) >= rank(cfg.threshold()),
            }),
    {
        Logger::new(self.name.as_str()).info(cfg)
    }

    pub fn warning(&self, cfg: &LogConfig) -> (b: bool)
        ensures
            b == (match longest_match(cfg.target_levels(), self.spec_name()) {
                Some(e) => rank(Level::Warning) >= rank(e.1),
                None => rank(Level::Warning) >= rank(cfg.threshold()),
            }),
    {
        Logger::new(self.name.as_str()).warning(cfg)
    }

    pub fn error(&self, cfg: &LogConfig) -> (b: bool)
        ensures
            b == (match longest_match(cfg.target_levels(), self.spec_name()) {
                Some(e) => rank(Level::Error) >= rank(e.1),
                None => rank(Level::Error) >= rank(cfg.threshold()),
            }),
    {
        Logger::new(self.name.as_str()).error(cfg)
    }

    /// Queue a new ticket on the sequencer. The returned wait completes when
    /// the driver has taken the ticket: set the item's fields then.
    pub fn start_item<REQ, RSP>(&mut self, seqr: &mut Sequencer<REQ, RSP>) -> (r: Result<
        StartItem,
        SeqError,
    >)
        requires
            old(seqr).wf(),
            old(seqr).next_ticket() < u64::MAX,
        ensures
            final(seqr).wf(),
            old(self).spec_current() is Some ==> {
                &&& r matches Err(e) && e.0@ == "start_item called twice without finish_item"@
                &&& *final(self) == *old(self)
                &&& *final(seqr) == *old(seqr)
            },
            old(self).spec_current() is None && !old(self).spec_attached() ==> {
                &&& r matches Err(e) && e.0@ == virtual_start_message(old(self).spec_name())
                &&& *final(self) == *old(self)
                &&& *final(seqr) == *old(seqr)
            },
            old(self).spec_current() is None && old(self).spec_attached() ==> {
                let t = old(seqr).next_ticket();
                &&& r matches Ok(w) && w.spec_ticket() == t
                &&& final(self).spec_current() == Some(t)
                &&& final(self).spec_name() == old(self).spec_name()
                &&& final(self).spec_seed() == old(self).spec_seed()
                &&& final(self).spec_attached()
                &&& final(seqr).next_ticket() == t + 1
                &&& final(seqr).tickets() == old(seqr).tickets().push(t)
                &&& final(seqr).item_waiters() == Seq::<TaskId>::empty()
                &&& final(seqr).woken() == old(seqr).woken() + old(seqr).item_waiters()
                &&& final(seqr).spec_current() == old(seqr).spec_current()
                &&& final(seqr).responses() == old(seqr).responses()
                &&& final(seqr).response_waiters() == old(seqr).response_waiters()
                &&& forall|u: u64| u != t ==> #[trigger] final(seqr).slot(u) == old(seqr).slot(u)
                &&& !final(seqr).slot(t).spec_granted()
                &&& !final(seqr).slot(t).spec_ready()
                &&& !final(seqr).slot(t).spec_done()
                &&& final(seqr).slot(t).spec_payload() is None
                &&& final(seqr).slot(t).grant_waiters().len() == 0
                &&& final(seqr).slot(t).ready_waiters().len() == 0
                &&& final(seqr).slot(t).done_waiters().len() == 0
            },
    {
        if self.current.is_some() {
            return Err(SeqError(to_string("start_item called twice without finish_item")));
        }
        if !self.attached {
            let mut msg = to_string(self.name.as_str());
            msg.append(": start_item in a virtual sequence \u{2014} it was started without a sequencer");
            return Err(SeqError(msg));
        }
        let t = seqr.next_id;
        seqr.next_id = t + 1;
        seqr.slots.push(ItemSlot::fresh());
        let _ = seqr.queue.try_put(t);
        let mut w = seqr.queue.take_woken();
        seqr.woken.append(&mut w);
        self.current = Some(t);
        proof {
            assert forall|k: int|
                0 <= k < seqr.queue.items().len() implies 1 <= #[trigger] seqr.queue.items()[k]
                < seqr.next_id by {
                if k < seqr.queue.items().len() - 1 {
                    assert(seqr.queue.items()[k] == old(seqr).queue.items()[k]);
                }
            }
            assert forall|i: int| 0 <= i < seqr.slots@.len() implies #[trigger] seqr.slots@[i].quiet() by {
                if i < seqr.slots@.len() - 1 {
                    assert(seqr.slots@[i] == old(seqr).slots@[i]);
                }
            }
            assert forall|u: u64| u != t implies #[trigger] seqr.slot(u) == old(seqr).slot(u) by {
                if 1 <= u <= old(seqr).slots@.len() {
                    assert(seqr.slots@[u - 1] == old(seqr).slots@[u - 1]);
                }
            }
        }
        Ok(StartItem { ticket: t })
    }

    /// Hand the filled-in item over. The returned wait completes, with the
    /// ticket, when the driver has released the item.
    pub fn finish_item<REQ, RSP>(&mut self, seqr: &mut Sequencer<REQ, RSP>, item: REQ) -> (r:
        Result<FinishItem, SeqError>)
        requires
            old(seqr).wf(),
            old(self).spec_current() matches Some(t) ==> old(seqr).issued(t),
        ensures
            final(seqr).wf(),
            final(self).spec_current() is None,
            final(self).spec_name() == old(self).spec_name(),
            final(self).spec_seed() == old(self).spec_seed(),
            final(self).spec_attached() == old(self).spec_attached(),
            old(self).spec_current() is None ==> {
                &&& r matches Err(e) && e.0@ == "finish_item without start_item"@
                &&& *final(seqr) == *old(seqr)
            },
            old(self).spec_current() matches Some(t) ==> {
                &&& r matches Ok(w) && w.spec_ticket() == t
                &&& final(seqr).same_but_slot(old(seqr), t)
                &&& final(seqr).slot(t).spec_ready()
                &&& final(seqr).slot(t).spec_payload() == Some(item)
                &&& final(seqr).slot(t).ready_waiters().len() == 0
                &&& final(seqr).slot(t).spec_granted() == old(seqr).slot(t).spec_granted()
                &&& final(seqr).slot(t).spec_done() == old(seqr).slot(t).spec_done()
                &&& final(seqr).slot(t).grant_waiters() == old(seqr).slot(t).grant_waiters()
                &&& final(seqr).slot(t).done_waiters() == old(seqr).slot(t).done_waiters()
                &&& final(seqr).woken() == old(seqr).woken() + old(seqr).slot(t).ready_waiters()
            },
    {
        match self.current.take() {
            None => Err(SeqError(to_string("finish_item without start_item"))),
            Some(t) => {
                seqr.fill(t, item);
                Ok(FinishItem { ticket: t })
            },
        }
    }

    /// Ask whether an answer is ready, without waiting: `None` takes whatever
    /// is next, `Some(id)` looks for that ticket only. A virtual sequence has
    /// no responses.
    pub fn try_get_response<REQ, RSP>(&mut self, seqr: &mut Sequencer<REQ, RSP>, txn_id: Option<
        TxnId,
    >) -> (r: Option<RSP>)
        requires
            old(seqr).wf(),
        ensures
            final(seqr).wf(),
            *final(self) == *old(self),
            !old(self).spec_attached() ==> r is None && *final(seqr) == *old(seqr),
            old(self).spec_attached() ==> match response_index(old(seqr).responses(), txn_id) {
                Some(i) => r == Some(old(seqr).responses()[i].1)
                    && final(seqr).responses() == old(seqr).responses().remove(i),
                None => r is None && final(seqr).responses() == old(seqr).responses(),
            },
            final(seqr).response_waiters() == old(seqr).response_waiters(),
            final(seqr).woken() == old(seqr).woken(),
            final(seqr).tickets() == old(seqr).tickets(),
            final(seqr).next_ticket() == old(seqr).next_ticket(),
            final(seqr).spec_current() == old(seqr).spec_current(),
            final(seqr).item_waiters() == old(seqr).item_waiters(),
            forall|u: u64| #[trigger] final(seqr).slot(u) == old(seqr).slot(u),
    {
        if !self.attached {
            return None;
        }
        seqr.responses.try_get_response(txn_id)
    }

    /// Wait for an answer: `None` takes whatever is next, `Some(id)` waits
    /// for that ticket however many others arrive first. Poll it with
    /// [`Sequencer::poll_response`]. Only a sequence on a sequencer has
    /// responses to wait for.
    pub fn get_response(&self, txn_id: Option<TxnId>) -> (g: GetResponse)
        requires
            self.spec_attached(),
        ensures
            g.txn() == txn_id,
    {
        GetResponse { txn_id }
    }
}

/// A sequence's pending `start_item`: complete once the ticket is granted.
pub struct StartItem {
    ticket: u64,
}

impl StartItem {
    pub closed spec fn spec_ticket(&self) -> u64 {
        self.ticket
    }

    pub fn ticket(&self) -> (t: TxnId)
        ensures
            t == TxnId(self.spec_ticket()),
    {
        TxnId(self.ticket)
    }

    pub fn poll<REQ, RSP>(&self, seqr: &mut Sequencer<REQ, RSP>, waker: TaskId) -> (r: Poll<()>)
        requires
            old(seqr).wf(),
            old(seqr).issued(self.spec_ticket()),
        ensures
            final(seqr).wf(),
            final(seqr).same_but_slot(old(seqr), self.spec_ticket()),
            final(seqr).woken() == old(seqr).woken(),
            ({
                let t = self.spec_ticket();
                &&& old(seqr).slot(t).spec_granted() ==> r == Poll::Ready(()) && final(seqr).slot(t).same_state(
                    &old(seqr).slot(t))
                &&& !old(seqr).slot(t).spec_granted() ==> r == Poll::<()>::Pending && final(seqr).slot(t).grant_waiters() == old(seqr).slot(t).grant_waiters().push(waker)
            }),
    {
        seqr.poll_event(self.ticket, 0, waker)
    }
}

/// A sequence's pending `finish_item`: complete, with the ticket, once the
/// driver has released the item.
pub struct FinishItem {
    ticket: u64,
}

impl FinishItem {
    pub closed spec fn spec_ticket(&self) -> u64 {
        self.ticket
    }

    pub fn poll<REQ, RSP>(&self, seqr: &mut Sequencer<REQ, RSP>, waker: TaskId) -> (r: Poll<TxnId>)
        requires
            old(seqr).wf(),
            old(seqr).issued(self.spec_ticket()),
        ensures
            final(seqr).wf(),
            final(seqr).same_but_slot(old(seqr), self.spec_ticket()),
            final(seqr).woken() == old(seqr).woken(),
            ({
                let t = self.spec_ticket();
                &&& old(seqr).slot(t).spec_done() ==> r == Poll::Ready(TxnId(t)) && final(seqr).slot(t).same_state(
                    &old(seqr).slot(t))
                &&& !old(seqr).slot(t).spec_done() ==> r == Poll::<TxnId>::Pending && final(seqr).slot(t).done_waiters() == old(seqr).slot(t).done_waiters().push(waker)
            }),
    {
        match seqr.poll_event(self.ticket, 2, waker) {
            Poll::Ready(()) => Poll::Ready(TxnId(self.ticket)),
            Poll::Pending => Poll::Pending,
        }
    }
}

// ---------------------------------------------------------------------------
// Sequence slots and the sequence factory
// ---------------------------------------------------------------------------

/// A slot holding any sequence with these request and response types, with
/// the name it logs under: what the sequence factory returns.
pub struct RustdvSeq<S> {
    inner: Option<(String, S)>,
}

impl<S> RustdvSeq<S> {
    pub closed spec fn held(&self) -> Option<(Seq<char>, S)> {
        match self.inner {
            None => None,
            Some(p) => Some((p.0@, p.1)),
        }
    }

    /// An empty slot.
    pub fn empty() -> (r: RustdvSeq<S>)
        ensures
            r.held() is None,
    {
        RustdvSeq { inner: None }
    }

    pub fn new(seq: S, name: &str) -> (r: RustdvSeq<S>)
        ensures
            r.held() == Some((name@, seq)),
    {
        RustdvSeq { inner: Some((to_string(name), seq)) }
    }

    /// What this slot holds, by name; `<empty>` before it is filled.
    pub fn name(&self) -> (n: &str)
        ensures
            n@ == match self.held() {
                None => "<empty>"@,
                Some(p) => p.0,
            },
    {
        match &self.inner {
            None => "<empty>",
            Some(p) => p.0.as_str(),
        }
    }

    /// The held sequence, or the error that starting an empty slot gives.
    pub fn get(&mut self) -> (r: Result<&mut S, SeqError>)
        ensures
            old(self).held() is None ==> (r matches Err(e) && e.0@ == "an empty sequence slot"@)
                && final(self).held() is None,
            old(self).held() matches Some(p) ==> (r matches Ok(s) && *s == p.1 && final(self).held()
                == Some((p.0, *final(s)))),
    {
        match &mut self.inner {
            None => Err(SeqError(to_string("an empty sequence slot"))),
            Some(p) => Ok(&mut p.1),
        }
    }
}

/// The sequence overrides in force: for a requested sequence type, the
/// maker of the type to build instead. Types are identified by key strings.
pub struct SeqOverrides<M> {
    entries: Vec<(String, M)>,
}

impl<M> SeqOverrides<M> {
    pub closed spec fn entries(&self) -> Seq<(Seq<char>, M)> {
        self.entries@.map_values(|e: (String, M)| (e.0@, e.1))
    }

    /// The maker installed for `from`, if any.
    pub open spec fn maker_for(&self, from: Seq<char>) -> Option<M> {
        if exists|i: int| 0 <= i < self.entries().len() && #[trigger] self.entries()[i].0 == from {
            Some(self.entries()[choose|i: int| 0 <= i < self.entries().len() && #[trigger] self.entries()[i].0 == from].1)
        } else {
            None
        }
    }

    pub open spec fn wf(&self) -> bool {
        forall|i: int, j: int|
            0 <= i < j < self.entries().len() ==> #[trigger] self.entries()[i].0 != #[trigger] self.entries()[j].0
    }

    pub fn new() -> (o: SeqOverrides<M>)
        ensures
            o.wf(),
            o.entries() == Seq::<(Seq<char>, M)>::empty(),
    {
        let o = SeqOverrides { entries: Vec::new() };
        assert(o.entries() =~= Seq::<(Seq<char>, M)>::empty());
        o
    }

    fn find(&self, key: &str) -> (r: Option<usize>)
        ensures
            match r {
                Some(i) => i < self.entries().len() && self.entries()[i as int].0 == key@,
                None => forall|i: int| 0 <= i < self.entries().len() ==> #[trigger] self.entries()[i].0 != key@,
            },
    {
        let mut i: usize = 0;
        while i < self.entries.len()
            invariant
                i <= self.entries().len(),
                self.entries().len() == self.entries@.len(),
                forall|k: int| 0 <= k < i ==> #[trigger] self.entries()[k].0 != key@,
            decreases self.entries@.len() - i,
        {
            assert(self.entries()[i as int].0 == self.entries@[i as int].0@);
            if crate::text::str_eq(self.entries[i].0.as_str(), key) {
                return Some(i);
            }
            i = i + 1;
        }
        None
    }

    /// Wherever a `from` is created through the factory, build with `make`
    /// instead. A second override for the same type replaces the first.
    pub fn set_seq_override(&mut self, from: &str, make: M)
        requires
            old(self).wf(),
        ensures
            final(self).wf(),
            final(self).maker_for(from@) == Some(make),
            forall|k: Seq<char>| k != from@ ==> #[trigger] final(self).maker_for(k) == old(self).maker_for(k),
    {
        match self.find(from) {
            Some(i) => {
                let ghost before = self.entries();
                let key = to_string(self.entries[i].0.as_str());
                self.entries.set(i, (key, make));
                assert(self.entries() =~= before.update(i as int, (from@, make)));
                assert forall|k: Seq<char>| k != from@ implies #[trigger] self.maker_for(k) == old(self).maker_for(k) by {
                    if exists|j: int| 0 <= j < self.entries().len() && #[trigger] self.entries()[j].0 == k {
                        let a = choose|j: int| 0 <= j < self.entries().len() && #[trigger] self.entries()[j].0 == k;
                        let b = choose|j: int| 0 <= j < before.len() && #[trigger] before[j].0 == k;
                        assert(before[a].0 == k);
                        if a != b {
                            if a < b { assert(before[a].0 != before[b].0); } else { assert(before[b].0 != before[a].0); }
                        }
                    } else {
                        if exists|j: int| 0 <= j < before.len() && #[trigger] before[j].0 == k {
                            let b = choose|j: int| 0 <= j < before.len() && #[trigger] before[j].0 == k;
                            assert(self.entries()[b].0 == k);
                        }
                    }
                }
                proof {
                    let w = choose|j: int| 0 <= j < self.entries().len() && #[trigger] self.entries()[j].0 == from@;
                    if w != i as int {
                        if w < i as int { assert(self.entries()[w].0 != self.entries()[i as int].0); } else { assert(self.entries()[i as int].0 != self.entries()[w].0); }
                    }
                }
            },
            None => {
                let ghost before = self.entries();
                self.entries.push((to_string(from), make));
                assert(self.entries() =~= before.push((from@, make)));
                assert forall|k: Seq<char>| k != from@ implies #[trigger] self.maker_for(k) == old(self).maker_for(k) by {
                    if exists|j: int| 0 <= j < self.entries().len() && #[trigger] self.entries()[j].0 == k {
                        let a = choose|j: int| 0 <= j < self.entries().len() && #[trigger] self.entries()[j].0 == k;
                        assert(a < before.len());
                        assert(before[a].0 == k);
                        let b = choose|j: int| 0 <= j < before.len() && #[trigger] before[j].0 == k;
                        if a != b {
                            if a < b { assert(before[a].0 != before[b].0); } else { assert(before[b].0 != before[a].0); }
                        }
                    } else {
                        if exists|j: int| 0 <= j < before.len() && #[trigger] before[j].0 == k {
                            let b = choose|j: int| 0 <= j < before.len() && #[trigger] before[j].0 == k;
                            assert(self.entries()[b].0 == k);
                        }
                    }
                }
                proof {
                    let n = before.len() as int;
                    assert(self.entries()[n].0 == from@);
                    let w = choose|j: int| 0 <= j < self.entries().len() && #[trigger] self.entries()[j].0 == from@;
                    assert(w == n);
                }
            },
        }
    }

    /// The maker to use for `from`, if an override is installed.
    pub fn override_for(&self, from: &str) -> (r: Option<M>) where M: Clone
        requires
            self.wf(),
        ensures
            match self.maker_for(from@) {
                None => r is None,
                Some(m) => r matches Some(x) && cloned::<M>(m, x),
            },
    {
        match self.find(from) {
            None => None,
            Some(i) => {
                proof {
                    let j = choose|j: int| 0 <= j < self.entries().len() && #[trigger] self.entries()[j].0 == from@;
                    if j != i as int {
                        if j < i as int { assert(self.entries()[j].0 != self.entries()[i as int].0); } else { assert(self.entries()[i as int].0 != self.entries()[j].0); }
                    }
                }
                Some(self.entries[i].1.clone())
            },
        }
    }

    /// Build a sequence of the type `requested`, honouring any override
    /// installed for it: `build` makes one from the override's maker, and
    /// without an override `default` makes the requested type.
    pub fn create_seq<S, B: Fn(M) -> S, D: FnOnce() -> S>(&self, requested: &str, build: B, default: D) -> (r: S) where M: Clone
        requires
            self.wf(),
            forall|m: M| #[trigger] call_requires(build, (m,)),
            call_requires(default, ()),
        ensures
            self.maker_for(requested@) is None ==> call_ensures(default, (), r),
            self.maker_for(requested@) matches Some(m) ==> exists|x: M|
                cloned::<M>(m, x) && #[trigger] call_ensures(build, (x,), r),
    {
        match self.override_for(requested) {
            None => default(),
            Some(x) => {
                let ghost gx = x;
                let r = build(x);
                assert(cloned::<M>(self.maker_for(requested@)->0, gx) && call_ensures(build, (gx,), r));
                r
            },
        }
    }

    /// Drop every override, restoring the requested types.
    pub fn clear_seq_overrides(&mut self)
        ensures
            final(self).wf(),
            forall|k: Seq<char>| #[trigger] final(self).maker_for(k) is None,
    {
        self.entries = Vec::new();
        assert(self.entries() =~= Seq::<(Seq<char>, M)>::empty());
    }
}

/// Tickets are unique and ascend from 1. `before[i]` is the sequencer just
/// before the `i`-th successful `start_item`, which drew `tickets[i]`; the
/// first is fresh, each `start_item` draws the next ticket and moves it on
/// by one, and nothing in between moves it. Then the `i`-th ticket is
/// `i + 1`, and a later ticket is always greater.
pub proof fn law_tickets_ascend_from_one<REQ, RSP>(before: Seq<Sequencer<REQ, RSP>>, tickets: Seq<u64>)
    requires
        before.len() == tickets.len() + 1,
        before[0].next_ticket() == 1,
        forall|i: int| 0 <= i < tickets.len() ==> #[trigger] tickets[i] == before[i].next_ticket(),
        forall|i: int|
            0 <= i < tickets.len() ==> before[i + 1].next_ticket() == #[trigger] tickets[i] + 1,
    ensures
        forall|i: int| 0 <= i < tickets.len() ==> #[trigger] tickets[i] == i + 1,
        forall|i: int, j: int| 0 <= i < j < tickets.len() ==> tickets[i] < tickets[j],
{
    assert forall|i: int| 0 <= i < tickets.len() implies #[trigger] tickets[i] == i + 1 by {
        lemma_ticket_at(before, tickets, i);
    }
    assert forall|i: int, j: int| 0 <= i < j < tickets.len() implies tickets[i] < tickets[j] by {
        lemma_ticket_at(before, tickets, i);
        lemma_ticket_at(before, tickets, j);
    }
}

proof fn lemma_ticket_at<REQ, RSP>(before: Seq<Sequencer<REQ, RSP>>, tickets: Seq<u64>, i: int)
    requires
        before.len() == tickets.len() + 1,
        before[0].next_ticket() == 1,
        forall|i: int| 0 <= i < tickets.len() ==> #[trigger] tickets[i] == before[i].next_ticket(),
        forall|i: int|
            0 <= i < tickets.len() ==> before[i + 1].next_ticket() == #[trigger] tickets[i] + 1,
        0 <= i < tickets.len(),
    ensures
        tickets[i] == i + 1,
    decreases i,
{
    if i > 0 {
        lemma_ticket_at(before, tickets, i - 1);
        assert(before[i].next_ticket() == tickets[i - 1] + 1);
    }
}

} // verus!
