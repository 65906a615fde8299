//! The single-threaded task scheduler, as a state machine.
//!
//! Tasks are numbered from 1 in spawn order. The scheduler decides which
//! task to poll next ([`Executor::next_runnable`]), records what the poll
//! reported ([`Executor::finish_poll`]), reschedules woken tasks and cancels
//! tasks; polling the task's future is the caller's part. A task's
//! observable state follows cocotb's seven task states, and a task that has
//! finished, been cancelled or failed never changes state again.

use vstd::prelude::*;
use std::collections::VecDeque;

use crate::sim::poll::{Poll, TaskId};
use vstd::string::*;

use crate::text::{push_decimal, push_char, to_string};

verus! {

/// The seven observable task states.
#[derive(Copy, Clone, Debug, PartialEq, Eq, Structural)]
pub enum TaskState {
    Unstarted,
    Scheduled,
    Running,
    Pending,
    Finished,
    Cancelled,
    Failed,
}

/// Has the task ended, one way or another?
pub open spec fn is_terminal(s: TaskState) -> bool {
    s is Finished || s is Cancelled || s is Failed
}

/// Why a task produced no value.
#[derive(Debug)]
pub enum TaskError {
    Cancelled,
    Panicked(String),
    /// The result was asked for before completion, or taken twice.
    InvalidState,
}

impl TaskError {
    pub open spec fn message(&self) -> Seq<char> {
        match self {
            TaskError::Cancelled => "task was cancelled"@,
            TaskError::Panicked(m) => "task panicked: "@ + m@,
            TaskError::InvalidState => "task result not available"@,
        }
    }

    /// The message the error reads as.
    pub fn to_string(&self) -> (s: String)
        ensures
            s@ == self.message(),
    {
        match self {
            TaskError::Cancelled => to_string("task was cancelled"),
            TaskError::Panicked(m) => {
                let mut s = to_string("task panicked: ");
                s.append(m.as_str());
                s
            },
            TaskError::InvalidState => to_string("task result not available"),
        }
    }
}

/// What one poll of a task's future reported.
pub enum PollOutcome {
    Ready,
    Pending,
    Panicked(String),
}

struct TaskEntry {
    id: TaskId,
    name: String,
}

pub struct Executor {
    /// Live tasks, in ascending id order.
    tasks: Vec<TaskEntry>,
    /// `states[i]` is the state of task `i + 1`, for every task ever spawned.
    states: Vec<TaskState>,
    run_queue: VecDeque<TaskId>,
    woken: Vec<TaskId>,
    running: bool,
    currently_polling: Option<TaskId>,
    /// Cancellations of the task being polled, deferred until its poll ends.
    cancel_pending: Vec<TaskId>,
    /// Failure reports for whoever fails the current test.
    failures: Vec<String>,
}

/// One pass of waking: every woken task that was waiting becomes scheduled,
/// once, in the order it was woken.
pub open spec fn drain_spec(states: Seq<TaskState>, rq: Seq<TaskId>, w: Seq<TaskId>) -> (Seq<TaskState>, Seq<TaskId>)
    decreases w.len(),
{
    if w.len() == 0 {
        (states, rq)
    } else {
        let (s1, q1) = drain_spec(states, rq, w.drop_last());
        let id = w.last();
        if 1 <= id <= s1.len() && s1[id - 1] is Pending {
            (s1.update(id - 1, TaskState::Scheduled), q1.push(id))
        } else {
            (s1, q1)
        }
    }
}

proof fn lemma_drain_spec_shape(states: Seq<TaskState>, rq: Seq<TaskId>, w: Seq<TaskId>)
    ensures
        drain_spec(states, rq, w).0.len() == states.len(),
        forall|i: int|
            0 <= i < states.len() ==> {
                let s = #[trigger] drain_spec(states, rq, w).0[i];
                s == states[i] || (states[i] is Pending && s is Scheduled)
            },
    decreases w.len(),
{
    if w.len() > 0 {
        lemma_drain_spec_shape(states, rq, w.drop_last());
    }
}

/// Task `id` is waiting in the run queue to be polled.
pub open spec fn schedulable(states: Seq<TaskState>, id: TaskId) -> bool {
    1 <= id <= states.len() && states[id - 1] is Scheduled
}

/// The first position of the queue holding a task that is still scheduled;
/// the entries before it are stale and are dropped.
pub open spec fn first_schedulable(states: Seq<TaskState>, q: Seq<TaskId>) -> Option<int> {
    if exists|k: int| 0 <= k < q.len() && #[trigger] schedulable(states, q[k]) {
        Some(
            choose|k: int|
                0 <= k < q.len() && #[trigger] schedulable(states, q[k]) && forall|m: int|
                    0 <= m < k ==> !schedulable(states, q[m]),
        )
    } else {
        None
    }
}

/// The scheduler's invariant over the live ids, the state of every task
/// ever spawned (task `k + 1` at index `k`) and the task being polled: ids
/// are ascending and name spawned tasks, a task is live exactly while it
/// has not ended, and only the task being polled is running.
pub open spec fn sched_wf(ids: Seq<TaskId>, states: Seq<TaskState>, polling: Option<TaskId>) -> bool {
    &&& states.len() + 1 <= u64::MAX
    &&& forall|i: int| 0 <= i < ids.len() ==> 1 <= #[trigger] ids[i] <= states.len()
    &&& forall|i: int, j: int| 0 <= i < j < ids.len() ==> ids[i] < ids[j]
    &&& forall|t: TaskId|
        1 <= t <= states.len() ==> (ids.contains(t) <==> !is_terminal(
            #[trigger] state_at(states, t),
        ))
    &&& forall|t: TaskId| 1 <= t <= states.len() ==> !(#[trigger] state_at(states, t) is Unstarted)
    &&& forall|t: TaskId|
        1 <= t <= states.len() && #[trigger] state_at(states, t) is Running ==> polling == Some(t)
    &&& (polling matches Some(id) ==> 1 <= id <= states.len() && state_at(states, id) is Running)
}

/// The state of task `t` in a state table indexed by id minus one.
pub open spec fn state_at(states: Seq<TaskState>, t: TaskId) -> TaskState {
    states[t - 1]
}

/// Every task that had ended in `before` is still there, unchanged, in
/// `after`.
pub open spec fn ended_kept(before: Seq<TaskState>, after: Seq<TaskState>) -> bool {
    &&& before.len() <= after.len()
    &&& forall|t: TaskId|
        1 <= t <= before.len() && is_terminal(#[trigger] state_at(before, t)) ==> state_at(
            after,
            t,
        ) == state_at(before, t)
}

/// Between `before` and `after` every task kept its state, except that
/// waiting tasks may have been rescheduled, and the task `chosen` (if any)
/// may have changed arbitrarily.
pub open spec fn only_woken(before: Seq<TaskState>, after: Seq<TaskState>, chosen: Option<TaskId>) -> bool {
    &&& before.len() == after.len()
    &&& forall|t: TaskId|
        1 <= t <= after.len() && chosen != Some(t) ==> #[trigger] state_at(after, t) == state_at(
            before,
            t,
        ) || (state_at(before, t) is Pending && state_at(after, t) is Scheduled)
}

proof fn lemma_only_woken_trans(a: Seq<TaskState>, b: Seq<TaskState>, c: Seq<TaskState>)
    requires
        only_woken(a, b, None),
        only_woken(b, c, None),
    ensures
        only_woken(a, c, None),
{
    assert forall|t: TaskId| 1 <= t <= c.len() && None::<TaskId> != Some(t) implies #[trigger] state_at(c, t) == state_at(a, t) || (state_at(a, t) is Pending && state_at(c, t) is Scheduled) by {
        assert(state_at(b, t) == state_at(a, t) || (state_at(a, t) is Pending && state_at(b, t) is Scheduled));
        assert(state_at(c, t) == state_at(b, t) || (state_at(b, t) is Pending && state_at(c, t) is Scheduled));
    }
}

proof fn lemma_ended_kept_trans(a: Seq<TaskState>, b: Seq<TaskState>, c: Seq<TaskState>)
    requires
        ended_kept(a, b),
        ended_kept(b, c),
    ensures
        ended_kept(a, c),
{
    assert forall|t: TaskId| 1 <= t <= a.len() && is_terminal(#[trigger] state_at(a, t)) implies state_at(c, t) == state_at(a, t) by {
        assert(state_at(b, t) == state_at(a, t));
    }
}

proof fn lemma_only_woken_keeps_ended(a: Seq<TaskState>, b: Seq<TaskState>)
    requires
        only_woken(a, b, None),
    ensures
        ended_kept(a, b),
{
    assert forall|t: TaskId| 1 <= t <= a.len() && is_terminal(#[trigger] state_at(a, t)) implies state_at(b, t) == state_at(a, t) by {
        assert(state_at(b, t) == state_at(a, t) || state_at(a, t) is Pending);
    }
}

proof fn lemma_update_state(states: Seq<TaskState>, id: TaskId, s: TaskState)
    requires
        1 <= id <= states.len(),
    ensures
        states.update(id - 1, s).len() == states.len(),
        state_at(states.update(id - 1, s), id) == s,
        forall|t: TaskId|
            1 <= t <= states.len() && t != id ==> #[trigger] state_at(states.update(id - 1, s), t)
                == state_at(states, t),
{
}

/// Removing position `i` of an ascending sequence removes exactly that
/// element.
proof fn lemma_remove_ascending(ids: Seq<TaskId>, i: int, t: TaskId)
    requires
        0 <= i < ids.len(),
        forall|a: int, b: int| 0 <= a < b < ids.len() ==> ids[a] < ids[b],
    ensures
        ids.remove(i).contains(t) <==> (ids.contains(t) && t != ids[i]),
        forall|a: int, b: int|
            0 <= a < b < ids.remove(i).len() ==> ids.remove(i)[a] < ids.remove(i)[b],
{
    let r = ids.remove(i);
    if r.contains(t) {
        let k = choose|k: int| 0 <= k < r.len() && r[k] == t;
        let k0 = if k < i { k } else { k + 1 };
        assert(ids[k0] == t);
        assert(k0 != i);
    }
    if ids.contains(t) && t != ids[i] {
        let k = choose|k: int| 0 <= k < ids.len() && ids[k] == t;
        let k1 = if k < i { k } else { k - 1 };
        assert(r[k1] == t);
    }
    assert forall|a: int, b: int| 0 <= a < b < r.len() implies r[a] < r[b] by {
        let a0 = if a < i { a } else { a + 1 };
        let b0 = if b < i { b } else { b + 1 };
        assert(r[a] == ids[a0]);
        assert(r[b] == ids[b0]);
    }
}

proof fn lemma_push_contains(ids: Seq<TaskId>, x: TaskId, t: TaskId)
    ensures
        ids.push(x).contains(t) <==> (ids.contains(t) || t == x),
{
    if ids.contains(t) {
        let k = choose|k: int| 0 <= k < ids.len() && ids[k] == t;
        assert(ids.push(x)[k] == t);
    }
    if t == x {
        assert(ids.push(x)[ids.len() as int] == t);
    }
    if ids.push(x).contains(t) {
        let k = choose|k: int| 0 <= k < ids.push(x).len() && ids.push(x)[k] == t;
        if k < ids.len() {
            assert(ids[k] == t);
        }
    }
}

impl Executor {
    /// Tasks spawned so far plus one: the id the next spawn gets.
    pub closed spec fn next_id(&self) -> int {
        self.states@.len() + 1int
    }

    /// The ids of the live tasks, ascending.
    pub closed spec fn live_ids(&self) -> Seq<TaskId> {
        self.tasks@.map_values(|e: TaskEntry| e.id)
    }

    pub open spec fn is_live(&self, id: TaskId) -> bool {
        self.live_ids().contains(id)
    }

    /// Every task's state, indexed by id minus one.
    pub closed spec fn states(&self) -> Seq<TaskState> {
        self.states@
    }

    pub open spec fn state_of(&self, id: TaskId) -> TaskState {
        if 1 <= id < self.next_id() {
            self.states()[id - 1]
        } else {
            TaskState::Unstarted
        }
    }

    /// The name of live task `id`.
    pub closed spec fn name_of(&self, id: TaskId) -> Seq<char> {
        let i = choose|i: int| 0 <= i < self.tasks@.len() && self.tasks@[i].id == id;
        self.tasks@[i].name@
    }

    pub closed spec fn run_queue(&self) -> Seq<TaskId> {
        self.run_queue@
    }

    pub closed spec fn woken(&self) -> Seq<TaskId> {
        self.woken@
    }

    pub closed spec fn polling(&self) -> Option<TaskId> {
        self.currently_polling
    }

    pub closed spec fn cancel_pending(&self) -> Seq<TaskId> {
        self.cancel_pending@
    }

    pub closed spec fn failures(&self) -> Seq<Seq<char>> {
        self.failures@.map_values(|s: String| s@)
    }

    pub closed spec fn is_running(&self) -> bool {
        self.running
    }

    /// The scheduler's invariant (see [`sched_wf`]).
    pub open spec fn wf(&self) -> bool {
        sched_wf(self.live_ids(), self.states(), self.polling())
    }

    /// No ended task changes state between `self` and `other`.
    pub open spec fn keeps_ended(&self, other: &Executor) -> bool {
        ended_kept(self.states(), other.states())
    }

    pub fn new() -> (ex: Executor)
        ensures
            ex.wf(),
            ex.next_id() == 1,
            ex.live_ids() == Seq::<TaskId>::empty(),
            ex.run_queue() == Seq::<TaskId>::empty(),
            ex.woken() == Seq::<TaskId>::empty(),
            ex.polling() is None,
            ex.cancel_pending() == Seq::<TaskId>::empty(),
            ex.failures() == Seq::<Seq<char>>::empty(),
            !ex.is_running(),
    {
        let ex = Executor {
            tasks: Vec::new(),
            states: Vec::new(),
            run_queue: VecDeque::new(),
            woken: Vec::new(),
            running: false,
            currently_polling: None,
            cancel_pending: Vec::new(),
            failures: Vec::new(),
        };
        assert(ex.live_ids() =~= Seq::<TaskId>::empty());
        assert(ex.failures() =~= Seq::<Seq<char>>::empty());
        ex
    }

    /// Where the live task `id` sits in the task table.
    fn find_task(&self, id: TaskId) -> (r: Option<usize>)
        requires
            self.wf(),
        ensures
            r matches Some(i) ==> i < self.live_ids().len() && self.live_ids()[i as int] == id,
            r is None ==> !self.is_live(id),
    {
        let mut i: usize = 0;
        while i < self.tasks.len()
            invariant
                i <= self.tasks.len(),
                forall|j: int| 0 <= j < i ==> self.live_ids()[j] != id,
            decreases self.tasks.len() - i,
        {
            if self.tasks[i].id == id {
                return Some(i);
            }
            i = i + 1;
        }
        None
    }

    /// Take the live task at table position `i` out, leaving it in state `s`.
    fn retire(&mut self, i: usize, s: TaskState) -> (e: TaskEntry)
        requires
            old(self).wf(),
            i < old(self).live_ids().len(),
            is_terminal(s),
        ensures
            final(self).wf(),
            e.id == old(self).live_ids()[i as int],
            e == old(self).tasks@[i as int],
            final(self).live_ids() == old(self).live_ids().remove(i as int),
            final(self).states() == old(self).states().update(e.id - 1, s),
            final(self).run_queue() == old(self).run_queue(),
            final(self).woken() == old(self).woken(),
            final(self).polling() == (if old(self).polling() == Some(e.id) {
                None
            } else {
                old(self).polling()
            }),
            final(self).cancel_pending() == old(self).cancel_pending(),
            final(self).failures() == old(self).failures(),
            final(self).is_running() == old(self).is_running(),
            old(self).keeps_ended(final(self)),
    {
        let ghost old_ids = self.live_ids();
        let ghost old_states = self.states();
        let id = self.tasks[i].id;
        assert(old_ids[i as int] == id);
        let n = self.states.len();
        assert(1 <= id <= n);
        let idx = (id - 1) as usize;
        assert(idx == id - 1);
        let e = self.tasks.remove(i);
        self.states.set(idx, s);
        if self.currently_polling == Some(id) {
            self.currently_polling = None;
        }
        proof {
            assert(self.live_ids() =~= old_ids.remove(i as int));
            assert(e.id == old_ids[i as int]);
            lemma_remove_ascending(old_ids, i as int, 0);
            let ids = self.live_ids();
            let st = self.states();
            assert forall|a: int| 0 <= a < ids.len() implies 1 <= #[trigger] ids[a] <= st.len() by {
                let a0 = if a < i { a } else { a + 1 };
                assert(ids[a] == old_ids[a0]);
            }
            assert forall|t: TaskId| 1 <= t <= st.len() implies (ids.contains(t) <==> !is_terminal(#[trigger] state_at(st, t))) by {
                lemma_remove_ascending(old_ids, i as int, t);
                assert(old_ids.contains(t) <==> !is_terminal(state_at(old_states, t)));
                if t != e.id {
                    assert(state_at(st, t) == state_at(old_states, t));
                }
            }
            assert forall|t: TaskId| 1 <= t <= st.len() implies !(#[trigger] state_at(st, t) is Unstarted) by {
                if t != e.id {
                    assert(state_at(st, t) == state_at(old_states, t));
                }
            }
            assert forall|t: TaskId| 1 <= t <= st.len() && #[trigger] state_at(st, t) is Running implies self.polling() == Some(t) by {
                assert(state_at(st, t) == state_at(old_states, t));
            }
            assert forall|t: TaskId| 1 <= t <= old_states.len() && is_terminal(#[trigger] state_at(old_states, t)) implies state_at(st, t) == state_at(old_states, t) by {
                if t == e.id {
                    assert(old_ids[i as int] == e.id);
                    assert(old_ids.contains(e.id));
                }
            }
            if let Some(p) = self.polling() {
                assert(state_at(st, p) == state_at(old_states, p));
            }
        }
        e
    }

    /// The task the scheduler names next, if any: woken tasks are
    /// rescheduled first, then the run queue is served in order, skipping
    /// entries that are no longer scheduled. The chosen task is marked
    /// running.
    pub fn next_runnable(&mut self) -> (r: Option<TaskId>)
        requires
            old(self).wf(),
            old(self).polling() is None,
        ensures
            final(self).wf(),
            old(self).keeps_ended(final(self)),
            final(self).next_id() == old(self).next_id(),
            final(self).live_ids() == old(self).live_ids(),
            final(self).woken() == Seq::<TaskId>::empty(),
            final(self).polling() == r,
            ({
                let (s1, q) = drain_spec(old(self).states(), old(self).run_queue(), old(self).woken());
                match first_schedulable(s1, q) {
                    None => r is None && final(self).run_queue() == Seq::<TaskId>::empty()
                        && final(self).states() == s1,
                    Some(k) => r == Some(q[k]) && final(self).run_queue() == q.skip(k + 1)
                        && final(self).states() == s1.update(q[k] - 1, TaskState::Running),
                }
            }),
            r matches Some(id) ==> final(self).state_of(id) is Running && old(self).is_live(id),
            only_woken(old(self).states(), final(self).states(), r),
            final(self).cancel_pending() == old(self).cancel_pending(),
            final(self).failures() == old(self).failures(),
            final(self).is_running() == old(self).is_running(),
    {
        let ghost start = *self;
        self.drain_woken();
        let ghost s1 = self.states();
        let ghost q = self.run_queue();
        let ghost mut j: int = 0;
        assert(q.skip(0) =~= q);
        loop
            invariant
                start == *old(self),
                self.wf(),
                start.wf(),
                self.polling() is None,
                start.keeps_ended(self),
                self.next_id() == start.next_id(),
                self.live_ids() == start.live_ids(),
                only_woken(start.states(), self.states(), None),
                self.cancel_pending() == start.cancel_pending(),
                self.failures() == start.failures(),
                self.is_running() == start.is_running(),
                self.woken() == Seq::<TaskId>::empty(),
                (s1, q) == drain_spec(start.states(), start.run_queue(), start.woken()),
                self.states() == s1,
                0 <= j <= q.len(),
                self.run_queue() == q.skip(j),
                forall|m: int| 0 <= m < j ==> !#[trigger] schedulable(s1, q[m]),
            decreases q.len() - j,
        {
            match self.run_queue.pop_front() {
                None => {
                    proof {
                        assert(j == q.len());
                        assert(!exists|k: int| 0 <= k < q.len() && #[trigger] schedulable(s1, q[k]));
                    }
                    return None;
                },
                Some(id) => {
                    proof {
                        assert(id == q[j]);
                        assert(self.run_queue() =~= q.skip(j + 1));
                    }
                    let n = self.states.len();
                    let mut chosen = false;
                    if 1 <= id && id <= n as u64 {
                        let idx = (id - 1) as usize;
                        assert(idx == id - 1);
                        if self.states[idx] == TaskState::Scheduled {
                            chosen = true;
                        }
                    }
                    if chosen {
                        let idx = (id - 1) as usize;
                        let ghost mid = self.states();
                        self.states.set(idx, TaskState::Running);
                        self.currently_polling = Some(id);
                        proof {
                            assert(schedulable(s1, q[j]));
                            let c = choose|k: int|
                                0 <= k < q.len() && #[trigger] schedulable(s1, q[k]) && forall|m: int|
                                    0 <= m < k ==> !schedulable(s1, q[m]);
                            if c < j {
                                assert(!schedulable(s1, q[c]));
                            } else if c > j {
                                assert(!schedulable(s1, q[j]));
                            }
                            assert(first_schedulable(s1, q) == Some(j));
                            assert(self.states() =~= s1.update(q[j] - 1, TaskState::Running));
                            assert(state_at(mid, id) is Scheduled);
                            lemma_update_state(mid, id, TaskState::Running);
                            let st = self.states();
                            let ids = self.live_ids();
                            assert forall|t: TaskId| 1 <= t <= st.len() implies (ids.contains(t) <==> !is_terminal(#[trigger] state_at(st, t))) by {
                                assert(ids.contains(t) <==> !is_terminal(state_at(mid, t)));
                            }
                            assert forall|t: TaskId| 1 <= t <= st.len() implies !(#[trigger] state_at(st, t) is Unstarted) by {
                                assert(!(state_at(mid, t) is Unstarted));
                            }
                            assert forall|t: TaskId| 1 <= t <= st.len() && #[trigger] state_at(st, t) is Running implies self.polling() == Some(t) by {
                                if t != id {
                                    assert(state_at(mid, t) is Running);
                                }
                            }
                            assert(ids.contains(id));
                            assert forall|t: TaskId| 1 <= t <= start.states().len() && is_terminal(#[trigger] state_at(start.states(), t)) implies state_at(st, t) == state_at(start.states(), t) by {
                                assert(state_at(mid, t) == state_at(start.states(), t));
                            }
                            assert forall|t: TaskId| 1 <= t <= st.len() && Some(t) != Some(id) implies #[trigger] state_at(st, t) == state_at(start.states(), t) || (state_at(start.states(), t) is Pending && state_at(st, t) is Scheduled) by {
                                assert(state_at(st, t) == state_at(mid, t));
                            }
                        }
                        return Some(id);
                    }
                    proof {
                        assert(!schedulable(s1, q[j]));
                        j = j + 1;
                    }
                },
            }
        }
    }

    /// Reschedule every woken task that was waiting, once, in wake order.
    pub fn drain_woken(&mut self)
        requires
            old(self).wf(),
        ensures
            final(self).wf(),
            old(self).keeps_ended(final(self)),
            (final(self).states(), final(self).run_queue()) == drain_spec(
                old(self).states(),
                old(self).run_queue(),
                old(self).woken(),
            ),
            only_woken(old(self).states(), final(self).states(), None),
            final(self).woken() == Seq::<TaskId>::empty(),
            final(self).live_ids() == old(self).live_ids(),
            final(self).polling() == old(self).polling(),
            final(self).cancel_pending() == old(self).cancel_pending(),
            final(self).failures() == old(self).failures(),
            final(self).is_running() == old(self).is_running(),
            final(self).woken().len() + final(self).run_queue().len() <= old(self).woken().len()
                + old(self).run_queue().len(),
    {
        let ghost start = *self;
        let mut i: usize = 0;
        while i < self.woken.len()
            invariant
                self.wf(),
                start.wf(),
                self.woken@ == start.woken(),
                i <= self.woken@.len(),
                (self.states(), self.run_queue()) == drain_spec(
                    start.states(),
                    start.run_queue(),
                    start.woken().subrange(0, i as int),
                ),
                only_woken(start.states(), self.states(), None),
                self.run_queue().len() <= start.run_queue().len() + i,
                self.live_ids() == start.live_ids(),
                self.polling() == start.polling(),
                self.cancel_pending() == start.cancel_pending(),
                self.failures() == start.failures(),
                self.is_running() == start.is_running(),
            decreases self.woken@.len() - i,
        {
            let id = self.woken[i];
            proof {
                assert(start.woken().subrange(0, i + 1).drop_last() =~= start.woken().subrange(
                    0,
                    i as int,
                ));
                assert(start.woken().subrange(0, i + 1).last() == id);
            }
            let n = self.states.len();
            if 1 <= id && id <= n as u64 {
                let idx = (id - 1) as usize;
                assert(idx == id - 1);
                if self.states[idx] == TaskState::Pending {
                    let ghost mid = self.states();
                    self.states.set(idx, TaskState::Scheduled);
                    self.run_queue.push_back(id);
                    proof {
                        assert(state_at(mid, id) is Pending);
                        lemma_update_state(mid, id, TaskState::Scheduled);
                        let st = self.states();
                        let ids = self.live_ids();
                        assert forall|t: TaskId| 1 <= t <= st.len() implies (ids.contains(t) <==> !is_terminal(#[trigger] state_at(st, t))) by {
                            assert(ids.contains(t) <==> !is_terminal(state_at(mid, t)));
                        }
                        assert forall|t: TaskId| 1 <= t <= st.len() implies !(#[trigger] state_at(st, t) is Unstarted) by {
                            assert(!(state_at(mid, t) is Unstarted));
                        }
                        assert forall|t: TaskId| 1 <= t <= st.len() && #[trigger] state_at(st, t) is Running implies self.polling() == Some(t) by {
                            assert(state_at(mid, t) is Running);
                        }
                        if let Some(p) = self.polling() {
                            assert(state_at(mid, p) is Running);
                        }
                        assert forall|t: TaskId| 1 <= t <= st.len() && None::<TaskId> != Some(t) implies #[trigger] state_at(st, t) == state_at(start.states(), t) || (state_at(start.states(), t) is Pending && state_at(st, t) is Scheduled) by {
                            assert(state_at(mid, t) == state_at(start.states(), t) || (state_at(start.states(), t) is Pending && state_at(mid, t) is Scheduled));
                        }
                    }
                }
            }
            i = i + 1;
        }
        proof {
            assert(start.woken().subrange(0, self.woken@.len() as int) =~= start.woken());
            lemma_only_woken_keeps_ended(start.states(), self.states());
        }
        self.woken.clear();
    }

    /// Ask for task `id` to be polled again (what its waker does).
    pub fn wake(&mut self, id: TaskId)
        requires
            old(self).wf(),
        ensures
            final(self).wf(),
            final(self).live_ids() == old(self).live_ids(),
            final(self).states() == old(self).states(),
            final(self).run_queue() == old(self).run_queue(),
            final(self).polling() == old(self).polling(),
            final(self).cancel_pending() == old(self).cancel_pending(),
            final(self).is_running() == old(self).is_running(),
            final(self).failures() == old(self).failures(),
            final(self).woken() == old(self).woken().push(id),
    {
        self.woken.push(id);
    }

    /// Start a task: it gets the next id, state `Scheduled`, and a place at
    /// the back of the run queue. Without a name it is called `task_<id>`.
    /// Spawn a task named after its id (`task_<id>`).
    pub fn spawn<T>(&mut self) -> (h: TaskHandle<T>)
        requires
            old(self).wf(),
            old(self).next_id() < u64::MAX,
        ensures
            final(self).wf(),
            old(self).keeps_ended(final(self)),
            h.task_id() == old(self).next_id(),
            h.spec_result() is None,
            final(self).next_id() == old(self).next_id() + 1,
            final(self).live_ids() == old(self).live_ids().push(h.task_id()),
            final(self).state_of(h.task_id()) is Scheduled,
            forall|t: TaskId| t != h.task_id() ==> #[trigger] final(self).state_of(t) == old(self).state_of(t),
            final(self).run_queue() == old(self).run_queue().push(h.task_id()),
            final(self).woken() == old(self).woken(),
            final(self).polling() == old(self).polling(),
            final(self).cancel_pending() == old(self).cancel_pending(),
            final(self).failures() == old(self).failures(),
            final(self).is_running() == old(self).is_running(),
    {
        self.spawn_named(None)
    }

    /// This scheduler with only its running flag changed.
    pub closed spec fn with_running(&self, running: bool) -> Executor {
        Executor { running, ..*self }
    }

    /// Start a `run_until_idle` pass. A call made from inside a poll finds
    /// a pass already running and returns `false`: the outer pass goes on.
    pub fn enter_run(&mut self) -> (entered: bool)
        ensures
            entered == !old(self).is_running(),
            final(self).is_running(),
            *final(self) == old(self).with_running(true),
    {
        if self.running {
            false
        } else {
            self.running = true;
            true
        }
    }

    /// End the pass started by `enter_run`.
    pub fn leave_run(&mut self)
        ensures
            !final(self).is_running(),
            *final(self) == old(self).with_running(false),
    {
        self.running = false;
    }

    pub fn spawn_named<T>(&mut self, name: Option<&str>) -> (h: TaskHandle<T>)
        requires
            old(self).wf(),
            old(self).next_id() < u64::MAX,
        ensures
            final(self).wf(),
            old(self).keeps_ended(final(self)),
            h.task_id() == old(self).next_id(),
            h.spec_result() is None,
            final(self).next_id() == old(self).next_id() + 1,
            final(self).live_ids() == old(self).live_ids().push(h.task_id()),
            final(self).state_of(h.task_id()) is Scheduled,
            forall|t: TaskId| t != h.task_id() ==> #[trigger] final(self).state_of(t) == old(self).state_of(t),
            final(self).run_queue() == old(self).run_queue().push(h.task_id()),
            final(self).woken() == old(self).woken(),
            final(self).polling() == old(self).polling(),
            final(self).cancel_pending() == old(self).cancel_pending(),
            final(self).failures() == old(self).failures(),
            final(self).is_running() == old(self).is_running(),
    {
        let id = (self.states.len() as u64) + 1;
        let name = match name {
            Some(n) => n.to_owned(),
            None => {
                let mut s = String::new();
                push_char(&mut s, 't');
                push_char(&mut s, 'a');
                push_char(&mut s, 's');
                push_char(&mut s, 'k');
                push_char(&mut s, '_');
                push_decimal(&mut s, id);
                s
            },
        };
        let ghost old_ids = self.live_ids();
        let ghost old_states = self.states();
        self.states.push(TaskState::Scheduled);
        self.tasks.push(TaskEntry { id, name });
        self.run_queue.push_back(id);
        proof {
            let ids = self.live_ids();
            let st = self.states();
            assert(ids =~= old_ids.push(id));
            assert(st =~= old_states.push(TaskState::Scheduled));
            assert forall|a: int| 0 <= a < ids.len() implies 1 <= #[trigger] ids[a] <= st.len() by {
                if a < old_ids.len() {
                    assert(ids[a] == old_ids[a]);
                }
            }
            assert forall|t: TaskId| 1 <= t <= st.len() implies (ids.contains(t) <==> !is_terminal(#[trigger] state_at(st, t))) by {
                lemma_push_contains(old_ids, id, t);
                if t != id {
                    assert(state_at(st, t) == state_at(old_states, t));
                    assert(old_ids.contains(t) <==> !is_terminal(state_at(old_states, t)));
                }
            }
            assert forall|t: TaskId| 1 <= t <= st.len() implies !(#[trigger] state_at(st, t) is Unstarted) by {
                if t != id {
                    assert(state_at(st, t) == state_at(old_states, t));
                }
            }
            assert forall|t: TaskId| 1 <= t <= st.len() && #[trigger] state_at(st, t) is Running implies self.polling() == Some(t) by {
                assert(state_at(st, t) == state_at(old_states, t));
            }
            if let Some(p) = self.polling() {
                assert(state_at(st, p) == state_at(old_states, p));
            }
            assert forall|t: TaskId| 1 <= t <= old_states.len() && is_terminal(#[trigger] state_at(old_states, t)) implies state_at(st, t) == state_at(old_states, t) by {}
            assert forall|t: TaskId| t != id implies #[trigger] self.state_of(t) == old(self).state_of(t) by {
                if 1 <= t < self.next_id() {
                    assert(state_at(st, t) == state_at(old_states, t));
                }
            }
        }
        TaskHandle { id, result: None, joiners: Vec::new(), woken: Vec::new() }
    }

    /// Cancel task `id`. A task cancelling itself mid-poll is cancelled when
    /// its poll returns; otherwise a live task ends `Cancelled` at once and
    /// `true` says its future is to be dropped.
    pub fn cancel(&mut self, id: TaskId) -> (dropped: bool)
        requires
            old(self).wf(),
        ensures
            final(self).wf(),
            old(self).keeps_ended(final(self)),
            final(self).next_id() == old(self).next_id(),
            old(self).polling() == Some(id) ==> {
                &&& !dropped
                &&& final(self).cancel_pending() == old(self).cancel_pending().push(id)
                &&& final(self).live_ids() == old(self).live_ids()
                &&& final(self).states() == old(self).states()
            },
            old(self).polling() != Some(id) ==> {
                &&& dropped == old(self).is_live(id)
                &&& final(self).cancel_pending() == old(self).cancel_pending()
                &&& !final(self).is_live(id)
                &&& (dropped ==> final(self).state_of(id) is Cancelled)
                &&& forall|t: TaskId| t != id ==> #[trigger] final(self).state_of(t) == old(self).state_of(t)
                &&& forall|t: TaskId| t != id ==> (#[trigger] final(self).is_live(t) <==> old(self).is_live(t))
            },
            final(self).run_queue() == old(self).run_queue(),
            final(self).woken() == old(self).woken(),
            final(self).polling() == old(self).polling(),
            final(self).failures() == old(self).failures(),
            final(self).is_running() == old(self).is_running(),
    {
        if self.currently_polling == Some(id) {
            self.cancel_pending.push(id);
            return false;
        }
        match self.find_task(id) {
            Some(i) => {
                let ghost old_ids = self.live_ids();
                let _e = self.retire(i, TaskState::Cancelled);
                proof {
                    assert forall|t: TaskId| t != id implies (#[trigger] self.is_live(t) <==> old(self).is_live(t)) by {
                        if old(self).is_live(t) {
                            let k = choose|k: int| 0 <= k < old_ids.len() && old_ids[k] == t;
                            let k1 = if k < i { k } else { k - 1 };
                            assert(self.live_ids()[k1] == t);
                        }
                        if self.is_live(t) {
                            let k = choose|k: int| 0 <= k < self.live_ids().len() && self.live_ids()[k] == t;
                            let k0 = if k < i { k } else { k + 1 };
                            assert(old_ids[k0] == t);
                        }
                    }
                    assert(!self.is_live(id)) by {
                        if self.is_live(id) {
                            let k = choose|k: int| 0 <= k < self.live_ids().len() && self.live_ids()[k] == id;
                            let k0 = if k < i { k } else { k + 1 };
                            assert(old_ids[k0] == id);
                        }
                    }
                }
                true
            },
            None => false,
        }
    }

    /// Record what polling the running task `id` reported. A finished task
    /// ends `Finished`; a panicked one ends `Failed` and leaves a report for
    /// the failure sink; a waiting one becomes `Pending`, and only then are
    /// the cancellations it asked for while running carried out. Returns the
    /// tasks so cancelled, whose futures are to be dropped.
    pub fn finish_poll(&mut self, id: TaskId, outcome: PollOutcome) -> (cancelled: Vec<TaskId>)
        requires
            old(self).wf(),
            old(self).polling() == Some(id),
        ensures
            final(self).wf(),
            old(self).keeps_ended(final(self)),
            final(self).next_id() == old(self).next_id(),
            final(self).polling() is None,
            final(self).run_queue() == old(self).run_queue(),
            final(self).woken() == old(self).woken(),
            final(self).is_running() == old(self).is_running(),
            outcome is Ready ==> final(self).state_of(id) is Finished && !final(self).is_live(id)
                && cancelled@ == Seq::<TaskId>::empty(),
            outcome matches PollOutcome::Panicked(msg) ==> {
                &&& final(self).state_of(id) is Failed
                &&& !final(self).is_live(id)
                &&& cancelled@ == Seq::<TaskId>::empty()
                &&& final(self).failures() == old(self).failures().push(
                    "task '"@ + old(self).name_of(id) + "' panicked: "@ + msg@,
                )
            },
            outcome is Pending ==> {
                &&& final(self).cancel_pending() == Seq::<TaskId>::empty()
                &&& (final(self).state_of(id) is Pending || old(self).cancel_pending().contains(id))
                &&& forall|c: TaskId| #[trigger] old(self).cancel_pending().contains(c) ==> !final(self).is_live(c)
                &&& forall|c: TaskId| #[trigger] cancelled@.contains(c) ==> old(self).is_live(c)
                &&& forall|c: TaskId| #[trigger] cancelled@.contains(c) ==> final(self).state_of(c) is Cancelled
                &&& forall|t: TaskId| #[trigger] final(self).is_live(t) ==> old(self).is_live(t)
            },
            !(outcome is Pending) ==> final(self).cancel_pending() == old(self).cancel_pending(),
            !(outcome matches PollOutcome::Panicked(_)) ==> final(self).failures() == old(self).failures(),
    {
        let ghost s0 = *self;
        proof {
            assert(state_at(s0.states(), id) is Running);
            assert(s0.live_ids().contains(id));
        }
        match outcome {
            PollOutcome::Ready => {
                let i = self.find_task(id).unwrap();
                let _e = self.retire(i, TaskState::Finished);
                proof { lemma_remove_ascending(s0.live_ids(), i as int, id); }
                Vec::new()
            },
            PollOutcome::Panicked(msg) => {
                let i = self.find_task(id).unwrap();
                proof {
                    assert(s0.tasks@[i as int].id == id);
                    let j = choose|j: int| 0 <= j < s0.tasks@.len() && s0.tasks@[j].id == id;
                    assert(s0.live_ids()[j] == id);
                    assert(s0.live_ids()[i as int] == id);
                    if j < i {
                        assert(s0.live_ids()[j] < s0.live_ids()[i as int]);
                    }
                    if j > i {
                        assert(s0.live_ids()[i as int] < s0.live_ids()[j]);
                    }
                    assert(s0.name_of(id) == s0.tasks@[i as int].name@);
                }
                let e = self.retire(i, TaskState::Failed);
                assert(e.name@ == s0.name_of(id));
                proof { lemma_remove_ascending(s0.live_ids(), i as int, id); }
                let mut report = String::new();
                report.append("task '");
                report.append(e.name.as_str());
                report.append("' panicked: ");
                report.append(msg.as_str());
                self.failures.push(report);
                proof {
                    assert(self.failures() =~= old(self).failures().push(
                        "task '"@ + old(self).name_of(id) + "' panicked: "@ + msg@,
                    ));
                }
                Vec::new()
            },
            PollOutcome::Pending => {
                let n = self.states.len();
                assert(1 <= id <= n);
                let idx = (id - 1) as usize;
                assert(idx == id - 1);
                let ghost mid = self.states();
                self.states.set(idx, TaskState::Pending);
                self.currently_polling = None;
                proof {
                    lemma_update_state(mid, id, TaskState::Pending);
                    let st = self.states();
                    let ids = self.live_ids();
                    assert forall|t: TaskId| 1 <= t <= st.len() implies (ids.contains(t) <==> !is_terminal(#[trigger] state_at(st, t))) by {
                        assert(ids.contains(t) <==> !is_terminal(state_at(mid, t)));
                    }
                    assert forall|t: TaskId| 1 <= t <= st.len() implies !(#[trigger] state_at(st, t) is Unstarted) by {
                        assert(!(state_at(mid, t) is Unstarted));
                    }
                    assert forall|t: TaskId| 1 <= t <= st.len() && #[trigger] state_at(st, t) is Running implies self.polling() == Some(t) by {
                        if t != id {
                            assert(state_at(mid, t) is Running);
                            assert(s0.polling() == Some(t));
                        }
                    }
                    assert forall|t: TaskId| 1 <= t <= mid.len() && is_terminal(#[trigger] state_at(mid, t)) implies state_at(st, t) == state_at(mid, t) by {}
                }
                let mut pending: Vec<TaskId> = Vec::new();
                pending.append(&mut self.cancel_pending);
                let ghost s1 = *self;
                let mut cancelled: Vec<TaskId> = Vec::new();
                let mut k: usize = 0;
                while k < pending.len()
                    invariant
                        self.wf(),
                        s1.wf(),
                        s1.keeps_ended(self),
                        self.next_id() == s1.next_id(),
                        self.polling() is None,
                        self.cancel_pending() == Seq::<TaskId>::empty(),
                        self.run_queue() == s1.run_queue(),
                        self.woken() == s1.woken(),
                        self.failures() == s1.failures(),
                        self.is_running() == s1.is_running(),
                        k <= pending.len(),
                        forall|j: int| 0 <= j < k ==> !self.is_live(#[trigger] pending@[j]),
                        forall|t: TaskId| #[trigger] self.is_live(t) ==> s1.is_live(t),
                        forall|c: TaskId| #[trigger] cancelled@.contains(c) ==> s1.is_live(c),
                        forall|c: TaskId| #[trigger] cancelled@.contains(c) ==> self.state_of(c) is Cancelled,
                        forall|t: TaskId| !pending@.contains(t) ==> #[trigger] self.state_of(t) == s1.state_of(t),
                    decreases pending.len() - k,
                {
                    let c = pending[k];
                    let ghost before = *self;
                    let dropped = self.cancel(c);
                    proof {
                        lemma_ended_kept_trans(s1.states(), before.states(), self.states());
                    }
                    proof {
                        assert forall|c2: TaskId| #[trigger] cancelled@.contains(c2) implies self.state_of(c2) is Cancelled by {
                            assert(before.state_of(c2) is Cancelled);
                            assert(1 <= c2 < before.next_id());
                            assert(is_terminal(state_at(before.states(), c2)));
                        }
                    }
                    if dropped {
                        proof {
                            assert forall|c2: TaskId| #[trigger] cancelled@.push(c).contains(c2) implies s1.is_live(c2) && self.state_of(c2) is Cancelled by {
                                lemma_push_contains(cancelled@, c, c2);
                            }
                        }
                        cancelled.push(c);
                    }
                    k = k + 1;
                }
                proof {
                    assert forall|c: TaskId| #[trigger] old(self).cancel_pending().contains(c) implies !self.is_live(c) by {
                        let j = choose|j: int| 0 <= j < pending@.len() && pending@[j] == c;
                        assert(!self.is_live(pending@[j]));
                    }
                    if !old(self).cancel_pending().contains(id) {
                        assert(!pending@.contains(id));
                        assert(self.state_of(id) == s1.state_of(id));
                    }
                    lemma_ended_kept_trans(old(self).states(), s1.states(), self.states());
                }
                cancelled
            },
        }
    }

    /// Cancel every live task with an id at or above `watermark` (the
    /// snapshot taken before a test spawned anything). Returns the tasks
    /// whose futures are to be dropped; the task being polled, if it is
    /// among them, is cancelled when its poll returns.
    pub fn cancel_after(&mut self, watermark: TaskId) -> (cancelled: Vec<TaskId>)
        requires
            old(self).wf(),
        ensures
            final(self).wf(),
            old(self).keeps_ended(final(self)),
            final(self).next_id() == old(self).next_id(),
            final(self).polling() == old(self).polling(),
            forall|t: TaskId|
                #[trigger] final(self).is_live(t) ==> old(self).is_live(t) && (t < watermark
                    || old(self).polling() == Some(t)),
            forall|t: TaskId|
                old(self).is_live(t) && t < watermark ==> #[trigger] final(self).is_live(t),
            forall|c: TaskId| #[trigger] cancelled@.contains(c) ==> old(self).is_live(c) && c >= watermark,
            forall|c: TaskId| #[trigger] cancelled@.contains(c) ==> final(self).state_of(c) is Cancelled,
            forall|t: TaskId|
                old(self).is_live(t) && t >= watermark && old(self).polling() != Some(t)
                    ==> #[trigger] cancelled@.contains(t),
    {
        let mut cands: Vec<TaskId> = Vec::new();
        let mut i: usize = 0;
        while i < self.tasks.len()
            invariant
                i <= self.tasks.len(),
                forall|c: TaskId| #[trigger] cands@.contains(c) ==> self.is_live(c) && c >= watermark,
                forall|j: int| 0 <= j < i && self.live_ids()[j] >= watermark ==> cands@.contains(#[trigger] self.live_ids()[j]),
            decreases self.tasks.len() - i,
        {
            let id = self.tasks[i].id;
            if id >= watermark {
                proof {
                    assert forall|c: TaskId| #[trigger] cands@.push(id).contains(c) implies self.is_live(c) && c >= watermark by {
                        lemma_push_contains(cands@, id, c);
                        if c == id {
                            assert(self.live_ids()[i as int] == id);
                        }
                    }
                    assert forall|j: int| 0 <= j <= i && self.live_ids()[j] >= watermark implies cands@.push(id).contains(#[trigger] self.live_ids()[j]) by {
                        lemma_push_contains(cands@, id, self.live_ids()[j]);
                    }
                }
                cands.push(id);
            }
            i = i + 1;
        }
        let ghost s0 = *self;
        let mut cancelled: Vec<TaskId> = Vec::new();
        let mut k: usize = 0;
        while k < cands.len()
            invariant
                s0 == *old(self),
                self.wf(),
                s0.keeps_ended(self),
                self.next_id() == s0.next_id(),
                self.polling() == s0.polling(),
                k <= cands.len(),
                forall|c: TaskId| #[trigger] cands@.contains(c) ==> s0.is_live(c) && c >= watermark,
                forall|t: TaskId| s0.is_live(t) && t >= watermark ==> #[trigger] cands@.contains(t),
                forall|j: int| 0 <= j < k ==> !self.is_live(#[trigger] cands@[j]) || s0.polling() == Some(cands@[j]),
                forall|t: TaskId| #[trigger] self.is_live(t) ==> s0.is_live(t),
                forall|t: TaskId| s0.is_live(t) && !cands@.subrange(0, k as int).contains(t) ==> #[trigger] self.is_live(t),
                forall|j: int| 0 <= j < k && s0.polling() != Some(cands@[j]) ==> #[trigger] cancelled@.contains(cands@[j]),
                forall|c: TaskId| #[trigger] cancelled@.contains(c) ==> s0.is_live(c) && c >= watermark,
                forall|c: TaskId| #[trigger] cancelled@.contains(c) ==> self.state_of(c) is Cancelled,
            decreases cands.len() - k,
        {
            let c = cands[k];
            let ghost before = *self;
            let ghost old_cancelled = cancelled@;
            let dropped = self.cancel(c);
            proof {
                assert(cands@.contains(c));
                lemma_ended_kept_trans(s0.states(), before.states(), self.states());
                assert forall|t: TaskId| #[trigger] self.is_live(t) implies s0.is_live(t) by {
                    if t != c {
                        assert(before.is_live(t));
                    }
                }
                assert(cands@.subrange(0, k + 1) =~= cands@.subrange(0, k as int).push(c));
                assert forall|t: TaskId| s0.is_live(t) && !cands@.subrange(0, k + 1).contains(t) implies #[trigger] self.is_live(t) by {
                    lemma_push_contains(cands@.subrange(0, k as int), c, t);
                    assert(before.is_live(t));
                    assert(t != c);
                }
                if s0.polling() != Some(c) && !dropped {
                    assert(!before.is_live(c));
                    assert(cands@.subrange(0, k as int).contains(c));
                    let j = choose|j: int| 0 <= j < k && cands@.subrange(0, k as int)[j] == c;
                    assert(cands@[j] == c);
                    assert(cancelled@.contains(cands@[j]));
                }
            }
            proof {
                assert forall|c2: TaskId| #[trigger] cancelled@.contains(c2) implies self.state_of(c2) is Cancelled by {
                    assert(before.state_of(c2) is Cancelled);
                    assert(1 <= c2 < before.next_id());
                    assert(is_terminal(state_at(before.states(), c2)));
                }
            }
            if dropped {
                proof {
                    assert forall|c2: TaskId| #[trigger] cancelled@.push(c).contains(c2) implies s0.is_live(c2) && c2 >= watermark && self.state_of(c2) is Cancelled by {
                        lemma_push_contains(cancelled@, c, c2);
                    }
                }
                cancelled.push(c);
            }
            proof {
                assert forall|j: int| 0 <= j < k + 1 && s0.polling() != Some(cands@[j]) implies #[trigger] cancelled@.contains(cands@[j]) by {
                    if j < k {
                        assert(old_cancelled.contains(cands@[j]));
                        lemma_push_contains(old_cancelled, c, cands@[j]);
                    } else {
                        lemma_push_contains(old_cancelled, c, c);
                    }
                }
            }
            k = k + 1;
        }
        proof {
            assert(cands@.subrange(0, k as int) =~= cands@);
            assert forall|t: TaskId| #[trigger] self.is_live(t) implies s0.is_live(t) && (t < watermark || s0.polling() == Some(t)) by {
                if t >= watermark {
                    assert(cands@.contains(t));
                    let j = choose|j: int| 0 <= j < cands@.len() && cands@[j] == t;
                    assert(!self.is_live(cands@[j]) || s0.polling() == Some(cands@[j]));
                }
            }
            assert forall|t: TaskId| s0.is_live(t) && t < watermark implies #[trigger] self.is_live(t) by {
                assert(!cands@.contains(t));
            }
            assert forall|t: TaskId| s0.is_live(t) && t >= watermark && s0.polling() != Some(t) implies #[trigger] cancelled@.contains(t) by {
                assert(cands@.contains(t));
                let j = choose|j: int| 0 <= j < cands@.len() && cands@[j] == t;
                assert(cancelled@.contains(cands@[j]));
            }
        }
        cancelled
    }

    /// Current high-water task id: the snapshot taken before a test starts.
    pub fn watermark(&self) -> (w: TaskId)
        requires
            self.wf(),
        ensures
            w == self.next_id(),
    {
        (self.states.len() as u64) + 1
    }

    pub fn live_tasks(&self) -> (n: usize)
        ensures
            n == self.live_ids().len(),
    {
        self.tasks.len()
    }

    /// The state of task `id` (`Unstarted` for an id never spawned).
    pub fn task_state(&self, id: TaskId) -> (s: TaskState)
        requires
            self.wf(),
        ensures
            s == self.state_of(id),
    {
        if 1 <= id && id < (self.states.len() as u64) + 1 {
            self.states[(id - 1) as usize]
        } else {
            TaskState::Unstarted
        }
    }

    /// Hand over the failure reports collected so far.
    pub fn take_failures(&mut self) -> (f: Vec<String>)
        ensures
            f@.map_values(|s: String| s@) == old(self).failures(),
            final(self).failures() == Seq::<Seq<char>>::empty(),
            final(self).live_ids() == old(self).live_ids(),
            final(self).states() == old(self).states(),
            final(self).run_queue() == old(self).run_queue(),
            final(self).polling() == old(self).polling(),
            final(self).cancel_pending() == old(self).cancel_pending(),
            final(self).is_running() == old(self).is_running(),
            final(self).woken() == old(self).woken(),
    {
        let mut f = Vec::new();
        f.append(&mut self.failures);
        assert(self.failures() =~= Seq::<Seq<char>>::empty());
        f
    }
}

/// A task's result cell and the tasks waiting for it to end.
pub struct TaskHandle<T> {
    id: TaskId,
    result: Option<Result<T, TaskError>>,
    joiners: Vec<TaskId>,
    woken: Vec<TaskId>,
}

impl<T> TaskHandle<T> {
    pub closed spec fn task_id(&self) -> TaskId {
        self.id
    }

    pub closed spec fn spec_result(&self) -> Option<Result<T, TaskError>> {
        self.result
    }

    pub closed spec fn joiners(&self) -> Seq<TaskId> {
        self.joiners@
    }

    pub closed spec fn woken(&self) -> Seq<TaskId> {
        self.woken@
    }

    pub fn id(&self) -> (i: TaskId)
        ensures
            i == self.task_id(),
    {
        self.id
    }

    pub fn state(&self, ex: &Executor) -> (s: TaskState)
        requires
            ex.wf(),
        ensures
            s == ex.state_of(self.task_id()),
    {
        ex.task_state(self.id)
    }

    /// Has the task finished, been cancelled or failed?
    pub fn done(&self, ex: &Executor) -> (b: bool)
        requires
            ex.wf(),
        ensures
            b == is_terminal(ex.state_of(self.task_id())),
    {
        let s = ex.task_state(self.id);
        s == TaskState::Finished || s == TaskState::Cancelled || s == TaskState::Failed
    }

    /// Cancel the task (see [`Executor::cancel`]).
    pub fn cancel(&self, ex: &mut Executor) -> (dropped: bool)
        requires
            old(ex).wf(),
        ensures
            final(ex).wf(),
            old(ex).keeps_ended(final(ex)),
            old(ex).polling() != Some(self.task_id()) ==> dropped == old(ex).is_live(self.task_id())
                && !final(ex).is_live(self.task_id()),
            old(ex).polling() == Some(self.task_id()) ==> !dropped && final(ex).cancel_pending()
                == old(ex).cancel_pending().push(self.task_id()),
    {
        ex.cancel(self.id)
    }

    /// Record how the task ended and wake everyone joined on it.
    pub fn complete(&mut self, r: Result<T, TaskError>)
        ensures
            final(self).spec_result() == Some(r),
            final(self).task_id() == old(self).task_id(),
            final(self).joiners() == Seq::<TaskId>::empty(),
            final(self).woken() == old(self).woken() + old(self).joiners(),
    {
        self.result = Some(r);
        self.woken.append(&mut self.joiners);
    }

    /// The task's result, if it has one; taking it leaves nothing behind.
    pub fn result(&mut self) -> (r: Result<T, TaskError>)
        ensures
            old(self).spec_result() matches Some(v) ==> r == v,
            old(self).spec_result() is None ==> r matches Err(TaskError::InvalidState),
            final(self).spec_result() is None,
            final(self).task_id() == old(self).task_id(),
            final(self).joiners() == old(self).joiners(),
            final(self).woken() == old(self).woken(),
    {
        match self.result.take() {
            Some(r) => r,
            None => Err(TaskError::InvalidState),
        }
    }

    /// Joining the task: its result once it has ended, else wait.
    pub fn poll(&mut self, ex: &Executor, waker: TaskId) -> (r: Poll<Result<T, TaskError>>)
        requires
            ex.wf(),
        ensures
            is_terminal(ex.state_of(old(self).task_id())) ==> r is Ready && final(self).joiners()
                == old(self).joiners(),
            !is_terminal(ex.state_of(old(self).task_id())) ==> r is Pending && final(self).joiners()
                == old(self).joiners().push(waker),
            final(self).task_id() == old(self).task_id(),
    {
        if self.done(ex) {
            Poll::Ready(self.result())
        } else {
            self.joiners.push(waker);
            Poll::Pending
        }
    }

    /// Hand the woken joiners to the scheduler.
    pub fn take_woken(&mut self) -> (w: Vec<TaskId>)
        ensures
            w@ == old(self).woken(),
            final(self).woken() == Seq::<TaskId>::empty(),
            final(self).task_id() == old(self).task_id(),
            final(self).joiners() == old(self).joiners(),
            final(self).spec_result() == old(self).spec_result(),
    {
        let mut w = Vec::new();
        w.append(&mut self.woken);
        w
    }
}

/// A fresh scheduler.
pub fn init() -> (ex: Executor)
    ensures
        ex.wf(),
        ex.next_id() == 1,
        ex.live_ids() == Seq::<TaskId>::empty(),
{
    Executor::new()
}

} // verus!
