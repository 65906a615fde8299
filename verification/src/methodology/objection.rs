//! Objections: end-of-test consensus. Raising hands out a guard; releasing
//! the guard drops the objection; when the count falls back to zero the
//! `drained` event fires.

use vstd::prelude::*;

use crate::sim::poll::{Poll, TaskId};
use crate::sim::sync::Event;
use crate::text::{str_eq, to_string};

verus! {

/// `v` with its first element equal to `d` removed (unchanged without one).
pub open spec fn remove_first(v: Seq<Seq<char>>, d: Seq<char>) -> Seq<Seq<char>>
    decreases v.len(),
{
    if v.len() == 0 {
        v
    } else if v[0] == d {
        v.drop_first()
    } else {
        seq![v[0]] + remove_first(v.drop_first(), d)
    }
}

pub struct ObjectionRegistry {
    count: usize,
    drained: Event,
    raised_ever: bool,
    active: Vec<String>,
}

/// One raised objection; [`ObjectionGuard::release`] drops it.
pub struct ObjectionGuard {
    description: String,
}

impl ObjectionGuard {
    pub closed spec fn description(&self) -> Seq<char> {
        self.description@
    }
}

impl ObjectionRegistry {
    pub closed spec fn spec_count(&self) -> nat {
        self.count as nat
    }

    pub closed spec fn spec_ever_raised(&self) -> bool {
        self.raised_ever
    }

    /// The descriptions of the objections still raised, oldest first.
    pub closed spec fn spec_active(&self) -> Seq<Seq<char>> {
        self.active@.map_values(|s: String| s@)
    }

    /// The consensus event: set when a raised count returns to zero.
    pub closed spec fn drained(&self) -> Event {
        self.drained
    }

    /// The count is the number of objections still raised.
    pub open spec fn wf(&self) -> bool {
        self.spec_count() == self.spec_active().len()
    }

    pub fn new() -> (r: ObjectionRegistry)
        ensures
            r.wf(),
            r.spec_count() == 0,
            !r.spec_ever_raised(),
            r.spec_active() == Seq::<Seq<char>>::empty(),
            !r.drained().spec_is_set(),
            r.drained().waiters() == Seq::<TaskId>::empty(),
    {
        let r = ObjectionRegistry {
            count: 0,
            drained: Event::new(),
            raised_ever: false,
            active: Vec::new(),
        };
        assert(r.spec_active() =~= Seq::<Seq<char>>::empty());
        r
    }

    /// Raise an objection. The consensus is off until it is released.
    pub fn raise(&mut self, description: &str) -> (g: ObjectionGuard)
        requires
            old(self).wf(),
            old(self).spec_count() < usize::MAX,
        ensures
            final(self).wf(),
            final(self).spec_count() == old(self).spec_count() + 1,
            final(self).spec_ever_raised(),
            final(self).spec_active() == old(self).spec_active().push(description@),
            !final(self).drained().spec_is_set(),
            final(self).drained().waiters() == old(self).drained().waiters(),
            g.description() == description@,
    {
        self.count = self.count + 1;
        self.raised_ever = true;
        self.drained.clear();
        let ghost before = self.spec_active();
        self.active.push(to_string(description));
        assert(self.spec_active() =~= before.push(description@));
        ObjectionGuard { description: to_string(description) }
    }

    pub fn count(&self) -> (n: usize)
        ensures
            n == self.spec_count(),
    {
        self.count
    }

    /// Was an objection ever raised?
    pub fn ever_raised(&self) -> (b: bool)
        ensures
            b == self.spec_ever_raised(),
    {
        self.raised_ever
    }

    /// The objections still raised, for timeout diagnostics.
    pub fn active(&self) -> (v: Vec<String>)
        ensures
            v@.map_values(|s: String| s@) == self.spec_active(),
    {
        let mut v: Vec<String> = Vec::new();
        let mut i: usize = 0;
        while i < self.active.len()
            invariant
                i <= self.active.len(),
                v@.map_values(|s: String| s@) == self.spec_active().subrange(0, i as int),
            decreases self.active.len() - i,
        {
            let ghost before = v@.map_values(|s: String| s@);
            let c = self.active[i].clone();
            assert(c@ == self.spec_active()[i as int]);
            v.push(c);
            assert(v@.map_values(|s: String| s@) =~= before.push(c@));
            assert(v@.map_values(|s: String| s@) =~= self.spec_active().subrange(0, i + 1));
            i = i + 1;
        }
        assert(self.spec_active().subrange(0, i as int) =~= self.spec_active());
        v
    }

    /// A wait for consensus that takes no shortcut: it completes only once
    /// a raised count has fallen back to zero.
    pub fn wait_drained_event(&self) -> (w: DrainedWait)
    {
        DrainedWait { _private: () }
    }

    /// A wait for every objection to be dropped. Completes at once if no
    /// objection was ever raised (see [`AllDropped::poll`]) or none is
    /// raised now.
    pub fn wait_all_dropped(&self) -> (w: AllDropped)
    {
        AllDropped { _private: () }
    }

    /// Hand the tasks woken by consensus to the scheduler.
    pub fn take_woken(&mut self) -> (w: Vec<TaskId>)
        ensures
            w@ == old(self).drained().woken(),
            final(self).drained().woken() == Seq::<TaskId>::empty(),
            final(self).spec_count() == old(self).spec_count(),
            final(self).spec_active() == old(self).spec_active(),
            final(self).spec_ever_raised() == old(self).spec_ever_raised(),
    {
        self.drained.take_woken()
    }
}

impl ObjectionGuard {
    /// Drop the objection: its description leaves the report and the count
    /// falls by one, stopping at zero; at zero the consensus event fires.
    pub fn release(self, reg: &mut ObjectionRegistry)
        ensures
            final(reg).spec_active() == remove_first(old(reg).spec_active(), self.description()),
            final(reg).spec_count() == (if old(reg).spec_count() > 0 {
                old(reg).spec_count() - 1
            } else {
                0
            }),
            old(reg).wf() && old(reg).spec_active().contains(self.description()) ==> final(reg).wf(),
            final(reg).spec_ever_raised() == old(reg).spec_ever_raised(),
            final(reg).spec_count() == 0 ==> final(reg).drained().spec_is_set()
                && final(reg).drained().waiters() == Seq::<TaskId>::empty(),
            final(reg).spec_count() > 0 ==> final(reg).drained() == old(reg).drained(),
    {
        let ghost before = reg.spec_active();
        let i = position_of(&reg.active, self.description.as_str());
        proof {
            lemma_remove_first_at(before, self.description(), i as int);
        }
        if i < reg.active.len() {
            reg.active.remove(i);
            assert(reg.spec_active() =~= before.remove(i as int));
        }
        let n = if reg.count > 0 { reg.count - 1 } else { 0 };
        reg.count = n;
        if n == 0 {
            reg.drained.set();
        }
    }
}

/// The position of the first string equal to `d`, or the length if none.
pub fn position_of(v: &Vec<String>, d: &str) -> (i: usize)
    ensures
        i <= v@.len(),
        forall|j: int| 0 <= j < i ==> v@[j]@ != d@,
        i < v@.len() ==> v@[i as int]@ == d@,
{
    let mut i: usize = 0;
    while i < v.len()
        invariant
            i <= v.len(),
            forall|j: int| 0 <= j < i ==> v@[j]@ != d@,
        decreases v.len() - i,
    {
        if str_eq(v[i].as_str(), d) {
            return i;
        }
        i = i + 1;
    }
    i
}

proof fn lemma_remove_first_at(v: Seq<Seq<char>>, d: Seq<char>, i: int)
    requires
        0 <= i <= v.len(),
        forall|j: int| 0 <= j < i ==> v[j] != d,
        i < v.len() ==> v[i] == d,
    ensures
        remove_first(v, d) == (if i < v.len() { v.remove(i) } else { v }),
    decreases v.len(),
{
    if v.len() > 0 && i > 0 {
        lemma_remove_first_at(v.drop_first(), d, i - 1);
        if i < v.len() {
            assert(seq![v[0]] + v.drop_first().remove(i - 1) =~= v.remove(i));
        } else {
            assert(seq![v[0]] + v.drop_first() =~= v);
        }
    } else if v.len() > 0 && i == 0 {
        assert(v.drop_first() =~= v.remove(0));
    }
}

/// A pending wait for the consensus event.
pub struct DrainedWait {
    _private: (),
}

impl DrainedWait {
    /// Complete once the consensus event has fired; otherwise wait on it.
    pub fn poll(&self, reg: &mut ObjectionRegistry, waker: TaskId) -> (r: Poll<()>)
        ensures
            old(reg).drained().spec_is_set() ==> r == Poll::Ready(()) && final(reg).drained().waiters()
                == old(reg).drained().waiters(),
            final(reg).drained().spec_is_set() == old(reg).drained().spec_is_set(),
            final(reg).drained().woken() == old(reg).drained().woken(),
            !old(reg).drained().spec_is_set() ==> r == Poll::<()>::Pending
                && final(reg).drained().waiters() == old(reg).drained().waiters().push(waker),
            final(reg).spec_count() == old(reg).spec_count(),
            final(reg).spec_active() == old(reg).spec_active(),
            final(reg).spec_ever_raised() == old(reg).spec_ever_raised(),
    {
        reg.drained.wait().poll(&mut reg.drained, waker)
    }
}

/// What waiting for every objection to drop reported.
#[derive(Debug, PartialEq, Eq, Structural)]
pub enum AllDroppedOutcome {
    /// Every raised objection has been dropped.
    Dropped,
    /// Nothing was ever raised: the caller is warned and nobody waits.
    NeverRaised,
}

/// A pending wait for every objection to drop.
pub struct AllDropped {
    _private: (),
}

impl AllDropped {
    pub fn poll(&self, reg: &mut ObjectionRegistry, waker: TaskId) -> (r: Poll<AllDroppedOutcome>)
        ensures
            !old(reg).spec_ever_raised() ==> r == Poll::Ready(AllDroppedOutcome::NeverRaised),
            old(reg).spec_ever_raised() && old(reg).spec_count() == 0 ==> r == Poll::Ready(
                AllDroppedOutcome::Dropped,
            ),
            old(reg).spec_ever_raised() && old(reg).spec_count() > 0 ==> {
                ||| old(reg).drained().spec_is_set() && r == Poll::Ready(AllDroppedOutcome::Dropped)
                ||| !old(reg).drained().spec_is_set() && r == Poll::<AllDroppedOutcome>::Pending
                    && final(reg).drained().waiters() == old(reg).drained().waiters().push(waker)
            },
            final(reg).spec_count() == old(reg).spec_count(),
            final(reg).spec_active() == old(reg).spec_active(),
            final(reg).spec_ever_raised() == old(reg).spec_ever_raised(),
            final(reg).drained().spec_is_set() == old(reg).drained().spec_is_set(),
            final(reg).drained().woken() == old(reg).drained().woken(),
    {
        if !reg.raised_ever {
            return Poll::Ready(AllDroppedOutcome::NeverRaised);
        }
        if reg.count == 0 {
            return Poll::Ready(AllDroppedOutcome::Dropped);
        }
        match reg.drained.wait().poll(&mut reg.drained, waker) {
            Poll::Ready(()) => Poll::Ready(AllDroppedOutcome::Dropped),
            Poll::Pending => Poll::Pending,
        }
    }
}

} // verus!
