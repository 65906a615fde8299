//! The decisions of the future combinators. `first2` completes with the
//! first of two futures to finish (the first is polled first, so it wins a
//! tie) and the loser is dropped; `join2` and `join_all` complete when every
//! future has, with the results in the order the futures were given. The
//! futures themselves are polled by the caller, which records what each
//! poll produced.

use vstd::prelude::*;

use crate::sim::poll::Poll;
use crate::text::to_string;

verus! {

pub enum Either<A, B> {
    First(A),
    Second(B),
}

/// The state of a `first2`: nothing to remember between polls.
pub struct First2 {
    _private: (),
}

pub fn first2() -> (f: First2)
{
    First2 { _private: () }
}

impl First2 {
    /// Must the second future be polled this round? Only when the first is
    /// still pending.
    pub fn needs_second<A>(&self, a: &Poll<A>) -> (b: bool)
        ensures
            b == (*a is Pending),
    {
        match a {
            Poll::Ready(_) => false,
            Poll::Pending => true,
        }
    }

    /// One round: the first future's poll, and the second's where it was
    /// polled.
    pub fn poll<A, B>(&self, a: Poll<A>, b: Option<Poll<B>>) -> (r: Poll<Either<A, B>>)
        requires
            a is Pending ==> b is Some,
        ensures
            a matches Poll::Ready(v) ==> r == Poll::Ready(Either::<A, B>::First(v)),
            a is Pending ==> match b->0 {
                Poll::Ready(w) => r == Poll::Ready(Either::<A, B>::Second(w)),
                Poll::Pending => r is Pending,
            },
    {
        match a {
            Poll::Ready(v) => Poll::Ready(Either::First(v)),
            Poll::Pending => match b.unwrap() {
                Poll::Ready(w) => Poll::Ready(Either::Second(w)),
                Poll::Pending => Poll::Pending,
            },
        }
    }
}

/// The state of a `join2`: the results that have come in.
pub struct Join2<A, B> {
    ra: Option<A>,
    rb: Option<B>,
}

pub fn join2<A, B>() -> (j: Join2<A, B>)
    ensures
        j.first() is None,
        j.second() is None,
{
    Join2 { ra: None, rb: None }
}

impl<A, B> Join2<A, B> {
    pub closed spec fn first(&self) -> Option<A> {
        self.ra
    }

    pub closed spec fn second(&self) -> Option<B> {
        self.rb
    }

    /// Is the first future still to be polled?
    pub fn needs_first(&self) -> (b: bool)
        ensures
            b == self.first() is None,
    {
        self.ra.is_none()
    }

    pub fn needs_second(&self) -> (b: bool)
        ensures
            b == self.second() is None,
    {
        self.rb.is_none()
    }

    /// Record what polling the first future produced.
    pub fn record_first(&mut self, p: Poll<A>)
        requires
            old(self).first() is None,
        ensures
            final(self).first() == match p {
                Poll::Ready(v) => Some(v),
                Poll::Pending => None,
            },
            final(self).second() == old(self).second(),
    {
        match p {
            Poll::Ready(v) => self.ra = Some(v),
            Poll::Pending => {},
        }
    }

    pub fn record_second(&mut self, p: Poll<B>)
        requires
            old(self).second() is None,
        ensures
            final(self).second() == match p {
                Poll::Ready(v) => Some(v),
                Poll::Pending => None,
            },
            final(self).first() == old(self).first(),
    {
        match p {
            Poll::Ready(v) => self.rb = Some(v),
            Poll::Pending => {},
        }
    }

    /// Both results, once both are in; the join stays pending otherwise.
    pub fn finish(&mut self) -> (r: Poll<(A, B)>)
        ensures
            old(self).first() is Some && old(self).second() is Some ==> {
                &&& r == Poll::Ready((old(self).first()->0, old(self).second()->0))
                &&& final(self).first() is None
                &&& final(self).second() is None
            },
            !(old(self).first() is Some && old(self).second() is Some) ==> {
                &&& r is Pending
                &&& final(self).first() == old(self).first()
                &&& final(self).second() == old(self).second()
            },
    {
        if self.ra.is_some() && self.rb.is_some() {
            let a = self.ra.take().unwrap();
            let b = self.rb.take().unwrap();
            Poll::Ready((a, b))
        } else {
            Poll::Pending
        }
    }
}

/// The state of a `join_all`: one result slot per future, in the order the
/// futures were given.
pub struct JoinAll<T> {
    out: Vec<Option<T>>,
}

pub fn join_all<T>(n: usize) -> (j: JoinAll<T>)
    ensures
        j.results().len() == n,
        forall|i: int| 0 <= i < n ==> j.results()[i] is None,
{
    let mut out: Vec<Option<T>> = Vec::new();
    let mut i: usize = 0;
    while i < n
        invariant
            i <= n,
            out@.len() == i,
            forall|k: int| 0 <= k < i ==> out@[k] is None,
        decreases n - i,
    {
        out.push(None);
        i = i + 1;
    }
    JoinAll { out }
}

impl<T> JoinAll<T> {
    /// The result of each future, where it has finished.
    pub closed spec fn results(&self) -> Seq<Option<T>> {
        self.out@
    }

    pub fn len(&self) -> (n: usize)
        ensures
            n == self.results().len(),
    {
        self.out.len()
    }

    /// Is future `i` still to be polled?
    pub fn pending(&self, i: usize) -> (b: bool)
        requires
            i < self.results().len(),
        ensures
            b == self.results()[i as int] is None,
    {
        self.out[i].is_none()
    }

    /// Record what polling future `i` produced.
    pub fn record(&mut self, i: usize, p: Poll<T>)
        requires
            i < old(self).results().len(),
            old(self).results()[i as int] is None,
        ensures
            final(self).results() == match p {
                Poll::Ready(v) => old(self).results().update(i as int, Some(v)),
                Poll::Pending => old(self).results(),
            },
    {
        match p {
            Poll::Ready(v) => {
                self.out.set(i, Some(v));
            },
            Poll::Pending => {},
        }
    }

    /// Every result, in the futures' order, once all are in.
    pub fn finish(&mut self) -> (r: Poll<Vec<T>>)
        ensures
            (forall|i: int| 0 <= i < old(self).results().len() ==> old(self).results()[i] is Some)
                ==> (r matches Poll::Ready(v) && v@.len() == old(self).results().len() && forall|
                i: int,
            |
                0 <= i < v@.len() ==> Some(#[trigger] v@[i]) == old(self).results()[i]),
            !(forall|i: int| 0 <= i < old(self).results().len() ==> old(self).results()[i] is Some)
                ==> r is Pending && final(self).results() == old(self).results(),
    {
        let n = self.out.len();
        let mut i: usize = 0;
        while i < n
            invariant
                n == self.out@.len(),
                self.out@ == old(self).results(),
                i <= n,
                forall|k: int| 0 <= k < i ==> self.out@[k] is Some,
            decreases n - i,
        {
            if self.out[i].is_none() {
                return Poll::Pending;
            }
            i = i + 1;
        }
        let ghost before = self.out@;
        let mut v: Vec<T> = Vec::new();
        let mut k: usize = 0;
        while k < n
            invariant
                n == self.out@.len(),
                before.len() == n,
                k <= n,
                forall|j: int| k <= j < n ==> self.out@[j] == before[j],
                forall|j: int| 0 <= j < n ==> before[j] is Some,
                v@.len() == k,
                forall|j: int| 0 <= j < k ==> Some(#[trigger] v@[j]) == before[j],
            decreases n - k,
        {
            assert(self.out@[k as int] == before[k as int]);
            let x = self.out[k].take();
            assert(x == before[k as int]);
            v.push(x.unwrap());
            k = k + 1;
        }
        Poll::Ready(v)
    }
}

/// A timed operation that did not finish in time.
#[derive(Copy, Clone, Debug, PartialEq, Eq, Structural)]
pub struct TimeoutError;

impl TimeoutError {
    pub fn to_string(&self) -> (s: String)
        ensures
            s@ == "operation timed out"@,
    {
        to_string("operation timed out")
    }
}

/// A race against a timer, as `with_timeout` reads it: the operation's
/// value if it won, a timeout otherwise.
pub fn timeout_result<T>(e: Either<T, ()>) -> (r: Result<T, TimeoutError>)
    ensures
        match e {
            Either::First(v) => r == Ok::<T, TimeoutError>(v),
            Either::Second(()) => r == Err::<T, TimeoutError>(TimeoutError),
        },
{
    match e {
        Either::First(v) => Ok(v),
        Either::Second(()) => Err(TimeoutError),
    }
}

} // verus!
