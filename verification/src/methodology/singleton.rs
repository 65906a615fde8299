//! Per-test singletons: the first request for a type in a test constructs
//! it, every later one gets the same object, and clearing between tests
//! makes the next request construct afresh. Types are identified by a key
//! string, one per type.

use vstd::prelude::*;

use crate::text::{str_eq, to_string};

verus! {

/// The position of the first entry under `key`, if any.
pub open spec fn key_index<V>(entries: Seq<(Seq<char>, V)>, key: Seq<char>) -> Option<int> {
    if exists|i: int| 0 <= i < entries.len() && #[trigger] entries[i].0 == key {
        Some(choose|i: int| 0 <= i < entries.len() && #[trigger] entries[i].0 == key)
    } else {
        None
    }
}

pub struct Singletons<V> {
    entries: Vec<(String, V)>,
}

impl<V> Singletons<V> {
    /// The registered objects, by type key; each key at most once.
    pub closed spec fn entries(&self) -> Seq<(Seq<char>, V)> {
        self.entries@.map_values(|e: (String, V)| (e.0@, e.1))
    }

    pub open spec fn wf(&self) -> bool {
        forall|i: int, j: int|
            0 <= i < j < self.entries().len() ==> #[trigger] self.entries()[i].0 != #[trigger] self.entries()[j].0
    }

    /// The object registered for `key`, if any.
    pub open spec fn object(&self, key: Seq<char>) -> Option<V> {
        match key_index(self.entries(), key) {
            Some(i) => Some(self.entries()[i].1),
            None => None,
        }
    }

    pub fn new() -> (s: Singletons<V>)
        ensures
            s.wf(),
            s.entries() == Seq::<(Seq<char>, V)>::empty(),
    {
        let s = Singletons { entries: Vec::new() };
        assert(s.entries() =~= Seq::<(Seq<char>, V)>::empty());
        s
    }

    fn find(&self, key: &str) -> (r: Option<usize>)
        ensures
            match r {
                Some(i) => i < self.entries().len() && self.entries()[i as int].0 == key@,
                None => forall|i: int| 0 <= i < self.entries().len() ==> #[trigger] self.entries()[i].0 != key@,
            },
    {
        let mut i: usize = 0;
        while i < self.entries.len()
            invariant
                i <= self.entries().len(),
                self.entries().len() == self.entries@.len(),
                forall|k: int| 0 <= k < i ==> #[trigger] self.entries()[k].0 != key@,
            decreases self.entries@.len() - i,
        {
            assert(self.entries()[i as int].0 == self.entries@[i as int].0@);
            if str_eq(self.entries[i].0.as_str(), key) {
                return Some(i);
            }
            i = i + 1;
        }
        None
    }

    /// Is the singleton of this type already built in the current test?
    pub fn singleton_exists(&self, key: &str) -> (b: bool)
        ensures
            b == (self.object(key@) is Some),
    {
        let r = self.find(key);
        proof {
            if let Some(i) = r {
                assert(self.entries()[i as int].0 == key@);
            }
        }
        r.is_some()
    }

    /// The singleton of this type, if it has been built.
    pub fn get(&self, key: &str) -> (r: Option<V>) where V: Clone
        requires
            self.wf(),
        ensures
            match self.object(key@) {
                None => r is None,
                Some(v) => r matches Some(x) && cloned::<V>(v, x),
            },
    {
        match self.find(key) {
            None => None,
            Some(i) => {
                proof {
                    let j = choose|j: int| 0 <= j < self.entries().len() && #[trigger] self.entries()[j].0 == key@;
                    assert(j == i);
                }
                Some(self.entries[i].1.clone())
            },
        }
    }

    /// Register the object just built for this type. A type already
    /// registered keeps its first object.
    pub fn register(&mut self, key: &str, value: V)
        requires
            old(self).wf(),
        ensures
            final(self).wf(),
            old(self).object(key@) is Some ==> final(self).entries() == old(self).entries(),
            old(self).object(key@) is None ==> final(self).entries() == old(self).entries().push((key@, value)),
    {
        match self.find(key) {
            Some(i) => {
                assert(self.entries()[i as int].0 == key@);
            },
            None => {
                self.entries.push((to_string(key), value));
                assert(self.entries() =~= old(self).entries().push((key@, value)));
            },
        }
    }

    /// The singleton for this type: the object built earlier in this test,
    /// or, on the first request, the one `init` builds now, which every
    /// later request gets.
    pub fn singleton<F: FnOnce() -> V>(&mut self, key: &str, init: F) -> (r: V) where V: Clone
        requires
            old(self).wf(),
            call_requires(init, ()),
        ensures
            final(self).wf(),
            old(self).object(key@) matches Some(v) ==> cloned::<V>(v, r) && final(self).entries()
                == old(self).entries(),
            old(self).object(key@) is None ==> exists|made: V|
                call_ensures(init, (), made) && final(self).entries() == old(self).entries().push(
                    (key@, made),
                ) && #[trigger] cloned::<V>(made, r),
    {
        match self.get(key) {
            Some(v) => v,
            None => {
                let made = init();
                let r = made.clone();
                self.register(key, made);
                assert(cloned::<V>(made, r));
                r
            },
        }
    }

    /// Drop every singleton, so the next request constructs afresh.
    pub fn clear_singletons(&mut self)
        ensures
            final(self).wf(),
            final(self).entries() == Seq::<(Seq<char>, V)>::empty(),
    {
        self.entries = Vec::new();
        assert(self.entries() =~= Seq::<(Seq<char>, V)>::empty());
    }
}

/// A singleton, once registered, is the one every later request gets,
/// until the registry is cleared.
pub proof fn law_singleton_is_stable<V>(s: Singletons<V>, key: Seq<char>, other: Seq<char>, value: V, after: Singletons<V>)
    requires
        s.wf(),
        s.object(key) is Some,
        after.entries() == s.entries() || after.entries() == s.entries().push((other, value)) && s.object(other) is None,
    ensures
        after.object(key) == s.object(key),
{
    let i = choose|i: int| 0 <= i < s.entries().len() && #[trigger] s.entries()[i].0 == key;
    if after.entries() != s.entries() {
        assert(after.entries()[i].0 == key);
        let j = choose|j: int| 0 <= j < after.entries().len() && #[trigger] after.entries()[j].0 == key;
        if j == s.entries().len() {
            assert(other == key);
        }
        assert(j < s.entries().len());
        assert(s.entries()[j].0 == key);
        let k = choose|k: int| 0 <= k < s.entries().len() && #[trigger] s.entries()[k].0 == key;
        assert(k == j || k != j);
        if k != j {
            assert(s.entries()[k].0 == s.entries()[j].0);
            if k < j {
                assert(s.entries()[k].0 != s.entries()[j].0);
            } else {
                assert(s.entries()[j].0 != s.entries()[k].0);
            }
        }
    }
}

} // verus!
