//! The factory's decisions. Overrides live in the configuration database
//! under a reserved field per requested type: a type override at `*`, an
//! instance override at its path, so the database's specificity rule makes
//! an instance override beat a type override. A slot built with
//! `create_comp()` asks for its override once, during the build walk, when
//! its path is known.

use vstd::prelude::*;
use vstd::string::*;

use crate::methodology::config::{
    get_outcome, lookup, opt_view, override_prefix, overrides_in, spec_resolve, written,
    ConfigDb, ConfigEntry, ConfigError, DEFAULT_PRECEDENCE, spec_precedence,
};
use crate::text::{pad_right, push_padded, to_string};

verus! {

/// The field an override for `requested` is stored under.
pub open spec fn spec_override_key(requested: Seq<char>) -> Seq<char> {
    override_prefix() + requested
}

pub fn override_key(requested_name: &str) -> (k: String)
    ensures
        k@ == spec_override_key(requested_name@),
{
    let mut k = to_string("__factory_override__");
    k.append(requested_name);
    proof {
        reveal_strlit("__factory_override__");
    }
    k
}

/// The type label under which overrides are stored in the database.
pub fn override_type() -> (t: &'static str)
    ensures
        t@ == "rustdv::factory::Override"@,
{
    "rustdv::factory::Override"
}

/// How an override shows in the dump: `-> target`.
pub open spec fn override_rendering(to: Seq<char>) -> Seq<char> {
    "-> "@ + to
}

/// The factory: overrides installed into, and looked up in, a
/// configuration database whose values are makers.
pub struct Factory {
    _private: (),
}

impl Factory {
    /// Install `make` (which builds a `to`) as the override for `from` at
    /// the glob `offset`, resolved against the context's path.
    pub fn store_override<V>(
        db: &mut ConfigDb<V>,
        ctx: Option<&str>,
        offset: &str,
        from_name: &str,
        to_name: &str,
        make: V,
    )
        requires
            old(db).wf(),
            ctx matches Some(c) ==> c@.len() <= i32::MAX,
        ensures
            final(db).wf(),
            written(
                old(db).entries(),
                final(db).entries(),
                spec_resolve(opt_view(ctx), offset@),
                spec_override_key(from_name@),
                spec_precedence(old(db).spec_in_build(), opt_view(ctx)),
                "rustdv::factory::Override"@,
                override_rendering(to_name@),
                make,
            ),
            final(db).spec_tracing() == old(db).spec_tracing(),
            final(db).spec_in_build() == old(db).spec_in_build(),
    {
        let key = override_key(from_name);
        let mut shown = to_string("-> ");
        shown.append(to_name);
        proof {
            reveal_strlit("-> ");
        }
        db.set(ctx, offset, key.as_str(), make, override_type(), shown.as_str());
    }

    /// Override every `from` testbench-wide with the registered `to`, built
    /// by `make`. (Finding `make` by name in the registry is the caller's
    /// part.)
    pub fn set_type_override_by_name<V>(db: &mut ConfigDb<V>, from: &str, to: &str, make: V)
        requires
            old(db).wf(),
        ensures
            final(db).wf(),
            written(
                old(db).entries(),
                final(db).entries(),
                "*"@,
                spec_override_key(from@),
                spec_precedence(old(db).spec_in_build(), None),
                "rustdv::factory::Override"@,
                override_rendering(to@),
                make,
            ),
            final(db).spec_tracing() == old(db).spec_tracing(),
            final(db).spec_in_build() == old(db).spec_in_build(),
    {
        proof {
            reveal_strlit("*");
        }
        Factory::store_override(db, None, "*", from, to, make);
    }

    /// The override in force for `requested_name` at the absolute path, if
    /// any: the database's answer for that path and the type's override
    /// field.
    pub fn lookup_override<V: Clone>(db: &mut ConfigDb<V>, requested_name: &str, abs_path: &str) -> (r:
        Option<V>)
        requires
            old(db).wf(),
        ensures
            final(db).wf(),
            final(db).entries() == old(db).entries(),
            match lookup(old(db).entries(), abs_path@, spec_override_key(requested_name@)) {
                None => r is None,
                Some(i) => if old(db).entries()[i].stype() == "rustdv::factory::Override"@ {
                    r matches Some(v) && cloned::<V>(old(db).entries()[i].svalue(), v)
                } else {
                    r is None
                },
            },
            final(db).spec_tracing() == old(db).spec_tracing(),
            final(db).spec_in_build() == old(db).spec_in_build(),
    {
        let key = override_key(requested_name);
        match db.get(None, abs_path, key.as_str(), override_type()) {
            Ok(v) => Some(v),
            Err(_) => None,
        }
    }

    /// The lines the factory prints: a title, then one line per override
    /// in force, `path: from -> to`.
    pub fn print_lines<V>(db: &ConfigDb<V>) -> (lines: Vec<String>)
        ensures
            lines@.len() == overrides_in(db.entries(), db.entries().len()).len() + 1,
            lines@[0]@ == "Factory overrides:"@,
            forall|k: int|
                0 <= k < overrides_in(db.entries(), db.entries().len()).len() ==> #[trigger] lines@[k
                    + 1]@ == "  "@ + pad_right(overrides_in(db.entries(), db.entries().len())[k].0, 28)
                    + ": "@ + overrides_in(db.entries(), db.entries().len())[k].1 + " -> "@
                    + overrides_in(db.entries(), db.entries().len())[k].2,
    {
        let ovs = db.factory_overrides();
        let ghost ov = overrides_in(db.entries(), db.entries().len());
        let mut lines: Vec<String> = Vec::new();
        lines.push(to_string("Factory overrides:"));
        let mut i: usize = 0;
        while i < ovs.len()
            invariant
                ovs@.map_values(|t: (String, String, String)| (t.0@, t.1@, t.2@)) == ov,
                i <= ovs.len(),
                lines@.len() == i + 1,
                lines@[0]@ == "Factory overrides:"@,
                forall|k: int|
                    0 <= k < i ==> #[trigger] lines@[k + 1]@ == "  "@ + pad_right(ov[k].0, 28) + ": "@
                        + ov[k].1 + " -> "@ + ov[k].2,
            decreases ovs.len() - i,
        {
            let mut l = to_string("  ");
            push_padded(&mut l, ovs[i].0.as_str(), 28);
            l.append(": ");
            l.append(ovs[i].1.as_str());
            l.append(" -> ");
            l.append(ovs[i].2.as_str());
            proof {
                assert(ov[i as int] == (ovs@[i as int].0@, ovs@[i as int].1@, ovs@[i as int].2@));
            }
            lines.push(l);
            i = i + 1;
        }
        lines
    }
}

/// The absolute path of a child slot named `name` under `ctx_path`.
pub open spec fn slot_path(ctx_path: Seq<char>, name: Seq<char>) -> Seq<char> {
    if ctx_path.len() == 0 {
        name
    } else {
        ctx_path + "."@ + name
    }
}

/// A slot that holds any component: fixed (`new_comp()`), never overridden,
/// or overridable (`create_comp()`), asking once for an override for the
/// type it requested.
pub struct RustdvComp<N> {
    inner: Option<N>,
    overridable: bool,
    requested: Option<String>,
}

impl<N> RustdvComp<N> {
    pub closed spec fn node(&self) -> Option<N> {
        self.inner
    }

    pub closed spec fn spec_overridable(&self) -> bool {
        self.overridable
    }

    pub closed spec fn spec_requested(&self) -> Option<Seq<char>> {
        match self.requested {
            None => None,
            Some(r) => Some(r@),
        }
    }

    /// A fixed slot: never overridden.
    pub fn fixed(node: N) -> (c: RustdvComp<N>)
        ensures
            c.node() == Some(node),
            !c.spec_overridable(),
            c.spec_requested() is None,
    {
        RustdvComp { inner: Some(node), overridable: false, requested: None }
    }

    /// A factory slot: the default is built now and may be swapped for an
    /// override during the walk.
    pub fn overridable(node: N, requested: &str) -> (c: RustdvComp<N>)
        ensures
            c.node() == Some(node),
            c.spec_overridable(),
            c.spec_requested() == Some(requested@),
    {
        RustdvComp { inner: Some(node), overridable: true, requested: Some(to_string(requested)) }
    }

    /// The held component; `None` before the slot is filled.
    pub fn as_node(&self) -> (n: Option<&N>)
        ensures
            match n {
                None => self.node() is None,
                Some(x) => self.node() == Some(*x),
            },
    {
        match &self.inner {
            None => None,
            Some(x) => Some(x),
        }
    }

    /// Move the component out of the slot, leaving it empty.
    pub fn take_node(&mut self) -> (n: Option<N>)
        ensures
            n == old(self).node(),
            final(self).node() is None,
            final(self).spec_overridable() == old(self).spec_overridable(),
            final(self).spec_requested() == old(self).spec_requested(),
    {
        self.inner.take()
    }

    /// Put a component back into the slot.
    pub fn put_node(&mut self, node: N)
        ensures
            final(self).node() == Some(node),
            final(self).spec_overridable() == old(self).spec_overridable(),
            final(self).spec_requested() == old(self).spec_requested(),
    {
        self.inner = Some(node);
    }

    /// The held component, for the tree walk; `None` before the slot is
    /// filled.
    pub fn as_node_mut(&mut self) -> (n: Option<&mut N>)
        ensures
            n is Some <==> old(self).node() is Some,
            n matches Some(x) ==> Some(*x) == old(self).node(),
            final(self).spec_overridable() == old(self).spec_overridable(),
            final(self).spec_requested() == old(self).spec_requested(),
    {
        match &mut self.inner {
            None => None,
            Some(x) => Some(x),
        }
    }

    /// During the build walk, with the slot's field name: an overridable
    /// slot asks, once, for the override in force at its path and, when
    /// there is one, replaces its component with what `build` makes from
    /// the override's maker. A fixed slot, or one already resolved, asks
    /// nothing and keeps its component. Returns whether it was replaced.
    pub fn resolve<V: Clone, F: Fn(V) -> N>(
        &mut self,
        db: &mut ConfigDb<V>,
        ctx_path: &str,
        name: &str,
        build: F,
    ) -> (swapped: bool)
        requires
            old(db).wf(),
            forall|v: V| #[trigger] call_requires(build, (v,)),
        ensures
            final(db).wf(),
            final(db).entries() == old(db).entries(),
            final(db).spec_tracing() == old(db).spec_tracing(),
            final(db).spec_in_build() == old(db).spec_in_build(),
            final(self).spec_requested() == old(self).spec_requested(),
            !final(self).spec_overridable() || (old(self).spec_overridable() && old(
                self
            ).spec_requested() is None),
            swapped == (slot_override(old(self).spec_overridable(), old(self).spec_requested(), old(db).entries(), ctx_path@, name@) is Some),
            !swapped ==> final(self).node() == old(self).node(),
            slot_override(old(self).spec_overridable(), old(self).spec_requested(), old(db).entries(), ctx_path@, name@) matches Some(i) ==> exists|v: V, n: N|
                cloned::<V>(old(db).entries()[i].svalue(), v) && #[trigger] call_ensures(build, (v,), n)
                    && final(self).node() == Some(n),
    {
        if !self.overridable {
            return false;
        }
        match &self.requested {
            None => false,
            Some(req) => {
                let path = if ctx_path.unicode_len() == 0 {
                    to_string(name)
                } else {
                    let mut p = to_string(ctx_path);
                    p.append(".");
                    p.append(name);
                    proof {
                        reveal_strlit(".");
                    }
                    p
                };
                let found = Factory::lookup_override(db, req.as_str(), path.as_str());
                self.overridable = false;
                match found {
                    None => false,
                    Some(v) => {
                        let ghost vv = v;
                        let n = build(v);
                        self.inner = Some(n);
                        proof {
                            let i = slot_override(old(self).spec_overridable(), old(self).spec_requested(), old(db).entries(), ctx_path@, name@)->0;
                            assert(cloned::<V>(old(db).entries()[i].svalue(), vv) && call_ensures(build, (vv,), n) && self.node() == Some(n));
                        }
                        true
                    },
                }
            },
        }
    }
}

/// The entry whose maker replaces a slot's component during the build
/// walk: for an overridable slot that names its requested type, the
/// database's answer at the slot's path for that type's override field,
/// when it holds an override.
pub open spec fn slot_override<V>(
    overridable: bool,
    requested: Option<Seq<char>>,
    es: Seq<ConfigEntry<V>>,
    ctx_path: Seq<char>,
    name: Seq<char>,
) -> Option<int> {
    if overridable && requested is Some {
        match lookup(es, slot_path(ctx_path, name), spec_override_key(requested->0)) {
            Some(i) => if es[i].stype() == "rustdv::factory::Override"@ {
                Some(i)
            } else {
                None
            },
            None => None,
        }
    } else {
        None
    }
}

} // verus!
