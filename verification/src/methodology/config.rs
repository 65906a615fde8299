//! The configuration database: values addressed by component path.
//!
//! A `set` resolves a context and an offset into a path glob (`*` matches
//! any run of characters) and stores a value under that glob and a field, at
//! a precedence: the default outside the build phase, and during it the
//! default less the setter's depth, so the shallowest setter wins whatever
//! the order of the writes. A `get` resolves a concrete path and takes, from
//! the globs that match it and hold the field, the most specific; among
//! equally specific ones, the highest precedence, and at equal precedence
//! the most recent write. Within one glob, a write at a precedence replaces
//! the older one there. Every write carries a stamp that orders it after
//! every earlier write.
//!
//! The store is kept sorted by path, then field, then falling precedence,
//! which is the order `dump` lists it in. The type of a stored value is part
//! of the entry, not of the key: a `get` that asks for another type finds the
//! entry and reports the mismatch.

use vstd::prelude::*;
use vstd::string::*;

use crate::text::{
    chars_of, count_char, count_occurrences, pad_right, push_padded, push_signed, signed_decimal,
    str_compare, str_eq, str_lt, lemma_str_lt_irreflexive, lemma_str_lt_transitive, to_string,
};

verus! {

/// Writes outside the build phase get this precedence; build-phase writes
/// get it less the setter's depth.
pub const DEFAULT_PRECEDENCE: i32 = 1000;

// ---------------------------------------------------------------------------
// Paths
// ---------------------------------------------------------------------------

/// Does the concrete path `p` match the glob `g`? Only `*` is special: it
/// matches any run of characters, the empty one included.
pub open spec fn glob(p: Seq<char>, g: Seq<char>) -> bool
    decreases g.len(), p.len(),
{
    if g.len() > 0 && g[0] == '*' {
        glob(p, g.drop_first()) || (p.len() > 0 && glob(p.drop_first(), g))
    } else if p.len() > 0 && g.len() > 0 && p[0] == g[0] {
        glob(p.drop_first(), g.drop_first())
    } else {
        p.len() == 0 && g.len() == 0
    }
}

fn glob_from(p: &Vec<char>, i: usize, g: &Vec<char>, j: usize) -> (r: bool)
    requires
        i <= p.len(),
        j <= g.len(),
    ensures
        r == glob(p@.skip(i as int), g@.skip(j as int)),
    decreases g.len() - j, p.len() - i,
{
    let ghost ps = p@.skip(i as int);
    let ghost gs = g@.skip(j as int);
    if j < g.len() && g[j] == '*' {
        assert(gs.drop_first() =~= g@.skip(j + 1));
        assert(gs[0] == '*');
        if glob_from(p, i, g, j + 1) {
            return true;
        }
        if i < p.len() {
            assert(ps.drop_first() =~= p@.skip(i + 1));
            glob_from(p, i + 1, g, j)
        } else {
            false
        }
    } else if i < p.len() && j < g.len() && p[i] == g[j] {
        assert(gs.drop_first() =~= g@.skip(j + 1));
        assert(ps.drop_first() =~= p@.skip(i + 1));
        assert(ps[0] == gs[0]);
        glob_from(p, i + 1, g, j + 1)
    } else {
        if j < g.len() {
            assert(gs[0] == g@[j as int]);
        }
        if i < p.len() && j < g.len() {
            assert(ps[0] == p@[i as int]);
        }
        i == p.len() && j == g.len()
    }
}

/// Does the concrete path match the stored glob?
pub fn glob_match(path: &str, pattern: &str) -> (r: bool)
    ensures
        r == glob(path@, pattern@),
{
    let p = chars_of(path);
    let g = chars_of(pattern);
    assert(p@.skip(0) =~= p@);
    assert(g@.skip(0) =~= g@);
    glob_from(&p, 0, &g, 0)
}

/// Is glob `a` at least as specific as glob `b`: does `a`, read as a path,
/// match `b`? `a.b.c` before `a.b.*` before `*`.
pub fn more_specific(a: &str, b: &str) -> (r: bool)
    ensures
        r == glob(a@, b@),
{
    glob_match(a, b)
}

/// The path an operation addresses: the offset, relative to the context's
/// path when there is one.
pub open spec fn spec_resolve(ctx: Option<Seq<char>>, offset: Seq<char>) -> Seq<char> {
    match ctx {
        None => offset,
        Some(c) => if offset.len() == 0 {
            c
        } else if c.len() == 0 {
            offset
        } else {
            c + seq!['.'] + offset
        },
    }
}

pub open spec fn opt_view(ctx: Option<&str>) -> Option<Seq<char>> {
    match ctx {
        None => None,
        Some(c) => Some(c@),
    }
}

pub fn resolve(ctx: Option<&str>, offset: &str) -> (r: String)
    ensures
        r@ == spec_resolve(opt_view(ctx), offset@),
{
    match ctx {
        None => to_string(offset),
        Some(c) => {
            if offset.unicode_len() == 0 {
                to_string(c)
            } else if c.unicode_len() == 0 {
                to_string(offset)
            } else {
                let mut r = to_string(c);
                r.append(".");
                r.append(offset);
                proof {
                    reveal_strlit(".");
                }
                r
            }
        },
    }
}

/// How deep a setter's path is, for build-phase precedence: 0 for the
/// empty path, else the number of dots.
pub open spec fn spec_depth(path: Seq<char>) -> int {
    if path.len() == 0 {
        0
    } else {
        count_char(path, '.') as int
    }
}

proof fn lemma_count_char_le(s: Seq<char>, c: char)
    ensures
        count_char(s, c) <= s.len(),
    decreases s.len(),
{
    if s.len() > 0 {
        lemma_count_char_le(s.drop_last(), c);
    }
}

proof fn lemma_count_char_append(s: Seq<char>, t: Seq<char>, c: char)
    ensures
        count_char(s + t, c) == count_char(s, c) + count_char(t, c),
    decreases t.len(),
{
    if t.len() == 0 {
        assert(s + t =~= s);
    } else {
        lemma_count_char_append(s, t.drop_last(), c);
        assert((s + t).drop_last() =~= s + t.drop_last());
        assert((s + t).last() == t.last());
    }
}

proof fn lemma_count_char_absent(t: Seq<char>, c: char)
    requires
        forall|k: int| 0 <= k < t.len() ==> t[k] != c,
    ensures
        count_char(t, c) == 0,
    decreases t.len(),
{
    if t.len() > 0 {
        lemma_count_char_absent(t.drop_last(), c);
        assert(t.last() == t[t.len() - 1]);
    }
}

/// A component named without dots, directly under the top, sets at depth 0:
/// its build-phase writes get the default precedence.
pub proof fn law_top_level_setter_has_depth_zero(name: Seq<char>)
    requires
        forall|k: int| 0 <= k < name.len() ==> name[k] != '.',
    ensures
        spec_depth(name) == 0,
        spec_precedence(true, Some(name)) == DEFAULT_PRECEDENCE,
{
    lemma_count_char_absent(name, '.');
}

/// Each level down the tree adds one to the setter's depth, so a setter's
/// build-phase writes rank one precedence below its parent's: the
/// shallowest setter wins whatever the order of the writes.
pub proof fn law_each_level_adds_one(parent: Seq<char>, name: Seq<char>)
    requires
        parent.len() > 0,
        forall|k: int| 0 <= k < name.len() ==> name[k] != '.',
    ensures
        spec_depth(parent + seq!['.'] + name) == spec_depth(parent) + 1,
        spec_precedence(true, Some(parent + seq!['.'] + name)) == spec_precedence(true, Some(parent)) - 1,
{
    let dot = seq!['.'];
    lemma_count_char_append(parent + dot, name, '.');
    lemma_count_char_append(parent, dot, '.');
    lemma_count_char_absent(name, '.');
    assert(dot.drop_last() =~= Seq::<char>::empty());
    assert(count_char(Seq::<char>::empty(), '.') == 0);
    assert(dot.len() == 1 && dot.last() == '.');
    assert(count_char(dot, '.') == count_char(dot.drop_last(), '.') + 1);
    assert(count_char(dot, '.') == 1);
    assert((parent + dot + name).len() > 0);
}

pub fn depth_of(path: &str) -> (d: i32)
    requires
        path@.len() <= i32::MAX,
    ensures
        d == spec_depth(path@),
{
    if path.unicode_len() == 0 {
        0
    } else {
        let n = count_occurrences(path, '.');
        proof {
            lemma_count_char_le(path@, '.');
        }
        n as i32
    }
}

/// The precedence a write gets: the default, less the setter's depth while
/// the build phase runs. A write without a context has depth 0.
pub open spec fn spec_precedence(in_build: bool, ctx: Option<Seq<char>>) -> int {
    if in_build {
        DEFAULT_PRECEDENCE - match ctx {
            None => 0,
            Some(c) => spec_depth(c),
        }
    } else {
        DEFAULT_PRECEDENCE as int
    }
}

// ---------------------------------------------------------------------------
// Errors
// ---------------------------------------------------------------------------

/// Why a `get` failed.
pub enum ConfigError {
    /// No entry matched the resolved path and field: never set, a path that
    /// does not match, or a misspelled field.
    NotFound { path: String, field: String },
    /// An entry was found, but it holds another type.
    TypeMismatch { path: String, field: String, stored: String, requested: String },
}

impl ConfigError {
    pub open spec fn kind_spec(&self) -> Seq<char> {
        match self {
            ConfigError::NotFound { .. } => "config_not_found"@,
            ConfigError::TypeMismatch { .. } => "config_type_mismatch"@,
        }
    }

    pub open spec fn to_string_spec(&self) -> Seq<char> {
        match self {
            ConfigError::NotFound { path, field } => "ConfigDb: no value for \""@ + field@
                + "\" at \""@ + path@
                + "\" (never set, path does not match, or the key is misspelled)"@,
            ConfigError::TypeMismatch { path, field, stored, requested } => "ConfigDb: \""@
                + field@ + "\" at \""@ + path@ + "\" holds a "@ + stored@ + ", but a "@
                + requested@ + " was requested"@,
        }
    }

    /// A stable, machine-readable cause.
    pub fn kind(&self) -> (k: &'static str)
        ensures
            k@ == self.kind_spec(),
    {
        match self {
            ConfigError::NotFound { .. } => "config_not_found",
            ConfigError::TypeMismatch { .. } => "config_type_mismatch",
        }
    }

    /// The message the error reads as.
    pub fn to_string(&self) -> (s: String)
        ensures
            s@ == self.to_string_spec(),
    {
        match self {
            ConfigError::NotFound { path, field } => {
                let mut s = to_string("ConfigDb: no value for \"");
                s.append(field.as_str());
                s.append("\" at \"");
                s.append(path.as_str());
                s.append("\" (never set, path does not match, or the key is misspelled)");
                s
            },
            ConfigError::TypeMismatch { path, field, stored, requested } => {
                let mut s = to_string("ConfigDb: \"");
                s.append(field.as_str());
                s.append("\" at \"");
                s.append(path.as_str());
                s.append("\" holds a ");
                s.append(stored.as_str());
                s.append(", but a ");
                s.append(requested.as_str());
                s.append(" was requested");
                s
            },
        }
    }
}

// ---------------------------------------------------------------------------
// The store
// ---------------------------------------------------------------------------

/// One stored value: under a path glob and a field, at a precedence, with
/// the name of its type and its rendering for the dump.
pub struct ConfigEntry<V> {
    path: String,
    field: String,
    precedence: i32,
    value_type: String,
    rendered: String,
    value: V,
    /// When it was written: later writes carry larger stamps.
    stamp: u64,
}

impl<V> ConfigEntry<V> {
    pub closed spec fn sstamp(&self) -> u64 {
        self.stamp
    }

    pub closed spec fn spath(&self) -> Seq<char> {
        self.path@
    }

    pub closed spec fn sfield(&self) -> Seq<char> {
        self.field@
    }

    pub closed spec fn sprec(&self) -> i32 {
        self.precedence
    }

    pub closed spec fn stype(&self) -> Seq<char> {
        self.value_type@
    }

    pub closed spec fn srendered(&self) -> Seq<char> {
        self.rendered@
    }

    pub closed spec fn svalue(&self) -> V {
        self.value
    }

    /// Does this entry hold exactly these parts?
    pub open spec fn holds(
        &self,
        path: Seq<char>,
        field: Seq<char>,
        prec: int,
        value_type: Seq<char>,
        rendered: Seq<char>,
        value: V,
    ) -> bool {
        &&& self.spath() == path
        &&& self.sfield() == field
        &&& self.sprec() == prec
        &&& self.stype() == value_type
        &&& self.srendered() == rendered
        &&& self.svalue() == value
    }
}

/// Store order: by path, then by field, then by falling precedence.
pub open spec fn key_lt(p1: Seq<char>, f1: Seq<char>, r1: int, p2: Seq<char>, f2: Seq<char>, r2: int) -> bool {
    str_lt(p1, p2) || (p1 == p2 && (str_lt(f1, f2) || (f1 == f2 && r1 > r2)))
}

pub open spec fn entry_lt<V>(a: ConfigEntry<V>, b: ConfigEntry<V>) -> bool {
    key_lt(a.spath(), a.sfield(), a.sprec() as int, b.spath(), b.sfield(), b.sprec() as int)
}

proof fn lemma_key_lt_transitive(
    p1: Seq<char>,
    f1: Seq<char>,
    r1: int,
    p2: Seq<char>,
    f2: Seq<char>,
    r2: int,
    p3: Seq<char>,
    f3: Seq<char>,
    r3: int,
)
    requires
        key_lt(p1, f1, r1, p2, f2, r2),
        key_lt(p2, f2, r2, p3, f3, r3),
    ensures
        key_lt(p1, f1, r1, p3, f3, r3),
{
    if str_lt(p1, p2) && str_lt(p2, p3) {
        lemma_str_lt_transitive(p1, p2, p3);
    }
    if p1 == p2 && p2 == p3 && str_lt(f1, f2) && str_lt(f2, f3) {
        lemma_str_lt_transitive(f1, f2, f3);
    }
}

proof fn lemma_key_lt_irreflexive(p: Seq<char>, f: Seq<char>, r: int)
    ensures
        !key_lt(p, f, r, p, f, r),
{
    lemma_str_lt_irreflexive(p);
    lemma_str_lt_irreflexive(f);
}

/// The configuration database.
pub struct ConfigDb<V> {
    entries: Vec<ConfigEntry<V>>,
    tracing: bool,
    in_build: bool,
    trace: Vec<String>,
    /// The stamp the next write gets; it stays at `u64::MAX` once there.
    next_stamp: u64,
}

impl<V> ConfigDb<V> {
    /// The entries, in store order.
    pub closed spec fn entries(&self) -> Seq<ConfigEntry<V>> {
        self.entries@
    }

    pub closed spec fn spec_tracing(&self) -> bool {
        self.tracing
    }

    pub closed spec fn spec_in_build(&self) -> bool {
        self.in_build
    }

    pub closed spec fn spec_next_stamp(&self) -> u64 {
        self.next_stamp
    }

    /// Trace lines written and not yet taken by the caller.
    pub closed spec fn trace(&self) -> Seq<Seq<char>> {
        self.trace@.map_values(|l: String| l@)
    }

    /// Sorted, one entry per key, no precedence above the default, and
    /// every stamp earlier than the next one (until the stamps run out).
    pub open spec fn wf(&self) -> bool {
        &&& forall|i: int, j: int|
            0 <= i < j < self.entries().len() ==> entry_lt(
                #[trigger] self.entries()[i],
                #[trigger] self.entries()[j],
            )
        &&& forall|i: int|
            0 <= i < self.entries().len() ==> #[trigger] self.entries()[i].sprec()
                <= DEFAULT_PRECEDENCE
        &&& forall|i: int|
            0 <= i < self.entries().len() ==> #[trigger] self.entries()[i].sstamp()
                < self.spec_next_stamp() || self.spec_next_stamp() == u64::MAX
    }

    pub fn new() -> (db: ConfigDb<V>)
        ensures
            db.wf(),
            db.entries() == Seq::<ConfigEntry<V>>::empty(),
            !db.spec_tracing(),
            !db.spec_in_build(),
            db.trace() == Seq::<Seq<char>>::empty(),
            db.spec_next_stamp() == 0,
    {
        let db = ConfigDb {
            entries: Vec::new(),
            tracing: false,
            in_build: false,
            trace: Vec::new(),
            next_stamp: 0,
        };
        assert(db.trace() =~= Seq::<Seq<char>>::empty());
        db
    }

    /// Log every `set` and `get` as it happens.
    pub fn set_tracing(&mut self, on: bool)
        ensures
            final(self).spec_tracing() == on,
            final(self).entries() == old(self).entries(),
            final(self).spec_in_build() == old(self).spec_in_build(),
            final(self).trace() == old(self).trace(),
    {
        self.tracing = on;
    }

    pub fn is_tracing(&self) -> (b: bool)
        ensures
            b == self.spec_tracing(),
    {
        self.tracing
    }

    /// Bracket the build walk: writes made while it is on take depth-scaled
    /// precedence.
    pub fn set_in_build(&mut self, active: bool)
        ensures
            final(self).spec_in_build() == active,
            final(self).entries() == old(self).entries(),
            final(self).spec_tracing() == old(self).spec_tracing(),
            final(self).trace() == old(self).trace(),
    {
        self.in_build = active;
    }

    /// Drop every entry, and switch tracing and the build bracket off.
    pub fn clear(&mut self)
        ensures
            final(self).wf(),
            final(self).entries() == Seq::<ConfigEntry<V>>::empty(),
            !final(self).spec_tracing(),
            !final(self).spec_in_build(),
            final(self).trace() == old(self).trace(),
            final(self).spec_next_stamp() == 0,
    {
        self.entries = Vec::new();
        self.tracing = false;
        self.in_build = false;
        self.next_stamp = 0;
    }

    /// Hand over the trace lines written so far.
    pub fn take_trace(&mut self) -> (lines: Vec<String>)
        ensures
            lines@.map_values(|l: String| l@) == old(self).trace(),
            final(self).trace() == Seq::<Seq<char>>::empty(),
            final(self).entries() == old(self).entries(),
            final(self).spec_tracing() == old(self).spec_tracing(),
            final(self).spec_in_build() == old(self).spec_in_build(),
    {
        let mut lines = Vec::new();
        lines.append(&mut self.trace);
        assert(self.trace() =~= Seq::<Seq<char>>::empty());
        lines
    }
}

/// The line a traced operation logs: the context, the offset, and the path
/// they resolved to.
pub open spec fn trace_text(
    op: Seq<char>,
    ctx: Option<Seq<char>>,
    offset: Seq<char>,
    path: Seq<char>,
    field: Seq<char>,
    value: Seq<char>,
) -> Seq<char> {
    "CFGDB/"@ + op + " context="@ + match ctx {
        None => "<none>"@,
        Some(c) => c,
    } + " offset=\""@ + offset + "\" -> "@ + path + " "@ + field + "="@ + value
}

pub fn trace_line(
    op: &str,
    ctx: Option<&str>,
    offset: &str,
    path: &str,
    field: &str,
    value: &str,
) -> (l: String)
    ensures
        l@ == trace_text(op@, opt_view(ctx), offset@, path@, field@, value@),
{
    let mut l = to_string("CFGDB/");
    l.append(op);
    l.append(" context=");
    match ctx {
        None => l.append("<none>"),
        Some(c) => l.append(c),
    }
    l.append(" offset=\"");
    l.append(offset);
    l.append("\" -> ");
    l.append(path);
    l.append(" ");
    l.append(field);
    l.append("=");
    l.append(value);
    l
}

/// After a write of these parts, `new` is `old` with the entry of the same
/// key replaced, or, where there was none, with the entry inserted in
/// store order.
pub open spec fn written<V>(
    old: Seq<ConfigEntry<V>>,
    new: Seq<ConfigEntry<V>>,
    path: Seq<char>,
    field: Seq<char>,
    prec: int,
    value_type: Seq<char>,
    rendered: Seq<char>,
    value: V,
) -> bool {
    exists|i: int|
        #![trigger new[i]]
        0 <= i <= old.len() && new[i].holds(path, field, prec, value_type, rendered, value) && ({
            ||| {
                &&& i < old.len()
                &&& old[i].spath() == path && old[i].sfield() == field && old[i].sprec() == prec
                &&& new.len() == old.len()
                &&& forall|k: int| 0 <= k < old.len() && k != i ==> new[k] == old[k]
            }
            ||| {
                &&& forall|k: int|
                    0 <= k < old.len() ==> !(old[k].spath() == path && old[k].sfield() == field
                        && old[k].sprec() == prec)
                &&& new.len() == old.len() + 1
                &&& forall|k: int| 0 <= k < i ==> new[k] == old[k]
                &&& forall|k: int| i < k < new.len() ==> new[k] == old[k - 1]
            }
        })
}

fn entry_before<V>(e: &ConfigEntry<V>, path: &str, field: &str, prec: i32) -> (b: bool)
    ensures
        b == key_lt(e.spath(), e.sfield(), e.sprec() as int, path@, field@, prec as int),
        !b ==> (e.spath() == path@ && e.sfield() == field@ && e.sprec() == prec) || key_lt(
            path@,
            field@,
            prec as int,
            e.spath(),
            e.sfield(),
            e.sprec() as int,
        ),
{
    let cp = str_compare(e.path.as_str(), path);
    if cp < 0 {
        true
    } else if cp > 0 {
        proof {
            lemma_str_lt_irreflexive(path@);
        }
        false
    } else {
        let cf = str_compare(e.field.as_str(), field);
        if cf < 0 {
            true
        } else if cf > 0 {
            proof {
                lemma_str_lt_irreflexive(path@);
                lemma_str_lt_irreflexive(field@);
            }
            false
        } else {
            proof {
                lemma_str_lt_irreflexive(path@);
                lemma_str_lt_irreflexive(field@);
            }
            e.precedence > prec
        }
    }
}

impl<V> ConfigDb<V> {
    /// Store `value` for every component whose path matches `offset` (a
    /// glob), resolved against the context's path. `value_type` names the
    /// value's type and `rendered` is what the dump and the trace show.
    pub fn set(
        &mut self,
        ctx: Option<&str>,
        offset: &str,
        field: &str,
        value: V,
        value_type: &str,
        rendered: &str,
    )
        requires
            old(self).wf(),
            ctx matches Some(c) ==> c@.len() <= i32::MAX,
        ensures
            final(self).wf(),
            written(
                old(self).entries(),
                final(self).entries(),
                spec_resolve(opt_view(ctx), offset@),
                field@,
                spec_precedence(old(self).spec_in_build(), opt_view(ctx)),
                value_type@,
                rendered@,
                value,
            ),
            final(self).trace() == if old(self).spec_tracing() {
                old(self).trace().push(
                    trace_text(
                        "SET"@,
                        opt_view(ctx),
                        offset@,
                        spec_resolve(opt_view(ctx), offset@),
                        field@,
                        rendered@,
                    ),
                )
            } else {
                old(self).trace()
            },
            forall|i: int|
                0 <= i < final(self).entries().len() && #[trigger] final(self).entries()[i].spath()
                    == spec_resolve(opt_view(ctx), offset@) && final(self).entries()[i].sfield()
                    == field@ && final(self).entries()[i].sprec() == spec_precedence(
                    old(self).spec_in_build(),
                    opt_view(ctx),
                ) ==> final(self).entries()[i].sstamp() == old(self).spec_next_stamp(),
            final(self).spec_next_stamp() == if old(self).spec_next_stamp() < u64::MAX {
                (old(self).spec_next_stamp() + 1) as u64
            } else {
                u64::MAX
            },
            final(self).spec_tracing() == old(self).spec_tracing(),
            final(self).spec_in_build() == old(self).spec_in_build(),
    {
        let path = resolve(ctx, offset);
        let prec: i32 = if self.in_build {
            match ctx {
                None => DEFAULT_PRECEDENCE,
                Some(c) => {
                    let d = depth_of(c);
                    proof {
                        lemma_count_char_le(c@, '.');
                    }
                    DEFAULT_PRECEDENCE - d
                },
            }
        } else {
            DEFAULT_PRECEDENCE
        };
        if self.tracing {
            let line = trace_line("SET", ctx, offset, path.as_str(), field, rendered);
            self.trace.push(line);
            proof {
                reveal_strlit("SET");
                assert(self.trace() =~= old(self).trace().push(
                    trace_text("SET"@, opt_view(ctx), offset@, path@, field@, rendered@),
                ));
            }
        }
        let ghost es = old(self).entries();
        let n = self.entries.len();
        let mut i: usize = 0;
        while i < n && entry_before(&self.entries[i], path.as_str(), field, prec)
            invariant
                n == self.entries@.len(),
                self.entries@ == es,
                i <= n,
                forall|k: int|
                    0 <= k < i ==> key_lt(
                        #[trigger] es[k].spath(),
                        es[k].sfield(),
                        es[k].sprec() as int,
                        path@,
                        field@,
                        prec as int,
                    ),
            decreases n - i,
        {
            i = i + 1;
        }
        let e = ConfigEntry {
            path: to_string(path.as_str()),
            field: to_string(field),
            precedence: prec,
            value_type: to_string(value_type),
            rendered: to_string(rendered),
            value,
            stamp: self.next_stamp,
        };
        let ghost stamp = self.next_stamp;
        if self.next_stamp < u64::MAX {
            self.next_stamp = self.next_stamp + 1;
        }
        let replace = i < n && str_eq(self.entries[i].path.as_str(), path.as_str()) && str_eq(
            self.entries[i].field.as_str(),
            field,
        ) && self.entries[i].precedence == prec;
        if replace {
            self.entries.set(i, e);
            proof {
                assert forall|a: int, b: int|
                    0 <= a < b < self.entries().len() implies entry_lt(
                    #[trigger] self.entries()[a],
                    #[trigger] self.entries()[b],
                ) by {
                    assert(entry_lt(es[a], es[b]));
                }
                assert forall|k: int| 0 <= k < self.entries().len() implies #[trigger] self.entries()[k].sstamp()
                    < self.next_stamp || self.next_stamp == u64::MAX by {
                    if k != i {
                        assert(self.entries()[k] == es[k]);
                    }
                }
                assert forall|k: int|
                    0 <= k < self.entries().len() && #[trigger] self.entries()[k].spath() == path@
                        && self.entries()[k].sfield() == field@ && self.entries()[k].sprec()
                        == prec implies self.entries()[k].sstamp() == stamp by {
                    if k < i {
                        assert(entry_lt(self.entries()[k], self.entries()[i as int]));
                        lemma_key_lt_irreflexive(path@, field@, prec as int);
                    } else if k > i {
                        assert(entry_lt(self.entries()[i as int], self.entries()[k]));
                        lemma_key_lt_irreflexive(path@, field@, prec as int);
                    }
                }
                assert(self.entries()[i as int].holds(
                    path@,
                    field@,
                    prec as int,
                    value_type@,
                    rendered@,
                    value,
                ));
            }
        } else {
            proof {
                if i < n {
                    assert(key_lt(
                        path@,
                        field@,
                        prec as int,
                        es[i as int].spath(),
                        es[i as int].sfield(),
                        es[i as int].sprec() as int,
                    ));
                }
                assert forall|k: int| 0 <= k < es.len() implies !(es[k].spath() == path@
                    && es[k].sfield() == field@ && es[k].sprec() == prec) by {
                    if k < i {
                        lemma_key_lt_irreflexive(path@, field@, prec as int);
                    } else {
                        if k > i {
                            assert(entry_lt(es[i as int], es[k]));
                            lemma_key_lt_transitive(
                                path@,
                                field@,
                                prec as int,
                                es[i as int].spath(),
                                es[i as int].sfield(),
                                es[i as int].sprec() as int,
                                es[k].spath(),
                                es[k].sfield(),
                                es[k].sprec() as int,
                            );
                        }
                        lemma_key_lt_irreflexive(path@, field@, prec as int);
                    }
                }
            }
            self.entries.insert(i, e);
            proof {
                assert forall|a: int, b: int|
                    0 <= a < b < self.entries().len() implies entry_lt(
                    #[trigger] self.entries()[a],
                    #[trigger] self.entries()[b],
                ) by {
                    if b < i {
                        assert(entry_lt(es[a], es[b]));
                    } else if b == i {
                    } else if a > i {
                        assert(entry_lt(es[a - 1], es[b - 1]));
                    } else if a == i {
                        if b - 1 > i {
                            assert(entry_lt(es[i as int], es[b - 1]));
                            lemma_key_lt_transitive(
                                path@,
                                field@,
                                prec as int,
                                es[i as int].spath(),
                                es[i as int].sfield(),
                                es[i as int].sprec() as int,
                                es[b - 1].spath(),
                                es[b - 1].sfield(),
                                es[b - 1].sprec() as int,
                            );
                        }
                    } else {
                        if b - 1 > i {
                            assert(entry_lt(es[i as int], es[b - 1]));
                            lemma_key_lt_transitive(
                                path@,
                                field@,
                                prec as int,
                                es[i as int].spath(),
                                es[i as int].sfield(),
                                es[i as int].sprec() as int,
                                es[b - 1].spath(),
                                es[b - 1].sfield(),
                                es[b - 1].sprec() as int,
                            );
                        }
                        lemma_key_lt_transitive(
                            es[a].spath(),
                            es[a].sfield(),
                            es[a].sprec() as int,
                            path@,
                            field@,
                            prec as int,
                            es[b - 1].spath(),
                            es[b - 1].sfield(),
                            es[b - 1].sprec() as int,
                        );
                    }
                }
                assert forall|k: int| 0 <= k < self.entries().len() implies #[trigger] self.entries()[k].sstamp()
                    < self.next_stamp || self.next_stamp == u64::MAX by {
                    if k < i {
                        assert(self.entries()[k] == es[k]);
                    } else if k > i {
                        assert(self.entries()[k] == es[k - 1]);
                    }
                }
                assert forall|k: int|
                    0 <= k < self.entries().len() && #[trigger] self.entries()[k].spath() == path@
                        && self.entries()[k].sfield() == field@ && self.entries()[k].sprec()
                        == prec implies self.entries()[k].sstamp() == stamp by {
                    if k < i {
                        assert(entry_lt(self.entries()[k], self.entries()[i as int]));
                        lemma_key_lt_irreflexive(path@, field@, prec as int);
                    } else if k > i {
                        assert(entry_lt(self.entries()[i as int], self.entries()[k]));
                        lemma_key_lt_irreflexive(path@, field@, prec as int);
                    }
                }
                assert(self.entries()[i as int].holds(
                    path@,
                    field@,
                    prec as int,
                    value_type@,
                    rendered@,
                    value,
                ));
            }
        }
    }
}

// ---------------------------------------------------------------------------
// Lookup
// ---------------------------------------------------------------------------

/// Entry `i` is the first of its (path, field) group: the one with the
/// highest precedence.
pub open spec fn is_head<V>(es: Seq<ConfigEntry<V>>, i: int) -> bool {
    i == 0 || !(es[i - 1].spath() == es[i].spath() && es[i - 1].sfield() == es[i].sfield())
}

/// Entry `i` is the value its glob holds for `field`, and the glob matches
/// `path`.
pub open spec fn candidate<V>(es: Seq<ConfigEntry<V>>, i: int, path: Seq<char>, field: Seq<char>) -> bool {
    &&& 0 <= i < es.len()
    &&& is_head(es, i)
    &&& es[i].sfield() == field
    &&& glob(path, es[i].spath())
}

/// Entry `j`'s glob is strictly more specific than entry `i`'s.
pub open spec fn dominates<V>(es: Seq<ConfigEntry<V>>, j: int, i: int) -> bool {
    glob(es[j].spath(), es[i].spath()) && !glob(es[i].spath(), es[j].spath())
}

/// Candidate `i` has no strictly more specific rival.
pub open spec fn undominated<V>(es: Seq<ConfigEntry<V>>, i: int, path: Seq<char>, field: Seq<char>) -> bool {
    &&& candidate(es, i, path, field)
    &&& forall|j: int| #[trigger] candidate(es, j, path, field) ==> !dominates(es, j, i)
}

/// Entry `i` ranks above entry `j`: a higher precedence, or the same
/// precedence and a later write. (Equal stamps, which only a store that has
/// run out of stamps can hold, fall back to store order.)
pub open spec fn outranks<V>(es: Seq<ConfigEntry<V>>, i: int, j: int) -> bool {
    ||| es[i].sprec() > es[j].sprec()
    ||| es[i].sprec() == es[j].sprec() && es[i].sstamp() > es[j].sstamp()
    ||| es[i].sprec() == es[j].sprec() && es[i].sstamp() == es[j].sstamp() && i < j
}

/// Entry `i` answers a lookup of `field` at `path`: a candidate with no
/// strictly more specific rival that ranks above every other such
/// candidate, so among equally specific globs the highest precedence wins,
/// and at equal precedence the most recent write.
pub open spec fn winner<V>(es: Seq<ConfigEntry<V>>, i: int, path: Seq<char>, field: Seq<char>) -> bool {
    &&& undominated(es, i, path, field)
    &&& forall|k: int| #[trigger] undominated(es, k, path, field) && k != i ==> outranks(es, i, k)
}

/// The entry that answers a lookup, if any.
pub open spec fn lookup<V>(es: Seq<ConfigEntry<V>>, path: Seq<char>, field: Seq<char>) -> Option<int> {
    if exists|i: int| #[trigger] winner(es, i, path, field) {
        Some(choose|i: int| #[trigger] winner(es, i, path, field))
    } else {
        None
    }
}

proof fn lemma_winner_unique<V>(es: Seq<ConfigEntry<V>>, i: int, j: int, path: Seq<char>, field: Seq<char>)
    requires
        winner(es, i, path, field),
        winner(es, j, path, field),
    ensures
        i == j,
{
}

proof fn lemma_lookup_is<V>(es: Seq<ConfigEntry<V>>, i: int, path: Seq<char>, field: Seq<char>)
    requires
        winner(es, i, path, field),
    ensures
        lookup(es, path, field) == Some(i),
{
    let w = choose|k: int| #[trigger] winner(es, k, path, field);
    lemma_winner_unique(es, i, w, path, field);
}

/// What a `get` of `field` at `path`, asking for `requested`, returns:
/// the entry's value when its type is the one requested, and otherwise the
/// error that says why not.
pub open spec fn get_outcome<V: Clone>(
    es: Seq<ConfigEntry<V>>,
    path: Seq<char>,
    field: Seq<char>,
    requested: Seq<char>,
    r: Result<V, ConfigError>,
) -> bool {
    match lookup(es, path, field) {
        None => r matches Err(ConfigError::NotFound { path: p, field: f }) && p@ == path && f@
            == field,
        Some(i) => if es[i].stype() == requested {
            r matches Ok(v) && cloned::<V>(es[i].svalue(), v)
        } else {
            r matches Err(ConfigError::TypeMismatch { path: p, field: f, stored: st, requested: rq })
                && p@ == path && f@ == field && st@ == es[i].stype() && rq@ == requested
        },
    }
}

/// What a traced `get` logs as the value.
pub open spec fn get_trace_value<V>(
    es: Seq<ConfigEntry<V>>,
    path: Seq<char>,
    field: Seq<char>,
    requested: Seq<char>,
) -> Seq<char> {
    match lookup(es, path, field) {
        None => "<not found>"@,
        Some(i) => if es[i].stype() == requested {
            es[i].srendered()
        } else {
            "<type mismatch>"@
        },
    }
}

impl<V> ConfigDb<V> {
    fn is_candidate(&self, i: usize, path: &str, field: &str) -> (b: bool)
        requires
            i < self.entries().len(),
        ensures
            b == candidate(self.entries(), i as int, path@, field@),
    {
        let head = if i == 0 {
            true
        } else {
            !(str_eq(self.entries[i - 1].path.as_str(), self.entries[i].path.as_str()) && str_eq(
                self.entries[i - 1].field.as_str(),
                self.entries[i].field.as_str(),
            ))
        };
        head && str_eq(self.entries[i].field.as_str(), field) && glob_match(
            path,
            self.entries[i].path.as_str(),
        )
    }

    fn is_undominated(&self, i: usize, path: &str, field: &str) -> (b: bool)
        requires
            i < self.entries().len(),
            candidate(self.entries(), i as int, path@, field@),
        ensures
            b == undominated(self.entries(), i as int, path@, field@),
    {
        let n = self.entries.len();
        let mut j: usize = 0;
        while j < n
            invariant
                n == self.entries().len(),
                i < n,
                j <= n,
                forall|k: int|
                    0 <= k < j ==> #[trigger] candidate(self.entries(), k, path@, field@)
                        ==> !dominates(self.entries(), k, i as int),
            decreases n - j,
        {
            if self.is_candidate(j, path, field) {
                let fwd = more_specific(self.entries[j].path.as_str(), self.entries[i].path.as_str());
                let back = more_specific(self.entries[i].path.as_str(), self.entries[j].path.as_str());
                if fwd && !back {
                    return false;
                }
            }
            j = j + 1;
        }
        true
    }

    /// The index of the entry that answers a lookup of `field` at `path`.
    fn find_winner(&self, path: &str, field: &str) -> (r: Option<usize>)
        ensures
            r matches Some(i) ==> lookup(self.entries(), path@, field@) == Some(i as int) && i
                < self.entries().len(),
            r is None ==> lookup(self.entries(), path@, field@) is None,
    {
        let n = self.entries.len();
        let mut best: Option<usize> = None;
        let mut i: usize = 0;
        while i < n
            invariant
                n == self.entries().len(),
                i <= n,
                best is None ==> forall|k: int|
                    0 <= k < i ==> !#[trigger] undominated(self.entries(), k, path@, field@),
                best matches Some(b) ==> b < i && undominated(self.entries(), b as int, path@, field@)
                    && forall|k: int|
                    0 <= k < i && #[trigger] undominated(self.entries(), k, path@, field@) && k
                        != b ==> outranks(self.entries(), b as int, k),
            decreases n - i,
        {
            if self.is_candidate(i, path, field) && self.is_undominated(i, path, field) {
                match best {
                    None => {
                        best = Some(i);
                    },
                    Some(b) => {
                        let ei = &self.entries[i];
                        let eb = &self.entries[b];
                        if ei.precedence > eb.precedence || (ei.precedence == eb.precedence
                            && ei.stamp > eb.stamp) {
                            best = Some(i);
                        }
                    },
                }
            }
            i = i + 1;
        }
        match best {
            None => {
                proof {
                    if exists|k: int| #[trigger] winner(self.entries(), k, path@, field@) {
                        let k = choose|k: int| #[trigger] winner(self.entries(), k, path@, field@);
                        assert(undominated(self.entries(), k, path@, field@));
                    }
                }
                None
            },
            Some(b) => {
                proof {
                    assert(winner(self.entries(), b as int, path@, field@));
                    lemma_lookup_is(self.entries(), b as int, path@, field@);
                }
                Some(b)
            },
        }
    }

    /// Read `field` for the component at the context's path plus `offset`,
    /// as a value of type `requested`. The offset must be concrete: globs
    /// belong to `set`.
    pub fn get(&mut self, ctx: Option<&str>, offset: &str, field: &str, requested: &str) -> (r:
        Result<V, ConfigError>) where V: Clone
        requires
            old(self).wf(),
        ensures
            final(self).wf(),
            get_outcome(
                old(self).entries(),
                spec_resolve(opt_view(ctx), offset@),
                field@,
                requested@,
                r,
            ),
            final(self).entries() == old(self).entries(),
            final(self).trace() == if old(self).spec_tracing() {
                old(self).trace().push(
                    trace_text(
                        "GET"@,
                        opt_view(ctx),
                        offset@,
                        spec_resolve(opt_view(ctx), offset@),
                        field@,
                        get_trace_value(
                            old(self).entries(),
                            spec_resolve(opt_view(ctx), offset@),
                            field@,
                            requested@,
                        ),
                    ),
                )
            } else {
                old(self).trace()
            },
            final(self).spec_tracing() == old(self).spec_tracing(),
            final(self).spec_in_build() == old(self).spec_in_build(),
    {
        let path = resolve(ctx, offset);
        let (r, shown) = match self.find_winner(path.as_str(), field) {
            None => {
                proof {
                    reveal_strlit("<not found>");
                }
                (
                    Err(ConfigError::NotFound { path: to_string(path.as_str()), field: to_string(field) }),
                    to_string("<not found>"),
                )
            },
            Some(i) => {
                if str_eq(self.entries[i].value_type.as_str(), requested) {
                    (Ok(self.entries[i].value.clone()), to_string(self.entries[i].rendered.as_str()))
                } else {
                    proof {
                        reveal_strlit("<type mismatch>");
                    }
                    (
                        Err(
                            ConfigError::TypeMismatch {
                                path: to_string(path.as_str()),
                                field: to_string(field),
                                stored: to_string(self.entries[i].value_type.as_str()),
                                requested: to_string(requested),
                            },
                        ),
                        to_string("<type mismatch>"),
                    )
                }
            },
        };
        if self.tracing {
            let line = trace_line("GET", ctx, offset, path.as_str(), field, shown.as_str());
            self.trace.push(line);
            proof {
                reveal_strlit("GET");
                assert(self.trace() =~= old(self).trace().push(
                    trace_text("GET"@, opt_view(ctx), offset@, path@, field@, shown@),
                ));
            }
        }
        r
    }
}

// ---------------------------------------------------------------------------
// Inspection
// ---------------------------------------------------------------------------

/// The text of one entry in the dump: `precedence: rendered`.
pub open spec fn dump_item<V>(e: ConfigEntry<V>) -> Seq<char> {
    signed_decimal(e.sprec() as int) + ": "@ + e.srendered()
}

/// The dump text contributed by entry `i`: a new line for the first entry of
/// each (path, field) group, closing the previous group's braces, and a
/// comma-separated item within a group.
pub open spec fn dump_piece<V>(es: Seq<ConfigEntry<V>>, i: int) -> Seq<char> {
    if is_head(es, i) {
        (if i > 0 {
            "}"@
        } else {
            Seq::<char>::empty()
        }) + "\n"@ + pad_right(es[i].spath(), 28) + ": "@ + pad_right(es[i].sfield(), 10) + ": {"@
            + dump_item(es[i])
    } else {
        ", "@ + dump_item(es[i])
    }
}

/// The pieces of the first `n` entries, in order.
pub open spec fn dump_pieces<V>(es: Seq<ConfigEntry<V>>, n: nat) -> Seq<char>
    decreases n,
{
    if n == 0 {
        Seq::<char>::empty()
    } else {
        dump_pieces(es, (n - 1) as nat) + dump_piece(es, n - 1)
    }
}

/// The whole dump: a header, then one line per (path, field) with every
/// precedence and value, highest first.
pub open spec fn dump_text<V>(es: Seq<ConfigEntry<V>>) -> Seq<char> {
    pad_right("PATH"@, 28) + ": "@ + pad_right("KEY"@, 10) + ": DATA"@ + dump_pieces(es, es.len())
        + if es.len() > 0 {
        "}"@
    } else {
        Seq::<char>::empty()
    }
}

/// The marker the factory puts before the requested type in an override's
/// field name.
pub open spec fn override_prefix() -> Seq<char> {
    "__factory_override__"@
}

/// `s` with every leading `-> ` removed.
pub open spec fn trim_arrows(s: Seq<char>) -> Seq<char>
    decreases s.len(),
{
    if s.len() >= 3 && s.subrange(0, 3) == "-> "@ {
        trim_arrows(s.subrange(3, s.len() as int))
    } else {
        s
    }
}

/// The factory overrides among the first `n` entries, as (path, from, to).
pub open spec fn overrides_in<V>(es: Seq<ConfigEntry<V>>, n: nat) -> Seq<(Seq<char>, Seq<char>, Seq<char>)>
    decreases n,
{
    if n == 0 {
        Seq::empty()
    } else {
        let i = n - 1;
        let rest = overrides_in(es, (n - 1) as nat);
        let f = es[i].sfield();
        if is_head(es, i) && f.len() >= override_prefix().len() && f.subrange(
            0,
            override_prefix().len() as int,
        ) == override_prefix() {
            rest.push(
                (
                    es[i].spath(),
                    f.subrange(override_prefix().len() as int, f.len() as int),
                    trim_arrows(es[i].srendered()),
                ),
            )
        } else {
            rest
        }
    }
}

fn starts_with(s: &Vec<char>, prefix: &str) -> (b: bool)
    ensures
        b == (s@.len() >= prefix@.len() && s@.subrange(0, prefix@.len() as int) == prefix@),
{
    let p = chars_of(prefix);
    if s.len() < p.len() {
        return false;
    }
    let mut i: usize = 0;
    while i < p.len()
        invariant
            p@ == prefix@,
            p.len() <= s.len(),
            i <= p.len(),
            forall|j: int| 0 <= j < i ==> s@[j] == p@[j],
        decreases p.len() - i,
    {
        if s[i] != p[i] {
            return false;
        }
        i = i + 1;
    }
    assert(s@.subrange(0, p@.len() as int) =~= p@);
    true
}

fn trim_arrows_exec(s: &str) -> (r: String)
    ensures
        r@ == trim_arrows(s@),
{
    let v = chars_of(s);
    let mut i: usize = 0;
    proof {
        reveal_strlit("-> ");
        assert(v@.subrange(0, v@.len() as int) =~= v@);
    }
    while v.len() >= 3 && i <= v.len() - 3 && v[i] == '-' && v[i + 1] == '>' && v[i + 2] == ' '
        invariant
            v@ == s@,
            i <= v.len(),
            trim_arrows(s@) == trim_arrows(v@.subrange(i as int, v@.len() as int)),
        decreases v.len() - i,
    {
        proof {
            reveal_strlit("-> ");
            let t = v@.subrange(i as int, v@.len() as int);
            assert(t.subrange(0, 3) =~= "-> "@);
            assert(t.subrange(3, t.len() as int) =~= v@.subrange(i + 3, v@.len() as int));
        }
        i = i + 3;
    }
    proof {
        reveal_strlit("-> ");
        let t = v@.subrange(i as int, v@.len() as int);
        if t.len() >= 3 && t.subrange(0, 3) == "-> "@ {
            assert(t[0] == "-> "@[0] && t[1] == "-> "@[1] && t[2] == "-> "@[2]);
        }
    }
    let mut out: Vec<char> = Vec::new();
    let mut k: usize = i;
    while k < v.len()
        invariant
            v@ == s@,
            i <= k <= v.len(),
            out@ == v@.subrange(i as int, k as int),
        decreases v.len() - k,
    {
        out.push(v[k]);
        k = k + 1;
        assert(out@ =~= v@.subrange(i as int, k as int));
    }
    crate::text::string_from_chars(&out)
}

impl<V> ConfigDb<V> {
    /// Is there a value for this field at the resolved path, at any
    /// precedence, without producing an error?
    pub fn exists_at(&self, ctx: Option<&str>, offset: &str, field: &str) -> (b: bool)
        ensures
            b == exists|i: int|
                0 <= i < self.entries().len() && glob(
                    spec_resolve(opt_view(ctx), offset@),
                    #[trigger] self.entries()[i].spath(),
                ) && self.entries()[i].sfield() == field@,
    {
        let path = resolve(ctx, offset);
        let n = self.entries.len();
        let mut i: usize = 0;
        while i < n
            invariant
                n == self.entries().len(),
                i <= n,
                path@ == spec_resolve(opt_view(ctx), offset@),
                forall|k: int|
                    0 <= k < i ==> !(glob(path@, #[trigger] self.entries()[k].spath())
                        && self.entries()[k].sfield() == field@),
            decreases n - i,
        {
            if glob_match(path.as_str(), self.entries[i].path.as_str()) && str_eq(
                self.entries[i].field.as_str(),
                field,
            ) {
                assert(glob(path@, self.entries()[i as int].spath()) && self.entries()[i as int].sfield() == field@);
                return true;
            }
            i = i + 1;
        }
        false
    }

    /// The whole database as text, including every precedence: who won,
    /// and who else was competing.
    pub fn dump(&self) -> (s: String)
        ensures
            s@ == dump_text(self.entries()),
    {
        let mut out = String::new();
        push_padded(&mut out, "PATH", 28);
        out.append(": ");
        push_padded(&mut out, "KEY", 10);
        out.append(": DATA");
        let ghost header = out@;
        let n = self.entries.len();
        let mut i: usize = 0;
        while i < n
            invariant
                n == self.entries().len(),
                i <= n,
                out@ == header + dump_pieces(self.entries(), i as nat),
            decreases n - i,
        {
            let head = if i == 0 {
                true
            } else {
                !(str_eq(self.entries[i - 1].path.as_str(), self.entries[i].path.as_str())
                    && str_eq(self.entries[i - 1].field.as_str(), self.entries[i].field.as_str()))
            };
            let ghost before = out@;
            if head {
                if i > 0 {
                    out.append("}");
                }
                out.append("\n");
                push_padded(&mut out, self.entries[i].path.as_str(), 28);
                out.append(": ");
                push_padded(&mut out, self.entries[i].field.as_str(), 10);
                out.append(": {");
            } else {
                out.append(", ");
            }
            push_signed(&mut out, self.entries[i].precedence);
            out.append(": ");
            out.append(self.entries[i].rendered.as_str());
            proof {
                reveal_strlit("}");
                reveal_strlit("\n");
                reveal_strlit(": ");
                reveal_strlit(": {");
                reveal_strlit(", ");
                assert(out@ =~= before + dump_piece(self.entries(), i as int));
            }
            i = i + 1;
        }
        if n > 0 {
            out.append("}");
        }
        proof {
            reveal_strlit("PATH");
            reveal_strlit("KEY");
            reveal_strlit(": ");
            reveal_strlit(": DATA");
            reveal_strlit("}");
            assert(out@ =~= dump_text(self.entries()));
        }
        out
    }

    /// The factory overrides in force, as (path, requested type, override),
    /// from the entries the factory stores under its reserved field prefix.
    pub fn factory_overrides(&self) -> (out: Vec<(String, String, String)>)
        ensures
            out@.map_values(|t: (String, String, String)| (t.0@, t.1@, t.2@)) == overrides_in(
                self.entries(),
                self.entries().len(),
            ),
    {
        let mut out: Vec<(String, String, String)> = Vec::new();
        let n = self.entries.len();
        let mut i: usize = 0;
        while i < n
            invariant
                n == self.entries().len(),
                i <= n,
                out@.map_values(|t: (String, String, String)| (t.0@, t.1@, t.2@)) == overrides_in(
                    self.entries(),
                    i as nat,
                ),
            decreases n - i,
        {
            let head = if i == 0 {
                true
            } else {
                !(str_eq(self.entries[i - 1].path.as_str(), self.entries[i].path.as_str())
                    && str_eq(self.entries[i - 1].field.as_str(), self.entries[i].field.as_str()))
            };
            let f = chars_of(self.entries[i].field.as_str());
            proof {
                reveal_strlit("__factory_override__");
            }
            if head && starts_with(&f, "__factory_override__") {
                let plen = "__factory_override__".unicode_len();
                let mut rest: Vec<char> = Vec::new();
                let mut k: usize = plen;
                while k < f.len()
                    invariant
                        plen <= k <= f.len(),
                        rest@ == f@.subrange(plen as int, k as int),
                    decreases f.len() - k,
                {
                    rest.push(f[k]);
                    k = k + 1;
                    assert(rest@ =~= f@.subrange(plen as int, k as int));
                }
                let t = (
                    to_string(self.entries[i].path.as_str()),
                    crate::text::string_from_chars(&rest),
                    trim_arrows_exec(self.entries[i].rendered.as_str()),
                );
                out.push(t);
            }
            i = i + 1;
            proof {
                assert(out@.map_values(|t: (String, String, String)| (t.0@, t.1@, t.2@)) =~= overrides_in(
                    self.entries(),
                    i as nat,
                ));
            }
        }
        out
    }
}

// ---------------------------------------------------------------------------
// Laws
// ---------------------------------------------------------------------------

/// Every string matches itself read as a glob.
/// `*` alone matches every path, the empty one and dotted ones included:
/// a type-wide setting reaches every component.
pub proof fn law_star_matches_every_path(p: Seq<char>)
    ensures
        glob(p, seq!['*']),
    decreases p.len(),
{
    let g = seq!['*'];
    assert(g.len() == 1 && g[0] == '*');
    assert(g.drop_first() =~= Seq::<char>::empty());
    if p.len() > 0 {
        law_star_matches_every_path(p.drop_first());
        assert(glob(p.drop_first(), g));
    } else {
        assert(glob(p, g.drop_first()));
    }
    assert(glob(p, g));
}

/// A character other than `*` matches only itself: a path that differs
/// from a star-free glob anywhere is not matched by it.
pub proof fn law_plain_glob_matches_only_itself(p: Seq<char>, g: Seq<char>)
    requires
        forall|k: int| 0 <= k < g.len() ==> g[k] != '*',
    ensures
        glob(p, g) <==> p == g,
    decreases g.len(),
{
    if g.len() > 0 && p.len() > 0 && p[0] == g[0] {
        assert forall|k: int| 0 <= k < g.drop_first().len() implies g.drop_first()[k] != '*' by {
            assert(g.drop_first()[k] == g[k + 1]);
        }
        law_plain_glob_matches_only_itself(p.drop_first(), g.drop_first());
        assert(g[0] != '*');
        assert(glob(p, g) == glob(p.drop_first(), g.drop_first()));
        if p.drop_first() == g.drop_first() {
            assert forall|k: int| 0 <= k < p.len() implies p[k] == g[k] by {
                if k > 0 {
                    assert(p[k] == p.drop_first()[k - 1]);
                    assert(g[k] == g.drop_first()[k - 1]);
                }
            }
            assert(p =~= g);
        } else {
            assert(p != g) by {
                if p == g {
                    assert(p.drop_first() =~= g.drop_first());
                }
            }
        }
    } else if g.len() > 0 {
        assert(g[0] != '*');
        assert(!glob(p, g));
        if p == g {
            assert(p[0] == g[0]);
        }
    } else if p.len() > 0 {
        assert(!glob(p, g));
        assert(p != g);
    } else {
        assert(p =~= g);
        assert(glob(p, g));
    }
}

pub proof fn lemma_glob_reflexive(s: Seq<char>)
    ensures
        glob(s, s),
    decreases s.len(),
{
    if s.len() > 0 {
        lemma_glob_reflexive(s.drop_first());
        if s[0] == '*' {
            assert(glob(s.drop_first(), s.drop_first()));
            assert(glob(s.drop_first(), s)) by {
                assert(glob(s.drop_first(), s.drop_first()));
            }
        }
    }
}

/// A glob without `*` matches only itself.
pub proof fn lemma_glob_concrete(p: Seq<char>, g: Seq<char>)
    requires
        !g.contains('*'),
        glob(p, g),
    ensures
        p == g,
    decreases g.len(),
{
    if g.len() > 0 {
        assert(g[0] != '*') by {
            assert(g.contains(g[0]));
        }
        assert(!g.drop_first().contains('*')) by {
            if g.drop_first().contains('*') {
                let k = choose|k: int| 0 <= k < g.drop_first().len() && g.drop_first()[k] == '*';
                assert(g[k + 1] == '*');
            }
        }
        assert(p.len() > 0 && p[0] == g[0] && glob(p.drop_first(), g.drop_first()));
        lemma_glob_concrete(p.drop_first(), g.drop_first());
        assert forall|k: int| 0 <= k < p.len() implies p[k] == g[k] by {
            if k > 0 {
                assert(p[k] == p.drop_first()[k - 1]);
                assert(g[k] == g.drop_first()[k - 1]);
            }
        }
        assert(p =~= g);
    } else {
        assert(p.len() == 0);
        assert(p =~= g);
    }
}

/// Matching is transitive: a path that matches `b`, where `b` read as a
/// path matches `c`, matches `c`.
pub proof fn lemma_glob_transitive(a: Seq<char>, b: Seq<char>, c: Seq<char>)
    requires
        glob(a, b),
        glob(b, c),
    ensures
        glob(a, c),
    decreases a.len() + b.len() + c.len(),
{
    if c.len() == 0 {
        assert(b.len() == 0);
        assert(a.len() == 0);
    } else if c[0] == '*' {
        if glob(b, c.drop_first()) {
            lemma_glob_transitive(a, b, c.drop_first());
        } else {
            assert(b.len() > 0 && glob(b.drop_first(), c));
            if b[0] == '*' {
                if glob(a, b.drop_first()) {
                    lemma_glob_transitive(a, b.drop_first(), c);
                } else {
                    assert(a.len() > 0 && glob(a.drop_first(), b));
                    lemma_glob_transitive(a.drop_first(), b, c);
                }
            } else {
                assert(a.len() > 0 && a[0] == b[0] && glob(a.drop_first(), b.drop_first()));
                lemma_glob_transitive(a.drop_first(), b.drop_first(), c);
            }
        }
    } else {
        assert(b.len() > 0 && b[0] == c[0] && glob(b.drop_first(), c.drop_first()));
        assert(a.len() > 0 && a[0] == b[0] && glob(a.drop_first(), b.drop_first()));
        lemma_glob_transitive(a.drop_first(), b.drop_first(), c.drop_first());
    }
}

/// Within one (path, field) group the head carries the highest precedence.
proof fn lemma_head_highest<V>(es: Seq<ConfigEntry<V>>, h: int, k: int)
    requires
        forall|i: int, j: int| 0 <= i < j < es.len() ==> entry_lt(#[trigger] es[i], #[trigger] es[j]),
        0 <= h < es.len(),
        0 <= k < es.len(),
        is_head(es, h),
        es[k].spath() == es[h].spath(),
        es[k].sfield() == es[h].sfield(),
    ensures
        es[h].sprec() >= es[k].sprec(),
        h <= k,
{
    if k < h {
        assert(entry_lt(es[k], es[h - 1]) || k == h - 1);
        assert(entry_lt(es[h - 1], es[h]));
        if k < h - 1 {
            assert(entry_lt(es[k], es[h - 1]));
            lemma_str_lt_irreflexive(es[h].spath());
            lemma_str_lt_irreflexive(es[h].sfield());
            if str_lt(es[k].spath(), es[h - 1].spath()) && str_lt(es[h - 1].spath(), es[h].spath()) {
                lemma_str_lt_transitive(es[k].spath(), es[h - 1].spath(), es[h].spath());
            }
            if es[h - 1].spath() == es[h].spath() {
                if str_lt(es[k].sfield(), es[h - 1].sfield()) && str_lt(es[h - 1].sfield(), es[h].sfield()) {
                    lemma_str_lt_transitive(es[k].sfield(), es[h - 1].sfield(), es[h].sfield());
                }
                if str_lt(es[h].spath(), es[h - 1].spath()) {
                    lemma_str_lt_transitive(es[h].spath(), es[h - 1].spath(), es[h].spath());
                }
            }
            if str_lt(es[k].spath(), es[h - 1].spath()) && es[h - 1].spath() == es[h].spath() {
            }
            if es[k].spath() == es[h - 1].spath() && str_lt(es[h - 1].spath(), es[h].spath()) {
            }
            if es[k].spath() == es[h - 1].spath() && es[h - 1].spath() == es[h].spath() {
                if str_lt(es[k].sfield(), es[h - 1].sfield()) && es[h - 1].sfield() == es[h].sfield() {
                }
                if es[k].sfield() == es[h - 1].sfield() && str_lt(es[h - 1].sfield(), es[h].sfield()) {
                }
                if str_lt(es[h - 1].sfield(), es[h].sfield()) && str_lt(es[h].sfield(), es[h - 1].sfield()) {
                    lemma_str_lt_transitive(es[h].sfield(), es[h - 1].sfield(), es[h].sfield());
                }
            }
        }
        assert(false);
    }
    if k > h {
        assert(entry_lt(es[h], es[k]));
        lemma_str_lt_irreflexive(es[h].spath());
        lemma_str_lt_irreflexive(es[h].sfield());
    }
}

/// An entry stored at the default precedence under a glob without `*`
/// answers every lookup of that path and field.
proof fn lemma_concrete_entry_wins<V>(db: ConfigDb<V>, i: int, path: Seq<char>, field: Seq<char>)
    requires
        db.wf(),
        0 <= i < db.entries().len(),
        db.entries()[i].spath() == path,
        db.entries()[i].sfield() == field,
        db.entries()[i].sprec() == DEFAULT_PRECEDENCE,
        !path.contains('*'),
    ensures
        lookup(db.entries(), path, field) == Some(i),
{
    let es = db.entries();
    if i > 0 && es[i - 1].spath() == path && es[i - 1].sfield() == field {
        assert(entry_lt(es[i - 1], es[i]));
        lemma_str_lt_irreflexive(path);
        lemma_str_lt_irreflexive(field);
        assert(es[i - 1].sprec() <= DEFAULT_PRECEDENCE);
    }
    lemma_glob_reflexive(path);
    assert(candidate(es, i, path, field));
    assert(undominated(es, i, path, field));
    assert forall|k: int| k != i implies !#[trigger] undominated(es, k, path, field) by {
        if undominated(es, k, path, field) {
            assert(!dominates(es, i, k));
            lemma_glob_concrete(es[k].spath(), path);
            lemma_head_highest(es, k, i);
            lemma_head_highest(es, i, k);
        }
    }
    lemma_lookup_is(es, i, path, field);
}

/// Read after write: once a value has been set at a path without `*`
/// outside the build phase (so at the default precedence), a read of that
/// path and field asking for the value's type returns a copy of it. At one
/// precedence the latest write is the one read.
pub proof fn law_read_after_write<V: Clone>(
    before: ConfigDb<V>,
    after: ConfigDb<V>,
    path: Seq<char>,
    field: Seq<char>,
    value_type: Seq<char>,
    rendered: Seq<char>,
    value: V,
    r: Result<V, ConfigError>,
)
    requires
        after.wf(),
        written(
            before.entries(),
            after.entries(),
            path,
            field,
            DEFAULT_PRECEDENCE as int,
            value_type,
            rendered,
            value,
        ),
        !path.contains('*'),
        get_outcome(after.entries(), path, field, value_type, r),
    ensures
        r matches Ok(v) && cloned::<V>(value, v),
{
    let es = after.entries();
    let i = choose|i: int|
        #![trigger es[i]]
        0 <= i <= before.entries().len() && es[i].holds(
            path,
            field,
            DEFAULT_PRECEDENCE as int,
            value_type,
            rendered,
            value,
        ) && ({
            ||| {
                &&& i < before.entries().len()
                &&& before.entries()[i].spath() == path && before.entries()[i].sfield() == field
                    && before.entries()[i].sprec() == DEFAULT_PRECEDENCE as int
                &&& es.len() == before.entries().len()
                &&& forall|k: int|
                    0 <= k < before.entries().len() && k != i ==> es[k] == before.entries()[k]
            }
            ||| {
                &&& forall|k: int|
                    0 <= k < before.entries().len() ==> !(before.entries()[k].spath() == path
                        && before.entries()[k].sfield() == field && before.entries()[k].sprec()
                        == DEFAULT_PRECEDENCE as int)
                &&& es.len() == before.entries().len() + 1
                &&& forall|k: int| 0 <= k < i ==> es[k] == before.entries()[k]
                &&& forall|k: int| i < k < es.len() ==> es[k] == before.entries()[k - 1]
            }
        });
    lemma_concrete_entry_wins(after, i, path, field);
}

/// The entry a lookup finds carries the highest precedence written under
/// its glob and field: during the build phase, the shallowest setter's.
pub proof fn law_highest_precedence_wins<V>(db: ConfigDb<V>, path: Seq<char>, field: Seq<char>, k: int)
    requires
        db.wf(),
        lookup(db.entries(), path, field) is Some,
        0 <= k < db.entries().len(),
        db.entries()[k].spath() == db.entries()[lookup(db.entries(), path, field)->0].spath(),
        db.entries()[k].sfield() == field,
    ensures
        db.entries()[lookup(db.entries(), path, field)->0].sprec() >= db.entries()[k].sprec(),
{
    let i = choose|i: int| #[trigger] winner(db.entries(), i, path, field);
    lemma_head_highest(db.entries(), i, k);
}

/// The most specific glob wins: no glob that matches the path and holds
/// the field is strictly more specific than the one a lookup finds.
pub proof fn law_most_specific_wins<V>(db: ConfigDb<V>, path: Seq<char>, field: Seq<char>, j: int)
    requires
        lookup(db.entries(), path, field) is Some,
        candidate(db.entries(), j, path, field),
    ensures
        !dominates(db.entries(), j, lookup(db.entries(), path, field)->0),
{
    let i = choose|i: int| #[trigger] winner(db.entries(), i, path, field);
}

/// A value set at a path without `*` beats every glob for that path: a
/// lookup there finds an entry of that very path, whatever wildcard
/// entries (such as a factory type override, set at `*`) also match it.
pub proof fn law_exact_path_beats_globs<V>(db: ConfigDb<V>, path: Seq<char>, field: Seq<char>, i: int)
    requires
        !path.contains('*'),
        0 <= i < db.entries().len(),
        db.entries()[i].spath() == path,
        db.entries()[i].sfield() == field,
    ensures
        lookup(db.entries(), path, field) matches Some(w) && db.entries()[w].spath() == path,
{
    let es = db.entries();
    lemma_glob_reflexive(path);
    law_miss_only_when_nothing_matches(db, path, field);
    assert(glob(path, es[i].spath()));
    let w = lookup(es, path, field)->0;
    assert(winner(es, w, path, field));
    lemma_group_head(es, i);
    let h = choose|h: int|
        0 <= h <= i && #[trigger] is_head(es, h) && es[h].spath() == es[i].spath()
            && es[h].sfield() == es[i].sfield();
    assert(candidate(es, h, path, field));
    if es[w].spath() != path {
        if glob(es[w].spath(), path) {
            lemma_glob_concrete(es[w].spath(), path);
        }
        assert(dominates(es, h, w));
    }
}

/// Among the matching globs that no other matching glob is strictly more
/// specific than, a lookup takes the highest precedence, and at equal
/// precedence the latest write.
pub proof fn law_ties_go_to_precedence_then_recency<V>(db: ConfigDb<V>, path: Seq<char>, field: Seq<char>, k: int)
    requires
        lookup(db.entries(), path, field) is Some,
        undominated(db.entries(), k, path, field),
    ensures
        ({
            let w = lookup(db.entries(), path, field)->0;
            db.entries()[w].sprec() > db.entries()[k].sprec() || (db.entries()[w].sprec()
                == db.entries()[k].sprec() && db.entries()[w].sstamp() >= db.entries()[k].sstamp())
        }),
{
    let w = choose|i: int| #[trigger] winner(db.entries(), i, path, field);
    if k != w {
        assert(outranks(db.entries(), w, k));
    }
}

/// `exists_at` holds exactly when a `get` of the same path and field, for
/// whatever type it asks, does not report `NotFound`.
pub proof fn law_exists_iff_found<V: Clone>(
    db: ConfigDb<V>,
    path: Seq<char>,
    field: Seq<char>,
    requested: Seq<char>,
    r: Result<V, ConfigError>,
)
    requires
        get_outcome(db.entries(), path, field, requested, r),
    ensures
        (exists|i: int|
            0 <= i < db.entries().len() && glob(path, #[trigger] db.entries()[i].spath())
                && db.entries()[i].sfield() == field) <==> !(r matches Err(ConfigError::NotFound { .. })),
{
    law_miss_only_when_nothing_matches(db, path, field);
}

/// How many of the indices below `n` satisfy `f`.
pub open spec fn count_where(n: nat, f: spec_fn(int) -> bool) -> nat
    decreases n,
{
    if n == 0 {
        0
    } else {
        count_where((n - 1) as nat, f) + if f(n - 1) {
            1nat
        } else {
            0nat
        }
    }
}

proof fn lemma_count_strict(n: nat, f: spec_fn(int) -> bool, g: spec_fn(int) -> bool, w: int)
    requires
        forall|j: int| 0 <= j < n && #[trigger] f(j) ==> g(j),
        0 <= w < n,
        g(w),
        !f(w),
    ensures
        count_where(n, f) < count_where(n, g),
    decreases n,
{
    if n > 0 {
        if w < n - 1 {
            lemma_count_strict((n - 1) as nat, f, g, w);
        } else {
            lemma_count_le((n - 1) as nat, f, g);
        }
    }
}

proof fn lemma_count_le(n: nat, f: spec_fn(int) -> bool, g: spec_fn(int) -> bool)
    requires
        forall|j: int| 0 <= j < n && #[trigger] f(j) ==> g(j),
    ensures
        count_where(n, f) <= count_where(n, g),
    decreases n,
{
    if n > 0 {
        lemma_count_le((n - 1) as nat, f, g);
    }
}

/// Every candidate is either undominated or dominated by an undominated
/// one, since "strictly more specific" has no cycles.
proof fn lemma_undominated_exists<V>(es: Seq<ConfigEntry<V>>, path: Seq<char>, field: Seq<char>, c: int)
    requires
        candidate(es, c, path, field),
    ensures
        exists|u: int| #[trigger] undominated(es, u, path, field),
    decreases count_where(
        es.len(),
        |j: int| candidate(es, j, path, field) && dominates(es, j, c),
    ),
{
    if !undominated(es, c, path, field) {
        let d = choose|d: int| #[trigger] candidate(es, d, path, field) && dominates(es, d, c);
        let fc = |j: int| candidate(es, j, path, field) && dominates(es, j, c);
        let fd = |j: int| candidate(es, j, path, field) && dominates(es, j, d);
        assert forall|j: int| 0 <= j < es.len() && #[trigger] fd(j) implies fc(j) by {
            lemma_glob_transitive(es[j].spath(), es[d].spath(), es[c].spath());
            if glob(es[c].spath(), es[j].spath()) {
                lemma_glob_transitive(es[d].spath(), es[c].spath(), es[j].spath());
            }
        }
        lemma_glob_reflexive(es[d].spath());
        lemma_count_strict(es.len(), fd, fc, d);
        lemma_undominated_exists(es, path, field, d);
    } else {
        assert(undominated(es, c, path, field));
    }
}

proof fn lemma_outranks_transitive<V>(es: Seq<ConfigEntry<V>>, i: int, j: int, k: int)
    requires
        outranks(es, i, j),
        outranks(es, j, k),
    ensures
        outranks(es, i, k),
{
}

proof fn lemma_outranks_total<V>(es: Seq<ConfigEntry<V>>, i: int, j: int)
    requires
        i != j,
        !outranks(es, i, j),
    ensures
        outranks(es, j, i),
{
}

/// Among the indices below `n` that satisfy `p`, if there are any, one
/// ranks above all the others.
proof fn lemma_best_below<V>(es: Seq<ConfigEntry<V>>, p: spec_fn(int) -> bool, n: int)
    requires
        0 <= n,
        exists|k: int| 0 <= k < n && #[trigger] p(k),
    ensures
        exists|b: int|
            0 <= b < n && #[trigger] p(b) && forall|k: int|
                0 <= k < n && #[trigger] p(k) && k != b ==> outranks(es, b, k),
    decreases n,
{
    let m = n - 1;
    if exists|k: int| 0 <= k < m && #[trigger] p(k) {
        lemma_best_below(es, p, m);
        let b = choose|b: int|
            0 <= b < m && #[trigger] p(b) && forall|k: int|
                0 <= k < m && #[trigger] p(k) && k != b ==> outranks(es, b, k);
        if p(m) && outranks(es, m, b) {
            assert forall|k: int| 0 <= k < n && #[trigger] p(k) && k != m implies outranks(es, m, k) by {
                if k != b {
                    lemma_outranks_transitive(es, m, b, k);
                }
            }
            assert(0 <= m < n && p(m));
        } else {
            assert forall|k: int| 0 <= k < n && #[trigger] p(k) && k != b implies outranks(es, b, k) by {
                if k == m {
                    lemma_outranks_total(es, m, b);
                }
            }
            assert(0 <= b < n && p(b));
        }
    } else {
        assert(p(m));
        assert forall|k: int| 0 <= k < n && #[trigger] p(k) && k != m implies outranks(es, m, k) by {
            assert(!(0 <= k < m && p(k)));
        }
        assert(0 <= m < n && p(m));
    }
}

proof fn lemma_first_undominated<V>(es: Seq<ConfigEntry<V>>, path: Seq<char>, field: Seq<char>, u: int)
    requires
        undominated(es, u, path, field),
    ensures
        lookup(es, path, field) is Some,
{
    let p = |k: int| undominated(es, k, path, field);
    assert(p(u));
    lemma_best_below(es, p, es.len() as int);
    let b = choose|b: int|
        0 <= b < es.len() && #[trigger] p(b) && forall|k: int|
            0 <= k < es.len() && #[trigger] p(k) && k != b ==> outranks(es, b, k);
    assert forall|k: int| #[trigger] undominated(es, k, path, field) && k != b implies outranks(es, b, k) by {
        assert(p(k));
    }
    assert(winner(es, b, path, field));
}

/// Every entry's (path, field) group has a head at or before it.
proof fn lemma_group_head<V>(es: Seq<ConfigEntry<V>>, k: int)
    requires
        0 <= k < es.len(),
    ensures
        exists|h: int|
            0 <= h <= k && #[trigger] is_head(es, h) && es[h].spath() == es[k].spath()
                && es[h].sfield() == es[k].sfield(),
    decreases k,
{
    if is_head(es, k) {
        assert(is_head(es, k));
    } else {
        lemma_group_head(es, k - 1);
        let h = choose|h: int|
            0 <= h <= k - 1 && #[trigger] is_head(es, h) && es[h].spath() == es[k - 1].spath()
                && es[h].sfield() == es[k - 1].sfield();
        assert(is_head(es, h));
    }
}

/// A read misses exactly when no glob that matches the path holds the
/// field, at any precedence: `exists_at` and a successful lookup agree.
pub proof fn law_miss_only_when_nothing_matches<V>(db: ConfigDb<V>, path: Seq<char>, field: Seq<char>)
    ensures
        lookup(db.entries(), path, field) is Some <==> exists|i: int|
            0 <= i < db.entries().len() && glob(path, #[trigger] db.entries()[i].spath())
                && db.entries()[i].sfield() == field,
{
    let es = db.entries();
    if exists|i: int| 0 <= i < es.len() && glob(path, #[trigger] es[i].spath()) && es[i].sfield() == field {
        let i = choose|i: int| 0 <= i < es.len() && glob(path, #[trigger] es[i].spath()) && es[i].sfield() == field;
        lemma_group_head(es, i);
        let h = choose|h: int|
            0 <= h <= i && #[trigger] is_head(es, h) && es[h].spath() == es[i].spath()
                && es[h].sfield() == es[i].sfield();
        assert(candidate(es, h, path, field));
        lemma_undominated_exists(es, path, field, h);
        let u = choose|u: int| #[trigger] undominated(es, u, path, field);
        lemma_first_undominated(es, path, field, u);
    }
    if lookup(es, path, field) is Some {
        let w = choose|w: int| #[trigger] winner(es, w, path, field);
        assert(glob(path, es[w].spath()) && es[w].sfield() == field);
    }
}

} // verus!
