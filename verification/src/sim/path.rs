//! `RustdvPath`: a component's position in the tree, as segments.
//!
//! A path is produced only by the walk ([`RustdvPath::root`] then
//! [`RustdvPath::child`]); prefix tests compare whole segments, so `ab` is
//! never mistaken for a child of `a`; depth is a count of segments. The
//! dotted rendering is kept beside the segments.

use vstd::prelude::*;

use crate::text::{push_char, chars_of};

verus! {

/// The dotted rendering of a segment list, built the way the walk builds it:
/// each new segment is appended after a `.`, unless nothing has been
/// rendered yet.
pub open spec fn render(segs: Seq<Seq<char>>) -> Seq<char>
    decreases segs.len(),
{
    if segs.len() == 0 {
        Seq::empty()
    } else {
        let before = render(segs.drop_last());
        if before.len() == 0 {
            segs.last()
        } else {
            before + seq!['.'] + segs.last()
        }
    }
}

/// `s` split at every `.`, as `str::split('.')` does: `""` is one empty
/// segment, and a trailing dot yields an empty last segment.
pub open spec fn split_dots(s: Seq<char>) -> Seq<Seq<char>>
    decreases s.len(),
{
    if s.len() == 0 {
        seq![Seq::empty()]
    } else {
        let r = split_dots(s.drop_last());
        if s.last() == '.' {
            r.push(Seq::empty())
        } else {
            r.update(r.len() - 1, r.last().push(s.last()))
        }
    }
}

proof fn lemma_split_dots_nonempty(s: Seq<char>)
    ensures
        split_dots(s).len() >= 1,
    decreases s.len(),
{
    if s.len() > 0 {
        lemma_split_dots_nonempty(s.drop_last());
    }
}

/// Is the segment list `path` at or below `prefix`?
pub open spec fn segs_under(path: Seq<Seq<char>>, prefix: Seq<Seq<char>>) -> bool {
    prefix.len() <= path.len() && path.subrange(0, prefix.len() as int) == prefix
}

/// Segment-wise "is `path` at or below `prefix`?" on the dotted forms; the
/// empty prefix is the root of everything.
pub open spec fn spec_str_is_under(path: Seq<char>, prefix: Seq<char>) -> bool {
    prefix.len() == 0 || segs_under(split_dots(path), split_dots(prefix))
}

pub struct RustdvPath {
    segments: Vec<String>,
    rendered: String,
}

impl View for RustdvPath {
    type V = Seq<Seq<char>>;

    closed spec fn view(&self) -> Seq<Seq<char>> {
        self.segments@.map_values(|s: String| s@)
    }
}

impl RustdvPath {
    #[verifier::type_invariant]
    closed spec fn inv(self) -> bool {
        self.rendered@ == render(self.segments@.map_values(|s: String| s@))
    }

    /// The root of a tree: the test's registered name.
    pub fn root(name: &str) -> (p: RustdvPath)
        ensures
            p@ == seq![name@],
    {
        let mut segments: Vec<String> = Vec::new();
        segments.push(name.to_owned());
        let rendered = name.to_owned();
        assert(segments@.map_values(|s: String| s@) =~= seq![name@]);
        assert(seq![name@].drop_last() =~= Seq::<Seq<char>>::empty());
        assert(render(seq![name@]) == name@) by {
            reveal_with_fuel(render, 2);
        }
        RustdvPath { segments, rendered }
    }

    /// A path with no segments, for contexts with no position.
    pub fn empty() -> (p: RustdvPath)
        ensures
            p@ == Seq::<Seq<char>>::empty(),
    {
        let p = RustdvPath { segments: Vec::new(), rendered: String::new() };
        assert(p.segments@.map_values(|s: String| s@) =~= Seq::<Seq<char>>::empty());
        p
    }

    /// This path extended by one segment.
    pub fn child(&self, name: &str) -> (p: RustdvPath)
        ensures
            p@ == self@.push(name@),
    {
        proof {
            use_type_invariant(self);
        }
        let mut segments = self.segments.clone();
        assert(segments@ == self.segments@);
        segments.push(name.to_owned());
        let rendered = if self.rendered.unicode_len() == 0 {
            name.to_owned()
        } else {
            let mut r = self.rendered.clone();
            push_char(&mut r, '.');
            r.append(name);
            r
        };
        assert(segments@.map_values(|s: String| s@) =~= self@.push(name@));
        assert(self@.push(name@).drop_last() =~= self@);
        assert(render(self@.push(name@)) == rendered@);
        RustdvPath { segments, rendered }
    }

    /// The dotted form, e.g. `RandomTest.env.scoreboard`.
    pub fn as_str(&self) -> (s: &str)
        ensures
            s@ == render(self@),
    {
        proof {
            use_type_invariant(self);
        }
        self.rendered.as_str()
    }

    pub fn segments(&self) -> (s: &[String])
        ensures
            s@.map_values(|x: String| x@) == self@,
    {
        self.segments.as_slice()
    }

    /// How deep this node sits: the root is depth 1, an empty path 0.
    pub fn depth(&self) -> (d: usize)
        ensures
            d == self@.len(),
    {
        self.segments.len()
    }

    pub fn is_empty(&self) -> (b: bool)
        ensures
            b == (self@.len() == 0),
    {
        self.segments.len() == 0
    }

    /// Is this path at or below `prefix`? Segment-wise, so `a.b` is under
    /// `a` and `ab` is not.
    pub fn is_under(&self, prefix: &RustdvPath) -> (b: bool)
        ensures
            b == segs_under(self@, prefix@),
    {
        let n = prefix.segments.len();
        if n > self.segments.len() {
            return false;
        }
        let mut i: usize = 0;
        while i < n
            invariant
                n == prefix@.len(),
                n <= self@.len(),
                i <= n,
                forall|j: int| 0 <= j < i ==> self@[j] == prefix@[j],
            decreases n - i,
        {
            if self.segments[i] != prefix.segments[i] {
                assert(self@.subrange(0, n as int)[i as int] != prefix@[i as int]);
                return false;
            }
            i = i + 1;
        }
        assert(self@.subrange(0, n as int) =~= prefix@);
        true
    }
}

/// Splits `s` at every `.` into character vectors.
fn split_dots_exec(s: &str) -> (v: Vec<Vec<char>>)
    ensures
        v@.map_values(|x: Vec<char>| x@) == split_dots(s@),
{
    let cs = chars_of(s);
    let mut v: Vec<Vec<char>> = Vec::new();
    v.push(Vec::new());
    let mut i: usize = 0;
    assert(s@.subrange(0, 0) =~= Seq::<char>::empty());
    assert(v@.map_values(|x: Vec<char>| x@) =~= split_dots(Seq::<char>::empty()));
    while i < cs.len()
        invariant
            cs@ == s@,
            i <= cs.len(),
            v@.map_values(|x: Vec<char>| x@) == split_dots(s@.subrange(0, i as int)),
            v.len() >= 1,
        decreases cs.len() - i,
    {
        let c = cs[i];
        let ghost pre = s@.subrange(0, i as int);
        let ghost post = s@.subrange(0, i + 1);
        assert(post.drop_last() =~= pre);
        assert(post.last() == c);
        if c == '.' {
            v.push(Vec::new());
            assert(v@.map_values(|x: Vec<char>| x@) =~= split_dots(pre).push(Seq::empty()));
        } else {
            let last = v.len() - 1;
            let mut seg = v.pop().unwrap();
            let ghost old_seg = seg@;
            seg.push(c);
            v.push(seg);
            assert(v@.map_values(|x: Vec<char>| x@) =~= split_dots(pre).update(
                last as int,
                old_seg.push(c),
            ));
        }
        i = i + 1;
    }
    assert(s@.subrange(0, cs.len() as int) =~= s@);
    v
}

/// Do two character vectors hold the same characters?
fn chars_eq(a: &Vec<char>, b: &Vec<char>) -> (r: bool)
    ensures
        r == (a@ == b@),
{
    if a.len() != b.len() {
        return false;
    }
    let mut i: usize = 0;
    while i < a.len()
        invariant
            a.len() == b.len(),
            i <= a.len(),
            forall|j: int| 0 <= j < i ==> a@[j] == b@[j],
        decreases a.len() - i,
    {
        if a[i] != b[i] {
            return false;
        }
        i = i + 1;
    }
    assert(a@ =~= b@);
    true
}

/// Segment-wise "is `path` at or below `prefix`?" for the dotted string
/// form; the empty prefix matches everything.
pub fn str_is_under(path: &str, prefix: &str) -> (b: bool)
    ensures
        b == spec_str_is_under(path@, prefix@),
{
    if prefix.unicode_len() == 0 {
        return true;
    }
    let have = split_dots_exec(path);
    let want = split_dots_exec(prefix);
    let ghost hv = have@.map_values(|x: Vec<char>| x@);
    let ghost wv = want@.map_values(|x: Vec<char>| x@);
    assert(hv.len() == have.len());
    assert(wv.len() == want.len());
    if want.len() > have.len() {
        return false;
    }
    let mut i: usize = 0;
    while i < want.len()
        invariant
            hv == have@.map_values(|x: Vec<char>| x@),
            wv == want@.map_values(|x: Vec<char>| x@),
            hv == split_dots(path@),
            wv == split_dots(prefix@),
            prefix@.len() != 0,
            want.len() <= have.len(),
            i <= want.len(),
            forall|j: int| 0 <= j < i ==> hv[j] == wv[j],
        decreases want.len() - i,
    {
        if !chars_eq(&have[i], &want[i]) {
            assert(hv[i as int] == have@[i as int]@);
            assert(wv[i as int] == want@[i as int]@);
            assert(hv.subrange(0, wv.len() as int)[i as int] != wv[i as int]);
            return false;
        }
        i = i + 1;
    }
    assert(hv.subrange(0, wv.len() as int) =~= wv);
    true
}

/// A path is under itself, and a child is under its parent and under every
/// path its parent is under; nothing longer is under a shorter path's child
/// unless it extends that child.
pub proof fn law_child_is_under_parent(parent: Seq<Seq<char>>, name: Seq<char>, ancestor: Seq<Seq<char>>)
    ensures
        segs_under(parent, parent),
        segs_under(parent.push(name), parent),
        segs_under(parent, ancestor) ==> segs_under(parent.push(name), ancestor),
        !segs_under(parent, parent.push(name)),
{
    assert(parent.subrange(0, parent.len() as int) =~= parent);
    assert(parent.push(name).subrange(0, parent.len() as int) =~= parent);
    if segs_under(parent, ancestor) {
        assert(parent.push(name).subrange(0, ancestor.len() as int) =~= parent.subrange(
            0,
            ancestor.len() as int,
        ));
    }
}

} // verus!
