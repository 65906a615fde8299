//! The regression manager's decisions: how a test's run is scored against
//! its expectations, and which registered tests a `RUSTDV_TESTCASE` filter
//! selects. Running the tests, timing them and printing the table are the
//! application's part.

use vstd::prelude::*;
use vstd::string::*;

use crate::methodology::error::TestError;
use crate::sim::executor::TaskError;
use crate::text::{chars_of, decimal, push_char, push_decimal, string_from_chars, to_string};

verus! {

/// How one test ended.
pub enum Outcome {
    Pass,
    /// `kind` is the machine-readable cause, when the failure had one.
    Fail { msg: String, kind: Option<&'static str> },
    Skip,
}

/// An outcome as plain values: 0 pass, 1 fail (with message and kind),
/// 2 skip.
pub type OutcomeView = (int, Seq<char>, Option<Seq<char>>);

pub open spec fn kind_view(k: Option<&'static str>) -> Option<Seq<char>> {
    match k {
        None => None,
        Some(s) => Some(s@),
    }
}

impl Outcome {
    pub open spec fn view_of(&self) -> OutcomeView {
        match self {
            Outcome::Pass => (0, Seq::empty(), None),
            Outcome::Fail { msg, kind } => (1, msg@, kind_view(*kind)),
            Outcome::Skip => (2, Seq::empty(), None),
        }
    }

    pub fn is_pass(&self) -> (b: bool)
        ensures
            b == (self.view_of().0 == 0),
    {
        match self {
            Outcome::Pass => true,
            _ => false,
        }
    }

    pub fn is_fail(&self) -> (b: bool)
        ensures
            b == (self.view_of().0 == 1),
    {
        match self {
            Outcome::Fail { .. } => true,
            _ => false,
        }
    }
}

/// What running the test's body produced.
pub enum RunResult {
    /// The timeout fired first.
    TimedOut,
    /// The test's task ended without a value.
    TaskFailed(TaskError),
    /// The body returned.
    Finished(Result<(), TestError>),
}

pub open spec fn fail_view(msg: Seq<char>) -> OutcomeView {
    (1, msg, None)
}

/// The outcome of the body alone.
pub open spec fn raw_outcome(raw: RunResult, timeout: Option<(u64, Seq<char>)>) -> OutcomeView {
    match raw {
        RunResult::TimedOut => match timeout {
            Some((n, unit)) => fail_view("timeout after "@ + decimal(n as nat) + unit),
            None => fail_view(Seq::empty()),
        },
        RunResult::TaskFailed(e) => fail_view("test task: "@ + e.message()),
        RunResult::Finished(Err(e)) => (1, e.spec_message(), e.spec_kind()),
        RunResult::Finished(Ok(())) => (0, Seq::empty(), None),
    }
}

/// A failure in a background task fails a test whose body passed.
pub open spec fn with_background(o: OutcomeView, background: Option<Seq<char>>) -> OutcomeView {
    match background {
        Some(b) => if o.0 == 0 {
            fail_view(b)
        } else {
            o
        },
        None => o,
    }
}

/// The outcome judged against the test's expectation: an expected error
/// passes only a failure of that kind; an expected failure passes any.
pub open spec fn expected_outcome(
    o: OutcomeView,
    expect_error: Option<Seq<char>>,
    expect_fail: bool,
) -> OutcomeView {
    match expect_error {
        Some(x) => if o.0 == 0 {
            fail_view("expected error '"@ + x + "' but test passed"@)
        } else if o.0 == 1 {
            if o.2 == Some(x) {
                (0, Seq::empty(), None)
            } else {
                fail_view(
                    "expected error '"@ + x + "', got "@ + match o.2 {
                        Some(k) => k,
                        None => "an unclassified failure"@,
                    } + ": "@ + o.1,
                )
            }
        } else {
            o
        },
        None => if expect_fail {
            if o.0 == 0 {
                fail_view("expected failure but test passed"@)
            } else if o.0 == 1 {
                (0, Seq::empty(), None)
            } else {
                o
            }
        } else {
            o
        },
    }
}

pub open spec fn timeout_view(t: Option<(u64, &str)>) -> Option<(u64, Seq<char>)> {
    match t {
        None => None,
        Some(p) => Some((p.0, p.1@)),
    }
}

fn fail(msg: String) -> (o: Outcome)
    ensures
        o.view_of() == fail_view(msg@),
{
    Outcome::Fail { msg, kind: None }
}

/// Score one test: the body's result, then a background failure, then the
/// expectation.
pub fn score(
    raw: RunResult,
    timeout: Option<(u64, &str)>,
    background: Option<String>,
    expect_error: Option<&'static str>,
    expect_fail: bool,
) -> (o: Outcome)
    requires
        raw is TimedOut ==> timeout is Some,
    ensures
        o.view_of() == expected_outcome(
            with_background(
                raw_outcome(raw, timeout_view(timeout)),
                match background {
                    None => None,
                    Some(b) => Some(b@),
                },
            ),
            kind_view(expect_error),
            expect_fail,
        ),
{
    let ghost raw_spec = raw;
    let mut outcome = match raw {
        RunResult::TimedOut => {
            let (n, unit) = timeout.unwrap();
            let mut m = to_string("timeout after ");
            push_decimal(&mut m, n);
            m.append(unit);
            fail(m)
        },
        RunResult::TaskFailed(e) => {
            let mut m = to_string("test task: ");
            let t = e.to_string();
            m.append(t.as_str());
            fail(m)
        },
        RunResult::Finished(Err(e)) => {
            let kind = e.kind();
            Outcome::Fail { msg: e.to_string(), kind }
        },
        RunResult::Finished(Ok(())) => Outcome::Pass,
    };
    assert(outcome.view_of() == raw_outcome(raw_spec, timeout_view(timeout)));
    match background {
        Some(bg) => {
            if outcome.is_pass() {
                outcome = fail(bg);
            }
        },
        None => {},
    }
    let ghost before = outcome.view_of();
    match expect_error {
        Some(expected) => {
            outcome = match outcome {
                Outcome::Pass => {
                    let mut m = to_string("expected error '");
                    m.append(expected);
                    m.append("' but test passed");
                    fail(m)
                },
                Outcome::Fail { msg, kind } => {
                    let same = match kind {
                        Some(k) => crate::text::str_eq(k, expected),
                        None => false,
                    };
                    if same {
                        Outcome::Pass
                    } else {
                        let mut m = to_string("expected error '");
                        m.append(expected);
                        m.append("', got ");
                        match kind {
                            Some(k) => m.append(k),
                            None => m.append("an unclassified failure"),
                        }
                        m.append(": ");
                        m.append(msg.as_str());
                        fail(m)
                    }
                },
                Outcome::Skip => Outcome::Skip,
            };
        },
        None => {
            if expect_fail {
                outcome = match outcome {
                    Outcome::Pass => fail(to_string("expected failure but test passed")),
                    Outcome::Fail { .. } => Outcome::Pass,
                    Outcome::Skip => Outcome::Skip,
                };
            }
        },
    }
    outcome
}

// ---------------------------------------------------------------------------
// The test filter
// ---------------------------------------------------------------------------

/// `char::is_whitespace`: the Unicode `White_Space` property.
pub open spec fn is_ws(c: char) -> bool {
    ('\u{9}' <= c <= '\u{d}') || c == ' ' || c == '\u{85}' || c == '\u{a0}' || c == '\u{1680}'
        || ('\u{2000}' <= c <= '\u{200a}') || c == '\u{2028}' || c == '\u{2029}' || c == '\u{202f}'
        || c == '\u{205f}' || c == '\u{3000}'
}

pub(crate) fn is_ws_exec(c: char) -> (b: bool)
    ensures
        b == is_ws(c),
{
    ('\u{9}' <= c && c <= '\u{d}') || c == ' ' || c == '\u{85}' || c == '\u{a0}' || c == '\u{1680}'
        || ('\u{2000}' <= c && c <= '\u{200a}') || c == '\u{2028}' || c == '\u{2029}' || c
        == '\u{202f}' || c == '\u{205f}' || c == '\u{3000}'
}

/// `s` without leading and trailing whitespace (`str::trim`).
pub open spec fn trim(s: Seq<char>) -> Seq<char>
    decreases s.len(),
{
    if s.len() > 0 && is_ws(s[0]) {
        trim(s.drop_first())
    } else if s.len() > 0 && is_ws(s.last()) {
        trim(s.drop_last())
    } else {
        s
    }
}

/// `s` with ASCII capitals lowered (`str::to_ascii_lowercase`).
pub open spec fn lower(s: Seq<char>) -> Seq<char> {
    s.map_values(|c: char| if 'A' <= c <= 'Z' {
        ((c as u32) + 32) as char
    } else {
        c
    })
}

/// `s` split at every `,` (`str::split(',')`).
pub open spec fn split_commas(s: Seq<char>) -> Seq<Seq<char>>
    decreases s.len(),
{
    if s.len() == 0 {
        seq![Seq::empty()]
    } else {
        let r = split_commas(s.drop_last());
        if s.last() == ',' {
            r.push(Seq::empty())
        } else {
            r.update(r.len() - 1, r.last().push(s.last()))
        }
    }
}

/// The filter's patterns: the comma-separated parts, trimmed and lowered,
/// the empty ones dropped.
pub open spec fn patterns(raw: Seq<char>) -> Seq<Seq<char>> {
    split_commas(raw).map_values(|p: Seq<char>| lower(trim(p))).filter(|p: Seq<char>| p.len() > 0)
}

/// Does `pat` occur in `s`?
pub open spec fn contains_sub(s: Seq<char>, pat: Seq<char>) -> bool {
    exists|i: int| 0 <= i && i + pat.len() <= s.len() && #[trigger] s.subrange(i, i + pat.len()) == pat
}

/// Is a test of this name selected by these patterns?
pub open spec fn selected(name: Seq<char>, pats: Seq<Seq<char>>) -> bool {
    exists|k: int| 0 <= k < pats.len() && contains_sub(lower(name), #[trigger] pats[k])
}

/// The indices below `n` of the selected names, in order.
pub open spec fn kept(names: Seq<Seq<char>>, pats: Seq<Seq<char>>, n: nat) -> Seq<usize>
    decreases n,
{
    if n == 0 {
        Seq::empty()
    } else {
        let r = kept(names, pats, (n - 1) as nat);
        if selected(names[n - 1], pats) {
            r.push((n - 1) as usize)
        } else {
            r
        }
    }
}

fn lower_exec(s: &Vec<char>) -> (r: Vec<char>)
    ensures
        r@ == lower(s@),
{
    let mut r: Vec<char> = Vec::new();
    let mut i: usize = 0;
    while i < s.len()
        invariant
            i <= s.len(),
            r@ == lower(s@.subrange(0, i as int)),
        decreases s.len() - i,
    {
        let c = s[i];
        let d = if 'A' <= c && c <= 'Z' {
            ((c as u8) + 32) as char
        } else {
            c
        };
        r.push(d);
        i = i + 1;
        assert(r@ =~= lower(s@.subrange(0, i as int)));
    }
    assert(s@.subrange(0, s.len() as int) =~= s@);
    r
}

pub(crate) fn trim_chars(s: &Vec<char>) -> (r: Vec<char>)
    ensures
        r@ == trim(s@),
{
    let mut a: usize = 0;
    let mut b: usize = s.len();
    assert(s@.subrange(0, s.len() as int) =~= s@);
    while a < b && is_ws_exec(s[a])
        invariant
            a <= b <= s.len(),
            trim(s@) == trim(s@.subrange(a as int, b as int)),
        decreases b - a,
    {
        assert(s@.subrange(a as int, b as int).drop_first() =~= s@.subrange(a + 1, b as int));
        a = a + 1;
    }
    while a < b && is_ws_exec(s[b - 1])
        invariant
            a <= b <= s.len(),
            trim(s@) == trim(s@.subrange(a as int, b as int)),
            a < b ==> !is_ws(s@[a as int]),
        decreases b - a,
    {
        assert(s@.subrange(a as int, b as int).drop_last() =~= s@.subrange(a as int, b - 1));
        b = b - 1;
    }
    let mut r: Vec<char> = Vec::new();
    let mut k: usize = a;
    while k < b
        invariant
            a <= k <= b <= s.len(),
            r@ == s@.subrange(a as int, k as int),
        decreases b - k,
    {
        r.push(s[k]);
        k = k + 1;
        assert(r@ =~= s@.subrange(a as int, k as int));
    }
    r
}

pub(crate) fn contains_exec(s: &Vec<char>, pat: &Vec<char>) -> (b: bool)
    ensures
        b == contains_sub(s@, pat@),
{
    if pat.len() > s.len() {
        return false;
    }
    let mut i: usize = 0;
    while i <= s.len() - pat.len()
        invariant
            pat.len() <= s.len(),
            i <= s.len() - pat.len() + 1,
            forall|j: int| 0 <= j < i ==> #[trigger] s@.subrange(j, j + pat.len()) != pat@,
        decreases s.len() - i,
    {
        let mut k: usize = 0;
        let mut same = true;
        while k < pat.len()
            invariant
                i + pat.len() <= s.len(),
                k <= pat.len(),
                same == (forall|m: int| 0 <= m < k ==> s@[i + m] == pat@[m]),
            decreases pat.len() - k,
        {
            if s[i + k] != pat[k] {
                same = false;
            }
            k = k + 1;
        }
        if same {
            assert(s@.subrange(i as int, i + pat.len()) =~= pat@);
            return true;
        }
        assert(s@.subrange(i as int, i + pat.len()) != pat@) by {
            let m = choose|m: int| 0 <= m < pat.len() && s@[i + m] != pat@[m];
            assert(s@.subrange(i as int, i + pat.len())[m] == s@[i + m]);
        }
        i = i + 1;
    }
    false
}

/// `RUSTDV_TESTCASE`: with a filter, only the tests whose names contain one
/// of its comma-separated patterns run, compared case-insensitively. A
/// filter that selects nothing is an error, not an empty pass. Returns the
/// indices of the selected tests.
pub fn apply_testcase_filter(names: &Vec<String>, raw: Option<&str>) -> (r: Result<Vec<usize>, String>)
    ensures
        ({
            let ns = names@.map_values(|s: String| s@);
            let all = Seq::new(names@.len(), |i: int| i as usize);
            match raw {
                None => r matches Ok(v) && v@ == all,
                Some(f) => {
                    let pats = patterns(f@);
                    if pats.len() == 0 {
                        r matches Ok(v) && v@ == all
                    } else if kept(ns, pats, ns.len()).len() == 0 {
                        r matches Err(m) && m@ == "RUSTDV_TESTCASE="@ + f@ + " matched no test"@
                    } else {
                        r matches Ok(v) && v@ == kept(ns, pats, ns.len())
                    }
                },
            }
        }),
{
    let ghost ns = names@.map_values(|s: String| s@);
    let mut all: Vec<usize> = Vec::new();
    let mut i: usize = 0;
    while i < names.len()
        invariant
            i <= names.len(),
            all@ == Seq::new(i as nat, |j: int| j as usize),
        decreases names.len() - i,
    {
        all.push(i);
        i = i + 1;
        assert(all@ =~= Seq::new(i as nat, |j: int| j as usize));
    }
    let f = match raw {
        None => {
            return Ok(all);
        },
        Some(f) => f,
    };
    let pats = split_patterns(f);
    if pats.len() == 0 {
        return Ok(all);
    }
    let ghost ps = patterns(f@);
    let mut out: Vec<usize> = Vec::new();
    let mut i: usize = 0;
    while i < names.len()
        invariant
            ns == names@.map_values(|s: String| s@),
            ps == patterns(f@),
            pats@.map_values(|p: Vec<char>| p@) == ps,
            i <= names.len(),
            out@ == kept(ns, ps, i as nat),
        decreases names.len() - i,
    {
        let name = lower_exec(&chars_of(names[i].as_str()));
        let mut k: usize = 0;
        let mut hit = false;
        while k < pats.len()
            invariant
                pats@.map_values(|p: Vec<char>| p@) == ps,
                k <= pats.len(),
                name@ == lower(ns[i as int]),
                ns == names@.map_values(|s: String| s@),
                i < names.len(),
                hit == (exists|m: int| 0 <= m < k && contains_sub(lower(ns[i as int]), #[trigger] ps[m])),
            decreases pats.len() - k,
        {
            let c = contains_exec(&name, &pats[k]);
            proof {
                assert(pats@[k as int]@ == ps[k as int]);
                if c {
                    assert(contains_sub(lower(ns[i as int]), ps[k as int]));
                }
            }
            if c {
                hit = true;
            }
            k = k + 1;
        }
        if hit {
            out.push(i);
        }
        i = i + 1;
    }
    if out.len() == 0 {
        let mut m = to_string("RUSTDV_TESTCASE=");
        m.append(f);
        m.append(" matched no test");
        return Err(m);
    }
    Ok(out)
}

fn split_patterns(f: &str) -> (pats: Vec<Vec<char>>)
    ensures
        pats@.map_values(|p: Vec<char>| p@) == patterns(f@),
{
    let cs = chars_of(f);
    let mut parts: Vec<Vec<char>> = Vec::new();
    let mut cur: Vec<char> = Vec::new();
    let mut i: usize = 0;
    assert(cs@.subrange(0, 0) =~= Seq::<char>::empty());
    while i < cs.len()
        invariant
            cs@ == f@,
            i <= cs.len(),
            parts@.map_values(|p: Vec<char>| p@).push(cur@) == split_commas(cs@.subrange(0, i as int)),
        decreases cs.len() - i,
    {
        let ghost prev = parts@.map_values(|p: Vec<char>| p@).push(cur@);
        assert(cs@.subrange(0, i + 1).drop_last() =~= cs@.subrange(0, i as int));
        if cs[i] == ',' {
            let done = cur;
            parts.push(done);
            cur = Vec::new();
            assert(parts@.map_values(|p: Vec<char>| p@).push(cur@) =~= prev.push(Seq::empty()));
        } else {
            cur.push(cs[i]);
            assert(parts@.map_values(|p: Vec<char>| p@).push(cur@) =~= prev.update(
                prev.len() - 1,
                prev.last().push(cs@[i as int]),
            ));
        }
        i = i + 1;
    }
    assert(cs@.subrange(0, cs.len() as int) =~= cs@);
    parts.push(cur);
    let ghost split = parts@.map_values(|p: Vec<char>| p@);
    let mut out: Vec<Vec<char>> = Vec::new();
    let mut k: usize = 0;
    while k < parts.len()
        invariant
            split == parts@.map_values(|p: Vec<char>| p@),
            split == split_commas(f@),
            k <= parts.len(),
            out@.map_values(|p: Vec<char>| p@) == split.subrange(0, k as int).map_values(
                |p: Seq<char>| lower(trim(p)),
            ).filter(|p: Seq<char>| p.len() > 0),
        decreases parts.len() - k,
    {
        let t = lower_exec(&trim_chars(&parts[k]));
        proof {
            let s0 = split.subrange(0, k as int).map_values(|p: Seq<char>| lower(trim(p)));
            let s1 = split.subrange(0, k + 1).map_values(|p: Seq<char>| lower(trim(p)));
            assert(s1.drop_last() =~= s0);
            reveal_with_fuel(Seq::filter, 1);
        }
        if t.len() > 0 {
            out.push(t);
        }
        k = k + 1;
        proof {
            assert(out@.map_values(|p: Vec<char>| p@) =~= split.subrange(0, k as int).map_values(
                |p: Seq<char>| lower(trim(p)),
            ).filter(|p: Seq<char>| p.len() > 0));
        }
    }
    assert(split.subrange(0, parts.len() as int) =~= split);
    out
}

/// The seed of the `i`-th test: the regression's seed plus its index,
/// wrapping.
pub fn test_seed(seed: u64, i: u64) -> (s: u64)
    ensures
        s == (seed as int + i as int) % 0x1_0000_0000_0000_0000,
{
    let s = seed.wrapping_add(i);
    assert(s == (seed as int + i as int) % 0x1_0000_0000_0000_0000) by (nonlinear_arith)
        requires
            s == if seed as int + i as int > u64::MAX {
                seed as int + i as int - 0x1_0000_0000_0000_0000
            } else {
                seed as int + i as int
            },
    ;
    s
}

/// The regression fails when any test failed.
pub fn regression_failed(outcomes: &Vec<Outcome>) -> (b: bool)
    ensures
        b == exists|i: int| 0 <= i < outcomes@.len() && (#[trigger] outcomes@[i]).view_of().0 == 1,
{
    let mut i: usize = 0;
    while i < outcomes.len()
        invariant
            i <= outcomes.len(),
            forall|j: int| 0 <= j < i ==> (#[trigger] outcomes@[j]).view_of().0 != 1,
        decreases outcomes.len() - i,
    {
        if outcomes[i].is_fail() {
            return true;
        }
        i = i + 1;
    }
    false
}

/// A failure message made safe for an XML attribute: `"` becomes `'`, `<`
/// and `>` become `(` and `)`.
pub open spec fn xml_safe(m: Seq<char>) -> Seq<char> {
    m.map_values(|c: char| if c == '"' {
        '\''
    } else if c == '<' {
        '('
    } else if c == '>' {
        ')'
    } else {
        c
    })
}

pub fn xml_safe_message(m: &str) -> (r: String)
    ensures
        r@ == xml_safe(m@),
{
    let cs = chars_of(m);
    let mut out: Vec<char> = Vec::new();
    let mut i: usize = 0;
    while i < cs.len()
        invariant
            cs@ == m@,
            i <= cs.len(),
            out@ == xml_safe(cs@.subrange(0, i as int)),
        decreases cs.len() - i,
    {
        let c = cs[i];
        let d = if c == '"' {
            '\''
        } else if c == '<' {
            '('
        } else if c == '>' {
            ')'
        } else {
            c
        };
        out.push(d);
        i = i + 1;
        assert(out@ =~= xml_safe(cs@.subrange(0, i as int)));
    }
    assert(cs@.subrange(0, cs.len() as int) =~= cs@);
    string_from_chars(&out)
}

} // verus!
