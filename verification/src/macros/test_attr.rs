//! The test attribute: its options, read from the attribute's tokens, the
//! name of the function it marks, and the registration it emits for it.

use vstd::prelude::*;

use crate::macros::tokens::{
    ident_is, is_ident, is_literal, is_punct, literal_is, punct_is, Token,
};
use crate::text::{chars_of, parse_u64, str_eq, string_from_chars, to_string, u64_from_str};

verus! {

/// What `#[rustdv::test(...)]` was asked for.
pub struct TestOpts {
    pub name: Option<String>,
    pub timeout_time: Option<u64>,
    pub timeout_unit: Option<String>,
    pub skip: bool,
    pub expect_fail: bool,
}

pub struct TestOptsView {
    pub name: Option<Seq<char>>,
    pub timeout_time: Option<u64>,
    pub timeout_unit: Option<Seq<char>>,
    pub skip: bool,
    pub expect_fail: bool,
}

pub open spec fn string_opt_view(o: Option<String>) -> Option<Seq<char>> {
    match o {
        None => None,
        Some(s) => Some(s@),
    }
}

impl View for TestOpts {
    type V = TestOptsView;

    open spec fn view(&self) -> TestOptsView {
        TestOptsView {
            name: string_opt_view(self.name),
            timeout_time: self.timeout_time,
            timeout_unit: string_opt_view(self.timeout_unit),
            skip: self.skip,
            expect_fail: self.expect_fail,
        }
    }
}

/// No option given.
pub open spec fn no_opts() -> TestOptsView {
    TestOptsView { name: None, timeout_time: None, timeout_unit: None, skip: false, expect_fail: false }
}

/// Why the attribute's options were refused.
pub enum OptsError {
    /// Neither an option name nor a `,`: the token's text.
    UnexpectedToken(String),
    /// `key =` not followed by a literal or an identifier; `got` is the
    /// position of the token found there, if any.
    ExpectedValue { key: String, got: Option<usize> },
    /// `timeout_time` without a value.
    MissingTimeout,
    /// A `timeout_time` that is not a `u64`: its text.
    BadTimeout(String),
    UnknownOption(String),
}

pub enum OptsErrorView {
    UnexpectedToken(Seq<char>),
    ExpectedValue(Seq<char>, Option<usize>),
    MissingTimeout,
    BadTimeout(Seq<char>),
    UnknownOption(Seq<char>),
}

impl View for OptsError {
    type V = OptsErrorView;

    open spec fn view(&self) -> OptsErrorView {
        match self {
            OptsError::UnexpectedToken(t) => OptsErrorView::UnexpectedToken(t@),
            OptsError::ExpectedValue { key, got } => OptsErrorView::ExpectedValue(key@, *got),
            OptsError::MissingTimeout => OptsErrorView::MissingTimeout,
            OptsError::BadTimeout(v) => OptsErrorView::BadTimeout(v@),
            OptsError::UnknownOption(k) => OptsErrorView::UnknownOption(k@),
        }
    }
}

pub open spec fn opts_result_view(r: Result<TestOpts, OptsError>) -> Result<TestOptsView, OptsErrorView> {
    match r {
        Ok(o) => Ok(o@),
        Err(e) => Err(e@),
    }
}

impl OptsError {
    /// The compile error's text. `None` for `ExpectedValue`, whose text
    /// shows the offending token as only its holder can print it.
    pub fn message(&self) -> (m: Option<String>)
        ensures
            match self@ {
                OptsErrorView::UnexpectedToken(t) => m matches Some(s)
                    && s@ == "unexpected token in #[rustdv::test(...)]: "@ + t,
                OptsErrorView::ExpectedValue(_, _) => m is None,
                OptsErrorView::MissingTimeout => m matches Some(s) && s@
                    == "timeout_time needs a value"@,
                OptsErrorView::BadTimeout(v) => m matches Some(s) && s@ == "bad timeout_time '"@
                    + v + "'"@,
                OptsErrorView::UnknownOption(k) => m matches Some(s) && s@
                    == "unknown #[rustdv::test] option '"@ + k + "'"@,
            },
    {
        match self {
            OptsError::UnexpectedToken(t) => {
                let mut s = to_string("unexpected token in #[rustdv::test(...)]: ");
                s.append(t.as_str());
                Some(s)
            },
            OptsError::ExpectedValue { .. } => None,
            OptsError::MissingTimeout => Some(to_string("timeout_time needs a value")),
            OptsError::BadTimeout(v) => {
                let mut s = to_string("bad timeout_time '");
                s.append(v.as_str());
                s.append("'");
                Some(s)
            },
            OptsError::UnknownOption(k) => {
                let mut s = to_string("unknown #[rustdv::test] option '");
                s.append(k.as_str());
                s.append("'");
                Some(s)
            },
        }
    }
}

/// `s` without its leading run of `c`.
pub open spec fn drop_lead(s: Seq<char>, c: char) -> Seq<char>
    decreases s.len(),
{
    if s.len() > 0 && s[0] == c {
        drop_lead(s.drop_first(), c)
    } else {
        s
    }
}

/// `s` without its trailing run of `c`.
pub open spec fn drop_trail(s: Seq<char>, c: char) -> Seq<char>
    decreases s.len(),
{
    if s.len() > 0 && s.last() == c {
        drop_trail(s.drop_last(), c)
    } else {
        s
    }
}

/// `s.trim_matches('"')`.
pub open spec fn unquoted(s: Seq<char>) -> Seq<char> {
    drop_trail(drop_lead(s, '"'), '"')
}

/// A string literal's text without the quotes around it.
pub fn strip_quotes(s: &str) -> (r: String)
    ensures
        r@ == unquoted(s@),
{
    let cs = chars_of(s);
    let n = cs.len();
    let mut a: usize = 0;
    assert(cs@.subrange(0, n as int) =~= cs@);
    while a < n && cs[a] == '"'
        invariant
            a <= n == cs@.len(),
            drop_lead(s@, '"') == drop_lead(cs@.subrange(a as int, n as int), '"'),
        decreases n - a,
    {
        assert(cs@.subrange(a as int, n as int).drop_first() =~= cs@.subrange(a + 1, n as int));
        a = a + 1;
    }
    let mut b: usize = n;
    assert(drop_lead(s@, '"') == cs@.subrange(a as int, b as int));
    while b > a && cs[b - 1] == '"'
        invariant
            a <= b <= n == cs@.len(),
            unquoted(s@) == drop_trail(cs@.subrange(a as int, b as int), '"'),
        decreases b - a,
    {
        assert(cs@.subrange(a as int, b as int).drop_last() =~= cs@.subrange(a as int, b - 1));
        b = b - 1;
    }
    let mut out: Vec<char> = Vec::new();
    let mut k: usize = a;
    while k < b
        invariant
            a <= k <= b <= n == cs@.len(),
            out@ == cs@.subrange(a as int, k as int),
        decreases b - k,
    {
        out.push(cs[k]);
        k = k + 1;
        assert(out@ =~= cs@.subrange(a as int, k as int));
    }
    string_from_chars(&out)
}

/// A flag option: set when given bare, else set exactly when its value is
/// `true`.
pub open spec fn flag_of(value: Option<Seq<char>>) -> bool {
    match value {
        None => true,
        Some(v) => v == "true"@,
    }
}

pub open spec fn unquoted_opt(value: Option<Seq<char>>) -> Option<Seq<char>> {
    match value {
        None => None,
        Some(v) => Some(unquoted(v)),
    }
}

/// One option applied to those read so far. A later option of the same
/// name wins; `name` or `timeout_unit` given bare clears it.
pub open spec fn apply_opt(key: Seq<char>, value: Option<Seq<char>>, acc: TestOptsView) -> Result<
    TestOptsView,
    OptsErrorView,
> {
    if key == "name"@ {
        Ok(TestOptsView { name: unquoted_opt(value), ..acc })
    } else if key == "timeout_time"@ {
        match value {
            None => Err(OptsErrorView::MissingTimeout),
            Some(v) => match u64_from_str(v) {
                Some(t) => Ok(TestOptsView { timeout_time: Some(t), ..acc }),
                None => Err(OptsErrorView::BadTimeout(v)),
            },
        }
    } else if key == "timeout_unit"@ {
        Ok(TestOptsView { timeout_unit: unquoted_opt(value), ..acc })
    } else if key == "skip"@ {
        Ok(TestOptsView { skip: flag_of(value), ..acc })
    } else if key == "expect_fail"@ {
        Ok(TestOptsView { expect_fail: flag_of(value), ..acc })
    } else {
        Err(OptsErrorView::UnknownOption(key))
    }
}

fn apply(key: &str, value: Option<&str>, acc: TestOpts) -> (r: Result<TestOpts, OptsError>)
    ensures
        opts_result_view(r) == apply_opt(
            key@,
            match value {
                None => None,
                Some(v) => Some(v@),
            },
            acc@,
        ),
{
    let mut acc = acc;
    if str_eq(key, "name") {
        acc.name = match value {
            None => None,
            Some(v) => Some(strip_quotes(v)),
        };
        Ok(acc)
    } else if str_eq(key, "timeout_time") {
        match value {
            None => Err(OptsError::MissingTimeout),
            Some(v) => match parse_u64(v) {
                Some(t) => {
                    acc.timeout_time = Some(t);
                    Ok(acc)
                },
                None => Err(OptsError::BadTimeout(to_string(v))),
            },
        }
    } else if str_eq(key, "timeout_unit") {
        acc.timeout_unit = match value {
            None => None,
            Some(v) => Some(strip_quotes(v)),
        };
        Ok(acc)
    } else if str_eq(key, "skip") {
        acc.skip = match value {
            None => true,
            Some(v) => str_eq(v, "true"),
        };
        Ok(acc)
    } else if str_eq(key, "expect_fail") {
        acc.expect_fail = match value {
            None => true,
            Some(v) => str_eq(v, "true"),
        };
        Ok(acc)
    } else {
        Err(OptsError::UnknownOption(to_string(key)))
    }
}

/// The options read from position `i` on, on top of `acc`: option names
/// separated by commas, each optionally followed by `=` and a literal or
/// an identifier.
pub open spec fn opts_from(toks: Seq<Token>, i: nat, acc: TestOptsView) -> Result<
    TestOptsView,
    OptsErrorView,
>
    decreases toks.len() - i,
{
    if i >= toks.len() {
        Ok(acc)
    } else if is_punct(toks[i as int], ',') {
        opts_from(toks, i + 1, acc)
    } else if !is_ident(toks[i as int]) {
        Err(OptsErrorView::UnexpectedToken(toks[i as int].text@))
    } else {
        let key = toks[i as int].text@;
        if i + 1 < toks.len() && is_punct(toks[i + 1int], '=') {
            if i + 2 < toks.len() && (is_literal(toks[i + 2int]) || is_ident(toks[i + 2int])) {
                match apply_opt(key, Some(toks[i + 2int].text@), acc) {
                    Ok(a) => opts_from(toks, i + 3, a),
                    Err(e) => Err(e),
                }
            } else {
                Err(
                    OptsErrorView::ExpectedValue(
                        key,
                        if i + 2 < toks.len() {
                            Some((i + 2) as usize)
                        } else {
                            None
                        },
                    ),
                )
            }
        } else {
            match apply_opt(key, None, acc) {
                Ok(a) => opts_from(toks, i + 1, a),
                Err(e) => Err(e),
            }
        }
    }
}

/// The options of `#[rustdv::test(...)]`, read from the attribute's tokens.
pub fn parse_test_opts(attr: &Vec<Token>) -> (r: Result<TestOpts, OptsError>)
    ensures
        opts_result_view(r) == opts_from(attr@, 0, no_opts()),
{
    let mut acc = TestOpts {
        name: None,
        timeout_time: None,
        timeout_unit: None,
        skip: false,
        expect_fail: false,
    };
    let n = attr.len();
    let mut i: usize = 0;
    while i < n
        invariant
            i <= n == attr@.len(),
            opts_from(attr@, 0, no_opts()) == opts_from(attr@, i as nat, acc@),
        decreases n - i,
    {
        let t = &attr[i];
        if punct_is(t, ',') {
            i = i + 1;
        } else if !ident_is(t) {
            return Err(OptsError::UnexpectedToken(to_string(t.text.as_str())));
        } else {
            let key = t.text.as_str();
            if i + 1 < n && punct_is(&attr[i + 1], '=') {
                if i + 2 < n && (literal_is(&attr[i + 2]) || ident_is(&attr[i + 2])) {
                    match apply(key, Some(attr[i + 2].text.as_str()), acc) {
                        Ok(a) => {
                            acc = a;
                            i = i + 3;
                        },
                        Err(e) => return Err(e),
                    }
                } else {
                    let got = if i + 2 < n {
                        Some(i + 2)
                    } else {
                        None
                    };
                    return Err(OptsError::ExpectedValue { key: to_string(key), got });
                }
            } else {
                match apply(key, None, acc) {
                    Ok(a) => {
                        acc = a;
                        i = i + 1;
                    },
                    Err(e) => return Err(e),
                }
            }
        }
    }
    Ok(acc)
}

pub open spec fn is_fn_keyword(t: Token) -> bool {
    is_ident(t) && t.text@ == "fn"@
}

/// The identifier right after the first top-level `fn`, when one follows
/// it directly.
pub open spec fn fn_name_of(toks: Seq<Token>) -> Option<Seq<char>> {
    if exists|k: int| 0 <= k < toks.len() && is_fn_keyword(#[trigger] toks[k]) {
        let k = choose|k: int|
            0 <= k < toks.len() && is_fn_keyword(#[trigger] toks[k]) && forall|j: int|
                0 <= j < k ==> !is_fn_keyword(#[trigger] toks[j]);
        if k + 1 < toks.len() && is_ident(toks[k + 1]) {
            Some(toks[k + 1].text@)
        } else {
            None
        }
    } else {
        None
    }
}

/// The name of the function an item declares.
pub fn find_fn_name(item: &Vec<Token>) -> (r: Option<String>)
    ensures
        string_opt_view(r) == fn_name_of(item@),
{
    let n = item.len();
    let mut i: usize = 0;
    while i < n
        invariant
            i <= n == item@.len(),
            forall|j: int| 0 <= j < i ==> !is_fn_keyword(#[trigger] item@[j]),
        decreases n - i,
    {
        if ident_is(&item[i]) && str_eq(item[i].text.as_str(), "fn") {
            proof {
                let k = choose|k: int|
                    0 <= k < item@.len() && is_fn_keyword(#[trigger] item@[k]) && forall|j: int|
                        0 <= j < k ==> !is_fn_keyword(#[trigger] item@[j]);
                assert(is_fn_keyword(item@[i as int]));
                if k < i {
                } else if i < k {
                    assert(!is_fn_keyword(item@[i as int]));
                }
                assert(k == i);
            }
            if i + 1 < n && ident_is(&item[i + 1]) {
                return Some(to_string(item[i + 1].text.as_str()));
            } else {
                return None;
            }
        }
        i = i + 1;
    }
    None
}

/// What the test attribute registers: the function it calls, the name the
/// test runs under, its timeout (time and unit) and its flags.
pub struct TestRegistration {
    pub fn_name: String,
    pub test_name: String,
    pub timeout: Option<(u64, String)>,
    pub skip: bool,
    pub expect_fail: bool,
}

/// Why the test attribute produced a compile error.
pub enum TestAttrError {
    Opts(OptsError),
    /// The attribute is not on a function.
    NotAFunction,
}

impl TestAttrError {
    /// The compile error's text; `None` where the offending token has to be
    /// shown (see [`OptsError::message`]).
    pub fn message(&self) -> (m: Option<String>)
        ensures
            match self {
                TestAttrError::NotAFunction => m matches Some(s) && s@
                    == "#[rustdv::test] must be applied to an async fn"@,
                TestAttrError::Opts(e) => (m is None <==> e@ is ExpectedValue),
            },
    {
        match self {
            TestAttrError::NotAFunction => Some(to_string("#[rustdv::test] must be applied to an async fn")),
            TestAttrError::Opts(e) => e.message(),
        }
    }
}

/// The timeout a test is registered with: the time with its unit, `ns`
/// when no unit was given; none without a time.
pub open spec fn timeout_of(o: TestOptsView) -> Option<(u64, Seq<char>)> {
    match o.timeout_time {
        None => None,
        Some(t) => match o.timeout_unit {
            Some(u) => Some((t, u)),
            None => Some((t, "ns"@)),
        },
    }
}

/// `reg` registers the function `f` with options `o`.
pub open spec fn registers(reg: TestRegistration, o: TestOptsView, f: Seq<char>) -> bool {
    &&& reg.fn_name@ == f
    &&& reg.test_name@ == match o.name {
        Some(nm) => nm,
        None => f,
    }
    &&& match reg.timeout {
        None => timeout_of(o) is None,
        Some((t, u)) => timeout_of(o) == Some((t, u@)),
    }
    &&& reg.skip == o.skip
    &&& reg.expect_fail == o.expect_fail
}

/// The expansion of `#[rustdv::test(attr)]` on `item`: its options are
/// read first, then the marked function's name; the test is registered
/// under its `name` option, or else under the function's name.
pub fn test(attr: &Vec<Token>, item: &Vec<Token>) -> (r: Result<TestRegistration, TestAttrError>)
    ensures
        match (opts_from(attr@, 0, no_opts()), fn_name_of(item@)) {
            (Err(e), _) => r matches Err(TestAttrError::Opts(x)) && x@ == e,
            (Ok(_), None) => r matches Err(TestAttrError::NotAFunction),
            (Ok(o), Some(f)) => r matches Ok(reg) && registers(reg, o, f),
        },
{
    let opts = match parse_test_opts(attr) {
        Ok(o) => o,
        Err(e) => return Err(TestAttrError::Opts(e)),
    };
    let fn_name = match find_fn_name(item) {
        Some(f) => f,
        None => return Err(TestAttrError::NotAFunction),
    };
    let test_name = match opts.name {
        Some(nm) => nm,
        None => to_string(fn_name.as_str()),
    };
    let timeout = match opts.timeout_time {
        None => None,
        Some(t) => match opts.timeout_unit {
            Some(u) => Some((t, u)),
            None => Some((t, to_string("ns"))),
        },
    };
    Ok(TestRegistration { fn_name, test_name, timeout, skip: opts.skip, expect_fail: opts.expect_fail })
}

} // verus!
