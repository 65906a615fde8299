//! Character-level helpers over `str` and `String`, used wherever the
//! framework compares names, paths and units.

use vstd::prelude::*;
use vstd::string::*;

verus! {

/// Do two strings hold the same characters?
pub fn str_eq(a: &str, b: &str) -> (r: bool)
    ensures
        r == (a@ == b@),
{
    let n = a.unicode_len();
    let m = b.unicode_len();
    if n != m {
        return false;
    }
    let mut i: usize = 0;
    while i < n
        invariant
            n == a@.len(),
            m == b@.len(),
            n == m,
            i <= n,
            forall|j: int| 0 <= j < i ==> a@[j] == b@[j],
        decreases n - i,
    {
        if a.get_char(i) != b.get_char(i) {
            return false;
        }
        i = i + 1;
    }
    assert(a@ =~= b@);
    true
}

/// The characters of `s`, in order.
pub fn chars_of(s: &str) -> (v: Vec<char>)
    ensures
        v@ == s@,
{
    let n = s.unicode_len();
    let mut v: Vec<char> = Vec::new();
    let mut i: usize = 0;
    while i < n
        invariant
            n == s@.len(),
            i <= n,
            v@ == s@.subrange(0, i as int),
        decreases n - i,
    {
        v.push(s.get_char(i));
        i = i + 1;
        assert(v@ =~= s@.subrange(0, i as int));
    }
    assert(s@.subrange(0, n as int) =~= s@);
    v
}

/// Appends one character to a `String` (std `String::push`).
#[verifier::external_body]
pub(crate) fn push_char(s: &mut String, c: char)
    ensures
        final(s)@ == old(s)@.push(c),
{
    s.push(c);
}

/// A `String` holding exactly the characters of `cs`.
pub fn string_from_chars(cs: &Vec<char>) -> (s: String)
    ensures
        s@ == cs@,
{
    let mut s = String::new();
    let mut i: usize = 0;
    while i < cs.len()
        invariant
            i <= cs.len(),
            s@ == cs@.subrange(0, i as int),
        decreases cs.len() - i,
    {
        push_char(&mut s, cs[i]);
        i = i + 1;
        assert(s@ =~= cs@.subrange(0, i as int));
    }
    assert(cs@.subrange(0, cs.len() as int) =~= cs@);
    s
}

/// A copy of `s` as an owned `String`.
pub fn to_string(s: &str) -> (r: String)
    ensures
        r@ == s@,
{
    s.to_owned()
}

} // verus!

verus! {

/// The decimal digits of `n`, most significant first, with no leading zero
/// (and `"0"` for zero).
pub open spec fn decimal(n: nat) -> Seq<char>
    decreases n,
{
    if n < 10 {
        seq![digit_char(n)]
    } else {
        decimal(n / 10).push(digit_char(n % 10))
    }
}

pub open spec fn digit_char(d: nat) -> char {
    if d == 0 {
        '0'
    } else if d == 1 {
        '1'
    } else if d == 2 {
        '2'
    } else if d == 3 {
        '3'
    } else if d == 4 {
        '4'
    } else if d == 5 {
        '5'
    } else if d == 6 {
        '6'
    } else if d == 7 {
        '7'
    } else if d == 8 {
        '8'
    } else {
        '9'
    }
}

fn digit(d: u64) -> (c: char)
    requires
        d < 10,
    ensures
        c == digit_char(d as nat),
{
    if d == 0 {
        '0'
    } else if d == 1 {
        '1'
    } else if d == 2 {
        '2'
    } else if d == 3 {
        '3'
    } else if d == 4 {
        '4'
    } else if d == 5 {
        '5'
    } else if d == 6 {
        '6'
    } else if d == 7 {
        '7'
    } else if d == 8 {
        '8'
    } else {
        '9'
    }
}

/// Appends the decimal rendering of `n` to `s`.
pub fn push_decimal(s: &mut String, n: u64)
    ensures
        final(s)@ == old(s)@ + decimal(n as nat),
    decreases n,
{
    if n < 10 {
        push_char(s, digit(n));
    } else {
        push_decimal(s, n / 10);
        push_char(s, digit(n % 10));
    }
}

/// `a` and `b` agree before position `k`, where `a` sorts first: it ends
/// there while `b` goes on, or its character there is smaller.
pub open spec fn lt_at(a: Seq<char>, b: Seq<char>, k: int) -> bool {
    &&& 0 <= k <= a.len()
    &&& k <= b.len()
    &&& forall|j: int| 0 <= j < k ==> a[j] == b[j]
    &&& (k == a.len() && k < b.len()) || (k < a.len() && k < b.len() && a[k] < b[k])
}

/// `a` sorts strictly before `b`, character by character (code point
/// order; a proper prefix sorts first). This is the order of `str`'s `Ord`.
pub open spec fn str_lt(a: Seq<char>, b: Seq<char>) -> bool {
    exists|k: int| #[trigger] lt_at(a, b, k)
}

pub proof fn lemma_str_lt_irreflexive(a: Seq<char>)
    ensures
        !str_lt(a, a),
{
}

pub proof fn lemma_str_lt_transitive(a: Seq<char>, b: Seq<char>, c: Seq<char>)
    requires
        str_lt(a, b),
        str_lt(b, c),
    ensures
        str_lt(a, c),
{
    let k1 = choose|k: int| #[trigger] lt_at(a, b, k);
    let k2 = choose|k: int| #[trigger] lt_at(b, c, k);
    let k = if k1 <= k2 {
        k1
    } else {
        k2
    };
    assert(forall|j: int| 0 <= j < k ==> a[j] == c[j]);
    assert(lt_at(a, c, k));
}

/// Three-way comparison of two strings by [`str_lt`]: -1, 0 or 1.
pub fn str_compare(a: &str, b: &str) -> (r: i8)
    ensures
        r == -1 <==> str_lt(a@, b@),
        r == 0 <==> a@ == b@,
        r == 1 <==> str_lt(b@, a@),
        -1 <= r <= 1,
{
    let x = chars_of(a);
    let y = chars_of(b);
    let mut i: usize = 0;
    while i < x.len() && i < y.len()
        invariant
            x@ == a@,
            y@ == b@,
            i <= x.len(),
            i <= y.len(),
            forall|j: int| 0 <= j < i ==> x@[j] == y@[j],
        decreases x.len() - i,
    {
        if x[i] != y[i] {
            proof {
                lemma_str_lt_irreflexive(a@);
                lemma_str_lt_irreflexive(b@);
            }
            if x[i] < y[i] {
                assert(lt_at(a@, b@, i as int));
                proof {
                    if str_lt(b@, a@) {
                        lemma_str_lt_transitive(a@, b@, a@);
                    }
                }
                return -1;
            } else {
                assert(lt_at(b@, a@, i as int));
                proof {
                    if str_lt(a@, b@) {
                        lemma_str_lt_transitive(a@, b@, a@);
                    }
                }
                return 1;
            }
        }
        i = i + 1;
    }
    proof {
        lemma_str_lt_irreflexive(a@);
        lemma_str_lt_irreflexive(b@);
    }
    if x.len() == y.len() {
        assert(a@ =~= b@);
        0
    } else if x.len() < y.len() {
        assert(lt_at(a@, b@, i as int));
        proof {
            if str_lt(b@, a@) {
                lemma_str_lt_transitive(a@, b@, a@);
            }
        }
        -1
    } else {
        assert(lt_at(b@, a@, i as int));
        proof {
            if str_lt(a@, b@) {
                lemma_str_lt_transitive(a@, b@, a@);
            }
        }
        1
    }
}

/// How many times `c` occurs in `s`.
pub open spec fn count_char(s: Seq<char>, c: char) -> nat
    decreases s.len(),
{
    if s.len() == 0 {
        0
    } else {
        count_char(s.drop_last(), c) + if s.last() == c {
            1nat
        } else {
            0nat
        }
    }
}

pub fn count_occurrences(s: &str, c: char) -> (n: usize)
    ensures
        n == count_char(s@, c),
{
    let x = chars_of(s);
    let mut n: usize = 0;
    let mut i: usize = 0;
    while i < x.len()
        invariant
            x@ == s@,
            i <= x.len(),
            n == count_char(s@.subrange(0, i as int), c),
            n <= i,
        decreases x.len() - i,
    {
        assert(s@.subrange(0, i + 1).drop_last() =~= s@.subrange(0, i as int));
        if x[i] == c {
            n = n + 1;
        }
        i = i + 1;
    }
    assert(s@.subrange(0, x.len() as int) =~= s@);
    n
}

/// `s` padded on the right with spaces to `w` characters (as `{:<w}`).
pub open spec fn pad_right(s: Seq<char>, w: nat) -> Seq<char> {
    if s.len() >= w {
        s
    } else {
        s + Seq::new((w - s.len()) as nat, |i: int| ' ')
    }
}

pub fn push_padded(out: &mut String, s: &str, w: usize)
    ensures
        final(out)@ == old(out)@ + pad_right(s@, w as nat),
{
    out.append(s);
    let n = s.unicode_len();
    let mut k: usize = n;
    while k < w
        invariant
            n == s@.len(),
            n <= k,
            k <= w || k == n,
            out@ == old(out)@ + s@ + Seq::new((k - n) as nat, |i: int| ' '),
        decreases w - k,
    {
        push_char(out, ' ');
        k = k + 1;
        assert(Seq::new((k - 1 - n) as nat, |i: int| ' ').push(' ') =~= Seq::new(
            (k - n) as nat,
            |i: int| ' ',
        ));
    }
    if n >= w {
        assert(Seq::new((k - n) as nat, |i: int| ' ') =~= Seq::<char>::empty());
    }
    assert(out@ =~= old(out)@ + pad_right(s@, w as nat));
}

/// The decimal rendering of a signed number, with a leading `-` when
/// negative.
pub open spec fn signed_decimal(n: int) -> Seq<char> {
    if n < 0 {
        seq!['-'] + decimal((-n) as nat)
    } else {
        decimal(n as nat)
    }
}

pub fn push_signed(s: &mut String, n: i32)
    ensures
        final(s)@ == old(s)@ + signed_decimal(n as int),
{
    if n < 0 {
        push_char(s, '-');
        let m: i64 = -(n as i64);
        push_decimal(s, m as u64);
        assert(s@ =~= old(s)@ + signed_decimal(n as int));
    } else {
        push_decimal(s, n as u64);
    }
}

/// The parts, in order, with `sep` between neighbours.
pub open spec fn join(parts: Seq<Seq<char>>, sep: Seq<char>) -> Seq<char>
    decreases parts.len(),
{
    if parts.len() == 0 {
        Seq::empty()
    } else if parts.len() == 1 {
        parts[0]
    } else {
        join(parts.drop_last(), sep) + sep + parts.last()
    }
}

pub fn join_strings(parts: &Vec<String>, sep: &str) -> (s: String)
    ensures
        s@ == join(parts@.map_values(|p: String| p@), sep@),
{
    let ghost ps = parts@.map_values(|p: String| p@);
    let mut s = String::new();
    let mut i: usize = 0;
    while i < parts.len()
        invariant
            ps == parts@.map_values(|p: String| p@),
            i <= parts.len(),
            s@ == join(ps.subrange(0, i as int), sep@),
        decreases parts.len() - i,
    {
        if i > 0 {
            s.append(sep);
        }
        s.append(parts[i].as_str());
        proof {
            let t = ps.subrange(0, i + 1);
            assert(t.drop_last() =~= ps.subrange(0, i as int));
            if i == 0 {
                assert(ps.subrange(0, 0) =~= Seq::<Seq<char>>::empty());
            }
        }
        i = i + 1;
    }
    assert(ps.subrange(0, parts.len() as int) =~= ps);
    s
}

} // verus!

verus! {

pub open spec fn is_digit(c: char) -> bool {
    '0' <= c && c <= '9'
}

/// The value of a run of decimal digits.
pub open spec fn digits_value(s: Seq<char>) -> nat
    decreases s.len(),
{
    if s.len() == 0 {
        0
    } else {
        digits_value(s.drop_last()) * 10 + ((s.last() as int) - ('0' as int)) as nat
    }
}

pub open spec fn all_digits(s: Seq<char>) -> bool {
    forall|i: int| 0 <= i < s.len() ==> is_digit(#[trigger] s[i])
}

/// `s` without one leading `+`.
pub open spec fn unsigned_part(s: Seq<char>) -> Seq<char> {
    if s.len() > 0 && s[0] == '+' {
        s.drop_first()
    } else {
        s
    }
}

/// How `u64::from_str` reads `s`: an optional `+`, then at least one
/// decimal digit and nothing else, with a value that fits.
pub open spec fn u64_from_str(s: Seq<char>) -> Option<u64> {
    let d = unsigned_part(s);
    if d.len() > 0 && all_digits(d) && digits_value(d) <= u64::MAX {
        Some(digits_value(d) as u64)
    } else {
        None
    }
}

proof fn lemma_digits_prefix_le(d: Seq<char>, k: int)
    requires
        all_digits(d),
        0 <= k <= d.len(),
    ensures
        digits_value(d.take(k)) <= digits_value(d),
    decreases d.len(),
{
    if k < d.len() {
        assert(all_digits(d.drop_last())) by {
            assert forall|i: int| 0 <= i < d.drop_last().len() implies is_digit(
                #[trigger] d.drop_last()[i],
            ) by {
                assert(d.drop_last()[i] == d[i]);
            }
        }
        lemma_digits_prefix_le(d.drop_last(), k);
        assert(d.drop_last().take(k) =~= d.take(k));
        assert(is_digit(d[d.len() - 1]));
    } else {
        assert(d.take(k) =~= d);
    }
}

/// The number that `s` spells, read as `u64::from_str` reads it.
pub fn parse_u64(s: &str) -> (r: Option<u64>)
    ensures
        r == u64_from_str(s@),
{
    let cs = chars_of(s);
    let n = cs.len();
    let mut start: usize = 0;
    if n > 0 && cs[0] == '+' {
        start = 1;
    }
    let ghost d = unsigned_part(s@);
    assert(d =~= cs@.subrange(start as int, n as int));
    if start >= n {
        return None;
    }
    let mut acc: u64 = 0;
    let mut i: usize = start;
    while i < n
        invariant
            n == cs@.len(),
            start <= i <= n,
            d == cs@.subrange(start as int, n as int),
            d == unsigned_part(s@),
            d.len() > 0,
            all_digits(cs@.subrange(start as int, i as int)),
            acc == digits_value(cs@.subrange(start as int, i as int)),
        decreases n - i,
    {
        let c = cs[i];
        if !('0' <= c && c <= '9') {
            proof {
                let k = i - start;
                assert(d[k] == c);
                assert(!is_digit(d[k]));
                assert(!all_digits(d));
            }
            return None;
        }
        let dv: u64 = ((c as u32) - ('0' as u32)) as u64;
        let ghost pre = cs@.subrange(start as int, i as int);
        let ghost next = cs@.subrange(start as int, i + 1);
        assert(next.drop_last() =~= pre);
        assert(all_digits(next)) by {
            assert forall|j: int| 0 <= j < next.len() implies is_digit(#[trigger] next[j]) by {
                if j < pre.len() {
                    assert(next[j] == pre[j]);
                }
            }
        }
        assert(digits_value(next) == acc * 10 + dv);
        if acc > (u64::MAX - dv) / 10 {
            proof {
                assert(acc * 10 + dv > u64::MAX) by (nonlinear_arith)
                    requires
                        acc > (u64::MAX - dv) / 10,
                        dv <= 9,
                ;
                if all_digits(d) {
                    let k = i + 1 - start;
                    assert(d.take(k) =~= next);
                    lemma_digits_prefix_le(d, k);
                    assert(digits_value(d) > u64::MAX);
                }
                assert(u64_from_str(s@) is None);
            }
            return None;
        }
        assert(acc * 10 + dv <= u64::MAX) by (nonlinear_arith)
            requires
                acc <= (u64::MAX - dv) / 10,
                dv <= 9,
        ;
        acc = acc * 10 + dv;
        i = i + 1;
    }
    Some(acc)
}

} // verus!

verus! {

/// Does a `::` start at position `k` of `s`?
pub open spec fn is_path_sep_at(s: Seq<char>, k: int) -> bool {
    0 <= k && k + 1 < s.len() && s[k] == ':' && s[k + 1] == ':'
}

/// What follows the last `::` of `s`, or all of `s` when it has none
/// (`s.rsplit("::").next()`).
pub open spec fn last_segment(s: Seq<char>) -> Seq<char> {
    if exists|k: int| #[trigger] is_path_sep_at(s, k) {
        let k = choose|k: int|
            #[trigger] is_path_sep_at(s, k) && forall|j: int| k < j ==> !#[trigger] is_path_sep_at(s, j);
        s.subrange(k + 2, s.len() as int)
    } else {
        s
    }
}

/// The last segment of a `::`-separated path, such as a type's name
/// without its module path.
pub fn last_path_segment(path: &str) -> (r: String)
    ensures
        r@ == last_segment(path@),
{
    let cs = chars_of(path);
    let n = cs.len();
    let mut k: usize = n;
    while k > 0
        invariant
            k <= n == cs@.len(),
            cs@ == path@,
            forall|j: int| k <= j ==> !#[trigger] is_path_sep_at(path@, j),
        decreases k,
    {
        let i = k - 1;
        if i + 1 < n && cs[i] == ':' && cs[i + 1] == ':' {
            assert(is_path_sep_at(path@, i as int));
            proof {
                let c = choose|c: int|
                    #[trigger] is_path_sep_at(path@, c) && forall|j: int| c < j ==> !#[trigger] is_path_sep_at(path@, j);
                if c < i {
                    assert(!is_path_sep_at(path@, i as int));
                } else if c > i {
                    assert(!is_path_sep_at(path@, c));
                }
            }
            let mut out: Vec<char> = Vec::new();
            let mut m: usize = i + 2;
            while m < n
                invariant
                    i + 2 <= m <= n == cs@.len(),
                    out@ == cs@.subrange(i + 2, m as int),
                decreases n - m,
            {
                out.push(cs[m]);
                m = m + 1;
                assert(out@ =~= cs@.subrange(i + 2, m as int));
            }
            return string_from_chars(&out);
        }
        k = k - 1;
    }
    assert(!exists|k: int| #[trigger] is_path_sep_at(path@, k));
    to_string(path)
}

} // verus!
