//! The component derive: the struct it is put on, read from the derive's
//! tokens (name, generics, named fields and which of them are child
//! components), and the `ComponentNode` impl it emits.

use vstd::prelude::*;

use crate::macros::tokens::{ident_is, is_ident, is_punct, punct_is, Delim, Token, TokenKind};
use crate::runner::{contains_exec, contains_sub, is_ws, is_ws_exec};
use crate::text::{chars_of, join, join_strings, str_eq, to_string};

verus! {

/// A named field: its name, its type as text, and whether it is marked
/// `#[component(child)]`.
pub struct Field {
    pub name: String,
    pub ty: String,
    pub is_child: bool,
}

pub struct FieldView {
    pub name: Seq<char>,
    pub ty: Seq<char>,
    pub is_child: bool,
}

impl View for Field {
    type V = FieldView;

    open spec fn view(&self) -> FieldView {
        FieldView { name: self.name@, ty: self.ty@, is_child: self.is_child }
    }
}

pub open spec fn texts(ts: Seq<Token>) -> Seq<Seq<char>> {
    ts.map_values(|t: Token| t.text@)
}

/// The tokens at the given positions, in that order.
pub open spec fn picked(toks: Seq<Token>, idx: Seq<usize>) -> Seq<Token> {
    idx.map_values(|k: usize| toks[k as int])
}

/// The first position at or after `i` that holds the punctuation `c`.
pub open spec fn first_punct_from(ts: Seq<Token>, c: char, i: nat) -> Option<nat>
    decreases ts.len() - i,
{
    if i >= ts.len() {
        None
    } else if is_punct(ts[i as int], c) {
        Some(i)
    } else {
        first_punct_from(ts, c, i + 1)
    }
}

/// The last identifier below position `k`.
pub open spec fn last_ident_below(ts: Seq<Token>, k: nat) -> Option<nat>
    decreases k,
{
    if k == 0 {
        None
    } else if is_ident(ts[k - 1]) {
        Some((k - 1) as nat)
    } else {
        last_ident_below(ts, (k - 1) as nat)
    }
}

/// A field from its tokens (`pub name : Type ...`): the identifier just
/// before the first `:` names it (skipping `pub` and `pub(..)`), and the
/// tokens after that `:` are its type.
pub open spec fn field_of(ts: Seq<Token>, is_child: bool) -> Result<FieldView, Seq<char>> {
    match first_punct_from(ts, ':', 0) {
        None => Err("field without ':' (tuple structs unsupported)"@),
        Some(colon) => match last_ident_below(ts, colon) {
            None => Err("could not find field name"@),
            Some(k) => Ok(
                FieldView {
                    name: ts[k as int].text@,
                    ty: join(texts(ts.subrange(colon + 1int, ts.len() as int)), " "@),
                    is_child,
                },
            ),
        },
    }
}

pub open spec fn field_result_view(r: Result<Field, String>) -> Result<FieldView, Seq<char>> {
    match r {
        Ok(f) => Ok(f@),
        Err(e) => Err(e@),
    }
}

/// The field made of the tokens of `toks` at the positions `idx`.
pub fn make_field(toks: &Vec<Token>, idx: &Vec<usize>, is_child: bool) -> (r: Result<Field, String>)
    requires
        forall|j: int| 0 <= j < idx@.len() ==> idx@[j] < toks@.len(),
    ensures
        field_result_view(r) == field_of(picked(toks@, idx@), is_child),
{
    let ghost ts = picked(toks@, idx@);
    let n = idx.len();
    let mut colon: usize = 0;
    let mut found = false;
    while colon < n && !found
        invariant
            colon <= n == ts.len(),
            ts == picked(toks@, idx@),
            forall|j: int| 0 <= j < idx@.len() ==> idx@[j] < toks@.len(),
            found ==> colon < n && first_punct_from(ts, ':', 0) == Some(colon as nat),
            !found ==> first_punct_from(ts, ':', 0) == first_punct_from(ts, ':', colon as nat),
        decreases n - colon + (if found { 0int } else { 1int }),
    {
        if punct_is(&toks[idx[colon]], ':') {
            found = true;
        } else {
            colon = colon + 1;
        }
    }
    if !found {
        return Err(to_string("field without ':' (tuple structs unsupported)"));
    }
    let mut k: usize = colon;
    let mut name_at: Option<usize> = None;
    while k > 0 && name_at.is_none()
        invariant
            k <= colon < n == ts.len(),
            ts == picked(toks@, idx@),
            forall|j: int| 0 <= j < idx@.len() ==> idx@[j] < toks@.len(),
            name_at matches Some(a) ==> last_ident_below(ts, colon as nat) == Some(a as nat) && a
                < colon,
            name_at is None ==> last_ident_below(ts, colon as nat) == last_ident_below(
                ts,
                k as nat,
            ),
        decreases k + (if name_at is None { 1int } else { 0int }),
    {
        if ident_is(&toks[idx[k - 1]]) {
            name_at = Some(k - 1);
        } else {
            k = k - 1;
        }
    }
    let a = match name_at {
        None => return Err(to_string("could not find field name")),
        Some(a) => a,
    };
    let mut parts: Vec<String> = Vec::new();
    let mut j: usize = colon + 1;
    while j < n
        invariant
            colon < j <= n == ts.len(),
            ts == picked(toks@, idx@),
            forall|m: int| 0 <= m < idx@.len() ==> idx@[m] < toks@.len(),
            parts@.map_values(|p: String| p@) == texts(ts.subrange(colon + 1, j as int)),
        decreases n - j,
    {
        assert(ts[j as int] == toks@[idx@[j as int] as int]);
        let ghost before = parts@;
        parts.push(to_string(toks[idx[j]].text.as_str()));
        proof {
            let a = ts.subrange(colon + 1, j as int);
            let b = ts.subrange(colon + 1, j + 1);
            assert(b =~= a.push(ts[j as int]));
            assert(texts(b) =~= texts(a).push(ts[j as int].text@));
            assert(parts@.map_values(|p: String| p@) =~= before.map_values(|p: String| p@).push(
                ts[j as int].text@,
            ));
        }
        j = j + 1;
    }
    let ty = join_strings(&parts, " ");
    Ok(Field { name: to_string(toks[idx[a]].text.as_str()), ty, is_child })
}

/// The first identifier at or after `i` that reads `w`.
pub open spec fn first_word_from(ts: Seq<Token>, w: Seq<char>, i: nat) -> Option<nat>
    decreases ts.len() - i,
{
    if i >= ts.len() {
        None
    } else if is_ident(ts[i as int]) && ts[i as int].text@ == w {
        Some(i)
    } else {
        first_word_from(ts, w, i + 1)
    }
}

pub open spec fn is_brace_group(t: Token) -> bool {
    t.kind matches TokenKind::Group(d, _, _) && d == Delim::Brace
}

/// From position `i` at angle depth `depth`: the position of the field
/// group (the first brace group outside angle brackets) and the generics'
/// tokens before it (the angle brackets and what they enclose).
pub open spec fn scan_generics(ts: Seq<Token>, i: nat, depth: int, gens: Seq<usize>) -> (Option<nat>, Seq<usize>)
    decreases ts.len() - i,
{
    if i >= ts.len() {
        (None, gens)
    } else if is_brace_group(ts[i as int]) && depth == 0 {
        (Some(i), gens)
    } else if is_punct(ts[i as int], '<') {
        scan_generics(ts, i + 1, depth + 1, gens.push(i as usize))
    } else if is_punct(ts[i as int], '>') {
        scan_generics(ts, i + 1, depth - 1, gens.push(i as usize))
    } else if depth > 0 {
        scan_generics(ts, i + 1, depth, gens.push(i as usize))
    } else {
        scan_generics(ts, i + 1, depth, gens)
    }
}

/// The generics' texts as the impl header writes them: separated by one
/// space, except right after a lifetime's quote.
pub open spec fn glue(parts: Seq<Seq<char>>) -> Seq<char>
    decreases parts.len(),
{
    if parts.len() == 0 {
        Seq::empty()
    } else {
        let out = glue(parts.drop_last());
        if out.len() > 0 && out.last() != '\'' {
            out + " "@ + parts.last()
        } else {
            out + parts.last()
        }
    }
}

/// The generic parameters' names (lifetimes with their quote, const
/// parameters by their name), read from position `i` with angle depth
/// `d`: the first identifier of each comma-separated part at depth one.
pub open spec fn params_from(
    ts: Seq<Token>,
    i: nat,
    d: int,
    take: bool,
    lifetime: bool,
    params: Seq<Seq<char>>,
) -> Seq<Seq<char>>
    decreases ts.len() - i,
{
    if i >= ts.len() {
        params
    } else {
        let t = ts[i as int];
        if is_punct(t, '<') {
            params_from(ts, i + 1, d + 1, take, lifetime, params)
        } else if is_punct(t, '>') {
            params_from(ts, i + 1, d - 1, take, lifetime, params)
        } else if is_punct(t, ',') && d == 1 {
            params_from(ts, i + 1, d, true, lifetime, params)
        } else if is_punct(t, '\'') && d == 1 && take {
            params_from(ts, i + 1, d, take, true, params)
        } else if is_ident(t) && d == 1 && take {
            if t.text@ == "const"@ {
                params_from(ts, i + 1, d, take, lifetime, params)
            } else {
                params_from(
                    ts,
                    i + 1,
                    d,
                    false,
                    false,
                    params.push(
                        if lifetime {
                            "'"@ + t.text@
                        } else {
                            t.text@
                        },
                    ),
                )
            }
        } else {
            params_from(ts, i + 1, d, take, lifetime, params)
        }
    }
}

/// The type's parameters as the impl's `for` clause writes them.
pub open spec fn params_text(params: Seq<Seq<char>>) -> Seq<char> {
    if params.len() == 0 {
        Seq::empty()
    } else {
        "< "@ + join(params, " , "@) + " >"@
    }
}

pub open spec fn starts_with(s: Seq<char>, p: Seq<char>) -> bool {
    p.len() <= s.len() && s.subrange(0, p.len() as int) == p
}

/// An attribute that marks a child component: `#[component(child)]`.
pub open spec fn is_child_attr(inner: Seq<char>) -> bool {
    starts_with(inner, "component"@) && contains_sub(inner, "child"@)
}

pub open spec fn is_bracket_group(t: Token) -> bool {
    t.kind matches TokenKind::Group(d, _, _) && d == Delim::Bracket
}

pub open spec fn group_text(t: Token) -> Seq<char> {
    match t.kind {
        TokenKind::Group(_, _, s) => s@,
        _ => Seq::empty(),
    }
}

/// The fields read from position `i` of the field group: split at commas
/// outside angle brackets, with attributes taken out and noted.
pub open spec fn fields_from(
    g: Seq<Token>,
    i: nat,
    angle: int,
    pending: bool,
    cur: Seq<Token>,
    acc: Seq<FieldView>,
) -> Result<Seq<FieldView>, Seq<char>>
    decreases g.len() - i,
{
    if i >= g.len() {
        if cur.len() > 0 {
            match field_of(cur, pending) {
                Ok(f) => Ok(acc.push(f)),
                Err(e) => Err(e),
            }
        } else {
            Ok(acc)
        }
    } else {
        let t = g[i as int];
        if is_punct(t, '<') {
            fields_from(g, i + 1, angle + 1, pending, cur.push(t), acc)
        } else if is_punct(t, '>') {
            fields_from(g, i + 1, angle - 1, pending, cur.push(t), acc)
        } else if is_punct(t, '#') && i + 1 < g.len() && is_bracket_group(g[i + 1int]) {
            fields_from(g, i + 2, angle, pending || is_child_attr(group_text(g[i + 1int])), cur, acc)
        } else if is_punct(t, ',') && angle == 0 {
            if cur.len() > 0 {
                match field_of(cur, pending) {
                    Ok(f) => fields_from(g, i + 1, angle, false, Seq::empty(), acc.push(f)),
                    Err(e) => Err(e),
                }
            } else {
                fields_from(g, i + 1, angle, pending, cur, acc)
            }
        } else {
            fields_from(g, i + 1, angle, pending, cur.push(t), acc)
        }
    }
}

/// What the derive reads from a struct: its name, its generics as the
/// impl header writes them, its type parameters as the `for` clause writes
/// them, and its fields.
pub open spec fn struct_of(toks: Seq<Token>) -> Result<
    (Seq<char>, Seq<char>, Seq<char>, Seq<FieldView>),
    Seq<char>,
> {
    match first_word_from(toks, "struct"@, 0) {
        None => Err("#[derive(Component)] supports only structs"@),
        Some(k) => if k + 1 < toks.len() && is_ident(toks[k + 1int]) {
            let name = toks[k + 1int].text@;
            let (grp, gens_at) = scan_generics(toks, k + 2, 0, Seq::empty());
            let gens = picked(toks, gens_at);
            let ig = glue(texts(gens));
            let tp = params_text(params_from(gens, 0, 0, true, false, Seq::empty()));
            match grp {
                Some(gi) => match toks[gi as int].kind {
                    TokenKind::Group(_, children, _) => match fields_from(
                        children@,
                        0,
                        0,
                        false,
                        Seq::empty(),
                        Seq::empty(),
                    ) {
                        Ok(fs) => Ok((name, ig, tp, fs)),
                        Err(e) => Err(e),
                    },
                    _ => Err("#[derive(Component)] requires named fields"@),
                },
                None => Err("#[derive(Component)] requires named fields"@),
            }
        } else {
            Err("expected struct name"@)
        },
    }
}

fn brace_group_is(t: &Token) -> (b: bool)
    ensures
        b == is_brace_group(*t),
{
    match &t.kind {
        TokenKind::Group(d, _, _) => *d == Delim::Brace,
        _ => false,
    }
}

/// The inner text of a bracket group, if `t` is one.
fn bracket_inner(t: &Token) -> (r: Option<&str>)
    ensures
        is_bracket_group(*t) <==> r is Some,
        r matches Some(s) ==> s@ == group_text(*t),
{
    match &t.kind {
        TokenKind::Group(d, _, s) => if *d == Delim::Bracket {
            Some(s.as_str())
        } else {
            None
        },
        _ => None,
    }
}

fn starts_with_str(s: &str, p: &str) -> (b: bool)
    ensures
        b == starts_with(s@, p@),
{
    let n = s.unicode_len();
    let m = p.unicode_len();
    if m > n {
        return false;
    }
    let mut i: usize = 0;
    while i < m
        invariant
            m <= n,
            n == s@.len(),
            m == p@.len(),
            i <= m,
            forall|j: int| 0 <= j < i ==> s@[j] == p@[j],
        decreases m - i,
    {
        if s.get_char(i) != p.get_char(i) {
            assert(s@.subrange(0, m as int)[i as int] != p@[i as int]);
            return false;
        }
        i = i + 1;
    }
    assert(s@.subrange(0, m as int) =~= p@);
    true
}

fn child_attr(inner: &str) -> (b: bool)
    ensures
        b == is_child_attr(inner@),
{
    let cs = chars_of(inner);
    let pat = chars_of("child");
    starts_with_str(inner, "component") && contains_exec(&cs, &pat)
}

/// The generics' texts as the impl header writes them.
fn glue_texts(toks: &Vec<Token>, gens: &Vec<usize>) -> (s: String)
    requires
        forall|j: int| 0 <= j < gens@.len() ==> gens@[j] < toks@.len(),
    ensures
        s@ == glue(texts(picked(toks@, gens@))),
{
    let ghost ps = texts(picked(toks@, gens@));
    let mut out = String::new();
    let mut i: usize = 0;
    while i < gens.len()
        invariant
            i <= gens@.len(),
            ps == texts(picked(toks@, gens@)),
            forall|j: int| 0 <= j < gens@.len() ==> gens@[j] < toks@.len(),
            out@ == glue(ps.take(i as int)),
        decreases gens.len() - i,
    {
        let t = toks[gens[i]].text.as_str();
        let n = out.as_str().unicode_len();
        if n > 0 && out.as_str().get_char(n - 1) != '\'' {
            out.append(" ");
        }
        out.append(t);
        proof {
            assert(ps.take(i + 1).drop_last() =~= ps.take(i as int));
            assert(ps.take(i + 1).last() == t@);
        }
        i = i + 1;
    }
    assert(ps.take(gens.len() as int) =~= ps);
    out
}

/// The generic parameters' names.
fn param_names(toks: &Vec<Token>, gens: &Vec<usize>) -> (ps: Vec<String>)
    requires
        forall|j: int| 0 <= j < gens@.len() ==> gens@[j] < toks@.len(),
    ensures
        ps@.map_values(|p: String| p@) == params_from(
            picked(toks@, gens@),
            0,
            0,
            true,
            false,
            Seq::empty(),
        ),
{
    let ghost g = picked(toks@, gens@);
    let mut params: Vec<String> = Vec::new();
    let mut d: i128 = 0;
    let mut take = true;
    let mut lifetime = false;
    let mut i: usize = 0;
    assert(params@.map_values(|p: String| p@) =~= Seq::<Seq<char>>::empty());
    while i < gens.len()
        invariant
            i <= gens@.len() == g.len(),
            g == picked(toks@, gens@),
            forall|j: int| 0 <= j < gens@.len() ==> gens@[j] < toks@.len(),
            -(i as int) <= d <= i,
            params_from(g, 0, 0, true, false, Seq::empty()) == params_from(
                g,
                i as nat,
                d as int,
                take,
                lifetime,
                params@.map_values(|p: String| p@),
            ),
        decreases gens.len() - i,
    {
        let t = &toks[gens[i]];
        assert(g[i as int] == *t);
        if punct_is(t, '<') {
            d = d + 1;
        } else if punct_is(t, '>') {
            d = d - 1;
        } else if punct_is(t, ',') && d == 1 {
            take = true;
        } else if punct_is(t, '\'') && d == 1 && take {
            lifetime = true;
        } else if ident_is(t) && d == 1 && take {
            if !str_eq(t.text.as_str(), "const") {
                let word = if lifetime {
                    let mut w = to_string("'");
                    w.append(t.text.as_str());
                    w
                } else {
                    to_string(t.text.as_str())
                };
                let ghost before = params@;
                params.push(word);
                assert(params@.map_values(|p: String| p@) =~= before.map_values(|p: String| p@).push(
                    word@,
                ));
                take = false;
                lifetime = false;
            }
        }
        i = i + 1;
    }
    params
}

fn params_str(params: &Vec<String>) -> (s: String)
    ensures
        s@ == params_text(params@.map_values(|p: String| p@)),
{
    if params.len() == 0 {
        let s = String::new();
        assert(s@ =~= params_text(params@.map_values(|p: String| p@)));
        s
    } else {
        let mut s = to_string("< ");
        let j = join_strings(params, " , ");
        s.append(j.as_str());
        s.append(" >");
        s
    }
}

pub open spec fn fields_result_view(r: Result<Vec<Field>, String>) -> Result<Seq<FieldView>, Seq<char>> {
    match r {
        Ok(fs) => Ok(fs@.map_values(|f: Field| f@)),
        Err(e) => Err(e@),
    }
}

/// The fields of the struct's field group.
fn read_fields(g: &Vec<Token>) -> (r: Result<Vec<Field>, String>)
    ensures
        fields_result_view(r) == fields_from(g@, 0, 0, false, Seq::empty(), Seq::empty()),
{
    let n = g.len();
    let mut i: usize = 0;
    let mut angle: i128 = 0;
    let mut pending = false;
    let mut cur: Vec<usize> = Vec::new();
    let mut acc: Vec<Field> = Vec::new();
    assert(picked(g@, cur@) =~= Seq::<Token>::empty());
    assert(acc@.map_values(|f: Field| f@) =~= Seq::<FieldView>::empty());
    while i < n
        invariant
            i <= n == g@.len(),
            -(i as int) <= angle <= i,
            forall|j: int| 0 <= j < cur@.len() ==> cur@[j] < g@.len(),
            fields_from(g@, 0, 0, false, Seq::empty(), Seq::empty()) == fields_from(
                g@,
                i as nat,
                angle as int,
                pending,
                picked(g@, cur@),
                acc@.map_values(|f: Field| f@),
            ),
        decreases n - i,
    {
        let t = &g[i];
        let ghost before = cur@;
        if punct_is(t, '<') {
            angle = angle + 1;
            cur.push(i);
            assert(picked(g@, cur@) =~= picked(g@, before).push(g@[i as int]));
            i = i + 1;
        } else if punct_is(t, '>') {
            angle = angle - 1;
            cur.push(i);
            assert(picked(g@, cur@) =~= picked(g@, before).push(g@[i as int]));
            i = i + 1;
        } else if punct_is(t, '#') && i + 1 < n && bracket_inner(&g[i + 1]).is_some() {
            let inner = bracket_inner(&g[i + 1]).unwrap();
            let marks = child_attr(inner);
            pending = pending || marks;
            i = i + 2;
        } else if punct_is(t, ',') && angle == 0 {
            if cur.len() > 0 {
                let f = match make_field(g, &cur, pending) {
                    Ok(f) => f,
                    Err(e) => return Err(e),
                };
                let ghost accv = acc@;
                acc.push(f);
                assert(acc@.map_values(|x: Field| x@) =~= accv.map_values(|x: Field| x@).push(f@));
                cur = Vec::new();
                assert(picked(g@, cur@) =~= Seq::<Token>::empty());
                pending = false;
            }
            i = i + 1;
        } else {
            cur.push(i);
            assert(picked(g@, cur@) =~= picked(g@, before).push(g@[i as int]));
            i = i + 1;
        }
    }
    if cur.len() > 0 {
        let f = match make_field(g, &cur, pending) {
            Ok(f) => f,
            Err(e) => return Err(e),
        };
        let ghost accv = acc@;
        acc.push(f);
        assert(acc@.map_values(|x: Field| x@) =~= accv.map_values(|x: Field| x@).push(f@));
    }
    Ok(acc)
}

pub open spec fn struct_result_view(r: Result<(String, String, String, Vec<Field>), String>) -> Result<
    (Seq<char>, Seq<char>, Seq<char>, Seq<FieldView>),
    Seq<char>,
> {
    match r {
        Ok((a, b, c, fs)) => Ok((a@, b@, c@, fs@.map_values(|f: Field| f@))),
        Err(e) => Err(e@),
    }
}

/// The struct a component derive is put on: its name, its generics for the
/// impl header, its type parameters for the `for` clause, and its fields.
pub fn parse_struct(input: &Vec<Token>) -> (r: Result<(String, String, String, Vec<Field>), String>)
    ensures
        struct_result_view(r) == struct_of(input@),
{
    let n = input.len();
    let mut k: usize = 0;
    let mut found = false;
    while k < n && !found
        invariant
            k <= n == input@.len(),
            found ==> k < n && first_word_from(input@, "struct"@, 0) == Some(k as nat),
            !found ==> first_word_from(input@, "struct"@, 0) == first_word_from(
                input@,
                "struct"@,
                k as nat,
            ),
        decreases n - k + (if found { 0int } else { 1int }),
    {
        if ident_is(&input[k]) && str_eq(input[k].text.as_str(), "struct") {
            found = true;
        } else {
            k = k + 1;
        }
    }
    if !found {
        return Err(to_string("#[derive(Component)] supports only structs"));
    }
    if !(k + 1 < n && ident_is(&input[k + 1])) {
        return Err(to_string("expected struct name"));
    }
    let name = to_string(input[k + 1].text.as_str());
    let mut i: usize = k + 2;
    let mut depth: i128 = 0;
    let mut gens: Vec<usize> = Vec::new();
    let mut grp: Option<usize> = None;
    while i < n && grp.is_none()
        invariant
            k + 2 <= i <= n == input@.len(),
            -(i as int) <= depth <= i,
            forall|j: int| 0 <= j < gens@.len() ==> gens@[j] < input@.len(),
            grp is None ==> scan_generics(input@, (k + 2) as nat, 0, Seq::empty())
                == scan_generics(input@, i as nat, depth as int, gens@),
            grp matches Some(x) ==> x < n && scan_generics(
                input@,
                (k + 2) as nat,
                0,
                Seq::empty(),
            ) == (Some(x as nat), gens@),
        decreases n - i + (if grp is None { 1int } else { 0int }),
    {
        let t = &input[i];
        if brace_group_is(t) && depth == 0 {
            grp = Some(i);
        } else if punct_is(t, '<') {
            depth = depth + 1;
            gens.push(i);
            i = i + 1;
        } else if punct_is(t, '>') {
            depth = depth - 1;
            gens.push(i);
            i = i + 1;
        } else if depth > 0 {
            gens.push(i);
            i = i + 1;
        } else {
            i = i + 1;
        }
    }
    let ig = glue_texts(input, &gens);
    let params = param_names(input, &gens);
    let tp = params_str(&params);
    match grp {
        None => Err(to_string("#[derive(Component)] requires named fields")),
        Some(gi) => match &input[gi].kind {
            TokenKind::Group(_, children, _) => match read_fields(children) {
                Ok(fs) => Ok((name, ig, tp, fs)),
                Err(e) => Err(e),
            },
            _ => Err(to_string("#[derive(Component)] requires named fields")),
        },
    }
}

/// `s` without leading whitespace (`str::trim_start`).
pub open spec fn trim_start(s: Seq<char>) -> Seq<char>
    decreases s.len(),
{
    if s.len() > 0 && is_ws(s[0]) {
        trim_start(s.drop_first())
    } else {
        s
    }
}

/// The statement that visits one child field: an `Option` child when it is
/// there, every element of a `Vec` child under `name[i]`, any other child
/// directly.
pub open spec fn visit_line(f: FieldView) -> Seq<char> {
    let ty = trim_start(f.ty);
    if starts_with(ty, "Option"@) {
        "if let ::core::option::Option::Some(__c) = &mut self."@ + f.name + " { f(\""@ + f.name
            + "\", __c); }\n"@
    } else if starts_with(ty, "Vec"@) {
        "for (__i, __c) in self."@ + f.name + ".iter_mut().enumerate() { let __n = ::std::format!(\""@
            + f.name + "[{}]\", __i); f(&__n, __c); }\n"@
    } else {
        "f(\""@ + f.name + "\", &mut self."@ + f.name + ");\n"@
    }
}

/// The visits of the child fields, in declaration order.
pub open spec fn visits(fs: Seq<FieldView>) -> Seq<char>
    decreases fs.len(),
{
    if fs.len() == 0 {
        Seq::empty()
    } else if fs.last().is_child {
        visits(fs.drop_last()) + visit_line(fs.last())
    } else {
        visits(fs.drop_last())
    }
}

/// The `ComponentNode` impl for struct `name`.
pub open spec fn node_impl(name: Seq<char>, ig: Seq<char>, tp: Seq<char>, fs: Seq<FieldView>) -> Seq<
    char,
> {
    "\nimpl "@ + ig + " ::rustdv::ComponentNode for "@ + name + " "@ + tp
        + " {\n    fn node_name(&self) -> &'static str { \""@ + name
        + "\" }\n    fn visit_children(&mut self, f: &mut dyn FnMut(&str, &mut dyn ::rustdv::ComponentNode)) {\n        let _ = &f;\n        "@
        + visits(fs) + "\n    }\n}\n"@
}

fn trimmed_starts_with(ty: &str, p: &str) -> (b: bool)
    ensures
        b == starts_with(trim_start(ty@), p@),
{
    let cs = chars_of(ty);
    let n = cs.len();
    let mut a: usize = 0;
    assert(cs@.subrange(0, n as int) =~= cs@);
    while a < n && is_ws_exec(cs[a])
        invariant
            a <= n == cs@.len(),
            trim_start(ty@) == trim_start(cs@.subrange(a as int, n as int)),
        decreases n - a,
    {
        assert(cs@.subrange(a as int, n as int).drop_first() =~= cs@.subrange(a + 1, n as int));
        a = a + 1;
    }
    let ghost rest = cs@.subrange(a as int, n as int);
    assert(trim_start(ty@) == rest);
    let pc = chars_of(p);
    let m = pc.len();
    if m > n - a {
        return false;
    }
    let mut j: usize = 0;
    while j < m
        invariant
            m <= n - a,
            a <= n == cs@.len(),
            m == pc@.len() == p@.len(),
            pc@ == p@,
            rest == cs@.subrange(a as int, n as int),
            trim_start(ty@) == rest,
            j <= m,
            forall|x: int| 0 <= x < j ==> rest[x] == p@[x],
        decreases m - j,
    {
        if cs[a + j] != pc[j] {
            assert(rest.subrange(0, m as int)[j as int] != p@[j as int]);
            return false;
        }
        j = j + 1;
    }
    assert(rest.subrange(0, m as int) =~= p@);
    true
}

fn visit_line_of(f: &Field) -> (s: String)
    ensures
        s@ == visit_line(f@),
{
    let name = f.name.as_str();
    if trimmed_starts_with(f.ty.as_str(), "Option") {
        let mut s = to_string("if let ::core::option::Option::Some(__c) = &mut self.");
        s.append(name);
        s.append(" { f(\"");
        s.append(name);
        s.append("\", __c); }\n");
        s
    } else if trimmed_starts_with(f.ty.as_str(), "Vec") {
        let mut s = to_string("for (__i, __c) in self.");
        s.append(name);
        s.append(".iter_mut().enumerate() { let __n = ::std::format!(\"");
        s.append(name);
        s.append("[{}]\", __i); f(&__n, __c); }\n");
        s
    } else {
        let mut s = to_string("f(\"");
        s.append(name);
        s.append("\", &mut self.");
        s.append(name);
        s.append(");\n");
        s
    }
}

fn visits_text(fields: &Vec<Field>) -> (s: String)
    ensures
        s@ == visits(fields@.map_values(|f: Field| f@)),
{
    let ghost fs = fields@.map_values(|f: Field| f@);
    let mut out = String::new();
    let mut i: usize = 0;
    assert(fs.take(0) =~= Seq::<FieldView>::empty());
    assert(out@ =~= visits(fs.take(0)));
    while i < fields.len()
        invariant
            i <= fields@.len(),
            fs == fields@.map_values(|f: Field| f@),
            out@ == visits(fs.take(i as int)),
        decreases fields.len() - i,
    {
        assert(fs.take(i + 1).drop_last() =~= fs.take(i as int));
        assert(fs.take(i + 1).last() == fields@[i as int]@);
        if fields[i].is_child {
            let line = visit_line_of(&fields[i]);
            out.append(line.as_str());
        }
        i = i + 1;
    }
    assert(fs.take(fields.len() as int) =~= fs);
    out
}

/// The expansion of the component derive: the `ComponentNode` impl that
/// names the struct and visits its child fields, or the reason the struct
/// cannot have one.
pub fn derive_component(input: &Vec<Token>) -> (r: Result<String, String>)
    ensures
        match struct_of(input@) {
            Err(e) => r matches Err(m) && m@ == e,
            Ok((name, ig, tp, fs)) => r matches Ok(s) && s@ == node_impl(name, ig, tp, fs),
        },
{
    let (name, ig, tp, fields) = match parse_struct(input) {
        Ok(v) => v,
        Err(e) => return Err(e),
    };
    let v = visits_text(&fields);
    let mut out = to_string("\nimpl ");
    out.append(ig.as_str());
    out.append(" ::rustdv::ComponentNode for ");
    out.append(name.as_str());
    out.append(" ");
    out.append(tp.as_str());
    out.append(" {\n    fn node_name(&self) -> &'static str { \"");
    out.append(name.as_str());
    out.append(
        "\" }\n    fn visit_children(&mut self, f: &mut dyn FnMut(&str, &mut dyn ::rustdv::ComponentNode)) {\n        let _ = &f;\n        ",
    );
    out.append(v.as_str());
    out.append("\n    }\n}\n");
    Ok(out)
}

} // verus!
