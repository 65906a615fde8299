//! Reading and writing a signal's value as simulator vector words: the
//! arithmetic between the words the simulator hands over (32 bits each,
//! least significant first, as (`a`, `b`) pairs) and two-state numbers,
//! and the classification of simulator objects. The calls into the
//! simulator that fetch and store the words are the caller's part.

use vstd::prelude::*;

use num_bigint::BigUint;

use crate::gpi::errors::{HandleError, ValueError};
use crate::gpi::logic_array::{
    biguint_digits, biguint_from_digits, digits_of, trim_zeros, logic_at, low_u128, low_u64, nwords, word_or_zero, LogicArray,
};
use crate::gpi::value::spec_to_char;
use crate::text::to_string;

verus! {

/// The bits of a word that hold the signal: all 32, except in a signal's
/// last word when its width is not a multiple of 32.
pub open spec fn used_mask(width: u32, last: bool) -> u32 {
    if last && width % 32 != 0 {
        ((1u32 << (width % 32)) - 1) as u32
    } else {
        u32::MAX
    }
}

/// A word read as a number: its used bits, or `None` when any used bit is
/// X or Z.
pub open spec fn clean_word(aval: u32, bval: u32, width: u32, last: bool) -> Option<u32> {
    if bval & used_mask(width, last) != 0 {
        None
    } else {
        Some(aval & used_mask(width, last))
    }
}

pub fn word_mask(width: u32, last: bool) -> (m: u32)
    ensures
        m == used_mask(width, last),
{
    if last && width % 32 != 0 {
        let sh = width % 32;
        assert((1u32 << sh) >= 1u32) by (bit_vector)
            requires
                sh < 32,
        ;
        ((1u32 << sh) - 1) as u32
    } else {
        u32::MAX
    }
}

/// One word, masked to the signal; `None` when a used bit is X or Z.
pub fn read_word(aval: u32, bval: u32, width: u32, last: bool) -> (r: Option<u32>)
    ensures
        r == clean_word(aval, bval, width, last),
{
    let mask = word_mask(width, last);
    if bval & mask != 0 {
        None
    } else {
        Some(aval & mask)
    }
}

/// The signal's bits as characters, most significant first.
pub open spec fn binstr_of(words: Seq<(u32, u32)>, width: nat) -> Seq<char> {
    Seq::new(
        width,
        |j: int|
            spec_to_char(
                logic_at(
                    words.map_values(|p: (u32, u32)| p.0),
                    words.map_values(|p: (u32, u32)| p.1),
                    width - 1 - j,
                ),
            ),
    )
}

/// Word `k` of the signal read as a number.
pub open spec fn clean_at(words: Seq<(u32, u32)>, width: u32, k: int) -> Option<u32> {
    clean_word(words[k].0, words[k].1, width, k == words.len() - 1)
}

/// The words read as numbers, or `None` when any used bit is X or Z.
pub open spec fn clean_words(words: Seq<(u32, u32)>, width: u32) -> Option<Seq<u32>> {
    if forall|k: int| 0 <= k < words.len() ==> #[trigger] clean_at(words, width, k) is Some {
        Some(Seq::new(words.len(), |k: int| clean_at(words, width, k)->0))
    } else {
        None
    }
}

fn four_state(words: &Vec<(u32, u32)>, width: u32) -> (e: ValueError)
    requires
        words@.len() == nwords(width as nat),
    ensures
        e == ValueError::FourState(e->FourState_0) && e->FourState_0@ == binstr_of(
            words@,
            width as nat,
        ),
{
    let l = LogicArray::from_vpi_words(words, width as usize);
    let s = l.to_binstr();
    proof {
        assert(s@ =~= binstr_of(words@, width as nat));
    }
    ValueError::FourState(s)
}

/// Every word read as a number, or the four-state error.
pub fn read_words(words: &Vec<(u32, u32)>, width: u32) -> (r: Result<Vec<u32>, ValueError>)
    requires
        words@.len() == nwords(width as nat),
    ensures
        match clean_words(words@, width) {
            Some(ws) => r matches Ok(v) && v@ == ws,
            None => r matches Err(ValueError::FourState(s)) && s@ == binstr_of(words@, width as nat),
        },
{
    let n = words.len();
    let mut out: Vec<u32> = Vec::new();
    let mut k: usize = 0;
    while k < n
        invariant
            n == words@.len(),
            words@.len() == nwords(width as nat),
            k <= n,
            out@.len() == k,
            forall|j: int| 0 <= j < k ==> #[trigger] clean_at(words@, width, j) == Some(out@[j]),
        decreases n - k,
    {
        match read_word(words[k].0, words[k].1, width, k + 1 == n) {
            Some(w) => {
                out.push(w);
            },
            None => {
                proof {
                    assert(clean_at(words@, width, k as int) is None);
                }
                return Err(four_state(words, width));
            },
        }
        k = k + 1;
    }
    proof {
        assert(out@ =~= Seq::new(words@.len(), |j: int| clean_at(words@, width, j)->0));
    }
    Ok(out)
}

/// A signal wider than `want` bits cannot be read as a `want`-bit number.
pub fn check_size(width: u32, want: u32) -> (r: Result<(), ValueError>)
    ensures
        width > want ==> r == Err::<(), ValueError>(ValueError::Width { want, have: width as usize }),
        width <= want ==> r is Ok,
{
    if width > want {
        return Err(ValueError::Width { want, have: width as usize });
    }
    Ok(())
}

/// The value as a `bool`: a one-bit signal only.
pub fn read_bool(words: &Vec<(u32, u32)>, width: u32) -> (r: Result<bool, ValueError>)
    requires
        words@.len() == nwords(width as nat),
        words@.len() >= 1,
    ensures
        width > 1 ==> r == Err::<bool, ValueError>(ValueError::Width { want: 1, have: width as usize }),
        width <= 1 ==> match clean_words(words@, width) {
            Some(ws) => r == Ok::<bool, ValueError>(ws[0] != 0),
            None => r matches Err(ValueError::FourState(s)) && s@ == binstr_of(words@, width as nat),
        },
{
    check_size(width, 1)?;
    let ws = read_words(words, width)?;
    Ok(ws[0] != 0)
}

/// The value as a `u8`, `u16` or `u32`: the first word, truncated.
pub fn read_u32(words: &Vec<(u32, u32)>, width: u32, bits: u32) -> (r: Result<u32, ValueError>)
    requires
        words@.len() == nwords(width as nat),
        words@.len() >= 1,
        bits == 8 || bits == 16 || bits == 32,
    ensures
        width > bits ==> r == Err::<u32, ValueError>(ValueError::Width { want: bits, have: width as usize }),
        width <= bits ==> match clean_words(words@, width) {
            Some(ws) => r == Ok::<u32, ValueError>(ws[0]),
            None => r matches Err(ValueError::FourState(s)) && s@ == binstr_of(words@, width as nat),
        },
{
    check_size(width, bits)?;
    let ws = read_words(words, width)?;
    Ok(ws[0])
}

/// The value as a `u64`: the words, least significant first.
pub fn read_u64(words: &Vec<(u32, u32)>, width: u32) -> (r: Result<u64, ValueError>)
    requires
        words@.len() == nwords(width as nat),
    ensures
        width > 64 ==> r == Err::<u64, ValueError>(ValueError::Width { want: 64, have: width as usize }),
        width <= 64 ==> match clean_words(words@, width) {
            Some(ws) => r == Ok::<u64, ValueError>(low_u64(ws)),
            None => r matches Err(ValueError::FourState(s)) && s@ == binstr_of(words@, width as nat),
        },
{
    check_size(width, 64)?;
    let ws = read_words(words, width)?;
    let w0: u64 = if ws.len() > 0 { ws[0] as u64 } else { 0 };
    let w1: u64 = if ws.len() > 1 { ws[1] as u64 } else { 0 };
    Ok(w0 | (w1 << 32u64))
}

/// The value as a `u128`.
pub fn read_u128(words: &Vec<(u32, u32)>, width: u32) -> (r: Result<u128, ValueError>)
    requires
        words@.len() == nwords(width as nat),
    ensures
        width > 128 ==> r == Err::<u128, ValueError>(ValueError::Width { want: 128, have: width as usize }),
        width <= 128 ==> match clean_words(words@, width) {
            Some(ws) => r == Ok::<u128, ValueError>(low_u128(ws)),
            None => r matches Err(ValueError::FourState(s)) && s@ == binstr_of(words@, width as nat),
        },
{
    check_size(width, 128)?;
    let ws = read_words(words, width)?;
    let w0: u128 = if ws.len() > 0 { ws[0] as u128 } else { 0 };
    let w1: u128 = if ws.len() > 1 { ws[1] as u128 } else { 0 };
    let w2: u128 = if ws.len() > 2 { ws[2] as u128 } else { 0 };
    let w3: u128 = if ws.len() > 3 { ws[3] as u128 } else { 0 };
    Ok(w0 | (w1 << 32u128) | (w2 << 64u128) | (w3 << 96u128))
}

/// The value as a big integer whose digits are the clean words.
pub fn read_bigint(words: &Vec<(u32, u32)>, width: u32) -> (r: Result<BigUint, ValueError>)
    requires
        words@.len() == nwords(width as nat),
    ensures
        clean_words(words@, width) is Some <==> r is Ok,
        r matches Ok(v) ==> digits_of(v) == trim_zeros(clean_words(words@, width)->0),
        clean_words(words@, width) is None ==> (r matches Err(ValueError::FourState(s)) && s@ == binstr_of(
            words@,
            width as nat,
        )),
{
    let ws = read_words(words, width)?;
    Ok(biguint_from_digits(&ws))
}

/// The words to write for a signal of `width` bits: cut to its word count
/// with the unused bits of the last word cleared, or padded with zero words.
pub fn fit_words(words: &Vec<(u32, u32)>, width: u32) -> (r: Vec<(u32, u32)>)
    ensures
        r@.len() == nwords(width as nat),
        forall|k: int|
            0 <= k < r@.len() ==> #[trigger] r@[k] == if k < words@.len() {
                if words@.len() >= nwords(width as nat) {
                    (
                        words@[k].0 & used_mask(width, k == r@.len() - 1),
                        words@[k].1 & used_mask(width, k == r@.len() - 1),
                    )
                } else {
                    words@[k]
                }
            } else {
                (0u32, 0u32)
            },
{
    let n = (width / 32 + if width % 32 != 0 { 1 } else { 0 }) as usize;
    let mut r: Vec<(u32, u32)> = Vec::new();
    let mut k: usize = 0;
    let trim = words.len() >= n;
    while k < n
        invariant
            n == nwords(width as nat),
            trim == (words@.len() >= n),
            k <= n,
            r@.len() == k,
            forall|j: int|
                0 <= j < k ==> #[trigger] r@[j] == if j < words@.len() {
                    if trim {
                        (words@[j].0 & used_mask(width, j == n - 1), words@[j].1 & used_mask(width, j == n - 1))
                    } else {
                        words@[j]
                    }
                } else {
                    (0u32, 0u32)
                },
        decreases n - k,
    {
        let w = if k < words.len() {
            if trim {
                let m = word_mask(width, k + 1 == n);
                (words[k].0 & m, words[k].1 & m)
            } else {
                words[k]
            }
        } else {
            (0, 0)
        };
        r.push(w);
        k = k + 1;
    }
    r
}

/// A number's words, least significant first, with no X or Z: one word up
/// to 32 bits, two for 64, four for 128.
pub fn u128_words(v: u128, count: usize) -> (r: Vec<(u32, u32)>)
    requires
        count <= 4,
    ensures
        r@.len() == count,
        forall|k: int| 0 <= k < count ==> #[trigger] r@[k] == ((v >> ((32 * k) as u128)) as u32, 0u32),
{
    let mut r: Vec<(u32, u32)> = Vec::new();
    let mut k: usize = 0;
    while k < count
        invariant
            count <= 4,
            k <= count,
            r@.len() == k,
            forall|j: int| 0 <= j < k ==> #[trigger] r@[j] == ((v >> ((32 * j) as u128)) as u32, 0u32),
        decreases count - k,
    {
        r.push(((v >> ((32 * k) as u128)) as u32, 0));
        k = k + 1;
    }
    r
}

/// A big integer's words for writing: its digits as the `a` words, no X
/// or Z.
pub fn bigint_words(v: &BigUint) -> (r: Vec<(u32, u32)>)
    ensures
        r@ == digits_of(*v).map_values(|d: u32| (d, 0u32)),
{
    let d = biguint_digits(v);
    let mut r: Vec<(u32, u32)> = Vec::new();
    let mut k: usize = 0;
    while k < d.len()
        invariant
            k <= d@.len(),
            r@.len() == k,
            forall|j: int| 0 <= j < k ==> #[trigger] r@[j] == (d@[j], 0u32),
        decreases d@.len() - k,
    {
        r.push((d[k], 0));
        k = k + 1;
    }
    assert(r@ =~= digits_of(*v).map_values(|d: u32| (d, 0u32)));
    r
}

/// Simulation time from the simulator's high and low halves.
pub fn sim_time_from_parts(high: u32, low: u32) -> (t: u64)
    ensures
        t == ((high as u64) << 32u64) | (low as u64),
{
    ((high as u64) << 32u64) | (low as u64)
}

// ---------------------------------------------------------------------------
// Object classification
// ---------------------------------------------------------------------------

/// IEEE 1800 VPI object type codes.
pub const VPI_INTEGER_VAR: i32 = 25;
pub const VPI_MEMORY: i32 = 29;
pub const VPI_MODULE: i32 = 32;
pub const VPI_NET: i32 = 36;
pub const VPI_PORT: i32 = 44;
pub const VPI_REAL_VAR: i32 = 47;
pub const VPI_REG: i32 = 48;
pub const VPI_LONG_INT_VAR: i32 = 610;
pub const VPI_SHORT_INT_VAR: i32 = 611;
pub const VPI_INT_VAR: i32 = 612;
pub const VPI_BYTE_VAR: i32 = 614;
pub const VPI_STRING_VAR: i32 = 616;
pub const VPI_ENUM_VAR: i32 = 617;
pub const VPI_STRUCT_VAR: i32 = 618;
pub const VPI_UNION_VAR: i32 = 619;
pub const VPI_BIT_VAR: i32 = 620;

/// What a simulator object is, as the framework sees it. A signal carries
/// its width, fixed for the object's life.
#[derive(Copy, Clone, Debug, PartialEq, Eq, Structural)]
pub enum ObjKind {
    Hierarchy,
    Logic { width: u32 },
    Real,
    Str,
    Struct,
    Union,
    Other,
}

/// Is this type code one of the vector-valued signal kinds?
pub open spec fn is_signal_type(t: i32) -> bool {
    t == VPI_NET || t == VPI_REG || t == VPI_INTEGER_VAR || t == VPI_PORT || t == VPI_MEMORY || t
        == VPI_LONG_INT_VAR || t == VPI_SHORT_INT_VAR || t == VPI_INT_VAR || t == VPI_BYTE_VAR || t
        == VPI_ENUM_VAR || t == VPI_BIT_VAR
}

pub open spec fn spec_classify(vpi_type: i32, size: i32) -> ObjKind {
    if vpi_type == VPI_MODULE {
        ObjKind::Hierarchy
    } else if vpi_type == VPI_REAL_VAR {
        ObjKind::Real
    } else if vpi_type == VPI_STRING_VAR {
        ObjKind::Str
    } else if vpi_type == VPI_STRUCT_VAR {
        ObjKind::Struct
    } else if vpi_type == VPI_UNION_VAR {
        ObjKind::Union
    } else if is_signal_type(vpi_type) {
        ObjKind::Logic { width: if size < 0 { 0 } else { size as u32 } }
    } else {
        ObjKind::Other
    }
}

/// Every vector-valued object is a logic signal as wide as the simulator
/// says: nets, regs, integer variables, ports, memories and the
/// SystemVerilog integral variables (longint, shortint, int, byte, enum,
/// bit), by their VPI type codes.
pub proof fn law_vector_objects_are_signals(t: i32, size: i32)
    requires
        t == 36 || t == 48 || t == 25 || t == 44 || t == 29 || t == 610 || t == 611 || t == 612
            || t == 614 || t == 617 || t == 620,
        size >= 0,
    ensures
        spec_classify(t, size) == (ObjKind::Logic { width: size as u32 }),
{
}

/// Modules are scopes, real, string, struct and union variables have kinds
/// of their own, and any other code is an object the framework does not
/// handle; a signal's width is never negative.
pub proof fn law_other_objects_by_code(t: i32, size: i32)
    ensures
        t == 32 ==> spec_classify(t, size) == ObjKind::Hierarchy,
        t == 47 ==> spec_classify(t, size) == ObjKind::Real,
        t == 616 ==> spec_classify(t, size) == ObjKind::Str,
        t == 618 ==> spec_classify(t, size) == ObjKind::Struct,
        t == 619 ==> spec_classify(t, size) == ObjKind::Union,
        !(t == 32 || t == 47 || t == 616 || t == 618 || t == 619 || t == 36 || t == 48 || t == 25
            || t == 44 || t == 29 || t == 610 || t == 611 || t == 612 || t == 614 || t == 617 || t
            == 620) ==> spec_classify(t, size) == ObjKind::Other,
        size < 0 && spec_classify(t, size) is Logic ==> spec_classify(t, size) == (ObjKind::Logic {
            width: 0,
        }),
{
}

/// Classify an object by its type code (and, for a signal, its size, a
/// negative size read as 0).
pub fn classify(vpi_type: i32, size: i32) -> (k: ObjKind)
    ensures
        k == spec_classify(vpi_type, size),
{
    if vpi_type == VPI_MODULE {
        ObjKind::Hierarchy
    } else if vpi_type == VPI_REAL_VAR {
        ObjKind::Real
    } else if vpi_type == VPI_STRING_VAR {
        ObjKind::Str
    } else if vpi_type == VPI_STRUCT_VAR {
        ObjKind::Struct
    } else if vpi_type == VPI_UNION_VAR {
        ObjKind::Union
    } else if vpi_type == VPI_NET || vpi_type == VPI_REG || vpi_type == VPI_INTEGER_VAR
        || vpi_type == VPI_PORT || vpi_type == VPI_MEMORY || vpi_type == VPI_LONG_INT_VAR
        || vpi_type == VPI_SHORT_INT_VAR || vpi_type == VPI_INT_VAR || vpi_type == VPI_BYTE_VAR
        || vpi_type == VPI_ENUM_VAR || vpi_type == VPI_BIT_VAR {
        ObjKind::Logic { width: if size < 0 { 0 } else { size as u32 } }
    } else {
        ObjKind::Other
    }
}

/// The name of the kind a handle was asked for, as a wrong-kind error
/// reports it.
pub fn expected_name(k: ObjKind) -> (s: &'static str)
    ensures
        s@ == match k {
            ObjKind::Hierarchy => "module"@,
            ObjKind::Logic { .. } => "signal"@,
            ObjKind::Real => "real"@,
            ObjKind::Str => "string"@,
            ObjKind::Struct | ObjKind::Union => "struct or union"@,
            ObjKind::Other => "unsupported simulator object"@,
        },
{
    match k {
        ObjKind::Hierarchy => "module",
        ObjKind::Logic { .. } => "signal",
        ObjKind::Real => "real",
        ObjKind::Str => "string",
        ObjKind::Struct | ObjKind::Union => "struct or union",
        ObjKind::Other => "unsupported simulator object",
    }
}

/// The top module to use: the one named by the configuration when a
/// (trimmed, non-empty) name is given, else the simulator's first root.
pub fn explicit_top(raw: Option<&str>) -> (r: Option<String>)
    ensures
        match raw {
            None => r is None,
            Some(s) => if crate::runner::trim(s@).len() == 0 {
                r is None
            } else {
                r matches Some(t) && t@ == crate::runner::trim(s@)
            },
        },
{
    match raw {
        None => None,
        Some(s) => {
            let cs = crate::text::chars_of(s);
            let t = crate::runner::trim_chars(&cs);
            if t.len() == 0 {
                None
            } else {
                Some(crate::text::string_from_chars(&t))
            }
        },
    }
}

/// The first root, or the error for a design with none.
pub fn first_root<H>(roots: Vec<H>) -> (r: Result<H, HandleError>)
    ensures
        roots@.len() == 0 ==> r == Err::<H, HandleError>(HandleError::NoTopModule),
        roots@.len() > 0 ==> r == Ok::<H, HandleError>(roots@[0]),
{
    let mut roots = roots;
    if roots.len() == 0 {
        Err(HandleError::NoTopModule)
    } else {
        Ok(roots.remove(0))
    }
}

/// The error for a configured top that does not exist.
pub fn top_not_found(name: &str) -> (e: HandleError)
    ensures
        e matches HandleError::NotFound { name: n, scope: s } && n@ == name@ && s@ == "<top-level>"@,
{
    HandleError::NotFound { name: to_string(name), scope: to_string("<top-level>") }
}

/// How a typed handle names its own kind when it is not the kind asked
/// for.
pub open spec fn kind_label(k: ObjKind) -> Seq<char> {
    match k {
        ObjKind::Hierarchy => "module"@,
        ObjKind::Logic { .. } => "signal"@,
        ObjKind::Real => "real"@,
        ObjKind::Str => "string"@,
        ObjKind::Struct => "struct"@,
        ObjKind::Union => "union"@,
        ObjKind::Other => "unsupported simulator object"@,
    }
}

/// The kinds a typed handle can be asked to be.
#[derive(Copy, Clone, Debug, PartialEq, Eq, Structural)]
pub enum Wanted {
    Module,
    Signal,
    Real,
    Str,
    Aggregate,
}

pub open spec fn wanted_label(w: Wanted) -> Seq<char> {
    match w {
        Wanted::Module => "module"@,
        Wanted::Signal => "signal"@,
        Wanted::Real => "real"@,
        Wanted::Str => "string"@,
        Wanted::Aggregate => "struct or union"@,
    }
}

/// Is an object of kind `k` a `w`? A struct or a union is an aggregate.
pub open spec fn admits(w: Wanted, k: ObjKind) -> bool {
    match w {
        Wanted::Module => k is Hierarchy,
        Wanted::Signal => k is Logic,
        Wanted::Real => k is Real,
        Wanted::Str => k is Str,
        Wanted::Aggregate => k is Struct || k is Union,
    }
}

/// A typed handle's conversion to kind `w`: `Ok` when the object is one,
/// else a wrong-kind error naming the object (`<unknown>` for an
/// unsupported one, which carries no name), the kind asked for and its own
/// kind.
pub fn check_kind(full_name: &str, k: ObjKind, w: Wanted) -> (r: Result<(), HandleError>)
    ensures
        admits(w, k) <==> r is Ok,
        r matches Err(e) ==> e matches HandleError::WrongKind { name, expected, actual } && name@ == (
        if k is Other {
            "<unknown>"@
        } else {
            full_name@
        }) && expected@ == wanted_label(w) && actual@ == kind_label(k),
{
    let ok = match w {
        Wanted::Module => match k {
            ObjKind::Hierarchy => true,
            _ => false,
        },
        Wanted::Signal => match k {
            ObjKind::Logic { .. } => true,
            _ => false,
        },
        Wanted::Real => match k {
            ObjKind::Real => true,
            _ => false,
        },
        Wanted::Str => match k {
            ObjKind::Str => true,
            _ => false,
        },
        Wanted::Aggregate => match k {
            ObjKind::Struct | ObjKind::Union => true,
            _ => false,
        },
    };
    if ok {
        return Ok(());
    }
    let expected: &'static str = match w {
        Wanted::Module => "module",
        Wanted::Signal => "signal",
        Wanted::Real => "real",
        Wanted::Str => "string",
        Wanted::Aggregate => "struct or union",
    };
    let (name, actual) = match k {
        ObjKind::Hierarchy => (to_string(full_name), "module"),
        ObjKind::Logic { .. } => (to_string(full_name), "signal"),
        ObjKind::Real => (to_string(full_name), "real"),
        ObjKind::Str => (to_string(full_name), "string"),
        ObjKind::Struct => (to_string(full_name), "struct"),
        ObjKind::Union => (to_string(full_name), "union"),
        ObjKind::Other => (to_string("<unknown>"), "unsupported simulator object"),
    };
    Err(HandleError::WrongKind { name, expected, actual: to_string(actual) })
}

} // verus!
