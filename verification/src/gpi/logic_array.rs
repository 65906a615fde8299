//! Fixed-width vectors of four-state bits in the simulator's two-word
//! encoding: per bit, an `a` and a `b` bit, `00` = 0, `10` = 1, `11` = X,
//! `01` = Z. Bits are numbered from the least significant; the words are
//! 32 bits wide, least significant word first, and the bits above the
//! width are zero.

use vstd::prelude::*;

use num_bigint::BigUint;

use crate::gpi::errors::ValueError;
use crate::gpi::value::{spec_from_char, spec_to_char, Logic};
use crate::text::{chars_of, string_from_chars};

verus! {

/// How many 32-bit words hold `width` bits.
pub open spec fn nwords(width: nat) -> nat {
    (width + 31) / 32
}

/// Bit `i` of a little-endian sequence of words (zero past the end).
pub open spec fn word_bit(w: Seq<u32>, i: int) -> bool {
    0 <= i && i / 32 < w.len() && ((w[i / 32] >> ((i % 32) as u32)) & 1u32) == 1u32
}

/// The four-state bit an (`a`, `b`) pair encodes.
pub open spec fn decode_bit(a: bool, b: bool) -> Logic {
    if !a && !b {
        Logic::Zero
    } else if a && !b {
        Logic::One
    } else if a && b {
        Logic::X
    } else {
        Logic::Z
    }
}

/// Bit `i` of the `a` and `b` word sequences, decoded.
pub open spec fn logic_at(a: Seq<u32>, b: Seq<u32>, i: int) -> Logic {
    decode_bit(word_bit(a, i), word_bit(b, i))
}

/// Word `k`, or zero past the end.
pub open spec fn word_or_zero(w: Seq<u32>, k: int) -> u32 {
    if 0 <= k < w.len() {
        w[k]
    } else {
        0
    }
}

proof fn lemma_mask_keeps(w: u32, k: u32, r: u32)
    requires
        0 < k < 32,
        r < k,
    ensures
        ((w & (((1u32 << k) - 1) as u32)) >> r) & 1u32 == (w >> r) & 1u32,
{
    assert(((w & (((1u32 << k) - 1) as u32)) >> r) & 1u32 == (w >> r) & 1u32) by (bit_vector)
        requires
            0 < k < 32,
            r < k,
    ;
}

proof fn lemma_mask_clears(w: u32, k: u32, r: u32)
    requires
        0 < k < 32,
        k <= r < 32,
    ensures
        ((w & (((1u32 << k) - 1) as u32)) >> r) & 1u32 == 0u32,
{
    assert(((w & (((1u32 << k) - 1) as u32)) >> r) & 1u32 == 0u32) by (bit_vector)
        requires
            0 < k < 32,
            k <= r < 32,
    ;
}

proof fn lemma_set_bit(w: u32, k: u32, r: u32)
    requires
        k < 32,
        r < 32,
    ensures
        ((w | (1u32 << k)) >> r) & 1u32 == if r == k {
            1u32
        } else {
            (w >> r) & 1u32
        },
{
    assert(((w | (1u32 << k)) >> r) & 1u32 == if r == k {
        1u32
    } else {
        (w >> r) & 1u32
    }) by (bit_vector)
        requires
            k < 32,
            r < 32,
    ;
}

proof fn lemma_zero_word(r: u32)
    requires
        r < 32,
    ensures
        (0u32 >> r) & 1u32 == 0u32,
{
    assert((0u32 >> r) & 1u32 == 0u32) by (bit_vector);
}

proof fn lemma_bit_is_bit(w: u32, r: u32)
    requires
        r < 32,
    ensures
        (w >> r) & 1u32 == 0u32 || (w >> r) & 1u32 == 1u32,
{
    assert((w >> r) & 1u32 == 0u32 || (w >> r) & 1u32 == 1u32) by (bit_vector);
}

/// Fixed-width four-state bits.
#[derive(Clone, Debug, PartialEq, Eq)]
pub struct LogicArray {
    a: Vec<u32>,
    b: Vec<u32>,
    width: usize,
}

impl LogicArray {
    pub closed spec fn a_words(&self) -> Seq<u32> {
        self.a@
    }

    pub closed spec fn b_words(&self) -> Seq<u32> {
        self.b@
    }

    pub closed spec fn spec_width(&self) -> nat {
        self.width as nat
    }

    /// The bits, least significant first.
    pub open spec fn bits(&self) -> Seq<Logic> {
        Seq::new(self.spec_width(), |i: int| logic_at(self.a_words(), self.b_words(), i))
    }

    /// Word counts match the width, and nothing is set above it.
    pub open spec fn wf(&self) -> bool {
        &&& self.a_words().len() == nwords(self.spec_width())
        &&& self.b_words().len() == nwords(self.spec_width())
        &&& forall|i: int|
            self.spec_width() <= i ==> !#[trigger] word_bit(self.a_words(), i) && !word_bit(
                self.b_words(),
                i,
            )
    }

    pub fn len(&self) -> (n: usize)
        ensures
            n == self.spec_width(),
    {
        self.width
    }

    pub fn is_empty(&self) -> (b: bool)
        ensures
            b == (self.spec_width() == 0),
    {
        self.width == 0
    }

    /// Bit `index`, least significant first; `None` out of range.
    pub fn get(&self, index: usize) -> (r: Option<Logic>)
        requires
            self.wf(),
        ensures
            index >= self.spec_width() ==> r is None,
            index < self.spec_width() ==> r == Some(self.bits()[index as int]),
    {
        if index >= self.width {
            return None;
        }
        let k = index / 32;
        let sh = (index % 32) as u32;
        let ab = (self.a[k] >> sh) & 1u32 == 1u32;
        let bb = (self.b[k] >> sh) & 1u32 == 1u32;
        let r = if !ab && !bb {
            Logic::Zero
        } else if ab && !bb {
            Logic::One
        } else if ab && bb {
            Logic::X
        } else {
            Logic::Z
        };
        Some(r)
    }

    /// Is the value two-state: no `b` bit set, so no X or Z?
    pub fn is_resolvable(&self) -> (r: bool)
        requires
            self.wf(),
        ensures
            r == (forall|k: int| 0 <= k < self.b_words().len() ==> self.b_words()[k] == 0),
            r ==> forall|i: int|
                0 <= i < self.spec_width() ==> (#[trigger] self.bits()[i] is Zero || self.bits()[i] is One),
    {
        let mut k: usize = 0;
        while k < self.b.len()
            invariant
                k <= self.b@.len(),
                forall|j: int| 0 <= j < k ==> self.b@[j] == 0,
            decreases self.b@.len() - k,
        {
            if self.b[k] != 0 {
                return false;
            }
            k = k + 1;
        }
        proof {
            assert forall|i: int| 0 <= i < self.spec_width() implies (#[trigger] self.bits()[i] is Zero
                || self.bits()[i] is One) by {
                if i / 32 < self.b@.len() {
                    lemma_zero_word((i % 32) as u32);
                }
            }
        }
        true
    }

    /// The words, least significant first, as (`a`, `b`) pairs.
    pub fn to_vpi_words(&self) -> (r: Vec<(u32, u32)>)
        requires
            self.wf(),
        ensures
            r@.len() == self.a_words().len(),
            forall|k: int| 0 <= k < r@.len() ==> #[trigger] r@[k] == (self.a_words()[k], self.b_words()[k]),
    {
        let mut r: Vec<(u32, u32)> = Vec::new();
        let mut k: usize = 0;
        while k < self.a.len()
            invariant
                self.a@.len() == self.b@.len(),
                k <= self.a@.len(),
                r@.len() == k,
                forall|j: int| 0 <= j < k ==> #[trigger] r@[j] == (self.a@[j], self.b@[j]),
            decreases self.a@.len() - k,
        {
            r.push((self.a[k], self.b[k]));
            k = k + 1;
        }
        r
    }

    /// The bits as characters, most significant first.
    pub fn to_binstr(&self) -> (s: String)
        requires
            self.wf(),
        ensures
            s@ == Seq::new(
                self.spec_width(),
                |j: int| spec_to_char(self.bits()[self.spec_width() - 1 - j]),
            ),
    {
        let mut cs: Vec<char> = Vec::new();
        let mut j: usize = 0;
        while j < self.width
            invariant
                self.wf(),
                j <= self.width,
                cs@ == Seq::new(j as nat, |m: int| spec_to_char(self.bits()[self.spec_width() - 1 - m])),
            decreases self.width - j,
        {
            let l = self.get(self.width - 1 - j).unwrap();
            cs.push(l.to_char());
            j = j + 1;
            assert(cs@ =~= Seq::new(j as nat, |m: int| spec_to_char(self.bits()[self.spec_width() - 1 - m])));
        }
        string_from_chars(&cs)
    }
}

/// How many words hold `width` bits, without overflow.
fn word_count(width: usize) -> (n: usize)
    ensures
        n == nwords(width as nat),
{
    width / 32 + if width % 32 != 0 {
        1
    } else {
        0
    }
}

/// The words with every bit at or above `width` cleared.
fn masked(w: Vec<u32>, width: usize) -> (out: Vec<u32>)
    requires
        w@.len() == nwords(width as nat),
    ensures
        out@.len() == w@.len(),
        forall|i: int| 0 <= i < width ==> #[trigger] word_bit(out@, i) == word_bit(w@, i),
        forall|i: int| width <= i ==> !#[trigger] word_bit(out@, i),
        forall|k: int| 0 <= k < w@.len() && w@[k] == 0 ==> #[trigger] out@[k] == 0,
{
    let mut out = w;
    let r = width % 32;
    if r != 0 {
        let last = out.len() - 1;
        let sh = r as u32;
        assert((1u32 << sh) >= 1u32) by (bit_vector)
            requires
                sh < 32,
        ;
        let mask = ((1u32 << sh) - 1) as u32;
        let v = out[last] & mask;
        assert(out@[last as int] == 0 ==> v == 0) by {
            let x = out@[last as int];
            assert(x == 0u32 ==> x & mask == 0u32) by (bit_vector);
        }
        out.set(last, v);
        proof {
            assert forall|i: int| 0 <= i < width implies #[trigger] word_bit(out@, i) == word_bit(w@, i) by {
                if i / 32 == last as int {
                    lemma_mask_keeps(w@[last as int], r as u32, (i % 32) as u32);
                }
            }
            assert forall|i: int| width <= i implies !#[trigger] word_bit(out@, i) by {
                if i / 32 == last as int {
                    lemma_mask_clears(w@[last as int], r as u32, (i % 32) as u32);
                }
            }
        }
    }
    out
}

impl LogicArray {
    /// From simulator words, least significant first, as (`a`, `b`) pairs;
    /// bits above the width are dropped.
    pub fn from_vpi_words(words: &Vec<(u32, u32)>, width: usize) -> (r: LogicArray)
        requires
            words@.len() == nwords(width as nat),
        ensures
            r.wf(),
            r.spec_width() == width,
            r.bits() == Seq::new(
                width as nat,
                |i: int|
                    logic_at(
                        words@.map_values(|p: (u32, u32)| p.0),
                        words@.map_values(|p: (u32, u32)| p.1),
                        i,
                    ),
            ),
    {
        let ghost wa = words@.map_values(|p: (u32, u32)| p.0);
        let ghost wb = words@.map_values(|p: (u32, u32)| p.1);
        let mut a: Vec<u32> = Vec::new();
        let mut b: Vec<u32> = Vec::new();
        let mut k: usize = 0;
        while k < words.len()
            invariant
                k <= words@.len(),
                a@ == wa.subrange(0, k as int),
                b@ == wb.subrange(0, k as int),
                wa == words@.map_values(|p: (u32, u32)| p.0),
                wb == words@.map_values(|p: (u32, u32)| p.1),
            decreases words@.len() - k,
        {
            a.push(words[k].0);
            b.push(words[k].1);
            k = k + 1;
            assert(a@ =~= wa.subrange(0, k as int));
            assert(b@ =~= wb.subrange(0, k as int));
        }
        assert(a@ =~= wa);
        assert(b@ =~= wb);
        let a = masked(a, width);
        let b = masked(b, width);
        let r = LogicArray { a, b, width };
        assert(r.bits() =~= Seq::new(width as nat, |i: int| logic_at(wa, wb, i)));
        r
    }

    /// From little-endian 32-bit digits (as a big integer gives them),
    /// zero-extended or truncated to the width; a two-state value.
    pub fn from_digits(digits: &Vec<u32>, width: usize) -> (r: LogicArray)
        ensures
            r.wf(),
            r.spec_width() == width,
            r.bits() == Seq::new(
                width as nat,
                |i: int|
                    if word_bit(digits@, i) {
                        Logic::One
                    } else {
                        Logic::Zero
                    },
            ),
            forall|k: int| 0 <= k < r.b_words().len() ==> r.b_words()[k] == 0,
    {
        let n = word_count(width);
        let mut a: Vec<u32> = Vec::new();
        let mut b: Vec<u32> = Vec::new();
        let mut k: usize = 0;
        while k < n
            invariant
                n == nwords(width as nat),
                k <= n,
                a@.len() == k,
                b@.len() == k,
                forall|j: int| 0 <= j < k ==> #[trigger] a@[j] == word_or_zero(digits@, j),
                forall|j: int| 0 <= j < k ==> #[trigger] b@[j] == 0,
            decreases n - k,
        {
            let d = if k < digits.len() {
                digits[k]
            } else {
                0
            };
            a.push(d);
            b.push(0);
            k = k + 1;
        }
        let ghost a0 = a@;
        let ghost b0 = b@;
        let a = masked(a, width);
        let b = masked(b, width);
        proof {
            assert forall|i: int| 0 <= i < width implies #[trigger] word_bit(a0, i) == word_bit(digits@, i) by {
                assert(a0[i / 32] == word_or_zero(digits@, i / 32));
                if i / 32 >= digits@.len() {
                    lemma_zero_word((i % 32) as u32);
                }
            }
            assert forall|i: int| 0 <= i < width implies !#[trigger] word_bit(b0, i) by {
                lemma_zero_word((i % 32) as u32);
            }
        }
        let r = LogicArray { a, b, width };
        assert(r.bits() =~= Seq::new(
            width as nat,
            |i: int|
                if word_bit(digits@, i) {
                    Logic::One
                } else {
                    Logic::Zero
                },
        ));
        r
    }
}

/// Is `l` stored with its `a` bit set (1 or X)?
pub open spec fn a_bit_of(l: Logic) -> bool {
    l is One || l is X
}

/// Is `l` stored with its `b` bit set (X or Z)?
pub open spec fn b_bit_of(l: Logic) -> bool {
    l is X || l is Z
}

/// Bit `i` of a 128-bit number.
pub open spec fn u128_bit(v: u128, i: int) -> bool {
    0 <= i < 128 && (v >> (i as u128)) & 1u128 == 1u128
}

proof fn lemma_u128_word_bit(v: u128, k: u32, r: u32)
    requires
        k < 4,
        r < 32,
    ensures
        ((((v >> ((32 * k) as u128)) as u32) >> r) & 1u32 == 1u32) == ((v >> ((32 * k + r) as u128))
            & 1u128 == 1u128),
{
    assert(((((v >> ((32 * k) as u128)) as u32) >> r) & 1u32 == 1u32) == ((v >> ((32 * k + r) as u128))
        & 1u128 == 1u128)) by (bit_vector)
        requires
            k < 4,
            r < 32,
    ;
}

/// Set bit `i` of the word sequence.
fn set_word_bit(w: &mut Vec<u32>, i: usize)
    requires
        i / 32 < old(w)@.len(),
    ensures
        final(w)@.len() == old(w)@.len(),
        forall|m: int| #[trigger] word_bit(final(w)@, m) == (m == i || word_bit(old(w)@, m)),
{
    let k = i / 32;
    let sh = (i % 32) as u32;
    let v = w[k] | (1u32 << sh);
    w.set(k, v);
    proof {
        assert forall|m: int| #[trigger] word_bit(w@, m) == (m == i || word_bit(old(w)@, m)) by {
            if 0 <= m && m / 32 == k as int {
                lemma_set_bit(old(w)@[k as int], sh, (m % 32) as u32);
                lemma_bit_is_bit(old(w)@[k as int], (m % 32) as u32);
            }
        }
    }
}

impl LogicArray {
    /// From a string of bit characters, most significant first: `0`, `1`,
    /// `z`/`Z`, anything else X. The width is the string's length.
    pub fn from_binstr(s: &str) -> (r: LogicArray)
        ensures
            r.wf(),
            r.spec_width() == s@.len(),
            r.bits() == Seq::new(s@.len(), |i: int| spec_from_char(s@[s@.len() - 1 - i])),
    {
        let cs = chars_of(s);
        let n = cs.len();
        let nw = word_count(n);
        let mut a: Vec<u32> = Vec::new();
        let mut b: Vec<u32> = Vec::new();
        let mut k: usize = 0;
        while k < nw
            invariant
                k <= nw,
                a@.len() == k,
                b@.len() == k,
                forall|j: int| 0 <= j < k ==> #[trigger] a@[j] == 0,
                forall|j: int| 0 <= j < k ==> #[trigger] b@[j] == 0,
            decreases nw - k,
        {
            a.push(0);
            b.push(0);
            k = k + 1;
        }
        proof {
            assert forall|m: int| !#[trigger] word_bit(a@, m) by {
                if 0 <= m && m / 32 < a@.len() {
                    lemma_zero_word((m % 32) as u32);
                }
            }
            assert forall|m: int| !#[trigger] word_bit(b@, m) by {
                if 0 <= m && m / 32 < b@.len() {
                    lemma_zero_word((m % 32) as u32);
                }
            }
        }
        let mut i: usize = 0;
        while i < n
            invariant
                cs@ == s@,
                n == s@.len(),
                nw == nwords(n as nat),
                a@.len() == nw,
                b@.len() == nw,
                i <= n,
                forall|m: int|
                    0 <= m < i ==> #[trigger] word_bit(a@, m) == a_bit_of(spec_from_char(s@[n - 1 - m])),
                forall|m: int|
                    0 <= m < i ==> #[trigger] word_bit(b@, m) == b_bit_of(spec_from_char(s@[n - 1 - m])),
                forall|m: int| i <= m ==> !#[trigger] word_bit(a@, m),
                forall|m: int| i <= m ==> !#[trigger] word_bit(b@, m),
            decreases n - i,
        {
            let l = Logic::from_char(cs[n - 1 - i]);
            match l {
                Logic::Zero => {},
                Logic::One => {
                    set_word_bit(&mut a, i);
                },
                Logic::X => {
                    set_word_bit(&mut a, i);
                    set_word_bit(&mut b, i);
                },
                Logic::Z => {
                    set_word_bit(&mut b, i);
                },
            }
            i = i + 1;
        }
        let r = LogicArray { a, b, width: n };
        assert(r.bits() =~= Seq::new(s@.len(), |i: int| spec_from_char(s@[s@.len() - 1 - i])));
        r
    }

    /// The low `width` bits of `v`, zero-extended past 128 bits.
    pub fn from_u128(v: u128, width: usize) -> (r: LogicArray)
        ensures
            r.wf(),
            r.spec_width() == width,
            r.bits() == Seq::new(
                width as nat,
                |i: int|
                    if u128_bit(v, i) {
                        Logic::One
                    } else {
                        Logic::Zero
                    },
            ),
            forall|k: int| 0 <= k < r.b_words().len() ==> r.b_words()[k] == 0,
    {
        let n = word_count(width);
        let mut a: Vec<u32> = Vec::new();
        let mut b: Vec<u32> = Vec::new();
        let mut k: usize = 0;
        while k < n
            invariant
                n == nwords(width as nat),
                k <= n,
                a@.len() == k,
                b@.len() == k,
                forall|j: int|
                    0 <= j < k ==> #[trigger] a@[j] == if j < 4 {
                        (v >> ((32 * j) as u128)) as u32
                    } else {
                        0u32
                    },
                forall|j: int| 0 <= j < k ==> #[trigger] b@[j] == 0,
            decreases n - k,
        {
            let w = if k < 4 {
                (v >> ((32 * k) as u128)) as u32
            } else {
                0
            };
            a.push(w);
            b.push(0);
            k = k + 1;
        }
        let ghost a0 = a@;
        let ghost b0 = b@;
        proof {
            assert forall|i: int| 0 <= i < width implies #[trigger] word_bit(a0, i) == u128_bit(v, i) by {
                let kk = i / 32;
                let rr = i % 32;
                if kk < 4 {
                    lemma_u128_word_bit(v, kk as u32, rr as u32);
                    assert(32 * kk + rr == i);
                } else {
                    lemma_zero_word(rr as u32);
                }
            }
            assert forall|i: int| 0 <= i < width implies !#[trigger] word_bit(b0, i) by {
                lemma_zero_word((i % 32) as u32);
            }
        }
        let a = masked(a, width);
        let b = masked(b, width);
        let r = LogicArray { a, b, width };
        assert(r.bits() =~= Seq::new(
            width as nat,
            |i: int|
                if u128_bit(v, i) {
                    Logic::One
                } else {
                    Logic::Zero
                },
        ));
        r
    }

    pub fn from_bool(v: bool, width: usize) -> (r: LogicArray)
        ensures
            r.wf(),
            r.spec_width() == width,
            r.bits() == Seq::new(
                width as nat,
                |i: int|
                    if u128_bit(if v { 1u128 } else { 0u128 }, i) {
                        Logic::One
                    } else {
                        Logic::Zero
                    },
            ),
    {
        LogicArray::from_u128(if v { 1 } else { 0 }, width)
    }

    pub fn from_u8(v: u8, width: usize) -> (r: LogicArray)
        ensures
            r.wf(),
            r.spec_width() == width,
            r.bits() == Seq::new(
                width as nat,
                |i: int|
                    if u128_bit(v as u128, i) {
                        Logic::One
                    } else {
                        Logic::Zero
                    },
            ),
    {
        LogicArray::from_u128(v as u128, width)
    }

    pub fn from_u16(v: u16, width: usize) -> (r: LogicArray)
        ensures
            r.wf(),
            r.spec_width() == width,
            r.bits() == Seq::new(
                width as nat,
                |i: int|
                    if u128_bit(v as u128, i) {
                        Logic::One
                    } else {
                        Logic::Zero
                    },
            ),
    {
        LogicArray::from_u128(v as u128, width)
    }

    pub fn from_u32(v: u32, width: usize) -> (r: LogicArray)
        ensures
            r.wf(),
            r.spec_width() == width,
            r.bits() == Seq::new(
                width as nat,
                |i: int|
                    if u128_bit(v as u128, i) {
                        Logic::One
                    } else {
                        Logic::Zero
                    },
            ),
    {
        LogicArray::from_u128(v as u128, width)
    }

    pub fn from_u64(v: u64, width: usize) -> (r: LogicArray)
        ensures
            r.wf(),
            r.spec_width() == width,
            r.bits() == Seq::new(
                width as nat,
                |i: int|
                    if u128_bit(v as u128, i) {
                        Logic::One
                    } else {
                        Logic::Zero
                    },
            ),
    {
        LogicArray::from_u128(v as u128, width)
    }
}

// ---------------------------------------------------------------------------
// Big integers
// ---------------------------------------------------------------------------

#[verifier::external_type_specification]
#[verifier::external_body]
pub struct ExBigUint(BigUint);

/// The base-2^32 digits of a big integer, least significant first, with no
/// zero digit at the top (none at all for zero).
pub uninterp spec fn digits_of(v: BigUint) -> Seq<u32>;

/// `d` without its zero digits at the top.
pub open spec fn trim_zeros(d: Seq<u32>) -> Seq<u32>
    decreases d.len(),
{
    if d.len() > 0 && d.last() == 0 {
        trim_zeros(d.drop_last())
    } else {
        d
    }
}

/// `BigUint::to_u32_digits`: the value's base-2^32 digits, least
/// significant first, as the value keeps them (normalized).
#[verifier::external_body]
pub(crate) fn biguint_digits(v: &BigUint) -> (d: Vec<u32>)
    ensures
        d@ == digits_of(*v),
{
    v.to_u32_digits()
}

/// `BigUint::from_slice`: the big integer whose base-2^32 digits, least
/// significant first, are `digits`; it drops the zero digits at the top.
#[verifier::external_body]
pub(crate) fn biguint_from_digits(digits: &Vec<u32>) -> (v: BigUint)
    ensures
        digits_of(v) == trim_zeros(digits@),
{
    BigUint::from_slice(digits.as_slice())
}

/// The `a` words as a number's low bits: word `k` is bits `32k..32k+32`.
pub open spec fn low_u64(a: Seq<u32>) -> u64 {
    (word_or_zero(a, 0) as u64) | ((word_or_zero(a, 1) as u64) << 32u64)
}

pub open spec fn low_u128(a: Seq<u32>) -> u128 {
    (word_or_zero(a, 0) as u128) | ((word_or_zero(a, 1) as u128) << 32u128) | ((word_or_zero(a, 2)
        as u128) << 64u128) | ((word_or_zero(a, 3) as u128) << 96u128)
}

impl LogicArray {
    /// A big integer's low `width` bits, as a two-state value.
    pub fn from_bigint(v: &BigUint, width: usize) -> (r: LogicArray)
        ensures
            r.wf(),
            r.spec_width() == width,
            r.bits() == Seq::new(
                width as nat,
                |i: int|
                    if word_bit(digits_of(*v), i) {
                        Logic::One
                    } else {
                        Logic::Zero
                    },
            ),
            forall|k: int| 0 <= k < r.b_words().len() ==> r.b_words()[k] == 0,
    {
        let d = biguint_digits(v);
        LogicArray::from_digits(&d, width)
    }

    fn four_state(&self) -> (e: ValueError)
        requires
            self.wf(),
        ensures
            e matches ValueError::FourState(s) && s@ == Seq::new(
                self.spec_width(),
                |j: int| spec_to_char(self.bits()[self.spec_width() - 1 - j]),
            ),
    {
        ValueError::FourState(self.to_binstr())
    }

    /// As a two-state `bool`: nonzero. X or Z bits are an error naming the
    /// value.
    pub fn try_to_bool(&self) -> (r: Result<bool, ValueError>)
        requires
            self.wf(),
        ensures
            self.is_two_state() ==> r == Ok::<bool, ValueError>(exists|k: int|
                0 <= k < self.a_words().len() && self.a_words()[k] != 0),
            !self.is_two_state() ==> r matches Err(ValueError::FourState(_)),
    {
        if !self.is_resolvable() {
            return Err(self.four_state());
        }
        let mut k: usize = 0;
        while k < self.a.len()
            invariant
                self.is_two_state(),
                k <= self.a@.len(),
                forall|j: int| 0 <= j < k ==> self.a@[j] == 0,
            decreases self.a@.len() - k,
        {
            if self.a[k] != 0 {
                assert(self.a_words()[k as int] != 0);
                return Ok(true);
            }
            k = k + 1;
        }
        Ok(false)
    }

    /// No `b` bit set: no X or Z anywhere.
    pub open spec fn is_two_state(&self) -> bool {
        forall|k: int| 0 <= k < self.b_words().len() ==> self.b_words()[k] == 0
    }

    fn word(&self, k: usize) -> (w: u32)
        ensures
            w == word_or_zero(self.a_words(), k as int),
    {
        if k < self.a.len() {
            self.a[k]
        } else {
            0
        }
    }

    /// As a `u8`: the low 8 bits. X or Z bits are an error.
    pub fn try_to_u8(&self) -> (r: Result<u8, ValueError>)
        requires
            self.wf(),
        ensures
            self.is_two_state() ==> r == Ok::<u8, ValueError>(word_or_zero(self.a_words(), 0) as u8),
            !self.is_two_state() ==> r matches Err(ValueError::FourState(_)),
    {
        if !self.is_resolvable() {
            return Err(self.four_state());
        }
        Ok(self.word(0) as u8)
    }

    pub fn try_to_u16(&self) -> (r: Result<u16, ValueError>)
        requires
            self.wf(),
        ensures
            self.is_two_state() ==> r == Ok::<u16, ValueError>(word_or_zero(self.a_words(), 0) as u16),
            !self.is_two_state() ==> r matches Err(ValueError::FourState(_)),
    {
        if !self.is_resolvable() {
            return Err(self.four_state());
        }
        Ok(self.word(0) as u16)
    }

    pub fn try_to_u32(&self) -> (r: Result<u32, ValueError>)
        requires
            self.wf(),
        ensures
            self.is_two_state() ==> r == Ok::<u32, ValueError>(word_or_zero(self.a_words(), 0)),
            !self.is_two_state() ==> r matches Err(ValueError::FourState(_)),
    {
        if !self.is_resolvable() {
            return Err(self.four_state());
        }
        Ok(self.word(0))
    }

    pub fn try_to_u64(&self) -> (r: Result<u64, ValueError>)
        requires
            self.wf(),
        ensures
            self.is_two_state() ==> r == Ok::<u64, ValueError>(low_u64(self.a_words())),
            !self.is_two_state() ==> r matches Err(ValueError::FourState(_)),
    {
        if !self.is_resolvable() {
            return Err(self.four_state());
        }
        Ok((self.word(0) as u64) | ((self.word(1) as u64) << 32u64))
    }

    pub fn try_to_u128(&self) -> (r: Result<u128, ValueError>)
        requires
            self.wf(),
        ensures
            self.is_two_state() ==> r == Ok::<u128, ValueError>(low_u128(self.a_words())),
            !self.is_two_state() ==> r matches Err(ValueError::FourState(_)),
    {
        if !self.is_resolvable() {
            return Err(self.four_state());
        }
        Ok((self.word(0) as u128) | ((self.word(1) as u128) << 32u128) | ((self.word(2) as u128)
            << 64u128) | ((self.word(3) as u128) << 96u128))
    }

    /// As a big integer whose digits are the `a` words. X or Z bits are an
    /// error.
    pub fn try_to_biguint(&self) -> (r: Result<BigUint, ValueError>)
        requires
            self.wf(),
        ensures
            self.is_two_state() <==> r is Ok,
            !self.is_two_state() ==> r matches Err(ValueError::FourState(_)),
            r matches Ok(v) ==> digits_of(v) == trim_zeros(self.a_words()),
    {
        if !self.is_resolvable() {
            return Err(self.four_state());
        }
        Ok(biguint_from_digits(&self.a))
    }
}

/// Reading a string of `0`, `1`, `x` and `z` characters and printing it
/// back gives the same string.
pub proof fn law_binstr_round_trip(s: Seq<char>, r: LogicArray)
    requires
        r.spec_width() == s.len(),
        r.bits() == Seq::new(s.len(), |i: int| spec_from_char(s[s.len() - 1 - i])),
        forall|k: int| 0 <= k < s.len() ==> (#[trigger] s[k] == '0' || s[k] == '1' || s[k] == 'x' || s[k] == 'z'),
    ensures
        Seq::new(r.spec_width(), |j: int| spec_to_char(r.bits()[r.spec_width() - 1 - j])) == s,
{
    assert(Seq::new(r.spec_width(), |j: int| spec_to_char(r.bits()[r.spec_width() - 1 - j])) =~= s);
}

} // verus!
