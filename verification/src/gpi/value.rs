//! Four-state logic values.

use vstd::prelude::*;

verus! {

/// One four-state bit.
#[derive(Copy, Clone, Debug, PartialEq, Eq, Structural, Hash)]
pub enum Logic {
    Zero,
    One,
    X,
    Z,
}

impl Logic {
    /// The bit a character denotes: `0`, `1`, `z`/`Z`; anything else is X.
    pub fn from_char(c: char) -> (l: Logic)
        ensures
            l == spec_from_char(c),
    {
        if c == '0' {
            Logic::Zero
        } else if c == '1' {
            Logic::One
        } else if c == 'z' || c == 'Z' {
            Logic::Z
        } else {
            Logic::X
        }
    }

    pub fn to_char(self) -> (c: char)
        ensures
            c == spec_to_char(self),
    {
        match self {
            Logic::Zero => '0',
            Logic::One => '1',
            Logic::X => 'x',
            Logic::Z => 'z',
        }
    }

    /// Is this a two-state value (no X or Z)?
    pub fn is_resolvable(self) -> (b: bool)
        ensures
            b == (self is Zero || self is One),
    {
        match self {
            Logic::Zero | Logic::One => true,
            _ => false,
        }
    }

    /// `true` is `One`, `false` is `Zero`.
    pub fn from_bool(b: bool) -> (l: Logic)
        ensures
            l == (if b {
                Logic::One
            } else {
                Logic::Zero
            }),
    {
        if b {
            Logic::One
        } else {
            Logic::Zero
        }
    }
}

/// The character a bit prints as.
pub open spec fn spec_to_char(l: Logic) -> char {
    match l {
        Logic::Zero => '0',
        Logic::One => '1',
        Logic::X => 'x',
        Logic::Z => 'z',
    }
}

/// The bit a character reads as.
pub open spec fn spec_from_char(c: char) -> Logic {
    if c == '0' {
        Logic::Zero
    } else if c == '1' {
        Logic::One
    } else if c == 'z' || c == 'Z' {
        Logic::Z
    } else {
        Logic::X
    }
}

/// Printing a bit and reading it back gives the same bit.
pub proof fn law_char_round_trip(l: Logic)
    ensures
        spec_from_char(spec_to_char(l)) == l,
{
}

/// Reading a bit character ignores case: an upper-case letter reads as the
/// same bit as its lower-case form (so `Z` is high impedance, like `z`).
pub proof fn law_reading_ignores_case(c: char)
    requires
        'A' <= c <= 'Z',
    ensures
        spec_from_char(c) == spec_from_char(((c as u32) + 32) as char),
{
}

/// Reading never invents a driven value: only `0` and `1` read as two-state
/// bits.
pub proof fn law_only_digits_are_driven(c: char)
    ensures
        spec_from_char(c) == Logic::Zero <==> c == '0',
        spec_from_char(c) == Logic::One <==> c == '1',
{
}

} // verus!