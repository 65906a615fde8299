//! Simulation time: a duration is a count of simulator precision steps.

use vstd::prelude::*;

use crate::text::str_eq;

verus! {

/// `10^k` as a mathematical integer.
pub open spec fn pow10(k: nat) -> nat
    decreases k,
{
    if k == 0 {
        1
    } else {
        10 * pow10((k - 1) as nat)
    }
}

/// The number of steps that `n * 10^exp` seconds spans at a simulator
/// precision of `10^prec` seconds.
pub open spec fn scaled_steps(n: nat, exp: int, prec: int) -> int {
    if exp >= prec {
        (n * pow10((exp - prec) as nat)) as int
    } else {
        (n / pow10((prec - exp) as nat)) as int
    }
}

/// Whether `n * 10^exp` seconds is representable at precision `10^prec`
/// without overflowing a `u64` and without falling below one step.
pub open spec fn representable(n: nat, exp: int, prec: int) -> bool {
    if exp >= prec {
        exp - prec <= 19 && n * pow10((exp - prec) as nat) <= u64::MAX
    } else {
        prec - exp <= 19 && n % pow10((prec - exp) as nat) == 0
    }
}

proof fn lemma_pow10_positive(k: nat)
    ensures
        pow10(k) >= 1,
    decreases k,
{
    if k > 0 {
        lemma_pow10_positive((k - 1) as nat);
    }
}

proof fn lemma_pow10_monotone(j: nat, k: nat)
    requires
        j <= k,
    ensures
        pow10(j) <= pow10(k),
    decreases k,
{
    if j < k {
        lemma_pow10_monotone(j, (k - 1) as nat);
    }
}

proof fn lemma_pow10_19_fits()
    ensures
        pow10(19) == 10000000000000000000,
{
    reveal_with_fuel(pow10, 20);
}

/// `10^k` for `k <= 19`, the largest power of ten a `u64` holds.
fn pow10_u64(k: u32) -> (r: u64)
    requires
        k <= 19,
    ensures
        r == pow10(k as nat),
{
    let mut r: u64 = 1;
    let mut i: u32 = 0;
    while i < k
        invariant
            i <= k <= 19,
            r == pow10(i as nat),
        decreases k - i,
    {
        proof {
            lemma_pow10_monotone((i + 1) as nat, 19);
            lemma_pow10_19_fits();
        }
        r = r * 10;
        i = i + 1;
    }
    r
}

/// The decimal exponent of a cocotb-style time unit name, if it is one.
pub open spec fn unit_exponent(unit: Seq<char>) -> Option<int> {
    if unit == "fs"@ {
        Some(-15)
    } else if unit == "ps"@ {
        Some(-12)
    } else if unit == "ns"@ {
        Some(-9)
    } else if unit == "us"@ {
        Some(-6)
    } else if unit == "ms"@ {
        Some(-3)
    } else if unit == "s"@ || unit == "sec"@ {
        Some(0)
    } else {
        None
    }
}

/// Is this unit name a raw step count?
pub open spec fn is_step_unit(unit: Seq<char>) -> bool {
    unit == "step"@ || unit == "steps"@
}

/// Is `n` of `unit` a duration this simulator precision can express?
pub open spec fn unit_accepts(n: nat, unit: Seq<char>, prec: int) -> bool {
    match unit_exponent(unit) {
        Some(e) => representable(n, e, prec),
        None => is_step_unit(unit),
    }
}

/// The number of steps `n` of `unit` spans at precision `10^prec`.
pub open spec fn unit_steps(n: nat, unit: Seq<char>, prec: int) -> int {
    match unit_exponent(unit) {
        Some(e) => scaled_steps(n, e, prec),
        None => n as int,
    }
}

/// A span of simulation time in simulator precision steps.
#[derive(Copy, Clone, Debug, PartialEq, Eq, PartialOrd, Ord)]
pub struct SimDuration {
    pub steps: u64,
}

impl SimDuration {
    pub fn steps(steps: u64) -> (d: SimDuration)
        ensures
            d.steps == steps,
    {
        SimDuration { steps }
    }

    /// `n * 10^exp` seconds at a simulator precision of `10^prec` seconds.
    /// A duration finer than one precision step is refused by `requires`.
    fn from_pow10(n: u64, exp: i32, prec: i32) -> (d: SimDuration)
        requires
            representable(n as nat, exp as int, prec as int),
        ensures
            d.steps == scaled_steps(n as nat, exp as int, prec as int),
    {
        if exp >= prec {
            let k = (exp - prec) as u32;
            let factor = pow10_u64(k);
            SimDuration { steps: n * factor }
        } else {
            let k = (prec - exp) as u32;
            let div = pow10_u64(k);
            proof {
                lemma_pow10_positive(k as nat);
            }
            SimDuration { steps: n / div }
        }
    }

    pub fn fs(n: u64, prec: i32) -> (d: SimDuration)
        requires
            representable(n as nat, -15, prec as int),
        ensures
            d.steps == scaled_steps(n as nat, -15, prec as int),
    {
        Self::from_pow10(n, -15, prec)
    }

    pub fn ps(n: u64, prec: i32) -> (d: SimDuration)
        requires
            representable(n as nat, -12, prec as int),
        ensures
            d.steps == scaled_steps(n as nat, -12, prec as int),
    {
        Self::from_pow10(n, -12, prec)
    }

    pub fn ns(n: u64, prec: i32) -> (d: SimDuration)
        requires
            representable(n as nat, -9, prec as int),
        ensures
            d.steps == scaled_steps(n as nat, -9, prec as int),
    {
        Self::from_pow10(n, -9, prec)
    }

    pub fn us(n: u64, prec: i32) -> (d: SimDuration)
        requires
            representable(n as nat, -6, prec as int),
        ensures
            d.steps == scaled_steps(n as nat, -6, prec as int),
    {
        Self::from_pow10(n, -6, prec)
    }

    pub fn ms(n: u64, prec: i32) -> (d: SimDuration)
        requires
            representable(n as nat, -3, prec as int),
        ensures
            d.steps == scaled_steps(n as nat, -3, prec as int),
    {
        Self::from_pow10(n, -3, prec)
    }

    pub fn sec(n: u64, prec: i32) -> (d: SimDuration)
        requires
            representable(n as nat, 0, prec as int),
        ensures
            d.steps == scaled_steps(n as nat, 0, prec as int),
    {
        Self::from_pow10(n, 0, prec)
    }

    /// Parse a cocotb-style unit name ("fs", "ps", "ns", "us", "ms", "s" or
    /// "sec", "step" or "steps").
    pub fn from_unit(n: u64, unit: &str, prec: i32) -> (d: SimDuration)
        requires
            unit_accepts(n as nat, unit@, prec as int),
        ensures
            d.steps == unit_steps(n as nat, unit@, prec as int),
    {
        if str_eq(unit, "fs") {
            Self::fs(n, prec)
        } else if str_eq(unit, "ps") {
            Self::ps(n, prec)
        } else if str_eq(unit, "ns") {
            Self::ns(n, prec)
        } else if str_eq(unit, "us") {
            Self::us(n, prec)
        } else if str_eq(unit, "ms") {
            Self::ms(n, prec)
        } else if str_eq(unit, "s") || str_eq(unit, "sec") {
            Self::sec(n, prec)
        } else {
            Self::steps(n)
        }
    }

    /// Is `unit` a unit name `from_unit` knows?
    pub fn is_known_unit(unit: &str) -> (b: bool)
        ensures
            b == (unit_exponent(unit@) is Some || is_step_unit(unit@)),
    {
        str_eq(unit, "fs") || str_eq(unit, "ps") || str_eq(unit, "ns") || str_eq(unit, "us")
            || str_eq(unit, "ms") || str_eq(unit, "s") || str_eq(unit, "sec") || str_eq(unit, "step")
            || str_eq(unit, "steps")
    }

    /// `from_unit` where the unit is known and the duration is a whole
    /// number of precision steps that fits; `None` otherwise.
    pub fn try_from_unit(n: u64, unit: &str, prec: i32) -> (d: Option<SimDuration>)
        ensures
            d is Some <==> unit_accepts(n as nat, unit@, prec as int),
            d matches Some(x) ==> x.steps == unit_steps(n as nat, unit@, prec as int),
    {
        let exp: Option<i64> = if str_eq(unit, "fs") {
            Some(-15)
        } else if str_eq(unit, "ps") {
            Some(-12)
        } else if str_eq(unit, "ns") {
            Some(-9)
        } else if str_eq(unit, "us") {
            Some(-6)
        } else if str_eq(unit, "ms") {
            Some(-3)
        } else if str_eq(unit, "s") || str_eq(unit, "sec") {
            Some(0)
        } else {
            None
        };
        assert(match exp {
            Some(e) => unit_exponent(unit@) == Some(e as int),
            None => unit_exponent(unit@) is None,
        });
        let ok = match exp {
            None => str_eq(unit, "step") || str_eq(unit, "steps"),
            Some(e) => {
                let p = prec as i64;
                if e >= p {
                    let k = e - p;
                    if k <= 19 {
                        let f = pow10_u64(k as u32);
                        n.checked_mul(f).is_some()
                    } else {
                        false
                    }
                } else {
                    let k = p - e;
                    if k <= 19 {
                        let f = pow10_u64(k as u32);
                        proof {
                            lemma_pow10_positive(k as nat);
                        }
                        n % f == 0
                    } else {
                        false
                    }
                }
            },
        };
        if ok {
            Some(Self::from_unit(n, unit, prec))
        } else {
            None
        }
    }
}

} // verus!
