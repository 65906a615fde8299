//! Why a simulator handle or a value could not be had.

use vstd::prelude::*;
use vstd::string::*;

use crate::text::{push_decimal, to_string};

verus! {

/// A handle lookup that failed.
#[derive(Debug, PartialEq, Eq)]
pub enum HandleError {
    /// The name did not resolve in the scope.
    NotFound { name: String, scope: String },
    /// The object exists but is not the requested kind.
    WrongKind { name: String, expected: &'static str, actual: String },
    NoTopModule,
}

/// A value that could not be read or written as asked.
#[derive(Debug, PartialEq, Eq)]
pub enum ValueError {
    /// The value has x/z bits and was asked for as an integer.
    FourState(String),
    /// The simulator did not supply the requested representation.
    Unavailable,
    /// A simulator string cannot hold an embedded NUL.
    InteriorNul,
    Width { want: u32, have: usize },
}

impl HandleError {
    /// The message the error reads as.
    pub fn to_string(&self) -> (s: String)
        ensures
            s@ == match self {
                HandleError::NotFound { name, scope } => "no object named '"@ + name@
                    + "' in scope '"@ + scope@ + "'"@,
                HandleError::WrongKind { name, expected, actual } => "'"@ + name@ + "' is a "@
                    + actual@ + ", expected "@ + expected@,
                HandleError::NoTopModule => "no top-level module found"@,
            },
    {
        match self {
            HandleError::NotFound { name, scope } => {
                let mut s = to_string("no object named '");
                s.append(name.as_str());
                s.append("' in scope '");
                s.append(scope.as_str());
                s.append("'");
                s
            },
            HandleError::WrongKind { name, expected, actual } => {
                let mut s = to_string("'");
                s.append(name.as_str());
                s.append("' is a ");
                s.append(actual.as_str());
                s.append(", expected ");
                s.append(expected);
                s
            },
            HandleError::NoTopModule => to_string("no top-level module found"),
        }
    }
}

impl ValueError {
    /// The message the error reads as.
    pub fn to_string(&self) -> (s: String)
        ensures
            s@ == match self {
                ValueError::FourState(v) => "value '"@ + v@ + "' has x/z bits"@,
                ValueError::Unavailable => "simulator did not return the requested value"@,
                ValueError::InteriorNul => "VPI string contains an embedded NUL byte"@,
                ValueError::Width { want, have } => "width mismatch: want "@ + crate::text::decimal(
                    *want as nat,
                ) + ", have "@ + crate::text::decimal(*have as nat),
            },
    {
        match self {
            ValueError::FourState(v) => {
                let mut s = to_string("value '");
                s.append(v.as_str());
                s.append("' has x/z bits");
                s
            },
            ValueError::Unavailable => to_string("simulator did not return the requested value"),
            ValueError::InteriorNul => to_string("VPI string contains an embedded NUL byte"),
            ValueError::Width { want, have } => {
                let mut s = to_string("width mismatch: want ");
                push_decimal(&mut s, *want as u64);
                s.append(", have ");
                push_decimal(&mut s, *have as u64);
                s
            },
        }
    }
}

} // verus!
