//! The value a failed test returns: its message.

use vstd::prelude::*;

use crate::methodology::sequence::SeqError;
use crate::text::to_string;

verus! {

pub struct TestError(pub String);

impl TestError {
    pub fn new(msg: &str) -> (e: TestError)
        ensures
            e.0@ == msg@,
    {
        TestError(to_string(msg))
    }

    pub fn to_string(&self) -> (s: String)
        ensures
            s@ == self.0@,
    {
        to_string(self.0.as_str())
    }

    /// A sequence failure, as its message.
    pub fn from_seq(e: SeqError) -> (t: TestError)
        ensures
            t.0@ == "sequence error: "@ + e.0@,
    {
        TestError(e.to_string())
    }
}

} // verus!
