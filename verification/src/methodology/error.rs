//! The value a failed test returns: a message and, for failures with a
//! known cause, a stable machine-readable kind that a test can declare it
//! expects.

use vstd::prelude::*;

use crate::methodology::config::ConfigError;
use crate::methodology::sequence::SeqError;
use crate::text::to_string;

verus! {

pub struct TestError {
    msg: String,
    kind: Option<&'static str>,
}

impl TestError {
    pub closed spec fn spec_message(&self) -> Seq<char> {
        self.msg@
    }

    pub closed spec fn spec_kind(&self) -> Option<Seq<char>> {
        match self.kind {
            None => None,
            Some(k) => Some(k@),
        }
    }

    /// An unclassified failure: the common case for a check that failed.
    pub fn new(msg: &str) -> (e: TestError)
        ensures
            e.spec_message() == msg@,
            e.spec_kind() is None,
    {
        TestError { msg: to_string(msg), kind: None }
    }

    /// A failure with a cause that an expected error can be matched against.
    pub fn with_kind(msg: &str, kind: &'static str) -> (e: TestError)
        ensures
            e.spec_message() == msg@,
            e.spec_kind() == Some(kind@),
    {
        TestError { msg: to_string(msg), kind: Some(kind) }
    }

    pub fn message(&self) -> (m: &str)
        ensures
            m@ == self.spec_message(),
    {
        self.msg.as_str()
    }

    /// The machine-readable cause, if this failure has one.
    pub fn kind(&self) -> (k: Option<&'static str>)
        ensures
            match k {
                None => self.spec_kind() is None,
                Some(s) => self.spec_kind() == Some(s@),
            },
    {
        self.kind
    }

    /// The message the error reads as.
    pub fn to_string(&self) -> (s: String)
        ensures
            s@ == self.spec_message(),
    {
        to_string(self.msg.as_str())
    }

    /// A configuration failure keeps its cause, so a test can tell "nothing
    /// was set" from "the wrong type".
    pub fn from_config(e: ConfigError) -> (t: TestError)
        ensures
            t.spec_message() == e.to_string_spec(),
            t.spec_kind() == Some(e.kind_spec()),
    {
        let m = e.to_string();
        TestError::with_kind(m.as_str(), e.kind())
    }

    /// A sequence failure, as its message.
    pub fn from_seq(e: SeqError) -> (t: TestError)
        ensures
            t.spec_message() == "sequence error: "@ + e.0@,
            t.spec_kind() is None,
    {
        let m = e.to_string();
        TestError::new(m.as_str())
    }

    /// A failure described by a message alone.
    pub fn from_message(msg: String) -> (t: TestError)
        ensures
            t.spec_message() == msg@,
            t.spec_kind() is None,
    {
        TestError { msg, kind: None }
    }
}

} // verus!
