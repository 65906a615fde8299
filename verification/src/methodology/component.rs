//! What the component tree's check phase collects, whether an agent
//! drives the design or only watches it, which declared ports were left
//! unconnected, and which result a joined phase reports.

use vstd::prelude::*;

use crate::methodology::error::TestError;
use crate::text::{decimal, join, join_strings, push_decimal, to_string};

verus! {

/// Whether an agent drives the design (`Active`) or only monitors it.
#[derive(Copy, Clone, Debug, PartialEq, Eq, Structural)]
pub enum Active {
    Active,
    Passive,
}

/// Collector for check-phase failures.
pub struct CheckSink {
    errors: Vec<String>,
}

/// The failure text for a non-empty set of check errors.
pub open spec fn check_failure_text(errors: Seq<Seq<char>>) -> Seq<char> {
    decimal(errors.len()) + " check failure(s): "@ + join(errors, "; "@)
}

impl CheckSink {
    /// The failures recorded so far, in order.
    pub closed spec fn spec_errors(&self) -> Seq<Seq<char>> {
        self.errors@.map_values(|e: String| e@)
    }

    pub fn new() -> (c: CheckSink)
        ensures
            c.spec_errors() == Seq::<Seq<char>>::empty(),
    {
        let c = CheckSink { errors: Vec::new() };
        assert(c.spec_errors() =~= Seq::<Seq<char>>::empty());
        c
    }

    /// Record a failure. (Logging it is the caller's part.)
    pub fn error(&mut self, msg: &str)
        ensures
            final(self).spec_errors() == old(self).spec_errors().push(msg@),
    {
        self.errors.push(to_string(msg));
        assert(self.spec_errors() =~= old(self).spec_errors().push(msg@));
    }

    pub fn is_ok(&self) -> (b: bool)
        ensures
            b == (self.spec_errors().len() == 0),
    {
        self.errors.len() == 0
    }

    pub fn errors(&self) -> (e: &[String])
        ensures
            e@.map_values(|x: String| x@) == self.spec_errors(),
    {
        self.errors.as_slice()
    }

    /// `Ok` when nothing failed; otherwise every failure in one message.
    pub fn into_result(self) -> (r: Result<(), String>)
        ensures
            self.spec_errors().len() == 0 ==> r is Ok,
            self.spec_errors().len() > 0 ==> (r matches Err(m) && m@ == check_failure_text(
                self.spec_errors(),
            )),
    {
        if self.errors.len() == 0 {
            Ok(())
        } else {
            let mut m = String::new();
            push_decimal(&mut m, self.errors.len() as u64);
            m.append(" check failure(s): ");
            let j = join_strings(&self.errors, "; ");
            m.append(j.as_str());
            Err(m)
        }
    }
}

/// What a component declares about one of its TLM ports.
pub struct PortInfo {
    pub name: &'static str,
    pub kind: &'static str,
    /// Analysis ports are not required: nobody has to subscribe.
    pub required: bool,
    pub connected: bool,
}

/// How a component is named in a connection report: its path, or
/// `(top)` for the root.
pub open spec fn owner_label(path: Seq<char>) -> Seq<char> {
    if path.len() == 0 {
        "(top)"@
    } else {
        path
    }
}

/// `owner.name (kind)`.
pub open spec fn missing_line(path: Seq<char>, p: PortInfo) -> Seq<char> {
    owner_label(path) + "."@ + p.name@ + " ("@ + p.kind@ + ")"@
}

/// The report lines of a component's required ports that nobody
/// connected, in declaration order.
pub open spec fn unconnected_in(path: Seq<char>, infos: Seq<PortInfo>) -> Seq<Seq<char>>
    decreases infos.len(),
{
    if infos.len() == 0 {
        Seq::empty()
    } else {
        let rest = unconnected_in(path, infos.drop_last());
        let p = infos.last();
        if p.required && !p.connected {
            rest.push(missing_line(path, p))
        } else {
            rest
        }
    }
}

/// The required, unconnected ports of one component at `path`, each as
/// `path.name (kind)`.
pub fn unconnected_ports(path: &str, infos: &Vec<PortInfo>) -> (out: Vec<String>)
    ensures
        out@.map_values(|s: String| s@) == unconnected_in(path@, infos@),
{
    let mut out: Vec<String> = Vec::new();
    let mut i: usize = 0;
    while i < infos.len()
        invariant
            i <= infos.len(),
            out@.map_values(|s: String| s@) == unconnected_in(path@, infos@.take(i as int)),
        decreases infos.len() - i,
    {
        let p = &infos[i];
        assert(infos@.take(i as int + 1).drop_last() =~= infos@.take(i as int));
        assert(infos@.take(i as int + 1).last() == infos@[i as int]);
        if p.required && !p.connected {
            let mut line = if path.unicode_len() == 0 {
                to_string("(top)")
            } else {
                to_string(path)
            };
            line.append(".");
            line.append(p.name);
            line.append(" (");
            line.append(p.kind);
            line.append(")");
            let ghost before = out@;
            out.push(line);
            assert(out@.map_values(|s: String| s@) =~= before.map_values(|s: String| s@).push(
                missing_line(path@, infos@[i as int]),
            ));
        }
        i = i + 1;
    }
    assert(infos@.take(infos.len() as int) =~= infos@);
    out
}

/// The message that lists every unconnected port.
pub open spec fn connection_report(missing: Seq<Seq<char>>) -> Seq<char>
    decreases missing.len(),
{
    if missing.len() == 0 {
        "these TLM ports were declared but never connected:"@
    } else {
        connection_report(missing.drop_last()) + "\n  "@ + missing.last()
    }
}

/// `Ok` when every required port was connected; otherwise one error,
/// classified `tlm_unconnected_port`, that lists all the misses at once.
pub fn check_connections(missing: &Vec<String>) -> (r: Result<(), TestError>)
    ensures
        missing@.len() == 0 <==> r is Ok,
        r matches Err(e) ==> e.spec_message() == connection_report(
            missing@.map_values(|s: String| s@),
        ) && e.spec_kind() == Some("tlm_unconnected_port"@),
{
    if missing.len() == 0 {
        return Ok(());
    }
    let mut msg = to_string("these TLM ports were declared but never connected:");
    let mut i: usize = 0;
    while i < missing.len()
        invariant
            i <= missing.len(),
            msg@ == connection_report(missing@.map_values(|s: String| s@).take(i as int)),
        decreases missing.len() - i,
    {
        let ghost m = missing@.map_values(|s: String| s@);
        assert(m.take(i as int + 1).drop_last() =~= m.take(i as int));
        msg.append("\n  ");
        msg.append(missing[i].as_str());
        i = i + 1;
    }
    assert(missing@.map_values(|s: String| s@).take(missing.len() as int) =~= missing@.map_values(
        |s: String| s@,
    ));
    Err(TestError::with_kind(msg.as_str(), "tlm_unconnected_port"))
}

/// What a joined phase reports: the first failure in join order, or `Ok`
/// when every branch succeeded. (The other branches still ran to the end.)
pub fn first_failure(results: Vec<Result<(), TestError>>) -> (r: Result<(), TestError>)
    ensures
        (forall|i: int| 0 <= i < results@.len() ==> results@[i] is Ok) ==> r is Ok,
        forall|i: int|
            0 <= i < results@.len() && results@[i] is Err && (forall|j: int|
                0 <= j < i ==> results@[j] is Ok) ==> r == results@[i],
{
    let mut results = results;
    let ghost orig = results@;
    let n = results.len();
    // Walk from the back so each branch is moved out without cloning.
    let mut found: Result<(), TestError> = Ok(());
    let mut idx: usize = n;
    while idx > 0
        invariant
            idx <= n,
            n == orig.len(),
            results@ == orig.take(idx as int),
            found is Ok ==> forall|j: int| idx <= j < n ==> orig[j] is Ok,
            found is Err ==> exists|j: int|
                idx <= j < n && orig[j] is Err && found == orig[j] && forall|l: int|
                    idx <= l < j ==> orig[l] is Ok,
        decreases idx,
    {
        let r = results.pop().unwrap();
        idx = idx - 1;
        assert(r == orig[idx as int]);
        if r.is_err() {
            found = r;
        }
    }
    proof {
        assert forall|i: int|
            0 <= i < orig.len() && orig[i] is Err && (forall|j: int|
                0 <= j < i ==> orig[j] is Ok) implies found == orig[i] by {
            if found is Ok {
                assert(orig[i] is Ok);
            } else {
                let j = choose|j: int|
                    0 <= j < n && orig[j] is Err && found == orig[j] && forall|l: int|
                        0 <= l < j ==> orig[l] is Ok;
                if j < i {
                    assert(orig[j] is Ok);
                } else if i < j {
                    assert(orig[i] is Ok);
                }
            }
        }
    }
    found
}

/// `r` is what a join reports for `results`: `Ok` when every branch
/// succeeded, else the first failure in join order.
pub open spec fn is_first_failure(results: Seq<Result<(), TestError>>, r: Result<(), TestError>) -> bool {
    &&& (forall|i: int| 0 <= i < results.len() ==> results[i] is Ok) ==> r is Ok
    &&& forall|i: int|
        0 <= i < results.len() && #[trigger] results[i] is Err && (forall|j: int|
            0 <= j < i ==> results[j] is Ok) ==> r == results[i]
}

/// A failure at `i` means there is a first failure, at or before `i`.
proof fn lemma_first_err(results: Seq<Result<(), TestError>>, i: int)
    requires
        0 <= i < results.len(),
        results[i] is Err,
    ensures
        exists|k: int|
            0 <= k <= i && #[trigger] results[k] is Err && forall|j: int| 0 <= j < k ==> results[j] is Ok,
    decreases i,
{
    if exists|j: int| 0 <= j < i && #[trigger] results[j] is Err {
        let j = choose|j: int| 0 <= j < i && #[trigger] results[j] is Err;
        lemma_first_err(results, j);
    } else {
        assert(forall|j: int| 0 <= j < i ==> results[j] is Ok);
    }
}

/// The next step of a node's run phase, which goes in two stages: the
/// children held in place run joined together and finish first; then the
/// factory-built children, moved out of the node beforehand, run joined with
/// the node's own run. Whatever happens, the moved-out children are put back
/// before the phase reports.
pub enum RunStep {
    /// Run the children held in place, joined.
    RunInPlace,
    /// No child was moved out: run the node's own body alone.
    RunOwn,
    /// Run the moved-out children joined with the node's own body.
    RunTakenWithOwn,
    /// Put the moved-out children back and report this.
    RestoreAndFinish(Result<(), TestError>),
}

/// Decide the run phase's next step for a node from which `taken` children
/// were moved out, given what the in-place join reported (`None` before it
/// ran) and what the final join reported (`None` before it ran). A failure
/// in the in-place join ends the phase with that failure; the final join's
/// first failure, or `Ok`, is the phase's result.
pub fn run_all_next(
    taken: usize,
    in_place: Option<Vec<Result<(), TestError>>>,
    joined: Option<Vec<Result<(), TestError>>>,
) -> (s: RunStep)
    ensures
        joined matches Some(j) ==> (s matches RunStep::RestoreAndFinish(r) && is_first_failure(j@, r)),
        joined is None && in_place is None ==> s is RunInPlace,
        joined is None ==> (in_place matches Some(v) ==> {
            &&& (forall|i: int| 0 <= i < v@.len() ==> v@[i] is Ok) ==> {
                &&& taken == 0 ==> s is RunOwn
                &&& taken > 0 ==> s is RunTakenWithOwn
            }
            &&& !(forall|i: int| 0 <= i < v@.len() ==> v@[i] is Ok) ==> (s matches RunStep::RestoreAndFinish(r)
                && r is Err && is_first_failure(v@, r))
        }),
{
    match joined {
        Some(j) => RunStep::RestoreAndFinish(first_failure(j)),
        None => match in_place {
            None => RunStep::RunInPlace,
            Some(v) => {
                let ghost vs = v@;
                let r = first_failure(v);
                match r {
                    Err(e) => {
                        proof {
                            assert(!(forall|i: int| 0 <= i < vs.len() ==> vs[i] is Ok));
                        }
                        RunStep::RestoreAndFinish(Err(e))
                    },
                    Ok(()) => {
                        proof {
                            assert forall|i: int| 0 <= i < vs.len() implies vs[i] is Ok by {
                                if vs[i] is Err {
                                    lemma_first_err(vs, i);
                                    let k = choose|k: int|
                                        0 <= k <= i && #[trigger] vs[k] is Err && forall|j: int|
                                            0 <= j < k ==> vs[j] is Ok;
                                    assert(r == vs[k]);
                                }
                            }
                        }
                        if taken == 0 {
                            RunStep::RunOwn
                        } else {
                            RunStep::RunTakenWithOwn
                        }
                    },
                }
            },
        },
    }
}

} // verus!
