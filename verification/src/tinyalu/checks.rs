//! What the TinyALU testbench decides at the end of a run: which observed
//! results disagree with the golden model, whether the two streams had the
//! same length, which operations the stimulus never exercised; and the
//! order in which its sequences walk the operations.

use vstd::prelude::*;

use crate::text::{decimal, push_decimal, to_string};
use crate::tinyalu::alu_item::{predict, spec_predict, AluCommand, AluResult, Ops};

verus! {

/// The positions below `n` at which the observed result differs from the
/// prediction for the command observed at the same position.
pub open spec fn mismatches_below(cmds: Seq<AluCommand>, results: Seq<AluResult>, n: nat) -> Seq<usize>
    decreases n,
{
    if n == 0 {
        Seq::empty()
    } else {
        let r = mismatches_below(cmds, results, (n - 1) as nat);
        if spec_predict(cmds[n - 1]) != results[n - 1].result {
            r.push((n - 1) as usize)
        } else {
            r
        }
    }
}

/// How many command/result pairs the scoreboard compares: the streams are
/// paired in order and the shorter one ends the comparison.
pub open spec fn pairs(cmds: Seq<AluCommand>, results: Seq<AluResult>) -> nat {
    if cmds.len() <= results.len() {
        cmds.len()
    } else {
        results.len()
    }
}

/// The scoreboard's comparison of the two observed streams.
pub struct Comparison {
    /// How many pairs were compared.
    pub compared: usize,
    /// The positions of the pairs whose result was not the predicted one.
    pub mismatches: Vec<usize>,
}

pub fn compare_streams(cmds: &Vec<AluCommand>, results: &Vec<AluResult>) -> (c: Comparison)
    ensures
        c.compared == pairs(cmds@, results@),
        c.mismatches@ == mismatches_below(cmds@, results@, pairs(cmds@, results@)),
{
    let n = if cmds.len() <= results.len() {
        cmds.len()
    } else {
        results.len()
    };
    let mut mismatches: Vec<usize> = Vec::new();
    let mut i: usize = 0;
    while i < n
        invariant
            n == pairs(cmds@, results@),
            n <= cmds@.len(),
            n <= results@.len(),
            i <= n,
            mismatches@ == mismatches_below(cmds@, results@, i as nat),
        decreases n - i,
    {
        let expected = predict(&cmds[i]);
        if expected.result != results[i].result {
            mismatches.push(i);
        }
        i = i + 1;
    }
    Comparison { compared: n, mismatches }
}

/// The failure for streams of different lengths: a command with no result
/// is a real failure that the pairing would otherwise hide.
pub open spec fn count_failure(cmds: nat, results: nat) -> Seq<char> {
    "scoreboard: saw "@ + decimal(cmds) + " commands and "@ + decimal(results) + " results"@
}

pub fn stream_count_failure(cmds: usize, results: usize) -> (r: Option<String>)
    ensures
        cmds == results <==> r is None,
        r matches Some(s) ==> s@ == count_failure(cmds as nat, results as nat),
{
    if cmds == results {
        None
    } else {
        let mut s = to_string("scoreboard: saw ");
        push_decimal(&mut s, cmds as u64);
        s.append(" commands and ");
        push_decimal(&mut s, results as u64);
        s.append(" results");
        Some(s)
    }
}

pub open spec fn all_ops() -> Seq<Ops> {
    seq![Ops::Add, Ops::And, Ops::Xor, Ops::Mul]
}

/// The operations, in opcode order, that the observed commands never used.
pub open spec fn holes_below(seen: Seq<Ops>, n: nat) -> Seq<Ops>
    decreases n,
{
    if n == 0 {
        Seq::empty()
    } else {
        let r = holes_below(seen, (n - 1) as nat);
        if seen.contains(all_ops()[n - 1]) {
            r
        } else {
            r.push(all_ops()[n - 1])
        }
    }
}

fn was_seen(seen: &Vec<Ops>, op: Ops) -> (b: bool)
    ensures
        b == seen@.contains(op),
{
    let mut i: usize = 0;
    while i < seen.len()
        invariant
            i <= seen@.len(),
            forall|j: int| 0 <= j < i ==> seen@[j] != op,
        decreases seen.len() - i,
    {
        if seen[i] == op {
            assert(seen@[i as int] == op);
            return true;
        }
        i = i + 1;
    }
    false
}

/// Functional coverage: the operations the stimulus never exercised, in
/// opcode order. Each one is a check failure.
pub fn coverage_holes(seen: &Vec<Ops>) -> (h: Vec<Ops>)
    ensures
        h@ == holes_below(seen@, 4),
{
    let ops = Ops::all();
    let mut h: Vec<Ops> = Vec::new();
    let mut i: usize = 0;
    while i < 4
        invariant
            ops@ == all_ops(),
            i <= 4,
            h@ == holes_below(seen@, i as nat),
        decreases 4 - i,
    {
        let op = ops[i];
        if !was_seen(seen, op) {
            h.push(op);
        }
        i = i + 1;
    }
    h
}

/// How often `op` occurs in what was seen.
pub open spec fn times_seen(seen: Seq<Ops>, op: Ops) -> nat
    decreases seen.len(),
{
    if seen.len() == 0 {
        0
    } else {
        times_seen(seen.drop_last(), op) + if seen.last() == op {
            1nat
        } else {
            0nat
        }
    }
}

/// The coverage report's count for one operation.
pub fn op_count(seen: &Vec<Ops>, op: Ops) -> (n: usize)
    ensures
        n == times_seen(seen@, op),
{
    let mut n: usize = 0;
    let mut i: usize = 0;
    while i < seen.len()
        invariant
            i <= seen@.len(),
            n == times_seen(seen@.take(i as int), op),
            n <= i,
        decreases seen.len() - i,
    {
        assert(seen@.take(i + 1).drop_last() =~= seen@.take(i as int));
        if seen[i] == op {
            n = n + 1;
        }
        i = i + 1;
    }
    assert(seen@.take(seen.len() as int) =~= seen@);
    n
}

/// The order in which a sequence drives operations: every operation, in
/// opcode order, `rounds` times over.
pub fn operation_walk(rounds: usize) -> (w: Vec<Ops>)
    requires
        rounds * 4 <= usize::MAX,
    ensures
        w@.len() == rounds * 4,
        forall|i: int| 0 <= i < w@.len() ==> #[trigger] w@[i] == all_ops()[i % 4],
{
    let ops = Ops::all();
    let mut w: Vec<Ops> = Vec::new();
    let mut r: usize = 0;
    while r < rounds
        invariant
            ops@ == all_ops(),
            r <= rounds,
            rounds * 4 <= usize::MAX,
            w@.len() == r * 4,
            forall|i: int| 0 <= i < w@.len() ==> #[trigger] w@[i] == all_ops()[i % 4],
        decreases rounds - r,
    {
        let mut k: usize = 0;
        while k < 4
            invariant
                ops@ == all_ops(),
                r < rounds,
                rounds * 4 <= usize::MAX,
                k <= 4,
                w@.len() == r * 4 + k,
                forall|i: int| 0 <= i < w@.len() ==> #[trigger] w@[i] == all_ops()[i % 4],
            decreases 4 - k,
        {
            assert((r * 4 + k) % 4 == k as int) by (nonlinear_arith)
                requires
                    k < 4,
            ;
            w.push(ops[k]);
            k = k + 1;
        }
        r = r + 1;
    }
    w
}

} // verus!
