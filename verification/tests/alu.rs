use rustdv::tinyalu::alu_item::{predict, AluCommand, AluResult, Ops};

#[test]
fn predict_add_carries_into_bit8() {
    let r = predict(&AluCommand { a: 0xFF, b: 0xFF, op: Ops::Add });
    assert_eq!(r.result, 0x01FE);
}

#[test]
fn predict_all_ops() {
    assert_eq!(predict(&AluCommand { a: 2, b: 3, op: Ops::Add }).result, 5);
    assert_eq!(predict(&AluCommand { a: 0xF0, b: 0x3C, op: Ops::And }).result, 0x0030);
    assert_eq!(predict(&AluCommand { a: 0xF0, b: 0x3C, op: Ops::Xor }).result, 0x00CC);
    assert_eq!(predict(&AluCommand { a: 4, b: 5, op: Ops::Mul }).result, 20);
}

#[test]
fn transaction_derives_do_the_uvm_object_jobs() {
    let t = AluCommand { a: 1, b: 2, op: Ops::Xor };
    let copy = t.clone(); // do_copy
    assert_eq!(t, copy); // do_compare
    let s = format!("{t:?}"); // convert2string
    assert!(s.contains("Xor"));
}

#[test]
fn ops_roundtrip() {
    for op in Ops::all() {
        assert_eq!(Ops::from_u64(op.as_u64()), Some(op));
    }
    assert_eq!(Ops::from_u64(0), None);
}

#[test]
fn the_largest_product_fits() {
    assert_eq!(predict(&AluCommand { a: 255, b: 255, op: Ops::Mul }).result, 65025);
    assert_eq!(Ops::from_u64(5), None);
    assert_eq!(Ops::Mul.as_u64(), 4);
}

use rustdv::tinyalu::checks::{
    compare_streams, coverage_holes, op_count, operation_walk, stream_count_failure,
};

#[test]
fn the_scoreboard_pairs_streams_in_order_and_flags_wrong_results() {
    let cmds = vec![
        AluCommand { a: 1, b: 2, op: Ops::Add },
        AluCommand { a: 0xff, b: 0xff, op: Ops::Mul },
        AluCommand { a: 6, b: 3, op: Ops::Xor },
    ];
    let results = vec![AluResult { result: 3 }, AluResult { result: 0xfe01 }, AluResult { result: 4 }];
    let c = compare_streams(&cmds, &results);
    assert_eq!(c.compared, 3);
    assert_eq!(c.mismatches, vec![2]);
    let c = compare_streams(&cmds, &results[..1].to_vec());
    assert_eq!(c.compared, 1);
    assert!(c.mismatches.is_empty());
    assert_eq!(stream_count_failure(3, 1), Some("scoreboard: saw 3 commands and 1 results".to_string()));
    assert_eq!(stream_count_failure(2, 2), None);
}

#[test]
fn coverage_reports_the_operations_never_exercised() {
    let seen = vec![Ops::Add, Ops::Xor, Ops::Add];
    assert_eq!(coverage_holes(&seen), vec![Ops::And, Ops::Mul]);
    assert!(coverage_holes(&operation_walk(1)).is_empty());
    assert_eq!(op_count(&seen, Ops::Add), 2);
    assert_eq!(op_count(&seen, Ops::Mul), 0);
    let w = operation_walk(2);
    assert_eq!(w, vec![Ops::Add, Ops::And, Ops::Xor, Ops::Mul, Ops::Add, Ops::And, Ops::Xor, Ops::Mul]);
    assert!(operation_walk(0).is_empty());
}
