use rustdv::methodology::error::TestError;
use rustdv::runner::{
    apply_testcase_filter, regression_failed, score, test_seed, xml_safe_message, Outcome, RunResult,
};
use rustdv::sim::executor::TaskError;

fn fail_msg(o: &Outcome) -> Option<String> {
    match o {
        Outcome::Fail { msg, .. } => Some(msg.clone()),
        _ => None,
    }
}

#[test]
fn runner_timeout_is_reported() {
    let o = score(RunResult::TimedOut, Some((100, "us")), None, None, false);
    assert_eq!(fail_msg(&o).as_deref(), Some("timeout after 100us"));
}

#[test]
fn runner_expect_fail_accepts_any_failure() {
    let failed = RunResult::Finished(Err(TestError::new("boom")));
    assert!(score(failed, None, None, None, true).is_pass());
    let passed = RunResult::Finished(Ok(()));
    let o = score(passed, None, None, None, true);
    assert_eq!(fail_msg(&o).as_deref(), Some("expected failure but test passed"));
}

#[test]
fn runner_expect_error_matches_the_cause() {
    let right = RunResult::Finished(Err(TestError::with_kind("no value", "config_not_found")));
    assert!(score(right, None, None, Some("config_not_found"), false).is_pass());

    let wrong = RunResult::Finished(Err(TestError::with_kind("bad type", "config_type_mismatch")));
    let o = score(wrong, None, None, Some("config_not_found"), false);
    assert_eq!(
        fail_msg(&o).as_deref(),
        Some("expected error 'config_not_found', got config_type_mismatch: bad type")
    );

    let plain = RunResult::Finished(Err(TestError::new("oops")));
    let o = score(plain, None, None, Some("config_not_found"), false);
    assert_eq!(
        fail_msg(&o).as_deref(),
        Some("expected error 'config_not_found', got an unclassified failure: oops")
    );

    let passed = RunResult::Finished(Ok(()));
    let o = score(passed, None, None, Some("config_not_found"), false);
    assert_eq!(fail_msg(&o).as_deref(), Some("expected error 'config_not_found' but test passed"));
}

#[test]
fn runner_panic_fails_the_test() {
    let o = score(RunResult::TaskFailed(TaskError::Panicked("bang".to_string())), None, None, None, false);
    assert_eq!(fail_msg(&o).as_deref(), Some("test task: task panicked: bang"));
}

#[test]
fn runner_background_panic_fails_the_test() {
    let o = score(RunResult::Finished(Ok(())), None, Some("task 'x' panicked: y".to_string()), None, false);
    assert_eq!(fail_msg(&o).as_deref(), Some("task 'x' panicked: y"));
    // A test that already failed keeps its own message.
    let o = score(
        RunResult::Finished(Err(TestError::new("first"))),
        None,
        Some("later".to_string()),
        None,
        false,
    );
    assert_eq!(fail_msg(&o).as_deref(), Some("first"));
}

#[test]
fn the_filter_selects_by_case_insensitive_substring() {
    let names: Vec<String> = ["conc_two_runs", "ConcJoin", "sig_round_trips", "alu_random"]
        .iter()
        .map(|s| s.to_string())
        .collect();
    assert_eq!(apply_testcase_filter(&names, None), Ok(vec![0, 1, 2, 3]));
    assert_eq!(apply_testcase_filter(&names, Some(" CONC , alu ")), Ok(vec![0, 1, 3]));
    assert_eq!(apply_testcase_filter(&names, Some(" , ")), Ok(vec![0, 1, 2, 3]));
    assert_eq!(
        apply_testcase_filter(&names, Some("nothing")),
        Err("RUSTDV_TESTCASE=nothing matched no test".to_string())
    );
}

#[test]
fn seeds_and_verdicts() {
    assert_eq!(test_seed(7, 2), 9);
    assert_eq!(test_seed(u64::MAX, 2), 1);
    assert!(!regression_failed(&vec![Outcome::Pass, Outcome::Skip]));
    assert!(regression_failed(&vec![Outcome::Pass, Outcome::Fail { msg: "x".to_string(), kind: None }]));
    assert_eq!(xml_safe_message("a \"b\" <c>"), "a 'b' (c)");
}
