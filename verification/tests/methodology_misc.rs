use rustdv::methodology::component::{
    check_connections, first_failure, run_all_next, unconnected_ports, Active, CheckSink, PortInfo,
    RunStep,
};
use rustdv::methodology::config::{ConfigDb, ConfigError};
use rustdv::methodology::error::TestError;
use rustdv::methodology::factory::{override_key, Factory, RustdvComp};
use rustdv::methodology::sequence::{RustdvSeq, SeqError, SeqOverrides};
use rustdv::methodology::singleton::Singletons;
use rustdv::text::last_path_segment;

#[test]
fn check_failures_are_joined_into_one_message() {
    let mut sink = CheckSink::new();
    assert!(sink.is_ok());
    assert!(CheckSink::new().into_result().is_ok());
    sink.error("a mismatch");
    sink.error("another");
    assert!(!sink.is_ok());
    assert_eq!(sink.errors().len(), 2);
    assert_eq!(sink.into_result(), Err("2 check failure(s): a mismatch; another".to_string()));
    assert_ne!(Active::Active, Active::Passive);
}

#[test]
fn a_config_error_keeps_its_kind() {
    let e = TestError::from_config(ConfigError::NotFound { path: "env".to_string(), field: "BFM".to_string() });
    assert_eq!(e.kind(), Some("config_not_found"));
    assert!(e.message().contains("BFM"));
    let s = TestError::from_seq(SeqError("x".to_string()));
    assert_eq!(s.message(), "sequence error: x");
    assert_eq!(s.kind(), None);
    assert_eq!(TestError::with_kind("m", "k").kind(), Some("k"));
}

#[test]
fn the_override_lookup_prefers_the_instance_path() {
    let mut db: ConfigDb<u8> = ConfigDb::new();
    Factory::set_type_override_by_name(&mut db, "Driver", "FastDriver", 1);
    Factory::store_override(&mut db, None, "t.env.agent.driver", "Driver", "SlowDriver", 2);
    assert_eq!(Factory::lookup_override(&mut db, "Driver", "t.env.agent.driver"), Some(2));
    assert_eq!(Factory::lookup_override(&mut db, "Driver", "t.env.other"), Some(1));
    assert_eq!(Factory::lookup_override(&mut db, "Monitor", "t.env.other"), None);
    assert_eq!(override_key("Driver"), "__factory_override__Driver");
    let lines = Factory::print_lines(&db);
    assert_eq!(lines[0], "Factory overrides:");
    assert_eq!(lines.len(), 3);
    assert_eq!(lines[1], format!("  {:<28}: {} -> {}", "*", "Driver", "FastDriver"));
}

#[test]
fn a_slot_resolves_once_and_only_when_overridable() {
    let mut db: ConfigDb<u8> = ConfigDb::new();
    Factory::set_type_override_by_name(&mut db, "Base", "Derived", 7);
    let build = |v: u8| if v == 7 { "derived" } else { "other" };
    let mut fixed = RustdvComp::fixed("base");
    assert!(!fixed.resolve(&mut db, "t", "child", build), "a fixed slot is never overridden");
    assert_eq!(fixed.as_node(), Some(&"base"));
    let mut slot = RustdvComp::overridable("base", "Base");
    assert!(slot.resolve(&mut db, "t", "child", build));
    assert_eq!(slot.as_node(), Some(&"derived"), "the override's maker built the replacement");
    slot.put_node("base");
    assert!(!slot.resolve(&mut db, "t", "child", build), "a slot resolves once");
    assert_eq!(slot.take_node(), Some("base"));
    assert_eq!(slot.as_node(), None);
    slot.put_node("derived");
    assert_eq!(slot.as_node(), Some(&"derived"));
}

#[test]
fn singletons_are_per_key_until_cleared() {
    let mut s: Singletons<u32> = Singletons::new();
    assert!(!s.singleton_exists("Bfm"));
    s.register("Bfm", 1);
    s.register("Bfm", 2);
    assert_eq!(s.get("Bfm"), Some(1), "the first object stays");
    assert!(s.singleton_exists("Bfm"));
    s.clear_singletons();
    assert_eq!(s.get("Bfm"), None);
}

#[test]
fn sequence_overrides_replace_and_clear() {
    let mut o: SeqOverrides<u8> = SeqOverrides::new();
    assert_eq!(o.override_for("BaseSeq"), None);
    o.set_seq_override("BaseSeq", 1);
    o.set_seq_override("BaseSeq", 2);
    o.set_seq_override("OtherSeq", 3);
    assert_eq!(o.override_for("BaseSeq"), Some(2));
    assert_eq!(o.override_for("OtherSeq"), Some(3));
    o.clear_seq_overrides();
    assert_eq!(o.override_for("BaseSeq"), None);
}

#[test]
fn an_empty_sequence_slot_reports_itself_by_name() {
    let mut empty: RustdvSeq<u8> = RustdvSeq::empty();
    assert_eq!(empty.name(), "<empty>");
    match empty.get() {
        Err(SeqError(m)) => assert_eq!(m, "an empty sequence slot"),
        Ok(_) => panic!("nothing is in the slot"),
    }
    let mut full = RustdvSeq::new(5u8, "MaxSeq");
    assert_eq!(full.name(), "MaxSeq");
    if let Ok(s) = full.get() {
        *s = 6;
    }
    assert!(matches!(full.get(), Ok(&mut 6)));
}

#[test]
fn required_unconnected_ports_are_reported_with_owner_and_kind() {
    let infos = vec![
        PortInfo { name: "drv", kind: "seq_item", required: true, connected: false },
        PortInfo { name: "ap", kind: "publish", required: false, connected: false },
        PortInfo { name: "get", kind: "get", required: true, connected: true },
        PortInfo { name: "put", kind: "put", required: true, connected: false },
    ];
    assert_eq!(
        unconnected_ports("env.agent", &infos),
        vec!["env.agent.drv (seq_item)".to_string(), "env.agent.put (put)".to_string()]
    );
    assert_eq!(unconnected_ports("", &infos)[0], "(top).drv (seq_item)");
    assert!(unconnected_ports("x", &Vec::new()).is_empty());
}

#[test]
fn connection_check_lists_every_miss_in_one_classified_error() {
    assert!(check_connections(&Vec::new()).is_ok());
    let missing = vec!["env.a (put)".to_string(), "env.b (get)".to_string()];
    let e = check_connections(&missing).unwrap_err();
    assert_eq!(
        e.message(),
        "these TLM ports were declared but never connected:\n  env.a (put)\n  env.b (get)"
    );
    assert_eq!(e.kind(), Some("tlm_unconnected_port"));
}

#[test]
fn a_joined_phase_reports_its_first_failure() {
    assert!(first_failure(vec![Ok(()), Ok(())]).is_ok());
    assert!(first_failure(Vec::new()).is_ok());
    let r = first_failure(vec![Ok(()), Err(TestError::new("first")), Err(TestError::new("second"))]);
    assert_eq!(r.unwrap_err().message(), "first");
}

/// Builds the sequence the overrides name for `requested`, or `requested`.
fn create_seq(o: &SeqOverrides<&'static str>, requested: &'static str) -> RustdvSeq<()> {
    o.create_seq(requested, |to: &'static str| RustdvSeq::new((), to), || RustdvSeq::new((), requested))
}

type Maker = fn() -> &'static str;

fn make_derived() -> &'static str {
    "Derived"
}

/// Resolves a slot the way the build walk does: the override's maker is
/// called and its product replaces the default.
fn resolve_slot(slot: &mut RustdvComp<&'static str>, db: &mut ConfigDb<Maker>, ctx: &str, name: &str) {
    slot.resolve(db, ctx, name, |make: Maker| make());
}

#[test]
fn a_fixed_slot_holds_what_it_was_given() {
    let slot = RustdvComp::fixed("Base");
    assert_eq!(slot.as_node(), Some(&"Base"));
}

#[test]
fn a_type_override_swaps_a_create_slot_and_not_a_new_slot() {
    let mut db: ConfigDb<Maker> = ConfigDb::new();
    Factory::set_type_override_by_name(&mut db, "Base", "Derived", make_derived);
    let mut overridable = RustdvComp::overridable("Base", "Base");
    resolve_slot(&mut overridable, &mut db, "env", "tester");
    assert_eq!(overridable.as_node(), Some(&"Derived"));
    let mut fixed = RustdvComp::fixed("Base");
    resolve_slot(&mut fixed, &mut db, "env", "scoreboard");
    assert_eq!(fixed.as_node(), Some(&"Base"), "new_comp is never swapped");
}

#[test]
fn no_override_leaves_the_requested_type() {
    let mut db: ConfigDb<Maker> = ConfigDb::new();
    let mut slot = RustdvComp::overridable("Base", "Base");
    resolve_slot(&mut slot, &mut db, "env", "tester");
    assert_eq!(slot.as_node(), Some(&"Base"));
}

#[test]
fn an_instance_override_applies_only_at_its_path() {
    let mut db: ConfigDb<Maker> = ConfigDb::new();
    Factory::store_override(&mut db, Some("env"), "tester", "Base", "Derived", make_derived);
    let mut here = RustdvComp::overridable("Base", "Base");
    resolve_slot(&mut here, &mut db, "env", "tester");
    assert_eq!(here.as_node(), Some(&"Derived"));
    let mut elsewhere = RustdvComp::overridable("Base", "Base");
    resolve_slot(&mut elsewhere, &mut db, "env", "other");
    assert_eq!(elsewhere.as_node(), Some(&"Base"));
}

#[test]
fn a_slot_resolves_once() {
    let mut db: ConfigDb<Maker> = ConfigDb::new();
    let mut slot = RustdvComp::overridable("Base", "Base");
    resolve_slot(&mut slot, &mut db, "env", "tester");
    Factory::set_type_override_by_name(&mut db, "Base", "Derived", make_derived);
    resolve_slot(&mut slot, &mut db, "env", "tester");
    assert_eq!(
        slot.as_node(),
        Some(&"Base"),
        "an override installed after the walk passed does not apply"
    );
}

#[test]
fn take_and_put_move_the_box_out_and_back() {
    let mut slot = RustdvComp::fixed("Base");
    let node = slot.take_node().expect("something to take");
    assert!(slot.as_node().is_none(), "the slot is empty during the run phase");
    slot.put_node(node);
    assert_eq!(slot.as_node(), Some(&"Base"), "and restored after");
}

#[test]
fn create_seq_builds_the_requested_type_by_default() {
    let o: SeqOverrides<&'static str> = SeqOverrides::new();
    assert_eq!(create_seq(&o, "BaseSeq").name(), "BaseSeq");
}

#[test]
fn a_sequence_override_swaps_the_type() {
    let mut o: SeqOverrides<&'static str> = SeqOverrides::new();
    o.set_seq_override("BaseSeq", "RandomSeq");
    assert_eq!(create_seq(&o, "BaseSeq").name(), "RandomSeq", "the test asked for Base and got Random");
}

#[test]
fn clearing_sequence_overrides_restores_the_default() {
    let mut o: SeqOverrides<&'static str> = SeqOverrides::new();
    o.set_seq_override("BaseSeq", "RandomSeq");
    o.clear_seq_overrides();
    assert_eq!(create_seq(&o, "BaseSeq").name(), "BaseSeq");
}

#[test]
fn an_override_on_one_sequence_leaves_others_alone() {
    let mut o: SeqOverrides<&'static str> = SeqOverrides::new();
    o.set_seq_override("BaseSeq", "RandomSeq");
    assert_eq!(create_seq(&o, "RandomSeq").name(), "RandomSeq");
}

#[test]
fn a_sequence_name_defaults_to_its_type() {
    // The full path the standard library gives for a type `MyFancySeq`
    // declared in this test file.
    assert_eq!(last_path_segment("methodology_misc::MyFancySeq"), "MyFancySeq");
    assert_eq!(last_path_segment("plain"), "plain");
    assert_eq!(last_path_segment("a::b::"), "");
}

fn make_base() -> &'static str {
    "Base"
}

#[test]
fn an_instance_override_beats_a_type_override() {
    let mut db: ConfigDb<Maker> = ConfigDb::new();
    Factory::set_type_override_by_name(&mut db, "Base", "Base", make_base);
    Factory::store_override(&mut db, Some("env"), "tester", "Base", "Derived", make_derived);
    let mut slot = RustdvComp::overridable("Other", "Base");
    resolve_slot(&mut slot, &mut db, "env", "tester");
    assert_eq!(slot.as_node(), Some(&"Derived"));
    let mut elsewhere = RustdvComp::overridable("Other", "Base");
    resolve_slot(&mut elsewhere, &mut db, "env", "other");
    assert_eq!(elsewhere.as_node(), Some(&"Base"), "the type override applies everywhere else");
}

#[test]
fn the_first_request_builds_and_later_ones_share_it() {
    let mut s: Singletons<u32> = Singletons::new();
    let mut built = 0;
    assert_eq!(s.singleton("Bfm", || 7), 7);
    assert!(s.singleton_exists("Bfm"));
    assert_eq!(s.singleton("Bfm", || { built += 1; 8 }), 7, "a later request gets the first object");
    assert_eq!(built, 0, "and its constructor never runs");
    s.clear_singletons();
    assert!(!s.singleton_exists("Bfm"));
    assert_eq!(s.singleton("Bfm", || 9), 9, "after clearing, the next request builds afresh");
}

#[test]
fn the_run_phase_runs_in_place_children_first() {
    assert!(matches!(run_all_next(2, None, None), RunStep::RunInPlace));
    assert!(matches!(run_all_next(0, Some(vec![Ok(()), Ok(())]), None), RunStep::RunOwn));
    assert!(matches!(run_all_next(2, Some(Vec::new()), None), RunStep::RunTakenWithOwn));
}

#[test]
fn an_in_place_failure_restores_and_reports_the_first_failure() {
    let step = run_all_next(
        1,
        Some(vec![Ok(()), Err(TestError::new("first")), Err(TestError::new("second"))]),
        None,
    );
    match step {
        RunStep::RestoreAndFinish(Err(e)) => assert_eq!(e.message(), "first"),
        _ => panic!("an in-place failure ends the phase"),
    }
}

#[test]
fn the_final_join_always_restores_and_reports() {
    assert!(matches!(run_all_next(3, None, Some(vec![Ok(()), Ok(())])), RunStep::RestoreAndFinish(Ok(()))));
    match run_all_next(1, None, Some(vec![Ok(()), Err(TestError::new("own run"))])) {
        RunStep::RestoreAndFinish(Err(e)) => assert_eq!(e.message(), "own run"),
        _ => panic!("the joined result is the phase's"),
    }
}
