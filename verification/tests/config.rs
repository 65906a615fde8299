use std::rc::Rc;
use rustdv::methodology::config::{glob_match, more_specific, resolve, ConfigDb, ConfigError};

fn fresh() -> ConfigDb<u32> {
    ConfigDb::new()
}

fn set_u32(db: &mut ConfigDb<u32>, offset: &str, field: &str, v: u32) {
    db.set(None, offset, field, v, "u32", &format!("{v:?}"));
}

#[test]
fn set_and_get_round_trip() {
    let mut db = fresh();
    set_u32(&mut db, "env.tester", "COUNT", 7);
    assert_eq!(db.get(Some("env.tester"), "", "COUNT", "u32").ok(), Some(7));
}

#[test]
fn a_miss_is_an_error_not_a_default() {
    let mut db = fresh();
    match db.get(Some("env"), "", "NOPE", "u32") {
        Err(ConfigError::NotFound { field, .. }) => assert_eq!(field, "NOPE"),
        _ => panic!("expected NotFound"),
    }
}

#[test]
fn a_wrong_type_names_both_types() {
    let mut db: ConfigDb<String> = ConfigDb::new();
    db.set(None, "env", "N", String::from("1"), "u32", "1");
    match db.get(Some("env"), "", "N", "alloc::string::String") {
        Err(ConfigError::TypeMismatch { stored, requested, .. }) => {
            assert!(stored.contains("u32"), "stored type named: {stored}");
            assert!(requested.contains("String"), "requested type named: {requested}");
        }
        _ => panic!("expected TypeMismatch"),
    }
}

#[test]
fn a_wildcard_reaches_every_component_below() {
    let mut db = fresh();
    set_u32(&mut db, "*", "BFM", 99);
    for path in ["env", "env.tester", "env.agent.driver"] {
        assert_eq!(db.get(Some(path), "", "BFM", "u32").ok(), Some(99), "`*` should reach {path}");
    }
}

#[test]
fn a_more_specific_path_wins_over_a_wildcard() {
    let mut db: ConfigDb<String> = ConfigDb::new();
    db.set(None, "*", "MSG", String::from("everyone"), "String", "\"everyone\"");
    db.set(None, "env.loga", "MSG", String::from("just me"), "String", "\"just me\"");
    assert_eq!(db.get(Some("env.loga"), "", "MSG", "String").ok().as_deref(), Some("just me"));
    assert_eq!(db.get(Some("env.logb"), "", "MSG", "String").ok().as_deref(), Some("everyone"));
}

#[test]
fn a_prefix_glob_does_not_match_a_longer_sibling() {
    let mut db = fresh();
    set_u32(&mut db, "env.t*", "MSG", 1);
    assert!(db.get(Some("env.tester"), "", "MSG", "u32").is_ok());
    assert!(db.get(Some("env.logger"), "", "MSG", "u32").is_err(), "env.t* must not reach env.logger");
}

#[test]
fn the_most_recent_write_wins_at_equal_precedence() {
    let mut db = fresh();
    set_u32(&mut db, "env", "N", 1);
    set_u32(&mut db, "env", "N", 2);
    assert_eq!(db.get(Some("env"), "", "N", "u32").ok(), Some(2));
}

#[test]
fn an_offset_resolves_against_the_context() {
    let mut db = fresh();
    set_u32(&mut db, "env.loga", "MSG", 5);
    // The env asks what its child will see.
    assert_eq!(db.get(Some("env"), "loga", "MSG", "u32").ok(), Some(5));
}

#[test]
fn a_null_context_addresses_from_the_top() {
    let mut db: ConfigDb<String> = ConfigDb::new();
    db.set(None, "env.loga", "MSG", String::from("hello"), "String", "\"hello\"");
    assert_eq!(db.get(None, "env.loga", "MSG", "String").ok().as_deref(), Some("hello"));
}

#[test]
fn clear_empties_it() {
    let mut db = fresh();
    set_u32(&mut db, "env", "N", 1);
    db.clear();
    assert!(db.get(Some("env"), "", "N", "u32").is_err());
}

#[test]
fn it_holds_a_shared_handle() {
    #[derive(Debug)]
    struct Bfm(u32);
    let bfm = Rc::new(Bfm(7));
    let mut db: ConfigDb<Rc<Bfm>> = ConfigDb::new();
    db.set(None, "*", "BFM", bfm.clone(), "Rc<Bfm>", "Bfm(7)");
    let got = db.get(Some("env.driver"), "", "BFM", "Rc<Bfm>").ok().unwrap();
    assert_eq!(got.0, 7);
    assert!(Rc::ptr_eq(&got, &bfm), "the same object, not a copy");
}

#[test]
fn dump_renders_every_entry() {
    let mut db: ConfigDb<String> = ConfigDb::new();
    db.set(None, "env", "A", String::from("1"), "u32", "1");
    db.set(None, "env.x", "B", String::from("two"), "String", "\"two\"");
    let dumped = db.dump();
    assert!(dumped.contains("env"), "dump names the paths: {dumped}");
    assert!(dumped.contains('A') && dumped.contains('B'), "and the fields");
}

#[test]
fn dump_lists_every_precedence_highest_first() {
    let mut db = fresh();
    db.set_in_build(true);
    db.set(Some("t.env"), "agent", "N", 1, "u32", "1");
    db.set(Some("t"), "env.agent", "N", 2, "u32", "2");
    db.set_in_build(false);
    let want = format!(
        "{:<28}: {:<10}: DATA\n{:<28}: {:<10}: {{1000: 2, 999: 1}}",
        "PATH", "KEY", "t.env.agent", "N"
    );
    assert_eq!(db.dump(), want);
}

#[test]
fn the_shallowest_setter_wins_during_build() {
    let mut db = fresh();
    db.set_in_build(true);
    // The child writes last, and still loses to its parent.
    db.set(Some("t"), "env.agent", "N", 1, "u32", "1");
    db.set(Some("t.env"), "agent", "N", 2, "u32", "2");
    db.set_in_build(false);
    assert_eq!(db.get(None, "t.env.agent", "N", "u32").ok(), Some(1));
    // A write after the build outranks every build-time write.
    db.set(None, "t.env.agent", "N", 3, "u32", "3");
    assert_eq!(db.get(None, "t.env.agent", "N", "u32").ok(), Some(3));
}

#[test]
fn exists_at_sees_any_precedence_without_an_error() {
    let mut db = fresh();
    assert!(!db.exists_at(None, "env", "N"));
    set_u32(&mut db, "env.*", "N", 1);
    assert!(db.exists_at(None, "env.a", "N"));
    assert!(!db.exists_at(None, "env", "N"));
    assert!(!db.exists_at(None, "env.a", "M"));
}

#[test]
fn tracing_records_each_operation() {
    let mut db = fresh();
    assert!(!db.is_tracing());
    db.set_tracing(true);
    set_u32(&mut db, "env", "N", 4);
    let _ = db.get(Some("env"), "", "N", "u32");
    let _ = db.get(None, "nowhere", "N", "u32");
    assert_eq!(
        db.take_trace(),
        vec![
            "CFGDB/SET context=<none> offset=\"env\" -> env N=4".to_string(),
            "CFGDB/GET context=env offset=\"\" -> env N=4".to_string(),
            "CFGDB/GET context=<none> offset=\"nowhere\" -> nowhere N=<not found>".to_string(),
        ]
    );
    db.clear();
    assert!(!db.is_tracing(), "clear switches tracing off");
}

#[test]
fn the_errors_read_as_their_messages_and_kinds() {
    let nf = ConfigError::NotFound { path: "env".to_string(), field: "N".to_string() };
    assert_eq!(nf.kind(), "config_not_found");
    assert_eq!(
        nf.to_string(),
        "ConfigDb: no value for \"N\" at \"env\" (never set, path does not match, or the key is misspelled)"
    );
    let tm = ConfigError::TypeMismatch {
        path: "env".to_string(),
        field: "N".to_string(),
        stored: "u32".to_string(),
        requested: "String".to_string(),
    };
    assert_eq!(tm.kind(), "config_type_mismatch");
    assert_eq!(tm.to_string(), "ConfigDb: \"N\" at \"env\" holds a u32, but a String was requested");
}

#[test]
fn globs_and_specificity() {
    assert!(glob_match("env.agent.driver", "*"));
    assert!(glob_match("env.agent.driver", "env.*.driver"));
    assert!(glob_match("env", "env*"));
    assert!(!glob_match("env.agent", "env.d*"));
    assert!(more_specific("env.a", "env.*"));
    assert!(!more_specific("env.*", "env.a"));
    assert_eq!(resolve(Some("env"), "loga"), "env.loga");
    assert_eq!(resolve(Some(""), "loga"), "loga");
    assert_eq!(resolve(Some("env"), ""), "env");
    assert_eq!(resolve(None, "x.y"), "x.y");
}

#[test]
fn factory_overrides_come_from_the_reserved_fields() {
    let mut db: ConfigDb<u8> = ConfigDb::new();
    db.set(None, "*", "__factory_override__Driver", 1, "Override", "-> FastDriver");
    db.set(None, "env", "OTHER", 2, "u8", "2");
    assert_eq!(
        db.factory_overrides(),
        vec![("*".to_string(), "Driver".to_string(), "FastDriver".to_string())]
    );
}

#[test]
fn equally_specific_globs_go_to_the_latest_write() {
    let mut db: ConfigDb<u32> = ConfigDb::new();
    db.set(None, "*.loga", "F", 1, "u32", "1");
    db.set(None, "env.*", "F", 2, "u32", "2");
    assert_eq!(db.get(None, "env.loga", "F", "u32").ok(), Some(2));
    db.set(None, "*.loga", "F", 3, "u32", "3");
    assert_eq!(db.get(None, "env.loga", "F", "u32").ok(), Some(3));
}

#[test]
fn equally_specific_globs_go_to_the_higher_precedence_first() {
    let mut db: ConfigDb<u32> = ConfigDb::new();
    db.set_in_build(true);
    // "top.*.loga" at precedence 1000, then "top.env.*" at 999: neither
    // glob is more specific than the other.
    db.set(Some("top"), "*.loga", "F", 1, "u32", "1");
    db.set(Some("top.env"), "*", "F", 2, "u32", "2");
    db.set_in_build(false);
    assert_eq!(db.get(None, "top.env.loga", "F", "u32").ok(), Some(1));
    assert_eq!(db.get(None, "top.env.logb", "F", "u32").ok(), Some(2));
}
