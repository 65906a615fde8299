use rustdv::sim::clock::Clock;
use rustdv::sim::log::{
    add_file_for, console_enabled_for, debug, files_for, global_log_file, info, log_to_file, remove_log_file,
    reset_config, set_console_for, set_level, set_level_for, warning, Level, LogConfig, Logger,
};
use rustdv::sim::time::SimDuration;

#[test]
fn units_scale_to_the_simulator_precision() {
    // A 1 ps simulator (precision 1e-12).
    assert_eq!(SimDuration::ns(10, -12).steps, 10_000);
    assert_eq!(SimDuration::us(2, -12).steps, 2_000_000);
    assert_eq!(SimDuration::ps(7, -12).steps, 7);
    assert_eq!(SimDuration::fs(3000, -12).steps, 3);
    assert_eq!(SimDuration::sec(1, -9).steps, 1_000_000_000);
    assert_eq!(SimDuration::from_unit(100, "us", -9).steps, 100_000);
    assert_eq!(SimDuration::from_unit(5, "steps", -9).steps, 5);
    assert_eq!(SimDuration::from_unit(1, "s", -3).steps, 1000);
    assert_eq!(SimDuration::from_unit(4, "ms", -3).steps, 4);
}

#[test]
fn clock_halves_split_an_odd_period_high_first_shorter() {
    let c = Clock::new("clk", SimDuration::steps(5));
    assert_eq!(c.halves(), (2, 3));
    let even = Clock::new("clk", SimDuration::steps(4));
    assert_eq!(even.halves(), (2, 2));
    assert_eq!(*even.sig(), "clk");
}

#[test]
fn the_global_threshold_decides_without_subtree_settings() {
    let mut cfg = LogConfig::new();
    assert!(info(&cfg));
    assert!(!debug(&cfg), "Info is the default threshold");
    set_level(&mut cfg, Level::Warning);
    assert!(!info(&cfg));
    assert!(warning(&cfg));
}

#[test]
fn the_longest_subtree_setting_wins() {
    let mut cfg = LogConfig::new();
    set_level_for(&mut cfg, "t.env", Level::Error);
    set_level_for(&mut cfg, "t.env.agent", Level::Debug);
    assert!(Logger::new("t.env.agent.driver").debug(&cfg));
    assert!(!Logger::new("t.env.scoreboard").warning(&cfg));
    assert!(Logger::new("t.env.scoreboard").error(&cfg));
    // `t.environment` is not under `t.env`.
    assert!(Logger::new("t.environment").info(&cfg));
    assert_eq!(Logger::new("t.env").path(), "t.env");
}

#[test]
fn console_and_file_routing_follow_the_subtree() {
    let mut cfg = LogConfig::new();
    assert!(console_enabled_for(&cfg, "t.env"));
    set_console_for(&mut cfg, "t.env", false);
    assert!(!console_enabled_for(&cfg, "t.env.agent"));
    assert!(console_enabled_for(&cfg, "t.other"));
    add_file_for(&mut cfg, "t.env", 3);
    log_to_file(&mut cfg, 9);
    assert_eq!(files_for(&cfg, "t.env.agent"), vec![3, 9], "subtree files first, then the global one");
    remove_log_file(&mut cfg);
    assert_eq!(files_for(&cfg, "t.env.agent"), vec![3]);
    reset_config(&mut cfg);
    assert!(console_enabled_for(&cfg, "t.env"));
    assert!(files_for(&cfg, "t.env").is_empty());
    assert_eq!(Level::Warning.as_str(), "WARNING");
}

#[test]
fn a_checked_duration_refuses_what_from_unit_cannot_take() {
    assert_eq!(SimDuration::try_from_unit(10, "ns", -12).map(|d| d.steps), Some(10_000));
    assert_eq!(SimDuration::try_from_unit(7, "steps", -9).map(|d| d.steps), Some(7));
    assert!(SimDuration::try_from_unit(1, "ps", -9).is_none());
    assert!(SimDuration::try_from_unit(1, "minutes", -9).is_none());
    assert!(SimDuration::try_from_unit(u64::MAX, "s", -15).is_none());
    assert_eq!(SimDuration::try_from_unit(2000, "ps", -9).map(|d| d.steps), Some(2));
}

#[test]
fn the_global_log_file_is_the_one_last_set() {
    let mut cfg = LogConfig::new();
    assert_eq!(global_log_file(&cfg), None);
    log_to_file(&mut cfg, 3);
    log_to_file(&mut cfg, 5);
    assert_eq!(global_log_file(&cfg), Some(5));
    remove_log_file(&mut cfg);
    assert_eq!(global_log_file(&cfg), None);
}
