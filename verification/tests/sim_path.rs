use rustdv::sim::path::{str_is_under, RustdvPath};

#[test]
fn child_extends_and_renders() {
    let root = RustdvPath::root("RandomTest");
    let env = root.child("env");
    let sb = env.child("scoreboard");
    assert_eq!(sb.as_str(), "RandomTest.env.scoreboard");
    assert_eq!(sb.depth(), 3);
    assert_eq!(sb.segments(), ["RandomTest", "env", "scoreboard"]);
}

#[test]
fn under_is_segment_wise() {
    let a = RustdvPath::root("a");
    let ab = a.child("b");
    assert!(ab.is_under(&a));
    assert!(a.is_under(&a));
    assert!(!a.is_under(&ab));
    // the case a string prefix test gets wrong
    assert!(!RustdvPath::root("ab").is_under(&a));
}

#[test]
fn str_under_matches_on_segments() {
    assert!(str_is_under("a.b", "a"));
    assert!(str_is_under("a", "a"));
    assert!(!str_is_under("ab", "a")); // not a child of `a`
    assert!(!str_is_under("a", "a.b"));
    assert!(str_is_under("anything", ""));
}

#[test]
fn empty_path_has_no_segments() {
    let e = RustdvPath::empty();
    assert!(e.is_empty());
    assert_eq!(e.depth(), 0);
    assert_eq!(e.as_str(), "");
    assert_eq!(e.child("top").as_str(), "top");
}

#[test]
fn a_child_is_under_every_ancestor() {
    let root = RustdvPath::root("t");
    let deep = root.child("env").child("agent").child("driver");
    assert!(deep.is_under(&root));
    assert!(deep.is_under(&root.child("env")));
    assert!(!deep.is_under(&root.child("agent")));
}
