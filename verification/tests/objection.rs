use rustdv::methodology::objection::ObjectionRegistry;
use rustdv::sim::poll::Poll;

#[test]
fn a_guard_raises_and_dropping_it_drops() {
    let mut reg = ObjectionRegistry::new();
    assert_eq!(reg.count(), 0);
    {
        let g = reg.raise("stimulus");
        assert_eq!(reg.count(), 1);
        g.release(&mut reg);
    }
    assert_eq!(reg.count(), 0, "the guard dropped it");
}

#[test]
fn nested_objections_end_only_at_the_last_drop() {
    let mut reg = ObjectionRegistry::new();
    let a = reg.raise("a");
    let b = reg.raise("b");
    assert_eq!(reg.count(), 2);
    a.release(&mut reg);
    assert_eq!(reg.count(), 1, "one left");
    b.release(&mut reg);
    assert_eq!(reg.count(), 0);
}

#[test]
fn drained_fires_when_a_raised_count_returns_to_zero() {
    let mut reg = ObjectionRegistry::new();
    let g = reg.raise("work");
    let waiter = reg.wait_drained_event();
    assert_eq!(waiter.poll(&mut reg, 7), Poll::Pending);
    g.release(&mut reg);
    assert_eq!(reg.take_woken(), vec![7], "the drop woke the waiter");
    assert_eq!(waiter.poll(&mut reg, 7), Poll::Ready(()));
    let mine = reg.wait_drained_event();
    assert_eq!(mine.poll(&mut reg, 8), Poll::Ready(()));
}

#[test]
fn never_objecting_never_fires_the_drained_event() {
    let mut reg = ObjectionRegistry::new();
    assert_eq!(reg.count(), 0);
    let w = reg.wait_drained_event();
    for _ in 0..64 {
        assert_eq!(w.poll(&mut reg, 1), Poll::Pending);
        assert!(reg.take_woken().is_empty());
    }
}

#[test]
fn active_lists_the_raised_objections_oldest_first() {
    let mut reg = ObjectionRegistry::new();
    let a = reg.raise("stimulus");
    let b = reg.raise("scoreboard");
    assert_eq!(reg.active(), vec!["stimulus".to_string(), "scoreboard".to_string()]);
    a.release(&mut reg);
    assert_eq!(reg.active(), vec!["scoreboard".to_string()]);
    assert!(reg.ever_raised());
    b.release(&mut reg);
    assert!(reg.active().is_empty());
    assert!(reg.ever_raised(), "it stays true once anything objected");
}

#[test]
fn raising_again_rearms_the_drained_event() {
    let mut reg = ObjectionRegistry::new();
    let g = reg.raise("one");
    g.release(&mut reg);
    let again = reg.raise("two");
    let w = reg.wait_drained_event();
    assert_eq!(w.poll(&mut reg, 3), Poll::Pending, "a new objection clears the event");
    again.release(&mut reg);
    assert_eq!(w.poll(&mut reg, 3), Poll::Ready(()));
}

#[test]
fn releasing_an_objection_the_registry_never_raised_stops_at_zero() {
    let mut raised_here = ObjectionRegistry::new();
    let g = raised_here.raise("elsewhere");
    let mut other = ObjectionRegistry::new();
    g.release(&mut other);
    assert_eq!(other.count(), 0, "the count does not wrap below zero");
    assert!(other.active().is_empty());
    assert_eq!(raised_here.count(), 1, "the registry that raised it is untouched");
}
