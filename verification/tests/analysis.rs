use rustdv::methodology::analysis::AnalysisBus;

const SOURCE_TALLY_A: usize = 0;
const SOURCE_TALLY_B: usize = 1;

/// Deliver one write to the tallies, as a caller of the bus does.
fn deliver(bus: &AnalysisBus, tallies: &mut [Vec<u8>], item: u8) {
    for sink in bus.write() {
        tallies[sink].push(item);
    }
}

#[test]
fn one_write_reaches_every_subscriber() {
    let mut bus = AnalysisBus::new();
    let mut tallies = vec![Vec::new(), Vec::new()];
    bus.pub_export().connect(&bus);
    bus.sub_export().connect(&mut bus, SOURCE_TALLY_A);
    bus.sub_export().connect(&mut bus, SOURCE_TALLY_B);
    assert_eq!(bus.subscriber_count(), 2);

    deliver(&bus, &mut tallies, 7);
    assert_eq!(tallies[SOURCE_TALLY_A], vec![7]);
    assert_eq!(tallies[SOURCE_TALLY_B], vec![7], "several subscribers is what makes it a broadcast");
}

#[test]
fn subscribers_are_called_in_connection_order() {
    let mut bus = AnalysisBus::new();
    let mut calls = Vec::new();
    bus.sub_export().connect(&mut bus, SOURCE_TALLY_A);
    bus.sub_export().connect(&mut bus, SOURCE_TALLY_B);
    let mut tallies = vec![Vec::new(), Vec::new()];
    for n in 1..=3u8 {
        for sink in bus.write() {
            calls.push(sink);
            tallies[sink].push(n);
        }
    }
    assert_eq!(calls, vec![0, 1, 0, 1, 0, 1], "first-connected first, every time");
    assert_eq!(tallies[0], vec![1, 2, 3]);
    assert_eq!(tallies[1], vec![1, 2, 3]);
}

#[test]
fn the_bus_stores_nothing() {
    let mut bus = AnalysisBus::new();
    let mut tallies: Vec<Vec<u8>> = vec![Vec::new()];
    deliver(&bus, &mut tallies, 1); // nobody is listening
    deliver(&bus, &mut tallies, 2);

    bus.sub_export().connect(&mut bus, 0);
    assert!(tallies[0].is_empty(), "nothing was buffered for a late subscriber");

    deliver(&bus, &mut tallies, 3);
    assert_eq!(tallies[0], vec![3], "only what arrives after it connects");
}

#[test]
fn writing_with_no_subscribers_is_legal() {
    let bus = AnalysisBus::new();
    assert_eq!(bus.pub_export().connect(&bus), 0);
    assert_eq!(bus.subscriber_count(), 0);
    assert!(bus.write().is_empty()); // must not panic
}

#[test]
fn an_unconnected_publish_port_does_not_panic() {
    let bus = AnalysisBus::new();
    // A source nobody wired reaches nobody, and writing is still fine.
    assert_eq!(bus.subscriber_count(), 0);
    assert!(bus.write().is_empty());
}

#[test]
fn delivery_happens_before_write_returns() {
    let mut bus = AnalysisBus::new();
    bus.sub_export().connect(&mut bus, 0);
    let mut tallies: Vec<Vec<u8>> = vec![Vec::new()];
    deliver(&bus, &mut tallies, 5);
    assert_eq!(tallies[0], vec![5], "already delivered, no scheduling in between");
}

#[test]
fn a_clone_is_the_same_bus() {
    // One bus reached through two exports: one subscriber list.
    let mut bus = AnalysisBus::new();
    let other_side = bus.sub_export();
    other_side.connect(&mut bus, 0);
    assert_eq!(bus.subscriber_count(), 1, "two handles, one subscriber list");
    let mut tallies: Vec<Vec<u8>> = vec![Vec::new()];
    deliver(&bus, &mut tallies, 4);
    assert_eq!(tallies[0], vec![4]);
}
