use rustdv::sim::poll::Poll;
use rustdv::sim::sync::{Event, Lock};

#[test]
fn wait_before_set_wakes() {
    let mut ev = Event::new();
    let w = ev.wait();
    assert_eq!(w.poll(&mut ev, 1), Poll::Pending);
    // Another task sets it: the waiter is woken and completes.
    ev.set();
    assert_eq!(ev.take_woken(), vec![1]);
    assert_eq!(w.poll(&mut ev, 1), Poll::Ready(()));
}

#[test]
fn set_latches_until_cleared() {
    let mut ev = Event::new();
    ev.set();
    let w = ev.wait();
    assert_eq!(w.poll(&mut ev, 1), Poll::Ready(()), "the set is remembered");
    assert!(ev.is_set());
}

#[test]
fn clear_makes_a_later_wait_block_again() {
    let mut ev = Event::new();
    ev.set();
    ev.clear();
    assert!(!ev.is_set());
    let w = ev.wait();
    for _ in 0..64 {
        assert_eq!(w.poll(&mut ev, 1), Poll::Pending);
    }
}

#[test]
fn one_set_wakes_every_waiter() {
    let mut ev = Event::new();
    let waits = [ev.wait(), ev.wait(), ev.wait()];
    for (i, w) in waits.iter().enumerate() {
        assert_eq!(w.poll(&mut ev, i as u64 + 1), Poll::Pending);
    }
    ev.set();
    assert_eq!(ev.take_woken(), vec![1, 2, 3]);
    let mut woken = 0;
    for (i, w) in waits.iter().enumerate() {
        if w.poll(&mut ev, i as u64 + 1) == Poll::Ready(()) {
            woken += 1;
        }
    }
    assert_eq!(woken, 3, "all three saw one set");
}

#[test]
fn lock_is_fifo_fair() {
    let mut lock = Lock::new();
    let mut order = Vec::new();

    // The test (task 100) holds it first.
    let mut mine = lock.acquire();
    let held = match mine.poll(&mut lock, 100) {
        Poll::Ready(g) => g,
        Poll::Pending => panic!("a free lock is granted at once"),
    };

    // Tasks 1, 2, 3 queue for it, in order.
    let mut requests = Vec::new();
    for who in 1..=3u64 {
        let mut a = lock.acquire();
        assert!(matches!(a.poll(&mut lock, who), Poll::Pending));
        requests.push((who, a));
    }

    held.release(&mut lock);
    // Run the woken tasks until everyone has had the lock once.
    let mut pending = requests;
    while !pending.is_empty() {
        let woken = lock.take_woken();
        assert_eq!(woken.len(), 1, "a release hands the lock to one waiter");
        let pos = pending.iter().position(|(who, _)| *who == woken[0]).unwrap();
        let (who, mut a) = pending.remove(pos);
        match a.poll(&mut lock, who) {
            Poll::Ready(g) => {
                order.push(who);
                g.release(&mut lock);
            }
            Poll::Pending => panic!("a woken waiter holds the lock"),
        }
    }
    assert_eq!(order, vec![1, 2, 3], "granted in request order");
    assert!(!lock.locked());
}
