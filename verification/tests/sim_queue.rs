use rustdv::sim::poll::Poll;
use rustdv::sim::queue::Queue;

const TASK_A: u64 = 1;
const TASK_B: u64 = 2;

/// Poll a put that has room: it completes at once.
fn put_now<T>(q: &mut Queue<T>, item: T) {
    let mut p = q.put(item);
    assert_eq!(p.poll(q, TASK_A), Poll::Ready(()));
}

#[test]
fn put_get_round_trips_in_order() {
    let mut q: Queue<u8> = Queue::unbounded();
    for n in 0..5 {
        put_now(&mut q, n);
    }
    for n in 0..5 {
        let g = q.get();
        assert_eq!(g.poll(&mut q, TASK_A), Poll::Ready(n), "a queue is FIFO");
    }
}

#[test]
fn try_put_on_a_full_queue_returns_the_item() {
    let mut q: Queue<String> = Queue::new(Some(1));
    assert!(q.try_put(String::from("first")).is_ok());
    match q.try_put(String::from("second")) {
        Err(back) => assert_eq!(back, "second", "the item comes home"),
        Ok(()) => panic!("a depth-1 queue accepted a second item"),
    }
}

#[test]
fn try_get_on_an_empty_queue_is_none() {
    let mut q: Queue<u8> = Queue::unbounded();
    assert!(q.try_get().is_none());
    put_now(&mut q, 1);
    assert_eq!(q.try_get(), Some(1));
    assert!(q.try_get().is_none(), "and it was consumed");
}

#[test]
fn a_blocked_get_wakes_on_a_put() {
    let mut q: Queue<u8> = Queue::unbounded();
    let g = q.get();
    // The getter polls first and waits.
    assert_eq!(g.poll(&mut q, TASK_A), Poll::Pending);
    // The producer puts; the getter is woken.
    let mut p = q.put(42);
    assert_eq!(p.poll(&mut q, TASK_B), Poll::Ready(()));
    assert_eq!(q.take_woken(), vec![TASK_A]);
    assert_eq!(g.poll(&mut q, TASK_A), Poll::Ready(42), "the get was waiting before the put");
}

#[test]
fn a_blocked_put_wakes_when_space_appears() {
    let mut q: Queue<u8> = Queue::new(Some(1));
    put_now(&mut q, 1);
    let mut second = q.put(2);
    assert_eq!(second.poll(&mut q, TASK_A), Poll::Pending, "full: the put waits");
    // The consumer drains the first item, waking the putter.
    let g = q.get();
    assert_eq!(g.poll(&mut q, TASK_B), Poll::Ready(1));
    assert_eq!(q.take_woken(), vec![TASK_A]);
    assert_eq!(second.poll(&mut q, TASK_A), Poll::Ready(()));
    assert_eq!(q.len(), 1);
}

#[test]
fn a_get_on_an_empty_queue_waits() {
    let mut q: Queue<u8> = Queue::unbounded();
    let g = q.get();
    for _ in 0..64 {
        assert_eq!(g.poll(&mut q, TASK_A), Poll::Pending);
        assert!(q.take_woken().is_empty(), "nothing wakes it");
    }
}

#[test]
fn peek_does_not_consume() {
    let mut q: Queue<u8> = Queue::unbounded();
    put_now(&mut q, 9);
    let pk = q.peek();
    assert_eq!(pk.poll(&mut q, TASK_A), Poll::Ready(9));
    assert_eq!(q.len(), 1, "peek left it there");
    let g = q.get();
    assert_eq!(g.poll(&mut q, TASK_A), Poll::Ready(9), "and get takes the same item");
}

#[test]
fn try_peek_is_none_when_empty() {
    let mut q: Queue<u8> = Queue::unbounded();
    assert!(q.try_peek().is_none());
    put_now(&mut q, 3);
    assert_eq!(q.try_peek(), Some(3));
    assert_eq!(q.len(), 1);
}

#[test]
fn has_space_agrees_with_len() {
    let mut q: Queue<u8> = Queue::new(Some(2));
    assert!(q.has_space());
    put_now(&mut q, 1);
    assert!(q.has_space());
    put_now(&mut q, 2);
    assert!(!q.has_space(), "full at its declared depth");
    assert_eq!(q.len(), 2);
}

#[test]
fn wait_for_space_returns_when_drained() {
    let mut q: Queue<u8> = Queue::new(Some(1));
    put_now(&mut q, 1);
    let space = q.wait_for_space();
    assert_eq!(space.poll(&mut q, TASK_A), Poll::Pending);
    let g = q.get();
    assert_eq!(g.poll(&mut q, TASK_B), Poll::Ready(1));
    assert_eq!(q.take_woken(), vec![TASK_A]);
    assert_eq!(space.poll(&mut q, TASK_A), Poll::Ready(()));
    assert!(q.has_space());
}

#[test]
fn unbounded_never_blocks_a_put() {
    let mut q: Queue<u32> = Queue::unbounded();
    for n in 0..1000 {
        assert!(q.try_put(n).is_ok(), "an unbounded queue always has room");
    }
    assert_eq!(q.len(), 1000);
}

#[test]
fn is_empty_tracks_contents() {
    let mut q: Queue<u8> = Queue::unbounded();
    assert!(q.is_empty());
    put_now(&mut q, 1);
    assert!(!q.is_empty());
    let g = q.get();
    assert_eq!(g.poll(&mut q, TASK_A), Poll::Ready(1));
    assert!(q.is_empty());
}

#[test]
fn a_dropped_get_consumes_nothing() {
    let mut q: Queue<u8> = Queue::unbounded();
    {
        let pending = q.get();
        drop(pending);
    }
    put_now(&mut q, 5);
    let g = q.get();
    assert_eq!(g.poll(&mut q, TASK_A), Poll::Ready(5), "the item survived the dropped get");
}

#[test]
fn a_put_on_a_full_queue_keeps_the_order_of_arrival() {
    let mut q: Queue<u8> = Queue::new(Some(2));
    put_now(&mut q, 1);
    put_now(&mut q, 2);
    assert_eq!(q.try_put(3), Err(3));
    assert_eq!(q.try_get(), Some(1));
    assert!(q.try_put(3).is_ok());
    assert_eq!(q.try_get(), Some(2));
    assert_eq!(q.try_get(), Some(3));
}
