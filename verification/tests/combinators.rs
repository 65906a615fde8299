use std::cell::RefCell;
use std::rc::Rc;
use rustdv::sim::combinators::{first2, join2, join_all, timeout_result, Either, TimeoutError};
use rustdv::sim::poll::Poll;
use rustdv::sim::sync::Event;

#[test]
fn join2_yields_both() {
    let mut j = join2::<u8, &str>();
    assert!(j.needs_first() && j.needs_second());
    j.record_first(Poll::Ready(1u8));
    j.record_second(Poll::Ready("two"));
    match j.finish() {
        Poll::Ready((a, b)) => {
            assert_eq!(a, 1);
            assert_eq!(b, "two");
        }
        Poll::Pending => panic!("both futures were ready"),
    }
}

#[test]
fn join_all_preserves_input_order() {
    let mut j = join_all::<u8>(3);
    // The futures finish out of order: the third first.
    j.record(2, Poll::Ready(3));
    j.record(0, Poll::Pending);
    j.record(1, Poll::Ready(2));
    assert_eq!(j.finish(), Poll::Pending, "one is still running");
    assert!(j.pending(0));
    j.record(0, Poll::Ready(1));
    assert_eq!(j.finish(), Poll::Ready(vec![1, 2, 3]));
}

#[test]
fn first2_returns_the_winner() {
    // The first future is ready at once; the second waits on an event that a
    // spawned task would set later.
    let mut ev = Event::new();
    let w = ev.wait();
    let f = first2();
    let a: Poll<u8> = Poll::Ready(7);
    assert!(!f.needs_second(&a), "a ready first future settles the race");
    match f.poll::<u8, ()>(a, None) {
        Poll::Ready(Either::First(v)) => assert_eq!(v, 7),
        _ => panic!("the ready future should have won"),
    }
    ev.set();
    assert_eq!(w.poll(&mut ev, 1), Poll::Ready(()));
}

#[test]
fn first2_drops_the_loser() {
    struct Tattle(Rc<RefCell<bool>>);
    impl Drop for Tattle {
        fn drop(&mut self) {
            *self.0.borrow_mut() = true;
        }
    }
    let dropped = Rc::new(RefCell::new(false));
    {
        // The loser's state lives only as long as the race does.
        let loser_state = Tattle(dropped.clone());
        let f = first2();
        let r = f.poll::<u8, ()>(Poll::Ready(1), None);
        assert!(matches!(r, Poll::Ready(Either::First(1))));
        drop(loser_state);
    }
    assert!(*dropped.borrow(), "the losing future was dropped, not left running");
}

#[test]
fn joined_futures_may_borrow() {
    let owned = [1u8, 2, 3];
    let borrow_a = owned.len();
    let borrow_b = owned[0] as usize;
    let mut j = join2::<usize, usize>();
    j.record_first(Poll::Ready(borrow_a));
    j.record_second(Poll::Ready(borrow_b));
    assert_eq!(j.finish(), Poll::Ready((3, 1)));
}

#[test]
fn first2_polls_the_second_only_while_the_first_waits() {
    let f = first2();
    let a: Poll<u8> = Poll::Pending;
    assert!(f.needs_second(&a));
    assert!(matches!(f.poll::<u8, u8>(Poll::Pending, Some(Poll::Ready(9))), Poll::Ready(Either::Second(9))));
    assert!(matches!(f.poll::<u8, u8>(Poll::Pending, Some(Poll::Pending)), Poll::Pending));
    // A tie goes to the first.
    assert!(matches!(f.poll::<u8, u8>(Poll::Ready(1), Some(Poll::Ready(2))), Poll::Ready(Either::First(1))));
}

#[test]
fn a_timeout_is_an_error_and_a_value_is_not() {
    assert_eq!(timeout_result::<u8>(Either::First(4)), Ok(4));
    assert_eq!(timeout_result::<u8>(Either::Second(())), Err(TimeoutError));
    assert_eq!(TimeoutError.to_string(), "operation timed out");
}
