use rustdv::sim::executor::{Executor, PollOutcome, TaskError, TaskState};
use rustdv::sim::poll::Poll;

#[test]
fn tasks_run_in_spawn_order_and_finish() {
    let mut ex = Executor::new();
    let a = ex.spawn::<u8>();
    let b = ex.spawn_named::<u8>(Some("worker"));
    assert_eq!((a.id(), b.id()), (1, 2));
    assert_eq!(ex.next_runnable(), Some(1));
    assert!(ex.finish_poll(1, PollOutcome::Ready).is_empty());
    assert_eq!(ex.next_runnable(), Some(2));
    assert!(ex.finish_poll(2, PollOutcome::Pending).is_empty());
    assert_eq!(ex.next_runnable(), None, "a pending task waits to be woken");
    assert_eq!(a.state(&ex), TaskState::Finished);
    assert_eq!(b.state(&ex), TaskState::Pending);
    ex.wake(2);
    assert_eq!(ex.next_runnable(), Some(2));
}

#[test]
fn a_panic_is_reported_with_the_task_name() {
    let mut ex = Executor::new();
    let h = ex.spawn_named::<()>(Some("bad"));
    assert_eq!(ex.next_runnable(), Some(h.id()));
    let _ = ex.finish_poll(h.id(), PollOutcome::Panicked("boom".to_string()));
    assert_eq!(h.state(&ex), TaskState::Failed);
    assert_eq!(ex.take_failures(), vec!["task 'bad' panicked: boom".to_string()]);
}

#[test]
fn cancel_after_spares_the_tasks_before_the_watermark() {
    let mut ex = Executor::new();
    let old = ex.spawn::<()>();
    let mark = ex.watermark();
    let young = ex.spawn::<()>();
    let cancelled = ex.cancel_after(mark);
    assert_eq!(cancelled, vec![young.id()]);
    assert_eq!(old.state(&ex), TaskState::Scheduled);
    assert_eq!(young.state(&ex), TaskState::Cancelled);
    assert_eq!(ex.live_tasks(), 1);
}

#[test]
fn a_handle_yields_its_result_once() {
    let mut ex = Executor::new();
    let mut h = ex.spawn::<u8>();
    assert!(matches!(h.poll(&ex, 5), Poll::Pending));
    h.complete(Ok(3));
    assert_eq!(h.take_woken(), vec![5]);
    assert!(matches!(h.result(), Ok(3)));
    assert!(matches!(h.result(), Err(TaskError::InvalidState)));
    assert_eq!(TaskError::Panicked("x".to_string()).to_string(), "task panicked: x");
    assert_eq!(TaskError::Cancelled.to_string(), "task was cancelled");
}

#[test]
fn a_run_pass_is_not_reentered() {
    let mut ex = Executor::new();
    assert!(ex.enter_run());
    assert!(!ex.enter_run(), "a nested pass leaves the outer one running");
    ex.leave_run();
    assert!(ex.enter_run());
}

#[test]
fn woken_tasks_run_in_wake_order() {
    let mut ex = Executor::new();
    let a = ex.spawn::<()>();
    let b = ex.spawn::<()>();
    let c = ex.spawn::<()>();
    for id in [a.id(), b.id(), c.id()] {
        assert_eq!(ex.next_runnable(), Some(id), "the run queue is served front first");
        assert!(ex.finish_poll(id, PollOutcome::Pending).is_empty());
    }
    assert_eq!(ex.next_runnable(), None);
    ex.wake(c.id());
    ex.wake(a.id());
    assert_eq!(ex.next_runnable(), Some(c.id()));
    assert_eq!(ex.next_runnable(), Some(a.id()));
    assert_eq!(ex.next_runnable(), None);
}

#[test]
fn cancel_after_reports_every_task_it_cancels() {
    let mut ex = Executor::new();
    let old = ex.spawn::<()>();
    let mark = ex.watermark();
    let a = ex.spawn::<()>();
    let b = ex.spawn::<()>();
    let c = ex.spawn::<()>();
    assert_eq!(ex.next_runnable(), Some(old.id()));
    assert!(ex.finish_poll(old.id(), PollOutcome::Pending).is_empty());
    assert_eq!(ex.cancel_after(mark), vec![a.id(), b.id(), c.id()]);
    for h in [&a, &b, &c] {
        assert_eq!(h.state(&ex), TaskState::Cancelled);
    }
    assert_eq!(old.state(&ex), TaskState::Pending);
    assert_eq!(ex.live_tasks(), 1);
}
