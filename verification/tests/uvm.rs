use rustdv::sim::poll::Poll;
use rustdv::uvm::channel::{channel, TlmEmpty, TlmError, TlmFull};
use rustdv::uvm::error::TestError;
use rustdv::uvm::fifo::TlmFifo;

#[test]
fn a_zero_capacity_channel_holds_one() {
    let (tx, rx, mut ch) = channel::<u8>(0);
    assert!(tx.can_send(&ch));
    assert!(tx.try_send(&mut ch, 1).is_ok());
    assert!(!tx.can_send(&ch));
    match tx.try_send(&mut ch, 2) {
        Err(TlmFull(x)) => assert_eq!(x, 2, "the item comes back"),
        Ok(()) => panic!("full"),
    }
    assert_eq!(rx.len(&ch), 1);
    assert_eq!(rx.try_peek(&ch), Ok(1));
    assert_eq!(rx.try_recv(&mut ch), Ok(1));
    assert_eq!(rx.try_recv(&mut ch), Err(TlmEmpty));
    assert!(rx.is_empty(&ch));
}

#[test]
fn a_receive_waits_and_a_send_wakes_it() {
    let (tx, rx, mut ch) = channel::<u8>(2);
    let r = rx.recv();
    assert!(matches!(r.poll(&mut ch, 1), Poll::Pending));
    let mut s = tx.send(5);
    assert_eq!(s.poll(&mut ch, 2), Poll::Ready(Ok(())));
    assert_eq!(ch.take_woken(), vec![1]);
    assert_eq!(r.poll(&mut ch, 1), Poll::Ready(Ok(5)));
}

#[test]
fn dropping_the_last_sender_disconnects_the_receiver() {
    let (tx, rx, mut ch) = channel::<u8>(1);
    let tx2 = tx.clone_on(&mut ch);
    let r = rx.recv();
    assert!(matches!(r.poll(&mut ch, 1), Poll::Pending));
    tx.drop_from(&mut ch);
    assert!(ch.take_woken().is_empty(), "another sender is alive");
    tx2.drop_from(&mut ch);
    assert_eq!(ch.take_woken(), vec![1]);
    assert_eq!(r.poll(&mut ch, 1), Poll::Ready(Err(TlmError::Disconnected)));
    assert_eq!(TlmError::Disconnected.to_string(), "channel disconnected");
}

#[test]
fn with_no_receiver_a_send_fails() {
    let (tx, rx, mut ch) = channel::<u8>(1);
    rx.drop_from(&mut ch);
    assert!(!tx.can_send(&ch));
    assert!(matches!(tx.try_send(&mut ch, 3), Err(TlmFull(3))));
    let mut s = tx.send(4);
    assert_eq!(s.poll(&mut ch, 1), Poll::Ready(Err(TlmError::Disconnected)));
}

#[test]
fn a_tlm_fifo_reports_its_fill() {
    let mut f: TlmFifo<u8> = TlmFifo::new(Some(1));
    assert_eq!(f.size(), Some(1));
    assert!(f.is_empty());
    assert!(f.try_put(1).is_ok());
    assert!(f.is_full());
    assert_eq!(f.try_put(2), Err(2));
    assert_eq!(f.used(), 1);
    f.flush();
    assert!(f.is_empty());
    let mut unbounded: TlmFifo<u8> = TlmFifo::new(None);
    assert!(!unbounded.is_full());
    assert!(unbounded.try_put(9).is_ok());
    assert_eq!(unbounded.try_get(), Some(9));
    assert_eq!(TestError::new("bad").to_string(), "bad");
}
