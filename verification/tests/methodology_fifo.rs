use rustdv::methodology::fifo::TlmFifo;

const PUT_TALLY: usize = 0;
const GET_TALLY_A: usize = 1;
const GET_TALLY_B: usize = 2;

#[test]
fn an_accepted_put_names_every_put_tap_in_connection_order() {
    let mut f: TlmFifo<u8> = TlmFifo::new(2);
    let tap = f.put_ap();
    tap.connect(&mut f, PUT_TALLY);
    tap.connect(&mut f, GET_TALLY_A);
    let (r, sinks) = f.try_put(5);
    assert_eq!(r, Ok(()));
    assert_eq!(sinks, vec![PUT_TALLY, GET_TALLY_A]);
    assert_eq!(f.used(), 1);
}

#[test]
fn a_refused_put_hands_the_item_back_and_names_no_tap() {
    let mut f: TlmFifo<u8> = TlmFifo::new(1);
    f.put_ap().connect(&mut f, PUT_TALLY);
    assert!(f.try_put(1).0.is_ok());
    assert!(f.is_full());
    let (r, sinks) = f.try_put(2);
    assert_eq!(r, Err(2));
    assert!(sinks.is_empty());
    assert_eq!(f.used(), 1);
}

#[test]
fn a_get_names_the_get_taps_only_when_it_takes_an_item() {
    let mut f: TlmFifo<u8> = TlmFifo::unbounded();
    let tap = f.get_ap();
    tap.connect(&mut f, GET_TALLY_A);
    tap.connect(&mut f, GET_TALLY_B);
    let (none, sinks) = f.try_get();
    assert_eq!(none, None);
    assert!(sinks.is_empty(), "an empty FIFO shows nothing to its get taps");
    let (put, put_sinks) = f.try_put(7);
    assert!(put.is_ok());
    assert!(put_sinks.is_empty(), "the put side has no tap connected");
    let (got, sinks) = f.try_get();
    assert_eq!(got, Some(7));
    assert_eq!(sinks, vec![GET_TALLY_A, GET_TALLY_B]);
}

#[test]
fn flush_empties_the_fifo_and_keeps_its_depth() {
    let mut f: TlmFifo<u8> = TlmFifo::new(3);
    assert!(f.try_put(1).0.is_ok());
    assert!(f.try_put(2).0.is_ok());
    f.flush();
    assert_eq!(f.used(), 0);
    assert!(f.is_empty());
    assert_eq!(f.size(), Some(3));
}

#[test]
fn the_default_fifo_is_one_deep() {
    let mut f: TlmFifo<u8> = TlmFifo::default();
    assert_eq!(f.size(), Some(1));
    assert!(f.is_empty());
    assert!(f.try_put(1).0.is_ok());
    assert!(f.is_full());
    assert_eq!(f.try_put(2).0, Err(2));
}

#[test]
fn an_unbounded_fifo_is_never_full() {
    let mut f: TlmFifo<u32> = TlmFifo::unbounded();
    for n in 0..100 {
        assert!(f.try_put(n).0.is_ok());
    }
    assert!(!f.is_full());
    assert_eq!(f.size(), None);
}
