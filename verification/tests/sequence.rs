use rustdv::methodology::sequence::{SeqCtx, SeqError, Sequencer, TxnId};
use rustdv::sim::poll::Poll;

const SEQ: u64 = 1;
const DRV: u64 = 2;

#[derive(Clone, Debug, PartialEq, Eq, Default)]
struct Cmd {
    a: u8,
    tag: &'static str,
}

#[derive(Clone, Debug, PartialEq, Eq, Default)]
struct Rsp {
    v: u8,
}

fn seqr() -> Sequencer<Cmd, Rsp> {
    Sequencer::new()
}

/// A sequence sends `cmd` while a driver answers with `a + answer`; returns
/// the ticket the sequence got back.
fn one_round_trip(s: &mut Sequencer<Cmd, Rsp>, ctx: &mut SeqCtx, cmd: Cmd, answer: Option<u8>) -> TxnId {
    let mut drv = s.get_next_item();
    assert!(drv.poll(s, DRV).is_pending_marker());
    let start = ctx.start_item(s).ok().expect("start_item");
    assert_eq!(s.take_woken(), vec![DRV], "the waiting driver wakes on the new ticket");
    assert_eq!(start.poll(s, SEQ), Poll::Pending, "not granted yet");
    // The driver takes the ticket and grants it.
    assert!(drv.poll(s, DRV).is_pending_marker());
    assert_eq!(s.take_woken(), vec![SEQ]);
    assert_eq!(start.poll(s, SEQ), Poll::Ready(()));
    let a = cmd.a;
    let finish = ctx.finish_item(s, cmd).ok().expect("finish_item");
    assert_eq!(s.take_woken(), vec![DRV]);
    assert_eq!(finish.poll(s, SEQ), Poll::Pending, "waits for item_done");
    let item = match drv.poll(s, DRV) {
        Poll::Ready(item) => item,
        Poll::Pending => panic!("the filled-in item reaches the driver"),
    };
    assert_eq!(item.payload().a, a);
    s.item_done(answer.map(|x| Rsp { v: a.wrapping_add(x) }));
    assert_eq!(s.take_woken(), vec![SEQ]);
    match finish.poll(s, SEQ) {
        Poll::Ready(t) => t,
        Poll::Pending => panic!("item_done releases the sequence"),
    }
}

trait PendingMarker {
    fn is_pending_marker(&self) -> bool;
}
impl<T> PendingMarker for Poll<T> {
    fn is_pending_marker(&self) -> bool {
        matches!(self, Poll::Pending)
    }
}

#[test]
fn start_item_blocks_until_the_driver_asks() {
    let mut s = seqr();
    let mut ctx = SeqCtx::new(true, "T", 1);
    let start = ctx.start_item(&mut s).ok().expect("start_item");
    // Nobody ever calls get_next_item, so the grant never comes.
    for _ in 0..64 {
        assert_eq!(start.poll(&mut s, SEQ), Poll::Pending);
    }
}

#[test]
fn the_driver_sees_what_was_written_after_the_grant() {
    let mut s = seqr();
    let mut ctx = SeqCtx::new(true, "T", 1);
    let mut drv = s.get_next_item();
    assert!(drv.poll(&mut s, DRV).is_pending_marker());
    let mut cmd = Cmd { a: 0, tag: "before" };
    let start = ctx.start_item(&mut s).ok().expect("start_item");
    assert!(drv.poll(&mut s, DRV).is_pending_marker(), "granted, waiting for the fields");
    assert_eq!(start.poll(&mut s, SEQ), Poll::Ready(()));
    // The driver is committed and waiting. Decide the stimulus now.
    cmd.a = 42;
    cmd.tag = "after the grant";
    let finish = ctx.finish_item(&mut s, cmd).ok().expect("finish_item");
    let got = match drv.poll(&mut s, DRV) {
        Poll::Ready(item) => item.into_payload(),
        Poll::Pending => panic!("the driver got an item"),
    };
    s.item_done(None);
    assert_eq!(finish.poll(&mut s, SEQ), Poll::Ready(TxnId(1)));
    assert_eq!(got.a, 42, "the late value reached the driver");
    assert_eq!(got.tag, "after the grant");
}

#[test]
fn finish_item_returns_the_ticket_and_waits_for_item_done() {
    let mut s = seqr();
    let mut ctx = SeqCtx::new(true, "T", 1);
    let ticket = one_round_trip(&mut s, &mut ctx, Cmd { a: 10, tag: "x" }, Some(1));
    assert_eq!(ticket, TxnId(1), "tickets start at 1");
}

#[test]
fn tickets_are_unique_and_ascending() {
    let mut s = seqr();
    let mut ctx = SeqCtx::new(true, "T", 1);
    let mut tickets = Vec::new();
    for a in 0..3u8 {
        tickets.push(one_round_trip(&mut s, &mut ctx, Cmd { a, tag: "" }, None));
    }
    assert_eq!(tickets, vec![TxnId(1), TxnId(2), TxnId(3)]);
}

#[test]
fn start_item_twice_without_finish_is_an_error() {
    let mut s = seqr();
    let mut ctx = SeqCtx::new(true, "T", 1);
    assert!(ctx.start_item(&mut s).is_ok());
    match ctx.start_item(&mut s) {
        Err(SeqError(msg)) => assert_eq!(msg, "start_item called twice without finish_item"),
        Ok(_) => panic!("a second start_item without finish_item"),
    }
}

#[test]
fn try_next_item_is_none_on_an_empty_sequencer() {
    let mut s = seqr();
    assert!(s.try_next_item().is_none());
}

#[test]
fn try_next_item_takes_a_waiting_item() {
    let mut s = seqr();
    let mut ctx = SeqCtx::new(true, "T", 1);
    let start = ctx.start_item(&mut s).ok().expect("start_item");
    // First poll grants but the payload is not filled yet; the second finds it.
    assert!(s.try_next_item().is_none());
    assert_eq!(start.poll(&mut s, SEQ), Poll::Ready(()));
    let _finish = ctx.finish_item(&mut s, Cmd { a: 5, tag: "" }).ok().expect("finish_item");
    let got = s.try_next_item().map(|item| item.payload().a);
    assert_eq!(got, Some(5));
    s.item_done(None);
}

#[test]
fn item_done_with_a_response_reaches_get_response() {
    let mut s = seqr();
    let mut ctx = SeqCtx::new(true, "T", 1);
    let ticket = one_round_trip(&mut s, &mut ctx, Cmd { a: 1, tag: "" }, Some(100));
    let g = ctx.get_response(Some(ticket));
    match s.poll_response(&g, SEQ) {
        Poll::Ready(rsp) => assert_eq!(rsp.v, 101),
        Poll::Pending => panic!("the response was filed at item_done"),
    }
}

#[test]
fn put_response_answers_after_item_done() {
    let mut s = seqr();
    let mut ctx = SeqCtx::new(true, "T", 1);
    let ticket = one_round_trip(&mut s, &mut ctx, Cmd::default(), None);
    let g = ctx.get_response(Some(ticket));
    assert!(s.poll_response(&g, SEQ).is_pending_marker(), "released, no answer yet");
    s.put_response(ticket, Rsp { v: 77 });
    assert_eq!(s.take_woken(), vec![SEQ]);
    match s.poll_response(&g, SEQ) {
        Poll::Ready(rsp) => assert_eq!(rsp.v, 77),
        Poll::Pending => panic!("answered"),
    }
}

#[test]
fn get_response_picks_its_ticket_out_of_order() {
    let mut s = seqr();
    // Answer ticket 2 before ticket 1.
    s.put_response(TxnId(2), Rsp { v: 22 });
    s.put_response(TxnId(1), Rsp { v: 11 });
    let ctx = SeqCtx::new(true, "T", 1);
    let g1 = ctx.get_response(Some(TxnId(1)));
    assert_eq!(s.poll_response(&g1, SEQ), Poll::Ready(Rsp { v: 11 }));
    let g2 = ctx.get_response(Some(TxnId(2)));
    assert_eq!(s.poll_response(&g2, SEQ), Poll::Ready(Rsp { v: 22 }));
}

#[test]
fn get_response_none_takes_the_oldest() {
    let mut s = seqr();
    s.put_response(TxnId(5), Rsp { v: 50 });
    s.put_response(TxnId(6), Rsp { v: 60 });
    let ctx = SeqCtx::new(true, "T", 1);
    let g = ctx.get_response(None);
    assert_eq!(s.poll_response(&g, SEQ), Poll::Ready(Rsp { v: 50 }), "oldest first");
    let g = ctx.get_response(None);
    assert_eq!(s.poll_response(&g, SEQ), Poll::Ready(Rsp { v: 60 }));
}

#[test]
fn try_get_response_does_not_wait() {
    let mut s = seqr();
    let mut ctx = SeqCtx::new(true, "T", 1);
    assert!(ctx.try_get_response(&mut s, Some(TxnId(1))).is_none(), "nothing yet");
    s.put_response(TxnId(1), Rsp { v: 9 });
    assert_eq!(ctx.try_get_response(&mut s, Some(TxnId(1))).unwrap().v, 9);
    assert!(ctx.try_get_response(&mut s, Some(TxnId(1))).is_none(), "and it was taken");
}

#[test]
fn a_response_that_never_comes_waits_forever() {
    let mut s = seqr();
    let ctx = SeqCtx::new(true, "T", 1);
    let g = ctx.get_response(Some(TxnId(1043)));
    for _ in 0..64 {
        assert!(s.poll_response(&g, SEQ).is_pending_marker());
        assert!(s.take_woken().is_empty());
    }
}

#[test]
fn start_item_in_a_virtual_sequence_is_an_error() {
    let mut s = seqr();
    let mut ctx = SeqCtx::new(false, "MyVirtualSeq", 1);
    match ctx.start_item(&mut s) {
        Err(SeqError(msg)) => {
            assert!(msg.contains("virtual"), "the error explains: {msg}");
            assert!(msg.contains("MyVirtualSeq"), "and names the sequence: {msg}");
        }
        Ok(_) => panic!("start_item should fail without a sequencer"),
    }
}

#[test]
fn two_sequences_interleave_one_item_each() {
    let mut s = seqr();
    let mut a = SeqCtx::new(true, "A", 1);
    let mut b = SeqCtx::new(true, "B", 1);
    let mut order = Vec::new();
    for round in 0..2u8 {
        // Both sequences queue an item; the driver serves them in turn.
        let sa = a.start_item(&mut s).ok().expect("A starts");
        let sb = b.start_item(&mut s).ok().expect("B starts");
        for (ctx, st, tag) in [(&mut a, sa, "A"), (&mut b, sb, "B")] {
            let mut drv = s.get_next_item();
            assert!(drv.poll(&mut s, DRV).is_pending_marker());
            assert_eq!(st.poll(&mut s, SEQ), Poll::Ready(()));
            let _f = ctx.finish_item(&mut s, Cmd { a: round, tag }).ok().expect("finish");
            match drv.poll(&mut s, DRV) {
                Poll::Ready(item) => order.push(item.payload().tag),
                Poll::Pending => panic!("the item was filled in"),
            }
            s.item_done(None);
        }
    }
    assert_eq!(order.len(), 4, "all four items were driven");
    assert_eq!(order, vec!["A", "B", "A", "B"], "one item each, in turn");
}

#[test]
fn finish_item_without_start_item_is_an_error() {
    let mut s = seqr();
    let mut ctx = SeqCtx::new(true, "T", 1);
    match ctx.finish_item(&mut s, Cmd::default()) {
        Err(e) => assert_eq!(e.to_string(), "sequence error: finish_item without start_item"),
        Ok(_) => panic!("nothing was started"),
    }
}
