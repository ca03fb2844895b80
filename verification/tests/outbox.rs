use mneme::outbox::{OutStep, Outbox};
use mneme::protocol::{MsgType, Packet};

/// The steps until there is nothing to do: packets by type and payload, the report as `None`.
fn drain(o: &mut Outbox) -> (Vec<Option<(MsgType, Vec<u8>)>>, bool) {
    let mut out = Vec::new();
    loop {
        match o.next_step() {
            OutStep::Replay(p) => out.push(Some((p.msg_type, p.payload))),
            OutStep::Send(p) => out.push(Some((p.msg_type, p.payload))),
            OutStep::ReportLive => out.push(None),
            OutStep::Wait => return (out, false),
            OutStep::Close => return (out, true),
        }
    }
}

#[test]
fn recording_then_report_then_queue() {
    let mut o = Outbox::new(b"past");
    o.enqueue(Packet::content(b"one"));
    o.enqueue(Packet::empty(MsgType::ResizeReq));
    let (steps, closed) = drain(&mut o);
    assert_eq!(
        steps,
        vec![
            Some((MsgType::Replay, b"past".to_vec())),
            Some((MsgType::ReplayEnd, vec![])),
            None,
            Some((MsgType::Content, b"one".to_vec())),
            Some((MsgType::ResizeReq, vec![])),
        ]
    );
    assert!(!closed);
    o.enqueue(Packet::content(b"two"));
    assert_eq!(drain(&mut o).0, vec![Some((MsgType::Content, b"two".to_vec()))]);
}

#[test]
fn end_comes_after_the_queue() {
    let mut o = Outbox::new(b"");
    o.enqueue(Packet::exit(1));
    o.finish();
    o.enqueue(Packet::content(b"late"));
    let (steps, closed) = drain(&mut o);
    assert!(closed);
    assert_eq!(
        steps,
        vec![
            Some((MsgType::ReplayEnd, vec![])),
            None,
            Some((MsgType::Exit, vec![1, 0, 0, 0])),
        ]
    );
}
