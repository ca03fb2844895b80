use mneme::protocol::{ClientFlags, MsgType, Packet};
use mneme::session::{Action, Session, OUTBOUND_LIMIT};

const RING: usize = 1048576;

fn started() -> Session {
    Session::new(RING, 77)
}

/// Attach a client and bring it up to date; what was recorded for it is returned too.
fn attach_live(s: &mut Session, flags: ClientFlags) -> (u64, Vec<u8>, Vec<Action>) {
    let (id, snapshot, mut actions) = s.register(flags);
    actions.extend(s.client_live(id));
    (id, snapshot, actions)
}

/// The packets that go to a client.
fn sent(actions: &[Action], to: u64) -> Vec<(MsgType, Vec<u8>)> {
    let mut out = Vec::new();
    for a in actions {
        if let Action::Send { id, packet } = a {
            if *id == to {
                out.push((packet.msg_type, packet.payload.clone()));
            }
        }
    }
    out
}

/// The output that goes to a client.
fn content(actions: &[Action], to: u64) -> Vec<u8> {
    let mut out = Vec::new();
    for (t, p) in sent(actions, to) {
        if t == MsgType::Content {
            out.extend(p);
        }
    }
    out
}

fn asked_for_size(actions: &[Action], to: u64) -> bool {
    sent(actions, to).iter().any(|(t, _)| *t == MsgType::ResizeReq)
}

fn closed(actions: &[Action], who: u64) -> bool {
    actions.iter().any(|a| matches!(a, Action::Close { id } if *id == who))
}

fn finished(actions: &[Action], who: u64) -> bool {
    actions.iter().any(|a| matches!(a, Action::Finish { id } if *id == who))
}

fn sizes(actions: &[Action]) -> Vec<(u16, u16)> {
    let mut out = Vec::new();
    for a in actions {
        if let Action::SetSize { rows, cols } = a {
            out.push((*rows, *cols));
        }
    }
    out
}

fn inputs(actions: &[Action]) -> Vec<u8> {
    let mut out = Vec::new();
    for a in actions {
        if let Action::Input { data } = a {
            out.extend_from_slice(data);
        }
    }
    out
}

#[test]
fn output_goes_to_every_client() {
    let mut s = started();
    let (a, _, _) = attach_live(&mut s, ClientFlags::empty());
    let (b, _, _) = attach_live(&mut s, ClientFlags::empty());
    let actions = s.output(b"SHARED_OUTPUT");
    assert_eq!(content(&actions, a), b"SHARED_OUTPUT");
    assert_eq!(content(&actions, b), b"SHARED_OUTPUT");
}

#[test]
fn large_output_is_cut_to_packets() {
    let mut s = started();
    let (a, _, _) = attach_live(&mut s, ClientFlags::empty());
    let data = vec![b'x'; 4096];
    let actions = s.output(&data);
    let packets = sent(&actions, a);
    assert_eq!(packets.len(), 2);
    assert_eq!(packets[0].1.len(), 4093);
    assert_eq!(packets[1].1.len(), 3);
    assert_eq!(content(&actions, a), data);
}

#[test]
fn recording_and_later_output_join() {
    let mut s = started();
    s.output(b"BEFORE_");
    let (id, snapshot, _) = s.register(ClientFlags::empty());
    assert_eq!(snapshot, b"BEFORE_");
    // Output that comes while the client is being brought up to date is queued for it.
    let during = s.output(b"DURING_");
    assert_eq!(content(&during, id), b"DURING_");
    s.client_live(id);
    let after = s.output(b"AFTER");
    assert_eq!(content(&after, id), b"AFTER");
    let (_, whole, _) = s.register(ClientFlags::empty());
    assert_eq!(whole, b"BEFORE_DURING_AFTER");
}

#[test]
fn recording_is_the_end_of_the_output() {
    let mut s = Session::new(8, 1);
    s.output(b"abcdef");
    s.output(b"ghij");
    let (_, snapshot, _) = s.register(ClientFlags::empty());
    assert_eq!(snapshot, b"cdefghij");
    let w = s.welcome(5);
    assert_eq!(w.ring_size, 8);
    assert_eq!(w.ring_used, 8);
}

#[test]
fn input_of_readonly_clients_is_ignored() {
    let mut s = started();
    let (ro, _, _) = attach_live(&mut s, ClientFlags::with_readonly());
    let (rw, _, _) = attach_live(&mut s, ClientFlags::empty());
    let (lp, _, _) = attach_live(&mut s, ClientFlags::with_low_priority());
    assert!(inputs(&s.client_packet(ro, &Packet::content(b"no"))).is_empty());
    assert_eq!(inputs(&s.client_packet(rw, &Packet::content(b"yes"))), b"yes");
    assert_eq!(inputs(&s.client_packet(lp, &Packet::content(b"too"))), b"too");
}

#[test]
fn input_before_the_end_of_the_recording_is_ignored() {
    let mut s = started();
    let (id, _, _) = s.register(ClientFlags::empty());
    assert!(inputs(&s.client_packet(id, &Packet::content(b"early"))).is_empty());
    assert!(sizes(&s.client_packet(id, &Packet::resize(55, 200))).is_empty());
    s.client_live(id);
    assert_eq!(sizes(&s.client_packet(id, &Packet::resize(30, 90))), vec![(30, 90)]);
}

#[test]
fn detach_of_the_controller_hands_over() {
    let mut s = started();
    let (a, _, first) = attach_live(&mut s, ClientFlags::empty());
    assert!(asked_for_size(&first, a));
    let (b, _, second) = attach_live(&mut s, ClientFlags::empty());
    assert!(asked_for_size(&second, b));
    assert!(!asked_for_size(&second, a));
    let actions = s.client_packet(b, &Packet::empty(MsgType::Detach));
    assert!(finished(&actions, b));
    assert!(asked_for_size(&actions, a));
    assert_eq!(sizes(&s.client_packet(a, &Packet::resize(10, 20))), vec![(10, 20)]);
}

#[test]
fn lost_controller_hands_over_while_the_next_still_replays() {
    let mut s = started();
    let (a, _, _) = s.register(ClientFlags::empty());
    let (b, _, _) = attach_live(&mut s, ClientFlags::empty());
    let actions = s.client_gone(b);
    assert!(closed(&actions, b));
    assert!(asked_for_size(&actions, a));
}

#[test]
fn readonly_and_low_priority_never_control() {
    for flags in [ClientFlags::with_readonly(), ClientFlags::with_low_priority()] {
        let mut s = started();
        let (normal, _, _) = attach_live(&mut s, ClientFlags::empty());
        let (other, _, joined) = attach_live(&mut s, flags);
        assert!(!asked_for_size(&joined, other));
        let actions = s.client_packet(normal, &Packet::empty(MsgType::Detach));
        assert!(!asked_for_size(&actions, other));
        assert!(sizes(&s.client_packet(other, &Packet::resize(1, 1))).is_empty());
    }
}

#[test]
fn control_goes_back_in_order() {
    let mut s = started();
    let (a, _, _) = attach_live(&mut s, ClientFlags::empty());
    let (b, _, _) = attach_live(&mut s, ClientFlags::empty());
    let (c, _, _) = attach_live(&mut s, ClientFlags::empty());
    let actions = s.client_packet(c, &Packet::empty(MsgType::Detach));
    assert!(asked_for_size(&actions, b));
    assert!(!asked_for_size(&actions, a));
    let actions = s.client_packet(b, &Packet::empty(MsgType::Detach));
    assert!(asked_for_size(&actions, a));
}

#[test]
fn only_the_controller_resizes() {
    let mut s = started();
    let (a, _, _) = attach_live(&mut s, ClientFlags::empty());
    assert_eq!(sizes(&s.client_packet(a, &Packet::resize(40, 100))), vec![(40, 100)]);
    assert_eq!(sizes(&s.client_packet(a, &Packet::resize(25, 132))), vec![(25, 132)]);
    let (b, _, _) = attach_live(&mut s, ClientFlags::empty());
    assert!(sizes(&s.client_packet(a, &Packet::resize(99, 77))).is_empty());
    assert_eq!(sizes(&s.client_packet(b, &Packet::resize(50, 120))), vec![(50, 120)]);
    let short = Packet::new(MsgType::Resize, vec![1, 2]);
    assert!(s.client_packet(b, &short).is_empty());
}

#[test]
fn other_packets_are_ignored() {
    let mut s = started();
    let (a, _, _) = attach_live(&mut s, ClientFlags::empty());
    for t in [MsgType::Hello, MsgType::Welcome, MsgType::Exit, MsgType::Replay] {
        assert!(s.client_packet(a, &Packet::empty(t)).is_empty());
    }
    assert!(s.client_packet(99, &Packet::content(b"x")).is_empty());
    assert!(s.client_live(99).is_empty());
    assert!(s.client_gone(99).is_empty());
}

#[test]
fn exit_reaches_live_clients() {
    let mut s = started();
    let (a, _, _) = attach_live(&mut s, ClientFlags::empty());
    let (b, _, _) = s.register(ClientFlags::with_readonly());
    let actions = s.child_exited(3);
    assert_eq!(sent(&actions, a), vec![(MsgType::Exit, vec![3, 0, 0, 0])]);
    assert!(sent(&actions, b).is_empty());
    assert!(!s.child_running());
    let later = s.client_live(b);
    assert_eq!(sent(&later, b), vec![(MsgType::Exit, vec![3, 0, 0, 0])]);
    assert!(finished(&later, b));
    assert!(s.child_exited(9).is_empty());
    assert_eq!(s.welcome(1).exit_status, 3);
}

#[test]
fn server_stays_until_somebody_was_told() {
    let mut s = started();
    assert!(!s.finished());
    s.child_exited(0);
    assert!(!s.finished(), "nobody was told");
    // A client that goes away before it is up to date was not told.
    let (a, _, _) = s.register(ClientFlags::empty());
    s.client_gone(a);
    assert!(!s.finished());
    let (b, _, _) = s.register(ClientFlags::empty());
    let actions = s.client_live(b);
    assert_eq!(sent(&actions, b).last().unwrap().0, MsgType::Exit);
    assert!(!s.finished(), "the client is still there");
    s.client_gone(b);
    assert!(s.finished());
}

#[test]
fn running_child_keeps_the_server() {
    let mut s = started();
    let (a, _, _) = attach_live(&mut s, ClientFlags::empty());
    s.client_packet(a, &Packet::empty(MsgType::Detach));
    assert!(!s.finished());
}

#[test]
fn slow_client_is_closed_at_the_limit() {
    let mut s = started();
    let (slow, _, _) = attach_live(&mut s, ClientFlags::empty());
    let data = vec![0u8; 4093];
    let mut queued = 3usize; // the question about the terminal size
    loop {
        let actions = s.output(&data);
        queued += 4096;
        if queued > OUTBOUND_LIMIT {
            assert!(closed(&actions, slow));
            assert!(sent(&actions, slow).is_empty());
            break;
        }
        assert_eq!(content(&actions, slow).len(), 4093);
    }
    assert!(s.output(b"more").is_empty());
    assert_eq!(s.welcome(1).client_count, 0);
}

#[test]
fn fast_client_outlives_the_slow_one() {
    let mut s = started();
    let (slow, _, _) = attach_live(&mut s, ClientFlags::empty());
    let (fast, _, _) = attach_live(&mut s, ClientFlags::empty());
    let data = vec![0u8; 4096];
    let mut got = 0usize;
    let mut slow_closed = false;
    for _ in 0..200 {
        let actions = s.output(&data);
        slow_closed = slow_closed || closed(&actions, slow);
        assert!(!closed(&actions, fast));
        got += content(&actions, fast).len();
        for (_, p) in sent(&actions, fast) {
            s.written(fast, 3 + p.len());
        }
    }
    assert!(slow_closed);
    assert_eq!(got, 200 * 4096);
}

#[test]
fn control_moves_on_when_the_controller_is_closed() {
    let mut s = started();
    let (a, _, _) = attach_live(&mut s, ClientFlags::empty());
    let (b, _, _) = attach_live(&mut s, ClientFlags::empty());
    let data = vec![0u8; 4093];
    loop {
        let actions = s.output(&data);
        for (_, p) in sent(&actions, a) {
            s.written(a, 3 + p.len());
        }
        if closed(&actions, b) {
            assert!(asked_for_size(&actions, a));
            break;
        }
    }
    assert_eq!(sizes(&s.client_packet(a, &Packet::resize(2, 3))), vec![(2, 3)]);
}

#[test]
fn written_bytes_never_count_below_zero() {
    let mut s = started();
    let (a, _, _) = attach_live(&mut s, ClientFlags::empty());
    s.written(a, 1000000);
    s.written(99, 5);
    assert_eq!(content(&s.output(b"ok"), a), b"ok");
}

#[test]
fn welcome_tells_the_session() {
    let mut s = Session::new(4096, 1235);
    s.output(b"12345");
    attach_live(&mut s, ClientFlags::empty());
    attach_live(&mut s, ClientFlags::with_readonly());
    let w = s.welcome(1234);
    assert_eq!(w.version, 1);
    assert_eq!(w.server_pid, 1234);
    assert_eq!(w.child_pid, 1235);
    assert!(w.child_running);
    assert_eq!(w.exit_status, 0);
    assert_eq!(w.client_count, 2);
    assert_eq!(w.ring_size, 4096);
    assert_eq!(w.ring_used, 5);
    s.child_exited(258);
    assert_eq!(s.welcome(1).exit_status, 2);
    assert!(!s.welcome(1).child_running);
}

#[test]
fn closed_terminal_is_not_read_again() {
    let mut s = started();
    assert!(s.reads_output());
    s.pty_closed();
    assert!(!s.reads_output());
    assert!(s.child_running());
    assert!(s.accepts_clients());
}

#[test]
fn detaching_leaves_the_session_running() {
    let mut s = started();
    let (a, _, _) = attach_live(&mut s, ClientFlags::empty());
    s.output(b"kept");
    let actions = s.client_packet(a, &Packet::empty(MsgType::Detach));
    assert!(finished(&actions, a));
    assert!(s.child_running());
    assert!(!s.finished());
    assert_eq!(s.welcome(1).client_count, 0);
    let (b, snapshot, _) = attach_live(&mut s, ClientFlags::empty());
    assert_eq!(snapshot, b"kept");
    assert_ne!(a, b);
}

#[test]
fn others_leave_without_a_change_of_control() {
    let mut s = started();
    let (a, _, _) = attach_live(&mut s, ClientFlags::empty());
    let (b, _, _) = attach_live(&mut s, ClientFlags::empty());
    let actions = s.client_gone(a);
    assert_eq!(actions.len(), 1);
    assert!(closed(&actions, a));
    assert_eq!(sizes(&s.client_packet(b, &Packet::resize(5, 6))), vec![(5, 6)]);
}

#[test]
fn exit_status_is_told_once() {
    let mut s = started();
    let (a, _, _) = attach_live(&mut s, ClientFlags::empty());
    let (b, _, _) = s.register(ClientFlags::with_readonly());
    let mut actions = s.child_exited(3);
    actions.extend(s.child_exited(4));
    actions.extend(s.output(b"late"));
    actions.extend(s.client_live(b));
    actions.extend(s.client_packet(a, &Packet::resize(1, 1)));
    actions.extend(s.client_gone(a));
    actions.extend(s.client_gone(b));
    for id in [a, b] {
        let exits: Vec<Vec<u8>> = sent(&actions, id)
            .into_iter()
            .filter(|(t, _)| *t == MsgType::Exit)
            .map(|(_, p)| p)
            .collect();
        assert_eq!(exits, vec![vec![3, 0, 0, 0]]);
    }
    assert!(s.finished());
}

#[test]
fn end_of_input_is_a_detach() {
    let mut s = started();
    let (a, _, _) = attach_live(&mut s, ClientFlags::empty());
    let (b, _, _) = attach_live(&mut s, ClientFlags::empty());
    s.output(b"queued");
    let actions = s.input_ended(b);
    assert!(finished(&actions, b));
    assert!(!closed(&actions, b));
    assert!(asked_for_size(&actions, a));
    assert_eq!(s.welcome(1).client_count, 1);
    assert!(s.input_ended(b).is_empty());
    assert!(s.client_gone(b).is_empty());
}
