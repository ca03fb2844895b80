use mneme::client::{
    attach_hello, attach_reply, csi_u_press_sequence, find_detach_key, local_failure, query_hello,
    query_reply, raw_modes, receive_failed, server_event, soft_reset, stdin_read, terminal_size,
    AttachResult, ClientAction, ClientLoop, DisconnectReason, LocalFailure, RawBits, ServerEvent,
    StdinRead, TermModes,
};
use mneme::protocol::{ClientFlags, Hello, Intent, MsgType, Packet, Welcome, MAX_PAYLOAD};
use mneme::server::{greet, Greeting};
use mneme::session::Session;
use mneme::transfer::IoOutcome;

fn welcome(version: u8) -> Packet {
    Packet::welcome(&Welcome {
        version,
        server_pid: 1,
        child_pid: 2,
        child_running: true,
        exit_status: 0,
        client_count: 0,
        ring_size: 3,
        ring_used: 0,
    })
}

fn live(flags: ClientFlags, tty: bool) -> ClientLoop {
    let mut c = ClientLoop::new(0x1c, flags, tty, true);
    assert!(!c.reads_stdin());
    assert!(!c.announces_resize());
    assert!(matches!(c.server_event(ServerEvent::ReplayEnd), ClientAction::AnnounceSize));
    assert!(c.reads_stdin());
    assert!(c.announces_resize());
    c
}

fn payload(packets: &[Packet]) -> Vec<u8> {
    packets.iter().flat_map(|p| p.payload.clone()).collect()
}

#[test]
fn disconnect_reason_messages_are_actionable() {
    assert_eq!(DisconnectReason::ServerHungUp.to_string(), "server hung up");
    assert_eq!(
        DisconnectReason::ServerError("boom".into()).to_string(),
        "server sent error: boom"
    );
    assert_eq!(
        DisconnectReason::InvalidExitPacket.to_string(),
        "invalid exit packet from server"
    );
}

#[test]
fn read_and_write_failures_in_words() {
    assert_eq!(
        DisconnectReason::ServerRead("reset".into()).to_string(),
        "read from server failed: reset"
    );
    assert_eq!(
        DisconnectReason::ServerWrite("pipe".into()).to_string(),
        "write to server failed: pipe"
    );
}

#[test]
fn answers_to_an_attaching_client() {
    assert_eq!(attach_reply(&welcome(1)).unwrap().ring_size, 3);
    assert_eq!(
        attach_reply(&welcome(2)).err().unwrap(),
        "protocol version mismatch: client=1, server=2"
    );
    let short = Packet::new(MsgType::Welcome, vec![1; 20]);
    assert_eq!(attach_reply(&short).err().unwrap(), "malformed welcome packet");
    assert_eq!(attach_reply(&Packet::error("go away")).err().unwrap(), "go away");
    let odd = Packet::new(MsgType::Error, vec![0xff]);
    assert_eq!(attach_reply(&odd).err().unwrap(), "unknown server error");
    assert_eq!(
        attach_reply(&Packet::exit(0)).err().unwrap(),
        "unexpected response from server"
    );
}

#[test]
fn answers_to_a_query() {
    assert_eq!(query_reply(&welcome(1)).unwrap().server_pid, 1);
    assert!(query_reply(&welcome(2)).is_ok());
    let short = Packet::new(MsgType::Welcome, vec![1; 20]);
    assert_eq!(query_reply(&short).err().unwrap(), "malformed welcome");
    assert_eq!(query_reply(&Packet::error("no")).err().unwrap(), "no");
    let odd = Packet::new(MsgType::Error, vec![0xff]);
    assert_eq!(query_reply(&odd).err().unwrap(), "unknown error");
    assert_eq!(query_reply(&Packet::exit(0)).err().unwrap(), "unexpected response");
}

#[test]
fn greetings_of_clients() {
    let h = attach_hello(ClientFlags::with_low_priority(), 30, 100);
    assert_eq!(h.version, 1);
    assert_eq!(h.intent, Intent::Attach);
    assert_eq!((h.rows, h.cols), (30, 100));
    assert!(h.flags.low_priority && !h.flags.readonly);
    let q = query_hello();
    assert_eq!(q.intent, Intent::Query);
    assert_eq!((q.rows, q.cols, q.flags.bits()), (0, 0, 0));
}

#[test]
fn packets_of_the_server() {
    for p in [Packet::replay(b"abc"), Packet::content(b"abc")] {
        match server_event(&p) {
            Some(ServerEvent::Output(b)) => assert_eq!(b, b"abc"),
            other => panic!("{other:?}"),
        }
    }
    assert!(matches!(server_event(&Packet::exit(9)), Some(ServerEvent::Exit(9))));
    match server_event(&Packet::new(MsgType::Exit, vec![1])) {
        Some(ServerEvent::Error(m)) => assert_eq!(m, "invalid exit packet"),
        other => panic!("{other:?}"),
    }
    match server_event(&Packet::new(MsgType::Error, vec![0xc0])) {
        Some(ServerEvent::Error(m)) => assert_eq!(m, "unknown"),
        other => panic!("{other:?}"),
    }
    match server_event(&Packet::error("bad")) {
        Some(ServerEvent::Error(m)) => assert_eq!(m, "bad"),
        other => panic!("{other:?}"),
    }
    assert!(matches!(
        server_event(&Packet::empty(MsgType::ReplayEnd)),
        Some(ServerEvent::ReplayEnd)
    ));
    assert!(matches!(
        server_event(&Packet::empty(MsgType::ResizeReq)),
        Some(ServerEvent::ResizeReq)
    ));
    for t in [MsgType::Hello, MsgType::Welcome, MsgType::Resize, MsgType::Detach] {
        assert!(server_event(&Packet::empty(t)).is_none());
    }
}

#[test]
fn lost_connections() {
    assert!(matches!(receive_failed(true, "eof".into()), ServerEvent::HungUp));
    match receive_failed(false, "reset".into()) {
        ServerEvent::ReadFailed(e) => assert_eq!(e, "reset"),
        other => panic!("{other:?}"),
    }
}

#[test]
fn detach_key_encodings() {
    assert_eq!(csi_u_press_sequence(0x1c), b"\x1b[92;5u");
    assert_eq!(csi_u_press_sequence(0x00), b"\x1b[64;5u");
    assert_eq!(csi_u_press_sequence(0x11), b"\x1b[81;5u");
    assert_eq!(csi_u_press_sequence(0x1f), b"\x1b[95;5u");
    assert!(csi_u_press_sequence(0x20).is_empty());
    assert!(csi_u_press_sequence(b'x').is_empty());
}

#[test]
fn detach_key_search() {
    let csi = csi_u_press_sequence(0x1c);
    assert_eq!(find_detach_key(b"abc\x1cdef", 0x1c, &csi), Some((3, 1)));
    assert_eq!(find_detach_key(b"ab\x1b[92;5ucd", 0x1c, &csi), Some((2, 7)));
    // The long encoding is looked for first.
    assert_eq!(find_detach_key(b"\x1cab\x1b[92;5u", 0x1c, &csi), Some((3, 7)));
    assert_eq!(find_detach_key(b"\x1b[92;5", 0x1c, &csi), None);
    assert_eq!(find_detach_key(b"", 0x1c, &csi), None);
    assert_eq!(find_detach_key(b"xyx", b'x', b""), Some((0, 1)));
}

#[test]
fn typed_input_is_sent_whole() {
    let c = live(ClientFlags::empty(), true);
    let data: Vec<u8> = (0..4096usize).map(|i| b'a' + (i % 20) as u8).collect();
    let (packets, done) = c.input(&data);
    assert!(!done);
    assert_eq!(packets.len(), 2);
    assert!(packets.iter().all(|p| p.msg_type == MsgType::Content));
    assert!(packets.iter().all(|p| p.payload.len() <= MAX_PAYLOAD));
    assert_eq!(payload(&packets), data);
}

#[test]
fn detaching_sends_what_came_before() {
    let c = live(ClientFlags::empty(), true);
    let (packets, done) = c.input(b"before\x1cafter");
    assert!(done);
    assert_eq!(packets.len(), 2);
    assert_eq!(packets[0].payload, b"before");
    assert_eq!(packets[1].msg_type, MsgType::Detach);
    let (packets, done) = c.input(b"\x1b[92;5u");
    assert!(done);
    assert_eq!(packets.len(), 1);
    assert_eq!(packets[0].msg_type, MsgType::Detach);
}

#[test]
fn readonly_clients_only_detach() {
    let c = live(ClientFlags::with_readonly(), true);
    let (packets, done) = c.input(b"ignored");
    assert!(packets.is_empty() && !done);
    let (packets, done) = c.input(b"ignored\x1c");
    assert!(done);
    assert_eq!(packets.len(), 1);
    assert_eq!(packets[0].msg_type, MsgType::Detach);
}

#[test]
fn end_of_the_keyboard() {
    let mut tty = live(ClientFlags::empty(), true);
    assert!(matches!(tty.input_ended(), Some(AttachResult::Detached)));
    let mut pipe = live(ClientFlags::empty(), false);
    assert!(pipe.input_ended().is_none());
    assert!(!pipe.reads_stdin());
    assert!(pipe.announces_resize());
    let mut none = ClientLoop::new(0x1c, ClientFlags::empty(), false, false);
    none.server_event(ServerEvent::ReplayEnd);
    assert!(!none.reads_stdin());
}

#[test]
fn keyboard_reads() {
    assert_eq!(stdin_read(IoOutcome::Bytes(5)), StdinRead::Data(5));
    assert_eq!(stdin_read(IoOutcome::Bytes(0)), StdinRead::Ended);
    assert_eq!(stdin_read(IoOutcome::WouldBlock), StdinRead::Nothing);
    assert_eq!(stdin_read(IoOutcome::Failed), StdinRead::Ended);
    assert_eq!(stdin_read(IoOutcome::Interrupted), StdinRead::Ended);
}

#[test]
fn what_the_server_says_is_done() {
    let mut c = live(ClientFlags::empty(), true);
    match c.server_event(ServerEvent::Output(b"out".to_vec())) {
        ClientAction::Write(b) => assert_eq!(b, b"out"),
        other => panic!("{other:?}"),
    }
    assert!(matches!(c.server_event(ServerEvent::ResizeReq), ClientAction::AnnounceSize));
    assert!(matches!(
        c.server_event(ServerEvent::Exit(4)),
        ClientAction::Finish(AttachResult::Exited(4))
    ));
    assert!(matches!(
        c.server_event(ServerEvent::HungUp),
        ClientAction::Finish(AttachResult::IoError(DisconnectReason::ServerHungUp))
    ));
    match c.server_event(ServerEvent::Error("e".into())) {
        ClientAction::Finish(AttachResult::IoError(r)) => {
            assert_eq!(r.to_string(), "server sent error: e")
        }
        other => panic!("{other:?}"),
    }
    match c.server_event(ServerEvent::ReadFailed("r".into())) {
        ClientAction::Finish(AttachResult::IoError(r)) => {
            assert_eq!(r.to_string(), "read from server failed: r")
        }
        other => panic!("{other:?}"),
    }
}

#[test]
fn failures_on_this_side() {
    for f in [LocalFailure::Stdout("x".into()), LocalFailure::Announce("x".into())] {
        match local_failure(f) {
            AttachResult::IoError(r) => assert_eq!(r.to_string(), "write to server failed: x"),
            other => panic!("{other:?}"),
        }
    }
    match local_failure(LocalFailure::Content) {
        AttachResult::IoError(r) => assert_eq!(r.to_string(), "server hung up"),
        other => panic!("{other:?}"),
    }
}

#[test]
fn raw_mode_bits() {
    let modes = TermModes { input: 0x4502, output: 5, local: 0x8a3b, control: 0x4bf };
    let bits = RawBits {
        input: 0x5eb,
        output: 1,
        local: 0x804b,
        size: 0x30,
        eight: 0x30,
        parity: 0x100,
    };
    let raw = raw_modes(modes, bits);
    assert_eq!(raw.input, 0x4502 & !0x5eb);
    assert_eq!(raw.output, 4);
    assert_eq!(raw.local, 0x8a3b & !0x804b);
    assert_eq!(raw.control, 0x4bf);
    let odd = raw_modes(TermModes { control: 0x120, ..modes }, bits);
    assert_eq!(odd.control, 0x30);
}

#[test]
fn leaving_the_terminal() {
    assert_eq!(
        soft_reset().as_bytes(),
        b"\x1b[?1049l\x1b[<u\x1b[0m\x1b[?25h\x1b[?7h\x1b[?2004l\x1b[?1000l\x1b[?1002l\x1b[?1003l\x1b[?1006l\x1b[r\r\n"
    );
    assert_eq!(terminal_size(None), (24, 80));
    assert_eq!(terminal_size(Some((50, 132))), (50, 132));
}

#[test]
fn the_two_ends_understand_one_another() {
    let s = Session::new(64, 12);
    let hello = attach_hello(ClientFlags::empty(), 24, 80);
    match greet(&s, 99, &Packet::hello(&hello)) {
        Greeting::Attach { reply, .. } => {
            assert_eq!(attach_reply(&reply).unwrap(), s.welcome(99));
        }
        other => panic!("{other:?}"),
    }
    match greet(&s, 99, &Packet::hello(&query_hello())) {
        Greeting::Query { reply } => assert_eq!(query_reply(&reply).unwrap(), s.welcome(99)),
        other => panic!("{other:?}"),
    }
    let stranger = Hello { version: 2, ..hello };
    match greet(&s, 99, &Packet::hello(&stranger)) {
        Greeting::Reject { notice: Some(p) } => {
            let text = "protocol version mismatch: client=2, server=1";
            assert_eq!(attach_reply(&p).unwrap_err(), text);
            assert_eq!(query_reply(&p).unwrap_err(), text);
        }
        other => panic!("{other:?}"),
    }
}
