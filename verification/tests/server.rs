use mneme::client::attach_hello;
use mneme::protocol::{ClientFlags, Hello, Intent, MsgType, Packet};
use mneme::server::{
    child_command, exit_code, greet, invalid_socket_path, lock_is_held, parse_server_args,
    server_args, signal_target,
    verify_peer_uid, version_mismatch_text, Greeting, ServerOpts,
};
use mneme::session::Session;

fn strings(words: &[&str]) -> Vec<String> {
    words.iter().map(|w| w.to_string()).collect()
}

fn error_of(words: &[&str]) -> String {
    parse_server_args(&strings(words)).err().unwrap()
}

#[test]
fn server_arguments() {
    let o = parse_server_args(&strings(&[
        "work",
        "--ready-fd",
        "5",
        "--rows",
        "50",
        "--cols",
        "120",
        "--ring-size",
        "4096",
        "--socket-path",
        "/run/mneme/work",
        "--",
        "sh",
        "-c",
        "--rows",
    ]))
    .unwrap();
    assert_eq!(o.ready_fd, 5);
    assert_eq!(o.rows, 50);
    assert_eq!(o.cols, 120);
    assert_eq!(o.ring_size, 4096);
    assert_eq!(o.socket_path, "/run/mneme/work");
    assert_eq!(o.command, strings(&["sh", "-c", "--rows"]));
}

#[test]
fn server_argument_defaults() {
    let o = parse_server_args(&strings(&["w", "--socket-path", "p", "--ready-fd", "-1"])).unwrap();
    assert_eq!((o.rows, o.cols, o.ring_size), (24, 80, 1048576));
    assert_eq!(o.ready_fd, -1);
    assert!(o.command.is_empty());
}

#[test]
fn server_argument_errors() {
    assert_eq!(error_of(&[]), "--server requires a session name");
    assert_eq!(error_of(&["w"]), "--ready-fd is required");
    assert_eq!(error_of(&["w", "--ready-fd", "3"]), "--socket-path is required");
    assert_eq!(error_of(&["w", "--ready-fd"]), "--ready-fd requires a value");
    assert_eq!(error_of(&["w", "--rows"]), "--rows requires a value");
    assert_eq!(error_of(&["w", "--cols"]), "--cols requires a value");
    assert_eq!(error_of(&["w", "--ring-size"]), "--ring-size requires a value");
    assert_eq!(error_of(&["w", "--socket-path"]), "--socket-path requires a value");
    assert_eq!(error_of(&["w", "--what"]), "unknown server option: --what");
    assert_eq!(
        error_of(&["w", "--ready-fd", "x"]),
        "invalid --ready-fd: invalid digit found in string"
    );
    assert_eq!(
        error_of(&["w", "--rows", "65536"]),
        "invalid --rows: number too large to fit in target type"
    );
    assert_eq!(
        error_of(&["w", "--cols", ""]),
        "invalid --cols: cannot parse integer from empty string"
    );
    assert_eq!(
        error_of(&["w", "--ring-size", "-1"]),
        "invalid --ring-size: invalid digit found in string"
    );
}

#[test]
fn server_reads_what_it_was_started_with() {
    let opts = ServerOpts {
        ready_fd: 7,
        rows: 31,
        cols: 65535,
        ring_size: 2097152,
        socket_path: "/tmp/mneme/1000/a b".to_string(),
        command: strings(&["/bin/sh", "--", "-c", ""]),
    };
    let args = server_args("work", &opts);
    assert_eq!(args[0], "--server");
    assert_eq!(args[1], "work");
    let back = parse_server_args(&args[1..]).unwrap();
    assert_eq!(back.ready_fd, 7);
    assert_eq!((back.rows, back.cols), (31, 65535));
    assert_eq!(back.ring_size, 2097152);
    assert_eq!(back.socket_path, opts.socket_path);
    assert_eq!(back.command, opts.command);
}

#[test]
fn greetings() {
    let s = Session::new(64, 12);
    let hello = attach_hello(ClientFlags::with_readonly(), 24, 80);
    match greet(&s, 99, &Packet::hello(&hello)) {
        Greeting::Attach { reply, hello: h } => {
            assert_eq!(h, hello);
            let w = reply.parse_welcome().unwrap();
            assert_eq!((w.server_pid, w.child_pid, w.ring_size), (99, 12, 64));
        }
        other => panic!("{other:?}"),
    }
    let query = Hello { intent: Intent::Query, ..hello };
    match greet(&s, 99, &Packet::hello(&query)) {
        Greeting::Query { reply } => assert!(reply.parse_welcome().unwrap().child_running),
        other => panic!("{other:?}"),
    }
}

#[test]
fn greeting_of_another_version() {
    let s = Session::new(64, 12);
    let hello = Hello { version: 99, ..attach_hello(ClientFlags::empty(), 1, 1) };
    match greet(&s, 1, &Packet::hello(&hello)) {
        Greeting::Reject { notice: Some(p) } => assert_eq!(
            p.parse_error().unwrap(),
            "protocol version mismatch: client=99, server=1"
        ),
        other => panic!("{other:?}"),
    }
    assert_eq!(
        version_mismatch_text(1, 255),
        "protocol version mismatch: client=1, server=255"
    );
}

#[test]
fn anything_before_the_greeting_is_rejected() {
    let s = Session::new(64, 12);
    match greet(&s, 1, &Packet::content(b"sneaky data")) {
        Greeting::Reject { notice: Some(p) } => {
            assert_eq!(p.msg_type, MsgType::Error);
            assert_eq!(p.parse_error().unwrap(), "expected Hello");
        }
        other => panic!("{other:?}"),
    }
}

#[test]
fn unreadable_greeting_is_dropped() {
    let s = Session::new(64, 12);
    let short = Packet::new(MsgType::Hello, vec![1, 1, 0]);
    assert!(matches!(greet(&s, 1, &short), Greeting::Reject { notice: None }));
    let mut payload = vec![0u8; 8];
    payload[0] = 1;
    payload[1] = 99;
    let odd = Packet::new(MsgType::Hello, payload);
    assert!(matches!(greet(&s, 1, &odd), Greeting::Reject { notice: None }));
}

#[test]
fn peers_of_other_users() {
    assert!(verify_peer_uid(1000, 1000).is_ok());
    assert_eq!(
        verify_peer_uid(0, 1000).err().unwrap(),
        "peer uid 0 does not match server uid 1000"
    );
}

#[test]
fn what_keeps_a_server_from_starting() {
    assert_eq!(invalid_socket_path("/"), "invalid socket path: /");
    assert_eq!(
        lock_is_held("/run/w.lock"),
        "another server already holds the session lock: /run/w.lock"
    );
}

#[test]
fn exit_statuses() {
    assert_eq!(exit_code(Some(0)), 0);
    assert_eq!(exit_code(Some(42)), 42);
    assert_eq!(exit_code(Some(-1)), u32::MAX);
    assert_eq!(exit_code(None), 1);
}

#[test]
fn what_the_child_runs() {
    let cmd = strings(&["top", "-d", "1"]);
    assert_eq!(child_command(&cmd, Some("/bin/zsh".to_string())), cmd);
    assert_eq!(child_command(&[], Some("/bin/zsh".to_string())), strings(&["/bin/zsh"]));
    assert_eq!(child_command(&[], None), strings(&["/bin/sh"]));
}

#[test]
fn whom_to_signal() {
    assert_eq!(signal_target(0), None);
    assert_eq!(signal_target(1), Some(1));
    assert_eq!(signal_target(4242), Some(4242));
    assert_eq!(signal_target(i32::MAX as u32), Some(i32::MAX));
    assert_eq!(signal_target(u32::MAX), None);
}
