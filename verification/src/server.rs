//! What a session server decides outside its event loop: its arguments, the answer to a
//! greeting, whom it talks to, and what it runs.

use crate::protocol::{Hello, Intent, MsgType, Packet, PacketView, PROTOCOL_VERSION};
use crate::session::{Session, SessionView};
use crate::text::{
    decimal_string, parse_i32, parse_unsigned, push_decimal, str_eq, strings_from, together,
};
use vstd::prelude::*;

verus! {

/// Bytes that are read at a time from the child's terminal or from the keyboard.
pub const READ_BUF_SIZE: usize = 4096;

/// Seconds that a connection has for its greeting.
pub const HELLO_TIMEOUT_SECS: u64 = 5;

/// Seconds that a query waits for its answer.
pub const QUERY_TIMEOUT_SECS: u64 = 2;

/// What a server is told when it is started.
#[derive(Debug)]
pub struct ServerOpts {
    /// The descriptor that is closed when the server is ready.
    pub ready_fd: i32,
    pub rows: u16,
    pub cols: u16,
    /// Bytes of output to keep.
    pub ring_size: usize,
    pub socket_path: String,
    /// The program to run and its arguments; empty for a shell.
    pub command: Vec<String>,
}

/// What [`ServerOpts`] are.
pub struct ServerOptsView {
    pub ready_fd: i32,
    pub rows: u16,
    pub cols: u16,
    pub ring_size: usize,
    pub socket_path: Seq<char>,
    pub command: Seq<Seq<char>>,
}

impl View for ServerOpts {
    type V = ServerOptsView;

    open spec fn view(&self) -> ServerOptsView {
        ServerOptsView {
            ready_fd: self.ready_fd,
            rows: self.rows,
            cols: self.cols,
            ring_size: self.ring_size,
            socket_path: self.socket_path@,
            command: crate::text::strings(self.command@),
        }
    }
}

/// What has been read of a server's arguments.
pub struct ServerScan {
    pub ready_fd: Option<i32>,
    pub rows: u16,
    pub cols: u16,
    pub ring_size: usize,
    pub socket_path: Option<Seq<char>>,
    pub command: Seq<Seq<char>>,
}

/// Bytes of output that a server keeps where it is not told otherwise: 1 MiB.
pub const DEFAULT_SERVER_RING: usize = 1048576;

/// What holds before the first option: 24 rows, 80 columns, 1 MiB of output.
pub open spec fn server_defaults() -> ServerScan {
    ServerScan {
        ready_fd: None,
        rows: 24,
        cols: 80,
        ring_size: DEFAULT_SERVER_RING,
        socket_path: None,
        command: Seq::empty(),
    }
}

/// Read options up to the separator, after which comes the command.
pub open spec fn scan_server(args: Seq<Seq<char>>, acc: ServerScan) -> Result<ServerScan, Seq<char>>
    decreases args.len(),
{
    if args.len() == 0 {
        Ok(acc)
    } else if args[0] == "--"@ {
        Ok(ServerScan { command: args.drop_first(), ..acc })
    } else if args[0] == "--ready-fd"@ {
        if args.len() < 2 {
            Err("--ready-fd requires a value"@)
        } else {
            match crate::text::i32_value(args[1]) {
                Err(e) => Err("invalid --ready-fd: "@ + e.text()),
                Ok(v) => scan_server(args.skip(2), ServerScan { ready_fd: Some(v as i32), ..acc }),
            }
        }
    } else if args[0] == "--rows"@ {
        if args.len() < 2 {
            Err("--rows requires a value"@)
        } else {
            match crate::text::unsigned_value(args[1], u16::MAX as nat) {
                Err(e) => Err("invalid --rows: "@ + e.text()),
                Ok(v) => scan_server(args.skip(2), ServerScan { rows: v as u16, ..acc }),
            }
        }
    } else if args[0] == "--cols"@ {
        if args.len() < 2 {
            Err("--cols requires a value"@)
        } else {
            match crate::text::unsigned_value(args[1], u16::MAX as nat) {
                Err(e) => Err("invalid --cols: "@ + e.text()),
                Ok(v) => scan_server(args.skip(2), ServerScan { cols: v as u16, ..acc }),
            }
        }
    } else if args[0] == "--ring-size"@ {
        if args.len() < 2 {
            Err("--ring-size requires a value"@)
        } else {
            match crate::text::unsigned_value(args[1], usize::MAX as nat) {
                Err(e) => Err("invalid --ring-size: "@ + e.text()),
                Ok(v) => scan_server(args.skip(2), ServerScan { ring_size: v as usize, ..acc }),
            }
        }
    } else if args[0] == "--socket-path"@ {
        if args.len() < 2 {
            Err("--socket-path requires a value"@)
        } else {
            scan_server(args.skip(2), ServerScan { socket_path: Some(args[1]), ..acc })
        }
    } else {
        Err("unknown server option: "@ + args[0])
    }
}

/// What a server's arguments mean: the session's name, then options, then the command.
pub open spec fn server_opts_of(args: Seq<Seq<char>>) -> Result<ServerOptsView, Seq<char>> {
    if args.len() == 0 {
        Err("--server requires a session name"@)
    } else {
        match scan_server(args.drop_first(), server_defaults()) {
            Err(e) => Err(e),
            Ok(scan) => match scan.ready_fd {
                None => Err("--ready-fd is required"@),
                Some(ready_fd) => match scan.socket_path {
                    None => Err("--socket-path is required"@),
                    Some(socket_path) => Ok(
                        ServerOptsView {
                            ready_fd,
                            rows: scan.rows,
                            cols: scan.cols,
                            ring_size: scan.ring_size,
                            socket_path,
                            command: scan.command,
                        },
                    ),
                },
            },
        }
    }
}

/// The value that follows the option at index `i`.
fn option_value<'a>(args: &'a [String], i: usize, missing: &str) -> (r: Result<&'a str, String>)
    requires
        i < args@.len(),
    ensures
        match r {
            Ok(s) => i + 1 < args@.len() && s@ == crate::text::strings(args@)[i + 1],
            Err(e) => i + 1 >= args@.len() && e@ == missing@,
        },
{
    if args.len() - i > 1 {
        Ok(args[i + 1].as_str())
    } else {
        Err(missing.to_owned())
    }
}

/// A `u16` option's value.
fn u16_option(args: &[String], i: usize, missing: &str, invalid: &str) -> (r: Result<u16, String>)
    requires
        i < args@.len(),
    ensures
        match r {
            Ok(v) => i + 1 < args@.len() && crate::text::unsigned_value(
                crate::text::strings(args@)[i + 1],
                u16::MAX as nat,
            ) == Ok::<nat, crate::text::IntError>(v as nat),
            Err(e) => if i + 1 >= args@.len() {
                e@ == missing@
            } else {
                crate::text::unsigned_value(crate::text::strings(args@)[i + 1], u16::MAX as nat)
                    matches Err(x) && e@ == invalid@ + x.text()
            },
        },
{
    let value = match option_value(args, i, missing) {
        Err(e) => {
            return Err(e);
        },
        Ok(value) => value,
    };
    match parse_unsigned(value, u16::MAX as u64) {
        Ok(v) => Ok(v as u16),
        Err(e) => Err(together(invalid, e.message())),
    }
}

/// Read the arguments of a server.
pub fn parse_server_args(args: &[String]) -> (r: Result<ServerOpts, String>)
    ensures
        match server_opts_of(crate::text::strings(args@)) {
            Ok(o) => r matches Ok(opts) && opts@ == o,
            Err(e) => r matches Err(msg) && msg@ == e,
        },
{
    let ghost all = crate::text::strings(args@);
    if args.len() == 0 {
        return Err("--server requires a session name".to_owned());
    }
    let mut ready_fd: Option<i32> = None;
    let mut rows: u16 = 24;
    let mut cols: u16 = 80;
    let mut ring_size: usize = DEFAULT_SERVER_RING;
    let mut socket_path: Option<String> = None;
    let mut command: Vec<String> = Vec::new();
    let mut separated: bool = false;
    let mut i: usize = 1;
    assert(all.skip(1) =~= all.drop_first());
    assert(crate::text::strings(command@) =~= Seq::<Seq<char>>::empty());
    while i < args.len() && !separated
        invariant
            1 <= i <= args@.len(),
            all == crate::text::strings(args@),
            ({
                let acc = ServerScan {
                    ready_fd,
                    rows,
                    cols,
                    ring_size,
                    socket_path: match socket_path {
                        Some(s) => Some(s@),
                        None => None,
                    },
                    command: crate::text::strings(command@),
                };
                if separated {
                    scan_server(all.drop_first(), server_defaults()) == Ok::<_, Seq<char>>(acc)
                } else {
                    scan_server(all.drop_first(), server_defaults()) == scan_server(
                        all.skip(i as int),
                        acc,
                    )
                }
            }),
        decreases
                args@.len() - i + (if separated {
                    0int
                } else {
                    1
                }),
    {
        let name = args[i].as_str();
        proof {
            assert(all.skip(i as int)[0] == name@);
            if i + 1 < all.len() {
                assert(all.skip(i as int)[1] == all[i + 1]);
                assert(all.skip(i as int).skip(2) =~= all.skip(i + 2));
            }
            assert(all.skip(i as int).drop_first() =~= all.skip(i + 1));
        }
        if str_eq(name, "--") {
            command = strings_from(args, i + 1);
            separated = true;
        } else if str_eq(name, "--ready-fd") {
            let value = match option_value(args, i, "--ready-fd requires a value") {
                Err(e) => {
                    return Err(e);
                },
                Ok(value) => value,
            };
            match parse_i32(value) {
                Err(e) => {
                    return Err(together("invalid --ready-fd: ", e.message()));
                },
                Ok(v) => {
                    ready_fd = Some(v);
                },
            }
            i = i + 2;
        } else if str_eq(name, "--rows") {
            match u16_option(args, i, "--rows requires a value", "invalid --rows: ") {
                Err(e) => {
                    return Err(e);
                },
                Ok(v) => {
                    rows = v;
                },
            }
            i = i + 2;
        } else if str_eq(name, "--cols") {
            match u16_option(args, i, "--cols requires a value", "invalid --cols: ") {
                Err(e) => {
                    return Err(e);
                },
                Ok(v) => {
                    cols = v;
                },
            }
            i = i + 2;
        } else if str_eq(name, "--ring-size") {
            let value = match option_value(args, i, "--ring-size requires a value") {
                Err(e) => {
                    return Err(e);
                },
                Ok(value) => value,
            };
            match parse_unsigned(value, usize::MAX as u64) {
                Err(e) => {
                    return Err(together("invalid --ring-size: ", e.message()));
                },
                Ok(v) => {
                    ring_size = v as usize;
                },
            }
            i = i + 2;
        } else if str_eq(name, "--socket-path") {
            match option_value(args, i, "--socket-path requires a value") {
                Err(e) => {
                    return Err(e);
                },
                Ok(value) => {
                    socket_path = Some(value.to_owned());
                },
            }
            i = i + 2;
        } else {
            return Err(together("unknown server option: ", name));
        }
    }
    assert(i == all.len() ==> all.skip(i as int) =~= Seq::<Seq<char>>::empty());
    match ready_fd {
        None => Err("--ready-fd is required".to_owned()),
        Some(ready_fd) => match socket_path {
            None => Err("--socket-path is required".to_owned()),
            Some(socket_path) => Ok(
                ServerOpts { ready_fd, rows, cols, ring_size, socket_path, command },
            ),
        },
    }
}

/// The arguments that start a server for a session, from the mark of server mode on.
pub open spec fn server_args_of(name: Seq<char>, opts: ServerOptsView) -> Seq<Seq<char>> {
    seq![
        "--server"@,
        name,
        "--ready-fd"@,
        crate::text::decimal(opts.ready_fd as nat),
        "--rows"@,
        crate::text::decimal(opts.rows as nat),
        "--cols"@,
        crate::text::decimal(opts.cols as nat),
        "--ring-size"@,
        crate::text::decimal(opts.ring_size as nat),
        "--socket-path"@,
        opts.socket_path,
        "--"@,
    ] + opts.command
}

/// The arguments that start a server for the session `name`.
pub fn server_args(name: &str, opts: &ServerOpts) -> (args: Vec<String>)
    requires
        opts.ready_fd >= 0,
    ensures
        crate::text::strings(args@) == server_args_of(name@, opts@),
{
    let mut args: Vec<String> = Vec::new();
    args.push("--server".to_owned());
    args.push(name.to_owned());
    args.push("--ready-fd".to_owned());
    args.push(decimal_string(opts.ready_fd as u64));
    args.push("--rows".to_owned());
    args.push(decimal_string(opts.rows as u64));
    args.push("--cols".to_owned());
    args.push(decimal_string(opts.cols as u64));
    args.push("--ring-size".to_owned());
    args.push(decimal_string(opts.ring_size as u64));
    args.push("--socket-path".to_owned());
    args.push(opts.socket_path.clone());
    args.push("--".to_owned());
    let mut command: Vec<String> = strings_from(&opts.command, 0);
    let ghost options = args@;
    let ghost rest = command@;
    args.append(&mut command);
    proof {
        assert(crate::text::strings(opts.command@).skip(0) =~= opts@.command);
        assert(crate::text::strings(args@) =~= crate::text::strings(options)
            + crate::text::strings(rest));
        assert(crate::text::strings(args@) =~= server_args_of(name@, opts@));
    }
    args
}

/// A server reads out of its arguments what it was started with: the size of the terminal, how
/// much to keep, where to listen, how to tell that it is ready, and the command word for word.
pub proof fn law_server_args_round_trip(name: Seq<char>, opts: ServerOptsView)
    requires
        opts.ready_fd >= 0,
    ensures
        server_opts_of(server_args_of(name, opts).drop_first()) == Ok::<_, Seq<char>>(opts),
{
    reveal_strlit("--");
    reveal_strlit("--ready-fd");
    reveal_strlit("--rows");
    reveal_strlit("--cols");
    reveal_strlit("--ring-size");
    reveal_strlit("--socket-path");
    crate::text::law_decimal_i32_round_trip(opts.ready_fd as nat);
    crate::text::law_decimal_round_trip(opts.rows as nat, u16::MAX as nat);
    crate::text::law_decimal_round_trip(opts.cols as nat, u16::MAX as nat);
    crate::text::law_decimal_round_trip(opts.ring_size as nat, usize::MAX as nat);
    let all = server_args_of(name, opts);
    let a0 = all.drop_first().drop_first();
    let a1 = a0.skip(2);
    let a2 = a1.skip(2);
    let a3 = a2.skip(2);
    let a4 = a3.skip(2);
    let a5 = a4.skip(2);
    assert("--ready-fd"@[2] == 'r' && "--rows"@[2] == 'r' && "--cols"@[2] == 'c'
        && "--ring-size"@[2] == 'r' && "--socket-path"@[2] == 's');
    assert("--ready-fd"@[3] == 'e' && "--rows"@[3] == 'o' && "--ring-size"@[3] == 'i');
    assert("--"@.len() == 2 && "--ready-fd"@.len() == 10 && "--rows"@.len() == 6 && "--cols"@.len()
        == 6 && "--ring-size"@.len() == 11 && "--socket-path"@.len() == 13);
    let s0 = server_defaults();
    let s1 = ServerScan { ready_fd: Some(opts.ready_fd), ..s0 };
    let s2 = ServerScan { rows: opts.rows, ..s1 };
    let s3 = ServerScan { cols: opts.cols, ..s2 };
    let s4 = ServerScan { ring_size: opts.ring_size, ..s3 };
    let s5 = ServerScan { socket_path: Some(opts.socket_path), ..s4 };
    assert(a0[0] == "--ready-fd"@ && a0[1] == crate::text::decimal(opts.ready_fd as nat));
    assert(scan_server(a0, s0) == scan_server(a1, s1));
    assert(a1[0] == "--rows"@ && a1[1] == crate::text::decimal(opts.rows as nat));
    assert(scan_server(a1, s1) == scan_server(a2, s2));
    assert(a2[0] == "--cols"@ && a2[1] == crate::text::decimal(opts.cols as nat));
    assert(scan_server(a2, s2) == scan_server(a3, s3));
    assert(a3[0] == "--ring-size"@ && a3[1] == crate::text::decimal(opts.ring_size as nat));
    assert(scan_server(a3, s3) == scan_server(a4, s4));
    assert(a4[0] == "--socket-path"@ && a4[1] == opts.socket_path);
    assert(scan_server(a4, s4) == scan_server(a5, s5));
    assert(a5[0] == "--"@);
    assert(a5.drop_first() =~= opts.command);
}

// ---------------------------------------------------------------------------
// Greeting
// ---------------------------------------------------------------------------

/// What a server does with the first packet of a connection.
#[derive(Debug)]
pub enum Greeting {
    /// Send the notice, if there is one, and close.
    Reject { notice: Option<Packet> },
    /// Send the reply and close.
    Query { reply: Packet },
    /// Send the reply and attach the client.
    Attach { reply: Packet, hello: Hello },
}

/// What a [`Greeting`] is.
pub enum GreetingView {
    Reject { notice: Option<PacketView> },
    Query { reply: PacketView },
    Attach { reply: PacketView, hello: Hello },
}

impl View for Greeting {
    type V = GreetingView;

    open spec fn view(&self) -> GreetingView {
        match *self {
            Greeting::Reject { notice: None } => GreetingView::Reject { notice: None },
            Greeting::Reject { notice: Some(p) } => GreetingView::Reject { notice: Some(p@) },
            Greeting::Query { reply } => GreetingView::Query { reply: reply@ },
            Greeting::Attach { reply, hello } => GreetingView::Attach { reply: reply@, hello },
        }
    }
}

/// The text about two protocol versions that differ.
pub open spec fn version_mismatch(client: u8, server: u8) -> Seq<char> {
    "protocol version mismatch: client="@ + crate::text::decimal(client as nat) + ", server="@
        + crate::text::decimal(server as nat)
}

/// The text about two protocol versions that differ.
pub fn version_mismatch_text(client: u8, server: u8) -> (s: String)
    ensures
        s@ == version_mismatch(client, server),
{
    let mut s: String = "protocol version mismatch: client=".to_owned();
    push_decimal(&mut s, client as u64);
    s.append(", server=");
    push_decimal(&mut s, server as u64);
    s
}

/// The error packet with this text.
pub open spec fn error_packet(text: Seq<char>) -> PacketView {
    PacketView { msg_type: MsgType::Error, payload: vstd::utf8::encode_utf8(text) }
}

/// What a server does with the first packet of a connection. Anything but a greeting is told so;
/// a greeting that cannot be read is dropped without a word; another protocol version is told
/// which versions met; otherwise the session introduces itself.
pub open spec fn greeting_of(s: SessionView, server_pid: u32, p: PacketView) -> GreetingView {
    if p.msg_type != MsgType::Hello {
        GreetingView::Reject { notice: Some(error_packet("expected Hello"@)) }
    } else {
        match crate::protocol::hello_of(p) {
            None => GreetingView::Reject { notice: None },
            Some(hello) => if hello.version != PROTOCOL_VERSION {
                GreetingView::Reject {
                    notice: Some(
                        error_packet(version_mismatch(hello.version, PROTOCOL_VERSION)),
                    ),
                }
            } else {
                let reply = PacketView {
                    msg_type: MsgType::Welcome,
                    payload: crate::protocol::welcome_payload(
                        crate::session::welcome_of_session(s, server_pid),
                    ),
                };
                match hello.intent {
                    Intent::Query => GreetingView::Query { reply },
                    Intent::Attach => GreetingView::Attach { reply, hello },
                }
            },
        }
    }
}

/// Texts of this length in ASCII fit an error packet.
proof fn lemma_ascii_len(text: Seq<char>)
    requires
        forall|i: int| 0 <= i < text.len() ==> '\0' <= #[trigger] text[i] <= '\u{7f}',
    ensures
        vstd::utf8::encode_utf8(text).len() == text.len(),
{
    assert(vstd::utf8::is_ascii_chars(text));
    vstd::utf8::is_ascii_chars_encode_utf8(text);
}

/// Digits are ASCII, and a byte has at most three of them.
proof fn lemma_byte_decimal(n: u8)
    ensures
        crate::text::decimal(n as nat).len() <= 3,
        forall|i: int|
            0 <= i < crate::text::decimal(n as nat).len() ==> '\0' <= (
            #[trigger] crate::text::decimal(n as nat)[i]) <= '\u{7f}',
{
    crate::text::lemma_decimal_digits(n as nat, 255);
    reveal_with_fuel(crate::text::decimal, 4);
    assert forall|i: int| 0 <= i < crate::text::decimal(n as nat).len() implies '\0' <= (
    #[trigger] crate::text::decimal(n as nat)[i]) <= '\u{7f}' by {
        assert(crate::text::is_digit(crate::text::decimal(n as nat)[i]));
    }
}

proof fn lemma_version_mismatch_fits(client: u8, server: u8)
    ensures
        vstd::utf8::encode_utf8(version_mismatch(client, server)).len() <= 100,
{
    let text = version_mismatch(client, server);
    reveal_strlit("protocol version mismatch: client=");
    reveal_strlit(", server=");
    lemma_byte_decimal(client);
    lemma_byte_decimal(server);
    assert forall|i: int| 0 <= i < text.len() implies '\0' <= #[trigger] text[i] <= '\u{7f}' by {
        let a = "protocol version mismatch: client="@;
        let b = crate::text::decimal(client as nat);
        let c = ", server="@;
        let d = crate::text::decimal(server as nat);
        if i < a.len() {
            assert(text[i] == a[i]);
        } else if i < a.len() + b.len() {
            assert(text[i] == b[i - a.len()]);
        } else if i < a.len() + b.len() + c.len() {
            assert(text[i] == c[i - a.len() - b.len()]);
        } else {
            assert(text[i] == d[i - a.len() - b.len() - c.len()]);
        }
    }
    lemma_ascii_len(text);
}

/// Answer the first packet of a connection.
pub fn greet(session: &Session, server_pid: u32, packet: &Packet) -> (g: Greeting)
    requires
        session.wf(),
    ensures
        g@ == greeting_of(session@, server_pid, packet@),
{
    if packet.msg_type != MsgType::Hello {
        proof {
            reveal_strlit("expected Hello");
            lemma_ascii_len("expected Hello"@);
        }
        return Greeting::Reject { notice: Some(Packet::error("expected Hello")) };
    }
    let hello = match packet.parse_hello() {
        None => {
            return Greeting::Reject { notice: None };
        },
        Some(hello) => hello,
    };
    if hello.version != PROTOCOL_VERSION {
        let text: String = version_mismatch_text(hello.version, PROTOCOL_VERSION);
        proof {
            lemma_version_mismatch_fits(hello.version, PROTOCOL_VERSION);
        }
        return Greeting::Reject { notice: Some(Packet::error(text.as_str())) };
    }
    let reply = Packet::welcome(&session.welcome(server_pid));
    match hello.intent {
        Intent::Query => Greeting::Query { reply },
        Intent::Attach => Greeting::Attach { reply, hello },
    }
}

// ---------------------------------------------------------------------------
// Peers, exit status, command
// ---------------------------------------------------------------------------

/// Whether the peer may talk to the server: only processes of the same user may. Otherwise the
/// reason.
pub fn verify_peer_uid(peer_uid: u32, my_uid: u32) -> (r: Result<(), String>)
    ensures
        r is Ok <==> peer_uid == my_uid,
        r matches Err(msg) ==> msg@ == "peer uid "@ + crate::text::decimal(peer_uid as nat)
            + " does not match server uid "@ + crate::text::decimal(my_uid as nat),
{
    if peer_uid == my_uid {
        return Ok(());
    }
    let mut msg: String = "peer uid ".to_owned();
    push_decimal(&mut msg, peer_uid as u64);
    msg.append(" does not match server uid ");
    push_decimal(&mut msg, my_uid as u64);
    Err(msg)
}

/// The error of a server whose socket path names no file.
pub fn invalid_socket_path(path: &str) -> (s: String)
    ensures
        s@ == "invalid socket path: "@ + path@,
{
    together("invalid socket path: ", path)
}

/// The error of a server whose session has another one.
pub fn lock_is_held(path: &str) -> (s: String)
    ensures
        s@ == "another server already holds the session lock: "@ + path@,
{
    together("another server already holds the session lock: ", path)
}

/// The status that clients are told: the child's exit code as an unsigned number, or 1 for a
/// child that a signal killed or whose status is unknown.
pub fn exit_code(code: Option<i32>) -> (status: u32)
    ensures
        status == (match code {
            Some(c) => c as u32,
            None => 1u32,
        }),
{
    match code {
        Some(c) => c as u32,
        None => 1,
    }
}

/// `rustix::process::Pid::from_raw`: every number but zero is a process id. The function asserts
/// that the number is not negative.
#[verifier::external_body]
fn process_id(raw: i32) -> (r: Option<i32>)
    requires
        raw >= 0,
    ensures
        r == (if raw == 0 {
            None
        } else {
            Some(raw)
        }),
{
    match rustix::process::Pid::from_raw(raw) {
        Some(pid) => Some(pid.as_raw_pid()),
        None => None,
    }
}

/// The process to signal for a process id as packets carry it: none for zero, which stands for
/// an unknown process, and none for a number that no process has.
pub fn signal_target(pid: u32) -> (r: Option<i32>)
    ensures
        r == (if 0 < pid <= i32::MAX {
            Some(pid as i32)
        } else {
            None
        }),
{
    if pid <= i32::MAX as u32 {
        process_id(pid as i32)
    } else {
        None
    }
}

/// The program to run: the command, or where it is empty the user's shell, or `/bin/sh` where
/// the user has none.
pub open spec fn child_command_of(command: Seq<Seq<char>>, shell: Option<Seq<char>>) -> Seq<
    Seq<char>,
> {
    if command.len() > 0 {
        command
    } else {
        match shell {
            Some(s) => seq![s],
            None => seq!["/bin/sh"@],
        }
    }
}

/// What an optional string holds.
pub open spec fn opt_view(s: Option<String>) -> Option<Seq<char>> {
    match s {
        Some(s) => Some(s@),
        None => None,
    }
}

/// The program to run and its arguments.
pub fn child_command(command: &[String], shell: Option<String>) -> (r: Vec<String>)
    ensures
        crate::text::strings(r@) == child_command_of(
            crate::text::strings(command@),
            opt_view(shell),
        ),
        r@.len() > 0,
{
    if command.len() > 0 {
        let r = strings_from(command, 0);
        assert(crate::text::strings(command@).skip(0) =~= crate::text::strings(command@));
        assert(crate::text::strings(r@).len() == r@.len());
        return r;
    }
    let mut r: Vec<String> = Vec::new();
    match shell {
        Some(s) => r.push(s),
        None => r.push("/bin/sh".to_owned()),
    }
    assert(crate::text::strings(r@) =~= child_command_of(
        crate::text::strings(command@),
        opt_view(shell),
    ));
    r
}

// ---------------------------------------------------------------------------
// Arguments, option by option
// ---------------------------------------------------------------------------

/// The value of an option in front of the separator; where it is given more than once, the last.
pub open spec fn told(args: Seq<Seq<char>>, option: Seq<char>) -> Option<Seq<char>>
    decreases args.len(),
{
    if args.len() < 2 || args[0] == "--"@ {
        None
    } else {
        match told(args.skip(2), option) {
            Some(value) => Some(value),
            None => if args[0] == option {
                Some(args[1])
            } else {
                None
            },
        }
    }
}

/// What stands behind the separator.
pub open spec fn told_command(args: Seq<Seq<char>>) -> Seq<Seq<char>>
    decreases args.len(),
{
    if args.len() > 0 && args[0] == "--"@ {
        args.drop_first()
    } else if args.len() < 2 {
        Seq::empty()
    } else {
        told_command(args.skip(2))
    }
}

/// Whether the option takes this value.
pub open spec fn takes(option: Seq<char>, value: Seq<char>) -> bool {
    ||| option == "--ready-fd"@ && crate::text::i32_value(value) is Ok
    ||| option == "--rows"@ && crate::text::unsigned_value(value, 65535) is Ok
    ||| option == "--cols"@ && crate::text::unsigned_value(value, 65535) is Ok
    ||| option == "--ring-size"@ && crate::text::unsigned_value(value, usize::MAX as nat) is Ok
    ||| option == "--socket-path"@
}

/// Whether the arguments in front of the separator are options that each take the value behind
/// them.
pub open spec fn all_taken(args: Seq<Seq<char>>) -> bool
    decreases args.len(),
{
    if args.len() == 0 || args[0] == "--"@ {
        true
    } else {
        args.len() >= 2 && takes(args[0], args[1]) && all_taken(args.skip(2))
    }
}

/// The options are all different.
proof fn lemma_options_differ()
    ensures
        "--"@ != "--ready-fd"@,
        "--"@ != "--rows"@,
        "--"@ != "--cols"@,
        "--"@ != "--ring-size"@,
        "--"@ != "--socket-path"@,
        "--ready-fd"@ != "--rows"@,
        "--ready-fd"@ != "--cols"@,
        "--ready-fd"@ != "--ring-size"@,
        "--ready-fd"@ != "--socket-path"@,
        "--rows"@ != "--cols"@,
        "--rows"@ != "--ring-size"@,
        "--rows"@ != "--socket-path"@,
        "--cols"@ != "--ring-size"@,
        "--cols"@ != "--socket-path"@,
        "--ring-size"@ != "--socket-path"@,
{
    reveal_strlit("--");
    reveal_strlit("--ready-fd");
    reveal_strlit("--rows");
    reveal_strlit("--cols");
    reveal_strlit("--ring-size");
    reveal_strlit("--socket-path");
    assert("--rows"@[2] == 'r' && "--cols"@[2] == 'c');
    assert("--"@.len() == 2 && "--ready-fd"@.len() == 10 && "--rows"@.len() == 6 && "--cols"@.len()
        == 6 && "--ring-size"@.len() == 11 && "--socket-path"@.len() == 13);
}

proof fn lemma_scan_by_option(args: Seq<Seq<char>>, acc: ServerScan)
    ensures
        scan_server(args, acc) is Ok <==> all_taken(args),
        scan_server(args, acc) matches Ok(scan) ==> {
            &&& scan.ready_fd == (match told(args, "--ready-fd"@) {
                Some(v) => Some(crate::text::i32_value(v)->Ok_0 as i32),
                None => acc.ready_fd,
            })
            &&& scan.rows == (match told(args, "--rows"@) {
                Some(v) => crate::text::unsigned_value(v, 65535)->Ok_0 as u16,
                None => acc.rows,
            })
            &&& scan.cols == (match told(args, "--cols"@) {
                Some(v) => crate::text::unsigned_value(v, 65535)->Ok_0 as u16,
                None => acc.cols,
            })
            &&& scan.ring_size == (match told(args, "--ring-size"@) {
                Some(v) => crate::text::unsigned_value(v, usize::MAX as nat)->Ok_0 as usize,
                None => acc.ring_size,
            })
            &&& scan.socket_path == (match told(args, "--socket-path"@) {
                Some(v) => Some(v),
                None => acc.socket_path,
            })
            &&& acc.command.len() == 0 ==> scan.command == told_command(args)
        },
    decreases args.len(),
{
    lemma_options_differ();
    if args.len() == 0 || args[0] == "--"@ {
    } else if args.len() >= 2 && takes(args[0], args[1]) {
        let rest = args.skip(2);
        if args[0] == "--ready-fd"@ {
            let v = crate::text::i32_value(args[1])->Ok_0;
            lemma_scan_by_option(rest, ServerScan { ready_fd: Some(v as i32), ..acc });
        } else if args[0] == "--rows"@ {
            let v = crate::text::unsigned_value(args[1], 65535)->Ok_0;
            lemma_scan_by_option(rest, ServerScan { rows: v as u16, ..acc });
        } else if args[0] == "--cols"@ {
            let v = crate::text::unsigned_value(args[1], 65535)->Ok_0;
            lemma_scan_by_option(rest, ServerScan { cols: v as u16, ..acc });
        } else if args[0] == "--ring-size"@ {
            let v = crate::text::unsigned_value(args[1], usize::MAX as nat)->Ok_0;
            lemma_scan_by_option(rest, ServerScan { ring_size: v as usize, ..acc });
        } else {
            lemma_scan_by_option(rest, ServerScan { socket_path: Some(args[1]), ..acc });
        }
    }
}

/// What a server takes out of its arguments, option by option: behind the session's name, every
/// option sets what it is named after and nothing else, the last of a name counts, and what is not
/// said is 24 rows, 80 columns and 1 MiB of output; the command is what stands behind the separator.
/// Arguments are taken exactly where every option takes its value and the two that are needed are
/// there.
pub proof fn law_server_arguments(name: Seq<char>, args: Seq<Seq<char>>)
    ensures
        server_opts_of(seq![name] + args) is Ok <==> all_taken(args) && told(args, "--ready-fd"@)
            is Some && told(args, "--socket-path"@) is Some,
        server_opts_of(seq![name] + args) matches Ok(opts) ==> {
            &&& told(args, "--ready-fd"@) matches Some(v) && crate::text::i32_value(v) == Ok::<
                int,
                crate::text::IntError,
            >(opts.ready_fd as int)
            &&& match told(args, "--rows"@) {
                Some(v) => crate::text::unsigned_value(v, 65535) == Ok::<
                    nat,
                    crate::text::IntError,
                >(opts.rows as nat),
                None => opts.rows == 24,
            }
            &&& match told(args, "--cols"@) {
                Some(v) => crate::text::unsigned_value(v, 65535) == Ok::<
                    nat,
                    crate::text::IntError,
                >(opts.cols as nat),
                None => opts.cols == 80,
            }
            &&& match told(args, "--ring-size"@) {
                Some(v) => crate::text::unsigned_value(v, usize::MAX as nat) == Ok::<
                    nat,
                    crate::text::IntError,
                >(opts.ring_size as nat),
                None => opts.ring_size == 1048576,
            }
            &&& told(args, "--socket-path"@) == Some(opts.socket_path)
            &&& opts.command == told_command(args)
        },
{
    let all = seq![name] + args;
    assert(all.drop_first() =~= args);
    lemma_scan_by_option(args, server_defaults());
    lemma_told_is_taken(args, "--ready-fd"@);
    lemma_told_is_taken(args, "--rows"@);
    lemma_told_is_taken(args, "--cols"@);
    lemma_told_is_taken(args, "--ring-size"@);
    lemma_options_differ();
    if let Some(v) = told(args, "--ready-fd"@) {
        crate::text::law_numbers_fit(v, 0);
    }
    if let Some(v) = told(args, "--rows"@) {
        crate::text::law_numbers_fit(v, 65535);
    }
    if let Some(v) = told(args, "--cols"@) {
        crate::text::law_numbers_fit(v, 65535);
    }
    if let Some(v) = told(args, "--ring-size"@) {
        crate::text::law_numbers_fit(v, usize::MAX as nat);
    }
}

proof fn lemma_told_is_taken(args: Seq<Seq<char>>, option: Seq<char>)
    ensures
        all_taken(args) ==> (told(args, option) matches Some(v) ==> takes(option, v)),
    decreases args.len(),
{
    if args.len() >= 2 && args[0] != "--"@ {
        lemma_told_is_taken(args.skip(2), option);
    }
}

/// What a server says about arguments that it does not take. It names the first fault: an option
/// without its value, one whose value cannot be read, one that it does not know; then what is
/// missing.
pub proof fn law_server_argument_faults(
    name: Seq<char>,
    option: Seq<char>,
    value: Seq<char>,
    rest: Seq<Seq<char>>,
)
    ensures
        server_opts_of(Seq::empty()) == Err::<ServerOptsView, _>(
            "--server requires a session name"@,
        ),
        option == "--ready-fd"@ ==> server_opts_of(seq![name, option]) == Err::<ServerOptsView, _>(
            "--ready-fd requires a value"@,
        ),
        option == "--rows"@ ==> server_opts_of(seq![name, option]) == Err::<ServerOptsView, _>(
            "--rows requires a value"@,
        ),
        option == "--cols"@ ==> server_opts_of(seq![name, option]) == Err::<ServerOptsView, _>(
            "--cols requires a value"@,
        ),
        option == "--ring-size"@ ==> server_opts_of(seq![name, option]) == Err::<ServerOptsView, _>(
            "--ring-size requires a value"@,
        ),
        option == "--socket-path"@ ==> server_opts_of(seq![name, option]) == Err::<
            ServerOptsView,
            _,
        >("--socket-path requires a value"@),
        option == "--ready-fd"@ ==> (crate::text::i32_value(value) matches Err(e)
            ==> server_opts_of(seq![name, option, value] + rest) == Err::<ServerOptsView, _>(
            "invalid --ready-fd: "@ + e.text(),
        )),
        option == "--rows"@ ==> (crate::text::unsigned_value(value, 65535) matches Err(e)
            ==> server_opts_of(seq![name, option, value] + rest) == Err::<ServerOptsView, _>(
            "invalid --rows: "@ + e.text(),
        )),
        option == "--cols"@ ==> (crate::text::unsigned_value(value, 65535) matches Err(e)
            ==> server_opts_of(seq![name, option, value] + rest) == Err::<ServerOptsView, _>(
            "invalid --cols: "@ + e.text(),
        )),
        option == "--ring-size"@ ==> (crate::text::unsigned_value(
            value,
            usize::MAX as nat,
        ) matches Err(e) ==> server_opts_of(seq![name, option, value] + rest) == Err::<
            ServerOptsView,
            _,
        >("invalid --ring-size: "@ + e.text())),
        option != "--"@ && option != "--ready-fd"@ && option != "--rows"@ && option != "--cols"@
            && option != "--ring-size"@ && option != "--socket-path"@ ==> server_opts_of(
            seq![name, option] + rest,
        ) == Err::<ServerOptsView, _>("unknown server option: "@ + option),
        takes(option, value) && !all_taken(rest) ==> server_opts_of(
            seq![name, option, value] + rest,
        ) == server_opts_of(seq![name] + rest),
        all_taken(rest) && told(rest, "--ready-fd"@) is None ==> server_opts_of(seq![name] + rest)
            == Err::<ServerOptsView, _>("--ready-fd is required"@),
        all_taken(rest) && told(rest, "--ready-fd"@) is Some && told(rest, "--socket-path"@) is None
            ==> server_opts_of(seq![name] + rest) == Err::<ServerOptsView, _>(
            "--socket-path is required"@,
        ),
{
    lemma_options_differ();
    let short = seq![name, option];
    assert(short.drop_first() =~= seq![option]);
    let unknown = seq![name, option] + rest;
    assert(unknown.drop_first() =~= seq![option] + rest);
    assert(unknown.drop_first()[0] == option);
    let long = seq![name, option, value] + rest;
    let opts = long.drop_first();
    assert(opts[0] == option && opts[1] == value);
    assert(opts.skip(2) =~= rest);
    let all = seq![name] + rest;
    assert(all.drop_first() =~= rest);
    lemma_scan_by_option(rest, server_defaults());
    if takes(option, value) {
        if option == "--ready-fd"@ {
            let v = crate::text::i32_value(value)->Ok_0;
            lemma_scan_fault(
                rest,
                ServerScan { ready_fd: Some(v as i32), ..server_defaults() },
                server_defaults(),
            );
        } else if option == "--rows"@ {
            let v = crate::text::unsigned_value(value, 65535)->Ok_0;
            lemma_scan_fault(
                rest,
                ServerScan { rows: v as u16, ..server_defaults() },
                server_defaults(),
            );
        } else if option == "--cols"@ {
            let v = crate::text::unsigned_value(value, 65535)->Ok_0;
            lemma_scan_fault(
                rest,
                ServerScan { cols: v as u16, ..server_defaults() },
                server_defaults(),
            );
        } else if option == "--ring-size"@ {
            let v = crate::text::unsigned_value(value, usize::MAX as nat)->Ok_0;
            lemma_scan_fault(
                rest,
                ServerScan { ring_size: v as usize, ..server_defaults() },
                server_defaults(),
            );
        } else {
            lemma_scan_fault(
                rest,
                ServerScan { socket_path: Some(value), ..server_defaults() },
                server_defaults(),
            );
        }
    }
}

/// What is wrong with arguments does not depend on what was read before them.
proof fn lemma_scan_fault(args: Seq<Seq<char>>, a: ServerScan, b: ServerScan)
    ensures
        scan_server(args, a) matches Err(e) ==> scan_server(args, b) == Err::<ServerScan, _>(e),
        scan_server(args, b) matches Err(e) ==> scan_server(args, a) == Err::<ServerScan, _>(e),
    decreases args.len(),
{
    lemma_options_differ();
    if args.len() >= 2 && args[0] != "--"@ {
        let rest = args.skip(2);
        if args[0] == "--ready-fd"@ {
            let v = crate::text::i32_value(args[1])->Ok_0;
            lemma_scan_fault(
                rest,
                ServerScan { ready_fd: Some(v as i32), ..a },
                ServerScan { ready_fd: Some(v as i32), ..b },
            );
        } else if args[0] == "--rows"@ {
            let v = crate::text::unsigned_value(args[1], 65535)->Ok_0;
            lemma_scan_fault(
                rest,
                ServerScan { rows: v as u16, ..a },
                ServerScan { rows: v as u16, ..b },
            );
        } else if args[0] == "--cols"@ {
            let v = crate::text::unsigned_value(args[1], 65535)->Ok_0;
            lemma_scan_fault(
                rest,
                ServerScan { cols: v as u16, ..a },
                ServerScan { cols: v as u16, ..b },
            );
        } else if args[0] == "--ring-size"@ {
            let v = crate::text::unsigned_value(args[1], usize::MAX as nat)->Ok_0;
            lemma_scan_fault(
                rest,
                ServerScan { ring_size: v as usize, ..a },
                ServerScan { ring_size: v as usize, ..b },
            );
        } else {
            lemma_scan_fault(
                rest,
                ServerScan { socket_path: Some(args[1]), ..a },
                ServerScan { socket_path: Some(args[1]), ..b },
            );
        }
    }
}

/// What a server starts with is told it word by word: the mark of server mode, the session's name,
/// and the command behind the separator.
pub proof fn law_server_is_started_for_the_session(name: Seq<char>, opts: ServerOptsView)
    ensures
        server_args_of(name, opts)[0] == "--server"@,
        server_args_of(name, opts)[1] == name,
        server_args_of(name, opts).len() == 13 + opts.command.len(),
        server_args_of(name, opts)[12] == "--"@,
        server_args_of(name, opts).skip(13) == opts.command,
{
    assert(server_args_of(name, opts).skip(13) =~= opts.command);
}

/// Whom a server turns away, and with what words: what is no greeting is told so, a greeting that
/// cannot be read gets no answer, and one of another version is told both versions. Nobody else is
/// turned away.
pub proof fn law_who_is_turned_away(s: SessionView, server_pid: u32, p: PacketView)
    ensures
        p.msg_type != MsgType::Hello ==> (greeting_of(s, server_pid, p) matches GreetingView::Reject {
            notice: Some(n),
        } && n.msg_type == MsgType::Error && n.payload == vstd::utf8::encode_utf8(
            "expected Hello"@,
        )),
        p.msg_type == MsgType::Hello && crate::protocol::hello_of(p) is None ==> greeting_of(
            s,
            server_pid,
            p,
        ) == (GreetingView::Reject { notice: None }),
        crate::protocol::hello_of(p) matches Some(h) ==> (h.version != 1 ==> (greeting_of(
            s,
            server_pid,
            p,
        ) matches GreetingView::Reject { notice: Some(n) } && n.msg_type == MsgType::Error
            && n.payload == vstd::utf8::encode_utf8(
            "protocol version mismatch: client="@ + crate::text::decimal(h.version as nat)
                + ", server="@ + crate::text::decimal(1),
        ))),
        crate::protocol::hello_of(p) matches Some(h) ==> (h.version == 1 ==> match greeting_of(
            s,
            server_pid,
            p,
        ) {
            GreetingView::Attach { reply, hello } => h.intent == Intent::Attach && hello == h
                && crate::protocol::welcome_of(reply) is Some,
            GreetingView::Query { reply } => h.intent == Intent::Query
                && crate::protocol::welcome_of(reply) is Some,
            GreetingView::Reject { .. } => false,
        }),
{
    crate::protocol::law_welcome_round_trip(crate::session::welcome_of_session(s, server_pid));
}

/// What the child runs: the command where there is one, else the user's shell, else `/bin/sh`; it
/// is never nothing.
pub proof fn law_what_the_child_runs(command: Seq<Seq<char>>, shell: Option<Seq<char>>)
    ensures
        command.len() > 0 ==> child_command_of(command, shell) == command,
        command.len() == 0 ==> child_command_of(command, shell).len() == 1,
        command.len() == 0 && shell is Some ==> child_command_of(command, shell)[0] == shell->0,
        command.len() == 0 && shell is None ==> child_command_of(command, shell)[0] == "/bin/sh"@,
{
}

/// What an optional string holds is what the string holds.
pub proof fn law_optional_strings(s: Option<String>)
    ensures
        s is None <==> opt_view(s) is None,
        s matches Some(t) ==> opt_view(s) == Some(t@),
{
}

/// Options are seen as they are, field by field.
pub proof fn law_options_as_seen(opts: ServerOpts)
    ensures
        opts@.ready_fd == opts.ready_fd,
        opts@.rows == opts.rows,
        opts@.cols == opts.cols,
        opts@.ring_size == opts.ring_size,
        opts@.socket_path == opts.socket_path@,
        opts@.command == crate::text::strings(opts.command@),
{
}

/// What is done with a greeting is seen as it is.
pub proof fn law_greetings_as_seen(p: Packet, hello: Hello)
    ensures
        (Greeting::Reject { notice: None })@ == (GreetingView::Reject { notice: None }),
        (Greeting::Reject { notice: Some(p) })@ == (GreetingView::Reject { notice: Some(p@) }),
        (Greeting::Query { reply: p })@ == (GreetingView::Query { reply: p@ }),
        (Greeting::Attach { reply: p, hello })@ == (GreetingView::Attach { reply: p@, hello }),
{
}

/// How much is read at a time, and how long a greeting and an answer may take.
pub proof fn law_sizes_and_times()
    ensures
        READ_BUF_SIZE == 4096,
        HELLO_TIMEOUT_SECS == 5,
        QUERY_TIMEOUT_SECS == 2,
{
}

} // verus!
