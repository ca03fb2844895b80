//! The client's side of a session: the handshake, what packets of the server mean, what
//! keyboard input is sent, and when the client lets go.

use crate::protocol::{
    bytes_to_vec, chunk_packets, ClientFlags, Hello, Intent, MsgType, Packet, PacketView, Welcome,
    PROTOCOL_VERSION,
};
use crate::server::version_mismatch_text;
use crate::text::together;
use crate::transfer::IoOutcome;
use vstd::prelude::*;

verus! {

/// How an attachment ended.
#[derive(Debug)]
pub enum AttachResult {
    /// The user detached; the session goes on.
    Detached,
    /// The child exited with this status.
    Exited(u32),
    /// The connection broke.
    IoError(DisconnectReason),
}

/// Why a connection broke.
#[derive(Debug)]
pub enum DisconnectReason {
    ServerHungUp,
    /// With the text of the error.
    ServerRead(String),
    /// With the text of the error.
    ServerWrite(String),
    /// With what the server said.
    ServerError(String),
    InvalidExitPacket,
}

/// What an [`AttachResult`] is.
pub enum AttachView {
    Detached,
    Exited(u32),
    IoError(DisconnectView),
}

/// What a [`DisconnectReason`] is.
pub enum DisconnectView {
    ServerHungUp,
    ServerRead(Seq<char>),
    ServerWrite(Seq<char>),
    ServerError(Seq<char>),
    InvalidExitPacket,
}

impl View for DisconnectReason {
    type V = DisconnectView;

    open spec fn view(&self) -> DisconnectView {
        match *self {
            DisconnectReason::ServerHungUp => DisconnectView::ServerHungUp,
            DisconnectReason::ServerRead(e) => DisconnectView::ServerRead(e@),
            DisconnectReason::ServerWrite(e) => DisconnectView::ServerWrite(e@),
            DisconnectReason::ServerError(msg) => DisconnectView::ServerError(msg@),
            DisconnectReason::InvalidExitPacket => DisconnectView::InvalidExitPacket,
        }
    }
}

impl View for AttachResult {
    type V = AttachView;

    open spec fn view(&self) -> AttachView {
        match *self {
            AttachResult::Detached => AttachView::Detached,
            AttachResult::Exited(status) => AttachView::Exited(status),
            AttachResult::IoError(reason) => AttachView::IoError(reason@),
        }
    }
}

impl DisconnectView {
    /// The reason in words.
    pub open spec fn text(self) -> Seq<char> {
        match self {
            DisconnectView::ServerHungUp => "server hung up"@,
            DisconnectView::ServerRead(e) => "read from server failed: "@ + e,
            DisconnectView::ServerWrite(e) => "write to server failed: "@ + e,
            DisconnectView::ServerError(msg) => "server sent error: "@ + msg,
            DisconnectView::InvalidExitPacket => "invalid exit packet from server"@,
        }
    }
}

impl DisconnectReason {
    /// The reason in words.
    pub fn to_string(&self) -> (s: String)
        ensures
            s@ == self@.text(),
    {
        match self {
            DisconnectReason::ServerHungUp => "server hung up".to_owned(),
            DisconnectReason::ServerRead(e) => together("read from server failed: ", e.as_str()),
            DisconnectReason::ServerWrite(e) => together("write to server failed: ", e.as_str()),
            DisconnectReason::ServerError(msg) => together("server sent error: ", msg.as_str()),
            DisconnectReason::InvalidExitPacket => "invalid exit packet from server".to_owned(),
        }
    }
}

// ---------------------------------------------------------------------------
// Handshake
// ---------------------------------------------------------------------------

/// The greeting of a client that wants to attach.
pub fn attach_hello(flags: ClientFlags, rows: u16, cols: u16) -> (h: Hello)
    ensures
        h == (Hello { version: PROTOCOL_VERSION, intent: Intent::Attach, flags, rows, cols }),
{
    Hello { version: PROTOCOL_VERSION, intent: Intent::Attach, flags, rows, cols }
}

/// The greeting of a client that only asks.
pub fn query_hello() -> (h: Hello)
    ensures
        h == (Hello {
            version: PROTOCOL_VERSION,
            intent: Intent::Query,
            flags: ClientFlags { readonly: false, low_priority: false },
            rows: 0,
            cols: 0,
        }),
{
    Hello {
        version: PROTOCOL_VERSION,
        intent: Intent::Query,
        flags: ClientFlags::empty(),
        rows: 0,
        cols: 0,
    }
}

/// What the server's answer to an attaching client means: the session's introduction, or why
/// there is no attachment.
pub open spec fn attach_reply_of(p: PacketView) -> Result<Welcome, Seq<char>> {
    match p.msg_type {
        MsgType::Welcome => match crate::protocol::welcome_of(p) {
            None => Err("malformed welcome packet"@),
            Some(w) => if w.version != PROTOCOL_VERSION {
                Err(crate::server::version_mismatch(PROTOCOL_VERSION, w.version))
            } else {
                Ok(w)
            },
        },
        MsgType::Error => Err(
            match crate::protocol::error_of(p) {
                Some(msg) => msg,
                None => "unknown server error"@,
            },
        ),
        _ => Err("unexpected response from server"@),
    }
}

/// Read the server's answer to an attaching client.
pub fn attach_reply(packet: &Packet) -> (r: Result<Welcome, String>)
    ensures
        match attach_reply_of(packet@) {
            Ok(w) => r matches Ok(v) && v == w,
            Err(e) => r matches Err(msg) && msg@ == e,
        },
{
    match packet.msg_type {
        MsgType::Welcome => match packet.parse_welcome() {
            None => Err("malformed welcome packet".to_owned()),
            Some(w) => if w.version != PROTOCOL_VERSION {
                Err(version_mismatch_text(PROTOCOL_VERSION, w.version))
            } else {
                Ok(w)
            },
        },
        MsgType::Error => match packet.parse_error() {
            Some(msg) => Err(msg),
            None => Err("unknown server error".to_owned()),
        },
        _ => Err("unexpected response from server".to_owned()),
    }
}

/// What the server's answer to a query means.
pub open spec fn query_reply_of(p: PacketView) -> Result<Welcome, Seq<char>> {
    match p.msg_type {
        MsgType::Welcome => match crate::protocol::welcome_of(p) {
            None => Err("malformed welcome"@),
            Some(w) => Ok(w),
        },
        MsgType::Error => Err(
            match crate::protocol::error_of(p) {
                Some(msg) => msg,
                None => "unknown error"@,
            },
        ),
        _ => Err("unexpected response"@),
    }
}

/// Read the server's answer to a query.
pub fn query_reply(packet: &Packet) -> (r: Result<Welcome, String>)
    ensures
        match query_reply_of(packet@) {
            Ok(w) => r matches Ok(v) && v == w,
            Err(e) => r matches Err(msg) && msg@ == e,
        },
{
    match packet.msg_type {
        MsgType::Welcome => match packet.parse_welcome() {
            None => Err("malformed welcome".to_owned()),
            Some(w) => Ok(w),
        },
        MsgType::Error => match packet.parse_error() {
            Some(msg) => Err(msg),
            None => Err("unknown error".to_owned()),
        },
        _ => Err("unexpected response".to_owned()),
    }
}

/// The two ends understand one another: an attaching client's greeting gets it attached and a
/// query's does not, and either end reads out of the answer exactly how the session introduces
/// itself.
pub proof fn law_handshake_succeeds(
    s: crate::session::SessionView,
    server_pid: u32,
    hello: Hello,
)
    requires
        hello.version == PROTOCOL_VERSION,
    ensures
        ({
            let packet = PacketView {
                msg_type: MsgType::Hello,
                payload: crate::protocol::hello_payload(hello),
            };
            let introduction = crate::session::welcome_of_session(s, server_pid);
            match crate::server::greeting_of(s, server_pid, packet) {
                crate::server::GreetingView::Attach { reply, hello: h } => hello.intent
                    == Intent::Attach && h == hello && attach_reply_of(reply) == Ok::<
                    _,
                    Seq<char>,
                >(introduction),
                crate::server::GreetingView::Query { reply } => hello.intent == Intent::Query
                    && query_reply_of(reply) == Ok::<_, Seq<char>>(introduction),
                crate::server::GreetingView::Reject { .. } => false,
            }
        }),
{
    crate::protocol::law_hello_round_trip(hello);
    crate::protocol::law_welcome_round_trip(crate::session::welcome_of_session(s, server_pid));
}

/// A client of another protocol version is turned away, and told which versions met.
pub proof fn law_other_version_is_told(
    s: crate::session::SessionView,
    server_pid: u32,
    hello: Hello,
)
    requires
        hello.version != PROTOCOL_VERSION,
    ensures
        ({
            let packet = PacketView {
                msg_type: MsgType::Hello,
                payload: crate::protocol::hello_payload(hello),
            };
            let text = crate::server::version_mismatch(hello.version, PROTOCOL_VERSION);
            match crate::server::greeting_of(s, server_pid, packet) {
                crate::server::GreetingView::Reject { notice: Some(p) } => attach_reply_of(p)
                    == Err::<Welcome, _>(text) && query_reply_of(p) == Err::<Welcome, _>(text),
                _ => false,
            }
        }),
{
    crate::protocol::law_hello_round_trip(hello);
    crate::protocol::law_error_round_trip(
        crate::server::version_mismatch(hello.version, PROTOCOL_VERSION),
    );
}

// ---------------------------------------------------------------------------
// What the server says
// ---------------------------------------------------------------------------

/// Something that the server told the client.
#[derive(Debug)]
pub enum ServerEvent {
    /// Bytes for the local terminal.
    Output(Vec<u8>),
    ReplayEnd,
    ResizeReq,
    Exit(u32),
    Error(String),
    HungUp,
    /// With the text of the error.
    ReadFailed(String),
}

/// What a [`ServerEvent`] is.
pub enum ServerEventView {
    Output(Seq<u8>),
    ReplayEnd,
    ResizeReq,
    Exit(u32),
    Error(Seq<char>),
    HungUp,
    ReadFailed(Seq<char>),
}

impl View for ServerEvent {
    type V = ServerEventView;

    open spec fn view(&self) -> ServerEventView {
        match *self {
            ServerEvent::Output(bytes) => ServerEventView::Output(bytes@),
            ServerEvent::ReplayEnd => ServerEventView::ReplayEnd,
            ServerEvent::ResizeReq => ServerEventView::ResizeReq,
            ServerEvent::Exit(status) => ServerEventView::Exit(status),
            ServerEvent::Error(msg) => ServerEventView::Error(msg@),
            ServerEvent::HungUp => ServerEventView::HungUp,
            ServerEvent::ReadFailed(e) => ServerEventView::ReadFailed(e@),
        }
    }
}

/// What a packet of the server tells the client; `None` for one that a server has no business
/// sending, which is ignored.
pub open spec fn event_of(p: PacketView) -> Option<ServerEventView> {
    match p.msg_type {
        MsgType::Replay => Some(ServerEventView::Output(p.payload)),
        MsgType::Content => Some(ServerEventView::Output(p.payload)),
        MsgType::ReplayEnd => Some(ServerEventView::ReplayEnd),
        MsgType::ResizeReq => Some(ServerEventView::ResizeReq),
        MsgType::Exit => Some(
            match crate::protocol::exit_status_of(p) {
                Some(status) => ServerEventView::Exit(status),
                None => ServerEventView::Error("invalid exit packet"@),
            },
        ),
        MsgType::Error => Some(
            ServerEventView::Error(
                match crate::protocol::error_of(p) {
                    Some(msg) => msg,
                    None => "unknown"@,
                },
            ),
        ),
        _ => None,
    }
}

/// Read a packet of the server.
pub fn server_event(packet: &Packet) -> (r: Option<ServerEvent>)
    ensures
        match event_of(packet@) {
            Some(e) => r matches Some(event) && event@ == e,
            None => r is None,
        },
{
    match packet.msg_type {
        MsgType::Replay => Some(ServerEvent::Output(bytes_to_vec(&packet.payload))),
        MsgType::Content => Some(ServerEvent::Output(bytes_to_vec(&packet.payload))),
        MsgType::ReplayEnd => Some(ServerEvent::ReplayEnd),
        MsgType::ResizeReq => Some(ServerEvent::ResizeReq),
        MsgType::Exit => match packet.parse_exit_status() {
            Some(status) => Some(ServerEvent::Exit(status)),
            None => Some(ServerEvent::Error("invalid exit packet".to_owned())),
        },
        MsgType::Error => match packet.parse_error() {
            Some(msg) => Some(ServerEvent::Error(msg)),
            None => Some(ServerEvent::Error("unknown".to_owned())),
        },
        _ => None,
    }
}

/// What a packet of the server makes the client show on its terminal.
pub open spec fn display(p: PacketView) -> Seq<u8> {
    match event_of(p) {
        Some(ServerEventView::Output(bytes)) => bytes,
        _ => Seq::empty(),
    }
}

/// What packets of the server make the client show, put together.
pub open spec fn displayed(ps: Seq<PacketView>) -> Seq<u8>
    decreases ps.len(),
{
    if ps.len() == 0 {
        Seq::empty()
    } else {
        displayed(ps.drop_last()) + display(ps.last())
    }
}

/// The packets that bring a client up to date make it show the recording: all of it, in order,
/// and nothing else.
pub proof fn law_recording_is_shown(snapshot: Seq<u8>)
    ensures
        displayed(crate::protocol::replay_of(snapshot)) == snapshot,
{
    let chunks = crate::protocol::chunked(snapshot);
    let ps = crate::protocol::packets_with(MsgType::Replay, chunks);
    crate::protocol::law_chunks_cover_data(snapshot);
    lemma_displayed_chunks(chunks);
    assert(crate::protocol::replay_of(snapshot).drop_last() =~= ps);
    assert(displayed(crate::protocol::replay_of(snapshot)) =~= snapshot);
}

proof fn lemma_displayed_chunks(chunks: Seq<Seq<u8>>)
    ensures
        displayed(crate::protocol::packets_with(MsgType::Replay, chunks)) == chunks.flatten(),
    decreases chunks.len(),
{
    let ps = crate::protocol::packets_with(MsgType::Replay, chunks);
    if chunks.len() == 0 {
        assert(chunks.flatten() =~= Seq::<u8>::empty());
    } else {
        let init = chunks.drop_last();
        lemma_displayed_chunks(init);
        assert(ps.drop_last() =~= crate::protocol::packets_with(MsgType::Replay, init));
        init.lemma_flatten_push(chunks.last());
        assert(init.push(chunks.last()) =~= chunks);
    }
}

/// What it means that no packet could be received: the server closed the connection, or the read
/// failed otherwise.
pub fn receive_failed(eof: bool, error: String) -> (e: ServerEvent)
    ensures
        e@ == (if eof {
            ServerEventView::HungUp
        } else {
            ServerEventView::ReadFailed(error@)
        }),
{
    if eof {
        ServerEvent::HungUp
    } else {
        ServerEvent::ReadFailed(error)
    }
}

// ---------------------------------------------------------------------------
// The detach key
// ---------------------------------------------------------------------------

/// The CSI u encoding (kitty keyboard protocol) of a press of the control key `key`, which is
/// ESC `[`, the number of the letter, `;5u`. Keys that are no control keys have none.
pub open spec fn csi_u_press(key: u8) -> Seq<u8> {
    if key >= 0x20 {
        Seq::empty()
    } else {
        let n = 64 + key;
        seq![0x1b, 0x5b, (48 + n / 10) as u8, (48 + n % 10) as u8, 0x3b, 0x35, 0x75]
    }
}

/// Build the CSI u encoding of a press of a control key.
pub fn csi_u_press_sequence(detach_key: u8) -> (out: Vec<u8>)
    ensures
        out@ == csi_u_press(detach_key),
{
    let mut out: Vec<u8> = Vec::new();
    if detach_key >= 0x20 {
        return out;
    }
    let n: u8 = 64 + detach_key;
    out.push(0x1b);
    out.push(0x5b);
    out.push(48 + n / 10);
    out.push(48 + n % 10);
    out.push(0x3b);
    out.push(0x35);
    out.push(0x75);
    assert(out@ =~= csi_u_press(detach_key));
    out
}

/// Whether `pat` stands in `buf` at index `i`.
pub open spec fn occurs_at(buf: Seq<u8>, pat: Seq<u8>, i: int) -> bool {
    0 <= i && i + pat.len() <= buf.len() && buf.subrange(i, i + pat.len()) == pat
}

/// The first index, from `from` on, at which `pat` stands in `buf`.
pub open spec fn first_at(buf: Seq<u8>, pat: Seq<u8>, from: nat) -> Option<nat>
    decreases buf.len() - from,
{
    if from + pat.len() > buf.len() {
        None
    } else if occurs_at(buf, pat, from as int) {
        Some(from)
    } else if from < buf.len() {
        first_at(buf, pat, from + 1)
    } else {
        None
    }
}

/// What [`first_at`] finds is an occurrence, and none comes before it; it finds one where there
/// is one.
pub proof fn lemma_first_at(buf: Seq<u8>, pat: Seq<u8>, from: nat)
    requires
        pat.len() > 0,
    ensures
        match first_at(buf, pat, from) {
            Some(p) => from <= p && occurs_at(buf, pat, p as int) && forall|i: int|
                from <= i < p ==> !occurs_at(buf, pat, i),
            None => forall|i: int| from <= i ==> !occurs_at(buf, pat, i),
        },
    decreases buf.len() - from,
{
    if from + pat.len() <= buf.len() && !occurs_at(buf, pat, from as int) {
        lemma_first_at(buf, pat, from + 1);
    }
}

/// Where the detach key stands in the input and how many bytes it takes: its first CSI u
/// encoding, or where there is none its first plain byte.
pub open spec fn detach_at(buf: Seq<u8>, key: u8, csi_u: Seq<u8>) -> Option<(nat, nat)> {
    if csi_u.len() > 0 && first_at(buf, csi_u, 0) is Some {
        Some((first_at(buf, csi_u, 0)->0, csi_u.len()))
    } else {
        match first_at(buf, seq![key], 0) {
            Some(p) => Some((p, 1)),
            None => None,
        }
    }
}

/// The first index at which `pat` stands in `buf`.
fn find_bytes(buf: &[u8], pat: &[u8]) -> (r: Option<usize>)
    requires
        pat@.len() > 0,
    ensures
        match first_at(buf@, pat@, 0) {
            Some(p) => r matches Some(q) && q == p,
            None => r is None,
        },
{
    let n: usize = pat.len();
    if n > buf.len() {
        return None;
    }
    let last: usize = buf.len() - n;
    let mut i: usize = 0;
    while i <= last
        invariant
            n == pat@.len(),
            n > 0,
            last == buf@.len() - n,
            i <= last + 1,
            last < buf.len(),
            first_at(buf@, pat@, 0) == first_at(buf@, pat@, i as nat),
        decreases last + 1 - i,
    {
        let mut j: usize = 0;
        while j < n && buf[i + j] == pat[j]
            invariant
                i <= last,
                j <= n,
                n == pat@.len(),
                last == buf@.len() - n,
                i + n <= buf.len(),
                forall|k: int| 0 <= k < j ==> buf@[i + k] == pat@[k],
            decreases n - j,
        {
            j = j + 1;
        }
        if j == n {
            assert(buf@.subrange(i as int, i + n) =~= pat@);
            return Some(i);
        }
        assert(buf@.subrange(i as int, i + n)[j as int] == buf@[i + j]);
        i = i + 1;
    }
    None
}

/// Find the detach key in keyboard input: where it stands and how many bytes it takes.
pub fn find_detach_key(buf: &[u8], raw_key: u8, csi_u: &[u8]) -> (r: Option<(usize, usize)>)
    ensures
        match detach_at(buf@, raw_key, csi_u@) {
            Some((p, n)) => r matches Some((q, m)) && q == p && m == n,
            None => r is None,
        },
{
    if csi_u.len() > 0 {
        if let Some(pos) = find_bytes(buf, csi_u) {
            return Some((pos, csi_u.len()));
        }
    }
    let mut key: Vec<u8> = Vec::new();
    key.push(raw_key);
    assert(key@ =~= seq![raw_key]);
    match find_bytes(buf, &key) {
        Some(pos) => Some((pos, 1)),
        None => None,
    }
}

// ---------------------------------------------------------------------------
// The attached client
// ---------------------------------------------------------------------------

/// An attached client between events.
#[derive(Debug)]
pub struct ClientLoop {
    /// The recorded output is still coming in.
    in_replay: bool,
    stdin_eof: bool,
    detach_key: u8,
    /// The CSI u encoding of the detach key.
    csi_u: Vec<u8>,
    readonly: bool,
    stdin_is_tty: bool,
}

/// What a [`ClientLoop`] is.
pub struct ClientLoopView {
    pub in_replay: bool,
    pub stdin_eof: bool,
    pub detach_key: u8,
    pub readonly: bool,
    pub stdin_is_tty: bool,
}

impl View for ClientLoop {
    type V = ClientLoopView;

    closed spec fn view(&self) -> ClientLoopView {
        ClientLoopView {
            in_replay: self.in_replay,
            stdin_eof: self.stdin_eof,
            detach_key: self.detach_key,
            readonly: self.readonly,
            stdin_is_tty: self.stdin_is_tty,
        }
    }
}

/// What the program around the client has to do.
#[derive(Debug)]
pub enum ClientAction {
    /// Write bytes to the local terminal.
    Write(Vec<u8>),
    /// Send the size of the local terminal.
    AnnounceSize,
    /// Let go.
    Finish(AttachResult),
}

/// What a [`ClientAction`] is.
pub enum ClientActionView {
    Write(Seq<u8>),
    AnnounceSize,
    Finish(AttachView),
}

impl View for ClientAction {
    type V = ClientActionView;

    open spec fn view(&self) -> ClientActionView {
        match *self {
            ClientAction::Write(bytes) => ClientActionView::Write(bytes@),
            ClientAction::AnnounceSize => ClientActionView::AnnounceSize,
            ClientAction::Finish(result) => ClientActionView::Finish(result@),
        }
    }
}

/// What the client does about something that the server said.
pub open spec fn on_server(s: ClientLoopView, e: ServerEventView) -> (
    ClientLoopView,
    ClientActionView,
) {
    match e {
        ServerEventView::Output(bytes) => (s, ClientActionView::Write(bytes)),
        ServerEventView::ReplayEnd => (
            ClientLoopView { in_replay: false, ..s },
            ClientActionView::AnnounceSize,
        ),
        ServerEventView::ResizeReq => (s, ClientActionView::AnnounceSize),
        ServerEventView::Exit(status) => (s, ClientActionView::Finish(AttachView::Exited(status))),
        ServerEventView::Error(msg) => (
            s,
            ClientActionView::Finish(AttachView::IoError(DisconnectView::ServerError(msg))),
        ),
        ServerEventView::HungUp => (
            s,
            ClientActionView::Finish(AttachView::IoError(DisconnectView::ServerHungUp)),
        ),
        ServerEventView::ReadFailed(e) => (
            s,
            ClientActionView::Finish(AttachView::IoError(DisconnectView::ServerRead(e))),
        ),
    }
}

/// The packet that asks to be let go.
pub open spec fn detach_packet() -> PacketView {
    PacketView { msg_type: MsgType::Detach, payload: Seq::empty() }
}

/// What is sent of keyboard input: everything as content, nothing from a read-only client.
pub open spec fn typed(readonly: bool, bytes: Seq<u8>) -> Seq<PacketView> {
    if readonly {
        Seq::empty()
    } else {
        crate::protocol::packets_with(MsgType::Content, crate::protocol::chunked(bytes))
    }
}

/// What the client sends on keyboard input, and whether it lets go: with the detach key in the
/// input, what comes before it, then the request to be let go.
pub open spec fn on_input(s: ClientLoopView, buf: Seq<u8>) -> (Seq<PacketView>, bool) {
    match detach_at(buf, s.detach_key, csi_u_press(s.detach_key)) {
        Some((pos, _)) => (typed(s.readonly, buf.take(pos as int)).push(detach_packet()), true),
        None => (typed(s.readonly, buf), false),
    }
}

/// What a read of the keyboard means.
#[derive(Debug, Clone, Copy, PartialEq, Eq, Structural)]
pub enum StdinRead {
    /// So many bytes of input.
    Data(usize),
    /// Nothing is there.
    Nothing,
    /// The input has ended or cannot be read.
    Ended,
}

/// What a read of the keyboard means.
pub fn stdin_read(outcome: IoOutcome) -> (r: StdinRead)
    ensures
        r == (match outcome {
            IoOutcome::Bytes(n) => if n == 0 {
                StdinRead::Ended
            } else {
                StdinRead::Data(n)
            },
            IoOutcome::WouldBlock => StdinRead::Nothing,
            _ => StdinRead::Ended,
        }),
{
    match outcome {
        IoOutcome::Bytes(n) => if n == 0 {
            StdinRead::Ended
        } else {
            StdinRead::Data(n)
        },
        IoOutcome::WouldBlock => StdinRead::Nothing,
        _ => StdinRead::Ended,
    }
}

/// Something on this side that ends an attachment.
#[derive(Debug)]
pub enum LocalFailure {
    /// The local terminal could not be written, with the text of the error.
    Stdout(String),
    /// The terminal size could not be sent, with the text of the error.
    Announce(String),
    /// Keyboard input could not be sent.
    Content,
}

/// How an attachment ends on a failure on this side.
pub fn local_failure(failure: LocalFailure) -> (r: AttachResult)
    ensures
        r@ == (match failure {
            LocalFailure::Stdout(e) => AttachView::IoError(DisconnectView::ServerWrite(e@)),
            LocalFailure::Announce(e) => AttachView::IoError(DisconnectView::ServerWrite(e@)),
            LocalFailure::Content => AttachView::IoError(DisconnectView::ServerHungUp),
        }),
{
    match failure {
        LocalFailure::Stdout(e) => AttachResult::IoError(DisconnectReason::ServerWrite(e)),
        LocalFailure::Announce(e) => AttachResult::IoError(DisconnectReason::ServerWrite(e)),
        LocalFailure::Content => AttachResult::IoError(DisconnectReason::ServerHungUp),
    }
}

impl ClientLoop {
    /// The encoding that is looked for is that of the detach key.
    pub closed spec fn wf(&self) -> bool {
        self.csi_u@ == csi_u_press(self.detach_key)
    }

    /// A client whose handshake is done. `stdin_readable` says whether keyboard input can be
    /// waited for at all.
    pub fn new(detach_key: u8, flags: ClientFlags, stdin_is_tty: bool, stdin_readable: bool) -> (
        c: ClientLoop)
        ensures
            c.wf(),
            c@ == (ClientLoopView {
                in_replay: true,
                stdin_eof: !stdin_readable,
                detach_key,
                readonly: flags.readonly,
                stdin_is_tty,
            }),
    {
        ClientLoop {
            in_replay: true,
            stdin_eof: !stdin_readable,
            detach_key,
            csi_u: csi_u_press_sequence(detach_key),
            readonly: flags.readonly,
            stdin_is_tty,
        }
    }

    /// Whether keyboard input is to be read now.
    pub fn reads_stdin(&self) -> (b: bool)
        ensures
            b == (!self@.in_replay && !self@.stdin_eof),
    {
        !self.in_replay && !self.stdin_eof
    }

    /// Whether a change of the local terminal's size is to be announced now.
    pub fn announces_resize(&self) -> (b: bool)
        ensures
            b == !self@.in_replay,
    {
        !self.in_replay
    }

    /// The server said something.
    pub fn server_event(&mut self, event: ServerEvent) -> (a: ClientAction)
        requires
            old(self).wf(),
        ensures
            final(self).wf(),
            final(self)@ == on_server(old(self)@, event@).0,
            a@ == on_server(old(self)@, event@).1,
    {
        match event {
            ServerEvent::Output(bytes) => ClientAction::Write(bytes),
            ServerEvent::ReplayEnd => {
                self.in_replay = false;
                ClientAction::AnnounceSize
            },
            ServerEvent::ResizeReq => ClientAction::AnnounceSize,
            ServerEvent::Exit(status) => ClientAction::Finish(AttachResult::Exited(status)),
            ServerEvent::Error(msg) => ClientAction::Finish(
                AttachResult::IoError(DisconnectReason::ServerError(msg)),
            ),
            ServerEvent::HungUp => ClientAction::Finish(
                AttachResult::IoError(DisconnectReason::ServerHungUp),
            ),
            ServerEvent::ReadFailed(e) => ClientAction::Finish(
                AttachResult::IoError(DisconnectReason::ServerRead(e)),
            ),
        }
    }

    /// The packets to send on keyboard input, and whether the client lets go after them.
    pub fn input(&self, buf: &[u8]) -> (r: (Vec<Packet>, bool))
        requires
            self.wf(),
        ensures
            crate::protocol::packet_views(r.0@) == on_input(self@, buf@).0,
            r.1 == on_input(self@, buf@).1,
    {
        match find_detach_key(buf, self.detach_key, &self.csi_u) {
            Some((pos, _)) => {
                proof {
                    lemma_detach_at_inside(buf@, self.detach_key, self.csi_u@);
                }
                let before = vstd::slice::slice_subrange(buf, 0, pos);
                assert(before@ =~= buf@.take(pos as int));
                let mut packets: Vec<Packet> = if self.readonly {
                    Vec::new()
                } else {
                    chunk_packets(MsgType::Content, before)
                };
                let ghost sent = packets@;
                assert(crate::protocol::packet_views(sent) =~= typed(self.readonly, before@));
                packets.push(Packet::empty(MsgType::Detach));
                assert(crate::protocol::packet_views(packets@) =~= crate::protocol::packet_views(
                    sent,
                ).push(detach_packet()));
                (packets, true)
            },
            None => {
                let packets: Vec<Packet> = if self.readonly {
                    Vec::new()
                } else {
                    chunk_packets(MsgType::Content, buf)
                };
                assert(crate::protocol::packet_views(packets@) =~= typed(self.readonly, buf@));
                (packets, false)
            },
        }
    }

    /// Keyboard input has ended. A client whose keyboard is a terminal has lost it and lets go;
    /// another one stays to show the output to its end.
    pub fn input_ended(&mut self) -> (r: Option<AttachResult>)
        requires
            old(self).wf(),
        ensures
            final(self).wf(),
            old(self)@.stdin_is_tty ==> (r matches Some(a) && a@ == AttachView::Detached)
                && final(self)@ == old(self)@,
            !old(self)@.stdin_is_tty ==> r is None && final(self)@ == (ClientLoopView {
                stdin_eof: true,
                ..old(self)@
            }),
    {
        if self.stdin_is_tty {
            Some(AttachResult::Detached)
        } else {
            self.stdin_eof = true;
            None
        }
    }
}

/// The detach key lies inside the input.
pub proof fn lemma_detach_at_inside(buf: Seq<u8>, key: u8, csi_u: Seq<u8>)
    ensures
        detach_at(buf, key, csi_u) matches Some((p, n)) ==> p + n <= buf.len() && n > 0,
{
    if csi_u.len() > 0 {
        lemma_first_at(buf, csi_u, 0);
    }
    lemma_first_at(buf, seq![key], 0);
}

/// The bytes that packets carry, put together.
pub open spec fn payload_of(ps: Seq<PacketView>) -> Seq<u8> {
    ps.map_values(|p: PacketView| p.payload).flatten()
}

/// What is typed reaches the server whole and in order, in packets of content that each fit the
/// protocol; of a read-only client nothing does.
pub proof fn law_typed_input_arrives(readonly: bool, bytes: Seq<u8>)
    ensures
        !readonly ==> payload_of(typed(readonly, bytes)) == bytes,
        readonly ==> typed(readonly, bytes).len() == 0,
        forall|i: int|
            0 <= i < typed(readonly, bytes).len() ==> (#[trigger] typed(
                readonly,
                bytes,
            )[i]).msg_type == MsgType::Content && typed(readonly, bytes)[i].valid(),
{
    let chunks = crate::protocol::chunked(bytes);
    crate::protocol::law_chunks_cover_data(bytes);
    if !readonly {
        let ps = typed(readonly, bytes);
        assert(ps.map_values(|p: PacketView| p.payload) =~= chunks);
        assert forall|i: int| 0 <= i < ps.len() implies (#[trigger] ps[i]).msg_type
            == MsgType::Content && ps[i].valid() by {
            assert(ps[i].payload == chunks[i]);
        }
    }
}

/// A press of the detach key, in either encoding, always lets go: the client sends what was typed
/// before it, asks to be let go, and sends nothing that came with or after the key.
pub proof fn law_detach_key_lets_go(s: ClientLoopView, buf: Seq<u8>, i: int)
    requires
        occurs_at(buf, seq![s.detach_key], i) || (csi_u_press(s.detach_key).len() > 0
            && occurs_at(buf, csi_u_press(s.detach_key), i)),
    ensures
        on_input(s, buf).1,
        on_input(s, buf).0.last() == detach_packet(),
        ({
            let (pos, _) = detach_at(buf, s.detach_key, csi_u_press(s.detach_key))->0;
            on_input(s, buf).0.drop_last() == typed(s.readonly, buf.take(pos as int))
        }),
{
    lemma_first_at(buf, seq![s.detach_key], 0);
    if csi_u_press(s.detach_key).len() > 0 {
        lemma_first_at(buf, csi_u_press(s.detach_key), 0);
    }
    let (pos, _) = detach_at(buf, s.detach_key, csi_u_press(s.detach_key))->0;
    assert(typed(s.readonly, buf.take(pos as int)).push(detach_packet()).drop_last() =~= typed(
        s.readonly,
        buf.take(pos as int),
    ));
}

/// Without the detach key the client stays, and sends exactly what was typed.
pub proof fn law_other_keys_stay(s: ClientLoopView, buf: Seq<u8>)
    requires
        forall|i: int| !occurs_at(buf, seq![s.detach_key], i),
        forall|i: int| !occurs_at(buf, csi_u_press(s.detach_key), i),
    ensures
        on_input(s, buf) == (typed(s.readonly, buf), false),
{
    lemma_first_at(buf, seq![s.detach_key], 0);
    if csi_u_press(s.detach_key).len() > 0 {
        lemma_first_at(buf, csi_u_press(s.detach_key), 0);
    }
}

// ---------------------------------------------------------------------------
// The local terminal
// ---------------------------------------------------------------------------

/// The mode words of a terminal.
#[derive(Debug, Clone, Copy, PartialEq, Eq, Structural)]
pub struct TermModes {
    pub input: u32,
    pub output: u32,
    pub local: u32,
    pub control: u32,
}

/// The bits of the mode words that raw mode is about, as the system numbers them.
#[derive(Debug, Clone, Copy, PartialEq, Eq, Structural)]
pub struct RawBits {
    /// Input processing: breaks, parity marks, stripping, newline mapping, flow control.
    pub input: u32,
    /// Output processing.
    pub output: u32,
    /// Echo, line editing, signals, extensions.
    pub local: u32,
    /// The character size field.
    pub size: u32,
    /// Its value for eight bits.
    pub eight: u32,
    /// Parity.
    pub parity: u32,
}

/// The mode words of raw mode: no processing of input, output or keys; eight bits, no parity.
pub fn raw_modes(modes: TermModes, bits: RawBits) -> (raw: TermModes)
    ensures
        raw.input == modes.input & !bits.input,
        raw.output == modes.output & !bits.output,
        raw.local == modes.local & !bits.local,
        raw.control == ((modes.control & !bits.size) | bits.eight) & !bits.parity,
{
    TermModes {
        input: modes.input & !bits.input,
        output: modes.output & !bits.output,
        local: modes.local & !bits.local,
        control: ((modes.control & !bits.size) | bits.eight) & !bits.parity,
    }
}

/// What is written to the terminal when the client lets go: leave the alternate screen, pop the
/// keyboard protocol, reset attributes, show the cursor, wrap lines, end bracketed paste and
/// mouse reports, reset the scroll region, and start a new line.
pub fn soft_reset() -> (s: &'static str)
    ensures
        s@
            == "\x1b[?1049l\x1b[<u\x1b[0m\x1b[?25h\x1b[?7h\x1b[?2004l\x1b[?1000l\x1b[?1002l\x1b[?1003l\x1b[?1006l\x1b[r\r\n"@,
{
    "\x1b[?1049l\x1b[<u\x1b[0m\x1b[?25h\x1b[?7h\x1b[?2004l\x1b[?1000l\x1b[?1002l\x1b[?1003l\x1b[?1006l\x1b[r\r\n"
}

/// The size of the local terminal: rows and columns as the system tells them, or 24 by 80 where
/// it does not.
pub fn terminal_size(told: Option<(u16, u16)>) -> (size: (u16, u16))
    ensures
        size == (match told {
            Some(t) => t,
            None => (24u16, 80u16),
        }),
{
    match told {
        Some(t) => t,
        None => (24, 80),
    }
}

// ---------------------------------------------------------------------------
// An attachment from its first packet on
// ---------------------------------------------------------------------------

/// What packets of the server, one after another, make of an attached client, and what they call
/// for. Packets that tell the client nothing are skipped.
pub open spec fn after_packets(s: ClientLoopView, ps: Seq<PacketView>) -> (
    ClientLoopView,
    Seq<ClientActionView>,
)
    decreases ps.len(),
{
    if ps.len() == 0 {
        (s, Seq::empty())
    } else {
        let (t, actions) = after_packets(s, ps.drop_last());
        match event_of(ps.last()) {
            Some(e) => (on_server(t, e).0, actions.push(on_server(t, e).1)),
            None => (t, actions),
        }
    }
}

/// What actions write to the terminal, put together.
pub open spec fn written(actions: Seq<ClientActionView>) -> Seq<u8>
    decreases actions.len(),
{
    if actions.len() == 0 {
        Seq::empty()
    } else {
        written(actions.drop_last()) + (match actions.last() {
            ClientActionView::Write(bytes) => bytes,
            _ => Seq::empty(),
        })
    }
}

/// The output that packets carry, recorded or new, put together.
pub open spec fn output_in(ps: Seq<PacketView>) -> Seq<u8>
    decreases ps.len(),
{
    if ps.len() == 0 {
        Seq::empty()
    } else if ps.last().msg_type == MsgType::Replay || ps.last().msg_type == MsgType::Content {
        output_in(ps.drop_last()) + ps.last().payload
    } else {
        output_in(ps.drop_last())
    }
}

/// The terminal shows the output that the server sends: all of it, in order, and nothing else,
/// whether it is recorded or new, and before the end mark as after it.
pub proof fn law_terminal_shows_the_output(s: ClientLoopView, ps: Seq<PacketView>)
    ensures
        written(after_packets(s, ps).1) == output_in(ps),
    decreases ps.len(),
{
    if ps.len() > 0 {
        law_terminal_shows_the_output(s, ps.drop_last());
        let (t, actions) = after_packets(s, ps.drop_last());
        if let Some(e) = event_of(ps.last()) {
            assert(actions.push(on_server(t, e).1).drop_last() =~= actions);
        }
    }
}

/// A client that is brought up to date writes the recording to its terminal, whole and in order.
/// It has done so before the end mark comes.
pub proof fn law_terminal_shows_the_recording(s: ClientLoopView, snapshot: Seq<u8>)
    ensures
        written(after_packets(s, crate::protocol::replay_of(snapshot)).1) == snapshot,
        written(after_packets(s, crate::protocol::replay_of(snapshot).drop_last()).1) == snapshot,
{
    let ps = crate::protocol::replay_of(snapshot);
    law_terminal_shows_the_output(s, ps);
    law_terminal_shows_the_output(s, ps.drop_last());
    let chunks = crate::protocol::chunked(snapshot);
    crate::protocol::law_chunks_cover_data(snapshot);
    lemma_output_in_chunks(chunks);
    assert(ps.drop_last() =~= crate::protocol::packets_with(MsgType::Replay, chunks));
}

proof fn lemma_output_in_chunks(chunks: Seq<Seq<u8>>)
    ensures
        output_in(crate::protocol::packets_with(MsgType::Replay, chunks)) == chunks.flatten(),
    decreases chunks.len(),
{
    let ps = crate::protocol::packets_with(MsgType::Replay, chunks);
    if chunks.len() == 0 {
        assert(chunks.flatten() =~= Seq::<u8>::empty());
    } else {
        let init = chunks.drop_last();
        lemma_output_in_chunks(init);
        assert(ps.drop_last() =~= crate::protocol::packets_with(MsgType::Replay, init));
        init.lemma_flatten_push(chunks.last());
        assert(init.push(chunks.last()) =~= chunks);
    }
}

/// What one packet of the server does to an attached client, by its type: output is written; the
/// end mark lets keyboard input begin, and like a request for the size is answered with it; an
/// exit ends the attachment with the status that the packet carries, an error with its text.
/// Everything else is as it was.
pub proof fn law_packet_by_packet(s: ClientLoopView, p: PacketView)
    ensures
        match p.msg_type {
            MsgType::Replay | MsgType::Content => event_of(p) matches Some(e) && on_server(s, e) == (
                s,
                ClientActionView::Write(p.payload),
            ),
            MsgType::ReplayEnd => event_of(p) matches Some(e) && on_server(s, e) == (
                ClientLoopView {
                    in_replay: false,
                    stdin_eof: s.stdin_eof,
                    detach_key: s.detach_key,
                    readonly: s.readonly,
                    stdin_is_tty: s.stdin_is_tty,
                },
                ClientActionView::AnnounceSize,
            ),
            MsgType::ResizeReq => event_of(p) matches Some(e) && on_server(s, e) == (
                s,
                ClientActionView::AnnounceSize,
            ),
            MsgType::Exit => event_of(p) matches Some(e) && on_server(s, e) == (
                s,
                ClientActionView::Finish(
                    match crate::protocol::exit_status_of(p) {
                        Some(status) => AttachView::Exited(status),
                        None => AttachView::IoError(
                            DisconnectView::ServerError("invalid exit packet"@),
                        ),
                    },
                ),
            ),
            MsgType::Error => event_of(p) matches Some(e) && on_server(s, e) == (
                s,
                ClientActionView::Finish(
                    AttachView::IoError(
                        DisconnectView::ServerError(
                            if vstd::utf8::valid_utf8(p.payload) {
                                vstd::utf8::decode_utf8(p.payload)
                            } else {
                                "unknown"@
                            },
                        ),
                    ),
                ),
            ),
            _ => event_of(p) is None,
        },
{
}

/// A connection that breaks ends the attachment, and the client knows why.
pub proof fn law_broken_connection_ends(s: ClientLoopView, e: Seq<char>)
    ensures
        on_server(s, ServerEventView::HungUp) == (
            s,
            ClientActionView::Finish(AttachView::IoError(DisconnectView::ServerHungUp)),
        ),
        on_server(s, ServerEventView::ReadFailed(e)) == (
            s,
            ClientActionView::Finish(AttachView::IoError(DisconnectView::ServerRead(e))),
        ),
{
}

/// Whether packets of this type stand among some.
pub open spec fn some_packet(ps: Seq<PacketView>, msg_type: MsgType) -> bool {
    exists|i: int| 0 <= i < ps.len() && (#[trigger] ps[i]).msg_type == msg_type
}

/// Whether one of some actions is to let go.
pub open spec fn lets_go(actions: Seq<ClientActionView>) -> bool {
    exists|i: int| 0 <= i < actions.len() && (#[trigger] actions[i]) is Finish
}

/// Nothing that the server sends ends an attachment but an exit or an error, and these always do.
/// Nothing ends the recording but the end mark, and nothing else about the client changes.
pub proof fn law_what_ends_an_attachment(s: ClientLoopView, ps: Seq<PacketView>)
    ensures
        lets_go(after_packets(s, ps).1) <==> some_packet(ps, MsgType::Exit) || some_packet(
            ps,
            MsgType::Error,
        ),
        after_packets(s, ps).0 == (ClientLoopView {
            in_replay: s.in_replay && !some_packet(ps, MsgType::ReplayEnd),
            ..s
        }),
    decreases ps.len(),
{
    if ps.len() > 0 {
        let init = ps.drop_last();
        let last = ps.last();
        law_what_ends_an_attachment(s, init);
        let (t, actions) = after_packets(s, init);
        lemma_some_packet(ps, MsgType::Exit);
        lemma_some_packet(ps, MsgType::Error);
        lemma_some_packet(ps, MsgType::ReplayEnd);
        if let Some(e) = event_of(last) {
            let all = actions.push(on_server(t, e).1);
            if lets_go(actions) {
                let i = choose|i: int| 0 <= i < actions.len() && (#[trigger] actions[i]) is Finish;
                assert(all[i] is Finish);
            }
            if lets_go(all) {
                let i = choose|i: int| 0 <= i < all.len() && (#[trigger] all[i]) is Finish;
                if i < actions.len() {
                    assert(actions[i] is Finish);
                }
            }
            if on_server(t, e).1 is Finish {
                assert(all[actions.len() as int] is Finish);
            }
        }
    }
}

proof fn lemma_some_packet(ps: Seq<PacketView>, msg_type: MsgType)
    requires
        ps.len() > 0,
    ensures
        some_packet(ps, msg_type) <==> some_packet(ps.drop_last(), msg_type) || ps.last().msg_type
            == msg_type,
{
    let init = ps.drop_last();
    if some_packet(init, msg_type) {
        let i = choose|i: int| 0 <= i < init.len() && (#[trigger] init[i]).msg_type == msg_type;
        assert(ps[i].msg_type == msg_type);
    }
    if some_packet(ps, msg_type) {
        let i = choose|i: int| 0 <= i < ps.len() && (#[trigger] ps[i]).msg_type == msg_type;
        if i < init.len() {
            assert(init[i].msg_type == msg_type);
        }
    }
    if ps.last().msg_type == msg_type {
        assert(ps[ps.len() - 1].msg_type == msg_type);
    }
}

/// The answer to a client that wants to attach: it is attached exactly where it gets an
/// introduction that can be read and speaks the client's version; otherwise it learns what came
/// instead.
pub proof fn law_answers_to_attaching(p: PacketView)
    ensures
        attach_reply_of(p) matches Ok(w) ==> p.msg_type == MsgType::Welcome
            && crate::protocol::welcome_of(p) == Some(w) && w.version == PROTOCOL_VERSION,
        p.msg_type == MsgType::Welcome ==> match crate::protocol::welcome_of(p) {
            Some(w) => if w.version == PROTOCOL_VERSION {
                attach_reply_of(p) == Ok::<_, Seq<char>>(w)
            } else {
                attach_reply_of(p) == Err::<Welcome, _>(
                    "protocol version mismatch: client="@ + crate::text::decimal(
                        PROTOCOL_VERSION as nat,
                    ) + ", server="@ + crate::text::decimal(w.version as nat),
                )
            },
            None => attach_reply_of(p) == Err::<Welcome, _>("malformed welcome packet"@),
        },
        p.msg_type == MsgType::Error ==> attach_reply_of(p) == Err::<Welcome, _>(
            if vstd::utf8::valid_utf8(p.payload) {
                vstd::utf8::decode_utf8(p.payload)
            } else {
                "unknown server error"@
            },
        ),
        p.msg_type != MsgType::Welcome && p.msg_type != MsgType::Error ==> attach_reply_of(p)
            == Err::<Welcome, _>("unexpected response from server"@),
{
}

/// The answer to a query: an introduction that can be read is taken whatever version it speaks;
/// otherwise the client learns what came instead.
pub proof fn law_answers_to_asking(p: PacketView)
    ensures
        query_reply_of(p) matches Ok(w) ==> p.msg_type == MsgType::Welcome
            && crate::protocol::welcome_of(p) == Some(w),
        p.msg_type == MsgType::Welcome ==> match crate::protocol::welcome_of(p) {
            Some(w) => query_reply_of(p) == Ok::<_, Seq<char>>(w),
            None => query_reply_of(p) == Err::<Welcome, _>("malformed welcome"@),
        },
        p.msg_type == MsgType::Error ==> query_reply_of(p) == Err::<Welcome, _>(
            if vstd::utf8::valid_utf8(p.payload) {
                vstd::utf8::decode_utf8(p.payload)
            } else {
                "unknown error"@
            },
        ),
        p.msg_type != MsgType::Welcome && p.msg_type != MsgType::Error ==> query_reply_of(p) == Err::<
            Welcome,
            _,
        >("unexpected response"@),
{
}

/// A press of a control key is written ESC `[`, two decimal digits that make the number of its
/// letter, and `;5u`; of other keys there is no such encoding.
pub proof fn law_how_a_press_is_written(key: u8)
    ensures
        key >= 32 ==> csi_u_press(key).len() == 0,
        key < 32 ==> {
            let press = csi_u_press(key);
            &&& press.len() == 7
            &&& press[0] == 27 && press[1] == '[' as u8
            &&& '0' as u8 <= press[2] <= '9' as u8 && '0' as u8 <= press[3] <= '9' as u8
            &&& 10 * (press[2] - 48) + (press[3] - 48) == 64 + key
            &&& press[4] == ';' as u8 && press[5] == '5' as u8 && press[6] == 'u' as u8
        },
{
}

/// Where the detach key is found: at the first place where its press is written out, or where
/// there is none at its first plain byte. It is found wherever it is.
pub proof fn law_where_the_detach_key_is(buf: Seq<u8>, key: u8)
    ensures
        ({
            let press = csi_u_press(key);
            match detach_at(buf, key, press) {
                Some((at, n)) => {
                    ||| key < 32 && n == 7 && at + 7 <= buf.len() && buf.subrange(
                        at as int,
                        at as int + 7,
                    ) == press && forall|i: int|
                        0 <= i < at ==> #[trigger] buf.subrange(i, i + 7) != press
                    ||| n == 1 && at < buf.len() && buf[at as int] == key && (forall|i: int|
                        0 <= i < at ==> #[trigger] buf[i] != key) && (key < 32 ==> forall|i: int|
                        0 <= i <= buf.len() - 7 ==> #[trigger] buf.subrange(i, i + 7) != press)
                },
                None => (forall|i: int| 0 <= i < buf.len() ==> #[trigger] buf[i] != key) && (key
                    < 32 ==> forall|i: int|
                    0 <= i <= buf.len() - 7 ==> #[trigger] buf.subrange(i, i + 7) != press),
            }
        }),
{
    let press = csi_u_press(key);
    let plain = seq![key];
    lemma_first_at(buf, plain, 0);
    if key < 32 {
        lemma_first_at(buf, press, 0);
        assert forall|i: int|
            0 <= i <= buf.len() - 7 && !occurs_at(buf, press, i) implies #[trigger] buf.subrange(
            i,
            i + 7,
        ) != press by {}
    }
    assert forall|i: int| 0 <= i < buf.len() && !occurs_at(buf, plain, i) implies #[trigger] buf[i]
        != key by {
        if buf[i] == key {
            assert(buf.subrange(i, i + 1) =~= plain);
        }
    }
    if let Some(at) = first_at(buf, plain, 0) {
        assert(buf.subrange(at as int, at as int + 1)[0] == buf[at as int]);
    }
}

/// Input without the detach key is sent as it was typed, and the client stays; of a read-only
/// client nothing is sent.
pub proof fn law_input_without_the_detach_key(s: ClientLoopView, buf: Seq<u8>)
    requires
        forall|i: int| 0 <= i < buf.len() ==> #[trigger] buf[i] != s.detach_key,
        s.detach_key < 32 ==> forall|i: int|
            0 <= i <= buf.len() - 7 ==> #[trigger] buf.subrange(i, i + 7) != csi_u_press(
                s.detach_key,
            ),
    ensures
        !on_input(s, buf).1,
        !s.readonly ==> payload_of(on_input(s, buf).0) == buf,
        s.readonly ==> on_input(s, buf).0.len() == 0,
        forall|i: int|
            0 <= i < on_input(s, buf).0.len() ==> (#[trigger] on_input(s, buf).0[i]).msg_type
                == MsgType::Content,
{
    law_where_the_detach_key_is(buf, s.detach_key);
    law_typed_input_arrives(s.readonly, buf);
}

/// Input with the detach key at its first place `at` makes the client let go: what was typed in
/// front of the key is sent, then one request to be let go, and nothing else; of a read-only
/// client only the request.
pub proof fn law_input_with_the_detach_key(s: ClientLoopView, buf: Seq<u8>, at: int)
    requires
        ({
            let press = csi_u_press(s.detach_key);
            ||| s.detach_key < 32 && 0 <= at <= buf.len() - 7 && buf.subrange(at, at + 7) == press
                && forall|i: int| 0 <= i < at ==> #[trigger] buf.subrange(i, i + 7) != press
            ||| 0 <= at < buf.len() && buf[at] == s.detach_key && (forall|i: int|
                0 <= i < at ==> #[trigger] buf[i] != s.detach_key) && (s.detach_key < 32
                ==> forall|i: int|
                0 <= i <= buf.len() - 7 ==> #[trigger] buf.subrange(i, i + 7) != press)
        }),
    ensures
        on_input(s, buf).1,
        on_input(s, buf).0.len() > 0,
        on_input(s, buf).0.last().msg_type == MsgType::Detach,
        on_input(s, buf).0.last().payload.len() == 0,
        s.readonly ==> on_input(s, buf).0.len() == 1,
        !s.readonly ==> payload_of(on_input(s, buf).0.drop_last()) == buf.take(at),
        forall|i: int|
            0 <= i < on_input(s, buf).0.len() - 1 ==> (#[trigger] on_input(s, buf).0[i]).msg_type
                == MsgType::Content,
{
    let press = csi_u_press(s.detach_key);
    law_where_the_detach_key_is(buf, s.detach_key);
    let found = detach_at(buf, s.detach_key, press);
    if let Some((p, n)) = found {
        if n == 7 {
            assert(buf.subrange(p as int, p as int + 7) == press);
            if p < at {
                assert(buf.subrange(p as int, p as int + 7) != press);
            }
            if at < p {
                assert(buf.subrange(at, at + 7) != press || buf[at] == s.detach_key);
            }
        } else {
            assert(buf[p as int] == s.detach_key);
        }
        assert(p == at);
        let sent = typed(s.readonly, buf.take(at));
        law_typed_input_arrives(s.readonly, buf.take(at));
        assert(sent.push(detach_packet()).drop_last() =~= sent);
        assert forall|i: int| 0 <= i < on_input(s, buf).0.len() - 1 implies (#[trigger] on_input(
            s,
            buf,
        ).0[i]).msg_type == MsgType::Content by {
            assert(on_input(s, buf).0[i] == sent[i]);
        }
    }
}

/// Why a connection broke, in words.
pub proof fn law_words_for_broken_connections(e: Seq<char>)
    ensures
        DisconnectView::ServerHungUp.text() == "server hung up"@,
        DisconnectView::ServerRead(e).text() == "read from server failed: "@ + e,
        DisconnectView::ServerWrite(e).text() == "write to server failed: "@ + e,
        DisconnectView::ServerError(e).text() == "server sent error: "@ + e,
        DisconnectView::InvalidExitPacket.text() == "invalid exit packet from server"@,
{
}

/// Why a connection broke and how an attachment ended are seen as they are.
pub proof fn law_endings_as_seen(text: String, status: u32, reason: DisconnectReason)
    ensures
        DisconnectReason::ServerHungUp@ == DisconnectView::ServerHungUp,
        DisconnectReason::ServerRead(text)@ == DisconnectView::ServerRead(text@),
        DisconnectReason::ServerWrite(text)@ == DisconnectView::ServerWrite(text@),
        DisconnectReason::ServerError(text)@ == DisconnectView::ServerError(text@),
        DisconnectReason::InvalidExitPacket@ == DisconnectView::InvalidExitPacket,
        AttachResult::Detached@ == AttachView::Detached,
        AttachResult::Exited(status)@ == AttachView::Exited(status),
        AttachResult::IoError(reason)@ == AttachView::IoError(reason@),
{
}

/// What the server says and what the client does about it are seen as they are.
pub proof fn law_events_as_seen(bytes: Vec<u8>, status: u32, text: String, result: AttachResult)
    ensures
        ServerEvent::Output(bytes)@ == ServerEventView::Output(bytes@),
        ServerEvent::ReplayEnd@ == ServerEventView::ReplayEnd,
        ServerEvent::ResizeReq@ == ServerEventView::ResizeReq,
        ServerEvent::Exit(status)@ == ServerEventView::Exit(status),
        ServerEvent::Error(text)@ == ServerEventView::Error(text@),
        ServerEvent::HungUp@ == ServerEventView::HungUp,
        ServerEvent::ReadFailed(text)@ == ServerEventView::ReadFailed(text@),
        ClientAction::Write(bytes)@ == ClientActionView::Write(bytes@),
        ClientAction::AnnounceSize@ == ClientActionView::AnnounceSize,
        ClientAction::Finish(result)@ == ClientActionView::Finish(result@),
{
}

} // verus!
