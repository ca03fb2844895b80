//! The wire protocol: message types, packets, and their encoding.
//!
//! A packet is one type byte, the payload's length as a little-endian `u16`, and the payload.

pub use crate::transfer::WriteResult;
use vstd::prelude::*;

verus! {

pub const PROTOCOL_VERSION: u8 = 1;

/// Bytes of a packet before its payload: type (1) and length (2).
pub const HEADER_SIZE: usize = 3;

/// The largest payload of a packet, so that a packet is at most 4096 bytes.
pub const MAX_PAYLOAD: usize = 4093;

/// The kinds of packets.
#[derive(Debug, Clone, Copy, PartialEq, Eq, Structural)]
pub enum MsgType {
    Hello,
    Welcome,
    Error,
    Content,
    Resize,
    ResizeReq,
    Detach,
    Exit,
    Replay,
    ReplayEnd,
}

impl MsgType {
    /// The type byte on the wire.
    pub open spec fn code(self) -> u8 {
        match self {
            MsgType::Hello => 0,
            MsgType::Welcome => 1,
            MsgType::Error => 2,
            MsgType::Content => 3,
            MsgType::Resize => 4,
            MsgType::ResizeReq => 5,
            MsgType::Detach => 6,
            MsgType::Exit => 7,
            MsgType::Replay => 8,
            MsgType::ReplayEnd => 9,
        }
    }

    /// The message type with this type byte, if there is one.
    pub open spec fn of_code(v: u8) -> Option<MsgType> {
        if v == 0 {
            Some(MsgType::Hello)
        } else if v == 1 {
            Some(MsgType::Welcome)
        } else if v == 2 {
            Some(MsgType::Error)
        } else if v == 3 {
            Some(MsgType::Content)
        } else if v == 4 {
            Some(MsgType::Resize)
        } else if v == 5 {
            Some(MsgType::ResizeReq)
        } else if v == 6 {
            Some(MsgType::Detach)
        } else if v == 7 {
            Some(MsgType::Exit)
        } else if v == 8 {
            Some(MsgType::Replay)
        } else if v == 9 {
            Some(MsgType::ReplayEnd)
        } else {
            None
        }
    }

    /// The message type of a type byte; `None` for a byte that stands for none.
    pub fn from_u8(v: u8) -> (r: Option<MsgType>)
        ensures
            r == MsgType::of_code(v),
    {
        match v {
            0 => Some(MsgType::Hello),
            1 => Some(MsgType::Welcome),
            2 => Some(MsgType::Error),
            3 => Some(MsgType::Content),
            4 => Some(MsgType::Resize),
            5 => Some(MsgType::ResizeReq),
            6 => Some(MsgType::Detach),
            7 => Some(MsgType::Exit),
            8 => Some(MsgType::Replay),
            9 => Some(MsgType::ReplayEnd),
            _ => None,
        }
    }

    /// The type byte of a message type.
    pub fn to_u8(self) -> (v: u8)
        ensures
            v == self.code(),
    {
        match self {
            MsgType::Hello => 0,
            MsgType::Welcome => 1,
            MsgType::Error => 2,
            MsgType::Content => 3,
            MsgType::Resize => 4,
            MsgType::ResizeReq => 5,
            MsgType::Detach => 6,
            MsgType::Exit => 7,
            MsgType::Replay => 8,
            MsgType::ReplayEnd => 9,
        }
    }
}

/// Type bytes and message types stand for one another: exactly the bytes below 10 are taken.
pub proof fn law_msg_type_codes(t: MsgType, v: u8)
    ensures
        MsgType::of_code(t.code()) == Some(t),
        MsgType::of_code(v) matches Some(u) ==> u.code() == v,
        MsgType::of_code(v) is Some <==> v < 10,
{
}

/// What a connecting client wants.
#[derive(Debug, Clone, Copy, PartialEq, Eq, Structural)]
pub enum Intent {
    Query,
    Attach,
}

impl Intent {
    /// The intent byte on the wire.
    pub open spec fn code(self) -> u8 {
        match self {
            Intent::Query => 0,
            Intent::Attach => 1,
        }
    }

    /// The intent with this byte, if there is one.
    pub open spec fn of_code(v: u8) -> Option<Intent> {
        if v == 0 {
            Some(Intent::Query)
        } else if v == 1 {
            Some(Intent::Attach)
        } else {
            None
        }
    }

    /// The intent of a byte; `None` for a byte that stands for none.
    pub fn from_u8(v: u8) -> (r: Option<Intent>)
        ensures
            r == Intent::of_code(v),
    {
        match v {
            0 => Some(Intent::Query),
            1 => Some(Intent::Attach),
            _ => None,
        }
    }

    /// The byte of an intent.
    pub fn to_u8(self) -> (v: u8)
        ensures
            v == self.code(),
    {
        match self {
            Intent::Query => 0,
            Intent::Attach => 1,
        }
    }
}

/// Intent bytes and intents stand for one another.
pub proof fn law_intent_codes(t: Intent, v: u8)
    ensures
        Intent::of_code(t.code()) == Some(t),
        Intent::of_code(v) matches Some(u) ==> u.code() == v,
        Intent::of_code(v) is Some <==> v < 2,
{
}

/// What a client asks for beyond its intent.
#[derive(Debug, Clone, Copy, PartialEq, Eq, Structural)]
pub struct ClientFlags {
    /// Input of the client is ignored.
    pub readonly: bool,
    /// The client never controls the terminal size.
    pub low_priority: bool,
}

impl ClientFlags {
    /// The flag word on the wire: bit 0 is read-only, bit 1 is low priority.
    pub open spec fn word(self) -> u16 {
        ((if self.readonly {
            1int
        } else {
            0
        }) + (if self.low_priority {
            2int
        } else {
            0
        })) as u16
    }

    /// The flags whose bits are set in `word`; other bits are dropped.
    pub open spec fn of_word(word: u16) -> ClientFlags {
        ClientFlags { readonly: word % 2 == 1, low_priority: (word / 2) % 2 == 1 }
    }

    /// No flag.
    pub fn empty() -> (flags: ClientFlags)
        ensures
            !flags.readonly,
            !flags.low_priority,
    {
        ClientFlags { readonly: false, low_priority: false }
    }

    /// The read-only flag alone.
    pub fn with_readonly() -> (flags: ClientFlags)
        ensures
            flags.readonly,
            !flags.low_priority,
    {
        ClientFlags { readonly: true, low_priority: false }
    }

    /// The low-priority flag alone.
    pub fn with_low_priority() -> (flags: ClientFlags)
        ensures
            !flags.readonly,
            flags.low_priority,
    {
        ClientFlags { readonly: false, low_priority: true }
    }

    /// The flag word.
    pub fn bits(&self) -> (word: u16)
        ensures
            word == self.word(),
    {
        let low: u16 = if self.readonly {
            1
        } else {
            0
        };
        let high: u16 = if self.low_priority {
            2
        } else {
            0
        };
        low + high
    }

    /// The flags that `bits` holds; bits that stand for no flag are dropped.
    pub fn from_bits_truncate(bits: u16) -> (flags: ClientFlags)
        ensures
            flags == ClientFlags::of_word(bits),
    {
        ClientFlags { readonly: bits % 2 == 1, low_priority: (bits / 2) % 2 == 1 }
    }

    /// Whether every flag of `other` is set.
    pub fn contains(&self, other: ClientFlags) -> (b: bool)
        ensures
            b == ((other.readonly ==> self.readonly) && (other.low_priority
                ==> self.low_priority)),
    {
        (!other.readonly || self.readonly) && (!other.low_priority || self.low_priority)
    }

    /// The flags that are set in either.
    pub fn union(self, other: ClientFlags) -> (flags: ClientFlags)
        ensures
            flags.readonly == (self.readonly || other.readonly),
            flags.low_priority == (self.low_priority || other.low_priority),
    {
        ClientFlags {
            readonly: self.readonly || other.readonly,
            low_priority: self.low_priority || other.low_priority,
        }
    }
}

/// Flags survive the wire, and only their two bits of a word matter.
pub proof fn law_flag_words(flags: ClientFlags, word: u16)
    ensures
        ClientFlags::of_word(flags.word()) == flags,
        ClientFlags::of_word(word).word() == word % 4,
{
}

/// The first packet of a client.
#[derive(Debug, Clone, Copy, PartialEq, Eq, Structural)]
pub struct Hello {
    pub version: u8,
    pub intent: Intent,
    pub flags: ClientFlags,
    pub rows: u16,
    pub cols: u16,
}

/// What the server answers to an acceptable [`Hello`].
#[derive(Debug, Clone, Copy, PartialEq, Eq, Structural)]
pub struct Welcome {
    pub version: u8,
    pub server_pid: u32,
    pub child_pid: u32,
    pub child_running: bool,
    pub exit_status: u8,
    pub client_count: u16,
    pub ring_size: u32,
    pub ring_used: u32,
}

/// The wire unit.
#[derive(Debug)]
pub struct Packet {
    pub msg_type: MsgType,
    pub payload: Vec<u8>,
}

/// What a packet is: its type and its payload bytes.
pub struct PacketView {
    pub msg_type: MsgType,
    pub payload: Seq<u8>,
}

impl View for Packet {
    type V = PacketView;

    open spec fn view(&self) -> PacketView {
        PacketView { msg_type: self.msg_type, payload: self.payload@ }
    }
}

impl Clone for Packet {
    fn clone(&self) -> (p: Packet)
        ensures
            p@ == self@,
    {
        Packet { msg_type: self.msg_type, payload: bytes_to_vec(&self.payload) }
    }
}

impl PacketView {
    /// Whether the payload is within the protocol's limit.
    pub open spec fn valid(self) -> bool {
        self.payload.len() <= MAX_PAYLOAD
    }
}

/// The two bytes of `v`, least significant first.
pub open spec fn u16_le(v: u16) -> Seq<u8> {
    seq![(v % 256) as u8, (v / 256) as u8]
}

/// The number whose little-endian bytes stand in `s` from index `at`.
pub open spec fn u16_at(s: Seq<u8>, at: int) -> u16 {
    (s[at] + 256 * s[at + 1]) as u16
}

/// The four bytes of `v`, least significant first.
pub open spec fn u32_le(v: u32) -> Seq<u8> {
    seq![
        (v % 256) as u8,
        ((v / 256) % 256) as u8,
        ((v / 65536) % 256) as u8,
        (v / 16777216) as u8,
    ]
}

/// The number whose little-endian bytes stand in `s` from index `at`.
pub open spec fn u32_at(s: Seq<u8>, at: int) -> u32 {
    (s[at] + 256 * s[at + 1] + 65536 * s[at + 2] + 16777216 * s[at + 3]) as u32
}

fn push_u16(buf: &mut Vec<u8>, v: u16)
    ensures
        final(buf)@ == old(buf)@ + u16_le(v),
{
    let ghost before = buf@;
    buf.push((v % 256) as u8);
    buf.push((v / 256) as u8);
    assert(buf@ =~= before + u16_le(v));
}

fn push_u32(buf: &mut Vec<u8>, v: u32)
    ensures
        final(buf)@ == old(buf)@ + u32_le(v),
{
    let ghost before = buf@;
    buf.push((v % 256) as u8);
    buf.push(((v / 256) % 256) as u8);
    buf.push(((v / 65536) % 256) as u8);
    buf.push((v / 16777216) as u8);
    assert(buf@ =~= before + u32_le(v));
}

fn read_u16(p: &[u8], at: usize) -> (v: u16)
    requires
        at + 2 <= p@.len(),
    ensures
        v == u16_at(p@, at as int),
{
    p[at] as u16 + 256 * (p[at + 1] as u16)
}

fn read_u32(p: &[u8], at: usize) -> (v: u32)
    requires
        at + 4 <= p@.len(),
    ensures
        v == u32_at(p@, at as int),
{
    p[at] as u32 + 256 * (p[at + 1] as u32) + 65536 * (p[at + 2] as u32) + 16777216 * (p[at
        + 3] as u32)
}

/// A copy of a byte slice.
pub fn bytes_to_vec(data: &[u8]) -> (out: Vec<u8>)
    ensures
        out@ == data@,
{
    let mut out: Vec<u8> = Vec::with_capacity(data.len());
    out.extend_from_slice(data);
    assert(out@ =~= data@);
    out
}

/// The payload of a [`Hello`]: 8 bytes.
pub open spec fn hello_payload(h: Hello) -> Seq<u8> {
    seq![h.version, h.intent.code()] + u16_le(h.flags.word()) + u16_le(h.rows) + u16_le(h.cols)
}

/// The payload of a [`Welcome`]: 21 bytes.
pub open spec fn welcome_payload(w: Welcome) -> Seq<u8> {
    seq![w.version] + u32_le(w.server_pid) + u32_le(w.child_pid) + seq![
        if w.child_running {
            1u8
        } else {
            0u8
        },
        w.exit_status,
    ] + u16_le(w.client_count) + u32_le(w.ring_size) + u32_le(w.ring_used)
}

/// What [`Packet::parse_hello`] reads out of a packet.
pub open spec fn hello_of(p: PacketView) -> Option<Hello> {
    if p.msg_type != MsgType::Hello || p.payload.len() < 8 {
        None
    } else {
        match Intent::of_code(p.payload[1]) {
            None => None,
            Some(intent) => Some(
                Hello {
                    version: p.payload[0],
                    intent,
                    flags: ClientFlags::of_word(u16_at(p.payload, 2)),
                    rows: u16_at(p.payload, 4),
                    cols: u16_at(p.payload, 6),
                },
            ),
        }
    }
}

/// What [`Packet::parse_welcome`] reads out of a packet.
pub open spec fn welcome_of(p: PacketView) -> Option<Welcome> {
    if p.msg_type != MsgType::Welcome || p.payload.len() < 21 {
        None
    } else {
        Some(
            Welcome {
                version: p.payload[0],
                server_pid: u32_at(p.payload, 1),
                child_pid: u32_at(p.payload, 5),
                child_running: p.payload[9] != 0,
                exit_status: p.payload[10],
                client_count: u16_at(p.payload, 11),
                ring_size: u32_at(p.payload, 13),
                ring_used: u32_at(p.payload, 17),
            },
        )
    }
}

/// What [`Packet::parse_resize`] reads out of a packet: rows and columns.
pub open spec fn resize_of(p: PacketView) -> Option<(u16, u16)> {
    if p.msg_type != MsgType::Resize || p.payload.len() < 4 {
        None
    } else {
        Some((u16_at(p.payload, 0), u16_at(p.payload, 2)))
    }
}

/// What [`Packet::parse_exit_status`] reads out of a packet.
pub open spec fn exit_status_of(p: PacketView) -> Option<u32> {
    if p.msg_type != MsgType::Exit || p.payload.len() < 4 {
        None
    } else {
        Some(u32_at(p.payload, 0))
    }
}

/// What [`Packet::parse_error`] reads out of a packet.
pub open spec fn error_of(p: PacketView) -> Option<Seq<char>> {
    if p.msg_type != MsgType::Error || !vstd::utf8::valid_utf8(p.payload) {
        None
    } else {
        Some(vstd::utf8::decode_utf8(p.payload))
    }
}

/// `String::from_utf8`: the text whose UTF-8 encoding the bytes are, or nothing where they are
/// not well-formed UTF-8.
#[verifier::external_body]
fn string_from_utf8(bytes: Vec<u8>) -> (r: Option<String>)
    ensures
        r is Some <==> vstd::utf8::valid_utf8(bytes@),
        r matches Some(s) ==> s@ == vstd::utf8::decode_utf8(bytes@),
{
    String::from_utf8(bytes).ok()
}

impl Packet {
    /// A packet of the given type and payload.
    pub fn new(msg_type: MsgType, payload: Vec<u8>) -> (p: Packet)
        requires
            payload@.len() <= MAX_PAYLOAD,
        ensures
            p@ == (PacketView { msg_type, payload: payload@ }),
    {
        Packet { msg_type, payload }
    }

    /// A packet without payload.
    pub fn empty(msg_type: MsgType) -> (p: Packet)
        ensures
            p@ == (PacketView { msg_type, payload: Seq::empty() }),
    {
        Packet::new(msg_type, Vec::new())
    }

    pub fn hello(hello: &Hello) -> (p: Packet)
        ensures
            p@ == (PacketView { msg_type: MsgType::Hello, payload: hello_payload(*hello) }),
    {
        let mut buf: Vec<u8> = Vec::with_capacity(8);
        buf.push(hello.version);
        buf.push(hello.intent.to_u8());
        push_u16(&mut buf, hello.flags.bits());
        push_u16(&mut buf, hello.rows);
        push_u16(&mut buf, hello.cols);
        assert(buf@ =~= hello_payload(*hello));
        Packet::new(MsgType::Hello, buf)
    }

    pub fn welcome(w: &Welcome) -> (p: Packet)
        ensures
            p@ == (PacketView { msg_type: MsgType::Welcome, payload: welcome_payload(*w) }),
    {
        let mut buf: Vec<u8> = Vec::with_capacity(21);
        buf.push(w.version);
        push_u32(&mut buf, w.server_pid);
        push_u32(&mut buf, w.child_pid);
        buf.push(if w.child_running {
            1
        } else {
            0
        });
        buf.push(w.exit_status);
        push_u16(&mut buf, w.client_count);
        push_u32(&mut buf, w.ring_size);
        push_u32(&mut buf, w.ring_used);
        assert(buf@ =~= welcome_payload(*w));
        Packet::new(MsgType::Welcome, buf)
    }

    /// An error with a text.
    pub fn error(msg: &str) -> (p: Packet)
        requires
            vstd::utf8::encode_utf8(msg@).len() <= MAX_PAYLOAD,
        ensures
            p@ == (PacketView { msg_type: MsgType::Error, payload: vstd::utf8::encode_utf8(msg@) }),
    {
        Packet::new(MsgType::Error, bytes_to_vec(msg.as_bytes()))
    }

    /// Terminal input or output.
    pub fn content(data: &[u8]) -> (p: Packet)
        requires
            data@.len() <= MAX_PAYLOAD,
        ensures
            p@ == (PacketView { msg_type: MsgType::Content, payload: data@ }),
    {
        Packet::new(MsgType::Content, bytes_to_vec(data))
    }

    /// A piece of recorded output.
    pub fn replay(data: &[u8]) -> (p: Packet)
        requires
            data@.len() <= MAX_PAYLOAD,
        ensures
            p@ == (PacketView { msg_type: MsgType::Replay, payload: data@ }),
    {
        Packet::new(MsgType::Replay, bytes_to_vec(data))
    }

    /// The size of the client's terminal.
    pub fn resize(rows: u16, cols: u16) -> (p: Packet)
        ensures
            p@ == (PacketView { msg_type: MsgType::Resize, payload: u16_le(rows) + u16_le(cols) }),
    {
        let mut buf: Vec<u8> = Vec::with_capacity(4);
        push_u16(&mut buf, rows);
        push_u16(&mut buf, cols);
        assert(buf@ =~= u16_le(rows) + u16_le(cols));
        Packet::new(MsgType::Resize, buf)
    }

    /// The exit status of the child.
    pub fn exit(status: u32) -> (p: Packet)
        ensures
            p@ == (PacketView { msg_type: MsgType::Exit, payload: u32_le(status) }),
    {
        let mut buf: Vec<u8> = Vec::with_capacity(4);
        push_u32(&mut buf, status);
        assert(buf@ =~= u32_le(status));
        Packet::new(MsgType::Exit, buf)
    }

    /// The greeting in this packet: `None` for another type, fewer than 8 bytes of payload or an
    /// unknown intent. Bytes after the eighth are ignored.
    pub fn parse_hello(&self) -> (r: Option<Hello>)
        ensures
            r == hello_of(self@),
    {
        if self.msg_type != MsgType::Hello || self.payload.len() < 8 {
            return None;
        }
        match Intent::from_u8(self.payload[1]) {
            None => None,
            Some(intent) => Some(
                Hello {
                    version: self.payload[0],
                    intent,
                    flags: ClientFlags::from_bits_truncate(read_u16(&self.payload, 2)),
                    rows: read_u16(&self.payload, 4),
                    cols: read_u16(&self.payload, 6),
                },
            ),
        }
    }

    /// The server's answer in this packet: `None` for another type or fewer than 21 bytes.
    pub fn parse_welcome(&self) -> (r: Option<Welcome>)
        ensures
            r == welcome_of(self@),
    {
        if self.msg_type != MsgType::Welcome || self.payload.len() < 21 {
            return None;
        }
        Some(
            Welcome {
                version: self.payload[0],
                server_pid: read_u32(&self.payload, 1),
                child_pid: read_u32(&self.payload, 5),
                child_running: self.payload[9] != 0,
                exit_status: self.payload[10],
                client_count: read_u16(&self.payload, 11),
                ring_size: read_u32(&self.payload, 13),
                ring_used: read_u32(&self.payload, 17),
            },
        )
    }

    /// Rows and columns in this packet: `None` for another type or fewer than 4 bytes.
    pub fn parse_resize(&self) -> (r: Option<(u16, u16)>)
        ensures
            r == resize_of(self@),
    {
        if self.msg_type != MsgType::Resize || self.payload.len() < 4 {
            return None;
        }
        Some((read_u16(&self.payload, 0), read_u16(&self.payload, 2)))
    }

    /// The exit status in this packet: `None` for another type or fewer than 4 bytes.
    pub fn parse_exit_status(&self) -> (r: Option<u32>)
        ensures
            r == exit_status_of(self@),
    {
        if self.msg_type != MsgType::Exit || self.payload.len() < 4 {
            return None;
        }
        Some(read_u32(&self.payload, 0))
    }

    /// The text in this packet: `None` for another type or a payload that is not UTF-8.
    pub fn parse_error(&self) -> (r: Option<String>)
        ensures
            r is Some <==> error_of(self@) is Some,
            r matches Some(s) ==> error_of(self@) == Some(s@),
    {
        if self.msg_type != MsgType::Error {
            return None;
        }
        string_from_utf8(bytes_to_vec(&self.payload))
    }

    /// The packet on the wire: type byte, length as a little-endian `u16`, payload.
    pub fn encode(&self) -> (out: Vec<u8>)
        requires
            self.payload@.len() <= usize::MAX - HEADER_SIZE,
        ensures
            out@ == encoded(self@),
    {
        let len: u16 = self.payload.len() as u16;
        let mut buf: Vec<u8> = Vec::with_capacity(HEADER_SIZE + self.payload.len());
        buf.push(self.msg_type.to_u8());
        push_u16(&mut buf, len);
        buf.extend_from_slice(&self.payload);
        assert(buf@ =~= encoded(self@));
        buf
    }
}

/// The bytes of a packet on the wire.
pub open spec fn encoded(p: PacketView) -> Seq<u8> {
    seq![p.msg_type.code()] + u16_le(p.payload.len() as u16) + p.payload
}

/// Why bytes cannot be the start of a packet.
#[derive(Debug, Clone, Copy, PartialEq, Eq, Structural)]
pub enum FrameError {
    /// The type byte stands for no message type.
    UnknownType,
    /// The length is over [`MAX_PAYLOAD`].
    PayloadTooLarge,
}

impl FrameError {
    /// The error's text.
    pub open spec fn text(self) -> Seq<char> {
        match self {
            FrameError::UnknownType => "unknown message type"@,
            FrameError::PayloadTooLarge => "payload too large"@,
        }
    }

    /// The error's text.
    pub fn message(self) -> (s: &'static str)
        ensures
            s@ == self.text(),
    {
        match self {
            FrameError::UnknownType => "unknown message type",
            FrameError::PayloadTooLarge => "payload too large",
        }
    }
}

/// What the first three bytes of a packet announce.
#[derive(Debug, Clone, Copy, PartialEq, Eq, Structural)]
pub struct Header {
    pub msg_type: MsgType,
    /// Length of the payload that follows.
    pub len: usize,
}

/// What three header bytes announce. The type is judged before the length.
pub open spec fn header_of(h: Seq<u8>) -> Result<Header, FrameError> {
    match MsgType::of_code(h[0]) {
        None => Err(FrameError::UnknownType),
        Some(msg_type) => if u16_at(h, 1) > MAX_PAYLOAD {
            Err(FrameError::PayloadTooLarge)
        } else {
            Ok(Header { msg_type, len: u16_at(h, 1) as usize })
        },
    }
}

/// Read the header of a packet out of its first three bytes.
pub fn parse_header(header: &[u8]) -> (r: Result<Header, FrameError>)
    requires
        header@.len() == HEADER_SIZE,
    ensures
        r == header_of(header@),
{
    match MsgType::from_u8(header[0]) {
        None => Err(FrameError::UnknownType),
        Some(msg_type) => {
            let len: usize = read_u16(header, 1) as usize;
            if len > MAX_PAYLOAD {
                Err(FrameError::PayloadTooLarge)
            } else {
                Ok(Header { msg_type, len })
            }
        },
    }
}

/// What stands at the start of a byte stream: a packet and its length in bytes; `Ok(None)` where
/// the bytes so far are the beginning of a packet; an error where no packet begins like that.
pub open spec fn decoded(bytes: Seq<u8>) -> Result<Option<(PacketView, nat)>, FrameError> {
    if bytes.len() < HEADER_SIZE {
        Ok(None)
    } else {
        match header_of(bytes) {
            Err(e) => Err(e),
            Ok(h) => if bytes.len() < HEADER_SIZE + h.len {
                Ok(None)
            } else {
                Ok(
                    Some(
                        (
                            PacketView {
                                msg_type: h.msg_type,
                                payload: bytes.subrange(
                                    HEADER_SIZE as int,
                                    HEADER_SIZE + h.len,
                                ),
                            },
                            (HEADER_SIZE + h.len) as nat,
                        ),
                    ),
                )
            },
        }
    }
}

/// Read one packet from the start of `bytes`, and how many bytes it took. `Ok(None)` asks for
/// more bytes.
pub fn decode(bytes: &[u8]) -> (r: Result<Option<(Packet, usize)>, FrameError>)
    ensures
        match decoded(bytes@) {
            Err(e) => r == Err::<Option<(Packet, usize)>, FrameError>(e),
            Ok(None) => r matches Ok(None),
            Ok(Some((p, n))) => r matches Ok(Some((q, m))) && q@ == p && m == n,
        },
{
    if bytes.len() < HEADER_SIZE {
        return Ok(None);
    }
    let head = vstd::slice::slice_subrange(bytes, 0, HEADER_SIZE);
    assert(header_of(head@) == header_of(bytes@));
    match parse_header(head) {
        Err(e) => Err(e),
        Ok(h) => {
            if bytes.len() - HEADER_SIZE < h.len {
                return Ok(None);
            }
            let end: usize = HEADER_SIZE + h.len;
            let payload = bytes_to_vec(vstd::slice::slice_subrange(bytes, HEADER_SIZE, end));
            Ok(Some((Packet::new(h.msg_type, payload), end)))
        },
    }
}

/// A number survives its two bytes.
pub proof fn lemma_u16_round_trip(v: u16, pre: Seq<u8>, post: Seq<u8>)
    ensures
        u16_at(pre + u16_le(v) + post, pre.len() as int) == v,
{
    let s = pre + u16_le(v) + post;
    assert(s[pre.len() as int] == (v % 256) as u8);
    assert(s[pre.len() + 1int] == (v / 256) as u8);
}

/// A number survives its four bytes.
pub proof fn lemma_u32_round_trip(v: u32, pre: Seq<u8>, post: Seq<u8>)
    ensures
        u32_at(pre + u32_le(v) + post, pre.len() as int) == v,
{
    let s = pre + u32_le(v) + post;
    assert(s[pre.len() as int] == (v % 256) as u8);
    assert(s[pre.len() + 1int] == ((v / 256) % 256) as u8);
    assert(s[pre.len() + 2int] == ((v / 65536) % 256) as u8);
    assert(s[pre.len() + 3int] == (v / 16777216) as u8);
}

/// Reading what was sent gives it back: a packet followed by anything decodes to that packet,
/// and takes exactly its own bytes.
pub proof fn law_decode_inverts_encode(p: PacketView, rest: Seq<u8>)
    requires
        p.valid(),
    ensures
        decoded(encoded(p) + rest) == Ok::<_, FrameError>(Some((p, encoded(p).len()))),
{
    let bytes = encoded(p) + rest;
    assert(bytes[0] == p.msg_type.code());
    assert(bytes =~= seq![p.msg_type.code()] + u16_le(p.payload.len() as u16) + (p.payload
        + rest));
    lemma_u16_round_trip(
        p.payload.len() as u16,
        seq![p.msg_type.code()],
        p.payload + rest,
    );
    assert(bytes.subrange(HEADER_SIZE as int, HEADER_SIZE + p.payload.len()) =~= p.payload);
}

/// A byte string encodes at most one packet: whatever decodes encodes to the bytes it took.
pub proof fn law_encode_inverts_decode(bytes: Seq<u8>)
    ensures
        decoded(bytes) matches Ok(Some((p, n))) ==> {
            &&& p.valid()
            &&& n <= bytes.len()
            &&& encoded(p) == bytes.take(n as int)
        },
{
    if let Ok(Some((p, n))) = decoded(bytes) {
        assert(encoded(p) =~= bytes.take(n as int));
    }
}

/// More bytes never change a packet that has already been decoded, nor an error.
pub proof fn law_decode_ignores_what_follows(bytes: Seq<u8>, more: Seq<u8>)
    ensures
        decoded(bytes) !is Ok || decoded(bytes)->Ok_0 is Some ==> decoded(bytes + more) == decoded(
            bytes,
        ),
{
    let all = bytes + more;
    if bytes.len() >= HEADER_SIZE {
        assert(all[0] == bytes[0] && all[1] == bytes[1] && all[2] == bytes[2]);
        assert(header_of(all) == header_of(bytes));
        if let Ok(h) = header_of(bytes) {
            if bytes.len() >= HEADER_SIZE + h.len {
                assert(all.subrange(HEADER_SIZE as int, HEADER_SIZE + h.len) =~= bytes.subrange(
                    HEADER_SIZE as int,
                    HEADER_SIZE + h.len,
                ));
            }
        }
    }
}

/// Reading a packet in two parts is decoding it: where the header announces so many bytes of
/// payload, the header with that many bytes behind it decodes to one packet that takes them all,
/// and where the header is refused the bytes are refused for the same reason.
pub proof fn law_header_announces_packet(header: Seq<u8>, payload: Seq<u8>)
    requires
        header.len() == HEADER_SIZE,
    ensures
        match header_of(header) {
            Ok(h) => payload.len() == h.len ==> decoded(header + payload) == Ok::<_, FrameError>(
                Some(
                    (
                        PacketView { msg_type: h.msg_type, payload },
                        (header + payload).len(),
                    ),
                ),
            ),
            Err(e) => decoded(header + payload) == Err::<Option<(PacketView, nat)>, _>(e),
        },
{
    let bytes = header + payload;
    assert(bytes[0] == header[0] && bytes[1] == header[1] && bytes[2] == header[2]);
    assert(header_of(bytes) == header_of(header));
    if let Ok(h) = header_of(header) {
        if payload.len() == h.len {
            assert(bytes.subrange(HEADER_SIZE as int, HEADER_SIZE + h.len) =~= payload);
        }
    }
}

/// The bytes of several packets sent one after another.
pub open spec fn encoded_all(ps: Seq<PacketView>) -> Seq<u8>
    decreases ps.len(),
{
    if ps.len() == 0 {
        Seq::empty()
    } else {
        encoded(ps[0]) + encoded_all(ps.drop_first())
    }
}

/// The packets at the start of a byte stream, up to where it stops making complete packets.
pub open spec fn decoded_all(bytes: Seq<u8>) -> Seq<PacketView>
    decreases bytes.len(),
{
    match decoded(bytes) {
        Ok(Some((p, n))) => seq![p] + decoded_all(bytes.skip(n as int)),
        _ => Seq::empty(),
    }
}

/// Reading starts with the packet that was sent first.
proof fn lemma_stream_step(p: PacketView, rest: Seq<u8>)
    requires
        p.valid(),
    ensures
        decoded_all(encoded(p) + rest) == seq![p] + decoded_all(rest),
{
    law_decode_inverts_encode(p, rest);
    assert((encoded(p) + rest).skip(encoded(p).len() as int) =~= rest);
}

/// Reading a stream of packets gives back exactly the packets that were sent, in order.
pub proof fn law_stream_round_trip(ps: Seq<PacketView>)
    requires
        forall|i: int| 0 <= i < ps.len() ==> (#[trigger] ps[i]).valid(),
    ensures
        decoded_all(encoded_all(ps)) == ps,
    decreases ps.len(),
{
    if ps.len() == 0 {
        assert(decoded_all(encoded_all(ps)) =~= ps);
    } else {
        let rest = ps.drop_first();
        assert forall|i: int| 0 <= i < rest.len() implies (#[trigger] rest[i]).valid() by {
            assert(rest[i] == ps[i + 1]);
        }
        law_stream_round_trip(rest);
        lemma_stream_step(ps[0], encoded_all(rest));
        assert(seq![ps[0]] + rest =~= ps);
    }
}

/// `data` cut into payloads: each as large as the protocol allows, and what remains.
pub open spec fn chunked(data: Seq<u8>) -> Seq<Seq<u8>>
    decreases data.len(),
{
    if data.len() == 0 {
        Seq::empty()
    } else if data.len() <= MAX_PAYLOAD {
        seq![data]
    } else {
        seq![data.take(MAX_PAYLOAD as int)] + chunked(data.skip(MAX_PAYLOAD as int))
    }
}

/// Packets of one type that carry the given payloads.
pub open spec fn packets_with(msg_type: MsgType, payloads: Seq<Seq<u8>>) -> Seq<PacketView> {
    payloads.map_values(|payload: Seq<u8>| PacketView { msg_type, payload })
}

/// What a sequence of packets is.
pub open spec fn packet_views(ps: Seq<Packet>) -> Seq<PacketView> {
    ps.map_values(|p: Packet| p@)
}

/// Cutting data into payloads loses nothing, adds nothing and keeps the order; every payload
/// fits a packet and none is empty.
pub proof fn law_chunks_cover_data(data: Seq<u8>)
    ensures
        chunked(data).flatten() == data,
        forall|i: int|
            0 <= i < chunked(data).len() ==> 0 < (#[trigger] chunked(data)[i]).len()
                <= MAX_PAYLOAD,
    decreases data.len(),
{
    if data.len() == 0 {
    } else if data.len() <= MAX_PAYLOAD {
        chunked(data).lemma_flatten_one_element();
    } else {
        let rest = chunked(data.skip(MAX_PAYLOAD as int));
        law_chunks_cover_data(data.skip(MAX_PAYLOAD as int));
        assert(chunked(data).drop_first() =~= rest);
        assert(data.take(MAX_PAYLOAD as int) + data.skip(MAX_PAYLOAD as int) =~= data);
        assert forall|i: int| 0 <= i < chunked(data).len() implies 0 < (#[trigger] chunked(
            data,
        )[i]).len() <= MAX_PAYLOAD by {
            if i > 0 {
                assert(chunked(data)[i] == rest[i - 1]);
            }
        }
    }
}

/// Carry `data` in packets of one type.
pub fn chunk_packets(msg_type: MsgType, data: &[u8]) -> (ps: Vec<Packet>)
    ensures
        packet_views(ps@) == packets_with(msg_type, chunked(data@)),
{
    let mut ps: Vec<Packet> = Vec::new();
    let mut pos: usize = 0;
    assert(data@.skip(0) =~= data@);
    assert(packet_views(ps@) + packets_with(msg_type, chunked(data@)) =~= packets_with(
        msg_type,
        chunked(data@),
    ));
    while pos < data.len()
        invariant
            pos <= data.len(),
            packet_views(ps@) + packets_with(msg_type, chunked(data@.skip(pos as int)))
                == packets_with(msg_type, chunked(data@)),
        decreases data.len() - pos,
    {
        let left: usize = data.len() - pos;
        let n: usize = if left <= MAX_PAYLOAD {
            left
        } else {
            MAX_PAYLOAD
        };
        let piece = vstd::slice::slice_subrange(data, pos, pos + n);
        let ghost before = ps@;
        let ghost rest = data@.skip(pos as int);
        ps.push(Packet::new(msg_type, bytes_to_vec(piece)));
        proof {
            assert(piece@ =~= rest.take(n as int));
            assert(rest.skip(n as int) =~= data@.skip(pos + n));
            if left <= MAX_PAYLOAD {
                assert(rest.take(n as int) =~= rest);
            }
            assert(chunked(rest) =~= seq![piece@] + chunked(data@.skip(pos + n)));
            assert(packet_views(ps@) =~= packet_views(before).push(
                PacketView { msg_type, payload: piece@ },
            ));
            assert(packet_views(ps@) + packets_with(msg_type, chunked(data@.skip(pos + n)))
                =~= packet_views(before) + packets_with(msg_type, chunked(rest)));
        }
        pos = pos + n;
    }
    assert(packet_views(ps@) =~= packets_with(msg_type, chunked(data@)));
    ps
}

/// What a client is sent of the recorded output: the recording in order, then the end mark.
pub open spec fn replay_of(snapshot: Seq<u8>) -> Seq<PacketView> {
    packets_with(MsgType::Replay, chunked(snapshot)).push(
        PacketView { msg_type: MsgType::ReplayEnd, payload: Seq::empty() },
    )
}

/// The packets that bring a newly attached client up to date.
pub fn replay_packets(snapshot: &[u8]) -> (ps: Vec<Packet>)
    ensures
        packet_views(ps@) == replay_of(snapshot@),
{
    let mut ps: Vec<Packet> = chunk_packets(MsgType::Replay, snapshot);
    let ghost before = ps@;
    ps.push(Packet::empty(MsgType::ReplayEnd));
    assert(packet_views(ps@) =~= packet_views(before).push(
        PacketView { msg_type: MsgType::ReplayEnd, payload: Seq::empty() },
    ));
    ps
}

/// A greeting survives the wire.
pub proof fn law_hello_round_trip(h: Hello)
    ensures
        hello_of(PacketView { msg_type: MsgType::Hello, payload: hello_payload(h) }) == Some(h),
        hello_payload(h).len() == 8,
{
    let s = hello_payload(h);
    law_flag_words(h.flags, 0);
    lemma_u16_round_trip(
        h.flags.word(),
        seq![h.version, h.intent.code()],
        u16_le(h.rows) + u16_le(h.cols),
    );
    assert(s =~= seq![h.version, h.intent.code()] + u16_le(h.flags.word()) + (u16_le(h.rows)
        + u16_le(h.cols)));
    lemma_u16_round_trip(
        h.rows,
        seq![h.version, h.intent.code()] + u16_le(h.flags.word()),
        u16_le(h.cols),
    );
    lemma_u16_round_trip(
        h.cols,
        seq![h.version, h.intent.code()] + u16_le(h.flags.word()) + u16_le(h.rows),
        Seq::empty(),
    );
    assert(s =~= s + Seq::empty());
}

/// The server's answer survives the wire.
pub proof fn law_welcome_round_trip(w: Welcome)
    ensures
        welcome_of(PacketView { msg_type: MsgType::Welcome, payload: welcome_payload(w) }) == Some(
            w,
        ),
        welcome_payload(w).len() == 21,
{
    let s = welcome_payload(w);
    let running = if w.child_running {
        1u8
    } else {
        0u8
    };
    let p1 = seq![w.version];
    let p5 = p1 + u32_le(w.server_pid);
    let p9 = p5 + u32_le(w.child_pid);
    let p11 = p9 + seq![running, w.exit_status];
    let p13 = p11 + u16_le(w.client_count);
    let p17 = p13 + u32_le(w.ring_size);
    lemma_u32_round_trip(w.server_pid, p1, s.skip(5));
    assert(s =~= p1 + u32_le(w.server_pid) + s.skip(5));
    lemma_u32_round_trip(w.child_pid, p5, s.skip(9));
    assert(s =~= p5 + u32_le(w.child_pid) + s.skip(9));
    lemma_u16_round_trip(w.client_count, p11, s.skip(13));
    assert(s =~= p11 + u16_le(w.client_count) + s.skip(13));
    lemma_u32_round_trip(w.ring_size, p13, s.skip(17));
    assert(s =~= p13 + u32_le(w.ring_size) + s.skip(17));
    lemma_u32_round_trip(w.ring_used, p17, Seq::empty());
    assert(s =~= p17 + u32_le(w.ring_used) + Seq::empty());
}

/// A terminal size survives the wire.
pub proof fn law_resize_round_trip(rows: u16, cols: u16)
    ensures
        resize_of(
            PacketView { msg_type: MsgType::Resize, payload: u16_le(rows) + u16_le(cols) },
        ) == Some((rows, cols)),
{
    let s = u16_le(rows) + u16_le(cols);
    lemma_u16_round_trip(rows, Seq::empty(), u16_le(cols));
    assert(s =~= Seq::<u8>::empty() + u16_le(rows) + u16_le(cols));
    lemma_u16_round_trip(cols, u16_le(rows), Seq::empty());
    assert(s =~= s + Seq::<u8>::empty());
}

/// An exit status survives the wire.
pub proof fn law_exit_round_trip(status: u32)
    ensures
        exit_status_of(PacketView { msg_type: MsgType::Exit, payload: u32_le(status) }) == Some(
            status,
        ),
{
    lemma_u32_round_trip(status, Seq::empty(), Seq::empty());
    assert(u32_le(status) =~= Seq::<u8>::empty() + u32_le(status) + Seq::<u8>::empty());
}

/// An error's text survives the wire.
pub proof fn law_error_round_trip(msg: Seq<char>)
    ensures
        error_of(
            PacketView { msg_type: MsgType::Error, payload: vstd::utf8::encode_utf8(msg) },
        ) == Some(msg),
{
    vstd::utf8::encode_utf8_valid_utf8(msg);
    vstd::utf8::encode_utf8_decode_utf8(msg);
}

// ---------------------------------------------------------------------------
// The bytes on the wire
// ---------------------------------------------------------------------------

/// The type bytes of the protocol, one by one.
pub proof fn law_type_bytes()
    ensures
        MsgType::Hello.code() == 0,
        MsgType::Welcome.code() == 1,
        MsgType::Error.code() == 2,
        MsgType::Content.code() == 3,
        MsgType::Resize.code() == 4,
        MsgType::ResizeReq.code() == 5,
        MsgType::Detach.code() == 6,
        MsgType::Exit.code() == 7,
        MsgType::Replay.code() == 8,
        MsgType::ReplayEnd.code() == 9,
        Intent::Query.code() == 0,
        Intent::Attach.code() == 1,
        PROTOCOL_VERSION == 1,
{
}

/// The bits of a flag word: the lowest is read-only, the next is low priority, each independent of
/// all others.
pub proof fn law_flag_bits(flags: ClientFlags, word: u16)
    ensures
        ClientFlags::of_word(word).readonly <==> word & 1 == 1,
        ClientFlags::of_word(word).low_priority <==> word & 2 == 2,
        flags.readonly <==> flags.word() & 1 == 1,
        flags.low_priority <==> flags.word() & 2 == 2,
        flags.word() < 4,
{
    assert(word & 1 == word % 2) by (bit_vector);
    assert(word & 2 == 2 <==> (word / 2) % 2 == 1) by (bit_vector);
    let w = flags.word();
    assert(w & 1 == w % 2) by (bit_vector);
    assert(w & 2 == 2 <==> (w / 2) % 2 == 1) by (bit_vector);
}

/// Where everything stands in a packet: one type byte, the length in two bytes, the low one first,
/// and the payload.
pub proof fn law_packet_layout(p: PacketView)
    requires
        p.payload.len() <= 4093,
    ensures
        ({
            let b = encoded(p);
            &&& b.len() == 3 + p.payload.len()
            &&& b[0] == p.msg_type.code()
            &&& b[1] + 256 * b[2] == p.payload.len()
            &&& forall|i: int| 0 <= i < p.payload.len() ==> #[trigger] b[3 + i] == p.payload[i]
        }),
{
}

/// What a stream of bytes begins with. Nothing is said before three bytes are there. Then a type
/// byte over 9 is refused, whatever follows; then a length over 4093 is; then a packet is there as
/// soon as all that was announced is there, and carries exactly that.
pub proof fn law_stream_begins(bytes: Seq<u8>)
    ensures
        ({
            let len = bytes[1] + 256 * bytes[2];
            if bytes.len() < 3 {
                decoded(bytes) == Ok::<Option<(PacketView, nat)>, FrameError>(None)
            } else if bytes[0] > 9 {
                decoded(bytes) == Err::<Option<(PacketView, nat)>, _>(FrameError::UnknownType)
            } else if len > 4093 {
                decoded(bytes) == Err::<Option<(PacketView, nat)>, _>(FrameError::PayloadTooLarge)
            } else if bytes.len() < 3 + len {
                decoded(bytes) == Ok::<Option<(PacketView, nat)>, FrameError>(None)
            } else {
                decoded(bytes) matches Ok(Some((p, n))) && n == 3 + len && p.msg_type.code()
                    == bytes[0] && p.payload == bytes.subrange(3, 3 + len)
            }
        }),
{
    law_msg_type_codes(MsgType::Hello, bytes[0]);
}

/// Where everything stands in a greeting.
pub proof fn law_hello_layout(h: Hello)
    ensures
        ({
            let b = hello_payload(h);
            &&& b.len() == 8
            &&& b[0] == h.version
            &&& b[1] == h.intent.code()
            &&& b[2] + 256 * b[3] == h.flags.word()
            &&& b[4] + 256 * b[5] == h.rows
            &&& b[6] + 256 * b[7] == h.cols
        }),
{
}

/// What is read out of a greeting: one byte each of version and intent, then flags, rows and
/// columns in two bytes each. A greeting has at least eight bytes and an intent of 0 or 1; what
/// comes behind is ignored.
pub proof fn law_reading_a_hello(p: PacketView)
    ensures
        hello_of(p) is Some <==> p.msg_type == MsgType::Hello && p.payload.len() >= 8
            && p.payload[1] < 2,
        hello_of(p) matches Some(h) ==> {
            let b = p.payload;
            &&& h.version == b[0]
            &&& h.intent == Intent::Attach <==> b[1] == 1
            &&& h.flags.readonly <==> b[2] % 2 == 1
            &&& h.flags.low_priority <==> (b[2] / 2) % 2 == 1
            &&& h.rows == b[4] + 256 * b[5]
            &&& h.cols == b[6] + 256 * b[7]
        },
{
}

/// Where everything stands in the server's answer.
pub proof fn law_welcome_layout(w: Welcome)
    ensures
        ({
            let b = welcome_payload(w);
            &&& b.len() == 21
            &&& b[0] == w.version
            &&& b[1] + 256 * b[2] + 65536 * b[3] + 16777216 * b[4] == w.server_pid
            &&& b[5] + 256 * b[6] + 65536 * b[7] + 16777216 * b[8] == w.child_pid
            &&& b[9] == (if w.child_running {
                1u8
            } else {
                0u8
            })
            &&& b[10] == w.exit_status
            &&& b[11] + 256 * b[12] == w.client_count
            &&& b[13] + 256 * b[14] + 65536 * b[15] + 16777216 * b[16] == w.ring_size
            &&& b[17] + 256 * b[18] + 65536 * b[19] + 16777216 * b[20] == w.ring_used
        }),
{
    let s = welcome_payload(w);
    let a = seq![w.version] + u32_le(w.server_pid);
    let b = a + u32_le(w.child_pid);
    let c = b + seq![
        if w.child_running {
            1u8
        } else {
            0u8
        },
        w.exit_status,
    ];
    let d = c + u16_le(w.client_count);
    let e = d + u32_le(w.ring_size);
    assert(s.take(5) =~= a);
    assert(s.take(9) =~= b);
    assert(s.take(11) =~= c);
    assert(s.take(13) =~= d);
    assert(s.take(17) =~= e);
    assert(s.subrange(1, 5) =~= u32_le(w.server_pid));
    assert(s.subrange(5, 9) =~= u32_le(w.child_pid));
    assert(s.subrange(11, 13) =~= u16_le(w.client_count));
    assert(s.subrange(13, 17) =~= u32_le(w.ring_size));
    assert(s.subrange(17, 21) =~= u32_le(w.ring_used));
    assert forall|i: int| 0 <= i < 4 implies s[1 + i] == #[trigger] u32_le(w.server_pid)[i] by {
        assert(s.subrange(1, 5)[i] == s[1 + i]);
    }
    assert forall|i: int| 0 <= i < 4 implies s[5 + i] == #[trigger] u32_le(w.child_pid)[i] by {
        assert(s.subrange(5, 9)[i] == s[5 + i]);
    }
    assert forall|i: int| 0 <= i < 4 implies s[13 + i] == #[trigger] u32_le(w.ring_size)[i] by {
        assert(s.subrange(13, 17)[i] == s[13 + i]);
    }
    assert forall|i: int| 0 <= i < 4 implies s[17 + i] == #[trigger] u32_le(w.ring_used)[i] by {
        assert(s.subrange(17, 21)[i] == s[17 + i]);
    }
    lemma_u32_bytes(w.server_pid);
    lemma_u32_bytes(w.child_pid);
    lemma_u32_bytes(w.ring_size);
    lemma_u32_bytes(w.ring_used);
}

proof fn lemma_u32_bytes(v: u32)
    ensures
        u32_le(v).len() == 4,
        u32_le(v)[0] + 256 * u32_le(v)[1] + 65536 * u32_le(v)[2] + 16777216 * u32_le(v)[3] == v,
{
}

/// What is read out of the server's answer, which has at least 21 bytes; what comes behind them is
/// ignored, and any byte but zero says that the child runs.
pub proof fn law_reading_a_welcome(p: PacketView)
    ensures
        welcome_of(p) is Some <==> p.msg_type == MsgType::Welcome && p.payload.len() >= 21,
        welcome_of(p) matches Some(w) ==> {
            let b = p.payload;
            &&& w.version == b[0]
            &&& w.server_pid == b[1] + 256 * b[2] + 65536 * b[3] + 16777216 * b[4]
            &&& w.child_pid == b[5] + 256 * b[6] + 65536 * b[7] + 16777216 * b[8]
            &&& w.child_running <==> b[9] != 0
            &&& w.exit_status == b[10]
            &&& w.client_count == b[11] + 256 * b[12]
            &&& w.ring_size == b[13] + 256 * b[14] + 65536 * b[15] + 16777216 * b[16]
            &&& w.ring_used == b[17] + 256 * b[18] + 65536 * b[19] + 16777216 * b[20]
        },
{
}

/// What is read out of a size, an exit status and an error: rows then columns in two bytes each;
/// the status in four; the text that the bytes encode. Each has a packet type of its own and a
/// least length, and is read out of nothing else.
pub proof fn law_reading_the_rest(p: PacketView)
    ensures
        resize_of(p) is Some <==> p.msg_type == MsgType::Resize && p.payload.len() >= 4,
        resize_of(p) matches Some((rows, cols)) ==> rows == p.payload[0] + 256 * p.payload[1]
            && cols == p.payload[2] + 256 * p.payload[3],
        exit_status_of(p) is Some <==> p.msg_type == MsgType::Exit && p.payload.len() >= 4,
        exit_status_of(p) matches Some(status) ==> status == p.payload[0] + 256 * p.payload[1]
            + 65536 * p.payload[2] + 16777216 * p.payload[3],
        error_of(p) is Some <==> p.msg_type == MsgType::Error && vstd::utf8::valid_utf8(p.payload),
        error_of(p) matches Some(text) ==> vstd::utf8::encode_utf8(text) == p.payload,
{
    if vstd::utf8::valid_utf8(p.payload) {
        vstd::utf8::decode_utf8_encode_utf8(p.payload);
    }
}

/// A number takes its bytes with the lowest first.
pub proof fn law_low_byte_first(v: u16, w: u32)
    ensures
        u16_le(v).len() == 2 && u16_le(v)[0] + 256 * u16_le(v)[1] == v,
        u32_le(w).len() == 4 && u32_le(w)[0] + 256 * u32_le(w)[1] + 65536 * u32_le(w)[2] + 16777216
            * u32_le(w)[3] == w,
{
}

/// Data is cut as late as possible: every packet but the last is full, with 4093 bytes.
pub proof fn law_chunks_are_full(data: Seq<u8>, i: int)
    requires
        0 <= i < chunked(data).len() - 1,
    ensures
        chunked(data)[i].len() == 4093,
    decreases data.len(),
{
    if i > 0 {
        law_chunks_are_full(data.skip(MAX_PAYLOAD as int), i - 1);
    }
}

/// Packets that carry payloads carry them one by one, in order, all of the one type.
pub proof fn law_packets_carry_payloads(msg_type: MsgType, payloads: Seq<Seq<u8>>, i: int)
    requires
        0 <= i < payloads.len(),
    ensures
        packets_with(msg_type, payloads).len() == payloads.len(),
        packets_with(msg_type, payloads)[i].msg_type == msg_type,
        packets_with(msg_type, payloads)[i].payload == payloads[i],
{
}

/// A client is brought up to date by packets of the recording alone, none of them empty, and then
/// the end mark, which stands once and last.
pub proof fn law_replay_ends_with_its_mark(snapshot: Seq<u8>, i: int)
    requires
        0 <= i < replay_of(snapshot).len(),
    ensures
        replay_of(snapshot).len() > 0,
        i == replay_of(snapshot).len() - 1 ==> replay_of(snapshot)[i].msg_type == MsgType::ReplayEnd
            && replay_of(snapshot)[i].payload.len() == 0,
        i < replay_of(snapshot).len() - 1 ==> replay_of(snapshot)[i].msg_type == MsgType::Replay
            && 0 < replay_of(snapshot)[i].payload.len() <= 4093,
{
    law_chunks_cover_data(snapshot);
    if i < replay_of(snapshot).len() - 1 {
        assert(replay_of(snapshot)[i].payload == chunked(snapshot)[i]);
    }
}

/// The words for a stream that makes no sense.
pub proof fn law_frame_error_words()
    ensures
        FrameError::UnknownType.text() == "unknown message type"@,
        FrameError::PayloadTooLarge.text() == "payload too large"@,
{
}

/// Packets are seen as they are, one by one.
pub proof fn law_packets_as_seen(ps: Seq<Packet>, i: int)
    requires
        0 <= i < ps.len(),
    ensures
        packet_views(ps).len() == ps.len(),
        packet_views(ps)[i].msg_type == ps[i].msg_type,
        packet_views(ps)[i].payload == ps[i].payload@,
{
}

} // verus!
