use mneme::protocol::{
    chunk_packets, decode, parse_header, replay_packets, ClientFlags, FrameError, Header, Hello,
    Intent, MsgType, Packet, Welcome, HEADER_SIZE, MAX_PAYLOAD, PROTOCOL_VERSION,
};

/// The packet that comes out of the bytes of a packet, all of which it must take.
fn over_the_wire(pkt: &Packet) -> Packet {
    let bytes = pkt.encode();
    let (got, used) = decode(&bytes).unwrap().unwrap();
    assert_eq!(used, bytes.len());
    got
}

fn raw_packet(msg_type: u8, payload: &[u8]) -> Vec<u8> {
    let mut buf = vec![msg_type];
    buf.extend_from_slice(&(payload.len() as u16).to_le_bytes());
    buf.extend_from_slice(payload);
    buf
}

#[test]
fn roundtrip_hello() {
    let hello = Hello {
        version: PROTOCOL_VERSION,
        intent: Intent::Attach,
        flags: ClientFlags::with_readonly(),
        rows: 24,
        cols: 80,
    };
    let pkt = Packet::hello(&hello);
    let got = over_the_wire(&pkt);
    let parsed = got.parse_hello().unwrap();
    assert_eq!(parsed.version, PROTOCOL_VERSION);
    assert_eq!(parsed.intent, Intent::Attach);
    assert_eq!(parsed.flags, ClientFlags::with_readonly());
    assert_eq!(parsed.rows, 24);
    assert_eq!(parsed.cols, 80);
}

#[test]
fn roundtrip_welcome() {
    let w = Welcome {
        version: PROTOCOL_VERSION,
        server_pid: 1234,
        child_pid: 1235,
        child_running: true,
        exit_status: 0,
        client_count: 2,
        ring_size: 1048576,
        ring_used: 4200,
    };
    let pkt = Packet::welcome(&w);
    let got = over_the_wire(&pkt);
    let parsed = got.parse_welcome().unwrap();
    assert_eq!(parsed.server_pid, 1234);
    assert_eq!(parsed.child_pid, 1235);
    assert!(parsed.child_running);
    assert_eq!(parsed.ring_size, 1048576);
    assert_eq!(parsed.ring_used, 4200);
    assert_eq!(parsed, w);
}

#[test]
fn roundtrip_content() {
    let data = b"hello world";
    let pkt = Packet::content(data);
    let got = over_the_wire(&pkt);
    assert_eq!(got.msg_type, MsgType::Content);
    assert_eq!(got.payload, data);
}

#[test]
fn roundtrip_empty_messages() {
    for msg_type in [MsgType::ResizeReq, MsgType::Detach, MsgType::ReplayEnd] {
        let pkt = Packet::empty(msg_type);
        let got = over_the_wire(&pkt);
        assert_eq!(got.msg_type, msg_type);
        assert!(got.payload.is_empty());
    }
}

#[test]
fn roundtrip_resize() {
    let pkt = Packet::resize(50, 120);
    let got = over_the_wire(&pkt);
    let (rows, cols) = got.parse_resize().unwrap();
    assert_eq!(rows, 50);
    assert_eq!(cols, 120);
}

#[test]
fn roundtrip_exit() {
    let pkt = Packet::exit(42);
    let got = over_the_wire(&pkt);
    assert_eq!(got.parse_exit_status().unwrap(), 42);
}

#[test]
fn max_payload() {
    let data = vec![0xAB; MAX_PAYLOAD];
    let pkt = Packet::content(&data);
    let got = over_the_wire(&pkt);
    assert_eq!(got.payload.len(), MAX_PAYLOAD);
}

#[test]
fn unknown_message_type_rejected() {
    assert!(mneme::protocol::MsgType::from_u8(255).is_none());
    assert!(mneme::protocol::MsgType::from_u8(10).is_none());
    assert!(mneme::protocol::MsgType::from_u8(99).is_none());
}

#[test]
fn invalid_intent_rejected() {
    assert!(mneme::protocol::Intent::from_u8(2).is_none());
    assert!(mneme::protocol::Intent::from_u8(255).is_none());
}

#[test]
fn parse_hello_too_short() {
    let pkt = mneme::protocol::Packet::new(mneme::protocol::MsgType::Hello, vec![1, 2, 3]);
    assert!(pkt.parse_hello().is_none(), "should reject short payload");
}

#[test]
fn parse_welcome_too_short() {
    let pkt = mneme::protocol::Packet::new(mneme::protocol::MsgType::Welcome, vec![1; 10]);
    assert!(pkt.parse_welcome().is_none(), "should reject short payload");
}

#[test]
fn parse_resize_too_short() {
    let pkt = mneme::protocol::Packet::new(mneme::protocol::MsgType::Resize, vec![1, 2]);
    assert!(pkt.parse_resize().is_none(), "should reject short payload");
}

#[test]
fn parse_exit_too_short() {
    let pkt = mneme::protocol::Packet::new(mneme::protocol::MsgType::Exit, vec![1]);
    assert!(
        pkt.parse_exit_status().is_none(),
        "should reject short payload"
    );
}

#[test]
fn parse_wrong_type_returns_none() {
    let pkt = mneme::protocol::Packet::content(b"hello");
    assert!(pkt.parse_hello().is_none());
    assert!(pkt.parse_welcome().is_none());
    assert!(pkt.parse_resize().is_none());
    assert!(pkt.parse_exit_status().is_none());
    assert!(pkt.parse_error().is_none());
}

#[test]
fn recv_packet_rejects_unknown_type() {
    let bad = raw_packet(99, b"hello");
    let result = decode(&bad);
    assert!(result.is_err(), "should reject unknown type");
    assert_eq!(result.err().unwrap(), FrameError::UnknownType);
    assert_eq!(FrameError::UnknownType.message(), "unknown message type");
}

#[test]
fn recv_packet_rejects_oversized_payload() {
    let mut header = vec![3u8];
    header.extend_from_slice(&65535u16.to_le_bytes());
    let result = decode(&header);
    assert!(result.is_err(), "should reject oversized payload");
    assert_eq!(result.err().unwrap(), FrameError::PayloadTooLarge);
    assert_eq!(FrameError::PayloadTooLarge.message(), "payload too large");
}

#[test]
fn resize_roundtrip_zero() {
    let pkt = mneme::protocol::Packet::resize(0, 0);
    let (rows, cols) = over_the_wire(&pkt).parse_resize().unwrap();
    assert_eq!((rows, cols), (0, 0));
}

#[test]
fn resize_roundtrip_one() {
    let pkt = mneme::protocol::Packet::resize(1, 1);
    let (rows, cols) = over_the_wire(&pkt).parse_resize().unwrap();
    assert_eq!((rows, cols), (1, 1));
}

#[test]
fn resize_roundtrip_max_u16() {
    let pkt = mneme::protocol::Packet::resize(u16::MAX, u16::MAX);
    let (rows, cols) = over_the_wire(&pkt).parse_resize().unwrap();
    assert_eq!((rows, cols), (u16::MAX, u16::MAX));
}

#[test]
fn resize_roundtrip_asymmetric() {
    let pkt = mneme::protocol::Packet::resize(1, 999);
    let (rows, cols) = over_the_wire(&pkt).parse_resize().unwrap();
    assert_eq!(rows, 1, "rows should be 1");
    assert_eq!(cols, 999, "cols should be 999");
}

#[test]
fn resize_extra_payload_bytes_ignored() {
    // A Resize packet with extra trailing bytes should still parse the first 4
    let mut payload = vec![0u8; 8];
    payload[0..2].copy_from_slice(&50u16.to_le_bytes());
    payload[2..4].copy_from_slice(&120u16.to_le_bytes());
    payload[4..8].copy_from_slice(&[0xFF, 0xFF, 0xFF, 0xFF]); // extra junk
    let pkt = mneme::protocol::Packet::new(mneme::protocol::MsgType::Resize, payload);
    let (rows, cols) = pkt.parse_resize().unwrap();
    assert_eq!((rows, cols), (50, 120));
}

#[test]
fn type_bytes_are_the_documented_ones() {
    let all = [
        MsgType::Hello,
        MsgType::Welcome,
        MsgType::Error,
        MsgType::Content,
        MsgType::Resize,
        MsgType::ResizeReq,
        MsgType::Detach,
        MsgType::Exit,
        MsgType::Replay,
        MsgType::ReplayEnd,
    ];
    for (i, t) in all.iter().enumerate() {
        assert_eq!(t.to_u8() as usize, i);
        assert_eq!(MsgType::from_u8(i as u8), Some(*t));
    }
    assert_eq!(Intent::Query.to_u8(), 0);
    assert_eq!(Intent::Attach.to_u8(), 1);
    assert_eq!(Intent::from_u8(1), Some(Intent::Attach));
}

#[test]
fn flag_words() {
    assert_eq!(ClientFlags::empty().bits(), 0);
    assert_eq!(ClientFlags::with_readonly().bits(), 1);
    assert_eq!(ClientFlags::with_low_priority().bits(), 2);
    let both = ClientFlags::with_readonly().union(ClientFlags::with_low_priority());
    assert_eq!(both.bits(), 3);
    assert!(both.contains(ClientFlags::with_readonly()));
    assert!(both.contains(ClientFlags::empty()));
    assert!(!ClientFlags::with_readonly().contains(both));
    assert_eq!(ClientFlags::from_bits_truncate(0xfffe), ClientFlags::with_low_priority());
    assert_eq!(ClientFlags::from_bits_truncate(0xfffd), ClientFlags::with_readonly());
}

#[test]
fn hello_bytes_on_the_wire() {
    let hello = Hello {
        version: 1,
        intent: Intent::Attach,
        flags: ClientFlags::with_low_priority(),
        rows: 0x0102,
        cols: 0x0304,
    };
    assert_eq!(
        Packet::hello(&hello).encode(),
        vec![0, 8, 0, 1, 1, 2, 0, 0x02, 0x01, 0x04, 0x03]
    );
}

#[test]
fn welcome_bytes_on_the_wire() {
    let w = Welcome {
        version: 1,
        server_pid: 0x01020304,
        child_pid: 0x05060708,
        child_running: false,
        exit_status: 9,
        client_count: 0x0a0b,
        ring_size: 0x0c0d0e0f,
        ring_used: 0x10111213,
    };
    assert_eq!(
        Packet::welcome(&w).payload,
        vec![
            1, 4, 3, 2, 1, 8, 7, 6, 5, 0, 9, 0x0b, 0x0a, 0x0f, 0x0e, 0x0d, 0x0c, 0x13, 0x12, 0x11,
            0x10
        ]
    );
}

#[test]
fn error_text_survives() {
    let pkt = Packet::error("gr\u{fc}\u{df}e \u{1f980}");
    assert_eq!(pkt.msg_type, MsgType::Error);
    assert_eq!(over_the_wire(&pkt).parse_error().unwrap(), "gr\u{fc}\u{df}e \u{1f980}");
}

#[test]
fn error_that_is_not_utf8_has_no_text() {
    let pkt = Packet::new(MsgType::Error, vec![0x66, 0xff, 0x6f]);
    assert!(pkt.parse_error().is_none());
    let cut = Packet::new(MsgType::Error, vec![0xe2, 0x82]);
    assert!(cut.parse_error().is_none());
    let surrogate = Packet::new(MsgType::Error, vec![0xed, 0xa0, 0x80]);
    assert!(surrogate.parse_error().is_none());
}

#[test]
fn unknown_intent_makes_no_hello() {
    let mut payload = vec![0u8; 8];
    payload[0] = PROTOCOL_VERSION;
    payload[1] = 99;
    let (pkt, _) = decode(&raw_packet(0, &payload)).unwrap().unwrap();
    assert!(pkt.parse_hello().is_none());
}

#[test]
fn headers() {
    assert_eq!(
        parse_header(&[3, 0xfd, 0x0f]),
        Ok(Header { msg_type: MsgType::Content, len: MAX_PAYLOAD })
    );
    assert_eq!(parse_header(&[3, 0xfe, 0x0f]), Err(FrameError::PayloadTooLarge));
    assert_eq!(parse_header(&[10, 0xff, 0xff]), Err(FrameError::UnknownType));
    assert_eq!(HEADER_SIZE, 3);
}

#[test]
fn incomplete_packets_ask_for_more() {
    let bytes = Packet::content(b"abc").encode();
    for n in 0..bytes.len() {
        assert!(decode(&bytes[..n]).unwrap().is_none(), "{n} bytes");
    }
    assert!(decode(&bytes).unwrap().is_some());
}

#[test]
fn a_stream_gives_back_its_packets() {
    let sent = [
        Packet::content(b"one"),
        Packet::empty(MsgType::Detach),
        Packet::exit(7),
        Packet::resize(3, 4),
    ];
    let mut stream: Vec<u8> = Vec::new();
    for p in &sent {
        stream.extend_from_slice(&p.encode());
    }
    let mut at = 0;
    for p in &sent {
        let (got, used) = decode(&stream[at..]).unwrap().unwrap();
        assert_eq!(got.msg_type, p.msg_type);
        assert_eq!(got.payload, p.payload);
        at += used;
    }
    assert_eq!(at, stream.len());
}

#[test]
fn chunks_cover_the_data() {
    for n in [0usize, 1, MAX_PAYLOAD - 1, MAX_PAYLOAD, MAX_PAYLOAD + 1, 3 * MAX_PAYLOAD + 5] {
        let data: Vec<u8> = (0..n).map(|i| (i % 251) as u8).collect();
        let packets = chunk_packets(MsgType::Content, &data);
        let mut all: Vec<u8> = Vec::new();
        for p in &packets {
            assert_eq!(p.msg_type, MsgType::Content);
            assert!(!p.payload.is_empty() && p.payload.len() <= MAX_PAYLOAD);
            all.extend_from_slice(&p.payload);
        }
        assert_eq!(all, data);
        assert_eq!(packets.len(), (n + MAX_PAYLOAD - 1) / MAX_PAYLOAD);
    }
}

#[test]
fn replay_ends_with_its_mark() {
    let packets = replay_packets(&vec![b'X'; 8192]);
    assert_eq!(packets.len(), 4);
    assert_eq!(packets[0].payload.len(), 4093);
    assert_eq!(packets[1].payload.len(), 4093);
    assert_eq!(packets[2].payload.len(), 6);
    assert!(packets[..3].iter().all(|p| p.msg_type == MsgType::Replay));
    assert_eq!(packets[3].msg_type, MsgType::ReplayEnd);
    assert!(packets[3].payload.is_empty());
}

#[test]
fn empty_recording_is_only_the_mark() {
    let packets = replay_packets(b"");
    assert_eq!(packets.len(), 1);
    assert_eq!(packets[0].msg_type, MsgType::ReplayEnd);
}

#[test]
fn a_clone_of_a_packet_is_the_packet() {
    let p = Packet::replay(b"xyz");
    let q = p.clone();
    assert_eq!(q.msg_type, MsgType::Replay);
    assert_eq!(q.payload, b"xyz");
}

#[test]
fn packets_read_in_two_parts() {
    let bytes = Packet::content(b"abc").encode();
    let h = parse_header(&bytes[..HEADER_SIZE]).unwrap();
    assert_eq!(h.len, 3);
    let (p, n) = decode(&bytes).unwrap().unwrap();
    assert_eq!((p.msg_type, p.payload, n), (h.msg_type, b"abc".to_vec(), 6));
    let refused = [9u8, 0xfe, 0x0f];
    assert_eq!(parse_header(&refused).unwrap_err(), FrameError::PayloadTooLarge);
    assert_eq!(decode(&refused).unwrap_err(), FrameError::PayloadTooLarge);
}
