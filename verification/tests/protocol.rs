use bore_tunnel::codec::{
    decode_client, decode_server, encode_client, encode_client_line, encode_server,
    encode_server_line,
};
use bore_tunnel::frame::{FrameBuffer, FrameStep, MAX_FRAME_LEN};
use bore_tunnel::msg::{ClientMessage, ServerMessage, SessionId};

const SAMPLE_ID: u128 = 0x550e8400e29b41d4a716446655440000;

#[test]
fn encode_hello_exact() {
    let m = ClientMessage::Hello(9000);
    assert_eq!(encode_client(&m), b"{\"Hello\":9000}".to_vec());
    let s = ServerMessage::Hello(0);
    assert_eq!(encode_server(&s), b"{\"Hello\":0}".to_vec());
}

#[test]
fn encode_heartbeat_exact() {
    assert_eq!(encode_server(&ServerMessage::Heartbeat), b"\"Heartbeat\"".to_vec());
}

#[test]
fn encode_challenge_exact() {
    let m = ServerMessage::Challenge(SessionId::new(SAMPLE_ID));
    assert_eq!(
        encode_server(&m),
        b"{\"Challenge\":\"550e8400-e29b-41d4-a716-446655440000\"}".to_vec()
    );
}

#[test]
fn encode_accept_exact() {
    let m = ClientMessage::Accept(SessionId::new(SAMPLE_ID));
    assert_eq!(
        encode_client(&m),
        b"{\"Accept\":\"550e8400-e29b-41d4-a716-446655440000\"}".to_vec()
    );
}

#[test]
fn encode_error_escapes() {
    let m = ServerMessage::Error(String::from("say \"hi\"\\\nend"));
    assert_eq!(
        encode_server(&m),
        b"{\"Error\":\"say \\\"hi\\\"\\\\\\nend\"}".to_vec()
    );
}

#[test]
fn uuid_encoding_matches_uuid_crate() {
    let u = uuid::Uuid::new_v4();
    let m = ServerMessage::Connection(SessionId::new(u.as_u128()));
    let expected = format!("{{\"Connection\":\"{}\"}}", u);
    assert_eq!(encode_server(&m), expected.into_bytes());
}

#[test]
fn server_roundtrip_all_variants() {
    let msgs = vec![
        ServerMessage::Hello(0),
        ServerMessage::Hello(65535),
        ServerMessage::Challenge(SessionId::new(0)),
        ServerMessage::Challenge(SessionId::new(u128::MAX)),
        ServerMessage::Connection(SessionId::new(SAMPLE_ID)),
        ServerMessage::Heartbeat,
        ServerMessage::Error(String::new()),
        ServerMessage::Error(String::from("port not in range")),
        ServerMessage::Error(String::from("quotes \" and \\ and \t\r\n\u{1}")),
        ServerMessage::Error(String::from("unicode: héllo ≤ wörld")),
    ];
    for m in msgs {
        let line = encode_server(&m);
        assert_eq!(decode_server(&line), Some(m.clone()), "failed on {:?}", m);
    }
}

#[test]
fn client_roundtrip_all_variants() {
    let msgs = vec![
        ClientMessage::Hello(0),
        ClientMessage::Hello(7835),
        ClientMessage::Accept(SessionId::new(1)),
        ClientMessage::Authenticate(String::from(
            "2f4a1b0c9d8e7f60518293a4b5c6d7e8f90a1b2c3d4e5f60718293a4b5c6d7e8",
        )),
        ClientMessage::Authenticate(String::from("raw api key with spaces")),
    ];
    for m in msgs {
        let line = encode_client(&m);
        assert_eq!(decode_client(&line), Some(m.clone()), "failed on {:?}", m);
    }
}

#[test]
fn decode_rejects_malformed() {
    assert_eq!(decode_server(b""), None);
    assert_eq!(decode_server(b"garbage"), None);
    assert_eq!(decode_server(b"{\"Hello\":}"), None);
    assert_eq!(decode_server(b"{\"Hello\":65536}"), None);
    assert_eq!(decode_server(b"{\"Hello\":123456}"), None);
    assert_eq!(decode_server(b"{\"Nonsense\":1}"), None);
    assert_eq!(decode_server(b"{\"Challenge\":\"not-a-uuid\"}"), None);
    assert_eq!(
        decode_server(b"{\"Challenge\":\"550e8400e29b41d4a716446655440000\"}"),
        None
    );
    assert_eq!(decode_server(b"{\"Error\":\"unterminated}"), None);
    assert_eq!(decode_server(b"\"Heartbeat\" "), None);
    assert_eq!(decode_client(b"{\"Accept\":1}"), None);
}

#[test]
fn decode_accepts_uppercase_uuid() {
    let line = b"{\"Connection\":\"550E8400-E29B-41D4-A716-446655440000\"}";
    assert_eq!(
        decode_server(line),
        Some(ServerMessage::Connection(SessionId::new(SAMPLE_ID)))
    );
}

#[test]
fn encoded_line_ends_with_newline() {
    let l = encode_server_line(&ServerMessage::Heartbeat);
    assert_eq!(l, b"\"Heartbeat\"\n".to_vec());
    let l = encode_client_line(&ClientMessage::Hello(1));
    assert_eq!(*l.last().unwrap(), b'\n');
}

#[test]
fn framing_splits_lines() {
    let mut fb = FrameBuffer::new();
    fb.feed(b"{\"Hello\":1}\n\"Heart");
    assert_eq!(fb.next_frame(), FrameStep::Frame(b"{\"Hello\":1}".to_vec()));
    assert_eq!(fb.next_frame(), FrameStep::NeedMore);
    fb.feed(b"beat\"\nrest");
    assert_eq!(fb.next_frame(), FrameStep::Frame(b"\"Heartbeat\"".to_vec()));
    assert_eq!(fb.next_frame(), FrameStep::NeedMore);
    assert_eq!(fb.into_rest(), b"rest".to_vec());
}

#[test]
fn framing_overflow() {
    let mut fb = FrameBuffer::new();
    let big = vec![b'x'; MAX_FRAME_LEN + 1];
    fb.feed(&big);
    assert_eq!(fb.next_frame(), FrameStep::Overflow);
    fb.feed(b"\n");
    match fb.next_frame() {
        FrameStep::Frame(f) => assert_eq!(f.len(), MAX_FRAME_LEN + 1),
        other => panic!("expected a frame, got {:?}", other),
    }
}

#[test]
fn framing_keeps_buffered_prefix() {
    let mut fb = FrameBuffer::new();
    fb.feed(b"{\"Hello\":2}\napplication bytes");
    assert_eq!(fb.next_frame(), FrameStep::Frame(b"{\"Hello\":2}".to_vec()));
    assert_eq!(fb.into_rest(), b"application bytes".to_vec());
}

#[test]
fn framed_stream_of_messages_decodes_in_order() {
    // Two encoded lines arrive interleaved in arbitrary chunks; the
    // escaping keeps embedded newlines out of the wire, so framing
    // recovers exactly the two messages.
    let m1 = ServerMessage::Error(String::from("line one\nline two"));
    let m2 = ServerMessage::Connection(SessionId::new(SAMPLE_ID));
    let mut wire = encode_server_line(&m1);
    wire.extend_from_slice(&encode_server_line(&m2));

    let mut fb = FrameBuffer::new();
    let mut decoded = Vec::new();
    for chunk in wire.chunks(3) {
        fb.feed(chunk);
        loop {
            match fb.next_frame() {
                FrameStep::Frame(line) => decoded.push(decode_server(&line).unwrap()),
                FrameStep::NeedMore => break,
                FrameStep::Overflow => panic!("unexpected overflow"),
            }
        }
    }
    assert_eq!(decoded, vec![m1, m2]);
}
