use alaric::framing::{decode_frame, encode_frame, parse_frame_header, ProtocolError};
use alaric::handshake::{
    AuthRequest, HandshakeAccepted, HandshakeErrorCode, HandshakeRejected, HandshakeRequest,
    HandshakeResponse,
};
use alaric::ids::{AgentId, ClientId, SessionId};
use alaric::json::{encode_request, encode_response, parse_request, parse_response};
use alaric::MAX_FRAME_BYTES;

#[test]
fn frame_round_trip_small_payload() {
    let frame = encode_frame(b"abc").unwrap();
    assert_eq!(frame, vec![0, 0, 0, 3, b'a', b'b', b'c']);
    assert_eq!(decode_frame(&frame).unwrap(), b"abc".to_vec());
}

#[test]
fn frame_round_trip_empty_and_max_payload() {
    let frame = encode_frame(b"").unwrap();
    assert_eq!(frame, vec![0, 0, 0, 0]);
    assert_eq!(decode_frame(&frame).unwrap(), Vec::<u8>::new());

    let payload = vec![0xabu8; MAX_FRAME_BYTES];
    let frame = encode_frame(&payload).unwrap();
    assert_eq!(frame.len(), MAX_FRAME_BYTES + 4);
    assert_eq!(&frame[..4], &[0, 1, 0, 0]);
    assert_eq!(decode_frame(&frame).unwrap(), payload);
}

#[test]
fn frame_writer_refuses_oversize_payload() {
    let payload = vec![0u8; MAX_FRAME_BYTES + 1];
    match encode_frame(&payload) {
        Err(ProtocolError::FrameTooLarge(n)) => assert_eq!(n, MAX_FRAME_BYTES + 1),
        other => panic!("expected FrameTooLarge, got {:?}", other),
    }
}

#[test]
fn frame_reader_refuses_oversize_header() {
    // header announcing 65537 bytes
    match parse_frame_header(0, 1, 0, 1) {
        Err(ProtocolError::FrameTooLarge(n)) => assert_eq!(n, 65537),
        other => panic!("expected FrameTooLarge, got {:?}", other),
    }
    assert_eq!(parse_frame_header(0, 0, 1, 2).unwrap(), 258);
}

#[test]
fn frame_reader_refuses_inconsistent_buffer() {
    assert!(decode_frame(&[0, 0, 0]).is_err());
    assert!(decode_frame(&[0, 0, 0, 2, 7]).is_err());
    assert!(decode_frame(&[0, 0, 0, 1, 7, 8]).is_err());
}

#[test]
fn request_encoding_is_canonical_json_bytes() {
    let request = HandshakeRequest::agent(AgentId::new("agent-main").unwrap());
    let bytes = encode_request(&request);
    assert_eq!(
        bytes,
        br#"{"role":"agent","protocol_version":1,"agent_id":"agent-main","auth":null,"metadata":{}}"#
    );
}

#[test]
fn client_request_encoding_is_canonical_json_bytes() {
    let request = HandshakeRequest::client(
        ClientId::new("client-route").unwrap(),
        AgentId::new("agent-route").unwrap(),
    );
    let bytes = encode_request(&request);
    assert_eq!(
        bytes,
        br#"{"role":"client","protocol_version":1,"client_id":"client-route","target_agent_id":"agent-route","auth":null,"metadata":{}}"#
    );
}

#[test]
fn response_encoding_is_canonical_json_bytes() {
    let accepted = HandshakeResponse::Accepted(HandshakeAccepted {
        protocol_version: 1,
        session_id: SessionId(7),
    });
    assert_eq!(
        encode_response(&accepted),
        br#"{"status":"accepted","protocol_version":1,"session_id":7}"#
    );

    let rejected = HandshakeResponse::Rejected(HandshakeRejected {
        protocol_version: 1,
        code: HandshakeErrorCode::AgentIdInUse,
        message: String::from("taken"),
    });
    assert_eq!(
        encode_response(&rejected),
        br#"{"status":"rejected","protocol_version":1,"code":"agent_id_in_use","message":"taken"}"#
    );
}

#[test]
fn request_json_round_trip_plain() {
    let request = HandshakeRequest::agent(AgentId::new("agent-route").unwrap());
    let parsed = parse_request(&encode_request(&request)).unwrap();
    assert_eq!(parsed, request);
}

#[test]
fn request_json_round_trip_with_auth_and_metadata() {
    let request = HandshakeRequest::Client {
        protocol_version: 1,
        client_id: ClientId::new("client-a").unwrap(),
        target_agent_id: AgentId::new("agent-b").unwrap(),
        auth: Some(AuthRequest {
            method: String::from("token"),
            token: String::from("SECRET-REDACTED"),
        }),
        metadata: vec![
            (String::from("h\u{e9}llo"), String::from("wor\\ld\t\u{1}")),
            (String::from("region"), String::from("eu-\"west\"\n")),
        ],
    };
    let bytes = encode_request(&request);
    let parsed = parse_request(&bytes).unwrap();
    assert_eq!(parsed, request);
}

#[test]
fn response_json_round_trip_every_code() {
    let codes = [
        HandshakeErrorCode::UnsupportedProtocolVersion,
        HandshakeErrorCode::InvalidRequest,
        HandshakeErrorCode::AgentIdInUse,
        HandshakeErrorCode::AgentUnavailable,
        HandshakeErrorCode::Unauthorized,
        HandshakeErrorCode::InternalError,
    ];
    for code in codes {
        let response = HandshakeResponse::Rejected(HandshakeRejected {
            protocol_version: 1,
            code,
            message: String::from("why: \"so\"\r\n"),
        });
        let parsed = parse_response(&encode_response(&response)).unwrap();
        assert_eq!(parsed, response);
    }
    let accepted = HandshakeResponse::Accepted(HandshakeAccepted {
        protocol_version: 1,
        session_id: SessionId(u64::MAX),
    });
    assert_eq!(parse_response(&encode_response(&accepted)).unwrap(), accepted);
}

#[test]
fn parser_rejects_malformed_and_invalid_ids() {
    assert!(parse_request(b"").is_err());
    assert!(parse_request(b"{}").is_err());
    assert!(parse_request(b"not json at all").is_err());
    // an id with a space never parses
    assert!(parse_request(
        br#"{"role":"agent","protocol_version":1,"agent_id":"agent id","auth":null,"metadata":{}}"#
    )
    .is_err());
    // trailing garbage is refused
    assert!(parse_request(
        br#"{"role":"agent","protocol_version":1,"agent_id":"agent-main","auth":null,"metadata":{}}x"#
    )
    .is_err());
}

#[test]
fn frame_and_json_compose() {
    let request = HandshakeRequest::agent(AgentId::new("agent-route").unwrap());
    let frame = encode_frame(&encode_request(&request)).unwrap();
    let payload = decode_frame(&frame).unwrap();
    assert_eq!(parse_request(&payload).unwrap(), request);
}

#[test]
fn error_descriptions_carry_the_numbers() {
    assert_eq!(
        ProtocolError::FrameTooLarge(65537).describe(),
        "frame is 65537 bytes, above configured maximum 65536"
    );
    let err = alaric::secure::SecureChannelError::InvalidHandshakeMessageLength {
        step: "message_b",
        expected: 96,
        got: 97,
    };
    assert_eq!(
        err.describe(),
        "invalid Noise XX message length at message_b: expected 96 bytes, got 97"
    );
    assert_eq!(alaric::json::decimal_string(0), "0");
    assert_eq!(alaric::json::decimal_string(10), "10");
    assert_eq!(alaric::json::decimal_string(u64::MAX), "18446744073709551615");
}

#[test]
fn frame_header_boundary_is_accepted() {
    // exactly MAX_FRAME_BYTES announced: 0x00010000
    assert_eq!(parse_frame_header(0, 1, 0, 0).unwrap(), MAX_FRAME_BYTES);
}

#[test]
fn request_json_round_trip_boundary_values() {
    // largest version, empty-string metadata entry, empty auth fields
    let request = HandshakeRequest::Agent {
        protocol_version: 65535,
        agent_id: AgentId::new("a.b").unwrap(),
        auth: Some(AuthRequest {
            method: String::new(),
            token: String::new(),
        }),
        metadata: vec![(String::new(), String::new())],
    };
    let parsed = parse_request(&encode_request(&request)).unwrap();
    assert_eq!(parsed, request);
}

#[test]
fn parser_rejects_unknown_code_and_bad_numbers() {
    assert!(parse_response(
        br#"{"status":"rejected","protocol_version":1,"code":"no_such_code","message":"m"}"#
    )
    .is_err());
    // version above u16 range
    assert!(parse_request(
        br#"{"role":"agent","protocol_version":65536,"agent_id":"agent-main","auth":null,"metadata":{}}"#
    )
    .is_err());
    // non-canonical number spelling is refused
    assert!(parse_request(
        br#"{"role":"agent","protocol_version":01,"agent_id":"agent-main","auth":null,"metadata":{}}"#
    )
    .is_err());
}

#[test]
fn metadata_keys_must_strictly_ascend() {
    // the reader refuses out-of-order and duplicate keys: the map's sorted,
    // unique iteration order is part of the wire form
    let unsorted = HandshakeRequest::Client {
        protocol_version: 1,
        client_id: ClientId::new("client-a").unwrap(),
        target_agent_id: AgentId::new("agent-b").unwrap(),
        auth: None,
        metadata: vec![
            (String::from("zone"), String::from("1")),
            (String::from("area"), String::from("2")),
        ],
    };
    assert!(parse_request(&encode_request(&unsorted)).is_err());

    let duplicate = HandshakeRequest::Client {
        protocol_version: 1,
        client_id: ClientId::new("client-a").unwrap(),
        target_agent_id: AgentId::new("agent-b").unwrap(),
        auth: None,
        metadata: vec![
            (String::from("zone"), String::from("1")),
            (String::from("zone"), String::from("2")),
        ],
    };
    assert!(parse_request(&encode_request(&duplicate)).is_err());

    let sorted = HandshakeRequest::Client {
        protocol_version: 1,
        client_id: ClientId::new("client-a").unwrap(),
        target_agent_id: AgentId::new("agent-b").unwrap(),
        auth: None,
        metadata: vec![
            (String::from("area"), String::from("2")),
            (String::from("zone"), String::from("1")),
        ],
    };
    assert_eq!(parse_request(&encode_request(&sorted)).unwrap(), sorted);
}
