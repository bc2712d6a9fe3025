use alaric::secure::{
    generate_static_key, NoiseHandshake, SecureChannelError, MAX_TRANSPORT_PLAINTEXT,
    NOISE_HANDSHAKE_MSG_A_LEN, NOISE_HANDSHAKE_MSG_B_LEN, NOISE_HANDSHAKE_MSG_C_LEN,
};

fn tunnel() -> (alaric::secure::SecureChannel, alaric::secure::SecureChannel) {
    let initiator_key = generate_static_key().unwrap();
    let responder_key = generate_static_key().unwrap();
    let (initiator, msg_a) = NoiseHandshake::initiate(&initiator_key).unwrap();
    let (responder, msg_b) = NoiseHandshake::respond(&responder_key, &msg_a).unwrap();
    let (client, msg_c) = initiator.initiator_finish(&msg_b).unwrap();
    let agent = responder.responder_finish(&msg_c).unwrap();
    (client, agent)
}

#[test]
fn handshake_messages_have_exact_wire_lengths() {
    let initiator_key = generate_static_key().unwrap();
    let responder_key = generate_static_key().unwrap();
    assert_eq!(initiator_key.len(), 32);

    let (initiator, msg_a) = NoiseHandshake::initiate(&initiator_key).unwrap();
    assert_eq!(msg_a.len(), NOISE_HANDSHAKE_MSG_A_LEN);
    assert_eq!(msg_a.len(), 32);

    let (responder, msg_b) = NoiseHandshake::respond(&responder_key, &msg_a).unwrap();
    assert_eq!(msg_b.len(), NOISE_HANDSHAKE_MSG_B_LEN);
    assert_eq!(msg_b.len(), 96);

    let (client, msg_c) = initiator.initiator_finish(&msg_b).unwrap();
    assert_eq!(msg_c.len(), NOISE_HANDSHAKE_MSG_C_LEN);
    assert_eq!(msg_c.len(), 64);

    let agent = responder.responder_finish(&msg_c);
    assert!(agent.is_ok());
    drop(client);
}

#[test]
fn tunnel_carries_payloads_both_ways() {
    let (mut client, mut agent) = tunnel();

    let frame = client.send(b"hello-agent").unwrap();
    assert_eq!(frame.len(), 11 + 16);
    let received = agent.recv(&frame).expect("agent should receive encrypted client payload");
    assert_eq!(received, b"hello-agent");

    let frame = agent.send(b"hello-client").expect("agent should send encrypted response");
    let received = client.recv(&frame).unwrap();
    assert_eq!(received, b"hello-client");
}

#[test]
fn perturbed_handshake_lengths_are_refused_before_crypto() {
    let initiator_key = generate_static_key().unwrap();
    let responder_key = generate_static_key().unwrap();
    let (initiator, msg_a) = NoiseHandshake::initiate(&initiator_key).unwrap();

    let mut short_a = msg_a.clone();
    short_a.pop();
    match NoiseHandshake::respond(&responder_key, &short_a) {
        Err(SecureChannelError::InvalidHandshakeMessageLength { step, expected, got }) => {
            assert_eq!(step, "message_a");
            assert_eq!(expected, 32);
            assert_eq!(got, 31);
        }
        other => panic!("expected length refusal, got {:?}", other.map(|_| ())),
    }

    let mut long_a = msg_a.clone();
    long_a.push(0);
    assert!(matches!(
        NoiseHandshake::respond(&responder_key, &long_a),
        Err(SecureChannelError::InvalidHandshakeMessageLength { .. })
    ));

    let (_responder, msg_b) = NoiseHandshake::respond(&responder_key, &msg_a).unwrap();
    let mut long_b = msg_b.clone();
    long_b.push(0);
    match initiator.initiator_finish(&long_b) {
        Err(SecureChannelError::InvalidHandshakeMessageLength { step, expected, got }) => {
            assert_eq!(step, "message_b");
            assert_eq!(expected, 96);
            assert_eq!(got, 97);
        }
        other => panic!("expected length refusal, got {:?}", other.map(|_| ())),
    }
}

#[test]
fn perturbed_message_c_is_refused_before_crypto() {
    let initiator_key = generate_static_key().unwrap();
    let responder_key = generate_static_key().unwrap();
    let (initiator, msg_a) = NoiseHandshake::initiate(&initiator_key).unwrap();
    let (responder, msg_b) = NoiseHandshake::respond(&responder_key, &msg_a).unwrap();
    let (_client, msg_c) = initiator.initiator_finish(&msg_b).unwrap();

    let short_c = &msg_c[..63];
    match responder.responder_finish(short_c) {
        Err(SecureChannelError::InvalidHandshakeMessageLength { step, expected, got }) => {
            assert_eq!(step, "message_c");
            assert_eq!(expected, 64);
            assert_eq!(got, 63);
        }
        other => panic!("expected length refusal, got {:?}", other.map(|_| ())),
    }
}

#[test]
fn flipping_any_transport_byte_fails_decryption() {
    let (mut client, mut agent) = tunnel();
    let frame = client.send(b"hello-agent").unwrap();
    for i in 0..frame.len() {
        let mut tampered = frame.clone();
        tampered[i] ^= 0x01;
        assert!(
            matches!(agent.recv(&tampered), Err(SecureChannelError::Noise(_))),
            "byte {} flipped but decryption still succeeded",
            i
        );
    }
    // the untouched frame still decrypts: failures left the receive nonce alone
    assert_eq!(agent.recv(&frame).unwrap(), b"hello-agent");
}

#[test]
fn undersize_transport_frame_is_refused_before_decryption() {
    let (mut client, mut agent) = tunnel();
    drop(client);
    match agent.recv(&[0u8; 15]) {
        Err(SecureChannelError::TransportFrameTooSmall(n)) => assert_eq!(n, 15),
        other => panic!("expected TransportFrameTooSmall, got {:?}", other),
    }
}

#[test]
fn oversize_plaintext_is_refused_locally() {
    let (mut client, _agent) = tunnel();
    let plaintext = vec![0u8; MAX_TRANSPORT_PLAINTEXT + 1];
    match client.send(&plaintext) {
        Err(SecureChannelError::TransportMessageTooLarge(n)) => {
            assert_eq!(n, MAX_TRANSPORT_PLAINTEXT + 1)
        }
        other => panic!("expected TransportMessageTooLarge, got {:?}", other.map(|_| ())),
    }
}

#[test]
fn unfinished_handshake_cannot_enter_transport() {
    let key = generate_static_key().unwrap();
    let (initiator, _msg_a) = NoiseHandshake::initiate(&key).unwrap();
    assert!(matches!(
        alaric::secure::SecureChannel::from_transport_session(initiator),
        Err(SecureChannelError::HandshakeIncomplete)
    ));
}
