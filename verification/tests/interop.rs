//! Cross-checks the canonical encoder against an independent JSON
//! implementation: everything this library emits must be well-formed JSON
//! carrying the same values.

use alaric::handshake::{
    AuthRequest, HandshakeAccepted, HandshakeRejected, HandshakeRequest, HandshakeResponse,
    HandshakeErrorCode,
};
use alaric::ids::{AgentId, ClientId, SessionId};
use alaric::json::{encode_request, encode_response, parse_request};

#[test]
fn emitted_request_is_valid_json_with_the_same_values() {
    let request = HandshakeRequest::Client {
        protocol_version: 1,
        client_id: ClientId::new("client-route").unwrap(),
        target_agent_id: AgentId::new("agent-route").unwrap(),
        auth: Some(AuthRequest {
            method: String::from("bearer"),
            token: String::from("tok\"en\n\u{8}\u{c}\u{1f}\u{7f}h\u{e9}"),
        }),
        metadata: vec![(String::from("k\ty"), String::from("v\\al"))],
    };
    let bytes = encode_request(&request);
    let value: serde_json::Value = serde_json::from_slice(&bytes).expect("well-formed JSON");

    assert_eq!(value["role"], serde_json::Value::String(String::from("client")));
    assert_eq!(value["protocol_version"], serde_json::Value::from(1u64));
    assert_eq!(value["client_id"], serde_json::Value::String(String::from("client-route")));
    assert_eq!(
        value["target_agent_id"],
        serde_json::Value::String(String::from("agent-route"))
    );
    assert_eq!(value["auth"]["method"], serde_json::Value::String(String::from("bearer")));
    assert_eq!(
        value["auth"]["token"],
        serde_json::Value::String(String::from("tok\"en\n\u{8}\u{c}\u{1f}\u{7f}h\u{e9}"))
    );
    assert_eq!(value["metadata"]["k\ty"], serde_json::Value::String(String::from("v\\al")));
}

#[test]
fn escaping_matches_the_reference_serializer() {
    // the reference serializer's output for each escaped form
    let message = String::from("\" \\ \u{8} \t \n \u{c} \r \u{0} \u{1f} \u{7f} ok");
    let rejected = HandshakeResponse::Rejected(HandshakeRejected {
        protocol_version: 1,
        code: HandshakeErrorCode::InternalError,
        message: message.clone(),
    });
    let bytes = encode_response(&rejected);
    let reference = serde_json::to_string(&serde_json::Value::String(message)).unwrap();
    let ours = String::from_utf8(bytes.clone()).unwrap();
    assert!(
        ours.contains(reference.trim_matches('"')),
        "escaped message {:?} not found in {:?}",
        reference,
        ours
    );
    let value: serde_json::Value = serde_json::from_slice(&bytes).unwrap();
    assert_eq!(value["code"], serde_json::Value::String(String::from("internal_error")));
}

#[test]
fn reordered_fields_are_not_canonical() {
    // an independent serializer that sorts object keys produces the same
    // values in a different order; the canonical reader refuses that shape
    let request = HandshakeRequest::agent(AgentId::new("agent-route").unwrap());
    let bytes = encode_request(&request);
    let value: serde_json::Value = serde_json::from_slice(&bytes).unwrap();
    let sorted = serde_json::to_vec(&value).unwrap();
    assert_ne!(sorted, bytes);
    assert!(parse_request(&sorted).is_err());
}

#[test]
fn accepted_response_matches_reference_values() {
    let accepted = HandshakeResponse::Accepted(HandshakeAccepted {
        protocol_version: 1,
        session_id: SessionId(123456789012345678),
    });
    let bytes = encode_response(&accepted);
    let value: serde_json::Value = serde_json::from_slice(&bytes).unwrap();
    assert_eq!(value["status"], serde_json::Value::String(String::from("accepted")));
    assert_eq!(value["session_id"], serde_json::Value::from(123456789012345678u64));
}
