use alaric::handshake::HandshakeRequest;
use alaric::ids::{AgentId, ClientId};

#[test]
fn agent_id_validation_rejects_invalid_chars() {
    assert!(AgentId::new("agent id").is_err());
}

#[test]
fn client_id_validation_accepts_valid_chars() {
    assert!(ClientId::new("client_001.prod").is_ok());
}

#[test]
fn handshake_helpers_set_expected_role() {
    let agent_id = AgentId::new("agent-main").expect("valid agent id");
    let request = HandshakeRequest::agent(agent_id);
    assert_eq!(request.role().as_str(), "agent");
}

#[test]
fn mod_agent_id_validation_rejects_invalid_chars() {
    assert!(AgentId::new("agent id").is_err());
}

#[test]
fn mod_client_id_validation_accepts_valid_chars() {
    assert!(ClientId::new("client_001.prod").is_ok());
}

#[test]
fn mod_handshake_helpers_set_expected_role() {
    let agent_id = AgentId::new("agent-main").expect("valid agent id");
    let request = HandshakeRequest::agent(agent_id);
    assert_eq!(request.role().as_str(), "agent");
}

#[test]
fn id_length_bounds() {
    assert!(AgentId::new("ab").is_err());
    assert!(AgentId::new("abc").is_ok());
    let long: String = "a".repeat(64);
    assert!(AgentId::new(&long).is_ok());
    let too_long: String = "a".repeat(65);
    assert!(AgentId::new(&too_long).is_err());
    assert!(AgentId::new("").is_err());
}

#[test]
fn id_character_set() {
    assert!(AgentId::new("Agent-0_9.z").is_ok());
    assert!(AgentId::new("agent/route").is_err());
    assert!(AgentId::new("ag\u{e9}nt").is_err());
    assert!(ClientId::new("client:1").is_err());
}

#[test]
fn accessors_report_request_fields() {
    let request = HandshakeRequest::client(
        ClientId::new("client-route").unwrap(),
        AgentId::new("agent-route").unwrap(),
    );
    assert_eq!(request.protocol_version(), 1);
    assert_eq!(request.role().as_str(), "client");
    assert_eq!(alaric::PROTOCOL_VERSION, 1);
}

#[test]
fn id_as_str_round_trips() {
    let id = AgentId::new("agent-route").unwrap();
    assert_eq!(id.as_str(), "agent-route");
    let cid = ClientId::new("client-route").unwrap();
    assert_eq!(cid.as_str(), "client-route");
}
