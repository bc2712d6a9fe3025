use alaric::handshake::{HandshakeErrorCode, HandshakeRequest, HandshakeResponse};
use alaric::ids::{AgentId, ClientId, SessionId};
use alaric::server::{process_handshake, HandshakeDecision, ServerState};

fn agent_request(id: &str) -> HandshakeRequest {
    HandshakeRequest::agent(AgentId::new(id).unwrap())
}

fn client_request(client: &str, target: &str) -> HandshakeRequest {
    HandshakeRequest::client(ClientId::new(client).unwrap(), AgentId::new(target).unwrap())
}

#[test]
fn happy_path_pairs_client_with_agent() {
    let mut state = ServerState::new();

    let decision = process_handshake(&mut state, agent_request("agent-route"), 41);
    match decision {
        HandshakeDecision::AcceptAgent { accepted } => {
            assert_eq!(accepted.protocol_version, 1);
            assert_eq!(accepted.session_id, SessionId(1));
        }
        _ => panic!("agent should be accepted"),
    }
    assert!(state.contains_agent(&AgentId::new("agent-route").unwrap()));

    let decision = process_handshake(&mut state, client_request("client-route", "agent-route"), 42);
    match decision {
        HandshakeDecision::AcceptClient { accepted, waiter } => {
            assert_eq!(accepted.session_id, SessionId(2));
            assert_eq!(waiter, 41);
        }
        _ => panic!("client should be paired"),
    }
    // the slot was consumed by the claim: no replay without re-registration
    assert!(!state.contains_agent(&AgentId::new("agent-route").unwrap()));
}

#[test]
fn unsupported_version_is_rejected() {
    let mut state = ServerState::new();
    let request = HandshakeRequest::Agent {
        protocol_version: 2,
        agent_id: AgentId::new("agent-bad-version").unwrap(),
        auth: None,
        metadata: Vec::new(),
    };
    match process_handshake(&mut state, request, 1) {
        HandshakeDecision::Reject(rejected) => {
            assert_eq!(rejected.code, HandshakeErrorCode::UnsupportedProtocolVersion);
        }
        _ => panic!("expected handshake rejection"),
    }
    // a rejected handshake neither registers nor burns a session id
    assert!(!state.contains_agent(&AgentId::new("agent-bad-version").unwrap()));
    match process_handshake(&mut state, agent_request("agent-ok"), 1) {
        HandshakeDecision::AcceptAgent { accepted } => assert_eq!(accepted.session_id, SessionId(1)),
        _ => panic!("agent should be accepted"),
    }
}

#[test]
fn duplicate_agent_id_is_rejected_first_come_first_served() {
    let mut state = ServerState::new();
    assert!(matches!(
        process_handshake(&mut state, agent_request("agent-dup"), 7),
        HandshakeDecision::AcceptAgent { .. }
    ));
    match process_handshake(&mut state, agent_request("agent-dup"), 8) {
        HandshakeDecision::Reject(rejected) => {
            assert_eq!(rejected.code, HandshakeErrorCode::AgentIdInUse);
        }
        _ => panic!("expected duplicate agent rejection"),
    }
    // the first registration still holds its slot, under its own waiter
    match process_handshake(&mut state, client_request("client-x", "agent-dup"), 9) {
        HandshakeDecision::AcceptClient { waiter, .. } => assert_eq!(waiter, 7),
        _ => panic!("client should claim the first registration"),
    }
}

#[test]
fn missing_target_agent_is_rejected() {
    let mut state = ServerState::new();
    match process_handshake(&mut state, client_request("client-missing", "agent-not-online"), 3) {
        HandshakeDecision::Reject(rejected) => {
            assert_eq!(rejected.code, HandshakeErrorCode::AgentUnavailable);
        }
        _ => panic!("expected unavailable-agent rejection"),
    }
}

#[test]
fn session_ids_observed_in_accepts_strictly_increase() {
    let mut state = ServerState::new();
    let mut last: u64 = 0;
    for (i, name) in ["agent-a", "agent-b", "agent-c"].iter().enumerate() {
        match process_handshake(&mut state, agent_request(name), i as u64) {
            HandshakeDecision::AcceptAgent { accepted } => {
                assert!(accepted.session_id.0 > last);
                last = accepted.session_id.0;
            }
            _ => panic!("agent should be accepted"),
        }
    }
    match process_handshake(&mut state, client_request("client-d", "agent-b"), 9) {
        HandshakeDecision::AcceptClient { accepted, .. } => {
            assert!(accepted.session_id.0 > last);
        }
        _ => panic!("client should be paired"),
    }
}

#[test]
fn rollback_restores_the_registry() {
    let mut state = ServerState::new();
    let agent_id = AgentId::new("agent-flaky").unwrap();

    // agent accepted, then its accept frame failed to send: roll back
    assert!(matches!(
        process_handshake(&mut state, agent_request("agent-flaky"), 5),
        HandshakeDecision::AcceptAgent { .. }
    ));
    assert!(state.remove_agent(&agent_id));
    assert!(!state.contains_agent(&agent_id));

    // register again; a client claims it but its accept frame fails: re-insert
    assert!(matches!(
        process_handshake(&mut state, agent_request("agent-flaky"), 6),
        HandshakeDecision::AcceptAgent { .. }
    ));
    let waiter = match process_handshake(&mut state, client_request("client-z", "agent-flaky"), 7) {
        HandshakeDecision::AcceptClient { waiter, .. } => waiter,
        _ => panic!("client should claim the agent"),
    };
    assert_eq!(waiter, 6);
    assert!(!state.contains_agent(&agent_id));
    assert!(state.register_agent(AgentId::new("agent-flaky").unwrap(), waiter));
    assert!(state.contains_agent(&agent_id));
}

#[test]
fn registry_operations_track_claims() {
    let mut state = ServerState::new();
    assert!(state.register_agent(AgentId::new("agent-a").unwrap(), 1));
    assert!(!state.register_agent(AgentId::new("agent-a").unwrap(), 2));
    assert!(state.register_agent(AgentId::new("agent-b").unwrap(), 3));

    assert_eq!(state.claim_agent(&AgentId::new("agent-a").unwrap()), Some(1));
    assert_eq!(state.claim_agent(&AgentId::new("agent-a").unwrap()), None);
    assert_eq!(state.claim_agent(&AgentId::new("agent-b").unwrap()), Some(3));

    assert!(!state.remove_agent(&AgentId::new("agent-b").unwrap()));
}

#[test]
fn response_builders_fill_in_the_protocol_version() {
    match alaric::server::accept_response(SessionId(5)) {
        HandshakeResponse::Accepted(accepted) => {
            assert_eq!(accepted.protocol_version, 1);
            assert_eq!(accepted.session_id, SessionId(5));
        }
        _ => panic!("accept_response should build an acceptance"),
    }
    let rejection = alaric::server::invalid_request_rejection(String::from("bad frame"));
    assert_eq!(rejection.code, HandshakeErrorCode::InvalidRequest);
    assert_eq!(rejection.protocol_version, 1);
    assert_eq!(rejection.message, "bad frame");
}
