//! Control-plane handshake messages.
//!
//! A connecting peer opens with one `HandshakeRequest`, tagged by its role;
//! the server answers with one `HandshakeResponse`, either an acceptance
//! carrying the session id or a rejection carrying a code and a message.

use vstd::prelude::*;
use crate::PROTOCOL_VERSION;
use crate::ids::{AgentId, ClientId, SessionId};
use vstd::utf8::encode_utf8;

verus! {

/// Strict lexicographic order on byte strings.
pub open spec fn bytes_lt(a: Seq<u8>, b: Seq<u8>) -> bool
    decreases a.len(),
{
    if b.len() == 0 {
        false
    } else if a.len() == 0 {
        true
    } else if a[0] < b[0] {
        true
    } else if a[0] > b[0] {
        false
    } else {
        bytes_lt(a.drop_first(), b.drop_first())
    }
}

/// Metadata keys are strictly ascending in the byte order of their UTF-8
/// form: the map's stable, sorted iteration order, which also makes keys
/// unique.
pub open spec fn metadata_sorted(entries: Seq<(String, String)>) -> bool {
    forall|i: int|
        0 <= i && i + 1 < entries.len() ==> bytes_lt(
            encode_utf8((#[trigger] entries[i]).0@),
            encode_utf8(entries[i + 1].0@),
        )
}

/// Which side of a tunnel a connecting peer wants to be.
#[derive(Debug, Clone, Copy, PartialEq, Eq, Structural)]
pub enum Role {
    Agent,
    Client,
}

/// The wire spelling of a role tag.
pub open spec fn spec_role_str(role: Role) -> Seq<char> {
    match role {
        Role::Agent => "agent"@,
        Role::Client => "client"@,
    }
}

impl Role {
    pub fn as_str(self) -> (r: &'static str)
        ensures
            r@ == spec_role_str(self),
    {
        match self {
            Role::Agent => "agent",
            Role::Client => "client",
        }
    }
}

/// Credential carried in a request; transported but not inspected today.
#[derive(Debug, Clone, PartialEq)]
pub struct AuthRequest {
    pub method: String,
    pub token: String,
}

/// Opening message of a connection, tagged by role.
///
/// Metadata is a string-to-string map carried as key/value pairs in a stable
/// order.
#[derive(Debug, Clone, PartialEq)]
pub enum HandshakeRequest {
    Agent {
        protocol_version: u16,
        agent_id: AgentId,
        auth: Option<AuthRequest>,
        metadata: Vec<(String, String)>,
    },
    Client {
        protocol_version: u16,
        client_id: ClientId,
        target_agent_id: AgentId,
        auth: Option<AuthRequest>,
        metadata: Vec<(String, String)>,
    },
}

impl HandshakeRequest {
    /// The identifiers a request carries are well-formed, and the metadata
    /// keys are strictly ascending.
    pub open spec fn wf(self) -> bool {
        match self {
            HandshakeRequest::Agent { agent_id, metadata, .. } => agent_id.wf()
                && metadata_sorted(metadata@),
            HandshakeRequest::Client { client_id, target_agent_id, metadata, .. } => client_id.wf()
                && target_agent_id.wf() && metadata_sorted(metadata@),
        }
    }

    /// The version field, whichever role the request carries.
    pub open spec fn spec_protocol_version(self) -> u16 {
        match self {
            HandshakeRequest::Agent { protocol_version, .. } => protocol_version,
            HandshakeRequest::Client { protocol_version, .. } => protocol_version,
        }
    }

    /// The role tag of a request.
    pub open spec fn spec_role(self) -> Role {
        match self {
            HandshakeRequest::Agent { .. } => Role::Agent,
            HandshakeRequest::Client { .. } => Role::Client,
        }
    }

    /// A fresh agent registration request at the current protocol version,
    /// with no credential and empty metadata.
    pub fn agent(agent_id: AgentId) -> (r: HandshakeRequest)
        ensures
            r matches (HandshakeRequest::Agent {
                protocol_version,
                agent_id: id,
                auth,
                metadata,
            }) && protocol_version == PROTOCOL_VERSION && id == agent_id && auth is None
                && metadata@ =~= Seq::<(String, String)>::empty(),
    {
        HandshakeRequest::Agent {
            protocol_version: PROTOCOL_VERSION,
            agent_id,
            auth: None,
            metadata: Vec::new(),
        }
    }

    /// A fresh pairing request naming the wanted agent, at the current
    /// protocol version, with no credential and empty metadata.
    pub fn client(client_id: ClientId, target_agent_id: AgentId) -> (r: HandshakeRequest)
        ensures
            r matches (HandshakeRequest::Client {
                protocol_version,
                client_id: cid,
                target_agent_id: tid,
                auth,
                metadata,
            }) && protocol_version == PROTOCOL_VERSION && cid == client_id && tid
                == target_agent_id && auth is None && metadata@ =~= Seq::<(
                String,
                String,
            )>::empty(),
    {
        HandshakeRequest::Client {
            protocol_version: PROTOCOL_VERSION,
            client_id,
            target_agent_id,
            auth: None,
            metadata: Vec::new(),
        }
    }

    pub fn protocol_version(&self) -> (r: u16)
        ensures
            r == self.spec_protocol_version(),
    {
        match self {
            HandshakeRequest::Agent { protocol_version, .. } => *protocol_version,
            HandshakeRequest::Client { protocol_version, .. } => *protocol_version,
        }
    }

    pub fn role(&self) -> (r: Role)
        ensures
            r == self.spec_role(),
    {
        match self {
            HandshakeRequest::Agent { .. } => Role::Agent,
            HandshakeRequest::Client { .. } => Role::Client,
        }
    }
}

/// Why the server turned a handshake down.
#[derive(Debug, Clone, Copy, PartialEq, Eq, Structural)]
pub enum HandshakeErrorCode {
    UnsupportedProtocolVersion,
    InvalidRequest,
    AgentIdInUse,
    AgentUnavailable,
    Unauthorized,
    InternalError,
}

/// Positive answer: the connection is paired under `session_id`.
#[derive(Debug, Clone, Copy, PartialEq, Eq, Structural)]
pub struct HandshakeAccepted {
    pub protocol_version: u16,
    pub session_id: SessionId,
}

/// Negative answer: a code and a human-readable message.
#[derive(Debug, Clone, PartialEq)]
pub struct HandshakeRejected {
    pub protocol_version: u16,
    pub code: HandshakeErrorCode,
    pub message: String,
}

/// The server's single answer to a handshake request.
#[derive(Debug, Clone, PartialEq)]
pub enum HandshakeResponse {
    Accepted(HandshakeAccepted),
    Rejected(HandshakeRejected),
}

} // verus!
