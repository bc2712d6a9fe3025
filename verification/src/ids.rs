//! Agent, client and session identifiers, with validation.
//!
//! Agent and client identifiers are strings of 3 to 64 bytes drawn from
//! `[A-Za-z0-9._-]`, checked on construction.

use vstd::prelude::*;
use vstd::string::StrSliceExecFns;
use vstd::string::StringExecFns;
use vstd::string::StringSliceAdditionalSpecFns;

verus! {

/// Smallest accepted identifier length, in bytes.
pub const MIN_ID_LEN: usize = 3;

/// Largest accepted identifier length, in bytes.
pub const MAX_ID_LEN: usize = 64;

/// Whether one byte may appear in an identifier: `[A-Za-z0-9._-]`.
pub open spec fn valid_id_byte(b: u8) -> bool {
    (0x41 <= b <= 0x5a)  // 'A'..='Z'
    || (0x61 <= b <= 0x7a)  // 'a'..='z'
    || (0x30 <= b <= 0x39)  // '0'..='9'
    || b == 0x2d  // '-'
    || b == 0x5f  // '_'
    || b == 0x2e  // '.'
}

/// Whether a byte string is a well-formed identifier: 3 to 64 bytes, each
/// drawn from `[A-Za-z0-9._-]`.
pub open spec fn valid_id_bytes(bytes: Seq<u8>) -> bool {
    &&& MIN_ID_LEN <= bytes.len() <= MAX_ID_LEN
    &&& forall|i: int| 0 <= i < bytes.len() ==> valid_id_byte(#[trigger] bytes[i])
}

/// Rejection of a malformed identifier; `kind` names the identifier space.
#[derive(Debug, Clone)]
pub struct IdError {
    kind: &'static str,
    message: String,
}

impl IdError {
    fn new(kind: &'static str, message: String) -> (r: IdError) {
        IdError { kind, message }
    }
}

/// Whether a character string is a well-formed identifier, judged on its
/// UTF-8 byte form as the wire sees it.
pub open spec fn valid_id(s: Seq<char>) -> bool {
    valid_id_bytes(vstd::utf8::encode_utf8(s))
}

fn is_valid_id_byte(b: u8) -> (r: bool)
    ensures
        r == valid_id_byte(b),
{
    (0x41 <= b && b <= 0x5a) || (0x61 <= b && b <= 0x7a) || (0x30 <= b && b <= 0x39) || b == 0x2d
        || b == 0x5f || b == 0x2e
}

/// Checks the identifier rule on the byte form of `value`.
pub fn validate_id(kind: &'static str, value: &str) -> (r: Result<(), IdError>)
    ensures
        r is Ok <==> valid_id_bytes(value.spec_bytes()),
{
    let bytes = value.as_bytes_vec();
    if bytes.len() < MIN_ID_LEN || bytes.len() > MAX_ID_LEN {
        return Err(IdError::new(kind, String::from_str("must be between 3 and 64 characters")));
    }
    let mut i: usize = 0;
    while i < bytes.len()
        invariant
            0 <= i <= bytes.len(),
            bytes@ == value.spec_bytes(),
            forall|j: int| 0 <= j < i ==> valid_id_byte(#[trigger] bytes@[j]),
        decreases bytes.len() - i,
    {
        if !is_valid_id_byte(bytes[i]) {
            return Err(
                IdError::new(
                    kind,
                    String::from_str(
                        "contains invalid characters (allowed: a-z, A-Z, 0-9, '-', '_', '.')",
                    ),
                ),
            );
        }
        i += 1;
    }
    Ok(())
}

/// Name of an agent, validated on construction: only well-formed identifiers
/// exist as `AgentId` values.
#[derive(Debug, Clone)]
pub struct AgentId(String);

impl View for AgentId {
    type V = Seq<char>;

    closed spec fn view(&self) -> Seq<char> {
        self.0@
    }
}

impl AgentId {
    /// Every `AgentId` carries a well-formed identifier.
    pub open spec fn wf(self) -> bool {
        valid_id(self@)
    }

    /// Accepts exactly the well-formed identifiers.
    pub fn new(value: &str) -> (r: Result<AgentId, IdError>)
        ensures
            r is Ok <==> valid_id(value@),
            r matches Ok(id) ==> id@ == value@ && id.wf(),
    {
        match validate_id("agent", value) {
            Ok(()) => Ok(AgentId(String::from_str(value))),
            Err(e) => Err(e),
        }
    }

    pub fn as_str(&self) -> (r: &str)
        ensures
            r@ == self@,
    {
        self.0.as_str()
    }
}

impl PartialEq for AgentId {
    fn eq(&self, other: &AgentId) -> (r: bool) {
        self.0 == other.0
    }
}

impl vstd::std_specs::cmp::PartialEqSpecImpl for AgentId {
    open spec fn obeys_eq_spec() -> bool {
        true
    }

    open spec fn eq_spec(&self, other: &AgentId) -> bool {
        self@ == other@
    }
}

/// Name a client chooses for itself, validated on construction.
#[derive(Debug, Clone)]
pub struct ClientId(String);

impl View for ClientId {
    type V = Seq<char>;

    closed spec fn view(&self) -> Seq<char> {
        self.0@
    }
}

impl ClientId {
    /// Every `ClientId` carries a well-formed identifier.
    pub open spec fn wf(self) -> bool {
        valid_id(self@)
    }

    /// Accepts exactly the well-formed identifiers.
    pub fn new(value: &str) -> (r: Result<ClientId, IdError>)
        ensures
            r is Ok <==> valid_id(value@),
            r matches Ok(id) ==> id@ == value@ && id.wf(),
    {
        match validate_id("client", value) {
            Ok(()) => Ok(ClientId(String::from_str(value))),
            Err(e) => Err(e),
        }
    }

    pub fn as_str(&self) -> (r: &str)
        ensures
            r@ == self@,
    {
        self.0.as_str()
    }
}

impl PartialEq for ClientId {
    fn eq(&self, other: &ClientId) -> (r: bool) {
        self.0 == other.0
    }
}

impl vstd::std_specs::cmp::PartialEqSpecImpl for ClientId {
    open spec fn obeys_eq_spec() -> bool {
        true
    }

    open spec fn eq_spec(&self, other: &ClientId) -> bool {
        self@ == other@
    }
}

/// Correlation identifier the server assigns per accepted handshake,
/// starting at 1 and strictly increasing within one server process.
#[derive(Debug, Clone, Copy, PartialEq, Eq, Structural)]
pub struct SessionId(pub u64);

} // verus!
