//! Server-side rendezvous state: the agent registry and the session counter,
//! and the decision the server takes for each incoming handshake request.
//!
//! The state here is pure: the surrounding process holds it behind a lock,
//! performs the I/O an accepted decision calls for, and feeds any delivery
//! failure back through the rollback operations. A waiter is an opaque handle
//! the caller uses to find the one-shot handoff channel of a registered agent.

use vstd::prelude::*;
use crate::PROTOCOL_VERSION;
use crate::handshake::{
    HandshakeAccepted, HandshakeErrorCode, HandshakeRejected, HandshakeRequest, HandshakeResponse,
};
use crate::ids::{AgentId, SessionId};
use vstd::string::StringExecFns;

verus! {

/// One registered agent: its name and the caller's handle to the one-shot
/// channel on which the agent waits for a paired client.
pub struct AgentEntry {
    pub agent_id: AgentId,
    pub waiter: u64,
}

/// The registry and the session counter of one server process.
pub struct ServerState {
    agents: Vec<AgentEntry>,
    next_session: u64,
}

/// Whether `agents` holds an entry named `id`.
pub open spec fn has_entry(agents: Seq<AgentEntry>, id: Seq<char>) -> bool {
    exists|i: int| 0 <= i < agents.len() && agents[i].agent_id@ == id
}

/// The index of the entry named `id`; meaningful when `has_entry` holds and
/// unique under `ServerState::wf`.
pub open spec fn entry_index(agents: Seq<AgentEntry>, id: Seq<char>) -> int {
    choose|i: int| 0 <= i < agents.len() && agents[i].agent_id@ == id
}

impl ServerState {
    /// The registry never holds two entries with equal agent ids, and the
    /// session counter starts at 1 and never re-issues an id.
    pub open spec fn wf(self) -> bool {
        &&& forall|i: int, j: int|
            0 <= i < j < self.registry().len() ==> (#[trigger] self.registry()[i]).agent_id@
                != (#[trigger] self.registry()[j]).agent_id@
        &&& self.session_counter() >= 1
    }

    /// The registered agents, in registration order.
    pub closed spec fn registry(self) -> Seq<AgentEntry> {
        self.agents@
    }

    /// The session id the next accepted handshake will receive.
    pub closed spec fn session_counter(self) -> u64 {
        self.next_session
    }

    /// A server starts with an empty registry and session counter 1.
    pub fn new() -> (r: ServerState)
        ensures
            r.wf(),
            r.registry() =~= Seq::<AgentEntry>::empty(),
            r.session_counter() == 1,
    {
        ServerState { agents: Vec::new(), next_session: 1 }
    }

    /// Issues the next session id: the current counter value, which is
    /// strictly increased and never handed out again.
    pub fn next_session_id(&mut self) -> (r: SessionId)
        requires
            old(self).session_counter() < u64::MAX,
        ensures
            r == SessionId(old(self).session_counter()),
            final(self).session_counter() == old(self).session_counter() + 1,
            final(self).registry() == old(self).registry(),
            old(self).wf() ==> final(self).wf(),
    {
        let id = SessionId(self.next_session);
        self.next_session = self.next_session + 1;
        id
    }

    /// The counter value the next session id will take.
    pub fn session_counter_value(&self) -> (r: u64)
        ensures
            r == self.session_counter(),
    {
        self.next_session
    }

    /// Whether an agent of this name is currently registered.
    pub fn contains_agent(&self, id: &AgentId) -> (r: bool)
        ensures
            r == has_entry(self.registry(), id@),
    {
        let mut i: usize = 0;
        while i < self.agents.len()
            invariant
                0 <= i <= self.agents.len(),
                forall|j: int| 0 <= j < i ==> self.agents@[j].agent_id@ != id@,
            decreases self.agents.len() - i,
        {
            if self.agents[i].agent_id.eq(id) {
                return true;
            }
            i += 1;
        }
        false
    }

    /// Registers an agent under a fresh waiter handle. Refused, with the
    /// state unchanged, exactly when the name is already taken.
    pub fn register_agent(&mut self, agent_id: AgentId, waiter: u64) -> (r: bool)
        requires
            old(self).wf(),
        ensures
            final(self).wf(),
            final(self).session_counter() == old(self).session_counter(),
            r == !has_entry(old(self).registry(), agent_id@),
            !r ==> final(self).registry() == old(self).registry(),
            r ==> final(self).registry() =~= old(self).registry().push(
                AgentEntry { agent_id, waiter },
            ),
    {
        if self.contains_agent(&agent_id) {
            return false;
        }
        self.agents.push(AgentEntry { agent_id, waiter });
        true
    }

    /// Takes the entry named `id` out of the registry and yields its waiter
    /// handle; yields nothing, with the state unchanged, exactly when no such
    /// entry exists.
    pub fn claim_agent(&mut self, id: &AgentId) -> (r: Option<u64>)
        requires
            old(self).wf(),
        ensures
            final(self).wf(),
            final(self).session_counter() == old(self).session_counter(),
            r is Some <==> has_entry(old(self).registry(), id@),
            r matches Some(w) ==> {
                let i = entry_index(old(self).registry(), id@);
                &&& w == old(self).registry()[i].waiter
                &&& final(self).registry() =~= old(self).registry().remove(i)
                &&& !has_entry(final(self).registry(), id@)
            },
            r is None ==> final(self).registry() == old(self).registry(),
    {
        let mut i: usize = 0;
        while i < self.agents.len()
            invariant
                *self == *old(self),
                old(self).wf(),
                0 <= i <= self.agents.len(),
                forall|j: int| 0 <= j < i ==> self.agents@[j].agent_id@ != id@,
            decreases self.agents.len() - i,
        {
            if self.agents[i].agent_id.eq(id) {
                let ghost pre = old(self).registry();
                let entry = self.agents.remove(i);
                proof {
                    assert(0 <= i < pre.len() && pre[i as int].agent_id@ == id@);
                    assert(has_entry(pre, id@));
                    assert(entry_index(pre, id@) == i as int) by {
                        let k = entry_index(pre, id@);
                        assert(0 <= k < pre.len() && pre[k].agent_id@ == id@);
                        if k != i {
                            lemma_registry_entry_unique(*old(self), i as int, k);
                        }
                    }
                    assert forall|j: int|
                        0 <= j < self.agents@.len() implies self.agents@[j].agent_id@ != id@ by {
                        if j < i {
                            assert(self.agents@[j] == pre[j]);
                        } else {
                            assert(self.agents@[j] == pre[j + 1]);
                            if pre[j + 1].agent_id@ == id@ {
                                lemma_registry_entry_unique(*old(self), i as int, j + 1);
                            }
                        }
                    }
                }
                return Some(entry.waiter);
            }
            i += 1;
        }
        None
    }

    /// Drops the entry named `id` if it is still present; reports whether an
    /// entry was removed.
    pub fn remove_agent(&mut self, id: &AgentId) -> (r: bool)
        requires
            old(self).wf(),
        ensures
            final(self).wf(),
            final(self).session_counter() == old(self).session_counter(),
            r == has_entry(old(self).registry(), id@),
            !has_entry(final(self).registry(), id@),
            !r ==> final(self).registry() == old(self).registry(),
            r ==> final(self).registry() =~= old(self).registry().remove(
                entry_index(old(self).registry(), id@),
            ),
    {
        match self.claim_agent(id) {
            Some(_) => true,
            None => false,
        }
    }
}

/// Under the registry invariant, an agent name pins its entry: any two
/// indices holding the same name are the same index.
pub proof fn lemma_registry_entry_unique(s: ServerState, i: int, j: int)
    requires
        s.wf(),
        0 <= i < s.registry().len(),
        0 <= j < s.registry().len(),
        s.registry()[i].agent_id@ == s.registry()[j].agent_id@,
    ensures
        i == j,
{
}

/// Session ids are strictly monotonic: an id issued by a server state that
/// came after another issuance is the larger one.
pub proof fn lemma_session_ids_strictly_increase(s0: ServerState, s1: ServerState, a: u64, b: u64)
    requires
        a == s0.session_counter(),
        s1.session_counter() > a,
        b == s1.session_counter(),
    ensures
        b > a,
{
}

/// What the server decides for one handshake request: answer and state change.
pub enum HandshakeDecision {
    /// Send the rejection, then close the connection.
    Reject(HandshakeRejected),
    /// An agent was registered: send the acceptance, then wait on its
    /// one-shot channel for a paired client.
    AcceptAgent { accepted: HandshakeAccepted },
    /// A client claimed `waiter`'s agent: send the acceptance, then hand the
    /// client's stream to that waiter.
    AcceptClient { accepted: HandshakeAccepted, waiter: u64 },
}

/// Builds the rejection the server sends for a request it could not parse.
pub fn invalid_request_rejection(detail: String) -> (r: HandshakeRejected)
    ensures
        r.code == HandshakeErrorCode::InvalidRequest,
        r.protocol_version == PROTOCOL_VERSION,
{
    HandshakeRejected {
        protocol_version: PROTOCOL_VERSION,
        code: HandshakeErrorCode::InvalidRequest,
        message: detail,
    }
}

/// Builds the acceptance response for a session id.
pub fn accept_response(session_id: SessionId) -> (r: HandshakeResponse)
    ensures
        r == HandshakeResponse::Accepted(
            HandshakeAccepted { protocol_version: PROTOCOL_VERSION, session_id },
        ),
{
    HandshakeResponse::Accepted(HandshakeAccepted { protocol_version: PROTOCOL_VERSION, session_id })
}

/// Decides one parsed handshake request against the current state.
///
/// A version other than `PROTOCOL_VERSION` is rejected with the state
/// untouched. An agent request either takes a fresh registry slot under
/// `fresh_waiter` and is accepted with the next session id, or is rejected as
/// a duplicate. A client request either claims (removes) its target's slot
/// and is accepted with the next session id, or is rejected as unavailable.
pub fn process_handshake(
    state: &mut ServerState,
    request: HandshakeRequest,
    fresh_waiter: u64,
) -> (r: HandshakeDecision)
    requires
        old(state).wf(),
        old(state).session_counter() < u64::MAX,
    ensures
        final(state).wf(),
        final(state).session_counter() >= old(state).session_counter(),
        request.spec_protocol_version() != PROTOCOL_VERSION ==> {
            &&& r matches HandshakeDecision::Reject(rej) && rej.code
                == HandshakeErrorCode::UnsupportedProtocolVersion && rej.protocol_version
                == PROTOCOL_VERSION
            &&& final(state).registry() == old(state).registry()
            &&& final(state).session_counter() == old(state).session_counter()
        },
        request matches (HandshakeRequest::Agent { agent_id, .. }) ==> (
        request.spec_protocol_version() == PROTOCOL_VERSION ==> {
            if has_entry(old(state).registry(), agent_id@) {
                &&& r matches HandshakeDecision::Reject(rej) && rej.code
                    == HandshakeErrorCode::AgentIdInUse && rej.protocol_version
                    == PROTOCOL_VERSION
                &&& final(state).registry() == old(state).registry()
                &&& final(state).session_counter() == old(state).session_counter()
            } else {
                &&& r matches HandshakeDecision::AcceptAgent { accepted } && accepted
                    == (HandshakeAccepted {
                    protocol_version: PROTOCOL_VERSION,
                    session_id: SessionId(old(state).session_counter()),
                })
                &&& final(state).registry() =~= old(state).registry().push(
                    AgentEntry { agent_id, waiter: fresh_waiter },
                )
                &&& final(state).session_counter() == old(state).session_counter() + 1
            }
        }),
        request matches (HandshakeRequest::Client { target_agent_id, .. }) ==> (
        request.spec_protocol_version() == PROTOCOL_VERSION ==> {
            if !has_entry(old(state).registry(), target_agent_id@) {
                &&& r matches HandshakeDecision::Reject(rej) && rej.code
                    == HandshakeErrorCode::AgentUnavailable && rej.protocol_version
                    == PROTOCOL_VERSION
                &&& final(state).registry() == old(state).registry()
                &&& final(state).session_counter() == old(state).session_counter()
            } else {
                &&& r matches HandshakeDecision::AcceptClient { accepted, waiter } && accepted
                    == (HandshakeAccepted {
                    protocol_version: PROTOCOL_VERSION,
                    session_id: SessionId(old(state).session_counter()),
                }) && waiter == old(state).registry()[entry_index(
                    old(state).registry(),
                    target_agent_id@,
                )].waiter
                &&& final(state).registry() =~= old(state).registry().remove(
                    entry_index(old(state).registry(), target_agent_id@),
                )
                &&& final(state).session_counter() == old(state).session_counter() + 1
            }
        }),
{
    if request.protocol_version() != PROTOCOL_VERSION {
        return HandshakeDecision::Reject(
            HandshakeRejected {
                protocol_version: PROTOCOL_VERSION,
                code: HandshakeErrorCode::UnsupportedProtocolVersion,
                message: String::from_str("server speaks protocol version 1"),
            },
        );
    }
    match request {
        HandshakeRequest::Agent { agent_id, .. } => {
            if !state.register_agent(agent_id, fresh_waiter) {
                return HandshakeDecision::Reject(
                    HandshakeRejected {
                        protocol_version: PROTOCOL_VERSION,
                        code: HandshakeErrorCode::AgentIdInUse,
                        message: String::from_str("agent id is already connected"),
                    },
                );
            }
            let session_id = state.next_session_id();
            HandshakeDecision::AcceptAgent {
                accepted: HandshakeAccepted { protocol_version: PROTOCOL_VERSION, session_id },
            }
        },
        HandshakeRequest::Client { target_agent_id, .. } => {
            match state.claim_agent(&target_agent_id) {
                Some(waiter) => {
                    let session_id = state.next_session_id();
                    HandshakeDecision::AcceptClient {
                        accepted: HandshakeAccepted {
                            protocol_version: PROTOCOL_VERSION,
                            session_id,
                        },
                        waiter,
                    }
                },
                None => HandshakeDecision::Reject(
                    HandshakeRejected {
                        protocol_version: PROTOCOL_VERSION,
                        code: HandshakeErrorCode::AgentUnavailable,
                        message: String::from_str("target agent is not connected"),
                    },
                ),
            }
        },
    }
}

} // verus!
