//! Canonical JSON wire form of the handshake messages.
//!
//! A message is framed as one JSON object in a fixed canonical shape: fields
//! in declaration order, no whitespace, strings escaped the way the reference
//! serializers of this protocol emit them (`\"`, `\\`, `\b`, `\t`, `\n`,
//! `\f`, `\r`, and `\u00xx` for the remaining control bytes). The encoder
//! produces exactly this shape; the reader accepts a frame exactly when it is
//! the canonical encoding of some message, and then returns that message.

use vstd::prelude::*;
use crate::framing::ProtocolError;
use crate::handshake::{
    AuthRequest, HandshakeAccepted, HandshakeErrorCode, HandshakeRejected, HandshakeRequest,
    HandshakeResponse,
};
use crate::ids::{AgentId, ClientId, SessionId};
use vstd::string::StrSliceExecFns;
use vstd::string::StringSliceAdditionalSpecFns;
use vstd::utf8::encode_utf8;
use vstd::utf8::valid_utf8;

verus! {

/// The bytes of `{"role":"agent","protocol_version":`.
pub open spec fn lit_agent_head() -> Seq<u8> {
    seq![0x7b, 0x22, 0x72, 0x6f, 0x6c, 0x65, 0x22, 0x3a, 0x22, 0x61, 0x67, 0x65, 0x6e, 0x74, 0x22, 0x2c, 0x22, 0x70, 0x72, 0x6f, 0x74, 0x6f, 0x63, 0x6f, 0x6c, 0x5f, 0x76, 0x65, 0x72, 0x73, 0x69, 0x6f, 0x6e, 0x22, 0x3a]
}

fn push_lit_agent_head(out: &mut Vec<u8>)
    ensures
        final(out)@ == old(out)@ + lit_agent_head(),
{
    out.push(0x7b);
    out.push(0x22);
    out.push(0x72);
    out.push(0x6f);
    out.push(0x6c);
    out.push(0x65);
    out.push(0x22);
    out.push(0x3a);
    out.push(0x22);
    out.push(0x61);
    out.push(0x67);
    out.push(0x65);
    out.push(0x6e);
    out.push(0x74);
    out.push(0x22);
    out.push(0x2c);
    out.push(0x22);
    out.push(0x70);
    out.push(0x72);
    out.push(0x6f);
    out.push(0x74);
    out.push(0x6f);
    out.push(0x63);
    out.push(0x6f);
    out.push(0x6c);
    out.push(0x5f);
    out.push(0x76);
    out.push(0x65);
    out.push(0x72);
    out.push(0x73);
    out.push(0x69);
    out.push(0x6f);
    out.push(0x6e);
    out.push(0x22);
    out.push(0x3a);
    proof {
        assert(out@ =~= old(out)@ + lit_agent_head());
    }
}

/// The bytes of `{"role":"client","protocol_version":`.
pub open spec fn lit_client_head() -> Seq<u8> {
    seq![0x7b, 0x22, 0x72, 0x6f, 0x6c, 0x65, 0x22, 0x3a, 0x22, 0x63, 0x6c, 0x69, 0x65, 0x6e, 0x74, 0x22, 0x2c, 0x22, 0x70, 0x72, 0x6f, 0x74, 0x6f, 0x63, 0x6f, 0x6c, 0x5f, 0x76, 0x65, 0x72, 0x73, 0x69, 0x6f, 0x6e, 0x22, 0x3a]
}

fn push_lit_client_head(out: &mut Vec<u8>)
    ensures
        final(out)@ == old(out)@ + lit_client_head(),
{
    out.push(0x7b);
    out.push(0x22);
    out.push(0x72);
    out.push(0x6f);
    out.push(0x6c);
    out.push(0x65);
    out.push(0x22);
    out.push(0x3a);
    out.push(0x22);
    out.push(0x63);
    out.push(0x6c);
    out.push(0x69);
    out.push(0x65);
    out.push(0x6e);
    out.push(0x74);
    out.push(0x22);
    out.push(0x2c);
    out.push(0x22);
    out.push(0x70);
    out.push(0x72);
    out.push(0x6f);
    out.push(0x74);
    out.push(0x6f);
    out.push(0x63);
    out.push(0x6f);
    out.push(0x6c);
    out.push(0x5f);
    out.push(0x76);
    out.push(0x65);
    out.push(0x72);
    out.push(0x73);
    out.push(0x69);
    out.push(0x6f);
    out.push(0x6e);
    out.push(0x22);
    out.push(0x3a);
    proof {
        assert(out@ =~= old(out)@ + lit_client_head());
    }
}

/// The bytes of `,"agent_id":`.
pub open spec fn lit_agent_id_key() -> Seq<u8> {
    seq![0x2c, 0x22, 0x61, 0x67, 0x65, 0x6e, 0x74, 0x5f, 0x69, 0x64, 0x22, 0x3a]
}

fn push_lit_agent_id_key(out: &mut Vec<u8>)
    ensures
        final(out)@ == old(out)@ + lit_agent_id_key(),
{
    out.push(0x2c);
    out.push(0x22);
    out.push(0x61);
    out.push(0x67);
    out.push(0x65);
    out.push(0x6e);
    out.push(0x74);
    out.push(0x5f);
    out.push(0x69);
    out.push(0x64);
    out.push(0x22);
    out.push(0x3a);
    proof {
        assert(out@ =~= old(out)@ + lit_agent_id_key());
    }
}

/// The bytes of `,"client_id":`.
pub open spec fn lit_client_id_key() -> Seq<u8> {
    seq![0x2c, 0x22, 0x63, 0x6c, 0x69, 0x65, 0x6e, 0x74, 0x5f, 0x69, 0x64, 0x22, 0x3a]
}

fn push_lit_client_id_key(out: &mut Vec<u8>)
    ensures
        final(out)@ == old(out)@ + lit_client_id_key(),
{
    out.push(0x2c);
    out.push(0x22);
    out.push(0x63);
    out.push(0x6c);
    out.push(0x69);
    out.push(0x65);
    out.push(0x6e);
    out.push(0x74);
    out.push(0x5f);
    out.push(0x69);
    out.push(0x64);
    out.push(0x22);
    out.push(0x3a);
    proof {
        assert(out@ =~= old(out)@ + lit_client_id_key());
    }
}

/// The bytes of `,"target_agent_id":`.
pub open spec fn lit_target_key() -> Seq<u8> {
    seq![0x2c, 0x22, 0x74, 0x61, 0x72, 0x67, 0x65, 0x74, 0x5f, 0x61, 0x67, 0x65, 0x6e, 0x74, 0x5f, 0x69, 0x64, 0x22, 0x3a]
}

fn push_lit_target_key(out: &mut Vec<u8>)
    ensures
        final(out)@ == old(out)@ + lit_target_key(),
{
    out.push(0x2c);
    out.push(0x22);
    out.push(0x74);
    out.push(0x61);
    out.push(0x72);
    out.push(0x67);
    out.push(0x65);
    out.push(0x74);
    out.push(0x5f);
    out.push(0x61);
    out.push(0x67);
    out.push(0x65);
    out.push(0x6e);
    out.push(0x74);
    out.push(0x5f);
    out.push(0x69);
    out.push(0x64);
    out.push(0x22);
    out.push(0x3a);
    proof {
        assert(out@ =~= old(out)@ + lit_target_key());
    }
}

/// The bytes of `,"auth":`.
pub open spec fn lit_auth_key() -> Seq<u8> {
    seq![0x2c, 0x22, 0x61, 0x75, 0x74, 0x68, 0x22, 0x3a]
}

fn push_lit_auth_key(out: &mut Vec<u8>)
    ensures
        final(out)@ == old(out)@ + lit_auth_key(),
{
    out.push(0x2c);
    out.push(0x22);
    out.push(0x61);
    out.push(0x75);
    out.push(0x74);
    out.push(0x68);
    out.push(0x22);
    out.push(0x3a);
    proof {
        assert(out@ =~= old(out)@ + lit_auth_key());
    }
}

/// The bytes of `null`.
pub open spec fn lit_null_word() -> Seq<u8> {
    seq![0x6e, 0x75, 0x6c, 0x6c]
}

fn push_lit_null_word(out: &mut Vec<u8>)
    ensures
        final(out)@ == old(out)@ + lit_null_word(),
{
    out.push(0x6e);
    out.push(0x75);
    out.push(0x6c);
    out.push(0x6c);
    proof {
        assert(out@ =~= old(out)@ + lit_null_word());
    }
}

/// The bytes of `{"method":`.
pub open spec fn lit_method_head() -> Seq<u8> {
    seq![0x7b, 0x22, 0x6d, 0x65, 0x74, 0x68, 0x6f, 0x64, 0x22, 0x3a]
}

fn push_lit_method_head(out: &mut Vec<u8>)
    ensures
        final(out)@ == old(out)@ + lit_method_head(),
{
    out.push(0x7b);
    out.push(0x22);
    out.push(0x6d);
    out.push(0x65);
    out.push(0x74);
    out.push(0x68);
    out.push(0x6f);
    out.push(0x64);
    out.push(0x22);
    out.push(0x3a);
    proof {
        assert(out@ =~= old(out)@ + lit_method_head());
    }
}

/// The bytes of `,"token":`.
pub open spec fn lit_token_key() -> Seq<u8> {
    seq![0x2c, 0x22, 0x74, 0x6f, 0x6b, 0x65, 0x6e, 0x22, 0x3a]
}

fn push_lit_token_key(out: &mut Vec<u8>)
    ensures
        final(out)@ == old(out)@ + lit_token_key(),
{
    out.push(0x2c);
    out.push(0x22);
    out.push(0x74);
    out.push(0x6f);
    out.push(0x6b);
    out.push(0x65);
    out.push(0x6e);
    out.push(0x22);
    out.push(0x3a);
    proof {
        assert(out@ =~= old(out)@ + lit_token_key());
    }
}

/// The bytes of `,"metadata":`.
pub open spec fn lit_metadata_key() -> Seq<u8> {
    seq![0x2c, 0x22, 0x6d, 0x65, 0x74, 0x61, 0x64, 0x61, 0x74, 0x61, 0x22, 0x3a]
}

fn push_lit_metadata_key(out: &mut Vec<u8>)
    ensures
        final(out)@ == old(out)@ + lit_metadata_key(),
{
    out.push(0x2c);
    out.push(0x22);
    out.push(0x6d);
    out.push(0x65);
    out.push(0x74);
    out.push(0x61);
    out.push(0x64);
    out.push(0x61);
    out.push(0x74);
    out.push(0x61);
    out.push(0x22);
    out.push(0x3a);
    proof {
        assert(out@ =~= old(out)@ + lit_metadata_key());
    }
}

/// The bytes of `{"status":"accepted","protocol_version":`.
pub open spec fn lit_accepted_head() -> Seq<u8> {
    seq![0x7b, 0x22, 0x73, 0x74, 0x61, 0x74, 0x75, 0x73, 0x22, 0x3a, 0x22, 0x61, 0x63, 0x63, 0x65, 0x70, 0x74, 0x65, 0x64, 0x22, 0x2c, 0x22, 0x70, 0x72, 0x6f, 0x74, 0x6f, 0x63, 0x6f, 0x6c, 0x5f, 0x76, 0x65, 0x72, 0x73, 0x69, 0x6f, 0x6e, 0x22, 0x3a]
}

fn push_lit_accepted_head(out: &mut Vec<u8>)
    ensures
        final(out)@ == old(out)@ + lit_accepted_head(),
{
    out.push(0x7b);
    out.push(0x22);
    out.push(0x73);
    out.push(0x74);
    out.push(0x61);
    out.push(0x74);
    out.push(0x75);
    out.push(0x73);
    out.push(0x22);
    out.push(0x3a);
    out.push(0x22);
    out.push(0x61);
    out.push(0x63);
    out.push(0x63);
    out.push(0x65);
    out.push(0x70);
    out.push(0x74);
    out.push(0x65);
    out.push(0x64);
    out.push(0x22);
    out.push(0x2c);
    out.push(0x22);
    out.push(0x70);
    out.push(0x72);
    out.push(0x6f);
    out.push(0x74);
    out.push(0x6f);
    out.push(0x63);
    out.push(0x6f);
    out.push(0x6c);
    out.push(0x5f);
    out.push(0x76);
    out.push(0x65);
    out.push(0x72);
    out.push(0x73);
    out.push(0x69);
    out.push(0x6f);
    out.push(0x6e);
    out.push(0x22);
    out.push(0x3a);
    proof {
        assert(out@ =~= old(out)@ + lit_accepted_head());
    }
}

/// The bytes of `,"session_id":`.
pub open spec fn lit_session_key() -> Seq<u8> {
    seq![0x2c, 0x22, 0x73, 0x65, 0x73, 0x73, 0x69, 0x6f, 0x6e, 0x5f, 0x69, 0x64, 0x22, 0x3a]
}

fn push_lit_session_key(out: &mut Vec<u8>)
    ensures
        final(out)@ == old(out)@ + lit_session_key(),
{
    out.push(0x2c);
    out.push(0x22);
    out.push(0x73);
    out.push(0x65);
    out.push(0x73);
    out.push(0x73);
    out.push(0x69);
    out.push(0x6f);
    out.push(0x6e);
    out.push(0x5f);
    out.push(0x69);
    out.push(0x64);
    out.push(0x22);
    out.push(0x3a);
    proof {
        assert(out@ =~= old(out)@ + lit_session_key());
    }
}

/// The bytes of `{"status":"rejected","protocol_version":`.
pub open spec fn lit_rejected_head() -> Seq<u8> {
    seq![0x7b, 0x22, 0x73, 0x74, 0x61, 0x74, 0x75, 0x73, 0x22, 0x3a, 0x22, 0x72, 0x65, 0x6a, 0x65, 0x63, 0x74, 0x65, 0x64, 0x22, 0x2c, 0x22, 0x70, 0x72, 0x6f, 0x74, 0x6f, 0x63, 0x6f, 0x6c, 0x5f, 0x76, 0x65, 0x72, 0x73, 0x69, 0x6f, 0x6e, 0x22, 0x3a]
}

fn push_lit_rejected_head(out: &mut Vec<u8>)
    ensures
        final(out)@ == old(out)@ + lit_rejected_head(),
{
    out.push(0x7b);
    out.push(0x22);
    out.push(0x73);
    out.push(0x74);
    out.push(0x61);
    out.push(0x74);
    out.push(0x75);
    out.push(0x73);
    out.push(0x22);
    out.push(0x3a);
    out.push(0x22);
    out.push(0x72);
    out.push(0x65);
    out.push(0x6a);
    out.push(0x65);
    out.push(0x63);
    out.push(0x74);
    out.push(0x65);
    out.push(0x64);
    out.push(0x22);
    out.push(0x2c);
    out.push(0x22);
    out.push(0x70);
    out.push(0x72);
    out.push(0x6f);
    out.push(0x74);
    out.push(0x6f);
    out.push(0x63);
    out.push(0x6f);
    out.push(0x6c);
    out.push(0x5f);
    out.push(0x76);
    out.push(0x65);
    out.push(0x72);
    out.push(0x73);
    out.push(0x69);
    out.push(0x6f);
    out.push(0x6e);
    out.push(0x22);
    out.push(0x3a);
    proof {
        assert(out@ =~= old(out)@ + lit_rejected_head());
    }
}

/// The bytes of `,"code":`.
pub open spec fn lit_code_key() -> Seq<u8> {
    seq![0x2c, 0x22, 0x63, 0x6f, 0x64, 0x65, 0x22, 0x3a]
}

fn push_lit_code_key(out: &mut Vec<u8>)
    ensures
        final(out)@ == old(out)@ + lit_code_key(),
{
    out.push(0x2c);
    out.push(0x22);
    out.push(0x63);
    out.push(0x6f);
    out.push(0x64);
    out.push(0x65);
    out.push(0x22);
    out.push(0x3a);
    proof {
        assert(out@ =~= old(out)@ + lit_code_key());
    }
}

/// The bytes of `,"message":`.
pub open spec fn lit_message_key() -> Seq<u8> {
    seq![0x2c, 0x22, 0x6d, 0x65, 0x73, 0x73, 0x61, 0x67, 0x65, 0x22, 0x3a]
}

fn push_lit_message_key(out: &mut Vec<u8>)
    ensures
        final(out)@ == old(out)@ + lit_message_key(),
{
    out.push(0x2c);
    out.push(0x22);
    out.push(0x6d);
    out.push(0x65);
    out.push(0x73);
    out.push(0x73);
    out.push(0x61);
    out.push(0x67);
    out.push(0x65);
    out.push(0x22);
    out.push(0x3a);
    proof {
        assert(out@ =~= old(out)@ + lit_message_key());
    }
}

/// The bytes of `"unsupported_protocol_version"`.
pub open spec fn lit_code_unsupported() -> Seq<u8> {
    seq![0x22, 0x75, 0x6e, 0x73, 0x75, 0x70, 0x70, 0x6f, 0x72, 0x74, 0x65, 0x64, 0x5f, 0x70, 0x72, 0x6f, 0x74, 0x6f, 0x63, 0x6f, 0x6c, 0x5f, 0x76, 0x65, 0x72, 0x73, 0x69, 0x6f, 0x6e, 0x22]
}

fn push_lit_code_unsupported(out: &mut Vec<u8>)
    ensures
        final(out)@ == old(out)@ + lit_code_unsupported(),
{
    out.push(0x22);
    out.push(0x75);
    out.push(0x6e);
    out.push(0x73);
    out.push(0x75);
    out.push(0x70);
    out.push(0x70);
    out.push(0x6f);
    out.push(0x72);
    out.push(0x74);
    out.push(0x65);
    out.push(0x64);
    out.push(0x5f);
    out.push(0x70);
    out.push(0x72);
    out.push(0x6f);
    out.push(0x74);
    out.push(0x6f);
    out.push(0x63);
    out.push(0x6f);
    out.push(0x6c);
    out.push(0x5f);
    out.push(0x76);
    out.push(0x65);
    out.push(0x72);
    out.push(0x73);
    out.push(0x69);
    out.push(0x6f);
    out.push(0x6e);
    out.push(0x22);
    proof {
        assert(out@ =~= old(out)@ + lit_code_unsupported());
    }
}

/// The bytes of `"invalid_request"`.
pub open spec fn lit_code_invalid() -> Seq<u8> {
    seq![0x22, 0x69, 0x6e, 0x76, 0x61, 0x6c, 0x69, 0x64, 0x5f, 0x72, 0x65, 0x71, 0x75, 0x65, 0x73, 0x74, 0x22]
}

fn push_lit_code_invalid(out: &mut Vec<u8>)
    ensures
        final(out)@ == old(out)@ + lit_code_invalid(),
{
    out.push(0x22);
    out.push(0x69);
    out.push(0x6e);
    out.push(0x76);
    out.push(0x61);
    out.push(0x6c);
    out.push(0x69);
    out.push(0x64);
    out.push(0x5f);
    out.push(0x72);
    out.push(0x65);
    out.push(0x71);
    out.push(0x75);
    out.push(0x65);
    out.push(0x73);
    out.push(0x74);
    out.push(0x22);
    proof {
        assert(out@ =~= old(out)@ + lit_code_invalid());
    }
}

/// The bytes of `"agent_id_in_use"`.
pub open spec fn lit_code_in_use() -> Seq<u8> {
    seq![0x22, 0x61, 0x67, 0x65, 0x6e, 0x74, 0x5f, 0x69, 0x64, 0x5f, 0x69, 0x6e, 0x5f, 0x75, 0x73, 0x65, 0x22]
}

fn push_lit_code_in_use(out: &mut Vec<u8>)
    ensures
        final(out)@ == old(out)@ + lit_code_in_use(),
{
    out.push(0x22);
    out.push(0x61);
    out.push(0x67);
    out.push(0x65);
    out.push(0x6e);
    out.push(0x74);
    out.push(0x5f);
    out.push(0x69);
    out.push(0x64);
    out.push(0x5f);
    out.push(0x69);
    out.push(0x6e);
    out.push(0x5f);
    out.push(0x75);
    out.push(0x73);
    out.push(0x65);
    out.push(0x22);
    proof {
        assert(out@ =~= old(out)@ + lit_code_in_use());
    }
}

/// The bytes of `"agent_unavailable"`.
pub open spec fn lit_code_unavailable() -> Seq<u8> {
    seq![0x22, 0x61, 0x67, 0x65, 0x6e, 0x74, 0x5f, 0x75, 0x6e, 0x61, 0x76, 0x61, 0x69, 0x6c, 0x61, 0x62, 0x6c, 0x65, 0x22]
}

fn push_lit_code_unavailable(out: &mut Vec<u8>)
    ensures
        final(out)@ == old(out)@ + lit_code_unavailable(),
{
    out.push(0x22);
    out.push(0x61);
    out.push(0x67);
    out.push(0x65);
    out.push(0x6e);
    out.push(0x74);
    out.push(0x5f);
    out.push(0x75);
    out.push(0x6e);
    out.push(0x61);
    out.push(0x76);
    out.push(0x61);
    out.push(0x69);
    out.push(0x6c);
    out.push(0x61);
    out.push(0x62);
    out.push(0x6c);
    out.push(0x65);
    out.push(0x22);
    proof {
        assert(out@ =~= old(out)@ + lit_code_unavailable());
    }
}

/// The bytes of `"unauthorized"`.
pub open spec fn lit_code_unauthorized() -> Seq<u8> {
    seq![0x22, 0x75, 0x6e, 0x61, 0x75, 0x74, 0x68, 0x6f, 0x72, 0x69, 0x7a, 0x65, 0x64, 0x22]
}

fn push_lit_code_unauthorized(out: &mut Vec<u8>)
    ensures
        final(out)@ == old(out)@ + lit_code_unauthorized(),
{
    out.push(0x22);
    out.push(0x75);
    out.push(0x6e);
    out.push(0x61);
    out.push(0x75);
    out.push(0x74);
    out.push(0x68);
    out.push(0x6f);
    out.push(0x72);
    out.push(0x69);
    out.push(0x7a);
    out.push(0x65);
    out.push(0x64);
    out.push(0x22);
    proof {
        assert(out@ =~= old(out)@ + lit_code_unauthorized());
    }
}

/// The bytes of `"internal_error"`.
pub open spec fn lit_code_internal() -> Seq<u8> {
    seq![0x22, 0x69, 0x6e, 0x74, 0x65, 0x72, 0x6e, 0x61, 0x6c, 0x5f, 0x65, 0x72, 0x72, 0x6f, 0x72, 0x22]
}

fn push_lit_code_internal(out: &mut Vec<u8>)
    ensures
        final(out)@ == old(out)@ + lit_code_internal(),
{
    out.push(0x22);
    out.push(0x69);
    out.push(0x6e);
    out.push(0x74);
    out.push(0x65);
    out.push(0x72);
    out.push(0x6e);
    out.push(0x61);
    out.push(0x6c);
    out.push(0x5f);
    out.push(0x65);
    out.push(0x72);
    out.push(0x72);
    out.push(0x6f);
    out.push(0x72);
    out.push(0x22);
    proof {
        assert(out@ =~= old(out)@ + lit_code_internal());
    }
}
/// Lowercase hexadecimal digit for a nibble.
pub open spec fn spec_hex_digit(d: u8) -> u8 {
    if d < 10 {
        (0x30 + d) as u8
    } else {
        (0x57 + d) as u8
    }
}

/// How one byte of string content appears inside a JSON string literal.
pub open spec fn spec_escape_byte(b: u8) -> Seq<u8> {
    if b == 0x22 {  // '"'
        seq![0x5cu8, 0x22]
    } else if b == 0x5c {  // '\'
        seq![0x5cu8, 0x5c]
    } else if b == 0x08 {
        seq![0x5cu8, 0x62]
    } else if b == 0x09 {
        seq![0x5cu8, 0x74]
    } else if b == 0x0a {
        seq![0x5cu8, 0x6e]
    } else if b == 0x0c {
        seq![0x5cu8, 0x66]
    } else if b == 0x0d {
        seq![0x5cu8, 0x72]
    } else if b < 0x20 {
        seq![0x5cu8, 0x75, 0x30, 0x30, spec_hex_digit((b / 16) as u8), spec_hex_digit(
            (b % 16) as u8,
        )]
    } else {
        seq![b]
    }
}

/// A whole byte string escaped for the inside of a JSON string literal.
pub open spec fn spec_escape(s: Seq<u8>) -> Seq<u8>
    decreases s.len(),
{
    if s.len() == 0 {
        Seq::empty()
    } else {
        spec_escape(s.drop_last()) + spec_escape_byte(s.last())
    }
}

/// A JSON string literal: quoted, escaped UTF-8 of the characters.
pub open spec fn spec_json_string(s: Seq<char>) -> Seq<u8> {
    seq![0x22u8] + spec_escape(encode_utf8(s)) + seq![0x22u8]
}

/// Decimal digits of a non-negative number, most significant first.
pub open spec fn spec_dec(n: int) -> Seq<u8>
    decreases n,
{
    if n < 10 {
        seq![(0x30 + n) as u8]
    } else {
        spec_dec(n / 10) + seq![(0x30 + n % 10) as u8]
    }
}

/// The `auth` field: `null` or an object with method and token.
pub open spec fn spec_enc_auth(auth: Option<AuthRequest>) -> Seq<u8> {
    match auth {
        None => lit_null_word(),
        Some(a) => lit_method_head() + spec_json_string(a.method@) + lit_token_key()
            + spec_json_string(a.token@) + seq![0x7du8],
    }
}

/// One metadata entry: key, colon, value.
pub open spec fn spec_enc_metadata_entry(e: (String, String)) -> Seq<u8> {
    spec_json_string(e.0@) + seq![0x3au8] + spec_json_string(e.1@)
}

/// Metadata entries joined by commas, in sequence order.
pub open spec fn spec_enc_metadata_inner(s: Seq<(String, String)>) -> Seq<u8>
    decreases s.len(),
{
    if s.len() == 0 {
        Seq::empty()
    } else if s.len() == 1 {
        spec_enc_metadata_entry(s[0])
    } else {
        spec_enc_metadata_inner(s.drop_last()) + seq![0x2cu8] + spec_enc_metadata_entry(s.last())
    }
}

/// The `metadata` field: an object of the entries in sequence order.
pub open spec fn spec_enc_metadata(s: Seq<(String, String)>) -> Seq<u8> {
    seq![0x7bu8] + spec_enc_metadata_inner(s) + seq![0x7du8]
}

/// The canonical encoding of a handshake request.
pub open spec fn spec_encode_request(m: HandshakeRequest) -> Seq<u8> {
    match m {
        HandshakeRequest::Agent { protocol_version, agent_id, auth, metadata } => lit_agent_head()
            + (spec_dec(protocol_version as int) + (lit_agent_id_key() + (spec_json_string(
            agent_id@,
        ) + (lit_auth_key() + (spec_enc_auth(auth) + (lit_metadata_key() + (spec_enc_metadata(
            metadata@,
        ) + seq![0x7du8]))))))),
        HandshakeRequest::Client {
            protocol_version,
            client_id,
            target_agent_id,
            auth,
            metadata,
        } => lit_client_head() + (spec_dec(protocol_version as int) + (lit_client_id_key() + (
        spec_json_string(client_id@) + (lit_target_key() + (spec_json_string(target_agent_id@) + (
        lit_auth_key() + (spec_enc_auth(auth) + (lit_metadata_key() + (spec_enc_metadata(metadata@)
            + seq![0x7du8]))))))))),
    }
}

/// The wire spelling of a rejection code.
pub open spec fn spec_code_bytes(code: HandshakeErrorCode) -> Seq<u8> {
    match code {
        HandshakeErrorCode::UnsupportedProtocolVersion => lit_code_unsupported(),
        HandshakeErrorCode::InvalidRequest => lit_code_invalid(),
        HandshakeErrorCode::AgentIdInUse => lit_code_in_use(),
        HandshakeErrorCode::AgentUnavailable => lit_code_unavailable(),
        HandshakeErrorCode::Unauthorized => lit_code_unauthorized(),
        HandshakeErrorCode::InternalError => lit_code_internal(),
    }
}

/// The canonical encoding of a handshake response.
pub open spec fn spec_encode_response(m: HandshakeResponse) -> Seq<u8> {
    match m {
        HandshakeResponse::Accepted(a) => lit_accepted_head() + (spec_dec(
            a.protocol_version as int,
        ) + (lit_session_key() + (spec_dec(a.session_id.0 as int) + seq![0x7du8]))),
        HandshakeResponse::Rejected(rej) => lit_rejected_head() + (spec_dec(
            rej.protocol_version as int,
        ) + (lit_code_key() + (spec_code_bytes(rej.code) + (lit_message_key() + (spec_json_string(
            rej.message@,
        ) + seq![0x7du8]))))),
    }
}

fn hex_digit(d: u8) -> (r: u8)
    requires
        d < 16,
    ensures
        r == spec_hex_digit(d),
{
    if d < 10 {
        0x30 + d
    } else {
        0x57 + d
    }
}

/// Appends the escaped form of one content byte.
fn push_escaped_byte(out: &mut Vec<u8>, b: u8)
    ensures
        final(out)@ == old(out)@ + spec_escape_byte(b),
{
    if b == 0x22 {
        out.push(0x5c);
        out.push(0x22);
    } else if b == 0x5c {
        out.push(0x5c);
        out.push(0x5c);
    } else if b == 0x08 {
        out.push(0x5c);
        out.push(0x62);
    } else if b == 0x09 {
        out.push(0x5c);
        out.push(0x74);
    } else if b == 0x0a {
        out.push(0x5c);
        out.push(0x6e);
    } else if b == 0x0c {
        out.push(0x5c);
        out.push(0x66);
    } else if b == 0x0d {
        out.push(0x5c);
        out.push(0x72);
    } else if b < 0x20 {
        out.push(0x5c);
        out.push(0x75);
        out.push(0x30);
        out.push(0x30);
        out.push(hex_digit(b / 16));
        out.push(hex_digit(b % 16));
    } else {
        out.push(b);
    }
    proof {
        assert(out@ =~= old(out)@ + spec_escape_byte(b));
    }
}

/// Appends a JSON string literal for `s`.
fn enc_json_string_into(out: &mut Vec<u8>, s: &str)
    ensures
        final(out)@ == old(out)@ + spec_json_string(s@),
{
    let bytes = s.as_bytes_vec();
    out.push(0x22);
    let mut i: usize = 0;
    while i < bytes.len()
        invariant
            0 <= i <= bytes@.len(),
            out@ == old(out)@ + seq![0x22u8] + spec_escape(bytes@.take(i as int)),
        decreases bytes@.len() - i,
    {
        push_escaped_byte(out, bytes[i]);
        i += 1;
        proof {
            assert(bytes@.take(i as int).drop_last() =~= bytes@.take(i as int - 1));
            assert(bytes@.take(i as int).last() == bytes@[i as int - 1]);
        }
    }
    out.push(0x22);
    proof {
        assert(bytes@.take(bytes@.len() as int) =~= bytes@);
        assert(out@ =~= old(out)@ + spec_json_string(s@));
    }
}

/// Appends the decimal digits of `n`.
fn enc_dec_into(out: &mut Vec<u8>, n: u64)
    ensures
        final(out)@ == old(out)@ + spec_dec(n as int),
    decreases n,
{
    if n < 10 {
        out.push(0x30 + (n as u8));
        proof {
            assert(out@ =~= old(out)@ + spec_dec(n as int));
        }
    } else {
        enc_dec_into(out, n / 10);
        out.push(0x30 + ((n % 10) as u8));
        proof {
            assert(out@ =~= old(out)@ + spec_dec(n as int));
        }
    }
}

/// Appends the `auth` field value.
fn enc_auth_into(out: &mut Vec<u8>, auth: &Option<AuthRequest>)
    ensures
        final(out)@ == old(out)@ + spec_enc_auth(*auth),
{
    match auth {
        None => push_lit_null_word(out),
        Some(a) => {
            push_lit_method_head(out);
            enc_json_string_into(out, a.method.as_str());
            push_lit_token_key(out);
            enc_json_string_into(out, a.token.as_str());
            out.push(0x7d);
            proof {
                assert(out@ =~= old(out)@ + spec_enc_auth(*auth));
            }
        },
    }
}

/// Appends the `metadata` object.
fn enc_metadata_into(out: &mut Vec<u8>, entries: &Vec<(String, String)>)
    ensures
        final(out)@ == old(out)@ + spec_enc_metadata(entries@),
{
    out.push(0x7b);
    let mut i: usize = 0;
    while i < entries.len()
        invariant
            0 <= i <= entries@.len(),
            out@ == old(out)@ + seq![0x7bu8] + spec_enc_metadata_inner(entries@.take(i as int)),
        decreases entries@.len() - i,
    {
        if i > 0 {
            out.push(0x2c);
        }
        enc_json_string_into(out, entries[i].0.as_str());
        out.push(0x3a);
        enc_json_string_into(out, entries[i].1.as_str());
        i += 1;
        proof {
            assert(entries@.take(i as int).drop_last() =~= entries@.take(i as int - 1));
            assert(entries@.take(i as int).last() == entries@[i as int - 1]);
            assert(out@ =~= old(out)@ + seq![0x7bu8] + spec_enc_metadata_inner(
                entries@.take(i as int),
            ));
        }
    }
    out.push(0x7d);
    proof {
        assert(entries@.take(entries@.len() as int) =~= entries@);
        assert(out@ =~= old(out)@ + spec_enc_metadata(entries@));
    }
}

/// Serializes a handshake request into its canonical JSON bytes.
#[verifier::rlimit(100)]
pub fn encode_request(m: &HandshakeRequest) -> (r: Vec<u8>)
    ensures
        r@ == spec_encode_request(*m),
{
    let mut out: Vec<u8> = Vec::new();
    match m {
        HandshakeRequest::Agent { protocol_version, agent_id, auth, metadata } => {
            push_lit_agent_head(&mut out);
            enc_dec_into(&mut out, *protocol_version as u64);
            push_lit_agent_id_key(&mut out);
            enc_json_string_into(&mut out, agent_id.as_str());
            push_lit_auth_key(&mut out);
            enc_auth_into(&mut out, auth);
            push_lit_metadata_key(&mut out);
            enc_metadata_into(&mut out, metadata);
            out.push(0x7d);
        },
        HandshakeRequest::Client { protocol_version, client_id, target_agent_id, auth, metadata } => {
            push_lit_client_head(&mut out);
            enc_dec_into(&mut out, *protocol_version as u64);
            push_lit_client_id_key(&mut out);
            enc_json_string_into(&mut out, client_id.as_str());
            push_lit_target_key(&mut out);
            enc_json_string_into(&mut out, target_agent_id.as_str());
            push_lit_auth_key(&mut out);
            enc_auth_into(&mut out, auth);
            push_lit_metadata_key(&mut out);
            enc_metadata_into(&mut out, metadata);
            out.push(0x7d);
        },
    }
    proof {
        assert(out@ =~= spec_encode_request(*m));
    }
    out
}

/// Serializes a handshake response into its canonical JSON bytes.
#[verifier::rlimit(100)]
pub fn encode_response(m: &HandshakeResponse) -> (r: Vec<u8>)
    ensures
        r@ == spec_encode_response(*m),
{
    let mut out: Vec<u8> = Vec::new();
    match m {
        HandshakeResponse::Accepted(a) => {
            push_lit_accepted_head(&mut out);
            enc_dec_into(&mut out, a.protocol_version as u64);
            push_lit_session_key(&mut out);
            enc_dec_into(&mut out, a.session_id.0);
            out.push(0x7d);
        },
        HandshakeResponse::Rejected(rej) => {
            push_lit_rejected_head(&mut out);
            enc_dec_into(&mut out, rej.protocol_version as u64);
            push_lit_code_key(&mut out);
            match rej.code {
                HandshakeErrorCode::UnsupportedProtocolVersion => push_lit_code_unsupported(
                    &mut out,
                ),
                HandshakeErrorCode::InvalidRequest => push_lit_code_invalid(&mut out),
                HandshakeErrorCode::AgentIdInUse => push_lit_code_in_use(&mut out),
                HandshakeErrorCode::AgentUnavailable => push_lit_code_unavailable(&mut out),
                HandshakeErrorCode::Unauthorized => push_lit_code_unauthorized(&mut out),
                HandshakeErrorCode::InternalError => push_lit_code_internal(&mut out),
            }
            push_lit_message_key(&mut out);
            enc_json_string_into(&mut out, rej.message.as_str());
            out.push(0x7d);
        },
    }
    proof {
        assert(out@ =~= spec_encode_response(*m));
    }
    out
}

/// Renders a number as its decimal digits.
pub fn decimal_string(n: u64) -> (r: String)
    ensures
        encode_utf8(r@) == spec_dec(n as int),
{
    let mut digits: Vec<u8> = Vec::new();
    enc_dec_into(&mut digits, n);
    proof {
        crate::laws::lemma_dec_digits(n as int);
        assert(digits@ =~= spec_dec(n as int));
        assert forall|i: int|
            0 <= i < digits@.len() implies #[trigger] vstd::utf8::is_leading_byte_width_1(
            digits@[i],
        ) by {
            assert(crate::laws::is_digit(spec_dec(n as int)[i]));
        }
        assert(digits@.subrange(0, 0) =~= Seq::<u8>::empty());
        assert(vstd::utf8::partial_valid_utf8(digits@, 0));
        vstd::utf8::partial_valid_utf8_extend_ascii_block(digits@, 0, digits@.len() as int);
        assert(digits@.subrange(0, digits@.len() as int) =~= digits@);
        assert(valid_utf8(digits@));
    }
    match string_from_utf8(digits) {
        Some(s) => s,
        None => String::new(),
    }
}

/// Relies on `String::from_utf8`: succeeds exactly on valid UTF-8, and the
/// returned string's byte form is the input.
#[verifier::external_body]
fn string_from_utf8(bytes: Vec<u8>) -> (r: Option<String>)
    ensures
        r matches Some(s) ==> encode_utf8(s@) == bytes@,
        valid_utf8(bytes@) ==> r is Some,
{
    String::from_utf8(bytes).ok()
}

/// Whether two byte strings are equal.
pub fn bytes_equal(a: &[u8], b: &[u8]) -> (r: bool)
    ensures
        r == (a@ == b@),
{
    if a.len() != b.len() {
        return false;
    }
    let mut i: usize = 0;
    while i < a.len()
        invariant
            0 <= i <= a@.len(),
            a@.len() == b@.len(),
            forall|j: int| 0 <= j < i ==> a@[j] == b@[j],
        decreases a@.len() - i,
    {
        if a[i] != b[i] {
            return false;
        }
        i += 1;
    }
    proof {
        assert(a@ =~= b@);
    }
    true
}

/// Cursor over the bytes of one frame while it is scanned.
struct Scanner<'a> {
    buf: &'a [u8],
    pos: usize,
}

impl<'a> Scanner<'a> {
    spec fn wf(self) -> bool {
        self.pos <= self.buf@.len()
    }

    /// Consumes `lit` if it is next; reports whether it was.
    fn eat(&mut self, lit: &Vec<u8>) -> (r: bool)
        requires
            old(self).wf(),
        ensures
            final(self).wf(),
            final(self).buf == old(self).buf,
    {
        let n = lit.len();
        let total = self.buf.len();
        if total - self.pos < n {
            return false;
        }
        let mut i: usize = 0;
        while i < n
            invariant
                *self == *old(self),
                old(self).wf(),
                n == lit@.len(),
                0 <= i <= n,
                total == self.buf@.len(),
                self.pos + n <= total,
            decreases n - i,
        {
            if self.buf[self.pos + i] != lit[i] {
                return false;
            }
            i += 1;
        }
        self.pos = self.pos + n;
        true
    }

    /// Consumes one expected byte; reports whether it was next.
    fn eat_byte(&mut self, b: u8) -> (r: bool)
        requires
            old(self).wf(),
        ensures
            final(self).wf(),
            final(self).buf == old(self).buf,
            r ==> final(self).pos > old(self).pos,
    {
        if self.pos < self.buf.len() && self.buf[self.pos] == b {
            self.pos = self.pos + 1;
            true
        } else {
            false
        }
    }

    /// Whether `b` is next, consuming nothing.
    fn peek_is(&self, b: u8) -> (r: bool)
        requires
            self.wf(),
    {
        self.pos < self.buf.len() && self.buf[self.pos] == b
    }

    /// Consumes a run of decimal digits as a number; nothing on a missing
    /// digit or a value above `u64::MAX`.
    fn read_u64(&mut self) -> (r: Option<u64>)
        requires
            old(self).wf(),
        ensures
            final(self).wf(),
            final(self).buf == old(self).buf,
    {
        let mut n: u64 = 0;
        let mut seen: bool = false;
        while self.pos < self.buf.len() && self.buf[self.pos] >= 0x30 && self.buf[self.pos] <= 0x39
            invariant
                self.wf(),
                self.buf == old(self).buf,
            decreases self.buf@.len() - self.pos,
        {
            let d = (self.buf[self.pos] - 0x30) as u64;
            if n > (u64::MAX - d) / 10 {
                return None;
            }
            n = n * 10 + d;
            seen = true;
            self.pos = self.pos + 1;
        }
        if seen {
            Some(n)
        } else {
            None
        }
    }

    /// Consumes one JSON string literal and yields its unescaped content
    /// bytes; nothing on a malformed literal.
    fn read_string_bytes(&mut self) -> (r: Option<Vec<u8>>)
        requires
            old(self).wf(),
        ensures
            final(self).wf(),
            final(self).buf == old(self).buf,
            r is Some ==> final(self).pos > old(self).pos,
    {
        if !self.eat_byte(0x22) {
            return None;
        }
        let mut out: Vec<u8> = Vec::new();
        loop
            invariant
                self.wf(),
                self.buf == old(self).buf,
                self.pos > old(self).pos,
            decreases self.buf@.len() - self.pos,
        {
            if self.pos >= self.buf.len() {
                return None;
            }
            let b = self.buf[self.pos];
            if b == 0x22 {
                self.pos = self.pos + 1;
                return Some(out);
            }
            if b == 0x5c {
                if self.buf.len() - self.pos < 2 {
                    return None;
                }
                let e = self.buf[self.pos + 1];
                if e == 0x22 {
                    out.push(0x22);
                } else if e == 0x5c {
                    out.push(0x5c);
                } else if e == 0x62 {
                    out.push(0x08);
                } else if e == 0x74 {
                    out.push(0x09);
                } else if e == 0x6e {
                    out.push(0x0a);
                } else if e == 0x66 {
                    out.push(0x0c);
                } else if e == 0x72 {
                    out.push(0x0d);
                } else if e == 0x75 {
                    if self.buf.len() - self.pos < 6 {
                        return None;
                    }
                    let h0 = hex_value(self.buf[self.pos + 2]);
                    let h1 = hex_value(self.buf[self.pos + 3]);
                    let h2 = hex_value(self.buf[self.pos + 4]);
                    let h3 = hex_value(self.buf[self.pos + 5]);
                    match (h0, h1, h2, h3) {
                        (Some(a), Some(c), Some(d), Some(f)) => {
                            if a != 0 || c != 0 {
                                // only byte-size escapes appear on this wire
                                return None;
                            }
                            out.push(d * 16 + f);
                        },
                        _ => {
                            return None;
                        },
                    }
                    self.pos = self.pos + 6;
                    continue ;
                } else {
                    return None;
                }
                self.pos = self.pos + 2;
                continue ;
            }
            out.push(b);
            self.pos = self.pos + 1;
        }
    }

    /// Consumes one JSON string literal and yields it as a string.
    fn read_string(&mut self) -> (r: Option<String>)
        requires
            old(self).wf(),
        ensures
            final(self).wf(),
            final(self).buf == old(self).buf,
    {
        match self.read_string_bytes() {
            Some(bytes) => string_from_utf8(bytes),
            None => None,
        }
    }
}

/// The value of one hexadecimal digit byte, either case.
fn hex_value(b: u8) -> (r: Option<u8>)
    ensures
        r matches Some(v) ==> v < 16,
{
    if 0x30 <= b && b <= 0x39 {
        Some(b - 0x30)
    } else if 0x61 <= b && b <= 0x66 {
        Some(b - 0x57)
    } else if 0x41 <= b && b <= 0x46 {
        Some(b - 0x37)
    } else {
        None
    }
}

/// Scans the `auth` field value.
fn scan_auth(sc: &mut Scanner<'_>) -> (r: Option<Option<AuthRequest>>)
    requires
        old(sc).wf(),
    ensures
        final(sc).wf(),
        final(sc).buf == old(sc).buf,
{
    if sc.peek_is(0x6e) {
        let mut lit: Vec<u8> = Vec::new();
        push_lit_null_word(&mut lit);
        if sc.eat(&lit) {
            return Some(None);
        }
        return None;
    }
    let mut lit: Vec<u8> = Vec::new();
    push_lit_method_head(&mut lit);
    if !sc.eat(&lit) {
        return None;
    }
    let method = match sc.read_string() {
        Some(s) => s,
        None => {
            return None;
        },
    };
    let mut lit2: Vec<u8> = Vec::new();
    push_lit_token_key(&mut lit2);
    if !sc.eat(&lit2) {
        return None;
    }
    let token = match sc.read_string() {
        Some(s) => s,
        None => {
            return None;
        },
    };
    if !sc.eat_byte(0x7d) {
        return None;
    }
    Some(Some(AuthRequest { method, token }))
}

/// Whether `a` comes strictly before `b` in byte order, from position `i` on.
fn bytes_less_from(a: &Vec<u8>, b: &Vec<u8>, i: usize) -> (r: bool)
    requires
        i <= a@.len(),
        i <= b@.len(),
    ensures
        r == crate::handshake::bytes_lt(a@.skip(i as int), b@.skip(i as int)),
    decreases a@.len() - i,
{
    proof {
        if i < a@.len() {
            assert(a@.skip(i as int)[0] == a@[i as int]);
        }
        if i < b@.len() {
            assert(b@.skip(i as int)[0] == b@[i as int]);
        }
    }
    if i == b.len() {
        false
    } else if i == a.len() {
        true
    } else if a[i] < b[i] {
        true
    } else if a[i] > b[i] {
        false
    } else {
        let r = bytes_less_from(a, b, i + 1);
        proof {
            assert(a@.skip(i as int).drop_first() =~= a@.skip(i as int + 1));
            assert(b@.skip(i as int).drop_first() =~= b@.skip(i as int + 1));
        }
        r
    }
}

/// Whether `a` comes strictly before `b` in byte order.
fn bytes_less(a: &Vec<u8>, b: &Vec<u8>) -> (r: bool)
    ensures
        r == crate::handshake::bytes_lt(a@, b@),
{
    let r = bytes_less_from(a, b, 0);
    proof {
        assert(a@.skip(0) =~= a@);
        assert(b@.skip(0) =~= b@);
    }
    r
}

/// Scans the `metadata` object, refusing keys that are not strictly
/// ascending in byte order.
fn scan_metadata(sc: &mut Scanner<'_>) -> (r: Option<Vec<(String, String)>>)
    requires
        old(sc).wf(),
    ensures
        final(sc).wf(),
        final(sc).buf == old(sc).buf,
        r matches Some(entries) ==> crate::handshake::metadata_sorted(entries@),
{
    if !sc.eat_byte(0x7b) {
        return None;
    }
    let mut entries: Vec<(String, String)> = Vec::new();
    if sc.eat_byte(0x7d) {
        return Some(entries);
    }
    let mut prev_key: Option<Vec<u8>> = None;
    loop
        invariant
            sc.wf(),
            sc.buf == old(sc).buf,
            crate::handshake::metadata_sorted(entries@),
            entries@.len() == 0 <==> prev_key is None,
            prev_key matches Some(prev) ==> entries@.len() > 0 && prev@ == encode_utf8(
                entries@.last().0@,
            ),
        decreases sc.buf@.len() - sc.pos,
    {
        let entry_pos = sc.pos;
        let key_bytes = match sc.read_string_bytes() {
            Some(b) => b,
            None => {
                return None;
            },
        };
        match &prev_key {
            Some(prev) => {
                if !bytes_less(prev, &key_bytes) {
                    return None;
                }
            },
            None => {},
        }
        if !sc.eat_byte(0x3a) {
            return None;
        }
        let value = match sc.read_string() {
            Some(s) => s,
            None => {
                return None;
            },
        };
        let key = match string_from_utf8(key_bytes) {
            Some(s) => s,
            None => {
                return None;
            },
        };
        let new_prev = key.as_str().as_bytes_vec();
        let ghost pre_push = entries@;
        let pair = (key, value);
        let ghost pushed = pair;
        entries.push(pair);
        prev_key = Some(new_prev);
        proof {
            assert(entries@ == pre_push.push(pushed));
            assert(entries@.last() == pushed);
            assert(pre_push.len() > 0 ==> crate::handshake::bytes_lt(
                encode_utf8(pre_push.last().0@),
                encode_utf8(pushed.0@),
            ));
            assert forall|i: int|
                0 <= i && i + 1 < entries@.len() implies crate::handshake::bytes_lt(
                encode_utf8((#[trigger] entries@[i]).0@),
                encode_utf8(entries@[i + 1].0@),
            ) by {
                if i + 1 < entries@.len() - 1 {
                    assert(pre_push.push(pushed)[i] == pre_push[i]);
                    assert(pre_push.push(pushed)[i + 1] == pre_push[i + 1]);
                    assert(crate::handshake::bytes_lt(
                        encode_utf8((pre_push[i]).0@),
                        encode_utf8(pre_push[i + 1].0@),
                    ));
                } else {
                    assert(pre_push.push(pushed)[i] == pre_push[i]);
                    assert(pre_push[i] == pre_push.last());
                }
            }
        }
        if sc.eat_byte(0x2c) {
            if sc.pos <= entry_pos {
                return None;
            }
            continue ;
        }
        if sc.eat_byte(0x7d) {
            return Some(entries);
        }
        return None;
    }
}

/// Scans a whole request; yields a message whose identifiers are well-formed.
fn scan_request(bytes: &[u8]) -> (r: Option<HandshakeRequest>)
    ensures
        r matches Some(m) ==> m.wf(),
{
    let mut sc = Scanner { buf: bytes, pos: 0 };
    let mut agent_head: Vec<u8> = Vec::new();
    push_lit_agent_head(&mut agent_head);
    let is_agent: bool;
    if sc.eat(&agent_head) {
        is_agent = true;
    } else {
        let mut client_head: Vec<u8> = Vec::new();
        push_lit_client_head(&mut client_head);
        if sc.eat(&client_head) {
            is_agent = false;
        } else {
            return None;
        }
    }
    let version = match sc.read_u64() {
        Some(n) => n,
        None => {
            return None;
        },
    };
    if version > 0xffff {
        return None;
    }
    let protocol_version = version as u16;
    if is_agent {
        let mut key: Vec<u8> = Vec::new();
        push_lit_agent_id_key(&mut key);
        if !sc.eat(&key) {
            return None;
        }
        let agent_id = match scan_id(&mut sc) {
            Some(id) => id,
            None => {
                return None;
            },
        };
        let mut auth_key: Vec<u8> = Vec::new();
        push_lit_auth_key(&mut auth_key);
        if !sc.eat(&auth_key) {
            return None;
        }
        let auth = match scan_auth(&mut sc) {
            Some(a) => a,
            None => {
                return None;
            },
        };
        let mut meta_key: Vec<u8> = Vec::new();
        push_lit_metadata_key(&mut meta_key);
        if !sc.eat(&meta_key) {
            return None;
        }
        let metadata = match scan_metadata(&mut sc) {
            Some(m) => m,
            None => {
                return None;
            },
        };
        if !sc.eat_byte(0x7d) {
            return None;
        }
        Some(HandshakeRequest::Agent { protocol_version, agent_id, auth, metadata })
    } else {
        let mut key: Vec<u8> = Vec::new();
        push_lit_client_id_key(&mut key);
        if !sc.eat(&key) {
            return None;
        }
        let client_id = match scan_client_id(&mut sc) {
            Some(id) => id,
            None => {
                return None;
            },
        };
        let mut target_key: Vec<u8> = Vec::new();
        push_lit_target_key(&mut target_key);
        if !sc.eat(&target_key) {
            return None;
        }
        let target_agent_id = match scan_id(&mut sc) {
            Some(id) => id,
            None => {
                return None;
            },
        };
        let mut auth_key: Vec<u8> = Vec::new();
        push_lit_auth_key(&mut auth_key);
        if !sc.eat(&auth_key) {
            return None;
        }
        let auth = match scan_auth(&mut sc) {
            Some(a) => a,
            None => {
                return None;
            },
        };
        let mut meta_key: Vec<u8> = Vec::new();
        push_lit_metadata_key(&mut meta_key);
        if !sc.eat(&meta_key) {
            return None;
        }
        let metadata = match scan_metadata(&mut sc) {
            Some(m) => m,
            None => {
                return None;
            },
        };
        if !sc.eat_byte(0x7d) {
            return None;
        }
        Some(
            HandshakeRequest::Client {
                protocol_version,
                client_id,
                target_agent_id,
                auth,
                metadata,
            },
        )
    }
}

/// Scans a string and validates it as an agent identifier.
fn scan_id(sc: &mut Scanner<'_>) -> (r: Option<AgentId>)
    requires
        old(sc).wf(),
    ensures
        final(sc).wf(),
        final(sc).buf == old(sc).buf,
        r matches Some(id) ==> id.wf(),
{
    let s = match sc.read_string() {
        Some(s) => s,
        None => {
            return None;
        },
    };
    match AgentId::new(s.as_str()) {
        Ok(id) => Some(id),
        Err(_) => None,
    }
}

/// Scans a string and validates it as a client identifier.
fn scan_client_id(sc: &mut Scanner<'_>) -> (r: Option<ClientId>)
    requires
        old(sc).wf(),
    ensures
        final(sc).wf(),
        final(sc).buf == old(sc).buf,
        r matches Some(id) ==> id.wf(),
{
    let s = match sc.read_string() {
        Some(s) => s,
        None => {
            return None;
        },
    };
    match ClientId::new(s.as_str()) {
        Ok(id) => Some(id),
        Err(_) => None,
    }
}

/// Scans a whole response.
fn scan_response(bytes: &[u8]) -> (r: Option<HandshakeResponse>) {
    let mut sc = Scanner { buf: bytes, pos: 0 };
    let mut accepted_head: Vec<u8> = Vec::new();
    push_lit_accepted_head(&mut accepted_head);
    if sc.eat(&accepted_head) {
        let version = match sc.read_u64() {
            Some(n) => n,
            None => {
                return None;
            },
        };
        if version > 0xffff {
            return None;
        }
        let mut session_key: Vec<u8> = Vec::new();
        push_lit_session_key(&mut session_key);
        if !sc.eat(&session_key) {
            return None;
        }
        let session = match sc.read_u64() {
            Some(n) => n,
            None => {
                return None;
            },
        };
        if !sc.eat_byte(0x7d) {
            return None;
        }
        return Some(
            HandshakeResponse::Accepted(
                HandshakeAccepted {
                    protocol_version: version as u16,
                    session_id: SessionId(session),
                },
            ),
        );
    }
    let mut rejected_head: Vec<u8> = Vec::new();
    push_lit_rejected_head(&mut rejected_head);
    if !sc.eat(&rejected_head) {
        return None;
    }
    let version = match sc.read_u64() {
        Some(n) => n,
        None => {
            return None;
        },
    };
    if version > 0xffff {
        return None;
    }
    let mut code_key: Vec<u8> = Vec::new();
    push_lit_code_key(&mut code_key);
    if !sc.eat(&code_key) {
        return None;
    }
    let code = match scan_code(&mut sc) {
        Some(c) => c,
        None => {
            return None;
        },
    };
    let mut message_key: Vec<u8> = Vec::new();
    push_lit_message_key(&mut message_key);
    if !sc.eat(&message_key) {
        return None;
    }
    let message = match sc.read_string() {
        Some(s) => s,
        None => {
            return None;
        },
    };
    if !sc.eat_byte(0x7d) {
        return None;
    }
    Some(
        HandshakeResponse::Rejected(
            HandshakeRejected { protocol_version: version as u16, code, message },
        ),
    )
}

/// Scans one rejection code word.
fn scan_code(sc: &mut Scanner<'_>) -> (r: Option<HandshakeErrorCode>)
    requires
        old(sc).wf(),
    ensures
        final(sc).wf(),
        final(sc).buf == old(sc).buf,
{
    let mut lit: Vec<u8> = Vec::new();
    push_lit_code_unsupported(&mut lit);
    if sc.eat(&lit) {
        return Some(HandshakeErrorCode::UnsupportedProtocolVersion);
    }
    let mut lit2: Vec<u8> = Vec::new();
    push_lit_code_invalid(&mut lit2);
    if sc.eat(&lit2) {
        return Some(HandshakeErrorCode::InvalidRequest);
    }
    let mut lit3: Vec<u8> = Vec::new();
    push_lit_code_in_use(&mut lit3);
    if sc.eat(&lit3) {
        return Some(HandshakeErrorCode::AgentIdInUse);
    }
    let mut lit4: Vec<u8> = Vec::new();
    push_lit_code_unavailable(&mut lit4);
    if sc.eat(&lit4) {
        return Some(HandshakeErrorCode::AgentUnavailable);
    }
    let mut lit5: Vec<u8> = Vec::new();
    push_lit_code_unauthorized(&mut lit5);
    if sc.eat(&lit5) {
        return Some(HandshakeErrorCode::Unauthorized);
    }
    let mut lit6: Vec<u8> = Vec::new();
    push_lit_code_internal(&mut lit6);
    if sc.eat(&lit6) {
        return Some(HandshakeErrorCode::InternalError);
    }
    None
}

/// Reads a handshake request back from frame bytes.
///
/// Succeeds exactly on the canonical encoding of a message, and then returns
/// that message: whenever `Ok(m)` comes back, the input was `m`'s encoding.
/// Success is owed on the canonical encoding of every simple request (the
/// shape the drivers send: current version, no credential, empty metadata);
/// other canonical encodings are accepted by the general scanner.
pub fn parse_request(bytes: &[u8]) -> (r: Result<HandshakeRequest, ProtocolError>)
    ensures
        r matches Ok(m) ==> m.wf() && bytes@ == spec_encode_request(m),
        r is Err ==> r == Err::<HandshakeRequest, ProtocolError>(ProtocolError::Json),
        forall|m: HandshakeRequest|
            m.wf() && simple_request(m) && bytes@ == #[trigger] spec_encode_request(m)
                ==> r is Ok,
{
    if let Some(m) = parse_simple_request(bytes) {
        return Ok(m);
    }
    let m = match scan_request(bytes) {
        Some(m) => m,
        None => {
            return Err(ProtocolError::Json);
        },
    };
    let enc = encode_request(&m);
    if bytes_equal(bytes, enc.as_slice()) {
        Ok(m)
    } else {
        Err(ProtocolError::Json)
    }
}

/// Reads a handshake response back from frame bytes.
///
/// Succeeds exactly on the canonical encoding of a message, and then returns
/// that message: whenever `Ok(m)` comes back, the input was `m`'s encoding.
/// Success is owed on the canonical encoding of every acceptance at the
/// current protocol version, whatever its session id; rejections are
/// accepted by the general scanner.
pub fn parse_response(bytes: &[u8]) -> (r: Result<HandshakeResponse, ProtocolError>)
    ensures
        r matches Ok(m) ==> bytes@ == spec_encode_response(m),
        r is Err ==> r == Err::<HandshakeResponse, ProtocolError>(ProtocolError::Json),
        forall|m: HandshakeResponse|
            simple_response(m) && bytes@ == #[trigger] spec_encode_response(m) ==> r is Ok,
{
    if let Some(m) = parse_simple_accepted(bytes) {
        return Ok(m);
    }
    let m = match scan_response(bytes) {
        Some(m) => m,
        None => {
            return Err(ProtocolError::Json);
        },
    };
    let enc = encode_response(&m);
    if bytes_equal(bytes, enc.as_slice()) {
        Ok(m)
    } else {
        Err(ProtocolError::Json)
    }
}

/// A request as the drivers build one: current protocol version, no
/// credential, empty metadata. `parse_request` owes success on the canonical
/// encodings of these.
pub open spec fn simple_request(m: HandshakeRequest) -> bool {
    match m {
        HandshakeRequest::Agent { protocol_version, auth, metadata, .. } => protocol_version
            == crate::PROTOCOL_VERSION && auth is None && metadata@.len() == 0,
        HandshakeRequest::Client { protocol_version, auth, metadata, .. } => protocol_version
            == crate::PROTOCOL_VERSION && auth is None && metadata@.len() == 0,
    }
}

/// An acceptance at the current protocol version. `parse_response` owes
/// success on the canonical encodings of these.
pub open spec fn simple_response(m: HandshakeResponse) -> bool {
    match m {
        HandshakeResponse::Accepted(a) => a.protocol_version == crate::PROTOCOL_VERSION,
        HandshakeResponse::Rejected(_) => false,
    }
}

/// Everything before the identifier in a simple agent request.
pub open spec fn lit_simple_agent_prefix() -> Seq<u8> {
    lit_agent_head() + seq![0x31u8] + lit_agent_id_key() + seq![0x22u8]
}

/// Everything before the client identifier in a simple client request.
pub open spec fn lit_simple_client_prefix() -> Seq<u8> {
    lit_client_head() + seq![0x31u8] + lit_client_id_key() + seq![0x22u8]
}

/// Between the two identifiers of a simple client request.
pub open spec fn lit_simple_mid() -> Seq<u8> {
    seq![0x22u8] + lit_target_key() + seq![0x22u8]
}

/// Everything after the last identifier of a simple request.
pub open spec fn lit_simple_suffix() -> Seq<u8> {
    seq![0x22u8] + lit_auth_key() + lit_null_word() + lit_metadata_key() + seq![0x7bu8, 0x7d, 0x7d]
}

/// A byte that escaping leaves alone.
pub open spec fn plain_content_byte(b: u8) -> bool {
    b >= 0x20 && b != 0x22 && b != 0x5c
}

/// Escaping is the identity on plain content bytes.
proof fn lemma_escape_plain(s: Seq<u8>)
    requires
        forall|i: int| 0 <= i < s.len() ==> plain_content_byte(#[trigger] s[i]),
    ensures
        spec_escape(s) == s,
    decreases s.len(),
{
    if s.len() == 0 {
        assert(spec_escape(s) =~= s);
    } else {
        lemma_escape_plain(s.drop_last());
        assert(plain_content_byte(s.last()));
        assert(spec_escape_byte(s.last()) =~= seq![s.last()]);
        assert(spec_escape(s) =~= s);
    }
}

/// Identifier bytes are plain content bytes.
proof fn lemma_id_bytes_plain(s: Seq<u8>)
    requires
        crate::ids::valid_id_bytes(s),
    ensures
        forall|i: int| 0 <= i < s.len() ==> plain_content_byte(#[trigger] s[i]),
{
}

/// The encoding of a simple agent request: fixed bytes around the raw
/// identifier.
proof fn lemma_simple_agent_encoding(m: HandshakeRequest)
    requires
        m matches (HandshakeRequest::Agent { .. }),
        m.wf(),
        simple_request(m),
    ensures
        m matches (HandshakeRequest::Agent { agent_id, .. }) ==> spec_encode_request(m)
            == lit_simple_agent_prefix() + encode_utf8(agent_id@) + lit_simple_suffix(),
{
    match m {
        HandshakeRequest::Agent { protocol_version, agent_id, auth, metadata } => {
            lemma_id_bytes_plain(encode_utf8(agent_id@));
            lemma_escape_plain(encode_utf8(agent_id@));
            assert(spec_dec(1) =~= seq![0x31u8]);
            assert(spec_enc_metadata_inner(metadata@) =~= Seq::<u8>::empty());
            assert(spec_encode_request(m) =~= lit_simple_agent_prefix() + encode_utf8(agent_id@)
                + lit_simple_suffix());
        },
        HandshakeRequest::Client { .. } => {},
    }
}

/// The encoding of a simple client request: fixed bytes around the two raw
/// identifiers.
proof fn lemma_simple_client_encoding(m: HandshakeRequest)
    requires
        m matches (HandshakeRequest::Client { .. }),
        m.wf(),
        simple_request(m),
    ensures
        m matches (HandshakeRequest::Client { client_id, target_agent_id, .. })
            ==> spec_encode_request(m) == lit_simple_client_prefix() + encode_utf8(client_id@)
            + lit_simple_mid() + encode_utf8(target_agent_id@) + lit_simple_suffix(),
{
    match m {
        HandshakeRequest::Client { protocol_version, client_id, target_agent_id, auth, metadata } => {
            lemma_id_bytes_plain(encode_utf8(client_id@));
            lemma_escape_plain(encode_utf8(client_id@));
            lemma_id_bytes_plain(encode_utf8(target_agent_id@));
            lemma_escape_plain(encode_utf8(target_agent_id@));
            assert(spec_dec(1) =~= seq![0x31u8]);
            assert(spec_enc_metadata_inner(metadata@) =~= Seq::<u8>::empty());
            assert(spec_encode_request(m) =~= lit_simple_client_prefix() + encode_utf8(client_id@)
                + lit_simple_mid() + encode_utf8(target_agent_id@) + lit_simple_suffix());
        },
        HandshakeRequest::Agent { .. } => {},
    }
}

/// Builds the fixed bytes before the identifier of a simple agent request.
fn simple_agent_prefix() -> (r: Vec<u8>)
    ensures
        r@ == lit_simple_agent_prefix(),
{
    let mut out: Vec<u8> = Vec::new();
    push_lit_agent_head(&mut out);
    out.push(0x31);
    push_lit_agent_id_key(&mut out);
    out.push(0x22);
    proof {
        assert(out@ =~= lit_simple_agent_prefix());
    }
    out
}

/// Builds the fixed bytes before the client identifier of a simple client
/// request.
fn simple_client_prefix() -> (r: Vec<u8>)
    ensures
        r@ == lit_simple_client_prefix(),
{
    let mut out: Vec<u8> = Vec::new();
    push_lit_client_head(&mut out);
    out.push(0x31);
    push_lit_client_id_key(&mut out);
    out.push(0x22);
    proof {
        assert(out@ =~= lit_simple_client_prefix());
    }
    out
}

/// Builds the fixed bytes between the identifiers of a simple client request.
fn simple_mid() -> (r: Vec<u8>)
    ensures
        r@ == lit_simple_mid(),
{
    let mut out: Vec<u8> = Vec::new();
    out.push(0x22);
    push_lit_target_key(&mut out);
    out.push(0x22);
    proof {
        assert(out@ =~= lit_simple_mid());
    }
    out
}

/// Builds the fixed bytes after the last identifier of a simple request.
fn simple_suffix() -> (r: Vec<u8>)
    ensures
        r@ == lit_simple_suffix(),
{
    let mut out: Vec<u8> = Vec::new();
    out.push(0x22);
    push_lit_auth_key(&mut out);
    push_lit_null_word(&mut out);
    push_lit_metadata_key(&mut out);
    out.push(0x7b);
    out.push(0x7d);
    out.push(0x7d);
    proof {
        assert(out@ =~= lit_simple_suffix());
    }
    out
}

/// Whether `buf` holds exactly `lit` starting at `at`.
fn matches_at(buf: &[u8], at: usize, lit: &Vec<u8>) -> (r: bool)
    requires
        at <= buf@.len(),
    ensures
        r == (at + lit@.len() <= buf@.len() && buf@.subrange(at as int, at + lit@.len()) == lit@),
{
    let n = lit.len();
    let total = buf.len();
    if total - at < n {
        return false;
    }
    let mut i: usize = 0;
    while i < n
        invariant
            n == lit@.len(),
            0 <= i <= n,
            total == buf@.len(),
            at + n <= total,
            forall|j: int| 0 <= j < i ==> buf@[at + j] == lit@[j],
        decreases n - i,
    {
        if buf[at + i] != lit[i] {
            proof {
                assert(buf@.subrange(at as int, at + lit@.len())[i as int] == buf@[at + i]);
            }
            return false;
        }
        i += 1;
    }
    proof {
        assert(buf@.subrange(at as int, at + lit@.len()) =~= lit@);
    }
    true
}

/// Copies `buf[from..to]` out.
fn copy_range(buf: &[u8], from: usize, to: usize) -> (r: Vec<u8>)
    requires
        from <= to <= buf@.len(),
    ensures
        r@ == buf@.subrange(from as int, to as int),
{
    let mut out: Vec<u8> = Vec::new();
    let mut i: usize = from;
    while i < to
        invariant
            from <= i <= to <= buf@.len(),
            out@ == buf@.subrange(from as int, i as int),
        decreases to - i,
    {
        out.push(buf[i]);
        i += 1;
        proof {
            assert(out@ =~= buf@.subrange(from as int, i as int));
        }
    }
    out
}

/// A simple request's encoding opens with its whole fixed prefix, and is at
/// least prefix + shortest identifier + suffix long.
proof fn lemma_simple_head(m: HandshakeRequest, bytes: Seq<u8>)
    requires
        m.wf(),
        simple_request(m),
        bytes == spec_encode_request(m),
    ensures
        m matches (HandshakeRequest::Agent { agent_id, .. }) ==> bytes.len()
            == lit_simple_agent_prefix().len() + encode_utf8(agent_id@).len()
            + lit_simple_suffix().len() && encode_utf8(agent_id@).len() >= 3 && bytes.subrange(
            0,
            lit_simple_agent_prefix().len() as int,
        ) == lit_simple_agent_prefix(),
        m matches (HandshakeRequest::Client { client_id, target_agent_id, .. }) ==> bytes.len()
            == lit_simple_client_prefix().len() + encode_utf8(client_id@).len()
            + lit_simple_mid().len() + encode_utf8(target_agent_id@).len()
            + lit_simple_suffix().len() && encode_utf8(client_id@).len() >= 3 && encode_utf8(
            target_agent_id@,
        ).len() >= 3 && bytes.subrange(0, lit_simple_client_prefix().len() as int)
            == lit_simple_client_prefix(),
{
    match m {
        HandshakeRequest::Agent { agent_id, .. } => {
            lemma_simple_agent_encoding(m);
            assert(bytes.subrange(0, lit_simple_agent_prefix().len() as int)
                =~= lit_simple_agent_prefix());
        },
        HandshakeRequest::Client { client_id, target_agent_id, .. } => {
            lemma_simple_client_encoding(m);
            assert(bytes.subrange(0, lit_simple_client_prefix().len() as int)
                =~= lit_simple_client_prefix());
        },
    }
}

/// After scanning to the first quote past a simple agent prefix, the cursor
/// sits exactly at the end of the identifier, and the suffix closes the
/// input.
proof fn lemma_simple_agent_scan(m: HandshakeRequest, bytes: Seq<u8>, i: int)
    requires
        m matches (HandshakeRequest::Agent { .. }),
        m.wf(),
        simple_request(m),
        bytes == spec_encode_request(m),
        lit_simple_agent_prefix().len() <= i <= bytes.len(),
        forall|j: int| lit_simple_agent_prefix().len() <= j < i ==> bytes[j] != 0x22,
        i == bytes.len() || bytes[i] == 0x22,
    ensures
        m matches (HandshakeRequest::Agent { agent_id, .. }) ==> {
            let start = lit_simple_agent_prefix().len() as int;
            &&& i == start + encode_utf8(agent_id@).len()
            &&& i < bytes.len()
            &&& bytes.len() == i + lit_simple_suffix().len()
            &&& bytes.subrange(start, i) == encode_utf8(agent_id@)
            &&& bytes.subrange(i, i + lit_simple_suffix().len() as int) == lit_simple_suffix()
        },
{
    lemma_simple_agent_encoding(m);
    match m {
        HandshakeRequest::Agent { agent_id, .. } => {
            let start = lit_simple_agent_prefix().len() as int;
            let id = encode_utf8(agent_id@);
            lemma_id_bytes_plain(id);
            let quote_at = start + id.len() as int;
            assert(bytes[quote_at] == lit_simple_suffix()[0]);
            assert(quote_at < bytes.len());
            if i < quote_at {
                assert(bytes[i] == id[i - start]);
                assert(plain_content_byte(id[i - start]));
                assert(false);
            }
            if i > quote_at {
                assert(bytes[quote_at] != 0x22);
                assert(false);
            }
            assert(bytes.subrange(start, i) =~= id);
            assert(bytes.subrange(i, i + lit_simple_suffix().len() as int)
                =~= lit_simple_suffix());
        },
        HandshakeRequest::Client { .. } => {},
    }
}

/// The same, for the first identifier of a simple client request: the cursor
/// sits at the end of the client id, followed by the fixed middle bytes.
proof fn lemma_simple_client_scan1(m: HandshakeRequest, bytes: Seq<u8>, i: int)
    requires
        m matches (HandshakeRequest::Client { .. }),
        m.wf(),
        simple_request(m),
        bytes == spec_encode_request(m),
        lit_simple_client_prefix().len() <= i <= bytes.len(),
        forall|j: int| lit_simple_client_prefix().len() <= j < i ==> bytes[j] != 0x22,
        i == bytes.len() || bytes[i] == 0x22,
    ensures
        m matches (HandshakeRequest::Client { client_id, .. }) ==> {
            let start = lit_simple_client_prefix().len() as int;
            &&& i == start + encode_utf8(client_id@).len()
            &&& i < bytes.len()
            &&& i + lit_simple_mid().len() <= bytes.len()
            &&& bytes.subrange(start, i) == encode_utf8(client_id@)
            &&& bytes.subrange(i, i + lit_simple_mid().len() as int) == lit_simple_mid()
        },
{
    lemma_simple_client_encoding(m);
    match m {
        HandshakeRequest::Client { client_id, target_agent_id, .. } => {
            let start = lit_simple_client_prefix().len() as int;
            let cid = encode_utf8(client_id@);
            lemma_id_bytes_plain(cid);
            let quote_at = start + cid.len() as int;
            assert(bytes[quote_at] == lit_simple_mid()[0]);
            assert(quote_at < bytes.len());
            if i < quote_at {
                assert(bytes[i] == cid[i - start]);
                assert(plain_content_byte(cid[i - start]));
                assert(false);
            }
            if i > quote_at {
                assert(bytes[quote_at] != 0x22);
                assert(false);
            }
            assert(bytes.subrange(start, i) =~= cid);
            assert(bytes.subrange(i, i + lit_simple_mid().len() as int) =~= lit_simple_mid());
        },
        HandshakeRequest::Agent { .. } => {},
    }
}

/// The same, for the target identifier of a simple client request: the
/// second cursor sits at the end of the target id, and the suffix closes the
/// input.
proof fn lemma_simple_client_scan2(m: HandshakeRequest, bytes: Seq<u8>, start2: int, k: int)
    requires
        m matches (HandshakeRequest::Client { .. }),
        m.wf(),
        simple_request(m),
        bytes == spec_encode_request(m),
        ({
            let cid_len = match m {
                HandshakeRequest::Client { client_id, .. } => encode_utf8(client_id@).len() as int,
                _ => 0,
            };
            start2 == lit_simple_client_prefix().len() + cid_len + lit_simple_mid().len()
        }),
        start2 <= k <= bytes.len(),
        forall|j: int| start2 <= j < k ==> bytes[j] != 0x22,
        k == bytes.len() || bytes[k] == 0x22,
    ensures
        m matches (HandshakeRequest::Client { target_agent_id, .. }) ==> {
            &&& k == start2 + encode_utf8(target_agent_id@).len()
            &&& k < bytes.len()
            &&& bytes.len() == k + lit_simple_suffix().len()
            &&& bytes.subrange(start2, k) == encode_utf8(target_agent_id@)
            &&& bytes.subrange(k, k + lit_simple_suffix().len() as int) == lit_simple_suffix()
        },
{
    lemma_simple_client_encoding(m);
    match m {
        HandshakeRequest::Client { target_agent_id, .. } => {
            let tid = encode_utf8(target_agent_id@);
            lemma_id_bytes_plain(tid);
            let quote_at = start2 + tid.len() as int;
            assert(bytes[quote_at] == lit_simple_suffix()[0]);
            assert(quote_at < bytes.len());
            if k < quote_at {
                assert(bytes[k] == tid[k - start2]);
                assert(plain_content_byte(tid[k - start2]));
                assert(false);
            }
            if k > quote_at {
                assert(bytes[quote_at] != 0x22);
                assert(false);
            }
            assert(bytes.subrange(start2, k) =~= tid);
            assert(bytes.subrange(k, k + lit_simple_suffix().len() as int)
                =~= lit_simple_suffix());
        },
        HandshakeRequest::Agent { .. } => {},
    }
}


/// Recognizes the canonical encoding of a simple agent request: fixed bytes
/// around the raw, escape-free identifier. Succeeds on exactly these
/// encodings, and returns the encoded message.
#[verifier::rlimit(100)]
fn parse_simple_agent(bytes: &[u8]) -> (r: Option<HandshakeRequest>)
    ensures
        r matches Some(m) ==> m.wf() && bytes@ == spec_encode_request(m),
        forall|m: HandshakeRequest|
            m matches (HandshakeRequest::Agent { .. }) && m.wf() && simple_request(m) && bytes@
                == #[trigger] spec_encode_request(m) ==> r is Some,
{
    let pre_a = simple_agent_prefix();
    let suf = simple_suffix();
    if !matches_at(bytes, 0, &pre_a) {
        proof {
            assert forall|m: HandshakeRequest|
                m matches (HandshakeRequest::Agent { .. }) && m.wf() && simple_request(m)
                    && bytes@ == #[trigger] spec_encode_request(m) implies false by {
                lemma_simple_head(m, bytes@);
            }
        }
        return None;
    }

        let start = pre_a.len();
        let mut i = start;
        while i < bytes.len() && bytes[i] != 0x22
            invariant
                start <= i <= bytes@.len(),
                forall|j: int| start <= j < i ==> bytes@[j] != 0x22,
            decreases bytes@.len() - i,
        {
            i += 1;
        }
        if i >= bytes.len() {
            proof {
                assert forall|m: HandshakeRequest|
                    m matches (HandshakeRequest::Agent { .. }) && m.wf() && simple_request(m)
                        && bytes@ == #[trigger] spec_encode_request(m)
                        implies false by {
                    lemma_simple_head(m, bytes@);
                    lemma_simple_agent_scan(m, bytes@, i as int);
                }
            }
            return None;
        }
        if !matches_at(bytes, i, &suf) || bytes.len() - i != suf.len() {
            proof {
                assert forall|m: HandshakeRequest|
                    m matches (HandshakeRequest::Agent { .. }) && m.wf() && simple_request(m)
                        && bytes@ == #[trigger] spec_encode_request(m)
                        implies false by {
                    lemma_simple_head(m, bytes@);
                    lemma_simple_agent_scan(m, bytes@, i as int);
                }
            }
            return None;
        }
        let id_bytes = copy_range(bytes, start, i);
        let s = match string_from_utf8(id_bytes) {
            Some(s) => s,
            None => {
                proof {
                    assert forall|m: HandshakeRequest|
                        m matches (HandshakeRequest::Agent { .. }) && m.wf() && simple_request(m)
                        && bytes@ == #[trigger] spec_encode_request(m)
                            implies false by {
                        lemma_simple_head(m, bytes@);
                        match m {
                            HandshakeRequest::Agent { agent_id, .. } => {
                                lemma_simple_agent_scan(m, bytes@, i as int);
                                vstd::utf8::encode_utf8_valid_utf8(agent_id@);
                            },
                            HandshakeRequest::Client { .. } => {},
                        }
                    }
                }
                return None;
            },
        };
        let id = match crate::ids::AgentId::new(s.as_str()) {
            Ok(id) => id,
            Err(_) => {
                proof {
                    assert forall|m: HandshakeRequest|
                        m matches (HandshakeRequest::Agent { .. }) && m.wf() && simple_request(m)
                        && bytes@ == #[trigger] spec_encode_request(m)
                            implies false by {
                        lemma_simple_head(m, bytes@);
                        match m {
                            HandshakeRequest::Agent { agent_id, .. } => {
                                lemma_simple_agent_scan(m, bytes@, i as int);
                                vstd::utf8::encode_utf8_decode_utf8(s@);
                                vstd::utf8::encode_utf8_decode_utf8(agent_id@);
                                assert(s@ == agent_id@);
                            },
                            HandshakeRequest::Client { .. } => {},
                        }
                    }
                }
                return None;
            },
        };
        let m = HandshakeRequest::Agent {
            protocol_version: crate::PROTOCOL_VERSION,
            agent_id: id,
            auth: None,
            metadata: Vec::new(),
        };
        proof {
            lemma_simple_agent_encoding(m);
            assert(bytes@ =~= bytes@.subrange(0, start as int) + bytes@.subrange(
                start as int,
                i as int,
            ) + bytes@.subrange(i as int, bytes@.len() as int));
            assert(bytes@.subrange(i as int, bytes@.len() as int) =~= lit_simple_suffix());
            assert(spec_encode_request(m) == bytes@);
        }
        Some(m)
}

/// Recognizes the canonical encoding of a simple client request: fixed bytes
/// around the two raw, escape-free identifiers. Succeeds on exactly these
/// encodings, and returns the encoded message.
#[verifier::rlimit(100)]
fn parse_simple_client(bytes: &[u8]) -> (r: Option<HandshakeRequest>)
    ensures
        r matches Some(m) ==> m.wf() && bytes@ == spec_encode_request(m),
        forall|m: HandshakeRequest|
            m matches (HandshakeRequest::Client { .. }) && m.wf() && simple_request(m) && bytes@
                == #[trigger] spec_encode_request(m) ==> r is Some,
{
    let pre_c = simple_client_prefix();
    let mid = simple_mid();
    let suf = simple_suffix();
    if !matches_at(bytes, 0, &pre_c) {
        proof {
            assert forall|m: HandshakeRequest|
                m matches (HandshakeRequest::Client { .. }) && m.wf() && simple_request(m)
                    && bytes@ == #[trigger] spec_encode_request(m) implies false by {
                lemma_simple_head(m, bytes@);
            }
        }
        return None;
    }

        let start = pre_c.len();
        let mut i = start;
        while i < bytes.len() && bytes[i] != 0x22
            invariant
                start <= i <= bytes@.len(),
                forall|j: int| start <= j < i ==> bytes@[j] != 0x22,
            decreases bytes@.len() - i,
        {
            i += 1;
        }
        if i >= bytes.len() || !matches_at(bytes, i, &mid) {
            proof {
                assert forall|m: HandshakeRequest|
                    m matches (HandshakeRequest::Client { .. }) && m.wf() && simple_request(m)
                        && bytes@ == #[trigger] spec_encode_request(m)
                        implies false by {
                    lemma_simple_head(m, bytes@);
                    match m {
                        HandshakeRequest::Client { .. } => {
                            lemma_simple_client_scan1(m, bytes@, i as int);
                        },
                        HandshakeRequest::Agent { .. } => {},
                    }
                }
            }
            return None;
        }
        let start2 = i + mid.len();
        let mut k = start2;
        while k < bytes.len() && bytes[k] != 0x22
            invariant
                start2 <= k <= bytes@.len(),
                forall|j: int| start2 <= j < k ==> bytes@[j] != 0x22,
            decreases bytes@.len() - k,
        {
            k += 1;
        }
        if k >= bytes.len() {
            proof {
                assert forall|m: HandshakeRequest|
                    m matches (HandshakeRequest::Client { .. }) && m.wf() && simple_request(m)
                        && bytes@ == #[trigger] spec_encode_request(m)
                        implies false by {
                    lemma_simple_head(m, bytes@);
                    match m {
                        HandshakeRequest::Client { .. } => {
                            lemma_simple_client_scan1(m, bytes@, i as int);
                            lemma_simple_client_scan2(m, bytes@, start2 as int, k as int);
                        },
                        HandshakeRequest::Agent { .. } => {},
                    }
                }
            }
            return None;
        }
        if !matches_at(bytes, k, &suf) || bytes.len() - k != suf.len() {
            proof {
                assert forall|m: HandshakeRequest|
                    m matches (HandshakeRequest::Client { .. }) && m.wf() && simple_request(m)
                        && bytes@ == #[trigger] spec_encode_request(m)
                        implies false by {
                    lemma_simple_head(m, bytes@);
                    match m {
                        HandshakeRequest::Client { .. } => {
                            lemma_simple_client_scan1(m, bytes@, i as int);
                            lemma_simple_client_scan2(m, bytes@, start2 as int, k as int);
                        },
                        HandshakeRequest::Agent { .. } => {},
                    }
                }
            }
            return None;
        }
        let cid_bytes = copy_range(bytes, start, i);
        let tid_bytes = copy_range(bytes, start2, k);
        let cs = match string_from_utf8(cid_bytes) {
            Some(s) => s,
            None => {
                proof {
                    assert forall|m: HandshakeRequest|
                        m matches (HandshakeRequest::Client { .. }) && m.wf() && simple_request(m)
                        && bytes@ == #[trigger] spec_encode_request(m)
                            implies false by {
                        lemma_simple_head(m, bytes@);
                        match m {
                            HandshakeRequest::Client { client_id, .. } => {
                                lemma_simple_client_scan1(m, bytes@, i as int);
                                vstd::utf8::encode_utf8_valid_utf8(client_id@);
                            },
                            HandshakeRequest::Agent { .. } => {},
                        }
                    }
                }
                return None;
            },
        };
        let ts = match string_from_utf8(tid_bytes) {
            Some(s) => s,
            None => {
                proof {
                    assert forall|m: HandshakeRequest|
                        m matches (HandshakeRequest::Client { .. }) && m.wf() && simple_request(m)
                        && bytes@ == #[trigger] spec_encode_request(m)
                            implies false by {
                        lemma_simple_head(m, bytes@);
                        match m {
                            HandshakeRequest::Client { target_agent_id, .. } => {
                                lemma_simple_client_scan1(m, bytes@, i as int);
                                lemma_simple_client_scan2(m, bytes@, start2 as int, k as int);
                                vstd::utf8::encode_utf8_valid_utf8(target_agent_id@);
                            },
                            HandshakeRequest::Agent { .. } => {},
                        }
                    }
                }
                return None;
            },
        };
        let client_id = match crate::ids::ClientId::new(cs.as_str()) {
            Ok(id) => id,
            Err(_) => {
                proof {
                    assert forall|m: HandshakeRequest|
                        m matches (HandshakeRequest::Client { .. }) && m.wf() && simple_request(m)
                        && bytes@ == #[trigger] spec_encode_request(m)
                            implies false by {
                        lemma_simple_head(m, bytes@);
                        match m {
                            HandshakeRequest::Client { client_id: cid0, .. } => {
                                lemma_simple_client_scan1(m, bytes@, i as int);
                                vstd::utf8::encode_utf8_decode_utf8(cs@);
                                vstd::utf8::encode_utf8_decode_utf8(cid0@);
                                assert(cs@ == cid0@);
                            },
                            HandshakeRequest::Agent { .. } => {},
                        }
                    }
                }
                return None;
            },
        };
        let target_agent_id = match crate::ids::AgentId::new(ts.as_str()) {
            Ok(id) => id,
            Err(_) => {
                proof {
                    assert forall|m: HandshakeRequest|
                        m matches (HandshakeRequest::Client { .. }) && m.wf() && simple_request(m)
                        && bytes@ == #[trigger] spec_encode_request(m)
                            implies false by {
                        lemma_simple_head(m, bytes@);
                        match m {
                            HandshakeRequest::Client { target_agent_id: tid0, .. } => {
                                lemma_simple_client_scan1(m, bytes@, i as int);
                                lemma_simple_client_scan2(m, bytes@, start2 as int, k as int);
                                vstd::utf8::encode_utf8_decode_utf8(ts@);
                                vstd::utf8::encode_utf8_decode_utf8(tid0@);
                                assert(ts@ == tid0@);
                            },
                            HandshakeRequest::Agent { .. } => {},
                        }
                    }
                }
                return None;
            },
        };
        let m = HandshakeRequest::Client {
            protocol_version: crate::PROTOCOL_VERSION,
            client_id,
            target_agent_id,
            auth: None,
            metadata: Vec::new(),
        };
        proof {
            lemma_simple_client_encoding(m);
            assert(bytes@ =~= bytes@.subrange(0, start as int) + bytes@.subrange(
                start as int,
                i as int,
            ) + bytes@.subrange(i as int, start2 as int) + bytes@.subrange(
                start2 as int,
                k as int,
            ) + bytes@.subrange(k as int, bytes@.len() as int));
            assert(bytes@.subrange(i as int, start2 as int) =~= lit_simple_mid());
            assert(bytes@.subrange(k as int, bytes@.len() as int) =~= lit_simple_suffix());
            assert(spec_encode_request(m) == bytes@);
        }
        Some(m)
}

/// Recognizes the canonical encoding of either simple request shape.
fn parse_simple_request(bytes: &[u8]) -> (r: Option<HandshakeRequest>)
    ensures
        r matches Some(m) ==> m.wf() && bytes@ == spec_encode_request(m),
        forall|m: HandshakeRequest|
            m.wf() && simple_request(m) && bytes@ == #[trigger] spec_encode_request(m)
                ==> r is Some,
{
    match parse_simple_agent(bytes) {
        Some(m) => Some(m),
        None => parse_simple_client(bytes),
    }
}


/// Everything before the session id digits of a simple acceptance.
pub open spec fn lit_simple_accepted_prefix() -> Seq<u8> {
    lit_accepted_head() + seq![0x31u8] + lit_session_key()
}

/// Builds the fixed bytes before the session id of a simple acceptance.
fn simple_accepted_prefix() -> (r: Vec<u8>)
    ensures
        r@ == lit_simple_accepted_prefix(),
{
    let mut out: Vec<u8> = Vec::new();
    push_lit_accepted_head(&mut out);
    out.push(0x31);
    push_lit_session_key(&mut out);
    proof {
        assert(out@ =~= lit_simple_accepted_prefix());
    }
    out
}

/// The encoding of a simple acceptance: fixed bytes around the session id
/// digits.
proof fn lemma_simple_accepted_encoding(m: HandshakeResponse)
    requires
        m matches (HandshakeResponse::Accepted(_)),
        simple_response(m),
    ensures
        m matches (HandshakeResponse::Accepted(a)) ==> spec_encode_response(m)
            == lit_simple_accepted_prefix() + spec_dec(a.session_id.0 as int) + seq![0x7du8],
{
    match m {
        HandshakeResponse::Accepted(a) => {
            assert(spec_dec(1) =~= seq![0x31u8]);
            assert(spec_encode_response(m) =~= lit_simple_accepted_prefix() + spec_dec(
                a.session_id.0 as int,
            ) + seq![0x7du8]);
        },
        HandshakeResponse::Rejected(_) => {},
    }
}

/// After scanning to the first non-digit past a simple acceptance prefix,
/// the cursor sits exactly at the end of the session id digits, and one
/// closing brace ends the input.
proof fn lemma_simple_accepted_scan(m: HandshakeResponse, bytes: Seq<u8>, i: int)
    requires
        m matches (HandshakeResponse::Accepted(_)),
        simple_response(m),
        bytes == spec_encode_response(m),
        lit_simple_accepted_prefix().len() <= i <= bytes.len(),
        forall|j: int|
            lit_simple_accepted_prefix().len() <= j < i ==> crate::laws::is_digit(bytes[j]),
        i == bytes.len() || !crate::laws::is_digit(bytes[i]),
    ensures
        m matches (HandshakeResponse::Accepted(a)) ==> {
            let start = lit_simple_accepted_prefix().len() as int;
            &&& i == start + spec_dec(a.session_id.0 as int).len()
            &&& i < bytes.len()
            &&& bytes.len() == i + 1
            &&& bytes[i] == 0x7d
            &&& bytes.subrange(start, i) == spec_dec(a.session_id.0 as int)
        },
{
    lemma_simple_accepted_encoding(m);
    match m {
        HandshakeResponse::Accepted(a) => {
            let start = lit_simple_accepted_prefix().len() as int;
            let digits = spec_dec(a.session_id.0 as int);
            crate::laws::lemma_dec_digits(a.session_id.0 as int);
            let brace_at = start + digits.len() as int;
            assert(bytes[brace_at] == 0x7d);
            assert(brace_at < bytes.len());
            if i < brace_at {
                assert(bytes[i] == digits[i - start]);
                assert(crate::laws::is_digit(digits[i - start]));
                assert(false);
            }
            if i > brace_at {
                assert(crate::laws::is_digit(bytes[brace_at]));
                assert(false);
            }
            assert(bytes.subrange(start, i) =~= digits);
        },
        HandshakeResponse::Rejected(_) => {},
    }
}

/// Recognizes the canonical encoding of a simple acceptance in one pass:
/// fixed bytes around the session id digits. Succeeds on exactly these
/// encodings, and returns the encoded message.
#[verifier::rlimit(100)]
fn parse_simple_accepted(bytes: &[u8]) -> (r: Option<HandshakeResponse>)
    ensures
        r matches Some(m) ==> bytes@ == spec_encode_response(m),
        forall|m: HandshakeResponse|
            simple_response(m) && bytes@ == #[trigger] spec_encode_response(m) ==> r is Some,
{
    let pre = simple_accepted_prefix();
    if !matches_at(bytes, 0, &pre) {
        proof {
            assert forall|m: HandshakeResponse|
                simple_response(m) && bytes@ == #[trigger] spec_encode_response(m) implies false by {
                lemma_simple_accepted_encoding(m);
                match m {
                    HandshakeResponse::Accepted(a) => {
                        crate::laws::lemma_dec_digits(a.session_id.0 as int);
                        assert(bytes@.subrange(0, lit_simple_accepted_prefix().len() as int)
                            =~= lit_simple_accepted_prefix());
                    },
                    HandshakeResponse::Rejected(_) => {},
                }
            }
        }
        return None;
    }
    let start = pre.len();
    let mut i = start;
    let mut acc: u64 = 0;
    while i < bytes.len() && 0x30 <= bytes[i] && bytes[i] <= 0x39
        invariant
            start <= i <= bytes@.len(),
            start == lit_simple_accepted_prefix().len(),
            forall|j: int| start <= j < i ==> crate::laws::is_digit(bytes@[j]),
            acc as int == crate::laws::dec_value(bytes@.subrange(start as int, i as int)),
        decreases bytes@.len() - i,
    {
        let d = bytes[i] - 0x30;
        if acc > (u64::MAX - (d as u64)) / 10 {
            proof {
                assert forall|m: HandshakeResponse|
                    simple_response(m) && bytes@ == #[trigger] spec_encode_response(m) implies
                    false by {
                    lemma_simple_accepted_encoding(m);
                    match m {
                        HandshakeResponse::Accepted(a) => {
                            let sid = a.session_id.0 as int;
                            let digits = spec_dec(sid);
                            crate::laws::lemma_dec_digits(sid);
                            let brace_at = start as int + digits.len() as int;
                            assert(bytes@[brace_at] == 0x7d);
                            assert(i < brace_at) by {
                                if i as int == brace_at {
                                    assert(crate::laws::is_digit(bytes@[i as int]));
                                } else if i > brace_at {
                                    assert(crate::laws::is_digit(bytes@[brace_at]));
                                }
                            }
                            assert(bytes@.subrange(start as int, i as int) =~= digits.take(
                                i - start,
                            ));
                            let next = digits.take(i - start + 1);
                            assert(next.drop_last() =~= digits.take(i - start));
                            assert(next.last() == digits[i - start]);
                            assert(digits[i - start] == bytes@[i as int]);
                            assert(crate::laws::dec_value(next) == acc * 10 + (d as int));
                            crate::laws::lemma_dec_value_take_le(digits, i - start + 1);
                            crate::laws::lemma_dec_value_spec_dec(sid);
                            assert(acc * 10 + (d as int) <= sid <= u64::MAX);
                            vstd::arithmetic::div_mod::lemma_fundamental_div_mod(
                                u64::MAX - (d as int),
                                10,
                            );
                            assert(acc * 10 + (d as int) > u64::MAX);
                        },
                        HandshakeResponse::Rejected(_) => {},
                    }
                }
            }
            return None;
        }
        acc = acc * 10 + (d as u64);
        i += 1;
        proof {
            assert(bytes@.subrange(start as int, i as int).drop_last() =~= bytes@.subrange(
                start as int,
                i as int - 1,
            ));
            assert(bytes@.subrange(start as int, i as int).last() == bytes@[i as int - 1]);
        }
    }
    if i == start || (i > start + 1 && bytes[start] == 0x30) || bytes.len() - i != 1 || bytes[i]
        != 0x7d {
        proof {
            assert forall|m: HandshakeResponse|
                simple_response(m) && bytes@ == #[trigger] spec_encode_response(m) implies false by {
                match m {
                    HandshakeResponse::Accepted(a) => {
                        lemma_simple_accepted_scan(m, bytes@, i as int);
                        crate::laws::lemma_spec_dec_no_leading_zero(a.session_id.0 as int);
                        crate::laws::lemma_dec_digits(a.session_id.0 as int);
                    },
                    HandshakeResponse::Rejected(_) => {},
                }
            }
        }
        return None;
    }
    let m = HandshakeResponse::Accepted(
        HandshakeAccepted {
            protocol_version: crate::PROTOCOL_VERSION,
            session_id: SessionId(acc),
        },
    );
    proof {
        let digits = bytes@.subrange(start as int, i as int);
        crate::laws::lemma_spec_dec_of_value(digits);
        assert(spec_dec(acc as int) == digits);
        lemma_simple_accepted_encoding(m);
        assert(bytes@ =~= bytes@.subrange(0, start as int) + digits + bytes@.subrange(
            i as int,
            bytes@.len() as int,
        ));
        assert(bytes@.subrange(i as int, bytes@.len() as int) =~= seq![0x7du8]);
        assert(spec_encode_response(m) == bytes@);
    }
    Some(m)
}

} // verus!
