//! Noise XX secure channel, layered above the wire framing.
//!
//! After the control handshake, client (initiator) and agent (responder) run
//! `Noise_XX_25519_ChaChaPoly_SHA256` over the spliced connection; the server
//! never holds the session. The cryptographic state machine is the `snow`
//! library's; this module owns the protocol rules around it: every handshake
//! message travels in one frame and must have the exact size of its step
//! (32, 96 and 64 bytes, checked before any cryptographic processing), a
//! transport frame carries the ciphertext with its 16-byte tag, oversize
//! plaintexts and undersize frames are refused locally, and a session that
//! fails to reach the transport phase or to decrypt is closed.

use vstd::prelude::*;
use crate::MAX_FRAME_BYTES;
use crate::framing::ProtocolError;
use vstd::string::StringExecFns;
use vstd::string::StrSliceExecFns;

verus! {

/// Byte length of an X25519 public key on the wire.
pub const DHLEN: usize = 32;

/// Byte length of an AEAD authentication tag.
pub const MAC_LENGTH: usize = 16;

/// Exact wire size of handshake message A: `e`.
pub const NOISE_HANDSHAKE_MSG_A_LEN: usize = DHLEN;

/// Exact wire size of handshake message B: `e, ee, s, es`.
pub const NOISE_HANDSHAKE_MSG_B_LEN: usize = 2 * DHLEN + 2 * MAC_LENGTH;

/// Exact wire size of handshake message C: `s, se`.
pub const NOISE_HANDSHAKE_MSG_C_LEN: usize = DHLEN + 2 * MAC_LENGTH;

/// Largest plaintext one transport frame can carry.
pub const MAX_TRANSPORT_PLAINTEXT: usize = 65520;

#[verifier::external_type_specification]
#[verifier::external_body]
pub struct ExSnowError(snow::Error);

#[verifier::external_type_specification]
#[verifier::external_body]
pub struct ExHandshakeState(snow::HandshakeState);

#[verifier::external_type_specification]
#[verifier::external_body]
pub struct ExTransportState(snow::TransportState);

/// Failure of the secure channel layer.
#[derive(Debug)]
pub enum SecureChannelError {
    /// The frame layer failed underneath the channel.
    Protocol(ProtocolError),
    /// The cryptographic library refused an operation: bad key material,
    /// authentication failure, or nonce exhaustion. Fatal to the session.
    Noise(snow::Error),
    /// A handshake frame did not have the exact size of its step.
    InvalidHandshakeMessageLength { step: &'static str, expected: usize, got: usize },
    /// A plaintext was too large to fit one frame with its tag.
    TransportMessageTooLarge(usize),
    /// A received transport frame was shorter than one tag.
    TransportFrameTooSmall(usize),
    /// The three handshake messages went through without yielding a
    /// transport-phase session.
    HandshakeIncomplete,
}

/// The exact text `describe` renders for a secure-channel failure, in bytes.
pub open spec fn spec_secure_error_text(e: SecureChannelError) -> Seq<u8> {
    match e {
        SecureChannelError::Protocol(err) => vstd::utf8::encode_utf8("protocol error: "@)
            + crate::framing::spec_protocol_error_text(err),
        SecureChannelError::Noise(_) => vstd::utf8::encode_utf8(
            "noise error: the cryptographic layer refused the operation"@,
        ),
        SecureChannelError::InvalidHandshakeMessageLength { step, expected, got } => {
            vstd::utf8::encode_utf8("invalid Noise XX message length at "@) + vstd::utf8::encode_utf8(
                step@,
            ) + vstd::utf8::encode_utf8(": expected "@) + crate::json::spec_dec(expected as int)
                + vstd::utf8::encode_utf8(" bytes, got "@) + crate::json::spec_dec(got as int)
        },
        SecureChannelError::TransportMessageTooLarge(len) => vstd::utf8::encode_utf8(
            "transport message is "@,
        ) + crate::json::spec_dec(len as int) + vstd::utf8::encode_utf8(
            " bytes before MAC, above configured maximum 65520"@,
        ),
        SecureChannelError::TransportFrameTooSmall(len) => vstd::utf8::encode_utf8(
            "received transport frame too small for MAC: "@,
        ) + crate::json::spec_dec(len as int),
        SecureChannelError::HandshakeIncomplete => vstd::utf8::encode_utf8(
            "noise handshake completed without entering transport mode"@,
        ),
    }
}

impl SecureChannelError {
    /// A human-readable account of the failure, for logs.
    #[verifier::rlimit(100)]
    pub fn describe(&self) -> (r: String)
        ensures
            vstd::utf8::encode_utf8(r@) == spec_secure_error_text(*self),
    {
        match self {
            SecureChannelError::Protocol(err) => {
                let mut text = String::from_str("protocol error: ");
                let inner = err.describe();
                text.append(inner.as_str());
                proof {
                    crate::laws::lemma_encode_utf8_concat("protocol error: "@, inner@);
                    assert(vstd::utf8::encode_utf8(text@) =~= spec_secure_error_text(*self));
                }
                text
            },
            SecureChannelError::Noise(_) => String::from_str(
                "noise error: the cryptographic layer refused the operation",
            ),
            SecureChannelError::InvalidHandshakeMessageLength { step, expected, got } => {
                let mut text = String::from_str("invalid Noise XX message length at ");
                let expected_digits = crate::json::decimal_string(*expected as u64);
                let got_digits = crate::json::decimal_string(*got as u64);
                text.append(step);
                text.append(": expected ");
                text.append(expected_digits.as_str());
                text.append(" bytes, got ");
                text.append(got_digits.as_str());
                proof {
                    let p1 = "invalid Noise XX message length at "@;
                    let p2 = ": expected "@;
                    let p3 = " bytes, got "@;
                    crate::laws::lemma_encode_utf8_concat(
                        p1 + step@ + p2 + expected_digits@ + p3,
                        got_digits@,
                    );
                    crate::laws::lemma_encode_utf8_concat(p1 + step@ + p2 + expected_digits@, p3);
                    crate::laws::lemma_encode_utf8_concat(p1 + step@ + p2, expected_digits@);
                    crate::laws::lemma_encode_utf8_concat(p1 + step@, p2);
                    crate::laws::lemma_encode_utf8_concat(p1, step@);
                    assert(text@ =~= p1 + step@ + p2 + expected_digits@ + p3 + got_digits@);
                    assert(vstd::utf8::encode_utf8(text@) =~= spec_secure_error_text(*self));
                }
                text
            },
            SecureChannelError::TransportMessageTooLarge(len) => {
                let mut text = String::from_str("transport message is ");
                let digits = crate::json::decimal_string(*len as u64);
                text.append(digits.as_str());
                text.append(" bytes before MAC, above configured maximum 65520");
                proof {
                    let p1 = "transport message is "@;
                    let p2 = " bytes before MAC, above configured maximum 65520"@;
                    crate::laws::lemma_encode_utf8_concat(p1 + digits@, p2);
                    crate::laws::lemma_encode_utf8_concat(p1, digits@);
                    assert(text@ =~= p1 + digits@ + p2);
                    assert(vstd::utf8::encode_utf8(text@) =~= spec_secure_error_text(*self));
                }
                text
            },
            SecureChannelError::TransportFrameTooSmall(len) => {
                let mut text = String::from_str("received transport frame too small for MAC: ");
                let digits = crate::json::decimal_string(*len as u64);
                text.append(digits.as_str());
                proof {
                    crate::laws::lemma_encode_utf8_concat(
                        "received transport frame too small for MAC: "@,
                        digits@,
                    );
                    assert(vstd::utf8::encode_utf8(text@) =~= spec_secure_error_text(*self));
                }
                text
            },
            SecureChannelError::HandshakeIncomplete => String::from_str(
                "noise handshake completed without entering transport mode",
            ),
        }
    }
}

/// Relies on `snow::Builder::generate_keypair`: a fresh X25519 keypair whose
/// private key is `priv_len()` = 32 bytes.
#[verifier::external_body]
fn snow_generate_static_key() -> (r: Result<Vec<u8>, snow::Error>)
    ensures
        r matches Ok(k) ==> k@.len() == DHLEN,
{
    let params: snow::params::NoiseParams = match "Noise_XX_25519_ChaChaPoly_SHA256".parse() {
        Ok(p) => p,
        Err(e) => {
            return Err(e);
        },
    };
    Ok(snow::Builder::new(params).generate_keypair()?.private)
}

/// Relies on `snow::Builder`: builds a `Noise_XX_25519_ChaChaPoly_SHA256`
/// handshake state over the prologue `alaric/noise-xx-v1` with the given
/// local static private key, as initiator or responder. The key must be
/// exactly one X25519 private key long: snow copies it into a 32-byte array
/// and panics on a longer slice.
#[verifier::external_body]
fn snow_build_session(initiator: bool, static_key: &[u8]) -> (r: Result<
    snow::HandshakeState,
    snow::Error,
>)
    requires
        static_key@.len() == DHLEN,
{
    let params: snow::params::NoiseParams = match "Noise_XX_25519_ChaChaPoly_SHA256".parse() {
        Ok(p) => p,
        Err(e) => {
            return Err(e);
        },
    };
    let builder = snow::Builder::new(params).prologue(b"alaric/noise-xx-v1")?.local_private_key(
        static_key,
    )?;
    if initiator {
        builder.build_initiator()
    } else {
        builder.build_responder()
    }
}

/// Relies on `snow::HandshakeState::write_message` with an empty payload:
/// writes the next handshake message into a buffer and returns the bytes
/// written, never more than the buffer holds (96 bytes covers every XX step).
#[verifier::external_body]
fn snow_handshake_write(state: &mut snow::HandshakeState) -> (r: Result<Vec<u8>, snow::Error>)
    ensures
        r matches Ok(m) ==> m@.len() <= NOISE_HANDSHAKE_MSG_B_LEN,
{
    let mut buf = vec![0u8; 96];
    let n = state.write_message(&[], &mut buf)?;
    buf.truncate(n);
    Ok(buf)
}

/// Relies on `snow::HandshakeState::read_message`: consumes one handshake
/// message, failing on any cryptographic mismatch; the (empty) payload is
/// discarded.
#[verifier::external_body]
fn snow_handshake_read(state: &mut snow::HandshakeState, message: &[u8]) -> (r: Result<
    (),
    snow::Error,
>) {
    let mut buf = vec![0u8; message.len()];
    state.read_message(message, &mut buf)?;
    Ok(())
}

/// Relies on `snow::HandshakeState::into_transport_mode`: yields the
/// transport-phase session exactly when the handshake has finished.
#[verifier::external_body]
fn snow_into_transport(state: snow::HandshakeState) -> (r: Result<
    snow::TransportState,
    snow::Error,
>) {
    state.into_transport_mode()
}

/// Relies on `snow::TransportState::write_message`: on success the ciphertext
/// is the plaintext plus one 16-byte tag. Fails, touching nothing, when the
/// message would exceed the Noise message limit or the nonce is exhausted.
#[verifier::external_body]
fn snow_transport_write(state: &mut snow::TransportState, plaintext: &[u8]) -> (r: Result<
    Vec<u8>,
    snow::Error,
>)
    ensures
        r matches Ok(c) ==> c@.len() == plaintext@.len() + MAC_LENGTH,
{
    let len = match plaintext.len().checked_add(MAC_LENGTH) {
        Some(len) => len,
        None => {
            return Err(snow::Error::Input);
        },
    };
    let mut buf = vec![0u8; len];
    let n = state.write_message(plaintext, &mut buf)?;
    buf.truncate(n);
    Ok(buf)
}

/// Relies on `snow::TransportState::read_message`: on success the plaintext
/// is the ciphertext minus its 16-byte tag; authentication failure and nonce
/// exhaustion fail the call.
#[verifier::external_body]
fn snow_transport_read(state: &mut snow::TransportState, ciphertext: &[u8]) -> (r: Result<
    Vec<u8>,
    snow::Error,
>)
    ensures
        r matches Ok(p) ==> ciphertext@.len() >= MAC_LENGTH && p@.len() == ciphertext@.len()
            - MAC_LENGTH,
{
    if ciphertext.len() < MAC_LENGTH {
        return Err(snow::Error::Decrypt);
    }
    let plaintext_len = ciphertext.len() - MAC_LENGTH;
    let mut buf = vec![0u8; plaintext_len];
    let n = state.read_message(ciphertext, &mut buf)?;
    buf.truncate(n);
    Ok(buf)
}

/// Draws a fresh X25519 static private key, 32 bytes.
pub fn generate_static_key() -> (r: Result<Vec<u8>, SecureChannelError>)
    ensures
        r matches Ok(k) ==> k@.len() == DHLEN,
{
    match snow_generate_static_key() {
        Ok(k) => Ok(k),
        Err(e) => Err(SecureChannelError::Noise(e)),
    }
}

/// Refuses a handshake frame whose size is not exactly the size of its step;
/// runs before any cryptographic processing.
pub fn validate_handshake_len(step: &'static str, frame: &[u8], expected: usize) -> (r: Result<
    (),
    SecureChannelError,
>)
    ensures
        r is Ok <==> frame@.len() == expected,
        r matches Err(e) ==> e matches (SecureChannelError::InvalidHandshakeMessageLength {
            step: s,
            expected: want,
            got,
        }) && s@ == step@ && want == expected && got == frame@.len(),
{
    if frame.len() != expected {
        return Err(
            SecureChannelError::InvalidHandshakeMessageLength {
                step,
                expected,
                got: frame.len(),
            },
        );
    }
    Ok(())
}

/// An in-flight Noise XX handshake, between its framed messages.
pub struct NoiseHandshake {
    state: snow::HandshakeState,
}

/// A transport-phase Noise session: one send cipher and one receive cipher
/// with independent nonces, not restartable after any failure.
pub struct SecureChannel {
    session: snow::TransportState,
}

impl NoiseHandshake {
    /// Initiator first step: build the session and produce message A, always
    /// exactly 32 bytes when it succeeds. The static key must be one X25519
    /// private key, as `generate_static_key` draws it.
    pub fn initiate(static_key: &[u8]) -> (r: Result<(NoiseHandshake, Vec<u8>), SecureChannelError>)
        requires
            static_key@.len() == DHLEN,
        ensures
            r matches Ok((hs, msg_a)) ==> msg_a@.len() == NOISE_HANDSHAKE_MSG_A_LEN,
    {
        let mut state = match snow_build_session(true, static_key) {
            Ok(s) => s,
            Err(e) => {
                return Err(SecureChannelError::Noise(e));
            },
        };
        let msg_a = match snow_handshake_write(&mut state) {
            Ok(m) => m,
            Err(e) => {
                return Err(SecureChannelError::Noise(e));
            },
        };
        match validate_handshake_len("message_a", msg_a.as_slice(), NOISE_HANDSHAKE_MSG_A_LEN) {
            Ok(()) => Ok((NoiseHandshake { state }, msg_a)),
            Err(e) => Err(e),
        }
    }

    /// Responder step: build the session, consume message A (whose size is
    /// checked before any cryptography) and produce message B, always exactly
    /// 96 bytes when it succeeds. The static key must be one X25519 private
    /// key, as `generate_static_key` draws it. On a correctly sized message A
    /// the only failures are cryptographic or a refusal of the produced
    /// message B's size, never the message A refusal.
    pub fn respond(static_key: &[u8], msg_a: &[u8]) -> (r: Result<
        (NoiseHandshake, Vec<u8>),
        SecureChannelError,
    >)
        requires
            static_key@.len() == DHLEN,
        ensures
            r matches Ok((hs, msg_b)) ==> msg_b@.len() == NOISE_HANDSHAKE_MSG_B_LEN,
            msg_a@.len() != NOISE_HANDSHAKE_MSG_A_LEN ==> (r matches Err(e) && e matches
                (SecureChannelError::InvalidHandshakeMessageLength { step, expected, got })
                && step@ == "message_a"@ && expected == NOISE_HANDSHAKE_MSG_A_LEN && got
                == msg_a@.len()),
            msg_a@.len() == NOISE_HANDSHAKE_MSG_A_LEN ==> (r is Ok || (r matches Err(e) && (
            e is Noise || (e matches (SecureChannelError::InvalidHandshakeMessageLength {
                step,
                ..
            }) && step@ == "message_b"@)))),
    {
        if let Err(e) = validate_handshake_len("message_a", msg_a, NOISE_HANDSHAKE_MSG_A_LEN) {
            return Err(e);
        }
        let mut state = match snow_build_session(false, static_key) {
            Ok(s) => s,
            Err(e) => {
                return Err(SecureChannelError::Noise(e));
            },
        };
        if let Err(e) = snow_handshake_read(&mut state, msg_a) {
            return Err(SecureChannelError::Noise(e));
        }
        let msg_b = match snow_handshake_write(&mut state) {
            Ok(m) => m,
            Err(e) => {
                return Err(SecureChannelError::Noise(e));
            },
        };
        match validate_handshake_len("message_b", msg_b.as_slice(), NOISE_HANDSHAKE_MSG_B_LEN) {
            Ok(()) => Ok((NoiseHandshake { state }, msg_b)),
            Err(e) => Err(e),
        }
    }

    /// Initiator second step: consume message B (size-checked before any
    /// cryptography), produce message C (always exactly 64 bytes on success)
    /// and enter the transport phase. On a correctly sized message B the only
    /// failures are cryptographic, a refusal of the produced message C's
    /// size, or an incomplete handshake, never the message B refusal.
    pub fn initiator_finish(self, msg_b: &[u8]) -> (r: Result<
        (SecureChannel, Vec<u8>),
        SecureChannelError,
    >)
        ensures
            r matches Ok((channel, msg_c)) ==> msg_c@.len() == NOISE_HANDSHAKE_MSG_C_LEN,
            msg_b@.len() != NOISE_HANDSHAKE_MSG_B_LEN ==> (r matches Err(e) && e matches
                (SecureChannelError::InvalidHandshakeMessageLength { step, expected, got })
                && step@ == "message_b"@ && expected == NOISE_HANDSHAKE_MSG_B_LEN && got
                == msg_b@.len()),
            msg_b@.len() == NOISE_HANDSHAKE_MSG_B_LEN ==> (r is Ok || (r matches Err(e) && (
            e is Noise || e is HandshakeIncomplete || (e matches (
            SecureChannelError::InvalidHandshakeMessageLength { step, .. }) && step@
                == "message_c"@)))),
    {
        if let Err(e) = validate_handshake_len("message_b", msg_b, NOISE_HANDSHAKE_MSG_B_LEN) {
            return Err(e);
        }
        let mut state = self.state;
        if let Err(e) = snow_handshake_read(&mut state, msg_b) {
            return Err(SecureChannelError::Noise(e));
        }
        let msg_c = match snow_handshake_write(&mut state) {
            Ok(m) => m,
            Err(e) => {
                return Err(SecureChannelError::Noise(e));
            },
        };
        if let Err(e) = validate_handshake_len(
            "message_c",
            msg_c.as_slice(),
            NOISE_HANDSHAKE_MSG_C_LEN,
        ) {
            return Err(e);
        }
        match SecureChannel::from_transport_session(NoiseHandshake { state }) {
            Ok(channel) => Ok((channel, msg_c)),
            Err(e) => Err(e),
        }
    }

    /// Responder second step: consume message C (size-checked before any
    /// cryptography) and enter the transport phase. On a correctly sized
    /// message C the only failures are cryptographic or an incomplete
    /// handshake, never the message C refusal.
    pub fn responder_finish(self, msg_c: &[u8]) -> (r: Result<SecureChannel, SecureChannelError>)
        ensures
            msg_c@.len() != NOISE_HANDSHAKE_MSG_C_LEN ==> (r matches Err(e) && e matches
                (SecureChannelError::InvalidHandshakeMessageLength { step, expected, got })
                && step@ == "message_c"@ && expected == NOISE_HANDSHAKE_MSG_C_LEN && got
                == msg_c@.len()),
            msg_c@.len() == NOISE_HANDSHAKE_MSG_C_LEN ==> (r is Ok || (r matches Err(e) && (
            e is Noise || e is HandshakeIncomplete))),
    {
        if let Err(e) = validate_handshake_len("message_c", msg_c, NOISE_HANDSHAKE_MSG_C_LEN) {
            return Err(e);
        }
        let mut state = self.state;
        if let Err(e) = snow_handshake_read(&mut state, msg_c) {
            return Err(SecureChannelError::Noise(e));
        }
        SecureChannel::from_transport_session(NoiseHandshake { state })
    }
}

impl SecureChannel {
    /// Takes a finished handshake into the transport phase; a session that
    /// has not completed its three messages is refused as incomplete.
    pub fn from_transport_session(handshake: NoiseHandshake) -> (r: Result<
        SecureChannel,
        SecureChannelError,
    >)
        ensures
            r matches Err(e) ==> e is HandshakeIncomplete,
    {
        match snow_into_transport(handshake.state) {
            Ok(session) => Ok(SecureChannel { session }),
            Err(_) => Err(SecureChannelError::HandshakeIncomplete),
        }
    }

    /// Encrypts one plaintext into one frame payload: the ciphertext plus its
    /// 16-byte tag, which always fits a frame. A plaintext above
    /// `MAX_TRANSPORT_PLAINTEXT` is refused before anything is encrypted or
    /// sent; within the limit the only failures are the cipher's (fatal to
    /// the session). Note that the Noise protocol caps one message at 65 535
    /// bytes, one byte under this layer's frame limit, so a plaintext of
    /// exactly `MAX_TRANSPORT_PLAINTEXT` bytes fails with a cipher error.
    pub fn send(&mut self, plaintext: &[u8]) -> (r: Result<Vec<u8>, SecureChannelError>)
        ensures
            plaintext@.len() > MAX_TRANSPORT_PLAINTEXT ==> (r matches Err(e) && e matches
                (SecureChannelError::TransportMessageTooLarge(n)) && n == plaintext@.len()),
            r matches Ok(frame) ==> plaintext@.len() <= MAX_TRANSPORT_PLAINTEXT && frame@.len()
                == plaintext@.len() + MAC_LENGTH && frame@.len() <= MAX_FRAME_BYTES,
            plaintext@.len() <= MAX_TRANSPORT_PLAINTEXT ==> (r is Ok || (r matches Err(e)
                && e is Noise)),
    {
        if plaintext.len() > MAX_TRANSPORT_PLAINTEXT {
            return Err(SecureChannelError::TransportMessageTooLarge(plaintext.len()));
        }
        match snow_transport_write(&mut self.session, plaintext) {
            Ok(frame) => Ok(frame),
            Err(e) => Err(SecureChannelError::Noise(e)),
        }
    }

    /// Decrypts one received frame payload. A frame shorter than one tag is
    /// refused before decryption is attempted; on a long enough frame the
    /// only failures are the cipher's (an authentication failure is fatal to
    /// the session).
    pub fn recv(&mut self, frame: &[u8]) -> (r: Result<Vec<u8>, SecureChannelError>)
        ensures
            frame@.len() < MAC_LENGTH ==> (r matches Err(e) && e matches
                (SecureChannelError::TransportFrameTooSmall(n)) && n == frame@.len()),
            r matches Ok(p) ==> frame@.len() >= MAC_LENGTH && p@.len() == frame@.len()
                - MAC_LENGTH,
            frame@.len() >= MAC_LENGTH ==> (r is Ok || (r matches Err(e) && e is Noise)),
    {
        if frame.len() < MAC_LENGTH {
            return Err(SecureChannelError::TransportFrameTooSmall(frame.len()));
        }
        match snow_transport_read(&mut self.session, frame) {
            Ok(p) => Ok(p),
            Err(e) => Err(SecureChannelError::Noise(e)),
        }
    }
}

} // verus!
