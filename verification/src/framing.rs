//! Length-prefixed wire framing.
//!
//! Every frame on the wire is a big-endian 32-bit payload byte count followed
//! by exactly that many payload bytes. Payloads above `MAX_FRAME_BYTES` are
//! refused: a writer fails before emitting any bytes, a reader fails as soon
//! as it has seen the length prefix.

use vstd::prelude::*;
use crate::MAX_FRAME_BYTES;
use vstd::string::StringExecFns;
use vstd::string::StrSliceExecFns;

verus! {

/// Failure of the frame layer.
///
/// `Io` stands for a stream that ended or failed before a whole frame was
/// available; `Json` for a payload that is not a well-formed handshake
/// message; `FrameTooLarge` carries the offending byte count.
#[derive(Debug, Clone, PartialEq, Eq)]
pub enum ProtocolError {
    Io,
    Json,
    FrameTooLarge(usize),
}

/// The exact text `describe` renders for a frame-layer failure, in bytes.
pub open spec fn spec_protocol_error_text(e: ProtocolError) -> Seq<u8> {
    match e {
        ProtocolError::Io => vstd::utf8::encode_utf8(
            "I/O error: the stream failed before a whole frame was transferred"@,
        ),
        ProtocolError::Json => vstd::utf8::encode_utf8(
            "JSON error: the payload is not a canonical handshake message"@,
        ),
        ProtocolError::FrameTooLarge(size) => vstd::utf8::encode_utf8("frame is "@)
            + crate::json::spec_dec(size as int) + vstd::utf8::encode_utf8(
            " bytes, above configured maximum 65536"@,
        ),
    }
}

impl ProtocolError {
    /// A human-readable account of the failure, for logs and rejections.
    pub fn describe(&self) -> (r: String)
        ensures
            vstd::utf8::encode_utf8(r@) == spec_protocol_error_text(*self),
    {
        match self {
            ProtocolError::Io => String::from_str("I/O error: the stream failed before a whole frame was transferred"),
            ProtocolError::Json => String::from_str("JSON error: the payload is not a canonical handshake message"),
            ProtocolError::FrameTooLarge(size) => {
                let mut text = String::from_str("frame is ");
                let digits = crate::json::decimal_string(*size as u64);
                text.append(digits.as_str());
                text.append(" bytes, above configured maximum 65536");
                proof {
                    crate::laws::lemma_encode_utf8_concat("frame is "@ + digits@, " bytes, above configured maximum 65536"@);
                    crate::laws::lemma_encode_utf8_concat("frame is "@, digits@);
                    assert(text@ =~= "frame is "@ + digits@ + " bytes, above configured maximum 65536"@);
                    assert(vstd::utf8::encode_utf8(text@) =~= spec_protocol_error_text(*self));
                }
                text
            },
        }
    }
}

/// The four prefix bytes that announce a payload of `n` bytes: big endian.
pub open spec fn spec_u32_be(n: u32) -> Seq<u8> {
    seq![
        (n / 0x1000000) as u8,
        ((n / 0x10000) % 0x100) as u8,
        ((n / 0x100) % 0x100) as u8,
        (n % 0x100) as u8,
    ]
}

/// The payload byte count announced by four prefix bytes.
pub open spec fn spec_be_u32(b: Seq<u8>) -> u32
    recommends
        b.len() == 4,
{
    (b[0] * 0x1000000 + b[1] * 0x10000 + b[2] * 0x100 + b[3]) as u32
}

/// What a frame writer emits for `payload`: the length prefix, then the
/// payload itself. Meaningful only when the payload fits in a frame.
pub open spec fn spec_encode_frame(payload: Seq<u8>) -> Seq<u8>
    recommends
        payload.len() <= MAX_FRAME_BYTES,
{
    spec_u32_be(payload.len() as u32) + payload
}

/// What a frame reader yields for a whole buffered frame: the payload when
/// the prefix is consistent with the buffer and within bounds, nothing
/// otherwise.
pub open spec fn spec_decode_frame(frame: Seq<u8>) -> Option<Seq<u8>> {
    if frame.len() < 4 {
        None
    } else {
        let len = spec_be_u32(frame.take(4)) as int;
        if len > MAX_FRAME_BYTES {
            None
        } else if frame.len() != 4 + len {
            None
        } else {
            Some(frame.skip(4))
        }
    }
}

/// Reading back the four prefix bytes of a byte count gives the count.
pub proof fn lemma_u32_be_round_trip(n: u32)
    ensures
        spec_be_u32(spec_u32_be(n)) == n,
{
    assert(((n / 0x1000000) as u8) * 0x1000000 + (((n / 0x10000) % 0x100) as u8) * 0x10000 + (((n
        / 0x100) % 0x100) as u8) * 0x100 + ((n % 0x100) as u8) == n) by (bit_vector);
}

/// Encodes `n` as its four big-endian prefix bytes.
pub fn u32_to_be(n: u32) -> (r: Vec<u8>)
    ensures
        r@ == spec_u32_be(n),
{
    let mut out: Vec<u8> = Vec::new();
    out.push((n / 0x1000000) as u8);
    out.push(((n / 0x10000) % 0x100) as u8);
    out.push(((n / 0x100) % 0x100) as u8);
    out.push((n % 0x100) as u8);
    proof {
        assert(out@ =~= spec_u32_be(n));
    }
    out
}

/// Reads a byte count from its four big-endian prefix bytes.
pub fn u32_from_be(b0: u8, b1: u8, b2: u8, b3: u8) -> (r: u32)
    ensures
        r == spec_be_u32(seq![b0, b1, b2, b3]),
{
    (b0 as u32) * 0x1000000 + (b1 as u32) * 0x10000 + (b2 as u32) * 0x100 + (b3 as u32)
}

/// Writes one frame: the length prefix followed by the payload.
///
/// A payload above `MAX_FRAME_BYTES` is refused before any byte is produced.
pub fn encode_frame(payload: &[u8]) -> (r: Result<Vec<u8>, ProtocolError>)
    ensures
        payload@.len() <= MAX_FRAME_BYTES ==> (r matches Ok(f) && f@ == spec_encode_frame(
            payload@,
        )),
        payload@.len() > MAX_FRAME_BYTES ==> r == Err::<Vec<u8>, ProtocolError>(
            ProtocolError::FrameTooLarge(payload@.len() as usize),
        ),
{
    if payload.len() > MAX_FRAME_BYTES {
        return Err(ProtocolError::FrameTooLarge(payload.len()));
    }
    let mut out = u32_to_be(payload.len() as u32);
    let mut i: usize = 0;
    while i < payload.len()
        invariant
            0 <= i <= payload@.len(),
            payload@.len() <= MAX_FRAME_BYTES,
            out@ == spec_u32_be(payload@.len() as u32) + payload@.take(i as int),
        decreases payload@.len() - i,
    {
        out.push(payload[i]);
        i += 1;
        proof {
            assert(out@ =~= spec_u32_be(payload@.len() as u32) + payload@.take(i as int));
        }
    }
    proof {
        assert(payload@.take(payload@.len() as int) =~= payload@);
    }
    Ok(out)
}

/// Checks a length prefix: the announced payload byte count, or the
/// refusal of an oversize frame.
pub fn parse_frame_header(b0: u8, b1: u8, b2: u8, b3: u8) -> (r: Result<usize, ProtocolError>)
    ensures
        spec_be_u32(seq![b0, b1, b2, b3]) <= MAX_FRAME_BYTES ==> r == Ok::<usize, ProtocolError>(
            spec_be_u32(seq![b0, b1, b2, b3]) as usize,
        ),
        spec_be_u32(seq![b0, b1, b2, b3]) > MAX_FRAME_BYTES ==> r == Err::<usize, ProtocolError>(
            ProtocolError::FrameTooLarge(spec_be_u32(seq![b0, b1, b2, b3]) as usize),
        ),
{
    let len = u32_from_be(b0, b1, b2, b3) as usize;
    if len > MAX_FRAME_BYTES {
        return Err(ProtocolError::FrameTooLarge(len));
    }
    Ok(len)
}

/// Reads back one whole buffered frame: yields the payload exactly when the
/// buffer is one well-formed frame within bounds.
pub fn decode_frame(frame: &[u8]) -> (r: Result<Vec<u8>, ProtocolError>)
    ensures
        match r {
            Ok(p) => spec_decode_frame(frame@) == Some(p@),
            Err(_) => spec_decode_frame(frame@) is None,
        },
{
    if frame.len() < 4 {
        return Err(ProtocolError::Io);
    }
    proof {
        assert(seq![frame@[0], frame@[1], frame@[2], frame@[3]] =~= frame@.take(4));
    }
    let len = match parse_frame_header(frame[0], frame[1], frame[2], frame[3]) {
        Ok(len) => len,
        Err(e) => {
            return Err(e);
        },
    };
    if frame.len() - 4 != len {
        return Err(ProtocolError::Io);
    }
    let mut out: Vec<u8> = Vec::new();
    let mut i: usize = 4;
    while i < frame.len()
        invariant
            4 <= i <= frame@.len(),
            out@ == frame@.subrange(4, i as int),
        decreases frame@.len() - i,
    {
        out.push(frame[i]);
        i += 1;
        proof {
            assert(out@ =~= frame@.subrange(4, i as int));
        }
    }
    proof {
        assert(frame@.subrange(4, frame@.len() as int) =~= frame@.skip(4));
    }
    Ok(out)
}

/// A written frame reads back as the payload it was written from.
pub proof fn lemma_frame_round_trip(payload: Seq<u8>)
    requires
        payload.len() <= MAX_FRAME_BYTES,
    ensures
        spec_decode_frame(spec_encode_frame(payload)) == Some(payload),
{
    let frame = spec_encode_frame(payload);
    assert(frame.take(4) =~= spec_u32_be(payload.len() as u32));
    lemma_u32_be_round_trip(payload.len() as u32);
    assert(frame.skip(4) =~= payload);
}

} // verus!
