//! Round-trip law of the canonical JSON wire form.
//!
//! The canonical encoding is injective: two messages with the same encoded
//! bytes carry the same values. Together with the readers' contracts — a
//! successful parse returns a message whose encoding is exactly the input —
//! this gives the round trip: reading back a written message yields a message
//! with the same values.

use vstd::prelude::*;
use crate::handshake::{AuthRequest, HandshakeRequest, HandshakeResponse};
use crate::json::{
    spec_dec, spec_enc_auth, spec_enc_metadata, spec_enc_metadata_entry, spec_enc_metadata_inner,
    spec_encode_request, spec_encode_response, spec_escape, spec_escape_byte, spec_hex_digit,
    spec_json_string,
};
use vstd::utf8::encode_utf8;

verus! {

/// A byte that can appear in a decimal number.
pub open spec fn is_digit(b: u8) -> bool {
    0x30 <= b <= 0x39
}

/// Two concatenations with equally long heads are equal piecewise.
proof fn lemma_prefix_inj<A>(a1: Seq<A>, b1: Seq<A>, a2: Seq<A>, b2: Seq<A>)
    requires
        a1 + b1 == a2 + b2,
        a1.len() == a2.len(),
    ensures
        a1 == a2,
        b1 == b2,
{
    assert(a1 =~= (a1 + b1).take(a1.len() as int));
    assert(a2 =~= (a2 + b2).take(a2.len() as int));
    assert(b1 =~= (a1 + b1).skip(a1.len() as int));
    assert(b2 =~= (a2 + b2).skip(a2.len() as int));
}

/// Decimal digits are digits, and there is at least one.
pub proof fn lemma_dec_digits(n: int)
    requires
        n >= 0,
    ensures
        spec_dec(n).len() >= 1,
        forall|i: int| 0 <= i < spec_dec(n).len() ==> is_digit(#[trigger] spec_dec(n)[i]),
    decreases n,
{
    if n >= 10 {
        lemma_dec_digits(n / 10);
        assert forall|i: int| 0 <= i < spec_dec(n).len() implies is_digit(
            #[trigger] spec_dec(n)[i],
        ) by {
            if i < spec_dec(n / 10).len() {
                assert(spec_dec(n)[i] == spec_dec(n / 10)[i]);
            } else {
                assert(spec_dec(n)[i] == (0x30 + n % 10) as u8);
            }
        }
    }
}

/// Equal digit strings come from equal numbers.
proof fn lemma_dec_eq(a: int, b: int)
    requires
        a >= 0,
        b >= 0,
        spec_dec(a) == spec_dec(b),
    ensures
        a == b,
    decreases a + b,
{
    if a < 10 && b < 10 {
        assert(spec_dec(a) =~= seq![(0x30 + a) as u8]);
        assert(spec_dec(b) =~= seq![(0x30 + b) as u8]);
        assert(seq![(0x30 + a) as u8][0] == (0x30 + a) as u8);
        assert(seq![(0x30 + b) as u8][0] == (0x30 + b) as u8);
        assert((0x30 + a) as u8 == (0x30 + b) as u8);
        assert(0 <= 0x30 + a < 256);
        assert(0 <= 0x30 + b < 256);
        assert((0x30 + a) as u8 as int == 0x30 + a);
        assert((0x30 + b) as u8 as int == 0x30 + b);
        assert(a == b);
    } else if a < 10 {
        lemma_dec_digits(b / 10);
        assert(spec_dec(b).len() >= 2);
        assert(spec_dec(a).len() == 1);
    } else if b < 10 {
        lemma_dec_digits(a / 10);
        assert(spec_dec(a).len() >= 2);
        assert(spec_dec(b).len() == 1);
    } else {
        assert(spec_dec(a).last() == (0x30 + a % 10) as u8);
        assert(spec_dec(b).last() == (0x30 + b % 10) as u8);
        assert((0x30 + a % 10) as u8 as int == 0x30 + a % 10);
        assert((0x30 + b % 10) as u8 as int == 0x30 + b % 10);
        assert(a % 10 == b % 10);
        assert(spec_dec(a).drop_last() =~= spec_dec(a / 10));
        assert(spec_dec(b).drop_last() =~= spec_dec(b / 10));
        lemma_dec_eq(a / 10, b / 10);
        vstd::arithmetic::div_mod::lemma_fundamental_div_mod(a, 10);
        vstd::arithmetic::div_mod::lemma_fundamental_div_mod(b, 10);
        assert(a == b);
    }
}

/// A digit string followed by a non-digit pins the number and the rest.
proof fn lemma_dec_inj(a: int, b: int, ra: Seq<u8>, rb: Seq<u8>)
    requires
        a >= 0,
        b >= 0,
        spec_dec(a) + ra == spec_dec(b) + rb,
        ra.len() > 0,
        !is_digit(ra[0]),
        rb.len() > 0,
        !is_digit(rb[0]),
    ensures
        a == b,
        ra == rb,
{
    lemma_dec_digits(a);
    lemma_dec_digits(b);
    let da = spec_dec(a);
    let db = spec_dec(b);
    if da.len() < db.len() {
        assert((da + ra)[da.len() as int] == ra[0]);
        assert((db + rb)[da.len() as int] == db[da.len() as int]);
        assert(is_digit(db[da.len() as int]));
        assert(false);
    } else if db.len() < da.len() {
        assert((db + rb)[db.len() as int] == rb[0]);
        assert((da + ra)[db.len() as int] == da[db.len() as int]);
        assert(is_digit(da[db.len() as int]));
        assert(false);
    }
    lemma_prefix_inj(da, ra, db, rb);
    lemma_dec_eq(a, b);
}

/// Whether a byte is escaped as `\u00xx`.
spec fn is_u_escaped(b: u8) -> bool {
    b < 0x20 && b != 0x08 && b != 0x09 && b != 0x0a && b != 0x0c && b != 0x0d
}

/// The escaped form of a byte never opens with a quote, and is never empty.
proof fn lemma_escape_byte_shape(b: u8)
    ensures
        spec_escape_byte(b).len() >= 1,
        spec_escape_byte(b)[0] != 0x22,
{
}

/// The escaped form of a byte, as a prefix, pins the byte and the rest.
proof fn lemma_escape_byte_inj(b1: u8, b2: u8, t1: Seq<u8>, t2: Seq<u8>)
    requires
        spec_escape_byte(b1) + t1 == spec_escape_byte(b2) + t2,
    ensures
        b1 == b2,
        t1 == t2,
{
    let e1 = spec_escape_byte(b1);
    let e2 = spec_escape_byte(b2);
    assert((e1 + t1)[0] == e1[0]);
    assert((e2 + t2)[0] == e2[0]);
    if e1.len() == 1 && e2.len() == 1 {
        assert(b1 == b2);
    } else if e1.len() == 1 {
        assert(e1[0] != 0x5c && e2[0] == 0x5c);
        assert(false);
    } else if e2.len() == 1 {
        assert(e2[0] != 0x5c && e1[0] == 0x5c);
        assert(false);
    } else {
        assert((e1 + t1)[1] == e1[1]);
        assert((e2 + t2)[1] == e2[1]);
        if is_u_escaped(b1) && is_u_escaped(b2) {
            assert((e1 + t1)[4] == e1[4] && (e1 + t1)[5] == e1[5]);
            assert((e2 + t2)[4] == e2[4] && (e2 + t2)[5] == e2[5]);
            assert(spec_hex_digit((b1 / 16) as u8) == spec_hex_digit((b2 / 16) as u8));
            assert(spec_hex_digit((b1 % 16) as u8) == spec_hex_digit((b2 % 16) as u8));
            assert(b1 / 16 == b2 / 16 && b1 % 16 == b2 % 16);
            assert(b1 == b2) by {
                vstd::arithmetic::div_mod::lemma_fundamental_div_mod(b1 as int, 16);
                vstd::arithmetic::div_mod::lemma_fundamental_div_mod(b2 as int, 16);
            }
        } else if is_u_escaped(b1) {
            assert(e1[1] == 0x75 && e2[1] != 0x75);
            assert(false);
        } else if is_u_escaped(b2) {
            assert(e2[1] == 0x75 && e1[1] != 0x75);
            assert(false);
        } else {
            assert(b1 == b2);
        }
    }
    assert(e1.len() == e2.len());
    lemma_prefix_inj(e1, t1, e2, t2);
}

/// Escaping can be peeled from the front as well as from the back.
proof fn lemma_escape_front(s: Seq<u8>)
    requires
        s.len() > 0,
    ensures
        spec_escape(s) == spec_escape_byte(s[0]) + spec_escape(s.drop_first()),
    decreases s.len(),
{
    if s.len() == 1 {
        assert(s.drop_last() =~= Seq::<u8>::empty());
        assert(s.drop_first() =~= Seq::<u8>::empty());
        assert(spec_escape(s) =~= spec_escape_byte(s[0]) + spec_escape(s.drop_first()));
    } else {
        let dl = s.drop_last();
        lemma_escape_front(dl);
        assert(dl[0] == s[0]);
        assert(s.drop_first().drop_last() =~= dl.drop_first());
        assert(s.drop_first().last() == s.last());
        assert(s.drop_first().len() > 0);
        assert(spec_escape(s.drop_first()) == spec_escape(dl.drop_first()) + spec_escape_byte(
            s.last(),
        ));
        assert(spec_escape(s) == spec_escape(dl) + spec_escape_byte(s.last()));
        assert(spec_escape(s) =~= spec_escape_byte(s[0]) + spec_escape(s.drop_first()));
    }
}

/// Escaped content closed by an unescaped quote pins the content and what
/// follows the quote.
proof fn lemma_escape_inj(x1: Seq<u8>, x2: Seq<u8>, t1: Seq<u8>, t2: Seq<u8>)
    requires
        spec_escape(x1) + seq![0x22u8] + t1 == spec_escape(x2) + seq![0x22u8] + t2,
    ensures
        x1 == x2,
        t1 == t2,
    decreases x1.len(),
{
    if x1.len() == 0 && x2.len() == 0 {
        assert(spec_escape(x1) =~= Seq::<u8>::empty());
        assert(spec_escape(x2) =~= Seq::<u8>::empty());
        assert(seq![0x22u8] + t1 =~= spec_escape(x1) + seq![0x22u8] + t1);
        assert(seq![0x22u8] + t2 =~= spec_escape(x2) + seq![0x22u8] + t2);
        lemma_prefix_inj(seq![0x22u8], t1, seq![0x22u8], t2);
    } else if x1.len() == 0 {
        lemma_escape_front(x2);
        lemma_escape_byte_shape(x2[0]);
        assert((spec_escape(x1) + seq![0x22u8] + t1)[0] == 0x22);
        assert((spec_escape(x2) + seq![0x22u8] + t2)[0] == spec_escape_byte(x2[0])[0]);
        assert(false);
    } else if x2.len() == 0 {
        lemma_escape_front(x1);
        lemma_escape_byte_shape(x1[0]);
        assert((spec_escape(x2) + seq![0x22u8] + t2)[0] == 0x22);
        assert((spec_escape(x1) + seq![0x22u8] + t1)[0] == spec_escape_byte(x1[0])[0]);
        assert(false);
    } else {
        lemma_escape_front(x1);
        lemma_escape_front(x2);
        let r1 = spec_escape(x1.drop_first()) + seq![0x22u8] + t1;
        let r2 = spec_escape(x2.drop_first()) + seq![0x22u8] + t2;
        assert(spec_escape_byte(x1[0]) + r1 =~= spec_escape(x1) + seq![0x22u8] + t1);
        assert(spec_escape_byte(x2[0]) + r2 =~= spec_escape(x2) + seq![0x22u8] + t2);
        lemma_escape_byte_inj(x1[0], x2[0], r1, r2);
        lemma_escape_inj(x1.drop_first(), x2.drop_first(), t1, t2);
        assert(x1 =~= seq![x1[0]] + x1.drop_first());
        assert(x2 =~= seq![x2[0]] + x2.drop_first());
    }
}

/// A JSON string literal, as a prefix, pins the characters and the rest.
proof fn lemma_json_string_inj(s1: Seq<char>, s2: Seq<char>, t1: Seq<u8>, t2: Seq<u8>)
    requires
        spec_json_string(s1) + t1 == spec_json_string(s2) + t2,
    ensures
        s1 == s2,
        t1 == t2,
{
    let e1 = encode_utf8(s1);
    let e2 = encode_utf8(s2);
    let r1 = spec_escape(e1) + seq![0x22u8] + t1;
    let r2 = spec_escape(e2) + seq![0x22u8] + t2;
    assert(seq![0x22u8] + r1 =~= spec_json_string(s1) + t1);
    assert(seq![0x22u8] + r2 =~= spec_json_string(s2) + t2);
    lemma_prefix_inj(seq![0x22u8], r1, seq![0x22u8], r2);
    lemma_escape_inj(e1, e2, t1, t2);
    vstd::utf8::encode_utf8_decode_utf8(s1);
    vstd::utf8::encode_utf8_decode_utf8(s2);
}

/// Two credentials carry the same values.
pub open spec fn auth_equiv(a: Option<AuthRequest>, b: Option<AuthRequest>) -> bool {
    match a {
        None => b is None,
        Some(x) => match b {
            None => false,
            Some(y) => x.method@ == y.method@ && x.token@ == y.token@,
        },
    }
}

/// Two metadata maps carry the same entries in the same order.
pub open spec fn metadata_equiv(a: Seq<(String, String)>, b: Seq<(String, String)>) -> bool {
    &&& a.len() == b.len()
    &&& forall|i: int|
        0 <= i < a.len() ==> (#[trigger] a[i]).0@ == b[i].0@ && a[i].1@ == b[i].1@
}

/// Two requests carry the same role, version, identifiers, credential and
/// metadata.
pub open spec fn request_equiv(a: HandshakeRequest, b: HandshakeRequest) -> bool {
    match a {
        HandshakeRequest::Agent { protocol_version: v1, agent_id: id1, auth: a1, metadata: m1 } => {
            match b {
                HandshakeRequest::Agent {
                    protocol_version: v2,
                    agent_id: id2,
                    auth: a2,
                    metadata: m2,
                } => v1 == v2 && id1@ == id2@ && auth_equiv(a1, a2) && metadata_equiv(m1@, m2@),
                _ => false,
            }
        },
        HandshakeRequest::Client {
            protocol_version: v1,
            client_id: c1,
            target_agent_id: g1,
            auth: a1,
            metadata: m1,
        } => {
            match b {
                HandshakeRequest::Client {
                    protocol_version: v2,
                    client_id: c2,
                    target_agent_id: g2,
                    auth: a2,
                    metadata: m2,
                } => v1 == v2 && c1@ == c2@ && g1@ == g2@ && auth_equiv(a1, a2) && metadata_equiv(
                    m1@,
                    m2@,
                ),
                _ => false,
            }
        },
    }
}

/// Two responses carry the same status, version, and session id or code and
/// message.
pub open spec fn response_equiv(a: HandshakeResponse, b: HandshakeResponse) -> bool {
    match a {
        HandshakeResponse::Accepted(x) => match b {
            HandshakeResponse::Accepted(y) => x == y,
            _ => false,
        },
        HandshakeResponse::Rejected(x) => match b {
            HandshakeResponse::Rejected(y) => x.protocol_version == y.protocol_version && x.code
                == y.code && x.message@ == y.message@,
            _ => false,
        },
    }
}

/// The `auth` field, as a prefix, pins the credential values and the rest.
proof fn lemma_auth_inj(a1: Option<AuthRequest>, a2: Option<AuthRequest>, t1: Seq<u8>, t2: Seq<u8>)
    requires
        spec_enc_auth(a1) + t1 == spec_enc_auth(a2) + t2,
    ensures
        auth_equiv(a1, a2),
        t1 == t2,
{
    match a1 {
        None => {
            match a2 {
                None => {
                    lemma_prefix_inj(spec_enc_auth(a1), t1, spec_enc_auth(a2), t2);
                },
                Some(y) => {
                    assert((spec_enc_auth(a1) + t1)[0] == 0x6e);
                    assert((spec_enc_auth(a2) + t2)[0] == 0x7b);
                    assert(false);
                },
            }
        },
        Some(x) => {
            match a2 {
                None => {
                    assert((spec_enc_auth(a1) + t1)[0] == 0x7b);
                    assert((spec_enc_auth(a2) + t2)[0] == 0x6e);
                    assert(false);
                },
                Some(y) => {
                    let r1 = spec_json_string(x.method@) + (crate::json::lit_token_key() + (
                    spec_json_string(x.token@) + (seq![0x7du8] + t1)));
                    let r2 = spec_json_string(y.method@) + (crate::json::lit_token_key() + (
                    spec_json_string(y.token@) + (seq![0x7du8] + t2)));
                    assert(spec_enc_auth(a1) + t1 =~= crate::json::lit_method_head() + r1);
                    assert(spec_enc_auth(a2) + t2 =~= crate::json::lit_method_head() + r2);
                    lemma_prefix_inj(crate::json::lit_method_head(), r1, crate::json::lit_method_head(), r2);
                    assert(r1 =~= spec_json_string(x.method@) + (crate::json::lit_token_key() + (
                    spec_json_string(x.token@) + (seq![0x7du8] + t1))));
                    lemma_json_string_inj(
                        x.method@,
                        y.method@,
                        crate::json::lit_token_key() + (spec_json_string(x.token@) + (seq![0x7du8]
                            + t1)),
                        crate::json::lit_token_key() + (spec_json_string(y.token@) + (seq![0x7du8]
                            + t2)),
                    );
                    lemma_prefix_inj(
                        crate::json::lit_token_key(),
                        spec_json_string(x.token@) + (seq![0x7du8] + t1),
                        crate::json::lit_token_key(),
                        spec_json_string(y.token@) + (seq![0x7du8] + t2),
                    );
                    lemma_json_string_inj(
                        x.token@,
                        y.token@,
                        seq![0x7du8] + t1,
                        seq![0x7du8] + t2,
                    );
                    lemma_prefix_inj(seq![0x7du8], t1, seq![0x7du8], t2);
                },
            }
        },
    }
}

/// Metadata entries can be peeled from the front as well as from the back.
proof fn lemma_metadata_inner_front(s: Seq<(String, String)>)
    requires
        s.len() > 0,
    ensures
        s.len() == 1 ==> spec_enc_metadata_inner(s) == spec_enc_metadata_entry(s[0]),
        s.len() > 1 ==> spec_enc_metadata_inner(s) == spec_enc_metadata_entry(s[0]) + seq![0x2cu8]
            + spec_enc_metadata_inner(s.drop_first()),
    decreases s.len(),
{
    if s.len() > 1 {
        let dl = s.drop_last();
        lemma_metadata_inner_front(dl);
        assert(dl[0] == s[0]);
        assert(s.drop_first().drop_last() =~= dl.drop_first());
        assert(s.drop_first().last() == s.last());
        if s.len() == 2 {
            assert(s.drop_first() =~= seq![s[1]]);
            assert(spec_enc_metadata_inner(s.drop_first()) == spec_enc_metadata_entry(s[1]));
            assert(spec_enc_metadata_inner(s) =~= spec_enc_metadata_entry(s[0]) + seq![0x2cu8]
                + spec_enc_metadata_inner(s.drop_first()));
        } else {
            assert(spec_enc_metadata_inner(s.drop_first()) == spec_enc_metadata_inner(
                s.drop_first().drop_last(),
            ) + seq![0x2cu8] + spec_enc_metadata_entry(s.drop_first().last()));
            assert(spec_enc_metadata_inner(s) =~= spec_enc_metadata_entry(s[0]) + seq![0x2cu8]
                + spec_enc_metadata_inner(s.drop_first()));
        }
    }
}

/// Metadata entries closed by a brace pin the entries and what follows.
#[verifier::rlimit(100)]
proof fn lemma_metadata_inner_inj(
    m1: Seq<(String, String)>,
    m2: Seq<(String, String)>,
    t1: Seq<u8>,
    t2: Seq<u8>,
)
    requires
        spec_enc_metadata_inner(m1) + seq![0x7du8] + t1 == spec_enc_metadata_inner(m2)
            + seq![0x7du8] + t2,
    ensures
        metadata_equiv(m1, m2),
        t1 == t2,
    decreases m1.len(),
{
    if m1.len() == 0 && m2.len() == 0 {
        assert(spec_enc_metadata_inner(m1) + seq![0x7du8] + t1 =~= seq![0x7du8] + t1);
        assert(spec_enc_metadata_inner(m2) + seq![0x7du8] + t2 =~= seq![0x7du8] + t2);
        lemma_prefix_inj(seq![0x7du8], t1, seq![0x7du8], t2);
    } else if m1.len() == 0 {
        lemma_metadata_inner_front(m2);
        assert((spec_enc_metadata_inner(m1) + seq![0x7du8] + t1)[0] == 0x7d);
        assert((spec_enc_metadata_inner(m2) + seq![0x7du8] + t2)[0] == 0x22);
        assert(false);
    } else if m2.len() == 0 {
        lemma_metadata_inner_front(m1);
        assert((spec_enc_metadata_inner(m2) + seq![0x7du8] + t2)[0] == 0x7d);
        assert((spec_enc_metadata_inner(m1) + seq![0x7du8] + t1)[0] == 0x22);
        assert(false);
    } else {
        lemma_metadata_inner_front(m1);
        lemma_metadata_inner_front(m2);
        let sep1: Seq<u8> = if m1.len() > 1 {
            seq![0x2cu8] + spec_enc_metadata_inner(m1.drop_first())
        } else {
            Seq::empty()
        };
        let sep2: Seq<u8> = if m2.len() > 1 {
            seq![0x2cu8] + spec_enc_metadata_inner(m2.drop_first())
        } else {
            Seq::empty()
        };
        let k1 = m1[0].0@;
        let v1 = m1[0].1@;
        let k2 = m2[0].0@;
        let v2 = m2[0].1@;
        let r1 = seq![0x3au8] + (spec_json_string(v1) + (sep1 + (seq![0x7du8] + t1)));
        let r2 = seq![0x3au8] + (spec_json_string(v2) + (sep2 + (seq![0x7du8] + t2)));
        assert(spec_enc_metadata_inner(m1) + seq![0x7du8] + t1 =~= spec_json_string(k1) + r1);
        assert(spec_enc_metadata_inner(m2) + seq![0x7du8] + t2 =~= spec_json_string(k2) + r2);
        lemma_json_string_inj(k1, k2, r1, r2);
        lemma_prefix_inj(
            seq![0x3au8],
            spec_json_string(v1) + (sep1 + (seq![0x7du8] + t1)),
            seq![0x3au8],
            spec_json_string(v2) + (sep2 + (seq![0x7du8] + t2)),
        );
        lemma_json_string_inj(v1, v2, sep1 + (seq![0x7du8] + t1), sep2 + (seq![0x7du8] + t2));
        if m1.len() == 1 && m2.len() == 1 {
            assert(sep1 + (seq![0x7du8] + t1) =~= seq![0x7du8] + t1);
            assert(sep2 + (seq![0x7du8] + t2) =~= seq![0x7du8] + t2);
            lemma_prefix_inj(seq![0x7du8], t1, seq![0x7du8], t2);
        } else if m1.len() == 1 {
            lemma_metadata_inner_front(m2.drop_first());
            assert((sep1 + (seq![0x7du8] + t1))[0] == 0x7d);
            assert((sep2 + (seq![0x7du8] + t2))[0] == 0x2c);
            assert(false);
        } else if m2.len() == 1 {
            lemma_metadata_inner_front(m1.drop_first());
            assert((sep2 + (seq![0x7du8] + t2))[0] == 0x7d);
            assert((sep1 + (seq![0x7du8] + t1))[0] == 0x2c);
            assert(false);
        } else {
            assert(sep1 + (seq![0x7du8] + t1) =~= seq![0x2cu8] + (spec_enc_metadata_inner(
                m1.drop_first(),
            ) + seq![0x7du8] + t1));
            assert(sep2 + (seq![0x7du8] + t2) =~= seq![0x2cu8] + (spec_enc_metadata_inner(
                m2.drop_first(),
            ) + seq![0x7du8] + t2));
            lemma_prefix_inj(
                seq![0x2cu8],
                spec_enc_metadata_inner(m1.drop_first()) + seq![0x7du8] + t1,
                seq![0x2cu8],
                spec_enc_metadata_inner(m2.drop_first()) + seq![0x7du8] + t2,
            );
            lemma_metadata_inner_inj(m1.drop_first(), m2.drop_first(), t1, t2);
            assert forall|i: int|
                0 <= i < m1.len() implies (#[trigger] m1[i]).0@ == m2[i].0@ && m1[i].1@
                == m2[i].1@ by {
                if i > 0 {
                    assert(m1.drop_first()[i - 1] == m1[i]);
                    assert(m2.drop_first()[i - 1] == m2[i]);
                    assert((m1.drop_first()[i - 1]).0@ == m2.drop_first()[i - 1].0@);
                }
            }
        }
    }
}

/// The whole metadata object, as a prefix, pins the entries and the rest.
proof fn lemma_metadata_inj(
    m1: Seq<(String, String)>,
    m2: Seq<(String, String)>,
    t1: Seq<u8>,
    t2: Seq<u8>,
)
    requires
        spec_enc_metadata(m1) + t1 == spec_enc_metadata(m2) + t2,
    ensures
        metadata_equiv(m1, m2),
        t1 == t2,
{
    assert(spec_enc_metadata(m1) + t1 =~= seq![0x7bu8] + (spec_enc_metadata_inner(m1)
        + seq![0x7du8] + t1));
    assert(spec_enc_metadata(m2) + t2 =~= seq![0x7bu8] + (spec_enc_metadata_inner(m2)
        + seq![0x7du8] + t2));
    lemma_prefix_inj(
        seq![0x7bu8],
        spec_enc_metadata_inner(m1) + seq![0x7du8] + t1,
        seq![0x7bu8],
        spec_enc_metadata_inner(m2) + seq![0x7du8] + t2,
    );
    lemma_metadata_inner_inj(m1, m2, t1, t2);
}

/// A code word, as a prefix, pins the code and the rest.
proof fn lemma_code_inj(
    c1: crate::handshake::HandshakeErrorCode,
    c2: crate::handshake::HandshakeErrorCode,
    t1: Seq<u8>,
    t2: Seq<u8>,
)
    requires
        crate::json::spec_code_bytes(c1) + t1 == crate::json::spec_code_bytes(c2) + t2,
    ensures
        c1 == c2,
        t1 == t2,
{
    let e1 = crate::json::spec_code_bytes(c1);
    let e2 = crate::json::spec_code_bytes(c2);
    assert((e1 + t1)[1] == e1[1] && (e1 + t1)[3] == e1[3] && (e1 + t1)[7] == e1[7]);
    assert((e2 + t2)[1] == e2[1] && (e2 + t2)[3] == e2[3] && (e2 + t2)[7] == e2[7]);
    assert(c1 == c2);
    lemma_prefix_inj(e1, t1, e2, t2);
}

/// Canonical request encoding is injective: equal bytes carry equal values.
///
/// With `parse_request`'s contract — a successful parse returns a message
/// whose canonical encoding is exactly the input — this is the round trip:
/// parsing the encoding of `a` can only return a message that carries the
/// values of `a`.
#[verifier::rlimit(100)]
pub proof fn lemma_encode_request_injective(a: HandshakeRequest, b: HandshakeRequest)
    requires
        spec_encode_request(a) == spec_encode_request(b),
    ensures
        request_equiv(a, b),
{
    let ea = spec_encode_request(a);
    let eb = spec_encode_request(b);
    match a {
        HandshakeRequest::Agent { protocol_version: v1, agent_id: id1, auth: a1, metadata: m1 } => {
            match b {
                HandshakeRequest::Agent {
                    protocol_version: v2,
                    agent_id: id2,
                    auth: a2,
                    metadata: m2,
                } => {
                    let r1 = spec_dec(v1 as int) + (crate::json::lit_agent_id_key() + (
                    spec_json_string(id1@) + (crate::json::lit_auth_key() + (spec_enc_auth(a1) + (
                    crate::json::lit_metadata_key() + (spec_enc_metadata(m1@) + seq![0x7du8]))))));
                    let r2 = spec_dec(v2 as int) + (crate::json::lit_agent_id_key() + (
                    spec_json_string(id2@) + (crate::json::lit_auth_key() + (spec_enc_auth(a2) + (
                    crate::json::lit_metadata_key() + (spec_enc_metadata(m2@) + seq![0x7du8]))))));
                    lemma_prefix_inj(crate::json::lit_agent_head(), r1, crate::json::lit_agent_head(), r2);
                    lemma_dec_inj(
                        v1 as int,
                        v2 as int,
                        crate::json::lit_agent_id_key() + (spec_json_string(id1@) + (
                        crate::json::lit_auth_key() + (spec_enc_auth(a1) + (
                        crate::json::lit_metadata_key() + (spec_enc_metadata(m1@)
                            + seq![0x7du8]))))),
                        crate::json::lit_agent_id_key() + (spec_json_string(id2@) + (
                        crate::json::lit_auth_key() + (spec_enc_auth(a2) + (
                        crate::json::lit_metadata_key() + (spec_enc_metadata(m2@)
                            + seq![0x7du8]))))),
                    );
                    lemma_prefix_inj(
                        crate::json::lit_agent_id_key(),
                        spec_json_string(id1@) + (crate::json::lit_auth_key() + (spec_enc_auth(a1)
                            + (crate::json::lit_metadata_key() + (spec_enc_metadata(m1@)
                            + seq![0x7du8])))),
                        crate::json::lit_agent_id_key(),
                        spec_json_string(id2@) + (crate::json::lit_auth_key() + (spec_enc_auth(a2)
                            + (crate::json::lit_metadata_key() + (spec_enc_metadata(m2@)
                            + seq![0x7du8])))),
                    );
                    lemma_json_string_inj(
                        id1@,
                        id2@,
                        crate::json::lit_auth_key() + (spec_enc_auth(a1) + (
                        crate::json::lit_metadata_key() + (spec_enc_metadata(m1@)
                            + seq![0x7du8]))),
                        crate::json::lit_auth_key() + (spec_enc_auth(a2) + (
                        crate::json::lit_metadata_key() + (spec_enc_metadata(m2@)
                            + seq![0x7du8]))),
                    );
                    lemma_prefix_inj(
                        crate::json::lit_auth_key(),
                        spec_enc_auth(a1) + (crate::json::lit_metadata_key() + (spec_enc_metadata(
                            m1@,
                        ) + seq![0x7du8])),
                        crate::json::lit_auth_key(),
                        spec_enc_auth(a2) + (crate::json::lit_metadata_key() + (spec_enc_metadata(
                            m2@,
                        ) + seq![0x7du8])),
                    );
                    lemma_auth_inj(
                        a1,
                        a2,
                        crate::json::lit_metadata_key() + (spec_enc_metadata(m1@) + seq![0x7du8]),
                        crate::json::lit_metadata_key() + (spec_enc_metadata(m2@) + seq![0x7du8]),
                    );
                    lemma_prefix_inj(
                        crate::json::lit_metadata_key(),
                        spec_enc_metadata(m1@) + seq![0x7du8],
                        crate::json::lit_metadata_key(),
                        spec_enc_metadata(m2@) + seq![0x7du8],
                    );
                    lemma_metadata_inj(m1@, m2@, seq![0x7du8], seq![0x7du8]);
                },
                HandshakeRequest::Client { .. } => {
                    assert(ea[9] == crate::json::lit_agent_head()[9]);
                    assert(eb[9] == crate::json::lit_client_head()[9]);
                    assert(false);
                },
            }
        },
        HandshakeRequest::Client {
            protocol_version: v1,
            client_id: c1,
            target_agent_id: g1,
            auth: a1,
            metadata: m1,
        } => {
            match b {
                HandshakeRequest::Agent { .. } => {
                    assert(ea[9] == crate::json::lit_client_head()[9]);
                    assert(eb[9] == crate::json::lit_agent_head()[9]);
                    assert(false);
                },
                HandshakeRequest::Client {
                    protocol_version: v2,
                    client_id: c2,
                    target_agent_id: g2,
                    auth: a2,
                    metadata: m2,
                } => {
                    let r1 = spec_dec(v1 as int) + (crate::json::lit_client_id_key() + (
                    spec_json_string(c1@) + (crate::json::lit_target_key() + (spec_json_string(g1@)
                        + (crate::json::lit_auth_key() + (spec_enc_auth(a1) + (
                    crate::json::lit_metadata_key() + (spec_enc_metadata(m1@)
                        + seq![0x7du8]))))))));
                    let r2 = spec_dec(v2 as int) + (crate::json::lit_client_id_key() + (
                    spec_json_string(c2@) + (crate::json::lit_target_key() + (spec_json_string(g2@)
                        + (crate::json::lit_auth_key() + (spec_enc_auth(a2) + (
                    crate::json::lit_metadata_key() + (spec_enc_metadata(m2@)
                        + seq![0x7du8]))))))));
                    lemma_prefix_inj(crate::json::lit_client_head(), r1, crate::json::lit_client_head(), r2);
                    let s1 = crate::json::lit_client_id_key() + (spec_json_string(c1@) + (
                    crate::json::lit_target_key() + (spec_json_string(g1@) + (
                    crate::json::lit_auth_key() + (spec_enc_auth(a1) + (
                    crate::json::lit_metadata_key() + (spec_enc_metadata(m1@)
                        + seq![0x7du8])))))));
                    let s2 = crate::json::lit_client_id_key() + (spec_json_string(c2@) + (
                    crate::json::lit_target_key() + (spec_json_string(g2@) + (
                    crate::json::lit_auth_key() + (spec_enc_auth(a2) + (
                    crate::json::lit_metadata_key() + (spec_enc_metadata(m2@)
                        + seq![0x7du8])))))));
                    lemma_dec_inj(v1 as int, v2 as int, s1, s2);
                    lemma_prefix_inj(
                        crate::json::lit_client_id_key(),
                        spec_json_string(c1@) + (crate::json::lit_target_key() + (
                        spec_json_string(g1@) + (crate::json::lit_auth_key() + (spec_enc_auth(a1)
                            + (crate::json::lit_metadata_key() + (spec_enc_metadata(m1@)
                            + seq![0x7du8])))))),
                        crate::json::lit_client_id_key(),
                        spec_json_string(c2@) + (crate::json::lit_target_key() + (
                        spec_json_string(g2@) + (crate::json::lit_auth_key() + (spec_enc_auth(a2)
                            + (crate::json::lit_metadata_key() + (spec_enc_metadata(m2@)
                            + seq![0x7du8])))))),
                    );
                    lemma_json_string_inj(
                        c1@,
                        c2@,
                        crate::json::lit_target_key() + (spec_json_string(g1@) + (
                        crate::json::lit_auth_key() + (spec_enc_auth(a1) + (
                        crate::json::lit_metadata_key() + (spec_enc_metadata(m1@)
                            + seq![0x7du8]))))),
                        crate::json::lit_target_key() + (spec_json_string(g2@) + (
                        crate::json::lit_auth_key() + (spec_enc_auth(a2) + (
                        crate::json::lit_metadata_key() + (spec_enc_metadata(m2@)
                            + seq![0x7du8]))))),
                    );
                    lemma_prefix_inj(
                        crate::json::lit_target_key(),
                        spec_json_string(g1@) + (crate::json::lit_auth_key() + (spec_enc_auth(a1)
                            + (crate::json::lit_metadata_key() + (spec_enc_metadata(m1@)
                            + seq![0x7du8])))),
                        crate::json::lit_target_key(),
                        spec_json_string(g2@) + (crate::json::lit_auth_key() + (spec_enc_auth(a2)
                            + (crate::json::lit_metadata_key() + (spec_enc_metadata(m2@)
                            + seq![0x7du8])))),
                    );
                    lemma_json_string_inj(
                        g1@,
                        g2@,
                        crate::json::lit_auth_key() + (spec_enc_auth(a1) + (
                        crate::json::lit_metadata_key() + (spec_enc_metadata(m1@)
                            + seq![0x7du8]))),
                        crate::json::lit_auth_key() + (spec_enc_auth(a2) + (
                        crate::json::lit_metadata_key() + (spec_enc_metadata(m2@)
                            + seq![0x7du8]))),
                    );
                    lemma_prefix_inj(
                        crate::json::lit_auth_key(),
                        spec_enc_auth(a1) + (crate::json::lit_metadata_key() + (spec_enc_metadata(
                            m1@,
                        ) + seq![0x7du8])),
                        crate::json::lit_auth_key(),
                        spec_enc_auth(a2) + (crate::json::lit_metadata_key() + (spec_enc_metadata(
                            m2@,
                        ) + seq![0x7du8])),
                    );
                    lemma_auth_inj(
                        a1,
                        a2,
                        crate::json::lit_metadata_key() + (spec_enc_metadata(m1@) + seq![0x7du8]),
                        crate::json::lit_metadata_key() + (spec_enc_metadata(m2@) + seq![0x7du8]),
                    );
                    lemma_prefix_inj(
                        crate::json::lit_metadata_key(),
                        spec_enc_metadata(m1@) + seq![0x7du8],
                        crate::json::lit_metadata_key(),
                        spec_enc_metadata(m2@) + seq![0x7du8],
                    );
                    lemma_metadata_inj(m1@, m2@, seq![0x7du8], seq![0x7du8]);
                },
            }
        },
    }
}

/// Canonical response encoding is injective: equal bytes carry equal values.
///
/// With `parse_response`'s contract this is the response round trip.
#[verifier::rlimit(100)]
pub proof fn lemma_encode_response_injective(a: HandshakeResponse, b: HandshakeResponse)
    requires
        spec_encode_response(a) == spec_encode_response(b),
    ensures
        response_equiv(a, b),
{
    let ea = spec_encode_response(a);
    let eb = spec_encode_response(b);
    match a {
        HandshakeResponse::Accepted(x) => {
            match b {
                HandshakeResponse::Accepted(y) => {
                    let r1 = spec_dec(x.protocol_version as int) + (
                    crate::json::lit_session_key() + (spec_dec(x.session_id.0 as int)
                        + seq![0x7du8]));
                    let r2 = spec_dec(y.protocol_version as int) + (
                    crate::json::lit_session_key() + (spec_dec(y.session_id.0 as int)
                        + seq![0x7du8]));
                    lemma_prefix_inj(crate::json::lit_accepted_head(), r1, crate::json::lit_accepted_head(), r2);
                    lemma_dec_inj(
                        x.protocol_version as int,
                        y.protocol_version as int,
                        crate::json::lit_session_key() + (spec_dec(x.session_id.0 as int)
                            + seq![0x7du8]),
                        crate::json::lit_session_key() + (spec_dec(y.session_id.0 as int)
                            + seq![0x7du8]),
                    );
                    lemma_prefix_inj(
                        crate::json::lit_session_key(),
                        spec_dec(x.session_id.0 as int) + seq![0x7du8],
                        crate::json::lit_session_key(),
                        spec_dec(y.session_id.0 as int) + seq![0x7du8],
                    );
                    lemma_dec_inj(
                        x.session_id.0 as int,
                        y.session_id.0 as int,
                        seq![0x7du8],
                        seq![0x7du8],
                    );
                },
                HandshakeResponse::Rejected(_) => {
                    assert(ea[11] == crate::json::lit_accepted_head()[11]);
                    assert(eb[11] == crate::json::lit_rejected_head()[11]);
                    assert(false);
                },
            }
        },
        HandshakeResponse::Rejected(x) => {
            match b {
                HandshakeResponse::Accepted(_) => {
                    assert(ea[11] == crate::json::lit_rejected_head()[11]);
                    assert(eb[11] == crate::json::lit_accepted_head()[11]);
                    assert(false);
                },
                HandshakeResponse::Rejected(y) => {
                    let r1 = spec_dec(x.protocol_version as int) + (crate::json::lit_code_key() + (
                    crate::json::spec_code_bytes(x.code) + (crate::json::lit_message_key() + (
                    spec_json_string(x.message@) + seq![0x7du8]))));
                    let r2 = spec_dec(y.protocol_version as int) + (crate::json::lit_code_key() + (
                    crate::json::spec_code_bytes(y.code) + (crate::json::lit_message_key() + (
                    spec_json_string(y.message@) + seq![0x7du8]))));
                    lemma_prefix_inj(crate::json::lit_rejected_head(), r1, crate::json::lit_rejected_head(), r2);
                    lemma_dec_inj(
                        x.protocol_version as int,
                        y.protocol_version as int,
                        crate::json::lit_code_key() + (crate::json::spec_code_bytes(x.code) + (
                        crate::json::lit_message_key() + (spec_json_string(x.message@)
                            + seq![0x7du8]))),
                        crate::json::lit_code_key() + (crate::json::spec_code_bytes(y.code) + (
                        crate::json::lit_message_key() + (spec_json_string(y.message@)
                            + seq![0x7du8]))),
                    );
                    lemma_prefix_inj(
                        crate::json::lit_code_key(),
                        crate::json::spec_code_bytes(x.code) + (crate::json::lit_message_key() + (
                        spec_json_string(x.message@) + seq![0x7du8])),
                        crate::json::lit_code_key(),
                        crate::json::spec_code_bytes(y.code) + (crate::json::lit_message_key() + (
                        spec_json_string(y.message@) + seq![0x7du8])),
                    );
                    lemma_code_inj(
                        x.code,
                        y.code,
                        crate::json::lit_message_key() + (spec_json_string(x.message@)
                            + seq![0x7du8]),
                        crate::json::lit_message_key() + (spec_json_string(y.message@)
                            + seq![0x7du8]),
                    );
                    lemma_prefix_inj(
                        crate::json::lit_message_key(),
                        spec_json_string(x.message@) + seq![0x7du8],
                        crate::json::lit_message_key(),
                        spec_json_string(y.message@) + seq![0x7du8],
                    );
                    lemma_json_string_inj(x.message@, y.message@, seq![0x7du8], seq![0x7du8]);
                },
            }
        },
    }
}

/// The number a digit string denotes, most significant digit first.
pub open spec fn dec_value(s: Seq<u8>) -> int
    decreases s.len(),
{
    if s.len() == 0 {
        0
    } else {
        dec_value(s.drop_last()) * 10 + (s.last() - 0x30)
    }
}

/// A digit string denotes a non-negative number.
pub proof fn lemma_dec_value_nonneg(s: Seq<u8>)
    requires
        forall|i: int| 0 <= i < s.len() ==> is_digit(#[trigger] s[i]),
    ensures
        dec_value(s) >= 0,
    decreases s.len(),
{
    if s.len() > 0 {
        lemma_dec_value_nonneg(s.drop_last());
        assert(is_digit(s.last()));
    }
}

/// The digits of a number denote that number.
pub proof fn lemma_dec_value_spec_dec(n: int)
    requires
        n >= 0,
    ensures
        dec_value(spec_dec(n)) == n,
    decreases n,
{
    if n < 10 {
        assert(spec_dec(n) =~= seq![(0x30 + n) as u8]);
        assert(spec_dec(n).drop_last() =~= Seq::<u8>::empty());
        assert(dec_value(Seq::<u8>::empty()) == 0);
        assert(dec_value(spec_dec(n)) == (0x30 + n) as u8 - 0x30);
    } else {
        lemma_dec_value_spec_dec(n / 10);
        assert(spec_dec(n).drop_last() =~= spec_dec(n / 10));
        assert(spec_dec(n).last() == (0x30 + n % 10) as u8);
        vstd::arithmetic::div_mod::lemma_fundamental_div_mod(n, 10);
    }
}

/// A prefix of a digit string denotes no more than the whole string.
pub proof fn lemma_dec_value_take_le(s: Seq<u8>, k: int)
    requires
        forall|i: int| 0 <= i < s.len() ==> is_digit(#[trigger] s[i]),
        0 <= k <= s.len(),
    ensures
        dec_value(s.take(k)) <= dec_value(s),
    decreases s.len() - k,
{
    if k < s.len() {
        lemma_dec_value_take_le(s, k + 1);
        assert(s.take(k + 1).drop_last() =~= s.take(k));
        assert(s.take(k + 1).last() == s[k]);
        lemma_dec_value_nonneg(s.take(k));
        assert(is_digit(s[k]));
        assert(dec_value(s.take(k + 1)) == dec_value(s.take(k)) * 10 + (s[k] - 0x30));
    } else {
        assert(s.take(k) =~= s);
    }
}

/// Digits of a number never open with a zero unless the number is one digit.
pub proof fn lemma_spec_dec_no_leading_zero(n: int)
    requires
        n >= 0,
    ensures
        spec_dec(n).len() > 1 ==> spec_dec(n)[0] != 0x30,
    decreases n,
{
    if n >= 10 {
        lemma_spec_dec_no_leading_zero(n / 10);
        lemma_dec_digits(n / 10);
        assert(spec_dec(n)[0] == spec_dec(n / 10)[0]);
        if n / 10 < 10 {
            assert(n / 10 >= 1);
            assert(spec_dec(n / 10) =~= seq![(0x30 + n / 10) as u8]);
            assert(spec_dec(n / 10)[0] == (0x30 + n / 10) as u8);
        } else {
            lemma_dec_digits(n / 100);
            assert(spec_dec(n / 10).len() > 1);
        }
    }
}

/// A digit string with no leading zero is the digits of the number it
/// denotes.
pub proof fn lemma_spec_dec_of_value(s: Seq<u8>)
    requires
        forall|i: int| 0 <= i < s.len() ==> is_digit(#[trigger] s[i]),
        s.len() >= 1,
        s.len() > 1 ==> s[0] != 0x30,
    ensures
        spec_dec(dec_value(s)) == s,
    decreases s.len(),
{
    lemma_dec_value_nonneg(s);
    if s.len() == 1 {
        assert(is_digit(s[0]));
        assert(s.drop_last() =~= Seq::<u8>::empty());
        assert(s.last() == s[0]);
        assert(dec_value(Seq::<u8>::empty()) == 0);
        assert(dec_value(s) == s[0] - 0x30);
        assert(spec_dec(dec_value(s)) =~= seq![(0x30 + (s[0] - 0x30)) as u8]);
        assert(spec_dec(dec_value(s)) =~= s);
    } else {
        let head = s.drop_last();
        lemma_spec_dec_of_value(head);
        assert(head[0] == s[0]);
        // the head denotes at least its first digit, which is not zero
        lemma_dec_value_take_le(head, 1);
        assert(head.take(1) =~= seq![s[0]]);
        assert(seq![s[0]].drop_last() =~= Seq::<u8>::empty());
        assert(seq![s[0]].last() == s[0]);
        assert(dec_value(Seq::<u8>::empty()) == 0);
        assert(dec_value(seq![s[0]]) == s[0] - 0x30);
        assert(dec_value(head) >= 1);
        let v = dec_value(s);
        assert(v == dec_value(head) * 10 + (s.last() - 0x30));
        assert(is_digit(s.last()));
        assert(v >= 10);
        assert(v / 10 == dec_value(head) && v % 10 == s.last() - 0x30) by {
            vstd::arithmetic::div_mod::lemma_fundamental_div_mod_converse(
                v,
                10,
                dec_value(head),
                s.last() - 0x30,
            );
        }
        assert(spec_dec(v) == spec_dec(v / 10) + seq![(0x30 + v % 10) as u8]);
        assert(spec_dec(v) =~= s);
    }
}

/// Encoding distributes over concatenation of character strings.
pub proof fn lemma_encode_utf8_concat(a: Seq<char>, b: Seq<char>)
    ensures
        encode_utf8(a + b) == encode_utf8(a) + encode_utf8(b),
    decreases a.len(),
{
    if a.len() == 0 {
        assert(a + b =~= b);
        assert(encode_utf8(a) =~= Seq::<u8>::empty());
        assert(encode_utf8(a) + encode_utf8(b) =~= encode_utf8(b));
    } else {
        lemma_encode_utf8_concat(a.drop_first(), b);
        assert((a + b).drop_first() =~= a.drop_first() + b);
        assert((a + b)[0] == a[0]);
        assert(encode_utf8(a + b) =~= encode_utf8(a) + encode_utf8(b));
    }
}

} // verus!
