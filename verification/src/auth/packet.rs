//! The packets of a handshake.
//!
//! Numbers are little-endian. A hello from the server and the answer of the client are a tag, the
//! handshake version, the authentication scheme, the application schema and a counted byte string:
//! the nonce, or the proof. An acknowledgement is a tag, a status and a counted reason. A packet
//! must be exactly as long as its count says. Each packet is preceded by its length.

use crate::bytes::{
    get_le, law_le_read_back, law_le_value_of_few, law_le_write_back, le_bytes, le_value,
    lemma_le_len, lemma_le_spans, lemma_le_value_bound, put_le,
};
use crate::error::{HandshakeError, HandshakeFailure};
use crate::text::{
    decimal, hexadecimal, hexadecimal_span, law_hexadecimal_tells_apart, lemma_hexadecimal_len,
    write_decimal, write_hexadecimal,
};
use vstd::prelude::*;
use vstd::string::StringExecFns;
use vstd::utf8::{
    decode_utf8, encode_utf8, encode_utf8_decode_utf8, encode_utf8_valid_utf8, valid_utf8,
};

verus! {

/// The version of the handshake.
pub const HANDSHAKE_VERSION: u16 = 2;

/// The length of a nonce.
pub const NONCE_LEN: usize = 32;

/// A longer packet is not read.
pub const MAX_PACKET_LEN: u32 = 4096;

pub const TAG_HELLO: u8 = 1;

pub const TAG_CLIENT_AUTH: u8 = 2;

pub const TAG_ACK: u8 = 3;

pub const ACK_OK: u8 = 0;

pub const ACK_REJECTED: u8 = 1;

/// Identity of the application schema both sides were built against.
///
/// Opaque to this crate: the application supplies it (typically a hash of its `.capnp` files) and
/// the handshake refuses to proceed when the two sides differ. Not checked in
/// [`HandshakeMode::Disabled`](super::handshake::HandshakeMode::Disabled), which skips the
/// handshake entirely.
#[derive(Clone, Copy, Debug, PartialEq, Eq, Hash, Structural)]
pub struct SchemaId(pub u64);

impl SchemaId {
    /// The identity in words.
    pub open spec fn words(self) -> Seq<char> {
        hexadecimal(self.0 as nat, 16)
    }

    /// The identity as sixteen hexadecimal digits.
    pub fn to_text(self) -> (text: String)
        ensures
            text@ == self.words(),
    {
        write_hexadecimal(self.0, 16)
    }
}

/// A hello or a client's answer: scheme, schema and nonce or proof behind a tag and the version.
pub open spec fn auth_packet(tag: u8, scheme: u8, schema: u64, tail: Seq<u8>) -> Seq<u8> {
    seq![tag] + le_bytes(HANDSHAKE_VERSION as nat, 2) + seq![scheme] + le_bytes(schema as nat, 8)
        + le_bytes(tail.len(), 2) + tail
}

/// Whether `body` is as long as a hello or a client's answer says, and has the given tag.
pub open spec fn is_auth_packet(tag: u8, body: Seq<u8>) -> bool {
    &&& body.len() >= 14
    &&& body.len() == 14 + le_value(body.subrange(12, 14))
    &&& body[0] == tag
}

/// Scheme, schema and nonce or proof of a hello or a client's answer.
pub open spec fn auth_parts(body: Seq<u8>) -> (u8, u64, Seq<u8>) {
    (body[3], le_value(body.subrange(4, 12)) as u64, body.skip(14))
}

/// An acknowledgement.
pub open spec fn ack_packet(status: u8, reason: Seq<u8>) -> Seq<u8> {
    seq![TAG_ACK, status] + le_bytes(reason.len(), 2) + reason
}

/// Whether `body` is an acknowledgement as long as it says.
pub open spec fn is_ack_packet(body: Seq<u8>) -> bool {
    &&& body.len() >= 4
    &&& body.len() == 4 + le_value(body.subrange(2, 4))
    &&& body[0] == TAG_ACK
}

/// The version that a hello or a client's answer claims, whatever follows it.
pub open spec fn version_of(body: Seq<u8>) -> Option<u16> {
    if body.len() >= 3 {
        Some(le_value(body.subrange(1, 3)) as u16)
    } else {
        None
    }
}

/// A packet that is not what it should be.
pub open spec fn malformed_failure(what: Seq<char>) -> (HandshakeError, Option<Seq<char>>) {
    (HandshakeError::MalformedPacket, Some("invalid "@ + what + " packet"@))
}

/// The verdict that an acknowledgement brings.
pub open spec fn ack_verdict(body: Seq<u8>) -> Result<(), (HandshakeError, Option<Seq<char>>)> {
    if !is_ack_packet(body) {
        Err(malformed_failure("ack"@))
    } else if body[1] == ACK_OK {
        Ok(())
    } else {
        Err((HandshakeError::Rejected, Some(text_of(body.skip(4)))))
    }
}

/// What `String::from_utf8_lossy` makes of bytes that are not UTF-8.
pub uninterp spec fn lossy_text(bytes: Seq<u8>) -> Seq<char>;

/// The text that bytes encode, or an approximation where they encode none.
pub open spec fn text_of(bytes: Seq<u8>) -> Seq<char> {
    if valid_utf8(bytes) {
        decode_utf8(bytes)
    } else {
        lossy_text(bytes)
    }
}

/// `String::from_utf8_lossy`: the text that bytes encode, or what it puts in its place.
#[verifier::external_body]
fn read_lossy(bytes: &[u8]) -> (text: String)
    ensures
        text@ == if valid_utf8(bytes@) {
            decode_utf8(bytes@)
        } else {
            lossy_text(bytes@)
        },
{
    String::from_utf8_lossy(bytes).into_owned()
}

fn malformed(what: &str) -> (failure: HandshakeFailure)
    ensures
        failure@ == malformed_failure(what@),
{
    HandshakeFailure::with(
        HandshakeError::MalformedPacket,
        "invalid ".to_owned().concat(what).concat(" packet"),
    )
}

/// The version that a hello or a client's answer claims.
pub fn packet_version(body: &[u8]) -> (version: Option<u16>)
    ensures
        version == version_of(body@),
{
    if body.len() >= 3 {
        proof {
            lemma_le_spans();
        }
        Some(get_le(body, 1, 2) as u16)
    } else {
        None
    }
}

fn encode_auth(tag: u8, scheme: u8, schema: SchemaId, tail: &[u8]) -> (body: Vec<u8>)
    ensures
        body@ == auth_packet(tag, scheme, schema.0, tail@),
{
    let mut body: Vec<u8> = Vec::new();
    body.push(tag);
    put_le(&mut body, HANDSHAKE_VERSION as u64, 2);
    body.push(scheme);
    put_le(&mut body, schema.0, 8);
    put_le(&mut body, tail.len() as u64, 2);
    body.extend_from_slice(tail);
    assert(body@ =~= auth_packet(tag, scheme, schema.0, tail@));
    body
}

fn decode_auth(tag: u8, body: &[u8]) -> (parts: Option<(u8, SchemaId, Vec<u8>)>)
    ensures
        match parts {
            Some((scheme, schema, tail)) => is_auth_packet(tag, body@) && (scheme, schema.0, tail@)
                == auth_parts(body@),
            None => !is_auth_packet(tag, body@),
        },
{
    if body.len() < 14 {
        return None;
    }
    proof {
        lemma_le_spans();
    }
    let count: usize = get_le(body, 12, 2) as usize;
    if body.len() != 14 + count || body[0] != tag {
        return None;
    }
    let schema = SchemaId(get_le(body, 4, 8));
    let end: usize = body.len();
    let mut tail: Vec<u8> = Vec::new();
    tail.extend_from_slice(&body[14..end]);
    assert(tail@ =~= body@.skip(14));
    Some((body[3], schema, tail))
}

/// Writes a hello.
pub fn encode_hello(scheme: u8, schema: SchemaId, nonce: &[u8]) -> (body: Vec<u8>)
    ensures
        body@ == auth_packet(TAG_HELLO, scheme, schema.0, nonce@),
{
    encode_auth(TAG_HELLO, scheme, schema, nonce)
}

/// Reads the scheme, the schema and the nonce of a hello.
pub fn decode_hello(body: &[u8]) -> (hello: Result<(u8, SchemaId, Vec<u8>), HandshakeFailure>)
    ensures
        match hello {
            Ok((scheme, schema, nonce)) => is_auth_packet(TAG_HELLO, body@) && (
                scheme,
                schema.0,
                nonce@,
            ) == auth_parts(body@),
            Err(failure) => !is_auth_packet(TAG_HELLO, body@) && failure@ == malformed_failure(
                "hello"@,
            ),
        },
{
    match decode_auth(TAG_HELLO, body) {
        Some(hello) => Ok(hello),
        None => Err(malformed("hello")),
    }
}

/// Writes a client's answer.
pub fn encode_client_auth(scheme: u8, schema: SchemaId, proof: &[u8]) -> (body: Vec<u8>)
    ensures
        body@ == auth_packet(TAG_CLIENT_AUTH, scheme, schema.0, proof@),
{
    encode_auth(TAG_CLIENT_AUTH, scheme, schema, proof)
}

/// Reads the scheme, the schema and the proof of a client's answer.
pub fn decode_client_auth(body: &[u8]) -> (answer: Result<
    (u8, SchemaId, Vec<u8>),
    HandshakeFailure,
>)
    ensures
        match answer {
            Ok((scheme, schema, proof)) => is_auth_packet(TAG_CLIENT_AUTH, body@) && (
                scheme,
                schema.0,
                proof@,
            ) == auth_parts(body@),
            Err(failure) => !is_auth_packet(TAG_CLIENT_AUTH, body@) && failure@
                == malformed_failure("client auth"@),
        },
{
    match decode_auth(TAG_CLIENT_AUTH, body) {
        Some(answer) => Ok(answer),
        None => Err(malformed("client auth")),
    }
}

/// Writes an acknowledgement.
pub fn encode_ack(status: u8, reason: &[u8]) -> (body: Vec<u8>)
    ensures
        body@ == ack_packet(status, reason@),
{
    let mut body: Vec<u8> = Vec::new();
    body.push(TAG_ACK);
    body.push(status);
    put_le(&mut body, reason.len() as u64, 2);
    body.extend_from_slice(reason);
    assert(body@ =~= ack_packet(status, reason@));
    body
}

/// Reads an acknowledgement: success, or the reason why the peer refused.
pub fn decode_ack(body: &[u8]) -> (verdict: Result<(), HandshakeFailure>)
    ensures
        match verdict {
            Ok(()) => ack_verdict(body@) is Ok,
            Err(failure) => ack_verdict(body@) == Err::<(), (HandshakeError, Option<Seq<char>>)>(
                failure@,
            ),
        },
{
    if body.len() < 4 {
        return Err(malformed("ack"));
    }
    proof {
        lemma_le_spans();
    }
    let count: usize = get_le(body, 2, 2) as usize;
    if body.len() != 4 + count || body[0] != TAG_ACK {
        return Err(malformed("ack"));
    }
    if body[1] == ACK_OK {
        return Ok(());
    }
    let end: usize = body.len();
    let reason = &body[4..end];
    assert(reason@ =~= body@.skip(4));
    Err(HandshakeFailure::with(HandshakeError::Rejected, read_lossy(reason)))
}

/// A packet behind its length.
pub open spec fn framed(body: Seq<u8>) -> Seq<u8> {
    le_bytes(body.len(), 4) + body
}

/// Puts the length in front of a packet.
pub fn frame_packet(body: &[u8]) -> (packet: Vec<u8>)
    ensures
        packet@ == framed(body@),
{
    let mut packet: Vec<u8> = Vec::new();
    put_le(&mut packet, body.len() as u64, 4);
    packet.extend_from_slice(body);
    assert(packet@ =~= framed(body@));
    packet
}

/// How long the packet is that a length announces. A length over [`MAX_PACKET_LEN`] is refused.
pub fn packet_len(header: [u8; 4]) -> (len: Result<usize, HandshakeFailure>)
    ensures
        match len {
            Ok(len) => len == le_value(header@) && len <= MAX_PACKET_LEN,
            Err(failure) => le_value(header@) > MAX_PACKET_LEN && failure@ == (
                HandshakeError::MalformedPacket,
                Some(
                    "declared packet length "@ + decimal(le_value(header@)) + " exceeds "@
                        + decimal(MAX_PACKET_LEN as nat),
                ),
            ),
        },
{
    let len: u64 = get_le(header.as_slice(), 0, 4);
    assert(header@.subrange(0, 4) =~= header@);
    if len > MAX_PACKET_LEN as u64 {
        return Err(
            HandshakeFailure::with(
                HandshakeError::MalformedPacket,
                "declared packet length ".to_owned().concat(write_decimal(len).as_str()).concat(
                    " exceeds ",
                ).concat(write_decimal(MAX_PACKET_LEN as u64).as_str()),
            ),
        );
    }
    Ok(len as usize)
}

/// A packet that may be read announces its length to the reader.
pub proof fn law_framed_read_back(body: Seq<u8>)
    requires
        body.len() <= MAX_PACKET_LEN,
    ensures
        le_value(framed(body).take(4)) == body.len(),
        framed(body).skip(4) == body,
{
    lemma_le_spans();
    lemma_le_len(body.len(), 4);
    law_le_read_back(body.len(), 4);
    assert(framed(body).take(4) =~= le_bytes(body.len(), 4));
    assert(framed(body).skip(4) =~= body);
}

/// A hello, and a client's answer, read back as they were written, as long as the count can hold
/// the length of the nonce or proof.
pub proof fn law_auth_packet_read_back(tag: u8, scheme: u8, schema: u64, tail: Seq<u8>)
    requires
        tail.len() < 0x1_0000,
    ensures
        is_auth_packet(tag, auth_packet(tag, scheme, schema, tail)),
        auth_parts(auth_packet(tag, scheme, schema, tail)) == (scheme, schema, tail),
        version_of(auth_packet(tag, scheme, schema, tail)) == Some(HANDSHAKE_VERSION),
{
    let body = auth_packet(tag, scheme, schema, tail);
    lemma_le_spans();
    lemma_le_len(HANDSHAKE_VERSION as nat, 2);
    lemma_le_len(schema as nat, 8);
    lemma_le_len(tail.len(), 2);
    law_le_read_back(HANDSHAKE_VERSION as nat, 2);
    law_le_read_back(schema as nat, 8);
    law_le_read_back(tail.len(), 2);
    assert(body.subrange(1, 3) =~= le_bytes(HANDSHAKE_VERSION as nat, 2));
    assert(body.subrange(4, 12) =~= le_bytes(schema as nat, 8));
    assert(body.subrange(12, 14) =~= le_bytes(tail.len(), 2));
    assert(body.skip(14) =~= tail);
}

/// A refusal brings its reason to the peer, as long as the count can hold its length.
pub proof fn law_refusal_read_back(reason: Seq<char>)
    requires
        encode_utf8(reason).len() < 0x1_0000,
    ensures
        ack_verdict(ack_packet(ACK_REJECTED, encode_utf8(reason))) == Err::<
            (),
            (HandshakeError, Option<Seq<char>>),
        >((HandshakeError::Rejected, Some(reason))),
{
    let bytes = encode_utf8(reason);
    let body = ack_packet(ACK_REJECTED, bytes);
    lemma_ack_parts(ACK_REJECTED, bytes);
    encode_utf8_valid_utf8(reason);
    encode_utf8_decode_utf8(reason);
}

/// An acknowledgement of success reads back as success.
pub proof fn law_success_read_back()
    ensures
        ack_verdict(ack_packet(ACK_OK, Seq::empty())) is Ok,
{
    lemma_ack_parts(ACK_OK, Seq::empty());
}

proof fn lemma_ack_parts(status: u8, reason: Seq<u8>)
    requires
        reason.len() < 0x1_0000,
    ensures
        is_ack_packet(ack_packet(status, reason)),
        ack_packet(status, reason)[1] == status,
        ack_packet(status, reason).skip(4) == reason,
{
    let body = ack_packet(status, reason);
    lemma_le_spans();
    lemma_le_len(reason.len(), 2);
    law_le_read_back(reason.len(), 2);
    assert(body.subrange(2, 4) =~= le_bytes(reason.len(), 2));
    assert(body.skip(4) =~= reason);
}

/// What stands where in a hello or a client's answer, byte for byte.
pub proof fn law_auth_packet_bytes(tag: u8, scheme: u8, schema: u64, tail: Seq<u8>)
    requires
        tail.len() < 0x1_0000,
    ensures
        ({
            let body = auth_packet(tag, scheme, schema, tail);
            &&& body.len() == 14 + tail.len()
            &&& body[0] == tag
            &&& body[1] == 2
            &&& body[2] == 0
            &&& body[3] == scheme
            &&& body[4] + 0x100 * body[5] + 0x1_0000 * body[6] + 0x100_0000 * body[7]
                + 0x1_0000_0000 * body[8] + 0x100_0000_0000 * body[9] + 0x1_0000_0000_0000
                * body[10] + 0x100_0000_0000_0000 * body[11] == schema
            &&& body[12] + 0x100 * body[13] == tail.len()
            &&& forall|i: int| 0 <= i < tail.len() ==> #[trigger] tail[i] == body[14 + i]
        }),
{
    let body = auth_packet(tag, scheme, schema, tail);
    law_auth_packet_read_back(tag, scheme, schema, tail);
    lemma_le_spans();
    lemma_le_len(HANDSHAKE_VERSION as nat, 2);
    lemma_le_len(schema as nat, 8);
    lemma_le_len(tail.len(), 2);
    law_le_value_of_few(body.subrange(1, 3));
    law_le_value_of_few(body.subrange(4, 12));
    law_le_value_of_few(body.subrange(12, 14));
    lemma_le_value_bound(body.subrange(4, 12));
    assert(body.subrange(1, 3) =~= le_bytes(HANDSHAKE_VERSION as nat, 2));
    law_le_read_back(HANDSHAKE_VERSION as nat, 2);
}

/// How a packet is read, byte for byte: which packets are hellos or client's answers, what is in
/// them, and which version one claims.
pub proof fn law_auth_packet_is_read_by_its_bytes(tag: u8, body: Seq<u8>)
    ensures
        is_auth_packet(tag, body) <==> body.len() >= 14 && body[0] == tag && body.len() == 14
            + body[12] + 0x100 * body[13],
        body.len() >= 14 ==> ({
            let (scheme, schema, tail) = auth_parts(body);
            &&& scheme == body[3]
            &&& schema == body[4] + 0x100 * body[5] + 0x1_0000 * body[6] + 0x100_0000 * body[7]
                + 0x1_0000_0000 * body[8] + 0x100_0000_0000 * body[9] + 0x1_0000_0000_0000
                * body[10] + 0x100_0000_0000_0000 * body[11]
            &&& tail.len() == body.len() - 14
            &&& forall|i: int| 0 <= i < tail.len() ==> #[trigger] tail[i] == body[14 + i]
        }),
        version_of(body) is Some <==> body.len() >= 3,
        version_of(body) matches Some(version) ==> version == body[1] + 0x100 * body[2],
{
    lemma_le_spans();
    if body.len() >= 3 {
        law_le_value_of_few(body.subrange(1, 3));
    }
    if body.len() >= 14 {
        law_le_value_of_few(body.subrange(4, 12));
        law_le_value_of_few(body.subrange(12, 14));
        lemma_le_value_bound(body.subrange(4, 12));
    }
}

/// A hello or a client's answer of this version is what writing its parts gives: there is no other
/// way to say the same.
pub proof fn law_auth_packet_write_back(tag: u8, body: Seq<u8>)
    requires
        is_auth_packet(tag, body),
        version_of(body) == Some(HANDSHAKE_VERSION),
    ensures
        ({
            let (scheme, schema, tail) = auth_parts(body);
            &&& tail.len() < 0x1_0000
            &&& body == auth_packet(tag, scheme, schema, tail)
        }),
{
    let (scheme, schema, tail) = auth_parts(body);
    lemma_le_spans();
    lemma_le_value_bound(body.subrange(1, 3));
    lemma_le_value_bound(body.subrange(4, 12));
    lemma_le_value_bound(body.subrange(12, 14));
    law_le_write_back(body.subrange(1, 3));
    law_le_write_back(body.subrange(4, 12));
    law_le_write_back(body.subrange(12, 14));
    assert(body =~= auth_packet(tag, scheme, schema, tail));
}

/// What stands where in an acknowledgement, byte for byte.
pub proof fn law_ack_bytes(status: u8, reason: Seq<u8>)
    requires
        reason.len() < 0x1_0000,
    ensures
        ({
            let body = ack_packet(status, reason);
            &&& body.len() == 4 + reason.len()
            &&& body[0] == 3
            &&& body[1] == status
            &&& body[2] + 0x100 * body[3] == reason.len()
            &&& forall|i: int| 0 <= i < reason.len() ==> #[trigger] reason[i] == body[4 + i]
        }),
{
    let body = ack_packet(status, reason);
    lemma_le_len(reason.len(), 2);
    lemma_ack_parts(status, reason);
    law_le_value_of_few(body.subrange(2, 4));
}

/// What an acknowledgement says, byte for byte: success, a refusal with the reason that follows, or
/// nothing that can be understood.
pub proof fn law_ack_is_read_by_its_bytes(body: Seq<u8>, reason: Seq<char>)
    ensures
        ack_verdict(body) is Ok <==> body.len() >= 4 && body[0] == 3 && body[1] == 0 && body.len()
            == 4 + body[2] + 0x100 * body[3],
        body.len() < 4 || body[0] != 3 || body.len() != 4 + body[2] + 0x100 * body[3] ==> (
        ack_verdict(body) matches Err((error, Some(detail))) && error
            == HandshakeError::MalformedPacket && detail == "invalid "@ + "ack"@ + " packet"@),
        body.len() >= 4 && body[0] == 3 && body[1] != 0 && body.len() == 4 + body[2] + 0x100
            * body[3] ==> (ack_verdict(body) matches Err((error, Some(detail))) && error
            == HandshakeError::Rejected && (body.skip(4) == encode_utf8(reason) ==> detail
            == reason) && (!valid_utf8(body.skip(4)) ==> detail == lossy_text(body.skip(4)))),
{
    if body.len() >= 4 {
        law_le_value_of_few(body.subrange(2, 4));
    }
    encode_utf8_valid_utf8(reason);
    encode_utf8_decode_utf8(reason);
}

/// A packet goes out behind its length in four bytes, the least significant first.
pub proof fn law_framed_bytes(body: Seq<u8>)
    requires
        body.len() < 0x1_0000_0000,
    ensures
        ({
            let packet = framed(body);
            &&& packet.len() == 4 + body.len()
            &&& packet[0] + 0x100 * packet[1] + 0x1_0000 * packet[2] + 0x100_0000 * packet[3]
                == body.len()
            &&& forall|i: int| 0 <= i < body.len() ==> #[trigger] body[i] == packet[4 + i]
        }),
{
    lemma_le_spans();
    lemma_le_len(body.len(), 4);
    law_le_read_back(body.len(), 4);
    law_le_value_of_few(le_bytes(body.len(), 4));
}

/// The numbers that both sides of a handshake agree on.
pub proof fn law_wire_numbers()
    ensures
        HANDSHAKE_VERSION == 2,
        NONCE_LEN == 32,
        MAX_PACKET_LEN == 4096,
        TAG_HELLO == 1,
        TAG_CLIENT_AUTH == 2,
        TAG_ACK == 3,
        ACK_OK == 0,
        ACK_REJECTED == 1,
{
}

/// A schema is named by sixteen digits, and two schemas by different ones.
pub proof fn law_schema_names_tell_apart(left: SchemaId, right: SchemaId)
    ensures
        left.words().len() == 16,
        left.words() == right.words() ==> left == right,
{
    lemma_hexadecimal_len(left.0 as nat, 16);
    assert(hexadecimal_span(16) == 0x1_0000_0000_0000_0000) by {
        reveal_with_fuel(hexadecimal_span, 17);
    }
    if left.words() == right.words() {
        law_hexadecimal_tells_apart(left.0 as nat, right.0 as nat, 16);
    }
}

} // verus!
