//! The two sides of a handshake.
//!
//! The server opens with a hello that carries its scheme, its schema and a nonce. The client
//! answers with its own and, where the scheme asks for one, a proof that it knows the secret. The
//! server acknowledges or refuses. Each side decides here what to make of what it receives.

use super::mac::{hmac_sha256, sign, verify};
use super::packet::{
    ack_packet, ack_verdict, auth_packet, auth_parts, decode_ack, decode_client_auth, decode_hello,
    encode_ack, encode_client_auth, encode_hello, frame_packet, framed, is_auth_packet,
    law_auth_packet_is_read_by_its_bytes, law_auth_packet_read_back, law_auth_packet_write_back,
    law_refusal_read_back, law_success_read_back, malformed_failure, packet_version, version_of,
    SchemaId, ACK_OK, ACK_REJECTED, HANDSHAKE_VERSION, MAX_PACKET_LEN, NONCE_LEN, TAG_ACK,
    TAG_CLIENT_AUTH, TAG_HELLO,
};
use crate::bytes::{
    law_le_read_back, law_le_value_of_few, le_bytes, le_value, lemma_le_len, lemma_le_spans, put_le,
};
use crate::error::{HandshakeError, HandshakeFailure, Why};
use crate::net::PeerIdentity;
use crate::text::{
    decimal, hexadecimal, lemma_decimal_len, lemma_hexadecimal_len, lemma_utf8_len, write_decimal,
};
use std::rc::Rc;
use vstd::prelude::*;
use vstd::string::StringExecFns;
use vstd::utf8::{encode_utf8, is_ascii_chars, is_ascii_chars_encode_utf8};

verus! {

/// What a proof authenticates beside the version and the nonce.
pub const HMAC_LABEL: &'static str = "ogurpchik/handshake/v1";

/// How the two sides of a connection authenticate.
#[derive(Debug)]
pub enum HandshakeMode {
    /// Not at all: there is no handshake.
    Disabled,
    /// By the version of the handshake and the application schema alone.
    VersionOnly,
    /// By a shared secret.
    HmacSha256 { secret: Rc<[u8]> },
    /// By the signature of the program that the client runs.
    SignedProcess { public_key: Rc<[u8]> },
}

/// How the two sides of a connection authenticate.
pub enum ModeView {
    Disabled,
    VersionOnly,
    HmacSha256(Seq<u8>),
    SignedProcess(Seq<u8>),
}

impl View for HandshakeMode {
    type V = ModeView;

    open spec fn view(&self) -> ModeView {
        match self {
            HandshakeMode::Disabled => ModeView::Disabled,
            HandshakeMode::VersionOnly => ModeView::VersionOnly,
            HandshakeMode::HmacSha256 { secret } => ModeView::HmacSha256((**secret)@),
            HandshakeMode::SignedProcess { public_key } => ModeView::SignedProcess(
                (**public_key)@,
            ),
        }
    }
}

impl ModeView {
    /// The number of the scheme on the wire.
    pub open spec fn scheme(self) -> u8 {
        match self {
            ModeView::Disabled => 0,
            ModeView::VersionOnly => 0,
            ModeView::HmacSha256(secret) => 1,
            ModeView::SignedProcess(public_key) => 2,
        }
    }

    /// The proof that a client sends for a nonce.
    pub open spec fn proof_for(self, nonce: Seq<u8>) -> Seq<u8> {
        match self {
            ModeView::HmacSha256(secret) => hmac_sha256(secret, proof_message(nonce))@,
            _ => Seq::empty(),
        }
    }
}

/// `Rc::from` on a vector: the bytes, shared.
#[verifier::external_body]
fn share(bytes: Vec<u8>) -> (shared: Rc<[u8]>)
    ensures
        (*shared)@ == bytes@,
{
    Rc::from(bytes)
}

impl Clone for HandshakeMode {
    fn clone(&self) -> (mode: Self)
        ensures
            mode@ == self@,
    {
        match self {
            HandshakeMode::Disabled => HandshakeMode::Disabled,
            HandshakeMode::VersionOnly => HandshakeMode::VersionOnly,
            HandshakeMode::HmacSha256 { secret } => HandshakeMode::HmacSha256 {
                secret: secret.clone(),
            },
            HandshakeMode::SignedProcess { public_key } => HandshakeMode::SignedProcess {
                public_key: public_key.clone(),
            },
        }
    }
}

impl Default for HandshakeMode {
    fn default() -> (mode: Self)
        ensures
            mode@ == ModeView::Disabled,
    {
        HandshakeMode::Disabled
    }
}

impl HandshakeMode {
    /// Authentication by version and schema alone.
    pub fn version_only() -> (mode: Self)
        ensures
            mode@ == ModeView::VersionOnly,
    {
        HandshakeMode::VersionOnly
    }

    /// Authentication by a shared secret.
    pub fn hmac(secret: Vec<u8>) -> (mode: Self)
        ensures
            mode@ == ModeView::HmacSha256(secret@),
    {
        HandshakeMode::HmacSha256 { secret: share(secret) }
    }

    /// Authentication by the signature of the client's program.
    pub fn signed_process(public_key: Vec<u8>) -> (mode: Self)
        ensures
            mode@ == ModeView::SignedProcess(public_key@),
    {
        HandshakeMode::SignedProcess { public_key: share(public_key) }
    }

    /// The number of the scheme on the wire.
    pub fn scheme_id(&self) -> (scheme: u8)
        ensures
            scheme == self@.scheme(),
    {
        match self {
            HandshakeMode::Disabled => 0,
            HandshakeMode::VersionOnly => 0,
            HandshakeMode::HmacSha256 { .. } => 1,
            HandshakeMode::SignedProcess { .. } => 2,
        }
    }
}

/// What a proof authenticates.
pub open spec fn proof_message(nonce: Seq<u8>) -> Seq<u8> {
    encode_utf8(HMAC_LABEL@) + le_bytes(HANDSHAKE_VERSION as nat, 2) + nonce
}

fn hmac_message(nonce: &[u8]) -> (message: Vec<u8>)
    ensures
        message@ == proof_message(nonce@),
{
    let mut message: Vec<u8> = Vec::new();
    message.extend_from_slice(HMAC_LABEL.as_bytes());
    put_le(&mut message, HANDSHAKE_VERSION as u64, 2);
    message.extend_from_slice(nonce);
    assert(message@ =~= proof_message(nonce@));
    message
}

/// A text of two values, one for each side.
fn two_sides(first: &str, left: &str, second: &str, right: &str) -> (text: String)
    ensures
        text@ == first@ + left@ + second@ + right@,
{
    first.to_owned().concat(left).concat(second).concat(right)
}

/// How a server goes about a connection before anything is sent.
pub enum Admission {
    /// There is no handshake.
    Skip,
    /// There is one. Where the client is to be trusted for its program, this is its process.
    Proceed { pid: Option<u32> },
}

/// How a server goes about a connection before anything is sent: nothing is sent to a peer whose
/// identity is needed and not known.
pub fn prepare_server(
    mode: &HandshakeMode,
    peer: PeerIdentity,
    transport: &str,
) -> (admission: Result<Admission, HandshakeFailure>)
    ensures
        match (mode@, peer) {
            (ModeView::Disabled, _) => admission matches Ok(Admission::Skip),
            (ModeView::SignedProcess(public_key), PeerIdentity::Pid { pid }) => admission
                == Ok::<Admission, HandshakeFailure>(Admission::Proceed { pid: Some(pid) }),
            (ModeView::SignedProcess(public_key), PeerIdentity::Unknown) => {
                &&& admission matches Err(failure)
                &&& failure@ == (
                    HandshakeError::PeerAttestationUnavailable,
                    Some("transport: "@ + transport@),
                )
            },
            _ => admission == Ok::<Admission, HandshakeFailure>(Admission::Proceed { pid: None }),
        },
{
    match mode {
        HandshakeMode::Disabled => Ok(Admission::Skip),
        HandshakeMode::SignedProcess { .. } => match peer {
            PeerIdentity::Pid { pid } => Ok(Admission::Proceed { pid: Some(pid) }),
            PeerIdentity::Unknown => Err(
                HandshakeFailure::with(
                    HandshakeError::PeerAttestationUnavailable,
                    "transport: ".to_owned().concat(transport),
                ),
            ),
        },
        _ => Ok(Admission::Proceed { pid: None }),
    }
}

/// What a server sends first, with the nonce in it.
pub struct Hello {
    pub packet: Vec<u8>,
    pub nonce: Vec<u8>,
}

/// The hello for a nonce, or the failure to make one.
pub fn hello_with(mode: &HandshakeMode, schema: SchemaId, nonce: Result<Vec<u8>, String>) -> (hello:
    Result<Hello, HandshakeFailure>)
    ensures
        match (nonce, hello) {
            (Ok(nonce), Ok(hello)) => {
                &&& hello.nonce@ == nonce@
                &&& hello.packet@ == framed(
                    auth_packet(TAG_HELLO, mode@.scheme(), schema.0, nonce@),
                )
            },
            (Err(error), Err(failure)) => failure@ == (
                HandshakeError::Io,
                Some("failed to generate nonce: "@ + error@),
            ),
            _ => false,
        },
{
    match nonce {
        Ok(nonce) => {
            let body = encode_hello(mode.scheme_id(), schema, nonce.as_slice());
            Ok(Hello { packet: frame_packet(body.as_slice()), nonce })
        },
        Err(error) => Err(
            HandshakeFailure::with(
                HandshakeError::Io,
                "failed to generate nonce: ".to_owned().concat(error.as_str()),
            ),
        ),
    }
}

/// What a server makes of a client's answer.
pub enum ServerVerdict {
    /// The client is accepted.
    Accept,
    /// The client is refused and told why.
    Reject { reason: Seq<u8>, failure: Why },
    /// The client is refused without an answer.
    Fail(Why),
    /// It depends on the program that the client runs.
    Verify,
}

/// A refusal that tells the client as much as the local log.
pub open spec fn refusal(error: HandshakeError, reason: Seq<char>) -> ServerVerdict {
    ServerVerdict::Reject { reason: encode_utf8(reason), failure: (error, Some(reason)) }
}

/// What a server makes of a client's answer to a hello with `nonce`.
pub open spec fn server_verdict(
    mode: ModeView,
    schema: SchemaId,
    nonce: Seq<u8>,
    body: Seq<u8>,
) -> ServerVerdict {
    let (scheme, client_schema, client_proof) = auth_parts(body);
    match version_of(body) {
        Some(version) if version != HANDSHAKE_VERSION => refusal(
            HandshakeError::UnsupportedVersion,
            "unsupported handshake version: client="@ + decimal(version as nat) + " server="@
                + decimal(HANDSHAKE_VERSION as nat),
        ),
        _ => if !is_auth_packet(TAG_CLIENT_AUTH, body) {
            ServerVerdict::Fail(malformed_failure("client auth"@))
        } else if scheme != mode.scheme() {
            refusal(
                HandshakeError::SchemeMismatch,
                "handshake auth mismatch: client="@ + decimal(scheme as nat) + " server="@
                    + decimal(mode.scheme() as nat),
            )
        } else if client_schema != schema.0 {
            refusal(
                HandshakeError::SchemaMismatch,
                "application schema mismatch: client="@ + SchemaId(client_schema).words()
                    + " server="@ + schema.words(),
            )
        } else {
            match mode {
                ModeView::HmacSha256(secret) => if client_proof == mode.proof_for(nonce) {
                    ServerVerdict::Accept
                } else {
                    ServerVerdict::Reject {
                        reason: encode_utf8("invalid handshake proof"@),
                        failure: (HandshakeError::InvalidProof, None),
                    }
                },
                ModeView::SignedProcess(public_key) => ServerVerdict::Verify,
                _ => if client_proof.len() > 0 {
                    ServerVerdict::Reject {
                        reason: encode_utf8("unexpected auth proof"@),
                        failure: (
                            HandshakeError::InvalidProof,
                            Some("mode carries no proof, but the client sent one"@),
                        ),
                    }
                } else {
                    ServerVerdict::Accept
                },
            }
        },
    }
}

/// What a server does after a client's answer.
pub enum ServerStep {
    /// Send the packet; the client is accepted.
    Accept { packet: Vec<u8> },
    /// Send the packet, whether or not that works; the handshake has failed.
    Reject { packet: Vec<u8>, failure: HandshakeFailure },
    /// The handshake has failed.
    Fail { failure: HandshakeFailure },
    /// Verify the program of the client's process and go on with [`conclude_signed_process`].
    Verify,
}

impl ServerStep {
    /// Whether this is the step that a verdict asks for.
    pub open spec fn carries_out(self, verdict: ServerVerdict) -> bool {
        match verdict {
            ServerVerdict::Accept => self matches ServerStep::Accept { packet } && packet@
                == framed(ack_packet(ACK_OK, Seq::empty())),
            ServerVerdict::Reject { reason, failure: why } => {
                &&& self matches ServerStep::Reject { packet, failure }
                &&& packet@ == framed(ack_packet(ACK_REJECTED, reason))
                &&& failure@ == why
            },
            ServerVerdict::Fail(why) => self matches ServerStep::Fail { failure } && failure@
                == why,
            ServerVerdict::Verify => self is Verify,
        }
    }
}

/// The packet that refuses a client.
pub fn reject_connection(reason: &str) -> (packet: Vec<u8>)
    ensures
        packet@ == framed(ack_packet(ACK_REJECTED, encode_utf8(reason@))),
{
    frame_packet(encode_ack(ACK_REJECTED, reason.as_bytes()).as_slice())
}

/// The packet that accepts a client.
fn accept_connection() -> (packet: Vec<u8>)
    ensures
        packet@ == framed(ack_packet(ACK_OK, Seq::empty())),
{
    let none: Vec<u8> = Vec::new();
    assert(none@ =~= Seq::<u8>::empty());
    frame_packet(encode_ack(ACK_OK, none.as_slice()).as_slice())
}

fn refuse(error: HandshakeError, reason: String) -> (step: ServerStep)
    ensures
        step.carries_out(refusal(error, reason@)),
{
    ServerStep::Reject {
        packet: reject_connection(reason.as_str()),
        failure: HandshakeFailure::with(error, reason),
    }
}

/// Decides on a client's answer to a hello with `nonce`. There is no hello without a handshake.
pub fn authenticate_server(
    mode: &HandshakeMode,
    schema: SchemaId,
    nonce: &[u8],
    body: &[u8],
) -> (step: ServerStep)
    requires
        !(mode@ is Disabled),
    ensures
        step.carries_out(server_verdict(mode@, schema, nonce@, body@)),
{
    if let Some(version) = packet_version(body) {
        if version != HANDSHAKE_VERSION {
            return refuse(
                HandshakeError::UnsupportedVersion,
                two_sides(
                    "unsupported handshake version: client=",
                    write_decimal(version as u64).as_str(),
                    " server=",
                    write_decimal(HANDSHAKE_VERSION as u64).as_str(),
                ),
            );
        }
    }
    let (scheme, client_schema, client_proof) = match decode_client_auth(body) {
        Ok(answer) => answer,
        Err(failure) => {
            return ServerStep::Fail { failure };
        },
    };
    if scheme != mode.scheme_id() {
        return refuse(
            HandshakeError::SchemeMismatch,
            two_sides(
                "handshake auth mismatch: client=",
                write_decimal(scheme as u64).as_str(),
                " server=",
                write_decimal(mode.scheme_id() as u64).as_str(),
            ),
        );
    }
    if client_schema.0 != schema.0 {
        return refuse(
            HandshakeError::SchemaMismatch,
            two_sides(
                "application schema mismatch: client=",
                client_schema.to_text().as_str(),
                " server=",
                schema.to_text().as_str(),
            ),
        );
    }
    match mode {
        HandshakeMode::HmacSha256 { secret } => {
            if !verify(secret, hmac_message(nonce).as_slice(), client_proof.as_slice()) {
                return ServerStep::Reject {
                    packet: reject_connection("invalid handshake proof"),
                    failure: HandshakeFailure::new(HandshakeError::InvalidProof),
                };
            }
        },
        HandshakeMode::SignedProcess { .. } => {
            return ServerStep::Verify;
        },
        _ => {
            if client_proof.len() > 0 {
                return ServerStep::Reject {
                    packet: reject_connection("unexpected auth proof"),
                    failure: HandshakeFailure::with(
                        HandshakeError::InvalidProof,
                        "mode carries no proof, but the client sent one".to_owned(),
                    ),
                };
            }
        },
    }
    ServerStep::Accept { packet: accept_connection() }
}

/// Decides on a client once the program of its process has been verified or not.
pub fn conclude_signed_process(verified: Result<(), HandshakeFailure>) -> (step: ServerStep)
    ensures
        step.carries_out(
            match verified {
                Ok(()) => ServerVerdict::Accept,
                Err(failure) => ServerVerdict::Reject {
                    reason: encode_utf8("signed-process verification failed"@),
                    failure: failure@,
                },
            },
        ),
{
    match verified {
        Ok(()) => ServerStep::Accept { packet: accept_connection() },
        Err(failure) => ServerStep::Reject {
            packet: reject_connection("signed-process verification failed"),
            failure,
        },
    }
}

/// What a client makes of the first packet from the server.
pub enum ClientVerdict {
    /// The server has accepted the connection without a handshake.
    Finish,
    /// The handshake has failed.
    Fail(Why),
    /// The client answers. Then the handshake fails, or the server's acknowledgement decides.
    Answer { body: Seq<u8>, failure: Option<Why> },
}

/// What a client makes of the first packet from the server.
pub open spec fn client_verdict(mode: ModeView, schema: SchemaId, body: Seq<u8>) -> ClientVerdict {
    let (scheme, server_schema, nonce) = auth_parts(body);
    if body.len() > 0 && body[0] == TAG_ACK {
        match ack_verdict(body) {
            Ok(()) => ClientVerdict::Finish,
            Err(failure) => ClientVerdict::Fail(failure),
        }
    } else {
        match version_of(body) {
            Some(version) if version != HANDSHAKE_VERSION => ClientVerdict::Fail(
                (
                    HandshakeError::UnsupportedVersion,
                    Some(
                        "server="@ + decimal(version as nat) + " client="@ + decimal(
                            HANDSHAKE_VERSION as nat,
                        ),
                    ),
                ),
            ),
            _ => if !is_auth_packet(TAG_HELLO, body) {
                ClientVerdict::Fail(malformed_failure("hello"@))
            } else if scheme != mode.scheme() {
                ClientVerdict::Fail(
                    (
                        HandshakeError::SchemeMismatch,
                        Some(
                            "server="@ + decimal(scheme as nat) + " client="@ + decimal(
                                mode.scheme() as nat,
                            ),
                        ),
                    ),
                )
            } else {
                ClientVerdict::Answer {
                    body: auth_packet(TAG_CLIENT_AUTH, scheme, schema.0, mode.proof_for(nonce)),
                    failure: if server_schema != schema.0 {
                        Some(
                            (
                                HandshakeError::SchemaMismatch,
                                Some(
                                    "server="@ + SchemaId(server_schema).words() + " client="@
                                        + schema.words(),
                                ),
                            ),
                        )
                    } else {
                        None
                    },
                }
            },
        }
    }
}

/// What a client does after the first packet from the server.
pub enum ClientStep {
    /// The connection is accepted.
    Finish,
    /// The handshake has failed.
    Fail { failure: HandshakeFailure },
    /// Send the packet; then the handshake has failed.
    AnswerThenFail { packet: Vec<u8>, failure: HandshakeFailure },
    /// Send the packet, receive another and let [`decode_ack`] decide.
    AnswerThenWait { packet: Vec<u8> },
}

impl ClientStep {
    /// Whether this is the step that a verdict asks for.
    pub open spec fn carries_out(self, verdict: ClientVerdict) -> bool {
        match verdict {
            ClientVerdict::Finish => self is Finish,
            ClientVerdict::Fail(why) => self matches ClientStep::Fail { failure } && failure@
                == why,
            ClientVerdict::Answer { body, failure: Some(why) } => {
                &&& self matches ClientStep::AnswerThenFail { packet, failure }
                &&& packet@ == framed(body)
                &&& failure@ == why
            },
            ClientVerdict::Answer { body, failure: None } => self matches
                ClientStep::AnswerThenWait { packet } && packet@ == framed(body),
        }
    }
}

/// Whether a client waits for a packet from the server at all.
pub fn expects_hello(mode: &HandshakeMode) -> (expects: bool)
    ensures
        expects <==> !(mode@ is Disabled),
{
    match mode {
        HandshakeMode::Disabled => false,
        _ => true,
    }
}

/// Decides on the first packet from the server. Without a handshake there is none.
pub fn authenticate_client(
    mode: &HandshakeMode,
    schema: SchemaId,
    body: &[u8],
) -> (step: ClientStep)
    requires
        !(mode@ is Disabled),
    ensures
        step.carries_out(client_verdict(mode@, schema, body@)),
{
    if body.len() > 0 && body[0] == TAG_ACK {
        return match decode_ack(body) {
            Ok(()) => ClientStep::Finish,
            Err(failure) => ClientStep::Fail { failure },
        };
    }
    if let Some(version) = packet_version(body) {
        if version != HANDSHAKE_VERSION {
            return ClientStep::Fail {
                failure: HandshakeFailure::with(
                    HandshakeError::UnsupportedVersion,
                    two_sides(
                        "server=",
                        write_decimal(version as u64).as_str(),
                        " client=",
                        write_decimal(HANDSHAKE_VERSION as u64).as_str(),
                    ),
                ),
            };
        }
    }
    let (scheme, server_schema, nonce) = match decode_hello(body) {
        Ok(hello) => hello,
        Err(failure) => {
            return ClientStep::Fail { failure };
        },
    };
    if scheme != mode.scheme_id() {
        return ClientStep::Fail {
            failure: HandshakeFailure::with(
                HandshakeError::SchemeMismatch,
                two_sides(
                    "server=",
                    write_decimal(scheme as u64).as_str(),
                    " client=",
                    write_decimal(mode.scheme_id() as u64).as_str(),
                ),
            ),
        };
    }
    let client_proof = match mode {
        HandshakeMode::HmacSha256 { secret } => sign(
            secret,
            hmac_message(nonce.as_slice()).as_slice(),
        ),
        _ => Vec::new(),
    };
    assert(client_proof@ =~= mode@.proof_for(nonce@));
    let answer = encode_client_auth(scheme, schema, client_proof.as_slice());
    let packet = frame_packet(answer.as_slice());
    if server_schema.0 != schema.0 {
        return ClientStep::AnswerThenFail {
            packet,
            failure: HandshakeFailure::with(
                HandshakeError::SchemaMismatch,
                two_sides(
                    "server=",
                    server_schema.to_text().as_str(),
                    " client=",
                    schema.to_text().as_str(),
                ),
            ),
        };
    }
    ClientStep::AnswerThenWait { packet }
}

/// The hello of a server.
pub open spec fn hello_body(mode: ModeView, schema: SchemaId, nonce: Seq<u8>) -> Seq<u8> {
    auth_packet(TAG_HELLO, mode.scheme(), schema.0, nonce)
}

/// The answer of a client to a nonce.
pub open spec fn answer_body(mode: ModeView, schema: SchemaId, nonce: Seq<u8>) -> Seq<u8> {
    auth_packet(TAG_CLIENT_AUTH, mode.scheme(), schema.0, mode.proof_for(nonce))
}

/// A client whose scheme is the server's answers the server's hello, with its own schema and its
/// own proof for the nonce. It goes on to wait for the server's verdict exactly when the schemas
/// agree.
pub proof fn law_client_answers(
    server: ModeView,
    server_schema: SchemaId,
    client: ModeView,
    client_schema: SchemaId,
    nonce: Seq<u8>,
)
    requires
        nonce.len() == NONCE_LEN,
        server.scheme() == client.scheme(),
    ensures
        ({
            let verdict = client_verdict(
                client,
                client_schema,
                hello_body(server, server_schema, nonce),
            );
            &&& verdict matches ClientVerdict::Answer { body, failure }
            &&& body == answer_body(client, client_schema, nonce)
            &&& failure is None <==> server_schema == client_schema
            &&& failure matches Some(why) ==> why.0 == HandshakeError::SchemaMismatch
        }),
{
    law_auth_packet_read_back(TAG_HELLO, server.scheme(), server_schema.0, nonce);
}

/// Two sides with the same mode and the same schema agree: the client's answer is accepted, or
/// left to the verification of its program, and an acceptance reaches the client as success.
pub proof fn law_matching_sides_succeed(mode: ModeView, schema: SchemaId, nonce: Seq<u8>)
    requires
        nonce.len() == NONCE_LEN,
    ensures
        client_verdict(mode, schema, hello_body(mode, schema, nonce)) == (ClientVerdict::Answer {
            body: answer_body(mode, schema, nonce),
            failure: None,
        }),
        server_verdict(mode, schema, nonce, answer_body(mode, schema, nonce)) == if mode is
            SignedProcess {
            ServerVerdict::Verify
        } else {
            ServerVerdict::Accept
        },
        ack_verdict(ack_packet(ACK_OK, Seq::empty())) is Ok,
{
    law_client_answers(mode, schema, mode, schema, nonce);
    law_auth_packet_read_back(
        TAG_CLIENT_AUTH,
        mode.scheme(),
        schema.0,
        mode.proof_for(nonce),
    );
    law_success_read_back();
}

/// With a shared secret the server accepts exactly the proof that its own secret gives for the
/// nonce, and refuses any other as an invalid proof.
pub proof fn law_only_the_right_proof_is_accepted(
    secret: Seq<u8>,
    schema: SchemaId,
    nonce: Seq<u8>,
    claimed: Seq<u8>,
)
    requires
        claimed.len() < 0x1_0000,
    ensures
        ({
            let verdict = server_verdict(
                ModeView::HmacSha256(secret),
                schema,
                nonce,
                auth_packet(TAG_CLIENT_AUTH, 1, schema.0, claimed),
            );
            if claimed == hmac_sha256(secret, proof_message(nonce))@ {
                verdict is Accept
            } else {
                &&& verdict matches ServerVerdict::Reject { reason, failure }
                &&& failure.0 == HandshakeError::InvalidProof
            }
        }),
{
    law_auth_packet_read_back(TAG_CLIENT_AUTH, 1, schema.0, claimed);
}

/// A client finds out that the server uses another scheme, before it answers.
pub proof fn law_scheme_mismatch_is_detected_by_client(
    server: ModeView,
    server_schema: SchemaId,
    client: ModeView,
    client_schema: SchemaId,
    nonce: Seq<u8>,
)
    requires
        nonce.len() == NONCE_LEN,
        server.scheme() != client.scheme(),
    ensures
        client_verdict(client, client_schema, hello_body(server, server_schema, nonce)) matches
            ClientVerdict::Fail(failure) && failure.0 == HandshakeError::SchemeMismatch,
{
    law_auth_packet_read_back(TAG_HELLO, server.scheme(), server_schema.0, nonce);
}

/// Two sides with different schemas both report that, whatever the secret of the client.
pub proof fn law_schema_mismatch_is_reported_by_both_sides(
    server: ModeView,
    server_schema: SchemaId,
    client: ModeView,
    client_schema: SchemaId,
    nonce: Seq<u8>,
)
    requires
        nonce.len() == NONCE_LEN,
        server.scheme() == client.scheme(),
        server_schema != client_schema,
    ensures
        ({
            let verdict = client_verdict(
                client,
                client_schema,
                hello_body(server, server_schema, nonce),
            );
            &&& verdict matches ClientVerdict::Answer { body, failure: Some(failure) }
            &&& failure.0 == HandshakeError::SchemaMismatch
            &&& server_verdict(server, server_schema, nonce, body) matches ServerVerdict::Reject {
                reason,
                failure,
            }
            &&& failure.0 == HandshakeError::SchemaMismatch
        }),
{
    law_client_answers(server, server_schema, client, client_schema, nonce);
    law_auth_packet_read_back(
        TAG_CLIENT_AUTH,
        client.scheme(),
        client_schema.0,
        client.proof_for(nonce),
    );
}

/// A packet of another version is reported as that, not as malformed, however it goes on.
pub proof fn law_other_version_is_not_malformed(
    mode: ModeView,
    schema: SchemaId,
    nonce: Seq<u8>,
    body: Seq<u8>,
)
    requires
        version_of(body) is Some,
        version_of(body) != Some(HANDSHAKE_VERSION),
    ensures
        server_verdict(mode, schema, nonce, body) matches ServerVerdict::Reject { reason, failure }
            && failure.0 == HandshakeError::UnsupportedVersion,
        body[0] != TAG_ACK ==> (client_verdict(mode, schema, body) matches ClientVerdict::Fail(
            failure,
        ) && failure.0 == HandshakeError::UnsupportedVersion),
{
}

/// A client that is to be trusted for its program is trusted for nothing that it sends: any proof
/// gives the same verdict.
pub proof fn law_signed_process_ignores_the_proof(
    public_key: Seq<u8>,
    schema: SchemaId,
    nonce: Seq<u8>,
    claimed: Seq<u8>,
)
    requires
        claimed.len() < 0x1_0000,
    ensures
        server_verdict(
            ModeView::SignedProcess(public_key),
            schema,
            nonce,
            auth_packet(TAG_CLIENT_AUTH, 2, schema.0, claimed),
        ) is Verify,
{
    law_auth_packet_read_back(TAG_CLIENT_AUTH, 2, schema.0, claimed);
}

/// A refusal reaches the client with its reason, whether it comes in place of the hello or after
/// the answer.
pub proof fn law_refusal_reaches_the_client(mode: ModeView, schema: SchemaId, reason: Seq<char>)
    requires
        encode_utf8(reason).len() < 0x1_0000,
    ensures
        client_verdict(mode, schema, ack_packet(ACK_REJECTED, encode_utf8(reason)))
            == ClientVerdict::Fail((HandshakeError::Rejected, Some(reason))),
        ack_verdict(ack_packet(ACK_REJECTED, encode_utf8(reason))) == Err::<
            (),
            Why,
        >((HandshakeError::Rejected, Some(reason))),
{
    law_refusal_read_back(reason);
}

/// A short text in a refusal reaches the client whole.
pub(crate) proof fn lemma_short_refusal(reason: Seq<char>)
    requires
        reason.len() <= 100,
    ensures
        ack_packet(ACK_REJECTED, encode_utf8(reason)).len() <= MAX_PACKET_LEN,
        ack_verdict(ack_packet(ACK_REJECTED, encode_utf8(reason))) == Err::<
            (),
            Why,
        >((HandshakeError::Rejected, Some(reason))),
{
    lemma_utf8_len(reason);
    lemma_le_len(encode_utf8(reason).len(), 2);
    law_refusal_read_back(reason);
}

/// Whenever a server refuses a client and says why, the client can read it: the packet is not too
/// long, and the client ends with a rejection for exactly that reason.
pub proof fn law_refusals_are_heard(
    mode: ModeView,
    schema: SchemaId,
    nonce: Seq<u8>,
    body: Seq<u8>,
)
    ensures
        server_verdict(mode, schema, nonce, body) matches ServerVerdict::Reject { reason, failure }
            ==> {
            &&& ack_packet(ACK_REJECTED, reason).len() <= MAX_PACKET_LEN
            &&& ack_verdict(ack_packet(ACK_REJECTED, reason)) matches Err((error, Some(text)))
            &&& error == HandshakeError::Rejected
            &&& encode_utf8(text) == reason
        },
{
    let (scheme, client_schema, client_proof) = auth_parts(body);
    reveal_strlit("unsupported handshake version: client=");
    reveal_strlit("handshake auth mismatch: client=");
    reveal_strlit("application schema mismatch: client=");
    reveal_strlit(" server=");
    reveal_strlit("invalid handshake proof");
    reveal_strlit("unexpected auth proof");
    lemma_decimal_len(HANDSHAKE_VERSION as nat);
    lemma_decimal_len(mode.scheme() as nat);
    lemma_decimal_len(scheme as nat);
    lemma_hexadecimal_len(client_schema as nat, 16);
    lemma_hexadecimal_len(schema.0 as nat, 16);
    if let Some(version) = version_of(body) {
        lemma_decimal_len(version as nat);
        lemma_short_refusal(
            "unsupported handshake version: client="@ + decimal(version as nat) + " server="@
                + decimal(HANDSHAKE_VERSION as nat),
        );
    }
    lemma_short_refusal(
        "handshake auth mismatch: client="@ + decimal(scheme as nat) + " server="@ + decimal(
            mode.scheme() as nat,
        ),
    );
    lemma_short_refusal(
        "application schema mismatch: client="@ + SchemaId(client_schema).words() + " server="@
            + schema.words(),
    );
    lemma_short_refusal("invalid handshake proof"@);
    lemma_short_refusal("unexpected auth proof"@);
}

/// The hello and the answer are not too long for the peer to read.
pub proof fn law_hello_and_answer_fit(mode: ModeView, schema: SchemaId, nonce: Seq<u8>)
    requires
        nonce.len() == NONCE_LEN,
    ensures
        hello_body(mode, schema, nonce).len() <= MAX_PACKET_LEN,
        answer_body(mode, schema, nonce).len() <= MAX_PACKET_LEN,
{
    lemma_le_len(HANDSHAKE_VERSION as nat, 2);
    lemma_le_len(schema.0 as nat, 8);
    lemma_le_len(nonce.len(), 2);
    lemma_le_len(mode.proof_for(nonce).len(), 2);
}

/// What a proof authenticates, byte for byte: the label, the version in two bytes, and then every
/// byte of the nonce in order.
pub proof fn law_proof_message_bytes(nonce: Seq<u8>)
    ensures
        ({
            let message = proof_message(nonce);
            let label = "ogurpchik/handshake/v1"@;
            &&& label.len() == 22
            &&& message.len() == 22 + 2 + nonce.len()
            &&& forall|i: int| 0 <= i < 22 ==> #[trigger] label[i] as u8 == message[i]
            &&& message[22] == 2
            &&& message[23] == 0
            &&& forall|i: int| 0 <= i < nonce.len() ==> #[trigger] nonce[i] == message[24 + i]
        }),
{
    let label = HMAC_LABEL@;
    reveal_strlit("ogurpchik/handshake/v1");
    assert(is_ascii_chars(label));
    is_ascii_chars_encode_utf8(label);
    let version = le_bytes(HANDSHAKE_VERSION as nat, 2);
    lemma_le_spans();
    lemma_le_len(HANDSHAKE_VERSION as nat, 2);
    law_le_read_back(HANDSHAKE_VERSION as nat, 2);
    law_le_value_of_few(version);
    let message = proof_message(nonce);
    assert(message[22] == version[0] && message[23] == version[1]);
    assert forall|i: int| 0 <= i < 22 implies #[trigger] label[i] as u8 == message[i] by {
        assert(encode_utf8(label)[i] == message[i]);
    }
}

/// Two nonces never give the same message to authenticate: a proof for one is no proof for another
/// unless the outside function gives both messages the same tag.
pub proof fn law_every_nonce_has_its_own_message(left: Seq<u8>, right: Seq<u8>)
    requires
        proof_message(left) == proof_message(right),
    ensures
        left == right,
{
    law_proof_message_bytes(left);
    law_proof_message_bytes(right);
    assert(left =~= right);
}

/// The proof of a client with a shared secret is the authentication tag, under the secret, of the
/// label, the version and the nonce. Without a shared secret there is no proof.
pub proof fn law_proof_is_the_tag_of_the_nonce(
    secret: Seq<u8>,
    nonce: Seq<u8>,
    message: Seq<u8>,
)
    requires
        message.len() == 24 + nonce.len(),
        forall|i: int|
            0 <= i < 22 ==> #[trigger] "ogurpchik/handshake/v1"@[i] as u8 == message[i],
        message[22] == 2,
        message[23] == 0,
        forall|i: int| 0 <= i < nonce.len() ==> #[trigger] nonce[i] == message[24 + i],
    ensures
        ModeView::HmacSha256(secret).proof_for(nonce) == hmac_sha256(secret, message)@,
        ModeView::Disabled.proof_for(nonce).len() == 0,
        ModeView::VersionOnly.proof_for(nonce).len() == 0,
        ModeView::SignedProcess(secret).proof_for(nonce).len() == 0,
{
    law_proof_message_bytes(nonce);
    let expected = proof_message(nonce);
    assert forall|i: int| 0 <= i < message.len() implies message[i] == expected[i] by {
        if i < 22 {
            assert("ogurpchik/handshake/v1"@[i] as u8 == message[i]);
        } else if i >= 24 {
            assert(nonce[i - 24] == message[24 + (i - 24)]);
        }
    }
    assert(message =~= expected);
}

/// The numbers of the schemes on the wire.
pub proof fn law_scheme_numbers(mode: ModeView)
    ensures
        mode.scheme() == match mode {
            ModeView::Disabled => 0u8,
            ModeView::VersionOnly => 0u8,
            ModeView::HmacSha256(_) => 1u8,
            ModeView::SignedProcess(_) => 2u8,
        },
{
}

/// There is one answer that a server accepts: that of its own scheme, its own schema and, with a
/// shared secret, the tag of its own nonce under its own secret. A server that goes by the client's
/// program leaves every answer of its scheme and schema to the verification, and no other.
pub proof fn law_one_answer_is_accepted(
    mode: ModeView,
    schema: SchemaId,
    nonce: Seq<u8>,
    body: Seq<u8>,
)
    ensures
        ({
            let verdict = server_verdict(mode, schema, nonce, body);
            &&& verdict is Accept <==> match mode {
                ModeView::HmacSha256(secret) => body == auth_packet(
                    2,
                    1,
                    schema.0,
                    hmac_sha256(secret, proof_message(nonce))@,
                ),
                ModeView::SignedProcess(_) => false,
                _ => body == auth_packet(2, 0, schema.0, Seq::empty()),
            }
            &&& verdict is Verify <==> mode is SignedProcess && exists|tail: Seq<u8>|
                tail.len() < 0x1_0000 && body == #[trigger] auth_packet(2, 2, schema.0, tail)
        }),
{
    let verdict = server_verdict(mode, schema, nonce, body);
    let honest = match mode {
        ModeView::HmacSha256(secret) => hmac_sha256(secret, proof_message(nonce))@,
        _ => Seq::empty(),
    };
    law_auth_packet_read_back(2, mode.scheme(), schema.0, honest);
    if verdict is Accept || verdict is Verify {
        law_auth_packet_write_back(2, body);
        let (scheme, client_schema, tail) = auth_parts(body);
        if verdict is Accept && !(mode is HmacSha256) {
            assert(tail =~= Seq::empty());
        }
    }
    if mode is SignedProcess && exists|tail: Seq<u8>|
        tail.len() < 0x1_0000 && body == #[trigger] auth_packet(2, 2, schema.0, tail) {
        let tail = choose|tail: Seq<u8>|
            tail.len() < 0x1_0000 && body == #[trigger] auth_packet(2, 2, schema.0, tail);
        law_auth_packet_read_back(2, 2, schema.0, tail);
    }
}

/// Why a server refuses an answer, byte for byte of the answer, and what it tells the client: the
/// version comes first, then the shape, the scheme, the schema and the proof.
pub proof fn law_why_an_answer_is_refused(
    mode: ModeView,
    schema: SchemaId,
    nonce: Seq<u8>,
    body: Seq<u8>,
)
    ensures
        ({
            let verdict = server_verdict(mode, schema, nonce, body);
            let version = (body[1] + 0x100 * body[2]) as nat;
            let theirs = le_value(body.subrange(4, 12)) as u64;
            let whole = body.len() >= 14 && body[0] == 2 && body.len() == 14 + body[12] + 0x100
                * body[13];
            if body.len() >= 3 && version != 2 {
                verdict == refusal(
                    HandshakeError::UnsupportedVersion,
                    "unsupported handshake version: client="@ + decimal(version) + " server="@
                        + decimal(2),
                )
            } else if !whole {
                verdict == ServerVerdict::Fail(
                    (
                        HandshakeError::MalformedPacket,
                        Some("invalid "@ + "client auth"@ + " packet"@),
                    ),
                )
            } else if body[3] != mode.scheme() {
                verdict == refusal(
                    HandshakeError::SchemeMismatch,
                    "handshake auth mismatch: client="@ + decimal(body[3] as nat) + " server="@
                        + decimal(mode.scheme() as nat),
                )
            } else if theirs != schema.0 {
                verdict == refusal(
                    HandshakeError::SchemaMismatch,
                    "application schema mismatch: client="@ + hexadecimal(theirs as nat, 16)
                        + " server="@ + hexadecimal(schema.0 as nat, 16),
                )
            } else if verdict is Accept || verdict is Verify {
                true
            } else if mode is HmacSha256 {
                verdict == (ServerVerdict::Reject {
                    reason: encode_utf8("invalid handshake proof"@),
                    failure: (HandshakeError::InvalidProof, None),
                })
            } else {
                verdict == (ServerVerdict::Reject {
                    reason: encode_utf8("unexpected auth proof"@),
                    failure: (
                        HandshakeError::InvalidProof,
                        Some("mode carries no proof, but the client sent one"@),
                    ),
                })
            }
        }),
{
    law_auth_packet_is_read_by_its_bytes(2, body);
}

/// A refusal tells the client exactly what it tells the local log.
pub proof fn law_refusal_says_the_same_to_both(error: HandshakeError, reason: Seq<char>)
    ensures
        refusal(error, reason) == (ServerVerdict::Reject {
            reason: encode_utf8(reason),
            failure: (error, Some(reason)),
        }),
{
}

/// What a client makes of the first packet, byte for byte. Its answer holds the scheme of both
/// sides, its own schema and the proof for exactly the bytes of the nonce, and goes out even where
/// the schemas differ, so that the server finds out too.
pub proof fn law_what_a_client_makes_of_a_packet(mode: ModeView, schema: SchemaId, body: Seq<u8>)
    ensures
        ({
            let verdict = client_verdict(mode, schema, body);
            let version = (body[1] + 0x100 * body[2]) as nat;
            let theirs = le_value(body.subrange(4, 12)) as u64;
            let whole = body.len() >= 14 && body[0] == 1 && body.len() == 14 + body[12] + 0x100
                * body[13];
            if body.len() > 0 && body[0] == 3 {
                match ack_verdict(body) {
                    Ok(()) => verdict is Finish,
                    Err(why) => verdict == ClientVerdict::Fail(why),
                }
            } else if body.len() >= 3 && version != 2 {
                verdict == ClientVerdict::Fail(
                    (
                        HandshakeError::UnsupportedVersion,
                        Some("server="@ + decimal(version) + " client="@ + decimal(2)),
                    ),
                )
            } else if !whole {
                verdict == ClientVerdict::Fail(
                    (
                        HandshakeError::MalformedPacket,
                        Some("invalid "@ + "hello"@ + " packet"@),
                    ),
                )
            } else if body[3] != mode.scheme() {
                verdict == ClientVerdict::Fail(
                    (
                        HandshakeError::SchemeMismatch,
                        Some(
                            "server="@ + decimal(body[3] as nat) + " client="@ + decimal(
                                mode.scheme() as nat,
                            ),
                        ),
                    ),
                )
            } else {
                verdict == (ClientVerdict::Answer {
                    body: auth_packet(2, mode.scheme(), schema.0, mode.proof_for(body.skip(14))),
                    failure: if theirs == schema.0 {
                        None
                    } else {
                        Some(
                            (
                                HandshakeError::SchemaMismatch,
                                Some(
                                    "server="@ + hexadecimal(theirs as nat, 16) + " client="@
                                        + hexadecimal(schema.0 as nat, 16),
                                ),
                            ),
                        )
                    },
                })
            }
        }),
{
    law_auth_packet_is_read_by_its_bytes(1, body);
}

/// A hello and an answer, byte for byte: both say the version, the scheme and the schema of the
/// side that sends them; the hello goes on with the nonce, the answer with the proof for it.
pub proof fn law_hello_and_answer_bytes(mode: ModeView, schema: SchemaId, nonce: Seq<u8>)
    requires
        nonce.len() == 32,
    ensures
        hello_body(mode, schema, nonce) == seq![1u8, 2, 0, mode.scheme()] + le_bytes(
            schema.0 as nat,
            8,
        ) + seq![32u8, 0] + nonce,
        answer_body(mode, schema, nonce) == seq![2u8, 2, 0, mode.scheme()] + le_bytes(
            schema.0 as nat,
            8,
        ) + (if mode is HmacSha256 {
            seq![32u8, 0]
        } else {
            seq![0u8, 0]
        }) + mode.proof_for(nonce),
{
    reveal_with_fuel(le_bytes, 3);
    lemma_le_len(schema.0 as nat, 8);
    let claimed = mode.proof_for(nonce);
    assert(claimed.len() == if mode is HmacSha256 {
        32nat
    } else {
        0nat
    });
    assert(hello_body(mode, schema, nonce) =~= seq![1u8, 2, 0, mode.scheme()] + le_bytes(
        schema.0 as nat,
        8,
    ) + seq![32u8, 0] + nonce);
    assert(answer_body(mode, schema, nonce) =~= seq![2u8, 2, 0, mode.scheme()] + le_bytes(
        schema.0 as nat,
        8,
    ) + (if mode is HmacSha256 {
        seq![32u8, 0]
    } else {
        seq![0u8, 0]
    }) + claimed);
}

/// A mode is seen with the whole of its secret or its key.
pub proof fn law_mode_views(bytes: Rc<[u8]>)
    ensures
        HandshakeMode::Disabled@ == ModeView::Disabled,
        HandshakeMode::VersionOnly@ == ModeView::VersionOnly,
        (HandshakeMode::HmacSha256 { secret: bytes })@ == ModeView::HmacSha256((*bytes)@),
        (HandshakeMode::SignedProcess { public_key: bytes })@ == ModeView::SignedProcess((*bytes)@),
{
}

/// A step carries a verdict out only by doing all that it says: the packet that is sent and the
/// failure that is reported are the verdict's.
pub proof fn law_steps_carry_verdicts_out(
    packet: Vec<u8>,
    failure: HandshakeFailure,
    verdict: ServerVerdict,
)
    ensures
        (ServerStep::Accept { packet }).carries_out(verdict) <==> verdict is Accept && packet@
            == framed(ack_packet(0, Seq::empty())),
        (ServerStep::Reject { packet, failure }).carries_out(verdict) <==> {
            &&& verdict matches ServerVerdict::Reject { reason, failure: why }
            &&& packet@ == framed(ack_packet(1, reason))
            &&& failure@ == why
        },
        (ServerStep::Fail { failure }).carries_out(verdict) <==> verdict == ServerVerdict::Fail(
            failure@,
        ),
        ServerStep::Verify.carries_out(verdict) <==> verdict is Verify,
{
}

/// A step of a client carries a verdict out only by doing all that it says.
pub proof fn law_client_steps_carry_verdicts_out(
    packet: Vec<u8>,
    failure: HandshakeFailure,
    verdict: ClientVerdict,
)
    ensures
        ClientStep::Finish.carries_out(verdict) <==> verdict is Finish,
        (ClientStep::Fail { failure }).carries_out(verdict) <==> verdict == ClientVerdict::Fail(
            failure@,
        ),
        (ClientStep::AnswerThenFail { packet, failure }).carries_out(verdict) <==> {
            &&& verdict matches ClientVerdict::Answer { body, failure: Some(why) }
            &&& packet@ == framed(body)
            &&& failure@ == why
        },
        (ClientStep::AnswerThenWait { packet }).carries_out(verdict) <==> {
            &&& verdict matches ClientVerdict::Answer { body, failure: None }
            &&& packet@ == framed(body)
        },
{
}

} // verus!
