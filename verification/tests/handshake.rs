use hmac::{Hmac, Mac};
use ogurpchik::auth::dialogue::{
    ClientAction, ClientHandshake, ServerAction, ServerEvent, ServerHandshake,
};
use ogurpchik::auth::gate::{ConnectionGate, ConnectionMode};
use ogurpchik::auth::handshake::{
    authenticate_client, authenticate_server, conclude_signed_process, expects_hello, hello_with,
    prepare_server, reject_connection, Admission, ClientStep, HandshakeMode, ServerStep,
};
use ogurpchik::auth::mac::nonce_of;
use ogurpchik::auth::packet::{
    decode_ack, decode_client_auth, decode_hello, encode_ack, encode_client_auth, encode_hello,
    frame_packet, packet_len, packet_version, SchemaId, ACK_OK, ACK_REJECTED, NONCE_LEN,
    TAG_CLIENT_AUTH, TAG_HELLO,
};
use ogurpchik::auth::signed_process::{
    file_time, same_process, ProcessAction, ProcessEvent, ProcessStep,
};
use ogurpchik::error::{HandshakeError, HandshakeFailure};
use ogurpchik::net::conn::Transport;
use ogurpchik::net::PeerIdentity;

const SCHEMA: SchemaId = SchemaId(0x5eed);

type Outcome = Result<(), HandshakeFailure>;

fn unframe(packet: &[u8]) -> Vec<u8> {
    let len = packet_len([packet[0], packet[1], packet[2], packet[3]]).expect("too long");
    assert_eq!(packet.len(), 4 + len);
    packet[4..].to_vec()
}

const PEER: PeerIdentity = PeerIdentity::Pid { pid: 42 };

struct Server(ServerHandshake);

impl Server {
    fn open(mode: &HandshakeMode, schema: SchemaId) -> (Self, Vec<u8>) {
        match ServerHandshake::start(mode, schema, PEER, "uds") {
            (server, ServerAction::Exchange { packet }) => (Server(server), unframe(&packet)),
            _ => panic!("no hello"),
        }
    }

    fn judge(&mut self, answer: &[u8]) -> (Outcome, Option<Vec<u8>>) {
        let mut action = self.0.on(ServerEvent::Received(answer.to_vec()));
        if let ServerAction::Verify { pid, .. } = action {
            assert_eq!(pid, 42);
            action = self.0.on(ServerEvent::Verified(Ok(())));
        }
        match action {
            ServerAction::Accept { packet } => (Ok(()), Some(unframe(&packet))),
            ServerAction::Reject { packet, failure } => (Err(failure), Some(unframe(&packet))),
            ServerAction::Fail { failure } => (Err(failure), None),
            _ => panic!("the answer decides"),
        }
    }
}

fn meet(
    server_mode: &HandshakeMode,
    server_schema: SchemaId,
    client_mode: &HandshakeMode,
    client_schema: SchemaId,
) -> (Option<Outcome>, Outcome) {
    let (mut server, hello) = Server::open(server_mode, server_schema);
    let (mut client, waiting) = ClientHandshake::start(client_mode, client_schema);
    assert!(matches!(waiting, ClientAction::Receive));
    match client.on(&hello) {
        ClientAction::Finish => (None, Ok(())),
        ClientAction::Fail { failure } => (None, Err(failure)),
        ClientAction::SendThenFail { packet, failure } => {
            (Some(server.judge(&unframe(&packet)).0), Err(failure))
        }
        ClientAction::Exchange { packet } => {
            let (outcome, ack) = server.judge(&unframe(&packet));
            let end = match client.on(&ack.expect("no answer")) {
                ClientAction::Finish => Ok(()),
                ClientAction::Fail { failure } => Err(failure),
                _ => panic!("the acknowledgement decides"),
            };
            (Some(outcome), end)
        }
        _ => panic!("the hello decides"),
    }
}

fn error(outcome: Outcome) -> HandshakeError {
    outcome.expect_err("must fail").error
}

fn detail(outcome: Outcome) -> String {
    outcome.expect_err("must fail").detail.expect("no detail")
}

#[test]
fn hmac_handshake_ok() {
    let mode = HandshakeMode::hmac(b"shared-secret".to_vec());
    let (server, client) = meet(&mode, SCHEMA, &mode, SCHEMA);
    client.expect("client handshake failed");
    server.unwrap().expect("server handshake failed");
}

#[test]
fn hmac_wrong_secret_is_rejected() {
    let (server, client) = meet(
        &HandshakeMode::hmac(b"right".to_vec()),
        SCHEMA,
        &HandshakeMode::hmac(b"wrong".to_vec()),
        SCHEMA,
    );
    let client = client.expect_err("client must be rejected");
    assert_eq!(client.error, HandshakeError::Rejected);
    assert_eq!(client.detail.as_deref(), Some("invalid handshake proof"));
    let server = server.unwrap().expect_err("server must reject");
    assert_eq!(server.error, HandshakeError::InvalidProof);
    assert!(server.detail.is_none());
}

#[test]
fn scheme_mismatch_is_detected_by_client() {
    let (server, client) = meet(
        &HandshakeMode::hmac(b"s".to_vec()),
        SCHEMA,
        &HandshakeMode::version_only(),
        SCHEMA,
    );
    assert!(server.is_none());
    let client = client.expect_err("client must detect the scheme mismatch");
    assert_eq!(client.error, HandshakeError::SchemeMismatch);
    assert_eq!(client.detail.as_deref(), Some("server=1 client=0"));
}

#[test]
fn signed_process_refused_on_unattestable_transport() {
    let mode = HandshakeMode::signed_process(vec![0u8; 32]);
    let peer = Transport::Tcp.peer_identity(Some(7));
    let failure = match prepare_server(&mode, peer, Transport::Tcp.kind()) {
        Err(failure) => failure,
        Ok(_) => panic!("signed-process on tcp must be refused"),
    };
    assert_eq!(failure.error, HandshakeError::PeerAttestationUnavailable);
    assert_eq!(failure.detail.as_deref(), Some("transport: tcp"));
}

#[test]
fn schema_mismatch_is_reported_by_both_sides() {
    let mode = HandshakeMode::version_only();
    let (server, client) = meet(&mode, SchemaId(1), &mode, SchemaId(2));
    let client = client.expect_err("client must detect the schema mismatch");
    assert_eq!(client.error, HandshakeError::SchemaMismatch);
    assert_eq!(
        client.detail.as_deref(),
        Some("server=0000000000000001 client=0000000000000002")
    );
    let server = server.unwrap().expect_err("server must reject the schema mismatch");
    assert_eq!(server.error, HandshakeError::SchemaMismatch);
    assert_eq!(
        server.detail.as_deref(),
        Some("application schema mismatch: client=0000000000000002 server=0000000000000001")
    );
}

fn v1_packet(tag: u8, scheme: u8, tail: &[u8]) -> Vec<u8> {
    let mut body = vec![tag];
    body.extend_from_slice(&1u16.to_le_bytes());
    body.push(scheme);
    body.extend_from_slice(&(tail.len() as u16).to_le_bytes());
    body.extend_from_slice(tail);
    body
}

#[test]
fn older_server_is_reported_as_version_not_malformed() {
    let body = v1_packet(TAG_HELLO, 0, &[0u8; NONCE_LEN]);
    match authenticate_client(&HandshakeMode::version_only(), SCHEMA, &body) {
        ClientStep::Fail { failure } => {
            assert_eq!(failure.error, HandshakeError::UnsupportedVersion);
            assert_eq!(failure.detail.as_deref(), Some("server=1 client=2"));
        }
        _ => panic!("a v1 hello must be refused"),
    }
}

#[test]
fn older_client_is_reported_as_version_not_malformed() {
    let mode = HandshakeMode::version_only();
    let (mut server, _hello) = Server::open(&mode, SCHEMA);
    let (outcome, ack) = server.judge(&v1_packet(TAG_CLIENT_AUTH, 0, &[]));
    let failure = outcome.expect_err("a v1 client must be refused");
    assert_eq!(failure.error, HandshakeError::UnsupportedVersion);
    let reason = "unsupported handshake version: client=1 server=2";
    assert_eq!(failure.detail.as_deref(), Some(reason));
    assert_eq!(detail(decode_ack(&ack.unwrap())), reason);
}

#[test]
fn signed_process_uses_os_pid_not_wire_pid() {
    let mode = HandshakeMode::signed_process(vec![7u8; 32]);
    let peer = Transport::Npipe.peer_identity(Some(42));
    match prepare_server(&mode, peer, "npipe") {
        Ok(Admission::Proceed { pid }) => assert_eq!(pid, Some(42)),
        _ => panic!("the process is known"),
    }
    let (outcome, client) = meet(&mode, SCHEMA, &mode, SCHEMA);
    client.expect("client handshake failed");
    outcome.unwrap().expect("server handshake failed");

    let (mut server, hello) = Server::open(&mode, SCHEMA);
    let (scheme, _schema, _nonce) = decode_hello(&hello).expect("decode hello");
    let forged_proof = 0xDEADu32.to_le_bytes();
    let forged = encode_client_auth(scheme, SCHEMA, &forged_proof);
    let (outcome, ack) = server.judge(&forged);
    decode_ack(&ack.unwrap()).expect("forged wire PID must be ignored, not trusted");
    outcome.expect("server handshake failed");
}

#[test]
fn a_program_that_is_not_verified_is_refused() {
    let failure = same_process(5, 1, 2).unwrap_err();
    assert_eq!(failure.error, HandshakeError::SignedProcessVerificationFailed);
    assert_eq!(failure.detail.as_deref(), Some("pid 5 was reused during verification"));
    assert!(same_process(5, 2, 2).is_ok());
    match conclude_signed_process(Err(failure)) {
        ServerStep::Reject { packet, failure } => {
            assert_eq!(failure.error, HandshakeError::SignedProcessVerificationFailed);
            assert_eq!(
                detail(decode_ack(&unframe(&packet))),
                "signed-process verification failed"
            );
        }
        _ => panic!("must be refused"),
    }
    assert_eq!(file_time(1, 2), 0x1_0000_0002);
    assert_eq!(file_time(u32::MAX, u32::MAX), u64::MAX);
}

#[test]
fn a_mode_decides_whether_there_is_a_handshake() {
    assert!(matches!(HandshakeMode::default(), HandshakeMode::Disabled));
    assert!(!expects_hello(&HandshakeMode::default()));
    assert!(expects_hello(&HandshakeMode::version_only()));
    assert!(matches!(
        prepare_server(&HandshakeMode::Disabled, PeerIdentity::Unknown, "tcp"),
        Ok(Admission::Skip)
    ));
    assert!(matches!(
        prepare_server(&HandshakeMode::version_only(), PeerIdentity::Pid { pid: 3 }, "uds"),
        Ok(Admission::Proceed { pid: None })
    ));
    let ids = [
        HandshakeMode::Disabled.scheme_id(),
        HandshakeMode::version_only().scheme_id(),
        HandshakeMode::hmac(Vec::new()).scheme_id(),
        HandshakeMode::signed_process(Vec::new()).scheme_id(),
    ];
    assert_eq!(ids, [0, 0, 1, 2]);
}

#[test]
fn nonces_are_fresh_and_a_failure_to_make_one_is_reported() {
    let mode = HandshakeMode::version_only();
    let first = decode_hello(&Server::open(&mode, SCHEMA).1).unwrap().2;
    let second = decode_hello(&Server::open(&mode, SCHEMA).1).unwrap().2;
    assert_eq!(first.len(), NONCE_LEN);
    assert_ne!(first, second);
    assert_ne!(first, vec![0; NONCE_LEN]);
    assert_eq!(nonce_of(vec![7; NONCE_LEN], Ok(())), Ok(vec![7; NONCE_LEN]));
    let refused = nonce_of(vec![7; NONCE_LEN], Err("no entropy".to_string()));
    match hello_with(&mode, SCHEMA, refused) {
        Err(failure) => {
            assert_eq!(failure.error, HandshakeError::Io);
            assert_eq!(
                failure.detail.as_deref(),
                Some("failed to generate nonce: no entropy")
            );
        }
        Ok(_) => panic!("there is no nonce"),
    }
}

#[test]
fn the_proof_is_hmac_sha256_of_label_version_and_nonce() {
    let nonce = [9u8; NONCE_LEN];
    let mut mac = Hmac::<sha2::Sha256>::new_from_slice(b"key").unwrap();
    mac.update(b"ogurpchik/handshake/v1");
    mac.update(&2u16.to_le_bytes());
    mac.update(&nonce);
    let expected = mac.finalize().into_bytes().to_vec();

    let mode = HandshakeMode::hmac(b"key".to_vec());
    let body = encode_hello(1, SCHEMA, &nonce);
    let packet = match authenticate_client(&mode, SCHEMA, &body) {
        ClientStep::AnswerThenWait { packet } => packet,
        _ => panic!("the client answers"),
    };
    let (scheme, schema, claimed) = decode_client_auth(&unframe(&packet)).unwrap();
    assert_eq!((scheme, schema), (1, SCHEMA));
    assert_eq!(claimed, expected);

    for (claimed, accepted) in [
        (expected.clone(), true),
        (expected[..31].to_vec(), false),
        ([&expected[..], &[0]].concat(), false),
        (Vec::new(), false),
    ] {
        let answer = encode_client_auth(1, SCHEMA, &claimed);
        let step = authenticate_server(&mode, SCHEMA, &nonce, &answer);
        assert_eq!(matches!(step, ServerStep::Accept { .. }), accepted);
    }
}

#[test]
fn a_proof_that_nobody_asked_for_is_refused() {
    let mode = HandshakeMode::version_only();
    let (mut server, _hello) = Server::open(&mode, SCHEMA);
    let (outcome, ack) = server.judge(&encode_client_auth(0, SCHEMA, &[1]));
    let failure = outcome.unwrap_err();
    assert_eq!(failure.error, HandshakeError::InvalidProof);
    assert_eq!(
        failure.detail.as_deref(),
        Some("mode carries no proof, but the client sent one")
    );
    assert_eq!(detail(decode_ack(&ack.unwrap())), "unexpected auth proof");
}

#[test]
fn another_scheme_in_the_answer_is_refused() {
    let mode = HandshakeMode::version_only();
    let (mut server, _hello) = Server::open(&mode, SCHEMA);
    let (outcome, ack) = server.judge(&encode_client_auth(200, SCHEMA, &[]));
    assert_eq!(error(outcome), HandshakeError::SchemeMismatch);
    assert_eq!(
        detail(decode_ack(&ack.unwrap())),
        "handshake auth mismatch: client=200 server=0"
    );
}

#[test]
fn a_malformed_answer_is_refused_without_a_reply() {
    let mode = HandshakeMode::version_only();
    let good = encode_client_auth(0, SCHEMA, &[]);
    let long = [&good[..], &[0]].concat();
    let hello = encode_hello(0, SCHEMA, &[]);
    for body in [&good[..13], &long[..], &hello[..], &[][..], &[2][..]] {
        let (mut server, _hello) = Server::open(&mode, SCHEMA);
        let (outcome, reply) = server.judge(body);
        let failure = outcome.unwrap_err();
        assert_eq!(failure.error, HandshakeError::MalformedPacket);
        assert_eq!(failure.detail.as_deref(), Some("invalid client auth packet"));
        assert!(reply.is_none());
    }
    match authenticate_client(&mode, SCHEMA, &good) {
        ClientStep::Fail { failure } => {
            assert_eq!(failure.detail.as_deref(), Some("invalid hello packet"))
        }
        _ => panic!("an answer is no hello"),
    }
}

#[test]
fn a_refusal_in_place_of_the_hello_ends_the_handshake() {
    let mode = HandshakeMode::hmac(b"s".to_vec());
    let body = unframe(&reject_connection("one-to-one server is busy"));
    match authenticate_client(&mode, SCHEMA, &body) {
        ClientStep::Fail { failure } => {
            assert_eq!(failure.error, HandshakeError::Rejected);
            assert_eq!(failure.detail.as_deref(), Some("one-to-one server is busy"));
        }
        _ => panic!("must be refused"),
    }
    assert!(matches!(
        authenticate_client(&mode, SCHEMA, &encode_ack(ACK_OK, &[])),
        ClientStep::Finish
    ));
}

#[test]
fn acknowledgements() {
    assert!(decode_ack(&encode_ack(ACK_OK, b"ignored")).is_ok());
    assert_eq!(detail(decode_ack(&encode_ack(ACK_REJECTED, "\u{fc}ber".as_bytes()))), "\u{fc}ber");
    assert_eq!(detail(decode_ack(&encode_ack(7, &[b'a', 0xff, b'b']))), "a\u{fffd}b");
    let good = encode_ack(ACK_REJECTED, b"why");
    let bad = [
        good[..6].to_vec(),
        [&good[..], &[0]].concat(),
        vec![1, 0, 0, 0],
        vec![3, 0, 0],
    ];
    for body in bad {
        let failure = decode_ack(&body).unwrap_err();
        assert_eq!(failure.error, HandshakeError::MalformedPacket);
        assert_eq!(failure.detail.as_deref(), Some("invalid ack packet"));
    }
    let endless = encode_ack(ACK_REJECTED, &vec![b'x'; 0x1_0000]);
    assert_eq!(error(decode_ack(&endless)), HandshakeError::MalformedPacket);
}

#[test]
fn packets_of_known_bytes() {
    let schema = SchemaId(0x0102030405060708);
    assert_eq!(
        encode_hello(1, schema, &[0xaa, 0xbb]),
        [1, 2, 0, 1, 8, 7, 6, 5, 4, 3, 2, 1, 2, 0, 0xaa, 0xbb]
    );
    assert_eq!(
        encode_client_auth(2, schema, &[]),
        [2, 2, 0, 2, 8, 7, 6, 5, 4, 3, 2, 1, 0, 0]
    );
    assert_eq!(encode_ack(1, b"no"), [3, 1, 2, 0, b'n', b'o']);
    assert_eq!(frame_packet(b"abc"), [3, 0, 0, 0, b'a', b'b', b'c']);
    assert_eq!(packet_version(&[1, 2, 1, 9]), Some(0x0102));
    assert_eq!(packet_version(&[1, 2]), None);
    assert_eq!(schema.to_text(), "0102030405060708");
    assert_eq!(SchemaId(0xfedc).to_text(), "000000000000fedc");
    let (scheme, read, tail) = decode_hello(&encode_hello(9, schema, &[5; 300])).unwrap();
    assert_eq!((scheme, read, tail), (9, schema, vec![5; 300]));
}

#[test]
fn a_packet_over_the_limit_is_not_read() {
    assert_eq!(packet_len([0, 0, 0, 0]).unwrap(), 0);
    assert_eq!(packet_len([0, 16, 0, 0]).unwrap(), 4096);
    let failure = packet_len([1, 16, 0, 0]).unwrap_err();
    assert_eq!(failure.error, HandshakeError::MalformedPacket);
    assert_eq!(
        failure.detail.as_deref(),
        Some("declared packet length 4097 exceeds 4096")
    );
    assert_eq!(
        packet_len([0xff; 4]).unwrap_err().detail.as_deref(),
        Some("declared packet length 4294967295 exceeds 4096")
    );
}

#[test]
fn only_local_transports_attest_the_peer() {
    assert_eq!(Transport::Uds.peer_identity(Some(9)), PeerIdentity::Pid { pid: 9 });
    assert_eq!(Transport::Npipe.peer_identity(Some(9)), PeerIdentity::Pid { pid: 9 });
    assert_eq!(Transport::Uds.peer_identity(None), PeerIdentity::Unknown);
    assert_eq!(Transport::Vsock.peer_identity(Some(9)), PeerIdentity::Unknown);
    let names = [Transport::Tcp, Transport::Uds, Transport::Npipe, Transport::Vsock];
    assert_eq!(names.map(Transport::kind), ["tcp", "uds", "npipe", "vsock"]);
}

#[test]
fn tcp_peer_identity_is_unknown() {
    assert_eq!(Transport::Tcp.peer_identity(Some(9)), PeerIdentity::Unknown);
    assert_eq!(Transport::Tcp.peer_identity(None), PeerIdentity::Unknown);
}

#[test]
fn a_server_begins_with_a_hello_only_where_it_may() {
    let version = HandshakeMode::version_only();
    let signed = HandshakeMode::signed_process(vec![7; 32]);
    let nonce = || Ok(vec![9; NONCE_LEN]);

    let (mut server, action) =
        ServerHandshake::start_with(&HandshakeMode::Disabled, SCHEMA, PEER, "uds", nonce());
    assert!(matches!(action, ServerAction::Finish));
    let answer = encode_client_auth(0, SCHEMA, &[]);
    assert!(matches!(server.on(ServerEvent::Received(answer)), ServerAction::Ignore));
    let (_, action) = ServerHandshake::start(&HandshakeMode::Disabled, SCHEMA, PEER, "uds");
    assert!(matches!(action, ServerAction::Finish));

    let unknown = PeerIdentity::Unknown;
    for (_, action) in [
        ServerHandshake::start_with(&signed, SCHEMA, unknown, "tcp", nonce()),
        ServerHandshake::start(&signed, SCHEMA, unknown, "tcp"),
    ] {
        match action {
            ServerAction::Fail { failure } => {
                assert_eq!(failure.error, HandshakeError::PeerAttestationUnavailable);
                assert_eq!(failure.detail.as_deref(), Some("transport: tcp"));
            }
            _ => panic!("nothing is sent to an unknown peer"),
        }
    }

    let refused = Err("no entropy".to_string());
    match ServerHandshake::start_with(&version, SCHEMA, unknown, "tcp", refused).1 {
        ServerAction::Fail { failure } => {
            assert_eq!(failure.error, HandshakeError::Io);
            assert_eq!(failure.detail.unwrap(), "failed to generate nonce: no entropy");
        }
        _ => panic!("there is no nonce"),
    }
    match ServerHandshake::start_with(&version, SCHEMA, unknown, "tcp", nonce()).1 {
        ServerAction::Exchange { packet } => {
            assert_eq!(unframe(&packet), encode_hello(0, SCHEMA, &[9; NONCE_LEN]));
        }
        _ => panic!("there is a hello"),
    }
}

#[test]
fn a_server_acknowledges_once() {
    let (mut server, _hello) = Server::open(&HandshakeMode::version_only(), SCHEMA);
    let early = server.0.on(ServerEvent::Verified(Ok(())));
    assert!(matches!(early, ServerAction::Ignore));
    let answer = encode_client_auth(0, SCHEMA, &[]);
    let (outcome, ack) = server.judge(&answer);
    assert!(outcome.is_ok());
    assert!(decode_ack(&ack.unwrap()).is_ok());
    for event in [
        ServerEvent::Received(answer.clone()),
        ServerEvent::Verified(Ok(())),
        ServerEvent::Received(Vec::new()),
    ] {
        assert!(matches!(server.0.on(event), ServerAction::Ignore));
    }
}

#[test]
fn the_reported_process_is_verified_before_a_client_is_accepted() {
    let mode = HandshakeMode::signed_process(vec![7; 32]);
    let answer = encode_client_auth(2, SCHEMA, &77u32.to_le_bytes());
    for trusted in [true, false] {
        let (mut server, _hello) = Server::open(&mode, SCHEMA);
        let early = server.0.on(ServerEvent::Verified(Ok(())));
        assert!(matches!(early, ServerAction::Ignore));
        match server.0.on(ServerEvent::Received(answer.clone())) {
            ServerAction::Verify { pid, public_key } => {
                assert_eq!((pid, &public_key[..]), (42, &[7u8; 32][..]));
            }
            _ => panic!("the program decides"),
        }
        let again = server.0.on(ServerEvent::Received(answer.clone()));
        assert!(matches!(again, ServerAction::Ignore));
        let outcome = if trusted {
            Ok(())
        } else {
            Err(HandshakeFailure::new(HandshakeError::SignedProcessVerificationFailed))
        };
        match server.0.on(ServerEvent::Verified(outcome)) {
            ServerAction::Accept { packet } => {
                assert!(trusted);
                assert!(decode_ack(&unframe(&packet)).is_ok());
            }
            ServerAction::Reject { packet, failure } => {
                assert!(!trusted);
                assert_eq!(failure.error, HandshakeError::SignedProcessVerificationFailed);
                let reason = detail(decode_ack(&unframe(&packet)));
                assert_eq!(reason, "signed-process verification failed");
            }
            _ => panic!("the outcome decides"),
        }
    }
}

#[test]
fn a_client_answers_once() {
    let (mut client, action) = ClientHandshake::start(&HandshakeMode::Disabled, SCHEMA);
    assert!(matches!(action, ClientAction::Finish));
    let hello = encode_hello(0, SCHEMA, &[9; NONCE_LEN]);
    assert!(matches!(client.on(&hello), ClientAction::Ignore));

    let (mut client, action) = ClientHandshake::start(&HandshakeMode::version_only(), SCHEMA);
    assert!(matches!(action, ClientAction::Receive));
    match client.on(&hello) {
        ClientAction::Exchange { packet } => {
            assert_eq!(unframe(&packet), encode_client_auth(0, SCHEMA, &[]));
        }
        _ => panic!("the client answers"),
    }
    match client.on(&hello) {
        ClientAction::Fail { failure } => {
            assert_eq!(failure.error, HandshakeError::MalformedPacket);
        }
        _ => panic!("a second hello is no acknowledgement"),
    }
    assert!(matches!(client.on(&encode_ack(ACK_OK, &[])), ClientAction::Ignore));
}

fn verify_process(
    before: Result<u64, HandshakeFailure>,
    image: Result<(), HandshakeFailure>,
    after: Result<u64, HandshakeFailure>,
) -> (Outcome, usize) {
    let mut reports = vec![
        ProcessEvent::Created(after),
        ProcessEvent::Signed(image),
        ProcessEvent::Created(before),
    ];
    let mut step = ProcessStep::Before;
    let mut steps = 0;
    loop {
        steps += 1;
        match step.proceed(5, reports.pop().expect("too many steps")) {
            ProcessAction::Take(next) => step = next,
            ProcessAction::Finish(outcome) => return (outcome, steps),
        }
    }
}

#[test]
fn a_process_is_verified_step_by_step() {
    let failed = |detail: &str| {
        HandshakeFailure::with(
            HandshakeError::SignedProcessVerificationFailed,
            detail.to_string(),
        )
    };
    let (outcome, steps) = verify_process(Ok(3), Ok(()), Ok(3));
    assert_eq!((outcome.is_ok(), steps), (true, 3));
    let (outcome, steps) = verify_process(Ok(3), Ok(()), Ok(4));
    assert_eq!((detail(outcome), steps), ("pid 5 was reused during verification".into(), 3));
    let (outcome, steps) = verify_process(Err(failed("a")), Err(failed("b")), Err(failed("c")));
    assert_eq!((detail(outcome), steps), ("a".into(), 1));
    let (outcome, steps) = verify_process(Ok(3), Err(failed("b")), Err(failed("c")));
    assert_eq!((detail(outcome), steps), ("b".into(), 2));
    let (outcome, steps) = verify_process(Ok(3), Ok(()), Err(failed("c")));
    assert_eq!((detail(outcome), steps), ("c".into(), 3));

    match ProcessStep::Before.proceed(5, ProcessEvent::Signed(Ok(()))) {
        ProcessAction::Take(step) => assert_eq!(step, ProcessStep::Before),
        ProcessAction::Finish(_) => panic!("the image comes later"),
    }
}

#[test]
fn one_to_one_lets_one_in_at_a_time() {
    let mut gate = ConnectionGate::new(ConnectionMode::OneToOne);
    assert_eq!(gate.mode(), ConnectionMode::OneToOne);
    let lease = gate.try_acquire().expect("the first client must be let in");
    assert!(gate.try_acquire().is_none());
    gate.release(lease);
    assert!(gate.try_acquire().is_some());
}

#[test]
fn one_to_many_lets_all_in() {
    assert_eq!(ConnectionMode::default(), ConnectionMode::OneToMany);
    let mut gate = ConnectionGate::new(ConnectionMode::default());
    let first = gate.try_acquire().unwrap();
    let second = gate.try_acquire().unwrap();
    gate.release(first);
    gate.release(second);
    assert!(gate.try_acquire().is_some());
}
