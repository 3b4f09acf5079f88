use core::fmt;
use error_stack::Report;
use ogurpchik::error::{
    decode_wire_text, encode_wire_text, from_capnp_exception, to_capnp_exception, EndpointError,
    ErrorKind, Exception, HandshakeError, RemoteErrorKind, RemoteFailure, RpcError, WireCode,
    WireMessage,
};

#[derive(Debug)]
struct Layer(RpcError);

impl fmt::Display for Layer {
    fn fmt(&self, f: &mut fmt::Formatter<'_>) -> fmt::Result {
        f.write_str(&self.0.to_text())
    }
}

impl core::error::Error for Layer {}

#[derive(Debug)]
struct SensitivePath(std::path::PathBuf);

impl fmt::Display for SensitivePath {
    fn fmt(&self, f: &mut fmt::Formatter<'_>) -> fmt::Result {
        f.write_str(&format!("socket path: {}", self.0.display()))
    }
}

impl core::error::Error for SensitivePath {}

fn project<C: fmt::Display + Send + Sync + 'static>(
    report: &Report<C>,
) -> ogurpchik::error::Report {
    ogurpchik::error::Report {
        context: report.current_context().to_string(),
        rpc: report.downcast_ref::<Layer>().map(|layer| layer.0),
        code: report.downcast_ref::<WireCode>().copied(),
        message: report
            .downcast_ref::<WireMessage>()
            .map(|message| WireMessage(message.0.clone())),
    }
}

fn failed(extra: &str) -> Exception {
    Exception { kind: ErrorKind::Failed, extra: extra.to_string() }
}

fn code(failure: &RemoteFailure) -> Option<WireCode> {
    match failure.error {
        RpcError::Remote { code, .. } => code,
        _ => panic!("not a remote error"),
    }
}

const CODES: [WireCode; 8] = [
    WireCode::Unauthenticated,
    WireCode::PermissionDenied,
    WireCode::InvalidArgument,
    WireCode::NotFound,
    WireCode::Unavailable,
    WireCode::LimitExceeded,
    WireCode::Internal,
    WireCode::Unknown,
];

#[test]
fn outgoing_exception_never_carries_attachments() {
    let report = Report::new(SensitivePath(std::path::PathBuf::from(
        "/run/user/1000/very-secret-service.sock",
    )))
    .change_context(Layer(RpcError::Handler));

    let exception = to_capnp_exception(&project(&report));

    assert_eq!(exception.kind, ErrorKind::Failed);
    assert!(!exception.extra.contains("secret"));
    assert!(!exception.extra.contains("/run/user"));
    assert_eq!(exception.extra, RpcError::Handler.to_text());
}

#[test]
fn unimplemented_maps_to_capnp_unimplemented() {
    let report = Report::new(Layer(RpcError::Unimplemented));
    let exception = to_capnp_exception(&project(&report));
    assert_eq!(exception.kind, ErrorKind::Unimplemented);
}

#[test]
fn incoming_exception_roundtrip_preserves_kind_and_message() {
    let original = Exception {
        kind: ErrorKind::Disconnected,
        extra: "peer went away".to_string(),
    };
    let failure = from_capnp_exception(&original);

    assert_eq!(
        failure.error,
        RpcError::Remote { kind: RemoteErrorKind::Disconnected, code: None }
    );
    assert_eq!(failure.message.0, "peer went away");
}

#[test]
fn remote_forwarded_as_disconnected_not_local_failure() {
    let incoming = from_capnp_exception(&failed("upstream broke"));
    let outgoing = to_capnp_exception(&incoming.report());
    assert_eq!(outgoing.kind, ErrorKind::Disconnected);
}

#[test]
fn attached_code_crosses_the_wire_and_is_matchable() {
    let report = Report::new(SensitivePath(std::path::PathBuf::from("/run/user/1000/x")))
        .change_context(Layer(RpcError::Handler))
        .attach_opaque(WireCode::PermissionDenied);

    let exception = to_capnp_exception(&project(&report));
    assert!(!exception.extra.contains("/run/user"));

    let received = from_capnp_exception(&exception);
    assert_eq!(code(&received), Some(WireCode::PermissionDenied));
}

#[test]
fn wire_message_replaces_context_text_but_not_attachments() {
    let report = Report::new(SensitivePath(std::path::PathBuf::from("/run/user/1000/x")))
        .change_context(Layer(RpcError::Handler))
        .attach_opaque(WireCode::NotFound)
        .attach_opaque(WireMessage("no such plugin: metrics".to_string()));

    let exception = to_capnp_exception(&project(&report));
    assert!(!exception.extra.contains("/run/user"));

    let received = from_capnp_exception(&exception);
    assert_eq!(received.message.0, "no such plugin: metrics");
}

#[test]
fn unavailable_maps_to_overloaded_so_peers_know_to_retry() {
    let report = Report::new(Layer(RpcError::Handler)).attach_opaque(WireCode::Unavailable);
    let exception = to_capnp_exception(&project(&report));
    assert_eq!(exception.kind, ErrorKind::Overloaded);
}

#[test]
fn unrecognised_code_degrades_to_unknown_not_an_error() {
    let received = from_capnp_exception(&failed("[ogurpchik:quota-exhausted] slow down"));
    assert_eq!(code(&received), Some(WireCode::Unknown));
    assert_eq!(received.message.0, "slow down");
}

#[test]
fn malformed_prefix_is_treated_as_plain_text() {
    for extra in ["[ogurpchik:unterminated", "[ogurpchik", "plain message"] {
        let received = from_capnp_exception(&failed(extra));
        assert_eq!(code(&received), None);
        assert_eq!(received.message.0, extra);
    }
}

#[test]
fn handler_built_exception_is_matchable_by_the_caller() {
    let exception = WireCode::InvalidArgument.exception("port must be non-zero");
    let received = from_capnp_exception(&exception);
    assert_eq!(code(&received), Some(WireCode::InvalidArgument));
    assert_eq!(received.message.0, "port must be non-zero");
}

#[test]
fn relayed_remote_code_is_not_re_emitted_without_intent() {
    let incoming = from_capnp_exception(&WireCode::PermissionDenied.exception("plugin said no"));
    let relayed = to_capnp_exception(&incoming.report());

    let (code, _) = decode_wire_text(&relayed.extra);
    assert_eq!(code, None);
    assert_eq!(relayed.extra, "remote rpc error (Failed, permission-denied)");
}

#[test]
fn every_code_reads_back_with_any_message() {
    for code in CODES {
        assert_eq!(WireCode::from_slug(code.as_str()), code);
        for message in ["", " ", "] ", "[ogurpchik:internal] x", "\u{fc}\u{20ac}\u{1f980} y"] {
            let text = encode_wire_text(Some(code), message);
            assert_eq!(text, format!("[ogurpchik:{}] {message}", code.as_str()));
            assert_eq!(decode_wire_text(&text), (Some(code), message));
        }
    }
    assert_eq!(encode_wire_text(None, "as it is"), "as it is");
}

#[test]
fn a_message_without_a_code_is_not_read_as_a_coded_one() {
    for message in ["[ogurpchik:internal] x", "[ogurpchik:]", "[ogurpchik:quota-exhausted]x"] {
        let text = encode_wire_text(None, message);
        assert_eq!(text, format!(" {message}"));
        assert_eq!(decode_wire_text(&text), (None, text.as_str()));

        let report = Report::new(Layer(RpcError::Handler))
            .attach_opaque(WireMessage(message.to_string()));
        let received = from_capnp_exception(&to_capnp_exception(&project(&report)));
        assert_eq!(code(&received), None);
    }
    for message in ["", "[ogurpchik:unterminated", "plain [ogurpchik:internal] x"] {
        assert_eq!(encode_wire_text(None, message), message);
        assert_eq!(decode_wire_text(message), (None, message));
    }
}

#[test]
fn the_space_behind_the_bracket_is_optional() {
    assert_eq!(
        decode_wire_text("[ogurpchik:internal]x"),
        (Some(WireCode::Internal), "x")
    );
    assert_eq!(
        decode_wire_text("[ogurpchik:internal]  x"),
        (Some(WireCode::Internal), " x")
    );
    assert_eq!(decode_wire_text("[ogurpchik:]"), (Some(WireCode::Unknown), ""));
}

#[test]
fn a_code_decides_the_kind_before_the_layers_do() {
    for code in CODES {
        let expected = if code == WireCode::Unavailable {
            ErrorKind::Overloaded
        } else {
            ErrorKind::Failed
        };
        assert_eq!(code.capnp_kind(), expected);
        let report = Report::new(Layer(RpcError::Unimplemented)).attach_opaque(code);
        assert_eq!(to_capnp_exception(&project(&report)).kind, expected);
    }
}

#[test]
fn every_kind_of_exception_is_told_apart() {
    let kinds = [
        (ErrorKind::Failed, RemoteErrorKind::Failed, "Failed"),
        (ErrorKind::Overloaded, RemoteErrorKind::Overloaded, "Overloaded"),
        (ErrorKind::Disconnected, RemoteErrorKind::Disconnected, "Disconnected"),
        (ErrorKind::Unimplemented, RemoteErrorKind::Unimplemented, "Unimplemented"),
        (ErrorKind::Other, RemoteErrorKind::Other, "Other"),
    ];
    for (kind, expected, name) in kinds {
        let failure = from_capnp_exception(&Exception { kind, extra: String::new() });
        assert_eq!(failure.error, RpcError::Remote { kind: expected, code: None });
        assert_eq!(failure.error.to_text(), format!("remote rpc error ({name})"));
        assert_eq!(expected.as_str(), name);
    }
}

#[test]
fn errors_in_words() {
    assert_eq!(RpcError::Setup.to_text(), "failed to establish rpc connection");
    assert_eq!(RpcError::Handler.to_text(), "local handler failed");
    assert_eq!(RpcError::Unimplemented.to_text(), "method not implemented");
    assert_eq!(RpcError::LimitExceeded.to_text(), "message exceeded configured limits");
    assert_eq!(HandshakeError::Timeout.as_str(), "handshake timed out");
    assert_eq!(
        HandshakeError::ConnectionLimitReached.as_str(),
        "connection rejected: server is in one-to-one mode"
    );
    assert_eq!(HandshakeError::Io.as_str(), "i/o failure during handshake");
    assert_eq!(EndpointError::InvalidServiceName.as_str(), "invalid service name");
    assert_eq!(EndpointError::InvalidVsockTarget.as_str(), "invalid vsock target");
    assert_eq!(
        EndpointError::UnsupportedOnPlatform.as_str(),
        "transport not supported on this platform"
    );
    assert_eq!(EndpointError::NoRuntimeDirectory.as_str(), "no usable runtime directory");
    assert_eq!(EndpointError::WslNotRunning.as_str(), "no running WSL VM");
}
