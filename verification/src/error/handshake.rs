use vstd::prelude::*;

verus! {

/// Why a handshake did not succeed.
#[derive(Debug, Clone, Copy, PartialEq, Eq, Structural)]
#[non_exhaustive]
pub enum HandshakeError {
    UnsupportedVersion,
    SchemeMismatch,
    SchemaMismatch,
    InvalidProof,
    Rejected,
    Timeout,
    MalformedPacket,
    PeerAttestationUnavailable,
    SignedProcessVerificationFailed,
    ConnectionLimitReached,
    Io,
}

impl HandshakeError {
    /// The error in words.
    pub open spec fn words(self) -> Seq<char> {
        match self {
            HandshakeError::UnsupportedVersion => "unsupported handshake version"@,
            HandshakeError::SchemeMismatch => "handshake auth scheme mismatch"@,
            HandshakeError::SchemaMismatch => "application schema mismatch"@,
            HandshakeError::InvalidProof => "invalid handshake proof"@,
            HandshakeError::Rejected => "handshake rejected by peer"@,
            HandshakeError::Timeout => "handshake timed out"@,
            HandshakeError::MalformedPacket => "malformed handshake packet"@,
            HandshakeError::PeerAttestationUnavailable =>
                "signed-process auth requires a transport that can attest the peer's identity"@,
            HandshakeError::SignedProcessVerificationFailed =>
                "signed-process verification failed"@,
            HandshakeError::ConnectionLimitReached =>
                "connection rejected: server is in one-to-one mode"@,
            HandshakeError::Io => "i/o failure during handshake"@,
        }
    }

    /// The error in words.
    pub fn as_str(self) -> (text: &'static str)
        ensures
            text@ == self.words(),
    {
        match self {
            HandshakeError::UnsupportedVersion => "unsupported handshake version",
            HandshakeError::SchemeMismatch => "handshake auth scheme mismatch",
            HandshakeError::SchemaMismatch => "application schema mismatch",
            HandshakeError::InvalidProof => "invalid handshake proof",
            HandshakeError::Rejected => "handshake rejected by peer",
            HandshakeError::Timeout => "handshake timed out",
            HandshakeError::MalformedPacket => "malformed handshake packet",
            HandshakeError::PeerAttestationUnavailable =>
                "signed-process auth requires a transport that can attest the peer's identity",
            HandshakeError::SignedProcessVerificationFailed => "signed-process verification failed",
            HandshakeError::ConnectionLimitReached =>
                "connection rejected: server is in one-to-one mode",
            HandshakeError::Io => "i/o failure during handshake",
        }
    }
}

/// A handshake error, with what is known beyond it for the local log.
#[derive(Debug)]
pub struct HandshakeFailure {
    pub error: HandshakeError,
    pub detail: Option<String>,
}

/// A handshake error, with what is known beyond it.
pub type Why = (HandshakeError, Option<Seq<char>>);

impl View for HandshakeFailure {
    type V = Why;

    open spec fn view(&self) -> Why {
        (
            self.error,
            match self.detail {
                Some(detail) => Some(detail@),
                None => None,
            },
        )
    }
}

impl HandshakeFailure {
    /// The error alone.
    pub fn new(error: HandshakeError) -> (failure: Self)
        ensures
            failure@ == (error, None::<Seq<char>>),
    {
        HandshakeFailure { error, detail: None }
    }

    /// The error with a detail.
    pub fn with(error: HandshakeError, detail: String) -> (failure: Self)
        ensures
            failure@ == (error, Some(detail@)),
    {
        HandshakeFailure { error, detail: Some(detail) }
    }
}

/// What the errors are called.
pub proof fn law_handshake_errors_in_words()
    ensures
        HandshakeError::UnsupportedVersion.words() == "unsupported handshake version"@,
        HandshakeError::SchemeMismatch.words() == "handshake auth scheme mismatch"@,
        HandshakeError::SchemaMismatch.words() == "application schema mismatch"@,
        HandshakeError::InvalidProof.words() == "invalid handshake proof"@,
        HandshakeError::Rejected.words() == "handshake rejected by peer"@,
        HandshakeError::Timeout.words() == "handshake timed out"@,
        HandshakeError::MalformedPacket.words() == "malformed handshake packet"@,
        HandshakeError::PeerAttestationUnavailable.words()
            == "signed-process auth requires a transport that can attest the peer's identity"@,
        HandshakeError::SignedProcessVerificationFailed.words()
            == "signed-process verification failed"@,
        HandshakeError::ConnectionLimitReached.words()
            == "connection rejected: server is in one-to-one mode"@,
        HandshakeError::Io.words() == "i/o failure during handshake"@,
{
}

/// A failure is seen with its error and the whole of its detail.
pub proof fn law_failure_view(error: HandshakeError, detail: String)
    ensures
        (HandshakeFailure { error, detail: Some(detail) })@ == (error, Some(detail@)),
        (HandshakeFailure { error, detail: None })@ == (error, None::<Seq<char>>),
{
}

} // verus!
