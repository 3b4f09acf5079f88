//! Errors of remote calls, and the text that carries them.
//!
//! A coded error text is the code's slug in brackets, a space and the message. A text without
//! that prefix is a message without a code.

use crate::text::{begins, behind, find, same};
use vstd::prelude::*;
use vstd::string::{StrSliceExecFns, StringExecFns};

verus! {

/// What a coded error text begins with.
pub const WIRE_PREFIX: &'static str = "[ogurpchik:";

/// The kinds of exceptions that Cap'n Proto tells apart on the wire.
#[derive(Debug, Clone, Copy, PartialEq, Eq, Structural)]
pub enum ErrorKind {
    Failed,
    Overloaded,
    Disconnected,
    Unimplemented,
    /// Any kind that does not cross the wire as itself.
    Other,
}

/// An exception as it crosses the wire.
#[derive(Debug)]
pub struct Exception {
    pub kind: ErrorKind,
    pub extra: String,
}

impl View for Exception {
    type V = (ErrorKind, Seq<char>);

    open spec fn view(&self) -> (ErrorKind, Seq<char>) {
        (self.kind, self.extra@)
    }
}

/// Why a remote call did not succeed.
#[derive(Debug, Clone, Copy, PartialEq, Eq, Structural)]
#[non_exhaustive]
pub enum RpcError {
    Setup,
    Remote { kind: RemoteErrorKind, code: Option<WireCode> },
    Handler,
    Unimplemented,
    LimitExceeded,
}

/// The kind of failure that the peer reported.
#[derive(Debug, Clone, Copy, PartialEq, Eq, Structural)]
#[non_exhaustive]
pub enum RemoteErrorKind {
    Failed,
    Overloaded,
    Disconnected,
    Unimplemented,
    Other,
}

/// Machine-readable error code carried across the wire.
///
/// A report without a code carries nothing structured across the wire, which is the default.
///
/// A code received from a peer is a *claim by that peer*, not a verified fact. Branch on it for
/// diagnostics and retry decisions; never for authorization.
#[derive(Debug, Clone, Copy, PartialEq, Eq, Structural)]
#[non_exhaustive]
pub enum WireCode {
    Unauthenticated,
    PermissionDenied,
    InvalidArgument,
    NotFound,
    Unavailable,
    LimitExceeded,
    Internal,
    /// A code this build does not recognise: a peer running a newer version.
    Unknown,
}

/// A message deliberately reviewed as safe to disclose to the peer. It replaces the text of the
/// context on the wire.
#[derive(Debug)]
pub struct WireMessage(pub String);

/// The peer's own description of a remote failure, kept for local logs.
#[derive(Debug)]
pub struct RemoteMessage(pub String);

/// What a local report lays open to the peer: the text of its context, the remote-call error among
/// its layers, and the code and message that were attached to it on purpose.
#[derive(Debug)]
pub struct Report {
    pub context: String,
    pub rpc: Option<RpcError>,
    pub code: Option<WireCode>,
    pub message: Option<WireMessage>,
}

/// A failure that the peer reported.
#[derive(Debug)]
pub struct RemoteFailure {
    pub error: RpcError,
    pub message: RemoteMessage,
}

impl RemoteErrorKind {
    /// The name of the kind.
    pub open spec fn words(self) -> Seq<char> {
        match self {
            RemoteErrorKind::Failed => "Failed"@,
            RemoteErrorKind::Overloaded => "Overloaded"@,
            RemoteErrorKind::Disconnected => "Disconnected"@,
            RemoteErrorKind::Unimplemented => "Unimplemented"@,
            RemoteErrorKind::Other => "Other"@,
        }
    }

    /// The name of the kind.
    pub fn as_str(self) -> (name: &'static str)
        ensures
            name@ == self.words(),
    {
        match self {
            RemoteErrorKind::Failed => "Failed",
            RemoteErrorKind::Overloaded => "Overloaded",
            RemoteErrorKind::Disconnected => "Disconnected",
            RemoteErrorKind::Unimplemented => "Unimplemented",
            RemoteErrorKind::Other => "Other",
        }
    }
}

impl RpcError {
    /// The error in words.
    pub open spec fn words(self) -> Seq<char> {
        match self {
            RpcError::Setup => "failed to establish rpc connection"@,
            RpcError::Remote { kind, code: Some(code) } => "remote rpc error ("@ + kind.words()
                + ", "@ + code.slug() + ")"@,
            RpcError::Remote { kind, code: None } => "remote rpc error ("@ + kind.words() + ")"@,
            RpcError::Handler => "local handler failed"@,
            RpcError::Unimplemented => "method not implemented"@,
            RpcError::LimitExceeded => "message exceeded configured limits"@,
        }
    }

    /// The error in words.
    pub fn to_text(self) -> (text: String)
        ensures
            text@ == self.words(),
    {
        match self {
            RpcError::Setup => "failed to establish rpc connection".to_owned(),
            RpcError::Remote { kind, code: Some(code) } => "remote rpc error (".to_owned().concat(
                kind.as_str(),
            ).concat(", ").concat(code.as_str()).concat(")"),
            RpcError::Remote { kind, code: None } => "remote rpc error (".to_owned().concat(
                kind.as_str(),
            ).concat(")"),
            RpcError::Handler => "local handler failed".to_owned(),
            RpcError::Unimplemented => "method not implemented".to_owned(),
            RpcError::LimitExceeded => "message exceeded configured limits".to_owned(),
        }
    }
}

impl WireCode {
    /// The code's slug.
    pub open spec fn slug(self) -> Seq<char> {
        match self {
            WireCode::Unauthenticated => "unauthenticated"@,
            WireCode::PermissionDenied => "permission-denied"@,
            WireCode::InvalidArgument => "invalid-argument"@,
            WireCode::NotFound => "not-found"@,
            WireCode::Unavailable => "unavailable"@,
            WireCode::LimitExceeded => "limit-exceeded"@,
            WireCode::Internal => "internal"@,
            WireCode::Unknown => "unknown"@,
        }
    }

    /// The code with the given slug, or the unknown one.
    pub open spec fn with_slug(slug: Seq<char>) -> WireCode {
        if slug == "unauthenticated"@ {
            WireCode::Unauthenticated
        } else if slug == "permission-denied"@ {
            WireCode::PermissionDenied
        } else if slug == "invalid-argument"@ {
            WireCode::InvalidArgument
        } else if slug == "not-found"@ {
            WireCode::NotFound
        } else if slug == "unavailable"@ {
            WireCode::Unavailable
        } else if slug == "limit-exceeded"@ {
            WireCode::LimitExceeded
        } else if slug == "internal"@ {
            WireCode::Internal
        } else {
            WireCode::Unknown
        }
    }

    /// The kind of exception that carries the code.
    pub open spec fn kind(self) -> ErrorKind {
        if self == WireCode::Unavailable {
            ErrorKind::Overloaded
        } else {
            ErrorKind::Failed
        }
    }

    /// The code's slug.
    pub fn as_str(self) -> (slug: &'static str)
        ensures
            slug@ == self.slug(),
    {
        match self {
            WireCode::Unauthenticated => "unauthenticated",
            WireCode::PermissionDenied => "permission-denied",
            WireCode::InvalidArgument => "invalid-argument",
            WireCode::NotFound => "not-found",
            WireCode::Unavailable => "unavailable",
            WireCode::LimitExceeded => "limit-exceeded",
            WireCode::Internal => "internal",
            WireCode::Unknown => "unknown",
        }
    }

    /// The code with the given slug, or the unknown one.
    pub fn from_slug(slug: &str) -> (code: Self)
        ensures
            code == WireCode::with_slug(slug@),
    {
        if same(slug, "unauthenticated") {
            WireCode::Unauthenticated
        } else if same(slug, "permission-denied") {
            WireCode::PermissionDenied
        } else if same(slug, "invalid-argument") {
            WireCode::InvalidArgument
        } else if same(slug, "not-found") {
            WireCode::NotFound
        } else if same(slug, "unavailable") {
            WireCode::Unavailable
        } else if same(slug, "limit-exceeded") {
            WireCode::LimitExceeded
        } else if same(slug, "internal") {
            WireCode::Internal
        } else {
            WireCode::Unknown
        }
    }

    /// The kind of exception that carries the code: one that says to try again for
    /// [`WireCode::Unavailable`], a failure for the others.
    pub fn capnp_kind(self) -> (kind: ErrorKind)
        ensures
            kind == self.kind(),
    {
        match self {
            WireCode::Unavailable => ErrorKind::Overloaded,
            _ => ErrorKind::Failed,
        }
    }

    /// Builds a coded exception directly, for handlers that have no report.
    pub fn exception(self, message: &str) -> (exception: Exception)
        ensures
            exception@ == (self.kind(), encoded(Some(self), message@)),
    {
        Exception { kind: self.capnp_kind(), extra: encode_wire_text(Some(self), message) }
    }
}

/// The text that carries a code and a message. A message without a code goes as it is, but for one
/// that reads as a coded text: a space in front makes it plain.
pub open spec fn encoded(code: Option<WireCode>, message: Seq<char>) -> Seq<char> {
    match code {
        Some(code) => WIRE_PREFIX@ + code.slug() + "] "@ + message,
        None => if decoded(message).0 is Some {
            " "@ + message
        } else {
            message
        },
    }
}

/// Whether `place` is the first closing bracket in `text`.
pub open spec fn closes(text: Seq<char>, place: int) -> bool {
    &&& 0 <= place < text.len()
    &&& text[place] == ']'
    &&& forall|i: int| 0 <= i < place ==> text[i] != ']'
}

/// `text` without one leading space.
pub open spec fn unspaced(text: Seq<char>) -> Seq<char> {
    if text.len() > 0 && text[0] == ' ' {
        text.skip(1)
    } else {
        text
    }
}

/// The code and the message that a text carries.
pub open spec fn decoded(extra: Seq<char>) -> (Option<WireCode>, Seq<char>) {
    let rest = extra.skip(WIRE_PREFIX@.len() as int);
    if begins(extra, WIRE_PREFIX@) && exists|place: int| closes(rest, place) {
        let place = choose|place: int| closes(rest, place);
        (Some(WireCode::with_slug(rest.take(place))), unspaced(rest.skip(place + 1)))
    } else {
        (None, extra)
    }
}

/// The text that carries a code and a message. Without a code no text carries one.
pub fn encode_wire_text(code: Option<WireCode>, message: &str) -> (text: String)
    ensures
        text@ == encoded(code, message@),
        code is None ==> decoded(text@).0 is None,
{
    proof {
        law_without_a_code_nothing_structured_is_sent(message@);
    }
    match code {
        Some(code) => WIRE_PREFIX.to_owned().concat(code.as_str()).concat("] ").concat(message),
        None => match decode_wire_text(message).0 {
            Some(_) => " ".to_owned().concat(message),
            None => message.to_owned(),
        },
    }
}

/// The code and the message that a text carries.
pub fn decode_wire_text(extra: &str) -> (parts: (Option<WireCode>, &str))
    ensures
        (parts.0, parts.1@) == decoded(extra@),
{
    let rest = match behind(extra, WIRE_PREFIX) {
        Some(rest) => rest,
        None => {
            return (None, extra);
        },
    };
    let end: usize = match find(rest, ']') {
        Some(end) => end,
        None => {
            return (None, extra);
        },
    };
    assert(closes(rest@, end as int));
    let size: usize = rest.unicode_len();
    let slug = rest.substring_char(0, end);
    let after = rest.substring_char(end + 1, size);
    proof {
        let place = choose|place: int| closes(rest@, place);
        assert(place == end);
        reveal_strlit(" ");
        assert(slug@ =~= rest@.take(end as int));
        assert(after@ =~= rest@.skip(end + 1));
    }
    let message = match behind(after, " ") {
        Some(message) => message,
        None => after,
    };
    proof {
        if begins(after@, " "@) {
            assert(after@.take(1)[0] == ' ');
        } else if after@.len() > 0 && after@[0] == ' ' {
            assert(after@.take(1) =~= " "@);
        }
        assert(message@ == unspaced(after@));
    }
    (Some(WireCode::from_slug(slug)), message)
}

/// What a failure of the peer is locally.
pub open spec fn received(exception: (ErrorKind, Seq<char>)) -> (RpcError, Seq<char>) {
    let (code, message) = decoded(exception.1);
    let kind = match exception.0 {
        ErrorKind::Failed => RemoteErrorKind::Failed,
        ErrorKind::Overloaded => RemoteErrorKind::Overloaded,
        ErrorKind::Disconnected => RemoteErrorKind::Disconnected,
        ErrorKind::Unimplemented => RemoteErrorKind::Unimplemented,
        ErrorKind::Other => RemoteErrorKind::Other,
    };
    (RpcError::Remote { kind, code }, message)
}

/// What an exception from the peer is locally.
pub fn from_capnp_exception(exception: &Exception) -> (failure: RemoteFailure)
    ensures
        (failure.error, failure.message.0@) == received(exception@),
{
    let kind = match exception.kind {
        ErrorKind::Failed => RemoteErrorKind::Failed,
        ErrorKind::Overloaded => RemoteErrorKind::Overloaded,
        ErrorKind::Disconnected => RemoteErrorKind::Disconnected,
        ErrorKind::Unimplemented => RemoteErrorKind::Unimplemented,
        ErrorKind::Other => RemoteErrorKind::Other,
    };
    let (code, message) = decode_wire_text(exception.extra.as_str());
    RemoteFailure {
        error: RpcError::Remote { kind, code },
        message: RemoteMessage(message.to_owned()),
    }
}

/// What crosses the wire of a report with the given context, remote-call error, code and message.
pub open spec fn sent(
    context: Seq<char>,
    rpc: Option<RpcError>,
    code: Option<WireCode>,
    message: Option<Seq<char>>,
) -> (ErrorKind, Seq<char>) {
    (
        match (code, rpc) {
            (Some(code), _) => code.kind(),
            (None, Some(RpcError::Unimplemented)) => ErrorKind::Unimplemented,
            (None, Some(RpcError::Remote { kind, code })) => ErrorKind::Disconnected,
            _ => ErrorKind::Failed,
        },
        encoded(
            code,
            match message {
                Some(message) => message,
                None => context,
            },
        ),
    )
}

impl Report {
    /// What crosses the wire.
    pub open spec fn exception(&self) -> (ErrorKind, Seq<char>) {
        sent(
            self.context@,
            self.rpc,
            self.code,
            match self.message {
                Some(message) => Some(message.0@),
                None => None,
            },
        )
    }
}

impl RemoteFailure {
    /// The report that a failure of the peer makes. The peer's code is part of the error, not
    /// attached to the report: it is not relayed unless it is attached on purpose.
    pub fn report(&self) -> (report: Report)
        ensures
            report.context@ == self.error.words(),
            report.rpc == Some(self.error),
            report.code is None,
            report.message is None,
    {
        Report { context: self.error.to_text(), rpc: Some(self.error), code: None, message: None }
    }
}

/// Projects a local report onto the wire.
///
/// Only what was opted in crosses: the text of the context, or the attached message in its place,
/// and the attached code. Everything else stays local, since the peer may be an untrusted plugin.
pub fn to_capnp_exception(report: &Report) -> (exception: Exception)
    ensures
        exception@ == report.exception(),
        report.code is None ==> decoded(exception.extra@).0 is None,
{
    let extra = match &report.message {
        Some(message) => encode_wire_text(report.code, message.0.as_str()),
        None => encode_wire_text(report.code, report.context.as_str()),
    };
    let kind = match (report.code, report.rpc) {
        (Some(code), _) => code.capnp_kind(),
        (None, Some(RpcError::Unimplemented)) => ErrorKind::Unimplemented,
        (None, Some(RpcError::Remote { .. })) => ErrorKind::Disconnected,
        _ => ErrorKind::Failed,
    };
    Exception { kind, extra }
}

/// What the slugs spell.
proof fn lemma_slugs(code: WireCode)
    ensures
        forall|i: int| 0 <= i < code.slug().len() ==> code.slug()[i] != ']',
        WireCode::with_slug(code.slug()) == code,
{
    reveal_strlit("unauthenticated");
    reveal_strlit("permission-denied");
    reveal_strlit("invalid-argument");
    reveal_strlit("not-found");
    reveal_strlit("unavailable");
    reveal_strlit("limit-exceeded");
    reveal_strlit("internal");
    reveal_strlit("unknown");
    assert("unauthenticated"@ =~= seq![
        'u', 'n', 'a', 'u', 't', 'h', 'e', 'n', 't', 'i', 'c', 'a',
        't', 'e', 'd',
    ]);
    assert("permission-denied"@ =~= seq![
        'p', 'e', 'r', 'm', 'i', 's', 's', 'i', 'o', 'n', '-', 'd',
        'e', 'n', 'i', 'e', 'd',
    ]);
    assert("invalid-argument"@ =~= seq![
        'i', 'n', 'v', 'a', 'l', 'i', 'd', '-', 'a', 'r', 'g', 'u',
        'm', 'e', 'n', 't',
    ]);
    assert("not-found"@ =~= seq![
        'n', 'o', 't', '-', 'f', 'o', 'u', 'n', 'd',
    ]);
    assert("unavailable"@ =~= seq![
        'u', 'n', 'a', 'v', 'a', 'i', 'l', 'a', 'b', 'l', 'e',
    ]);
    assert("limit-exceeded"@ =~= seq![
        'l', 'i', 'm', 'i', 't', '-', 'e', 'x', 'c', 'e', 'e', 'd',
        'e', 'd',
    ]);
    assert("internal"@ =~= seq![
        'i', 'n', 't', 'e', 'r', 'n', 'a', 'l',
    ]);
    assert("unknown"@ =~= seq![
        'u', 'n', 'k', 'n', 'o', 'w', 'n',
    ]);
}

/// A code is the code that its slug names.
pub proof fn law_slug_read_back(code: WireCode)
    ensures
        WireCode::with_slug(code.slug()) == code,
{
    lemma_slugs(code);
}

/// A coded text reads back as its code and its message, whatever the message.
pub proof fn law_coded_text_read_back(code: WireCode, message: Seq<char>)
    ensures
        decoded(encoded(Some(code), message)) == (Some(code), message),
{
    let extra = encoded(Some(code), message);
    let rest = extra.skip(WIRE_PREFIX@.len() as int);
    let end = code.slug().len() as int;
    reveal_strlit("] ");
    lemma_slugs(code);
    assert(extra.take(WIRE_PREFIX@.len() as int) =~= WIRE_PREFIX@);
    assert(rest =~= code.slug() + "] "@ + message);
    assert(closes(rest, end));
    let place = choose|place: int| closes(rest, place);
    assert(place == end);
    assert(rest.take(end) =~= code.slug());
    assert(rest.skip(end + 1)[0] == ' ');
    assert(rest.skip(end + 1).skip(1) =~= message);
}

/// Without a code nothing structured is sent: no message, whatever it holds, reads as a coded text
/// on the other side. A message that does not itself read as one arrives as it is.
pub proof fn law_without_a_code_nothing_structured_is_sent(message: Seq<char>)
    ensures
        decoded(encoded(None, message)).0 is None,
        decoded(message).0 is None ==> decoded(encoded(None, message)) == (
            None::<WireCode>,
            message,
        ),
{
    let text = " "@ + message;
    reveal_strlit(" ");
    reveal_strlit("[ogurpchik:");
    assert(text[0] == ' ');
    if begins(text, WIRE_PREFIX@) {
        assert(text.take(WIRE_PREFIX@.len() as int)[0] == WIRE_PREFIX@[0]);
    }
}

/// A text that does not begin as a coded one, or whose bracket is never closed, is a message
/// without a code, and is kept whole.
pub proof fn law_malformed_prefix_is_plain_text(extra: Seq<char>)
    requires
        !begins(extra, WIRE_PREFIX@) || !extra.skip(WIRE_PREFIX@.len() as int).contains(']'),
    ensures
        decoded(extra) == (None::<WireCode>, extra),
{
    let rest = extra.skip(WIRE_PREFIX@.len() as int);
    if exists|place: int| closes(rest, place) {
        let place = choose|place: int| closes(rest, place);
        assert(rest.contains(rest[place]));
    }
}

/// A code that is attached to a report reaches the peer, together with the message that was
/// attached or else the text of the context; nothing else of the report does.
pub proof fn law_attached_code_is_received(
    context: Seq<char>,
    rpc: Option<RpcError>,
    code: WireCode,
    message: Option<Seq<char>>,
)
    ensures
        ({
            let (error, text) = received(sent(context, rpc, Some(code), message));
            &&& error == RpcError::Remote {
                kind: if code == WireCode::Unavailable {
                    RemoteErrorKind::Overloaded
                } else {
                    RemoteErrorKind::Failed
                },
                code: Some(code),
            }
            &&& text == match message {
                Some(message) => message,
                None => context,
            }
        }),
{
    law_coded_text_read_back(
        code,
        match message {
            Some(message) => message,
            None => context,
        },
    );
}

/// A failure of the peer that is reported onwards is a lost connection, not a local failure, and
/// the peer's code is not emitted again.
pub proof fn law_relayed_code_is_not_emitted(exception: (ErrorKind, Seq<char>))
    ensures
        ({
            let (error, text) = received(exception);
            let relayed = sent(error.words(), Some(error), None, None);
            &&& relayed.0 == ErrorKind::Disconnected
            &&& decoded(relayed.1) == (None::<WireCode>, error.words())
        }),
{
    let (error, text) = received(exception);
    reveal_strlit("[ogurpchik:");
    reveal_strlit("remote rpc error (");
    assert(error.words()[0] == 'r');
    if begins(error.words(), WIRE_PREFIX@) {
        assert(error.words().take(WIRE_PREFIX@.len() as int)[0] == WIRE_PREFIX@[0]);
    }
}

/// Without a code, too, a message that is attached reaches the peer in place of the text of the
/// context; without a message that text does. Neither brings a code. A text that itself reads as a
/// coded one arrives behind a space.
pub proof fn law_attached_message_is_received(
    context: Seq<char>,
    rpc: Option<RpcError>,
    message: Seq<char>,
)
    ensures
        ({
            let (error, text) = received(sent(context, rpc, None, Some(message)));
            &&& error matches RpcError::Remote { kind, code: None }
            &&& text == if decoded(message).0 is None {
                message
            } else {
                seq![' '] + message
            }
        }),
        ({
            let (error, text) = received(sent(context, rpc, None, None));
            &&& error matches RpcError::Remote { kind, code: None }
            &&& text == if decoded(context).0 is None {
                context
            } else {
                seq![' '] + context
            }
        }),
{
    reveal_strlit(" ");
    assert(" "@ =~= seq![' ']);
    law_without_a_code_nothing_structured_is_sent(message);
    law_without_a_code_nothing_structured_is_sent(context);
}

/// Where a message is attached, nothing of the context crosses the wire: reports that differ in
/// their contexts alone are sent alike. Where none is, the context is sent as if it were the
/// message.
pub proof fn law_message_hides_the_context(
    context: Seq<char>,
    other: Seq<char>,
    rpc: Option<RpcError>,
    code: Option<WireCode>,
    message: Seq<char>,
)
    ensures
        sent(context, rpc, code, Some(message)) == sent(other, rpc, code, Some(message)),
        sent(context, rpc, code, None) == sent(other, rpc, code, Some(context)),
{
}

/// The kind that a report is sent as. A code decides: its peer is to try again later, or has
/// failed. Without one, a method that is missing and a failure of another peer are told apart from
/// all else. The text has no part in it.
pub proof fn law_kind_of_a_report(
    context: Seq<char>,
    rpc: Option<RpcError>,
    code: Option<WireCode>,
    message: Option<Seq<char>>,
)
    ensures
        ({
            let kind = sent(context, rpc, code, message).0;
            &&& code == Some(WireCode::Unavailable) ==> kind == ErrorKind::Overloaded
            &&& code is Some && code != Some(WireCode::Unavailable) ==> kind == ErrorKind::Failed
            &&& code is None && rpc == Some(RpcError::Unimplemented) ==> kind
                == ErrorKind::Unimplemented
            &&& code is None && rpc is Some && rpc->0 is Remote ==> kind == ErrorKind::Disconnected
            &&& code is None && rpc != Some(RpcError::Unimplemented) && !(rpc is Some && rpc->0
                is Remote) ==> kind == ErrorKind::Failed
        }),
{
}

/// A peer's exception keeps its kind, and its text is taken apart into code and message.
pub proof fn law_exception_is_received(text: Seq<char>)
    ensures
        forall|kind: ErrorKind|
            #![trigger received((kind, text))]
            {
                let (error, message) = received((kind, text));
                &&& message == decoded(text).1
                &&& error matches RpcError::Remote { kind: told, code }
                &&& code == decoded(text).0
                &&& told is Failed <==> kind is Failed
                &&& told is Overloaded <==> kind is Overloaded
                &&& told is Disconnected <==> kind is Disconnected
                &&& told is Unimplemented <==> kind is Unimplemented
                &&& told is Other <==> kind is Other
            },
{
}

/// How any text is taken apart: what stands between `[ogurpchik:` and the first closing bracket
/// names the code, and what stands behind it, but for one space, is the message.
pub proof fn law_coded_text_is_taken_apart(slug: Seq<char>, rest: Seq<char>)
    requires
        !slug.contains(']'),
    ensures
        ({
            let (code, message) = decoded("[ogurpchik:"@ + slug + seq![']'] + rest);
            &&& code == Some(WireCode::with_slug(slug))
            &&& rest.len() > 0 && rest[0] == ' ' ==> message == rest.skip(1)
            &&& rest.len() == 0 || rest[0] != ' ' ==> message == rest
        }),
{
    let extra = "[ogurpchik:"@ + slug + seq![']'] + rest;
    let behind = extra.skip(WIRE_PREFIX@.len() as int);
    assert(extra.take(WIRE_PREFIX@.len() as int) =~= WIRE_PREFIX@);
    assert(behind =~= slug + seq![']'] + rest);
    let end = slug.len() as int;
    assert forall|i: int| 0 <= i < end implies behind[i] != ']' by {
        assert(slug.contains(slug[i]));
        assert(behind[i] == slug[i]);
    }
    assert(closes(behind, end));
    let place = choose|place: int| closes(behind, place);
    assert(place == end);
    assert(behind.take(end) =~= slug);
    assert(behind.skip(end + 1) =~= rest);
}

/// A coded text, letter for letter.
pub proof fn law_coded_text_is_written(code: WireCode, message: Seq<char>)
    ensures
        encoded(Some(code), message) == "[ogurpchik:"@ + code.slug() + "] "@ + message,
{
}

/// The slugs that both sides agree on. A slug names the code whose slug it is, and any other text
/// names the unknown code.
pub proof fn law_slugs(slug: Seq<char>)
    ensures
        WireCode::Unauthenticated.slug() == "unauthenticated"@,
        WireCode::PermissionDenied.slug() == "permission-denied"@,
        WireCode::InvalidArgument.slug() == "invalid-argument"@,
        WireCode::NotFound.slug() == "not-found"@,
        WireCode::Unavailable.slug() == "unavailable"@,
        WireCode::LimitExceeded.slug() == "limit-exceeded"@,
        WireCode::Internal.slug() == "internal"@,
        WireCode::Unknown.slug() == "unknown"@,
        forall|code: WireCode|
            #![trigger code.slug()]
            code != WireCode::Unknown ==> (WireCode::with_slug(slug) == code <==> slug
                == code.slug()),
{
    assert forall|code: WireCode|
        #![trigger code.slug()]
        code != WireCode::Unknown implies (WireCode::with_slug(slug) == code <==> slug
        == code.slug()) by {
        lemma_slugs(code);
    }
}

/// A failure that the peer reported is told with its kind and, where it came with one, its code.
pub proof fn law_remote_failure_in_words(kind: RemoteErrorKind, code: WireCode)
    ensures
        (RpcError::Remote { kind, code: None }).words() == "remote rpc error ("@ + kind.words()
            + ")"@,
        (RpcError::Remote { kind, code: Some(code) }).words() == "remote rpc error ("@
            + kind.words() + ", "@ + code.slug() + ")"@,
{
}

/// What is sent of a report is its context, its remote-call error, its code and its message, each
/// as it stands there.
pub proof fn law_report_is_sent_as_it_stands(report: &Report)
    ensures
        report.message matches Some(message) ==> report.exception() == sent(
            report.context@,
            report.rpc,
            report.code,
            Some(message.0@),
        ),
        report.message is None ==> report.exception() == sent(
            report.context@,
            report.rpc,
            report.code,
            None,
        ),
{
}

/// An exception is seen with its kind and the whole of its text.
pub proof fn law_exception_view(exception: Exception)
    ensures
        exception@ == (exception.kind, exception.extra@),
{
}

} // verus!
