//! The course of a handshake.
//!
//! Each side is a machine: it is told what has happened and says what to do next, until the
//! handshake is over. What it is told out of turn changes nothing. Sending, receiving and verifying
//! a program are left to the caller.

use super::handshake::{
    answer_body, authenticate_client, authenticate_server, client_verdict, conclude_signed_process,
    expects_hello, hello_body, hello_with, law_matching_sides_succeed, law_refusals_are_heard,
    lemma_short_refusal, prepare_server, server_verdict, Admission, ClientStep, ClientVerdict,
    HandshakeMode, ModeView, ServerStep, ServerVerdict,
};
use super::mac::random_nonce;
use super::packet::{
    ack_packet, ack_verdict, decode_ack, framed, law_ack_is_read_by_its_bytes, SchemaId, ACK_OK,
    ACK_REJECTED, MAX_PACKET_LEN, NONCE_LEN,
};
use crate::bytes::le_bytes;
use crate::error::{HandshakeError, HandshakeFailure, Why};
use crate::net::PeerIdentity;
use std::rc::Rc;
use vstd::prelude::*;
use vstd::utf8::encode_utf8;

verus! {

/// How far a server has come.
pub enum ServerStage {
    /// The hello is on its way and the client's answer is to come.
    Answer { pid: Option<u32>, nonce: Seq<u8> },
    /// The program of the client's process is being verified.
    Program,
    /// The handshake is over.
    Over,
}

/// A server in a handshake.
pub struct ServerView {
    pub mode: ModeView,
    pub schema: SchemaId,
    pub stage: ServerStage,
}

/// What a server is told.
pub enum ServerEvent {
    /// The body of a packet from the client.
    Received(Vec<u8>),
    /// Whether the program of the client's process is to be trusted.
    Verified(Result<(), HandshakeFailure>),
}

/// What a server is told.
pub enum ServerEventView {
    Received(Seq<u8>),
    Verified(Result<(), Why>),
}

impl View for ServerEvent {
    type V = ServerEventView;

    open spec fn view(&self) -> ServerEventView {
        match self {
            ServerEvent::Received(body) => ServerEventView::Received(body@),
            ServerEvent::Verified(Ok(())) => ServerEventView::Verified(Ok(())),
            ServerEvent::Verified(Err(failure)) => ServerEventView::Verified(Err(failure@)),
        }
    }
}

/// What a server does next.
pub enum ServerAction {
    /// Send the packet and receive one.
    Exchange { packet: Vec<u8> },
    /// Verify that the program of the process is signed with the key.
    Verify { pid: u32, public_key: Rc<[u8]> },
    /// Send the packet; the handshake has succeeded.
    Accept { packet: Vec<u8> },
    /// Send the packet, whether or not that works; the handshake has failed.
    Reject { packet: Vec<u8>, failure: HandshakeFailure },
    /// The handshake has failed.
    Fail { failure: HandshakeFailure },
    /// There is no handshake.
    Finish,
    /// Nothing: this was not waited for.
    Ignore,
}

/// What a server does next.
pub enum ServerActionView {
    Exchange { packet: Seq<u8> },
    Verify { pid: u32, public_key: Seq<u8> },
    Accept { packet: Seq<u8> },
    Reject { packet: Seq<u8>, failure: Why },
    Fail { failure: Why },
    Finish,
    Ignore,
}

impl ServerActionView {
    /// Whether the handshake ends with this.
    pub open spec fn ends(self) -> bool {
        self is Accept || self is Reject || self is Fail || self is Finish
    }
}

impl View for ServerAction {
    type V = ServerActionView;

    open spec fn view(&self) -> ServerActionView {
        match self {
            ServerAction::Exchange { packet } => ServerActionView::Exchange { packet: packet@ },
            ServerAction::Verify { pid, public_key } => ServerActionView::Verify {
                pid: *pid,
                public_key: (**public_key)@,
            },
            ServerAction::Accept { packet } => ServerActionView::Accept { packet: packet@ },
            ServerAction::Reject { packet, failure } => ServerActionView::Reject {
                packet: packet@,
                failure: failure@,
            },
            ServerAction::Fail { failure } => ServerActionView::Fail { failure: failure@ },
            ServerAction::Finish => ServerActionView::Finish,
            ServerAction::Ignore => ServerActionView::Ignore,
        }
    }
}

/// A nonce, or the reason that there is none.
pub open spec fn drawn(nonce: Result<Vec<u8>, String>) -> Result<Seq<u8>, Seq<char>> {
    match nonce {
        Ok(bytes) => Ok(bytes@),
        Err(error) => Err(error@),
    }
}

/// How a server begins, given a nonce or the reason that there is none. Nothing is sent where there
/// is no handshake, nor to a peer whose identity is needed and not known.
pub open spec fn server_start(
    mode: ModeView,
    schema: SchemaId,
    peer: PeerIdentity,
    transport: Seq<char>,
    nonce: Result<Seq<u8>, Seq<char>>,
) -> (ServerView, ServerActionView) {
    let over = ServerView { mode, schema, stage: ServerStage::Over };
    match (mode, peer) {
        (ModeView::Disabled, _) => (over, ServerActionView::Finish),
        (ModeView::SignedProcess(_), PeerIdentity::Unknown) => (
            over,
            ServerActionView::Fail {
                failure: (
                    HandshakeError::PeerAttestationUnavailable,
                    Some("transport: "@ + transport),
                ),
            },
        ),
        _ => match nonce {
            Ok(nonce) => (
                ServerView {
                    mode,
                    schema,
                    stage: ServerStage::Answer {
                        pid: match (mode, peer) {
                            (ModeView::SignedProcess(_), PeerIdentity::Pid { pid }) => Some(pid),
                            _ => None,
                        },
                        nonce,
                    },
                },
                ServerActionView::Exchange { packet: framed(hello_body(mode, schema, nonce)) },
            ),
            Err(error) => (
                over,
                ServerActionView::Fail {
                    failure: (HandshakeError::Io, Some("failed to generate nonce: "@ + error)),
                },
            ),
        },
    }
}

/// How a server goes on when it is told something.
pub open spec fn server_next(server: ServerView, event: ServerEventView) -> (
    ServerView,
    ServerActionView,
) {
    let over = ServerView { stage: ServerStage::Over, ..server };
    let accept = ServerActionView::Accept { packet: framed(ack_packet(ACK_OK, Seq::empty())) };
    match (server.stage, event) {
        (ServerStage::Answer { pid, nonce }, ServerEventView::Received(body)) => {
            match server_verdict(server.mode, server.schema, nonce, body) {
                ServerVerdict::Accept => (over, accept),
                ServerVerdict::Reject { reason, failure } => (
                    over,
                    ServerActionView::Reject {
                        packet: framed(ack_packet(ACK_REJECTED, reason)),
                        failure,
                    },
                ),
                ServerVerdict::Fail(failure) => (over, ServerActionView::Fail { failure }),
                ServerVerdict::Verify => (
                    ServerView { stage: ServerStage::Program, ..server },
                    ServerActionView::Verify {
                        pid: pid->0,
                        public_key: server.mode->SignedProcess_0,
                    },
                ),
            }
        },
        (ServerStage::Program, ServerEventView::Verified(Ok(()))) => (over, accept),
        (ServerStage::Program, ServerEventView::Verified(Err(failure))) => (
            over,
            ServerActionView::Reject {
                packet: framed(
                    ack_packet(ACK_REJECTED, encode_utf8("signed-process verification failed"@)),
                ),
                failure,
            },
        ),
        _ => (server, ServerActionView::Ignore),
    }
}

enum Waiting {
    Answer { pid: Option<u32>, nonce: Vec<u8> },
    Program,
    Nothing,
}

/// A server in a handshake.
pub struct ServerHandshake {
    mode: HandshakeMode,
    schema: SchemaId,
    waiting: Waiting,
}

impl View for ServerHandshake {
    type V = ServerView;

    closed spec fn view(&self) -> ServerView {
        ServerView {
            mode: self.mode@,
            schema: self.schema,
            stage: match self.waiting {
                Waiting::Answer { pid, nonce } => ServerStage::Answer { pid, nonce: nonce@ },
                Waiting::Program => ServerStage::Program,
                Waiting::Nothing => ServerStage::Over,
            },
        }
    }
}

impl ServerView {
    /// Whether a server can come to this: it waits for an answer only where there is a handshake,
    /// and knows the client's process where it is to be trusted for its program.
    pub open spec fn wf(self) -> bool {
        match self.stage {
            ServerStage::Answer { pid, nonce } => {
                &&& !(self.mode is Disabled)
                &&& self.mode is SignedProcess ==> pid is Some
            },
            _ => true,
        }
    }
}

impl ServerHandshake {
    /// Sends the hello for a nonce.
    fn open(
        mode: &HandshakeMode,
        schema: SchemaId,
        pid: Option<u32>,
        nonce: Result<Vec<u8>, String>,
    ) -> (opened: (ServerHandshake, ServerAction))
        ensures
            match nonce {
                Ok(nonce) => {
                    &&& opened.0@ == ServerView {
                        mode: mode@,
                        schema,
                        stage: ServerStage::Answer { pid, nonce: nonce@ },
                    }
                    &&& opened.1@ == ServerActionView::Exchange {
                        packet: framed(hello_body(mode@, schema, nonce@)),
                    }
                },
                Err(error) => {
                    &&& opened.0@ == ServerView { mode: mode@, schema, stage: ServerStage::Over }
                    &&& opened.1@ == ServerActionView::Fail {
                        failure: (
                            HandshakeError::Io,
                            Some("failed to generate nonce: "@ + error@),
                        ),
                    }
                },
            },
    {
        let (waiting, action) = match hello_with(mode, schema, nonce) {
            Ok(hello) => (
                Waiting::Answer { pid, nonce: hello.nonce },
                ServerAction::Exchange { packet: hello.packet },
            ),
            Err(failure) => (Waiting::Nothing, ServerAction::Fail { failure }),
        };
        (ServerHandshake { mode: mode.clone(), schema, waiting }, action)
    }

    /// Begins the handshake, given a nonce or the reason that there is none.
    pub fn start_with(
        mode: &HandshakeMode,
        schema: SchemaId,
        peer: PeerIdentity,
        transport: &str,
        nonce: Result<Vec<u8>, String>,
    ) -> (started: (ServerHandshake, ServerAction))
        ensures
            started.0@.wf(),
            (started.0@, started.1@) == server_start(
                mode@,
                schema,
                peer,
                transport@,
                drawn(nonce),
            ),
    {
        let action = match prepare_server(mode, peer, transport) {
            Ok(Admission::Proceed { pid }) => {
                return ServerHandshake::open(mode, schema, pid, nonce);
            },
            Ok(Admission::Skip) => ServerAction::Finish,
            Err(failure) => ServerAction::Fail { failure },
        };
        (ServerHandshake { mode: mode.clone(), schema, waiting: Waiting::Nothing }, action)
    }

    /// Begins the handshake with a fresh random nonce, where it comes to that. The nonce, and
    /// whether there is one, is all that is left open; [`ServerHandshake::start_with`] says what
    /// comes of it.
    pub fn start(
        mode: &HandshakeMode,
        schema: SchemaId,
        peer: PeerIdentity,
        transport: &str,
    ) -> (started: (ServerHandshake, ServerAction))
        ensures
            started.0@.wf(),
            exists|nonce: Result<Seq<u8>, Seq<char>>|
                (nonce matches Ok(bytes) ==> bytes.len() == NONCE_LEN) && (
                    started.0@,
                    started.1@,
                ) == #[trigger] server_start(mode@, schema, peer, transport@, nonce),
    {
        match prepare_server(mode, peer, transport) {
            Ok(Admission::Proceed { pid }) => {
                let nonce = random_nonce();
                let ghost outcome = drawn(nonce);
                let started = ServerHandshake::open(mode, schema, pid, nonce);
                assert((started.0@, started.1@) == server_start(
                    mode@,
                    schema,
                    peer,
                    transport@,
                    outcome,
                ));
                started
            },
            _ => ServerHandshake::start_with(mode, schema, peer, transport, Err(String::new())),
        }
    }

    /// Goes on with what has happened.
    pub fn on(&mut self, event: ServerEvent) -> (action: ServerAction)
        requires
            old(self)@.wf(),
        ensures
            final(self)@.wf(),
            (final(self)@, action@) == server_next(old(self)@, event@),
    {
        let mut waiting = Waiting::Nothing;
        std::mem::swap(&mut waiting, &mut self.waiting);
        match (waiting, event) {
            (Waiting::Answer { pid, nonce }, ServerEvent::Received(body)) => {
                let step = authenticate_server(
                    &self.mode,
                    self.schema,
                    nonce.as_slice(),
                    body.as_slice(),
                );
                match (&self.mode, pid, step) {
                    (
                        HandshakeMode::SignedProcess { public_key },
                        Some(pid),
                        ServerStep::Verify,
                    ) => {
                        let public_key = public_key.clone();
                        self.waiting = Waiting::Program;
                        ServerAction::Verify { pid, public_key }
                    },
                    (_, _, step) => conclusion(step),
                }
            },
            (Waiting::Program, ServerEvent::Verified(verified)) => conclusion(
                conclude_signed_process(verified),
            ),
            (waiting, _) => {
                self.waiting = waiting;
                ServerAction::Ignore
            },
        }
    }
}

/// The action that ends a handshake with a step.
fn conclusion(step: ServerStep) -> (action: ServerAction)
    requires
        !(step is Verify),
    ensures
        match step {
            ServerStep::Accept { packet } => action == (ServerAction::Accept { packet }),
            ServerStep::Reject { packet, failure } => action == (ServerAction::Reject {
                packet,
                failure,
            }),
            ServerStep::Fail { failure } => action == (ServerAction::Fail { failure }),
            ServerStep::Verify => false,
        },
{
    match step {
        ServerStep::Accept { packet } => ServerAction::Accept { packet },
        ServerStep::Reject { packet, failure } => ServerAction::Reject { packet, failure },
        ServerStep::Fail { failure } => ServerAction::Fail { failure },
        ServerStep::Verify => ServerAction::Ignore,
    }
}

/// How far a client has come.
#[derive(Debug, Clone, Copy, PartialEq, Eq, Structural)]
pub enum ClientStage {
    /// The server's first packet is to come.
    Hello,
    /// The answer is on its way and the server's acknowledgement is to come.
    Acknowledgement,
    /// The handshake is over.
    Over,
}

/// A client in a handshake.
pub struct ClientView {
    pub mode: ModeView,
    pub schema: SchemaId,
    pub stage: ClientStage,
}

/// What a client does next.
pub enum ClientAction {
    /// Receive a packet.
    Receive,
    /// Send the packet and receive one.
    Exchange { packet: Vec<u8> },
    /// The handshake has succeeded, or there is none.
    Finish,
    /// Send the packet; then the handshake has failed.
    SendThenFail { packet: Vec<u8>, failure: HandshakeFailure },
    /// The handshake has failed.
    Fail { failure: HandshakeFailure },
    /// Nothing: this was not waited for.
    Ignore,
}

/// What a client does next.
pub enum ClientActionView {
    Receive,
    Exchange { packet: Seq<u8> },
    Finish,
    SendThenFail { packet: Seq<u8>, failure: Why },
    Fail { failure: Why },
    Ignore,
}

impl ClientActionView {
    /// Whether the client sends something.
    pub open spec fn sends(self) -> bool {
        self is Exchange || self is SendThenFail
    }

    /// Whether the handshake ends with this.
    pub open spec fn ends(self) -> bool {
        self is Finish || self is SendThenFail || self is Fail
    }
}

impl View for ClientAction {
    type V = ClientActionView;

    open spec fn view(&self) -> ClientActionView {
        match self {
            ClientAction::Receive => ClientActionView::Receive,
            ClientAction::Exchange { packet } => ClientActionView::Exchange { packet: packet@ },
            ClientAction::Finish => ClientActionView::Finish,
            ClientAction::SendThenFail { packet, failure } => ClientActionView::SendThenFail {
                packet: packet@,
                failure: failure@,
            },
            ClientAction::Fail { failure } => ClientActionView::Fail { failure: failure@ },
            ClientAction::Ignore => ClientActionView::Ignore,
        }
    }
}

/// How a client begins.
pub open spec fn client_start(mode: ModeView, schema: SchemaId) -> (ClientView, ClientActionView) {
    if mode is Disabled {
        (ClientView { mode, schema, stage: ClientStage::Over }, ClientActionView::Finish)
    } else {
        (ClientView { mode, schema, stage: ClientStage::Hello }, ClientActionView::Receive)
    }
}

/// How a client goes on when it receives a packet.
pub open spec fn client_next(client: ClientView, body: Seq<u8>) -> (ClientView, ClientActionView) {
    let over = ClientView { stage: ClientStage::Over, ..client };
    match client.stage {
        ClientStage::Hello => match client_verdict(client.mode, client.schema, body) {
            ClientVerdict::Finish => (over, ClientActionView::Finish),
            ClientVerdict::Fail(failure) => (over, ClientActionView::Fail { failure }),
            ClientVerdict::Answer { body, failure: Some(failure) } => (
                over,
                ClientActionView::SendThenFail { packet: framed(body), failure },
            ),
            ClientVerdict::Answer { body, failure: None } => (
                ClientView { stage: ClientStage::Acknowledgement, ..client },
                ClientActionView::Exchange { packet: framed(body) },
            ),
        },
        ClientStage::Acknowledgement => match ack_verdict(body) {
            Ok(()) => (over, ClientActionView::Finish),
            Err(failure) => (over, ClientActionView::Fail { failure }),
        },
        ClientStage::Over => (client, ClientActionView::Ignore),
    }
}

/// A client in a handshake.
pub struct ClientHandshake {
    mode: HandshakeMode,
    schema: SchemaId,
    stage: ClientStage,
}

impl View for ClientHandshake {
    type V = ClientView;

    closed spec fn view(&self) -> ClientView {
        ClientView { mode: self.mode@, schema: self.schema, stage: self.stage }
    }
}

impl ClientView {
    /// Whether a client can come to this: it waits for a packet only where there is a handshake.
    pub open spec fn wf(self) -> bool {
        self.mode is Disabled ==> self.stage is Over
    }
}

impl ClientHandshake {
    /// Begins the handshake.
    pub fn start(mode: &HandshakeMode, schema: SchemaId) -> (started: (
        ClientHandshake,
        ClientAction,
    ))
        ensures
            started.0@.wf(),
            (started.0@, started.1@) == client_start(mode@, schema),
    {
        let (stage, action) = if expects_hello(mode) {
            (ClientStage::Hello, ClientAction::Receive)
        } else {
            (ClientStage::Over, ClientAction::Finish)
        };
        (ClientHandshake { mode: mode.clone(), schema, stage }, action)
    }

    /// Goes on with the body of a packet from the server.
    pub fn on(&mut self, body: &[u8]) -> (action: ClientAction)
        requires
            old(self)@.wf(),
        ensures
            final(self)@.wf(),
            (final(self)@, action@) == client_next(old(self)@, body@),
    {
        match self.stage {
            ClientStage::Hello => {
                self.stage = ClientStage::Over;
                match authenticate_client(&self.mode, self.schema, body) {
                    ClientStep::Finish => ClientAction::Finish,
                    ClientStep::Fail { failure } => ClientAction::Fail { failure },
                    ClientStep::AnswerThenFail { packet, failure } => ClientAction::SendThenFail {
                        packet,
                        failure,
                    },
                    ClientStep::AnswerThenWait { packet } => {
                        self.stage = ClientStage::Acknowledgement;
                        ClientAction::Exchange { packet }
                    },
                }
            },
            ClientStage::Acknowledgement => {
                self.stage = ClientStage::Over;
                match decode_ack(body) {
                    Ok(()) => ClientAction::Finish,
                    Err(failure) => ClientAction::Fail { failure },
                }
            },
            ClientStage::Over => ClientAction::Ignore,
        }
    }
}

/// What a server does, one action for each of the events.
pub open spec fn server_actions(server: ServerView, events: Seq<ServerEventView>) -> Seq<
    ServerActionView,
>
    decreases events.len(),
{
    if events.len() == 0 {
        Seq::empty()
    } else {
        let (next, action) = server_next(server, events[0]);
        seq![action] + server_actions(next, events.drop_first())
    }
}

/// What a client does, one action for each of the packets.
pub open spec fn client_actions(client: ClientView, bodies: Seq<Seq<u8>>) -> Seq<ClientActionView>
    decreases bodies.len(),
{
    if bodies.len() == 0 {
        Seq::empty()
    } else {
        let (next, action) = client_next(client, bodies[0]);
        seq![action] + client_actions(next, bodies.drop_first())
    }
}

/// The first answer of a client among some events, and the events behind it.
pub open spec fn first_answer(events: Seq<ServerEventView>) -> Option<
    (Seq<u8>, Seq<ServerEventView>),
>
    decreases events.len(),
{
    if events.len() == 0 {
        None
    } else {
        match events[0] {
            ServerEventView::Received(body) => Some((body, events.drop_first())),
            _ => first_answer(events.drop_first()),
        }
    }
}

/// The first outcome of verifying a program among some events.
pub open spec fn first_outcome(events: Seq<ServerEventView>) -> Option<Result<(), Why>>
    decreases events.len(),
{
    if events.len() == 0 {
        None
    } else {
        match events[0] {
            ServerEventView::Verified(outcome) => Some(outcome),
            _ => first_outcome(events.drop_first()),
        }
    }
}

/// Whether one of some actions is to accept the client.
pub open spec fn accepted(actions: Seq<ServerActionView>) -> bool {
    exists|i: int| 0 <= i < actions.len() && (#[trigger] actions[i]) is Accept
}

/// A server that is done does nothing more, whatever it is told.
pub proof fn law_server_stays_over(server: ServerView, events: Seq<ServerEventView>)
    requires
        server.stage is Over,
    ensures
        server_actions(server, events).len() == events.len(),
        forall|i: int|
            0 <= i < events.len() ==> (#[trigger] server_actions(server, events)[i]) is Ignore,
    decreases events.len(),
{
    if events.len() > 0 {
        law_server_stays_over(server, events.drop_first());
    }
}

/// A handshake ends once, whatever the server is told: after the action that ends it, and so after
/// the one acknowledgement or refusal that the client gets, the server does nothing more. Only the
/// hello makes it send anything else.
pub proof fn law_server_ends_once(server: ServerView, events: Seq<ServerEventView>)
    ensures
        server_actions(server, events).len() == events.len(),
        forall|i: int, j: int|
            0 <= i < j < events.len() && (#[trigger] server_actions(server, events)[i]).ends()
                ==> (#[trigger] server_actions(server, events)[j]) is Ignore,
        forall|i: int|
            0 <= i < events.len() ==> !((#[trigger] server_actions(server, events)[i]) is Exchange),
    decreases events.len(),
{
    if events.len() > 0 {
        let (next, action) = server_next(server, events[0]);
        law_server_ends_once(next, events.drop_first());
        if action.ends() {
            law_server_stays_over(next, events.drop_first());
        }
    }
}

/// Nothing is sent where there is no handshake, nor to a client that is to be trusted for its
/// program where its process is not known: the server is done at once, and stays so.
pub proof fn law_nothing_is_sent_without_admission(
    mode: ModeView,
    schema: SchemaId,
    peer: PeerIdentity,
    transport: Seq<char>,
    nonce: Result<Seq<u8>, Seq<char>>,
    events: Seq<ServerEventView>,
)
    requires
        mode is Disabled || (mode is SignedProcess && peer is Unknown),
    ensures
        ({
            let (server, action) = server_start(mode, schema, peer, transport, nonce);
            &&& if mode is Disabled {
                action is Finish
            } else {
                &&& action matches ServerActionView::Fail { failure }
                &&& failure.0 == HandshakeError::PeerAttestationUnavailable
            }
            &&& forall|i: int|
                0 <= i < events.len() ==> (#[trigger] server_actions(server, events)[i]) is Ignore
        }),
{
    law_server_stays_over(server_start(mode, schema, peer, transport, nonce).0, events);
}

proof fn lemma_accepted_now_or_later(now: ServerActionView, later: Seq<ServerActionView>)
    ensures
        accepted(seq![now] + later) <==> now is Accept || accepted(later),
{
    let actions = seq![now] + later;
    if now is Accept {
        assert(actions[0] is Accept);
    }
    if accepted(later) {
        let i = choose|i: int| 0 <= i < later.len() && (#[trigger] later[i]) is Accept;
        assert(actions[i + 1] is Accept);
    }
    if accepted(actions) && !(now is Accept) {
        let i = choose|i: int| 0 <= i < actions.len() && (#[trigger] actions[i]) is Accept;
        assert(later[i - 1] is Accept);
    }
}

proof fn lemma_program_is_awaited(server: ServerView, events: Seq<ServerEventView>)
    requires
        server.stage is Program,
    ensures
        accepted(server_actions(server, events)) <==> first_outcome(events) matches Some(Ok(_)),
        forall|i: int|
            0 <= i < events.len() ==> !((#[trigger] server_actions(server, events)[i]) is Verify),
    decreases events.len(),
{
    if events.len() > 0 {
        let (next, action) = server_next(server, events[0]);
        law_server_ends_once(next, events.drop_first());
        lemma_accepted_now_or_later(action, server_actions(next, events.drop_first()));
        if next.stage is Over {
            law_server_stays_over(next, events.drop_first());
        } else {
            lemma_program_is_awaited(next, events.drop_first());
        }
    }
}

/// A client is accepted exactly where its first answer earns it, or leaves it to the program that
/// it runs and that program is found to be trusted. Nothing else that the server is told, and in
/// whatever order, makes a difference.
pub proof fn law_acceptance_is_earned(server: ServerView, events: Seq<ServerEventView>)
    requires
        server.stage is Answer,
    ensures
        accepted(server_actions(server, events)) <==> {
            &&& first_answer(events) matches Some((body, rest))
            &&& match server_verdict(
                server.mode,
                server.schema,
                server.stage->Answer_nonce,
                body,
            ) {
                ServerVerdict::Accept => true,
                ServerVerdict::Verify => first_outcome(rest) matches Some(Ok(_)),
                _ => false,
            }
        },
    decreases events.len(),
{
    if events.len() > 0 {
        let (next, action) = server_next(server, events[0]);
        law_server_ends_once(next, events.drop_first());
        lemma_accepted_now_or_later(action, server_actions(next, events.drop_first()));
        match next.stage {
            ServerStage::Over => law_server_stays_over(next, events.drop_first()),
            ServerStage::Program => lemma_program_is_awaited(next, events.drop_first()),
            ServerStage::Answer { pid, nonce } => law_acceptance_is_earned(
                next,
                events.drop_first(),
            ),
        }
    }
}

/// The process that is verified is the one that the transport reported for the peer, and the key is
/// the one of the server's mode: nothing that the client sends has a part in either.
pub proof fn law_the_reported_process_is_verified(
    mode: ModeView,
    schema: SchemaId,
    peer: PeerIdentity,
    transport: Seq<char>,
    nonce: Result<Seq<u8>, Seq<char>>,
    events: Seq<ServerEventView>,
    at: int,
)
    requires
        0 <= at < events.len(),
    ensures
        server_actions(server_start(mode, schema, peer, transport, nonce).0, events)[at] matches
            ServerActionView::Verify { pid, public_key } ==> peer == (PeerIdentity::Pid { pid })
            && mode == ModeView::SignedProcess(public_key),
{
    let server = server_start(mode, schema, peer, transport, nonce).0;
    if server.stage is Over {
        law_server_stays_over(server, events);
    } else {
        lemma_verified_process(server, events, at);
    }
}

proof fn lemma_verified_process(server: ServerView, events: Seq<ServerEventView>, at: int)
    requires
        server.wf(),
        server.stage is Answer,
        0 <= at < events.len(),
    ensures
        server_actions(server, events)[at] matches ServerActionView::Verify { pid, public_key }
            ==> server.stage->Answer_pid == Some(pid) && server.mode == ModeView::SignedProcess(
            public_key,
        ),
    decreases events.len(),
{
    let (next, action) = server_next(server, events[0]);
    law_server_ends_once(next, events.drop_first());
    if at > 0 {
        assert(server_actions(server, events)[at] == server_actions(
            next,
            events.drop_first(),
        )[at - 1]);
        match next.stage {
            ServerStage::Over => law_server_stays_over(next, events.drop_first()),
            ServerStage::Program => lemma_program_is_awaited(next, events.drop_first()),
            ServerStage::Answer { pid, nonce } => lemma_verified_process(
                next,
                events.drop_first(),
                at - 1,
            ),
        }
    }
}

/// A client that is done does nothing more, whatever it receives.
pub proof fn law_client_stays_over(client: ClientView, bodies: Seq<Seq<u8>>)
    requires
        client.stage is Over,
    ensures
        client_actions(client, bodies).len() == bodies.len(),
        forall|i: int|
            0 <= i < bodies.len() ==> (#[trigger] client_actions(client, bodies)[i]) is Ignore,
    decreases bodies.len(),
{
    if bodies.len() > 0 {
        law_client_stays_over(client, bodies.drop_first());
    }
}

/// A client answers at most once and ends once, whatever it receives. Once it has answered and
/// waits, the next packet ends the handshake.
pub proof fn law_client_answers_once(client: ClientView, bodies: Seq<Seq<u8>>)
    ensures
        client_actions(client, bodies).len() == bodies.len(),
        forall|i: int, j: int|
            0 <= i < j < bodies.len() && (#[trigger] client_actions(client, bodies)[i]).sends()
                ==> !(#[trigger] client_actions(client, bodies)[j]).sends(),
        forall|i: int, j: int|
            0 <= i < j < bodies.len() && (#[trigger] client_actions(client, bodies)[i]).ends()
                ==> (#[trigger] client_actions(client, bodies)[j]) is Ignore,
        client.stage is Acknowledgement ==> forall|i: int|
            0 <= i < bodies.len() ==> !(#[trigger] client_actions(client, bodies)[i]).sends(),
    decreases bodies.len(),
{
    if bodies.len() > 0 {
        let (next, action) = client_next(client, bodies[0]);
        law_client_answers_once(next, bodies.drop_first());
        if action.ends() {
            law_client_stays_over(next, bodies.drop_first());
        }
    }
}

/// Two sides with the same mode and the same schema come to an agreement: each of their packets
/// brings the other one step further, the server accepts, where it comes to that after it has found
/// the program of the reported process to be trusted, and the client finishes.
pub proof fn law_matching_sides_agree(
    mode: ModeView,
    schema: SchemaId,
    peer: PeerIdentity,
    transport: Seq<char>,
    nonce: Seq<u8>,
)
    requires
        nonce.len() == NONCE_LEN,
        !(mode is Disabled),
        mode is SignedProcess ==> peer is Pid,
    ensures
        ({
            let (server, opening) = server_start(mode, schema, peer, transport, Ok(nonce));
            let (client, waiting) = client_start(mode, schema);
            let hello = hello_body(mode, schema, nonce);
            let (client, answering) = client_next(client, hello);
            let answer = answer_body(mode, schema, nonce);
            let (server, verdict) = server_next(server, ServerEventView::Received(answer));
            let (_, trusted) = server_next(server, ServerEventView::Verified(Ok(())));
            let acknowledgement = ack_packet(ACK_OK, Seq::empty());
            let accept = ServerActionView::Accept { packet: framed(acknowledgement) };
            &&& opening == (ServerActionView::Exchange { packet: framed(hello) })
            &&& waiting is Receive
            &&& answering == (ClientActionView::Exchange { packet: framed(answer) })
            &&& match mode {
                ModeView::SignedProcess(public_key) => {
                    &&& verdict == (ServerActionView::Verify { pid: peer->pid, public_key })
                    &&& trusted == accept
                },
                _ => verdict == accept,
            }
            &&& client_next(client, acknowledgement).1 is Finish
        }),
{
    law_matching_sides_succeed(mode, schema, nonce);
}

/// Whenever a server refuses a client, the client can read it and fails with a rejection, whether
/// it waits for the hello or for the acknowledgement.
pub proof fn law_refusals_end_both_sides(
    server: ServerView,
    event: ServerEventView,
    client: ClientView,
)
    requires
        !(client.stage is Over),
    ensures
        server_next(server, event).1 matches ServerActionView::Reject { packet, failure } ==> {
            exists|body: Seq<u8>|
                {
                    &&& packet == #[trigger] framed(body)
                    &&& body.len() <= MAX_PACKET_LEN
                    &&& client_next(client, body).1 matches ClientActionView::Fail { failure }
                    &&& failure.0 == HandshakeError::Rejected
                    &&& failure.1 is Some
                }
        },
{
    match (server.stage, event) {
        (ServerStage::Answer { pid, nonce }, ServerEventView::Received(body)) => {
            law_refusals_are_heard(server.mode, server.schema, nonce, body);
            if let ServerVerdict::Reject { reason, failure } = server_verdict(
                server.mode,
                server.schema,
                nonce,
                body,
            ) {
                lemma_refusal_is_read(client, reason);
            }
        },
        (ServerStage::Program, ServerEventView::Verified(Err(failure))) => {
            reveal_strlit("signed-process verification failed");
            lemma_short_refusal("signed-process verification failed"@);
            lemma_refusal_is_read(client, encode_utf8("signed-process verification failed"@));
        },
        _ => {},
    }
}

proof fn lemma_refusal_is_read(client: ClientView, reason: Seq<u8>)
    requires
        !(client.stage is Over),
        ack_verdict(ack_packet(ACK_REJECTED, reason)) matches Err((error, Some(_))) && error
            == HandshakeError::Rejected,
    ensures
        client_next(client, ack_packet(ACK_REJECTED, reason)).1 matches ClientActionView::Fail {
            failure,
        } && failure.0 == HandshakeError::Rejected && failure.1 is Some,
{
}

/// How a server begins with a peer that it may talk to: it sends its hello with the nonce and waits
/// for the answer to exactly that nonce. It remembers the process that was reported where the
/// client is to be trusted for its program. Without a nonce it fails and sends nothing.
pub proof fn law_how_a_server_begins(
    mode: ModeView,
    schema: SchemaId,
    peer: PeerIdentity,
    transport: Seq<char>,
    nonce: Seq<u8>,
    error: Seq<char>,
)
    requires
        !(mode is Disabled),
        mode is SignedProcess ==> peer is Pid,
    ensures
        ({
            let (server, action) = server_start(mode, schema, peer, transport, Ok(nonce));
            &&& action == (ServerActionView::Exchange {
                packet: framed(hello_body(mode, schema, nonce)),
            })
            &&& server.mode == mode
            &&& server.schema == schema
            &&& server.stage matches ServerStage::Answer { pid, nonce: awaited }
            &&& awaited == nonce
            &&& mode is SignedProcess ==> pid == Some(peer->pid)
        }),
        ({
            let (server, action) = server_start(mode, schema, peer, transport, Err(error));
            &&& server.stage is Over
            &&& action == (ServerActionView::Fail {
                failure: (HandshakeError::Io, Some("failed to generate nonce: "@ + error)),
            })
        }),
{
}

/// Where the process of a peer is needed and not known, the failure names the transport.
pub proof fn law_unknown_peer_is_named_by_its_transport(
    public_key: Seq<u8>,
    schema: SchemaId,
    transport: Seq<char>,
    nonce: Result<Seq<u8>, Seq<char>>,
)
    ensures
        server_start(
            ModeView::SignedProcess(public_key),
            schema,
            PeerIdentity::Unknown,
            transport,
            nonce,
        ).1 == (ServerActionView::Fail {
            failure: (
                HandshakeError::PeerAttestationUnavailable,
                Some("transport: "@ + transport),
            ),
        }),
{
}

/// How a server answers a client: it does what the verdict on the answer says, and the local log
/// gets the verdict's own reason. An acceptance is the same eight bytes for every client.
pub proof fn law_how_a_server_answers(server: ServerView, body: Seq<u8>)
    requires
        server.wf(),
        server.stage is Answer,
    ensures
        ({
            let (next, action) = server_next(server, ServerEventView::Received(body));
            let nonce = server.stage->Answer_nonce;
            &&& next.mode == server.mode
            &&& next.schema == server.schema
            &&& match server_verdict(server.mode, server.schema, nonce, body) {
                ServerVerdict::Accept => {
                    &&& next.stage is Over
                    &&& action == (ServerActionView::Accept {
                        packet: seq![4u8, 0, 0, 0, 3, 0, 0, 0],
                    })
                },
                ServerVerdict::Reject { reason, failure } => {
                    &&& next.stage is Over
                    &&& action == (ServerActionView::Reject {
                        packet: framed(ack_packet(1, reason)),
                        failure,
                    })
                },
                ServerVerdict::Fail(failure) => {
                    &&& next.stage is Over
                    &&& action == (ServerActionView::Fail { failure })
                },
                ServerVerdict::Verify => {
                    &&& next.stage is Program
                    &&& action is Verify
                },
            }
        }),
{
    lemma_acceptance_bytes();
}

proof fn lemma_acceptance_bytes()
    ensures
        framed(ack_packet(ACK_OK, Seq::empty())) == seq![4u8, 0, 0, 0, 3, 0, 0, 0],
{
    reveal_with_fuel(le_bytes, 5);
    assert(ack_packet(ACK_OK, Seq::empty()) =~= seq![3u8, 0, 0, 0]);
    assert(framed(seq![3u8, 0, 0, 0]) =~= seq![4u8, 0, 0, 0, 3, 0, 0, 0]);
}

/// How a server concludes once the program of the client's process has been looked at: it accepts
/// one that is trusted and refuses all others, for the reason that was found. The client is not
/// told that reason.
pub proof fn law_how_a_server_concludes(server: ServerView, failure: Why)
    requires
        server.stage is Program,
    ensures
        server_next(server, ServerEventView::Verified(Ok(()))).1 == (ServerActionView::Accept {
            packet: seq![4u8, 0, 0, 0, 3, 0, 0, 0],
        }),
        server_next(server, ServerEventView::Verified(Err(failure))).1
            == (ServerActionView::Reject {
            packet: framed(ack_packet(1, encode_utf8("signed-process verification failed"@))),
            failure,
        }),
        server_next(server, ServerEventView::Verified(Ok(()))).0.stage is Over,
        server_next(server, ServerEventView::Verified(Err(failure))).0.stage is Over,
{
    lemma_acceptance_bytes();
}

/// What a server is told out of turn changes nothing.
pub proof fn law_out_of_turn_changes_nothing(server: ServerView, event: ServerEventView)
    requires
        server.stage is Over || (server.stage is Answer && event is Verified) || (
        server.stage is Program && event is Received),
    ensures
        server_next(server, event) == (server, ServerActionView::Ignore),
{
}

/// How a client begins, and how it goes on with each packet: it does what its verdict on the first
/// packet says, and what the acknowledgement says comes last.
pub proof fn law_how_a_client_goes_on(mode: ModeView, schema: SchemaId, body: Seq<u8>)
    requires
        !(mode is Disabled),
    ensures
        client_start(mode, schema) == (
            ClientView { mode, schema, stage: ClientStage::Hello },
            ClientActionView::Receive,
        ),
        client_start(ModeView::Disabled, schema).0.stage is Over,
        client_start(ModeView::Disabled, schema).1 is Finish,
        ({
            let hello = ClientView { mode, schema, stage: ClientStage::Hello };
            let (next, action) = client_next(hello, body);
            match client_verdict(mode, schema, body) {
                ClientVerdict::Finish => next.stage is Over && action is Finish,
                ClientVerdict::Fail(failure) => next.stage is Over && action
                    == (ClientActionView::Fail { failure }),
                ClientVerdict::Answer { body: answer, failure: Some(failure) } => {
                    &&& next.stage is Over
                    &&& action == (ClientActionView::SendThenFail {
                        packet: framed(answer),
                        failure,
                    })
                },
                ClientVerdict::Answer { body: answer, failure: None } => {
                    &&& next == (ClientView { mode, schema, stage: ClientStage::Acknowledgement })
                    &&& action == (ClientActionView::Exchange { packet: framed(answer) })
                },
            }
        }),
        ({
            let waiting = ClientView { mode, schema, stage: ClientStage::Acknowledgement };
            let (next, action) = client_next(waiting, body);
            &&& next.stage is Over
            &&& action is Finish <==> body.len() >= 4 && body[0] == 3 && body[1] == 0 && body.len()
                == 4 + body[2] + 0x100 * body[3]
            &&& ack_verdict(body) matches Err(failure) ==> action == (ClientActionView::Fail {
                failure,
            })
        }),
{
    law_ack_is_read_by_its_bytes(body, Seq::empty());
}

/// What the two sides are told and do is seen as what it is.
pub proof fn law_dialogue_views(
    packet: Vec<u8>,
    failure: HandshakeFailure,
    pid: u32,
    public_key: Rc<[u8]>,
)
    ensures
        ServerEvent::Received(packet)@ == ServerEventView::Received(packet@),
        ServerEvent::Verified(Ok(()))@ == ServerEventView::Verified(Ok(())),
        ServerEvent::Verified(Err(failure))@ == ServerEventView::Verified(Err(failure@)),
        (ServerAction::Exchange { packet })@ == (ServerActionView::Exchange { packet: packet@ }),
        (ServerAction::Verify { pid, public_key })@ == (ServerActionView::Verify {
            pid,
            public_key: (*public_key)@,
        }),
        (ServerAction::Accept { packet })@ == (ServerActionView::Accept { packet: packet@ }),
        (ServerAction::Reject { packet, failure })@ == (ServerActionView::Reject {
            packet: packet@,
            failure: failure@,
        }),
        (ServerAction::Fail { failure })@ == (ServerActionView::Fail { failure: failure@ }),
        ServerAction::Finish@ == ServerActionView::Finish,
        ServerAction::Ignore@ == ServerActionView::Ignore,
        ClientAction::Receive@ == ClientActionView::Receive,
        (ClientAction::Exchange { packet })@ == (ClientActionView::Exchange { packet: packet@ }),
        ClientAction::Finish@ == ClientActionView::Finish,
        (ClientAction::SendThenFail { packet, failure })@ == (ClientActionView::SendThenFail {
            packet: packet@,
            failure: failure@,
        }),
        (ClientAction::Fail { failure })@ == (ClientActionView::Fail { failure: failure@ }),
        ClientAction::Ignore@ == ClientActionView::Ignore,
{
}

} // verus!
