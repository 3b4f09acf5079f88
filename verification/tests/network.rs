use capnp::message::{Builder, HeapAllocator};
use ogurpchik::error::{ErrorKind, Exception, RemoteErrorKind, RpcError, WireCode};
use ogurpchik::rpc::batch::{Chunk, OutMessage};
use ogurpchik::rpc::network::{Action, Event, Side, Writer, BATCH_BYTES, BATCH_CHUNKS};
use ogurpchik::rpc::session::{session_outcome, DriverEnd};
use ogurpchik::rpc::default_reader_options;
use std::rc::Rc;

fn message(len: usize) -> OutMessage {
    let mut message = Builder::new(HeapAllocator::new());
    message
        .set_root::<capnp::data::Owned>(&vec![len as u8; len][..])
        .unwrap();
    OutMessage(Rc::new(message))
}

fn stock_bytes(messages: &[OutMessage]) -> Vec<u8> {
    let mut bytes = Vec::new();
    for message in messages {
        capnp::serialize::write_message(&mut bytes, &*message.0).unwrap();
    }
    bytes
}

fn concat(chunks: &[Chunk]) -> Vec<u8> {
    chunks.iter().flat_map(|chunk| chunk.as_init().to_vec()).collect()
}

#[test]
fn what_has_come_is_written_when_nothing_is_waiting() {
    let messages = [message(10), message(5000), message(20)];
    let mut writer = Writer::new();
    assert!(matches!(writer.on(Event::Idle), Action::Wait));
    for message in &messages {
        assert!(matches!(writer.on(Event::Message(message.clone())), Action::Poll));
    }
    let (chunks, acknowledge) = match writer.on(Event::Idle) {
        Action::Write { chunks, acknowledge } => (chunks, acknowledge),
        _ => panic!("there is something to write"),
    };
    assert_eq!(acknowledge, 3);
    assert_eq!(concat(&chunks), stock_bytes(&messages));
    assert!(matches!(writer.written(chunks), Action::Wait));
    assert!(matches!(writer.on(Event::Done), Action::Finish));
}

#[test]
fn what_has_come_is_written_before_the_end() {
    let mut writer = Writer::new();
    writer.on(Event::Message(message(1)));
    let chunks = match writer.on(Event::Done) {
        Action::Write { chunks, acknowledge: 1 } => chunks,
        _ => panic!("there is something to write"),
    };
    assert!(matches!(writer.written(chunks), Action::Finish));
}

#[test]
fn a_batch_is_written_when_it_has_enough_chunks() {
    let mut writer = Writer::new();
    let long = message(5000);
    let mut taken = 0;
    let chunks = loop {
        taken += 1;
        match writer.on(Event::Message(long.clone())) {
            Action::Poll => assert!(2 * taken < BATCH_CHUNKS),
            Action::Write { chunks, acknowledge } => {
                assert_eq!(acknowledge, taken);
                break chunks;
            }
            _ => panic!("the message can be framed"),
        }
    };
    assert_eq!(chunks.len(), BATCH_CHUNKS);
}

#[test]
fn a_batch_is_written_when_it_has_enough_bytes() {
    let mut writer = Writer::new();
    match writer.on(Event::Message(message(BATCH_BYTES))) {
        Action::Write { chunks, acknowledge } => {
            assert_eq!((chunks.len(), acknowledge), (2, 1));
        }
        _ => panic!("the batch is full"),
    }
    assert!(matches!(writer.on(Event::Message(message(1000))), Action::Poll));
}

#[test]
fn more_queued_segments_than_one_batch_holds_all_arrive() {
    let messages: Vec<_> = (0..300).map(|i| message(5000 + i)).collect();
    let mut writer = Writer::new();
    let mut wire = Vec::new();
    let mut acknowledged = 0;
    let mut write = |writer: &mut Writer, action: Action| {
        if let Action::Write { chunks, acknowledge } = action {
            wire.extend(concat(&chunks));
            acknowledged += acknowledge;
            writer.written(chunks);
        }
    };
    for message in &messages {
        let action = writer.on(Event::Message(message.clone()));
        write(&mut writer, action);
    }
    let action = writer.on(Event::Idle);
    write(&mut writer, action);
    assert_eq!(wire, stock_bytes(&messages));
    assert_eq!(acknowledged, 300);
}

#[test]
fn a_writer_writes_all_that_it_took_before_it_stops() {
    let messages: Vec<_> = (0..200).map(|i| message(100 * (i % 60))).collect();
    let mut waiting = messages.iter();
    let mut writer = Writer::new();
    let mut wire = Vec::new();
    let mut acknowledged = 0;
    let mut polls = 0;
    let mut action = Action::Wait;
    loop {
        action = match action {
            Action::Poll if polls % 7 == 6 => {
                polls += 1;
                writer.on(Event::Idle)
            }
            Action::Poll | Action::Wait => {
                polls += 1;
                match waiting.next() {
                    Some(message) => writer.on(Event::Message(message.clone())),
                    None => writer.on(Event::Done),
                }
            }
            Action::Write { chunks, acknowledge } => {
                wire.extend(concat(&chunks));
                acknowledged += acknowledge;
                writer.written(chunks)
            }
            Action::Finish => break,
            Action::Refuse => panic!("every message can be framed"),
        };
    }
    assert_eq!(wire, stock_bytes(&messages));
    assert_eq!(acknowledged, messages.len());
}

#[test]
fn a_message_that_cannot_be_framed_is_not_taken() {
    let mut writer = Writer::new();
    let empty = OutMessage(Rc::new(Builder::new(HeapAllocator::new())));
    assert!(matches!(writer.on(Event::Message(empty)), Action::Refuse));
    assert!(matches!(writer.on(Event::Idle), Action::Wait));
}

#[test]
fn a_connection_leads_to_the_other_end() {
    assert_eq!(Side::Server.peer(), Side::Client);
    assert_eq!(Side::Client.peer(), Side::Server);
    assert!(Side::Server.reaches(Side::Client));
    assert!(!Side::Server.reaches(Side::Server));
    assert!(!Side::Client.reaches(Side::Client));
}

#[test]
fn a_session_takes_messages_of_eight_megabytes() {
    let options = default_reader_options();
    assert_eq!(options.traversal_limit_in_words, Some(1024 * 1024));
    assert_eq!(options.nesting_limit, 32);
}

#[test]
fn the_end_of_a_session() {
    assert!(session_outcome(DriverEnd::Finished).is_ok());
    let failure = session_outcome(DriverEnd::Failed(Exception {
        kind: ErrorKind::Disconnected,
        extra: "[ogurpchik:internal] gone".to_string(),
    }))
    .unwrap_err();
    assert_eq!(
        failure.error,
        RpcError::Remote {
            kind: RemoteErrorKind::Disconnected,
            code: Some(WireCode::Internal),
        }
    );
    assert_eq!(failure.message.unwrap().0, "gone");
    let failure = session_outcome(DriverEnd::Panicked("boom".to_string())).unwrap_err();
    assert_eq!(failure.error, RpcError::Setup);
    assert_eq!(failure.detail.unwrap(), "rpc driver task panicked: boom");
}
