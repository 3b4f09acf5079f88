use capnp::message::{AllocationStrategy, Builder, HeapAllocator, ReaderSegments};
use capnp::serialize::OwnedSegments;
use ogurpchik::rpc::batch::{Batch, Chunk, OutMessage, SPARE_BUDGET};
use ogurpchik::rpc::frame::{FrameError, SEGMENTS_COUNT_LIMIT};
use ogurpchik::rpc::inbound::{Inbound, ReaderOptions, Step};
use ogurpchik::rpc::stream::{self, read_all, Trickle};
use std::rc::Rc;

struct Dice(u64);

impl Dice {
    fn roll(&mut self, sides: usize) -> usize {
        self.0 = self
            .0
            .wrapping_mul(6364136223846793005)
            .wrapping_add(1442695040888963407);
        ((self.0 >> 33) as usize) % sides
    }

    fn blob(&mut self, most: usize) -> Vec<u8> {
        let len = self.roll(most);
        (0..len).map(|_| self.roll(256) as u8).collect()
    }

    fn message(&mut self) -> OutMessage {
        let mut message = Builder::new(
            HeapAllocator::new()
                .first_segment_words(1 + self.roll(23) as u32)
                .allocation_strategy(AllocationStrategy::FixedSize),
        );
        let count = self.roll(6);
        let mut list = message.initn_root::<capnp::data_list::Builder<'_>>(count as u32);
        for index in 0..count {
            let blob = self.blob(700);
            list.set(index as u32, &blob);
        }
        OutMessage(Rc::new(message))
    }

    fn messages(&mut self) -> Vec<OutMessage> {
        let count = 1 + self.roll(5);
        (0..count).map(|_| self.message()).collect()
    }

    fn steps(&mut self) -> Vec<usize> {
        let count = 1 + self.roll(7);
        (0..count).map(|_| 1 + self.roll(399)).collect()
    }
}

const ROUNDS: usize = 120;

fn unlimited() -> ReaderOptions {
    let stock = capnp::message::ReaderOptions::new();
    ReaderOptions {
        traversal_limit_in_words: stock.traversal_limit_in_words,
        nesting_limit: stock.nesting_limit,
    }
}

fn stock_bytes(messages: &[OutMessage]) -> Vec<u8> {
    let mut bytes = Vec::new();
    for message in messages {
        capnp::serialize::write_message(&mut bytes, &*message.0).unwrap();
    }
    bytes
}

fn written_segments(message: &OutMessage) -> Vec<Vec<u8>> {
    message
        .0
        .get_segments_for_output()
        .iter()
        .map(|segment| segment.to_vec())
        .collect()
}

fn read_segments(message: &OwnedSegments) -> Vec<Vec<u8>> {
    (0..message.len())
        .filter_map(|id| message.get_segment(id as u32))
        .map(<[u8]>::to_vec)
        .collect()
}

fn concat(chunks: &[Chunk]) -> Vec<u8> {
    chunks.iter().flat_map(|chunk| chunk.as_init().to_vec()).collect()
}

fn outcome(
    stream: &[u8],
    steps: &[usize],
    capacity: usize,
    options: ReaderOptions,
) -> (Vec<Vec<Vec<u8>>>, Result<(), FrameError>) {
    let (messages, end) = read_all(stream, steps, capacity, options);
    (messages.iter().map(read_segments).collect(), end)
}

fn stock(
    stream: &[u8],
    options: ReaderOptions,
) -> (Vec<Vec<Vec<u8>>>, Result<(), capnp::ErrorKind>) {
    let mut stock_options = capnp::message::ReaderOptions::new();
    stock_options.traversal_limit_in_words(options.traversal_limit_in_words);
    let mut rest = stream;
    let mut messages = Vec::new();
    loop {
        match capnp::serialize::try_read_message(&mut rest, stock_options) {
            Ok(Some(message)) => messages.push(read_segments(&message.into_segments())),
            Ok(None) => return (messages, Ok(())),
            Err(error) if error.kind == capnp::ErrorKind::FailedToFillTheWholeBuffer => {
                return (messages, Err(capnp::ErrorKind::PrematureEndOfFile));
            }
            Err(error) => return (messages, Err(error.kind)),
        }
    }
}

fn kind(error: FrameError) -> capnp::ErrorKind {
    match error {
        FrameError::InvalidNumberOfSegments(count) => {
            capnp::ErrorKind::InvalidNumberOfSegments(count)
        }
        FrameError::MessageSizeOverflow => capnp::ErrorKind::MessageSizeOverflow,
        FrameError::MessageTooLarge(words) => capnp::ErrorKind::MessageTooLarge(words),
        FrameError::PrematureEndOfFile => capnp::ErrorKind::PrematureEndOfFile,
    }
}

#[test]
fn the_segment_limit_is_that_of_capnp() {
    assert_eq!(SEGMENTS_COUNT_LIMIT, capnp::serialize::SEGMENTS_COUNT_LIMIT);
}

#[test]
fn a_batch_is_byte_for_byte_what_capnp_serialize_writes() {
    let mut dice = Dice(1);
    for _ in 0..ROUNDS {
        let messages = dice.messages();
        let expected = stock_bytes(&messages);
        let inline_limit = dice.roll(2048);
        let mut batch = Batch::new(inline_limit);
        for _round in 0..2 {
            for message in &messages {
                batch.push(message);
            }
            assert_eq!(batch.byte_count(), expected.len());
            let chunks = batch.take();
            assert!(chunks.iter().all(|chunk| !chunk.as_init().is_empty()));
            assert!(chunks.iter().all(|chunk| match chunk {
                Chunk::Segment(segment) => segment.as_init().len() > inline_limit,
                Chunk::Inline(_) => true,
            }));
            assert_eq!(concat(&chunks), expected);
            batch.recycle(chunks);
            assert!(batch.is_empty());
        }
    }
}

#[test]
fn inbound_reads_back_what_capnp_serialize_wrote() {
    let mut dice = Dice(2);
    for _ in 0..ROUNDS {
        let messages = dice.messages();
        let steps = dice.steps();
        let capacity = 8 + dice.roll(2040);
        let expected: Vec<_> = messages.iter().map(written_segments).collect();
        assert_eq!(
            outcome(&stock_bytes(&messages), &steps, capacity, unlimited()),
            (expected, Ok(()))
        );
    }
}

#[test]
fn inbound_reads_back_what_a_batch_wrote() {
    let mut dice = Dice(3);
    for _ in 0..ROUNDS {
        let messages = dice.messages();
        let steps = dice.steps();
        let capacity = 8 + dice.roll(2040);
        let mut batch = Batch::new(dice.roll(2048));
        for message in &messages {
            assert!(batch.try_push(message));
        }
        let expected: Vec<_> = messages.iter().map(written_segments).collect();
        assert_eq!(
            outcome(&concat(&batch.take()), &steps, capacity, unlimited()),
            (expected, Ok(()))
        );
    }
}

#[test]
fn a_stream_cut_inside_a_message_fails_and_on_a_boundary_ends() {
    let mut dice = Dice(4);
    for _ in 0..ROUNDS {
        let messages = dice.messages();
        let bytes = stock_bytes(&messages);
        let mut boundaries = vec![0];
        for message in &messages {
            let words = capnp::serialize::compute_serialized_size_in_words(&*message.0);
            boundaries.push(boundaries.last().unwrap() + words * 8);
        }
        let any = dice.roll(bytes.len() + 1);
        let boundary = boundaries[dice.roll(boundaries.len())];
        for cut in [any, boundary] {
            let complete = boundaries.iter().filter(|&&end| end <= cut).count() - 1;
            let steps = dice.steps();
            let capacity = 8 + dice.roll(2040);
            let expected: Vec<_> = messages[..complete].iter().map(written_segments).collect();
            let end = if boundaries.contains(&cut) {
                Ok(())
            } else {
                Err(FrameError::PrematureEndOfFile)
            };
            assert_eq!(
                outcome(&bytes[..cut], &steps, capacity, unlimited()),
                (expected, end)
            );
        }
    }
}

#[test]
fn inbound_accepts_exactly_what_capnp_accepts() {
    let mut dice = Dice(5);
    let counts = [0u32, 1, 2, 3, 4, 5, 509, 510, 511, 512, 513, u32::MAX];
    for _ in 0..4 * ROUNDS {
        let mut arbitrary = counts[dice.roll(counts.len())].to_le_bytes().to_vec();
        for _ in 0..dice.roll(8) {
            let length = match dice.roll(8) {
                0 => 1 << 20,
                1 => u32::MAX,
                _ => dice.roll(40) as u32,
            };
            arbitrary.extend_from_slice(&length.to_le_bytes());
        }
        arbitrary.extend_from_slice(&dice.blob(700));
        let valid = stock_bytes(&dice.messages());
        let bytes = if dice.roll(2) == 0 {
            [valid, arbitrary].concat()
        } else {
            [arbitrary, valid].concat()
        };
        let options = ReaderOptions {
            traversal_limit_in_words: Some(dice.roll(3000)),
            nesting_limit: 64,
        };
        let steps = dice.steps();
        let (messages, end) = outcome(&bytes, &steps, dice.roll(2048), options);
        let (theirs, their_end) = stream::stock(&bytes, options);
        let theirs: Vec<_> = theirs.iter().map(read_segments).collect();
        assert_eq!((&messages, end), (&theirs, their_end));
        assert_eq!((messages, end.map_err(kind)), stock(&bytes, options));
    }
}

#[test]
fn every_refusal_of_a_frame() {
    let bounded = ReaderOptions { traversal_limit_in_words: Some(10), nesting_limit: 64 };
    assert_eq!(
        outcome(&[0xff; 8], &[], 64, bounded),
        (vec![], Err(FrameError::InvalidNumberOfSegments(0)))
    );
    assert_eq!(
        outcome(&[0xff, 1, 0, 0, 0, 0, 0, 0], &[], 64, bounded),
        (vec![], Err(FrameError::InvalidNumberOfSegments(512)))
    );
    assert_eq!(
        outcome(&[0, 0, 0, 0, 11, 0, 0, 0], &[], 64, bounded),
        (vec![], Err(FrameError::MessageTooLarge(11)))
    );
    assert_eq!(
        outcome(&[0, 0, 0], &[], 64, bounded),
        (vec![], Err(FrameError::PrematureEndOfFile))
    );
    assert_eq!(outcome(&[], &[], 64, bounded), (vec![], Ok(())));
}

#[test]
fn a_frame_of_known_bytes() {
    let stream = [
        1, 0, 0, 0, 1, 0, 0, 0, 0, 0, 0, 0, 0, 0, 0, 0, 1, 2, 3, 4, 5, 6, 7, 8, 9,
    ];
    assert_eq!(
        outcome(&stream, &[], 64, unlimited()),
        (
            vec![vec![vec![1, 2, 3, 4, 5, 6, 7, 8], vec![]]],
            Err(FrameError::PrematureEndOfFile)
        )
    );
}

#[test]
fn padding_of_the_segment_table_is_ignored() {
    let stream = [1, 0, 0, 0, 0, 0, 0, 0, 0, 0, 0, 0, 9, 9, 9, 9];
    assert_eq!(
        outcome(&stream, &[], 64, unlimited()),
        (vec![vec![vec![], vec![]]], Ok(()))
    );
}

#[test]
fn a_large_body_is_read_directly_and_a_small_one_is_staged() {
    let small = [0u8, 0, 0, 0, 2, 0, 0, 0];
    let mut inbound = Inbound::new(unlimited(), 16);
    assert!(matches!(inbound.next(), Ok(Step::Fill { .. })));
    assert_eq!(inbound.fill(small.to_vec(), 8), Ok(true));
    let staging = match inbound.next() {
        Ok(Step::Fill { staging, wanted: 16 }) => staging,
        _ => panic!("a body of the capacity is staged"),
    };
    assert!(staging.is_empty());
    assert_eq!(inbound.fill(staging, 0), Err(FrameError::PrematureEndOfFile));

    let mut inbound = Inbound::new(unlimited(), 8);
    assert_eq!(inbound.fill([&small[..], &[7, 7, 7]].concat(), 11), Ok(true));
    let mut body = match inbound.next() {
        Ok(Step::ReadBody(body)) => body,
        _ => panic!("a body over the capacity is read directly"),
    };
    assert_eq!(body.as_init(), [7, 7, 7]);
    assert_eq!(body.as_uninit().len(), 16);
    body.as_uninit()[3..].fill(8);
    body.set_len(16);
    let message = body.into_segments().unwrap();
    assert_eq!(
        read_segments(&message),
        vec![vec![7, 7, 7, 8, 8, 8, 8, 8, 8, 8, 8, 8, 8, 8, 8, 8]]
    );
    assert_eq!(inbound.fill(Vec::new(), 0), Ok(false));
}

#[test]
fn a_body_that_is_not_read_to_the_end_is_no_message() {
    let mut inbound = Inbound::new(unlimited(), 0);
    assert_eq!(inbound.fill(vec![0, 0, 0, 0, 1, 0, 0, 0, 5], 9), Ok(true));
    let body = match inbound.next() {
        Ok(Step::ReadBody(body)) => body,
        _ => panic!("nothing fits in no capacity"),
    };
    assert!(matches!(body.into_segments(), Err(FrameError::PrematureEndOfFile)));
}

#[test]
fn a_refused_frame_is_not_consumed() {
    let mut inbound = Inbound::new(unlimited(), 64);
    assert_eq!(inbound.fill(vec![0xff; 8], 8), Ok(true));
    for _ in 0..2 {
        assert!(matches!(inbound.next(), Err(FrameError::InvalidNumberOfSegments(0))));
    }
}

#[test]
fn a_staging_buffer_has_room_for_what_is_needed() {
    let mut inbound = Inbound::new(unlimited(), 0);
    match inbound.next() {
        Ok(Step::Fill { staging, wanted }) => {
            assert_eq!(wanted, 8);
            assert!(staging.capacity() >= wanted);
        }
        _ => panic!("nothing has been read"),
    }
    assert_eq!(inbound.fill(vec![0xfe, 1, 0, 0, 0, 0, 0, 0], 8), Ok(true));
    match inbound.next() {
        Ok(Step::Fill { staging, wanted }) => {
            assert_eq!(wanted, 2048);
            assert!(staging.capacity() >= wanted);
        }
        _ => panic!("the table is not there"),
    }
}

#[test]
fn a_staging_buffer_has_room_for_the_capacity() {
    let bytes = [&[0, 0, 0, 0, 3, 0, 0, 0][..], &[7; 12]].concat();
    for held in [0, 5, 9, 20] {
        let mut inbound = Inbound::new(unlimited(), 100);
        assert_eq!(inbound.fill(bytes[..held].to_vec(), 1), Ok(true));
        match inbound.next() {
            Ok(Step::Fill { staging, wanted }) => {
                assert_eq!((wanted, staging.len()), (100, held - if held < 8 { 0 } else { 8 }));
                assert!(staging.capacity() >= wanted);
            }
            _ => panic!("the message is not there"),
        }
    }
}

#[test]
fn a_message_that_breaks_off_in_its_body_is_given_up_with_its_table() {
    let table = [0u8, 0, 0, 0, 2, 0, 0, 0];
    let breaks_off = |part: &[u8], failed: bool| {
        let mut inbound = Inbound::new(unlimited(), 64);
        assert_eq!(inbound.fill([&table[..], part].concat(), 1), Ok(true));
        let staging = match inbound.next() {
            Ok(Step::Fill { staging, .. }) => staging,
            _ => panic!("the body is not there"),
        };
        assert_eq!(staging, part);
        if failed {
            inbound.abandon(staging);
        } else {
            assert_eq!(inbound.fill(staging, 0), Err(FrameError::PrematureEndOfFile));
        }
        match inbound.next() {
            Ok(Step::Fill { staging, .. }) => {
                assert_eq!(staging, part);
                inbound.fill(staging, 0)
            }
            Ok(_) => panic!("there is no message"),
            Err(error) => Err(error),
        }
    };
    for failed in [false, true] {
        assert_eq!(breaks_off(&[], failed), Ok(false));
        assert_eq!(breaks_off(&[7; 3], failed), Err(FrameError::PrematureEndOfFile));
        assert_eq!(
            breaks_off(&[0xff; 8], failed),
            Err(FrameError::InvalidNumberOfSegments(0))
        );
    }
}

#[test]
fn capnp_reads_the_same_off_a_stream() {
    let bounded = ReaderOptions { traversal_limit_in_words: Some(3), nesting_limit: 64 };
    let message = [0u8, 0, 0, 0, 1, 0, 0, 0, 1, 2, 3, 4, 5, 6, 7, 8];
    let read = |bytes: &[u8]| {
        let (messages, end) = stream::stock(bytes, bounded);
        (messages.iter().map(read_segments).collect::<Vec<_>>(), end)
    };
    let one = vec![vec![vec![1, 2, 3, 4, 5, 6, 7, 8]]];
    assert_eq!(read(&[]), (vec![], Ok(())));
    assert_eq!(read(&message), (one.clone(), Ok(())));
    assert_eq!(
        read(&[&message[..], &[0]].concat()),
        (one.clone(), Err(FrameError::PrematureEndOfFile))
    );
    assert_eq!(
        read(&[&message[..], &[0xff; 8]].concat()),
        (one.clone(), Err(FrameError::InvalidNumberOfSegments(0)))
    );
    assert_eq!(
        read(&[&message[..], &[0, 0, 0, 0, 4, 0, 0, 0]].concat()),
        (one, Err(FrameError::MessageTooLarge(4)))
    );
}

#[test]
fn whether_messages_fit_in_the_address_space() {
    let limited = |limit| ReaderOptions { traversal_limit_in_words: limit, nesting_limit: 64 };
    assert!(limited(Some(1 << 20)).is_addressable());
    assert_eq!(limited(None).is_addressable(), usize::BITS == 64);
    assert_eq!(limited(Some(usize::MAX)).is_addressable(), usize::BITS == 64);
}

#[test]
fn buffers_are_kept_up_to_the_budget() {
    let mut batch = Batch::new(64);
    batch.keep(Vec::with_capacity(100), SPARE_BUDGET);
    batch.keep(Vec::with_capacity(100), 1);
    let mut dice = Dice(11);
    let message = dice.message();
    for _ in 0..3 {
        batch.push(&message);
        let chunks = batch.take();
        assert_eq!(concat(&chunks), stock_bytes(&[message.clone()]));
        batch.recycle(chunks);
    }
}

#[test]
fn buffers_come_back_with_their_capacities() {
    let mut dice = Dice(12);
    let message = dice.message();
    let mut batch = Batch::new(0);
    let mut fresh = Batch::new(0);
    for capacity in [0, 1, SPARE_BUDGET, usize::MAX] {
        batch.push(&message);
        let chunks = batch.take();
        let capacities = vec![capacity; chunks.len()];
        batch.recycle_sized(chunks, &capacities);
        assert!(batch.is_empty());
        assert_eq!((batch.chunk_count(), batch.byte_count()), (0, 0));
    }
    batch.push(&message);
    fresh.push(&message);
    assert_eq!(batch.chunk_count(), fresh.chunk_count());
    assert_eq!(batch.byte_count(), fresh.byte_count());
    assert_eq!(concat(&batch.take()), concat(&fresh.take()));
}

#[test]
fn a_trickle_gives_out_its_steps() {
    let data = [1, 2, 3, 4, 5, 6];
    let steps = [2, 0, 9];
    let mut trickle = Trickle::new(&data, &steps);
    assert_eq!(trickle.read(usize::MAX), [1, 2]);
    assert_eq!(trickle.read(usize::MAX), [3]);
    assert_eq!(trickle.read(2), [4, 5]);
    assert_eq!(trickle.read(usize::MAX), [6]);
    assert!(trickle.read(usize::MAX).is_empty());
}

#[test]
fn a_message_without_segments_is_not_taken() {
    let mut batch = Batch::new(64);
    let empty = OutMessage(Rc::new(Builder::new(HeapAllocator::new())));
    assert!(!batch.try_push(&empty));
    assert!(batch.is_empty());
    assert_eq!((batch.chunk_count(), batch.byte_count()), (0, 0));
}

#[test]
fn short_segments_are_copied_together_and_long_ones_are_not() {
    let mut dice = Dice(9);
    let message = dice.message();
    let mut all = Batch::new(usize::MAX);
    all.push(&message);
    all.push(&message);
    assert_eq!(all.chunk_count(), 1);
    let mut none = Batch::new(0);
    none.push(&message);
    let filled = written_segments(&message).iter().filter(|segment| !segment.is_empty()).count();
    assert_eq!(none.chunk_count(), 1 + filled);
}
