//! The stream framing of Cap'n Proto messages.
//!
//! A message is a list of segments, each a whole number of eight-byte words. On the wire a
//! segment table comes first: the number of segments less one, then the length of each segment
//! in words, all as 32-bit little-endian numbers, padded with zeros to whole words. The segments
//! follow, one after the other.

use crate::bytes::{
    law_le_read_back, law_le_value_of_few, le_bytes, le_value, lemma_le_len, lemma_le_spans,
    lemma_le_value_bound,
};
use vstd::prelude::*;

verus! {

/// Bytes in a word.
pub const WORD: usize = 8;

/// A message has fewer segments than this.
pub const SEGMENTS_COUNT_LIMIT: usize = 512;

/// Why a frame cannot be read.
#[derive(Debug, Clone, Copy, PartialEq, Eq, Structural)]
pub enum FrameError {
    /// The segment table claims this many segments.
    InvalidNumberOfSegments(usize),
    /// The segment lengths add up to more than the address space.
    MessageSizeOverflow,
    /// The segments hold this many words, more than the traversal limit.
    MessageTooLarge(usize),
    /// The stream ended inside a message.
    PrematureEndOfFile,
}

/// What the front of a byte stream holds.
pub enum Parse {
    /// Too little to tell: more bytes are needed.
    Incomplete,
    /// No continuation of these bytes is acceptable.
    Refused(FrameError),
    /// A whole message, and how many bytes it takes up.
    Complete { segments: Seq<Seq<u8>>, consumed: nat },
}

/// The length of the segment table of a message with `count` segments.
pub open spec fn table_len(count: nat) -> nat {
    (4 * (count + 1) + 7) / 8 * 8
}

/// The sum of `lengths`.
pub open spec fn total(lengths: Seq<nat>) -> nat
    decreases lengths.len(),
{
    if lengths.len() == 0 {
        0
    } else {
        total(lengths.drop_last()) + lengths.last()
    }
}

/// The lengths of `segments` in words.
pub open spec fn word_lengths(segments: Seq<Seq<u8>>) -> Seq<nat> {
    Seq::new(segments.len(), |i: int| segments[i].len() / 8)
}

/// Each of `lengths` as a 32-bit number.
pub open spec fn length_fields(lengths: Seq<nat>) -> Seq<u8>
    decreases lengths.len(),
{
    if lengths.len() == 0 {
        Seq::empty()
    } else {
        length_fields(lengths.drop_last()) + le_bytes(lengths.last(), 4)
    }
}

/// The zeros that fill the last word of a segment table.
pub open spec fn table_padding(count: nat) -> Seq<u8> {
    if count % 2 == 0 {
        seq![0u8, 0u8, 0u8, 0u8]
    } else {
        Seq::empty()
    }
}

/// The segment table of a message.
pub open spec fn table(segments: Seq<Seq<u8>>) -> Seq<u8>
    recommends
        segments.len() > 0,
{
    le_bytes((segments.len() - 1) as nat, 4) + length_fields(word_lengths(segments))
        + table_padding(segments.len())
}

/// The bytes of `segments` one after the other.
pub open spec fn body(segments: Seq<Seq<u8>>) -> Seq<u8>
    decreases segments.len(),
{
    if segments.len() == 0 {
        Seq::empty()
    } else {
        body(segments.drop_last()) + segments.last()
    }
}

/// A message as it goes over the wire.
pub open spec fn frame(segments: Seq<Seq<u8>>) -> Seq<u8> {
    table(segments) + body(segments)
}

/// Messages as they go over the wire.
pub open spec fn frames(messages: Seq<Seq<Seq<u8>>>) -> Seq<u8>
    decreases messages.len(),
{
    if messages.len() == 0 {
        Seq::empty()
    } else {
        frame(messages[0]) + frames(messages.drop_first())
    }
}

/// The number of segments that a segment table announces.
pub open spec fn announced_count(stream: Seq<u8>) -> nat {
    (le_value(stream.subrange(0, 4)) + 1) % 0x1_0000_0000
}

/// The first `count` lengths that a segment table announces.
pub open spec fn announced_lengths(stream: Seq<u8>, count: nat) -> Seq<nat> {
    Seq::new(count, |i: int| le_value(stream.subrange(4 * (i + 1), 4 * (i + 1) + 4)))
}

/// Cuts `bytes` into segments of the given lengths in words.
pub open spec fn split(bytes: Seq<u8>, lengths: Seq<nat>) -> Seq<Seq<u8>> {
    Seq::new(
        lengths.len(),
        |i: int|
            bytes.subrange(
                8 * total(lengths.subrange(0, i)) as int,
                8 * total(lengths.subrange(0, i + 1)) as int,
            ),
    )
}

/// Whether a message of `words` words is within the traversal limit.
pub open spec fn within(limit: Option<usize>, words: nat) -> bool {
    limit matches Some(most) ==> words <= most
}

/// What the front of `stream` holds, for a reader with the given traversal limit in words.
#[verifier::opaque]
pub open spec fn read_frame(stream: Seq<u8>, limit: Option<usize>) -> Parse {
    let count = announced_count(stream);
    let lengths = announced_lengths(stream, count);
    let words = total(lengths);
    if stream.len() < 8 {
        Parse::Incomplete
    } else if count == 0 || count >= SEGMENTS_COUNT_LIMIT {
        Parse::Refused(FrameError::InvalidNumberOfSegments(count as usize))
    } else if stream.len() < table_len(count) {
        Parse::Incomplete
    } else if words > usize::MAX {
        Parse::Refused(FrameError::MessageSizeOverflow)
    } else if !within(limit, words) {
        Parse::Refused(FrameError::MessageTooLarge(words as usize))
    } else if stream.len() < table_len(count) + 8 * words {
        Parse::Incomplete
    } else {
        Parse::Complete {
            segments: split(
                stream.subrange(table_len(count) as int, (table_len(count) + 8 * words) as int),
                lengths,
            ),
            consumed: table_len(count) + 8 * words,
        }
    }
}

/// How a stream of messages ends.
pub enum StreamEnd {
    /// Between two messages.
    Clean,
    /// Inside a message.
    Truncated,
    /// With a message that cannot be accepted.
    Refused(FrameError),
}

/// The messages that `stream` holds, and how it ends.
pub open spec fn read_stream(stream: Seq<u8>, limit: Option<usize>) -> (
    Seq<Seq<Seq<u8>>>,
    StreamEnd,
)
    decreases stream.len(),
{
    proof {
        lemma_consumed(stream, limit);
    }
    if stream.len() == 0 {
        (Seq::empty(), StreamEnd::Clean)
    } else {
        match read_frame(stream, limit) {
            Parse::Incomplete => (Seq::empty(), StreamEnd::Truncated),
            Parse::Refused(error) => (Seq::empty(), StreamEnd::Refused(error)),
            Parse::Complete { segments, consumed } => {
                let rest = read_stream(stream.skip(consumed as int), limit);
                (seq![segments] + rest.0, rest.1)
            },
        }
    }
}

/// Whether a peer with the given traversal limit accepts a message of these segments.
pub open spec fn acceptable(segments: Seq<Seq<u8>>, limit: Option<usize>) -> bool {
    &&& 0 < segments.len() < SEGMENTS_COUNT_LIMIT
    &&& whole_words(segments)
    &&& total(word_lengths(segments)) <= usize::MAX
    &&& within(limit, total(word_lengths(segments)))
}

/// Whether every segment is a whole number of words that a table entry can hold.
pub open spec fn whole_words(segments: Seq<Seq<u8>>) -> bool {
    forall|i: int|
        0 <= i < segments.len() ==> (#[trigger] segments[i]).len() % 8 == 0 && segments[i].len() / 8
            <= u32::MAX
}

pub proof fn lemma_table_len(count: nat)
    ensures
        table_len(count) == 8 * (count / 2 + 1),
        table_len(count) == 4 + 4 * count + table_padding(count).len(),
        table_len(count) >= 8 || count == 0,
{
}

pub proof fn lemma_length_fields(lengths: Seq<nat>)
    ensures
        length_fields(lengths).len() == 4 * lengths.len(),
        forall|i: int|
            0 <= i < lengths.len() ==> #[trigger] length_fields(lengths).subrange(4 * i, 4 * i + 4)
                == le_bytes(lengths[i], 4),
    decreases lengths.len(),
{
    if lengths.len() > 0 {
        let front = lengths.drop_last();
        lemma_length_fields(front);
        lemma_le_len(lengths.last(), 4);
        assert forall|i: int| 0 <= i < lengths.len() implies #[trigger] length_fields(
            lengths,
        ).subrange(4 * i, 4 * i + 4) == le_bytes(lengths[i], 4) by {
            if i < front.len() {
                assert(length_fields(lengths).subrange(4 * i, 4 * i + 4) =~= length_fields(
                    front,
                ).subrange(4 * i, 4 * i + 4));
            } else {
                assert(length_fields(lengths).subrange(4 * i, 4 * i + 4) =~= le_bytes(
                    lengths.last(),
                    4,
                ));
            }
        }
    }
}

pub proof fn lemma_table_is_table_len(segments: Seq<Seq<u8>>)
    ensures
        table(segments).len() == table_len(segments.len()),
{
    lemma_length_fields(word_lengths(segments));
    lemma_le_len((segments.len() - 1) as nat, 4);
    lemma_table_len(segments.len());
}

pub proof fn lemma_total_front(lengths: Seq<nat>, i: int)
    requires
        0 <= i <= lengths.len(),
    ensures
        total(lengths.subrange(0, i)) <= total(lengths),
        i < lengths.len() ==> total(lengths.subrange(0, i + 1)) == total(lengths.subrange(0, i))
            + lengths[i],
    decreases lengths.len(),
{
    if i < lengths.len() {
        assert(lengths.subrange(0, i + 1).drop_last() =~= lengths.subrange(0, i));
        lemma_total_front(lengths.drop_last(), i);
        assert(lengths.drop_last().subrange(0, i) =~= lengths.subrange(0, i));
    } else {
        assert(lengths.subrange(0, i) =~= lengths);
    }
}

pub proof fn lemma_body_len(segments: Seq<Seq<u8>>)
    requires
        whole_words(segments),
    ensures
        body(segments).len() == 8 * total(word_lengths(segments)),
    decreases segments.len(),
{
    if segments.len() > 0 {
        let front = segments.drop_last();
        assert(whole_words(front)) by {
            assert forall|i: int| 0 <= i < front.len() implies (#[trigger] front[i]).len() % 8 == 0
                && front[i].len() / 8 <= u32::MAX by {
                assert(front[i] == segments[i]);
            }
        }
        lemma_body_len(front);
        assert(word_lengths(segments).drop_last() =~= word_lengths(front));
        assert(segments.last() == segments[segments.len() - 1]);
    }
}

/// Cutting the bytes of a message at its segment lengths gives the segments.
pub proof fn lemma_split_body(segments: Seq<Seq<u8>>)
    requires
        whole_words(segments),
    ensures
        split(body(segments), word_lengths(segments)) == segments,
    decreases segments.len(),
{
    let lengths = word_lengths(segments);
    lemma_body_len(segments);
    if segments.len() > 0 {
        let front = segments.drop_last();
        assert(whole_words(front)) by {
            assert forall|i: int| 0 <= i < front.len() implies (#[trigger] front[i]).len() % 8 == 0
                && front[i].len() / 8 <= u32::MAX by {
                assert(front[i] == segments[i]);
            }
        }
        lemma_split_body(front);
        lemma_body_len(front);
        assert(lengths.drop_last() =~= word_lengths(front));
        assert forall|i: int| 0 <= i < segments.len() implies #[trigger] split(
            body(segments),
            lengths,
        )[i] == segments[i] by {
            lemma_total_front(lengths, i);
            if i < front.len() {
                let shorter = word_lengths(front);
                lemma_total_front(shorter, i);
                lemma_total_front(shorter, i + 1);
                assert(lengths.subrange(0, i) =~= shorter.subrange(0, i));
                assert(lengths.subrange(0, i + 1) =~= shorter.subrange(0, i + 1));
                assert(split(body(front), shorter)[i] == front[i]);
                assert(split(body(segments), lengths)[i] =~= split(body(front), shorter)[i]);
            } else {
                assert(lengths.subrange(0, i) =~= word_lengths(front));
                assert(lengths.subrange(0, i + 1) =~= lengths);
                assert(split(body(segments), lengths)[i] =~= segments.last());
            }
        }
    }
    assert(split(body(segments), lengths) =~= segments);
}

/// Bytes cut at whole-word lengths have those lengths.
proof fn lemma_split_lengths(bytes: Seq<u8>, lengths: Seq<nat>)
    requires
        bytes.len() == 8 * total(lengths),
        forall|i: int| 0 <= i < lengths.len() ==> #[trigger] lengths[i] <= u32::MAX,
    ensures
        word_lengths(split(bytes, lengths)) == lengths,
        whole_words(split(bytes, lengths)),
{
    let segments = split(bytes, lengths);
    assert forall|i: int| 0 <= i < segments.len() implies (#[trigger] segments[i]).len() == 8
        * lengths[i] by {
        lemma_total_front(lengths, i);
        lemma_total_front(lengths, i + 1);
    }
    assert(word_lengths(segments) =~= lengths);
}

/// The segments before the last are cut from the bytes before the last.
proof fn lemma_split_front(bytes: Seq<u8>, lengths: Seq<nat>)
    requires
        lengths.len() > 0,
        bytes.len() == 8 * total(lengths),
    ensures
        ({
            let cut = 8 * total(lengths.drop_last()) as int;
            &&& 0 <= cut <= bytes.len()
            &&& split(bytes, lengths).drop_last() == split(
                bytes.subrange(0, cut),
                lengths.drop_last(),
            )
            &&& split(bytes, lengths).last() == bytes.subrange(cut, bytes.len() as int)
        }),
{
    let front = lengths.drop_last();
    let cut = 8 * total(front) as int;
    let segments = split(bytes, lengths);
    let shorter = split(bytes.subrange(0, cut), front);
    assert forall|i: int| 0 <= i < front.len() implies #[trigger] segments.drop_last()[i]
        == shorter[i] by {
        lemma_total_front(front, i);
        lemma_total_front(front, i + 1);
        assert(lengths.subrange(0, i) =~= front.subrange(0, i));
        assert(lengths.subrange(0, i + 1) =~= front.subrange(0, i + 1));
        assert(segments[i] =~= shorter[i]);
    }
    assert(segments.drop_last() =~= shorter);
    assert(lengths.subrange(0, front.len() as int) =~= front);
    assert(lengths.subrange(0, lengths.len() as int) =~= lengths);
}

/// Bytes cut at whole-word lengths have those lengths, and put together again are the bytes.
pub proof fn lemma_split(bytes: Seq<u8>, lengths: Seq<nat>)
    requires
        bytes.len() == 8 * total(lengths),
        forall|i: int| 0 <= i < lengths.len() ==> #[trigger] lengths[i] <= u32::MAX,
    ensures
        word_lengths(split(bytes, lengths)) == lengths,
        whole_words(split(bytes, lengths)),
        body(split(bytes, lengths)) == bytes,
    decreases lengths.len(),
{
    lemma_split_lengths(bytes, lengths);
    if lengths.len() > 0 {
        let front = lengths.drop_last();
        let cut = 8 * total(front) as int;
        lemma_split_front(bytes, lengths);
        assert forall|i: int| 0 <= i < front.len() implies #[trigger] front[i] <= u32::MAX by {
            assert(front[i] == lengths[i]);
        }
        lemma_split(bytes.subrange(0, cut), front);
        assert(bytes =~= bytes.subrange(0, cut) + bytes.subrange(cut, bytes.len() as int));
    } else {
        assert(bytes =~= Seq::<u8>::empty());
    }
}

/// Whether `head` is a complete segment table that announces `lengths`, within the limit.
pub open spec fn is_head(head: Seq<u8>, lengths: Seq<nat>, limit: Option<usize>) -> bool {
    &&& 0 < lengths.len() < SEGMENTS_COUNT_LIMIT
    &&& head.len() == table_len(lengths.len())
    &&& announced_count(head) == lengths.len()
    &&& announced_lengths(head, lengths.len()) == lengths
    &&& total(lengths) <= usize::MAX
    &&& within(limit, total(lengths))
}

/// The lengths in a segment table are 32-bit numbers.
pub proof fn lemma_announced_bound(stream: Seq<u8>, count: nat)
    requires
        4 + 4 * count <= stream.len(),
    ensures
        forall|i: int|
            0 <= i < count ==> #[trigger] announced_lengths(stream, count)[i] <= u32::MAX,
{
    lemma_le_spans();
    assert forall|i: int| 0 <= i < count implies #[trigger] announced_lengths(stream, count)[i]
        <= u32::MAX by {
        lemma_le_value_bound(stream.subrange(4 * (i + 1), 4 * (i + 1) + 4));
    }
}

/// What a stream holds depends on its segment table through its front alone.
pub proof fn lemma_table_front(stream: Seq<u8>, more: Seq<u8>, count: nat)
    requires
        count == announced_count(stream),
        4 + 4 * count <= stream.len(),
    ensures
        announced_count(stream + more) == count,
        announced_lengths(stream + more, count) == announced_lengths(stream, count),
{
    let longer = stream + more;
    assert(longer.subrange(0, 4) =~= stream.subrange(0, 4));
    assert forall|i: int| 0 <= i < count implies #[trigger] announced_lengths(longer, count)[i]
        == announced_lengths(stream, count)[i] by {
        assert(longer.subrange(4 * (i + 1), 4 * (i + 1) + 4) =~= stream.subrange(
            4 * (i + 1),
            4 * (i + 1) + 4,
        ));
    }
    assert(announced_lengths(longer, count) =~= announced_lengths(stream, count));
}

/// Once the segment table is known, a message is complete exactly when its body is.
pub proof fn lemma_after_head(
    head: Seq<u8>,
    lengths: Seq<nat>,
    part: Seq<u8>,
    limit: Option<usize>,
)
    requires
        is_head(head, lengths, limit),
    ensures
        read_frame(head + part, limit) == if part.len() < 8 * total(lengths) {
            Parse::Incomplete
        } else {
            Parse::Complete {
                segments: split(part.subrange(0, 8 * total(lengths) as int), lengths),
                consumed: head.len() + 8 * total(lengths),
            }
        },
{
    reveal(read_frame);
    let stream = head + part;
    let size = 8 * total(lengths) as int;
    lemma_table_len(lengths.len());
    lemma_table_front(head, part, lengths.len());
    if part.len() >= size {
        assert(stream.subrange(head.len() as int, head.len() + size) =~= part.subrange(0, size));
    }
}

/// Bytes that come later never change what has been read: a frame that was recognised, or
/// refused, stays so whatever follows it. How a stream is cut up on its way is therefore
/// without effect.
pub proof fn law_more_bytes_change_nothing(stream: Seq<u8>, more: Seq<u8>, limit: Option<usize>)
    requires
        !(read_frame(stream, limit) is Incomplete),
    ensures
        read_frame(stream + more, limit) == read_frame(stream, limit),
{
    reveal(read_frame);
    let longer = stream + more;
    assert(longer.subrange(0, 4) =~= stream.subrange(0, 4));
    let count = announced_count(stream);
    if 0 < count < SEGMENTS_COUNT_LIMIT {
        lemma_table_len(count);
        lemma_table_front(stream, more, count);
        let end = table_len(count) + 8 * total(announced_lengths(stream, count));
        if end <= stream.len() {
            assert(longer.subrange(table_len(count) as int, end as int) =~= stream.subrange(
                table_len(count) as int,
                end as int,
            ));
        }
    }
}

/// A message that is read takes up at least a word, and no more than there is.
pub proof fn lemma_consumed(stream: Seq<u8>, limit: Option<usize>)
    ensures
        read_frame(stream, limit) matches Parse::Complete { segments, consumed } ==> 8 <= consumed
            <= stream.len(),
{
    reveal(read_frame);
    lemma_table_len(announced_count(stream));
}

/// Nothing is refused before its first word is there.
pub proof fn lemma_refused(stream: Seq<u8>, limit: Option<usize>)
    ensures
        read_frame(stream, limit) is Refused ==> 8 <= stream.len(),
{
    reveal(read_frame);
}

/// The segment table announces the number of segments and their lengths.
proof fn lemma_announced(segments: Seq<Seq<u8>>, after: Seq<u8>)
    requires
        0 < segments.len() < SEGMENTS_COUNT_LIMIT,
        whole_words(segments),
    ensures
        announced_count(table(segments) + after) == segments.len(),
        announced_lengths(table(segments) + after, segments.len()) == word_lengths(segments),
{
    let count = segments.len();
    let lengths = word_lengths(segments);
    let head = le_bytes((count - 1) as nat, 4);
    let stream = table(segments) + after;
    lemma_le_spans();
    lemma_le_len((count - 1) as nat, 4);
    law_le_read_back((count - 1) as nat, 4);
    lemma_table_len(count);
    lemma_table_is_table_len(segments);
    lemma_length_fields(lengths);
    assert(stream.subrange(0, 4) =~= head);
    assert forall|i: int| 0 <= i < count implies #[trigger] announced_lengths(stream, count)[i]
        == lengths[i] by {
        assert(stream.subrange(4 * (i + 1), 4 * (i + 1) + 4) =~= length_fields(lengths).subrange(
            4 * i,
            4 * i + 4,
        ));
        assert(segments[i].len() / 8 <= u32::MAX);
        law_le_read_back(lengths[i], 4);
    }
    assert(announced_lengths(stream, count) =~= lengths);
}

/// A message reads back exactly as it was written, whatever follows it.
pub proof fn law_frame_read_back(segments: Seq<Seq<u8>>, more: Seq<u8>, limit: Option<usize>)
    requires
        acceptable(segments, limit),
    ensures
        read_frame(frame(segments) + more, limit) == (Parse::Complete {
            segments,
            consumed: frame(segments).len(),
        }),
{
    reveal(read_frame);
    let stream = frame(segments) + more;
    let start = table_len(segments.len()) as int;
    assert(stream =~= table(segments) + (body(segments) + more));
    lemma_announced(segments, body(segments) + more);
    lemma_table_is_table_len(segments);
    lemma_body_len(segments);
    lemma_split_body(segments);
    assert(stream.subrange(start, start + body(segments).len()) =~= body(segments));
}

/// A message that is cut short anywhere is recognised as incomplete.
pub proof fn law_cut_frame_is_incomplete(segments: Seq<Seq<u8>>, cut: int, limit: Option<usize>)
    requires
        acceptable(segments, limit),
        0 <= cut < frame(segments).len(),
    ensures
        read_frame(frame(segments).take(cut), limit) is Incomplete,
{
    let front = frame(segments).take(cut);
    let rest = frame(segments).skip(cut);
    if !(read_frame(front, limit) is Incomplete) {
        law_more_bytes_change_nothing(front, rest, limit);
        law_frame_read_back(segments, Seq::empty(), limit);
        assert(front + rest =~= frame(segments));
        assert(frame(segments) + Seq::<u8>::empty() =~= frame(segments));
        lemma_consumed(front, limit);
    }
}

/// Whether every one of `messages` is acceptable.
pub open spec fn all_acceptable(messages: Seq<Seq<Seq<u8>>>, limit: Option<usize>) -> bool {
    forall|i: int| 0 <= i < messages.len() ==> acceptable(#[trigger] messages[i], limit)
}

/// Messages read back in order, and reading then goes on with what follows them.
pub proof fn law_stream_read_back(
    messages: Seq<Seq<Seq<u8>>>,
    rest: Seq<u8>,
    limit: Option<usize>,
)
    requires
        all_acceptable(messages, limit),
    ensures
        read_stream(frames(messages) + rest, limit) == (
            messages + read_stream(rest, limit).0,
            read_stream(rest, limit).1,
        ),
    decreases messages.len(),
{
    let stream = frames(messages) + rest;
    if messages.len() == 0 {
        assert(stream =~= rest);
        assert(messages + read_stream(rest, limit).0 =~= read_stream(rest, limit).0);
    } else {
        let first = messages[0];
        let others = messages.drop_first();
        assert(all_acceptable(others, limit)) by {
            assert forall|i: int| 0 <= i < others.len() implies acceptable(
                #[trigger] others[i],
                limit,
            ) by {
                assert(others[i] == messages[i + 1]);
            }
        }
        law_stream_read_back(others, rest, limit);
        let after = frames(others) + rest;
        law_frame_read_back(first, after, limit);
        assert(stream =~= frame(first) + after);
        assert(stream.skip(frame(first).len() as int) =~= after);
        lemma_consumed(stream, limit);
        assert(stream.len() > 0);
        assert(seq![first] + (others + read_stream(rest, limit).0) =~= messages + read_stream(
            rest,
            limit,
        ).0);
    }
}

/// A stream that stops between two messages ends cleanly after the messages before.
pub proof fn law_stream_cut_on_a_boundary(messages: Seq<Seq<Seq<u8>>>, limit: Option<usize>)
    requires
        all_acceptable(messages, limit),
    ensures
        read_stream(frames(messages), limit) == (messages, StreamEnd::Clean),
{
    law_stream_read_back(messages, Seq::empty(), limit);
    assert(frames(messages) + Seq::<u8>::empty() =~= frames(messages));
    assert(messages + Seq::<Seq<Seq<u8>>>::empty() =~= messages);
}

/// A stream that stops inside a message gives the messages before it and is seen to be cut.
pub proof fn law_stream_cut_inside_a_message(
    messages: Seq<Seq<Seq<u8>>>,
    last: Seq<Seq<u8>>,
    cut: int,
    limit: Option<usize>,
)
    requires
        all_acceptable(messages, limit),
        acceptable(last, limit),
        0 < cut < frame(last).len(),
    ensures
        read_stream(frames(messages) + frame(last).take(cut), limit) == (
            messages,
            StreamEnd::Truncated,
        ),
{
    law_cut_frame_is_incomplete(last, cut, limit);
    law_stream_read_back(messages, frame(last).take(cut), limit);
    assert(messages + Seq::<Seq<Seq<u8>>>::empty() =~= messages);
}

/// A sum grows by each number that is added to it.
pub proof fn law_total_grows(lengths: Seq<nat>, length: nat)
    ensures
        total(Seq::empty()) == 0,
        total(lengths.push(length)) == total(lengths) + length,
{
    assert(lengths.push(length).drop_last() =~= lengths);
}

/// The segments of a message follow one another in full.
pub proof fn law_body_is_the_segments(segments: Seq<Seq<u8>>, segment: Seq<u8>)
    ensures
        body(Seq::empty()) == Seq::<u8>::empty(),
        body(segments.push(segment)) == body(segments) + segment,
{
    assert(segments.push(segment).drop_last() =~= segments);
}

/// Messages follow one another in full: the frames of messages in two parts are the frames of the
/// first part and then those of the second.
pub proof fn law_frames_join(first: Seq<Seq<Seq<u8>>>, second: Seq<Seq<Seq<u8>>>)
    ensures
        frames(Seq::empty()) == Seq::<u8>::empty(),
        first.len() == 1 ==> frames(first) == frame(first[0]),
        frames(first + second) == frames(first) + frames(second),
    decreases first.len(),
{
    if first.len() == 0 {
        assert(first + second =~= second);
        assert(frames(first + second) =~= frames(first) + frames(second));
    } else {
        let rest = first.drop_first();
        law_frames_join(rest, second);
        assert((first + second).drop_first() =~= rest + second);
        assert(frames(first + second) =~= frames(first) + frames(second));
        if first.len() == 1 {
            assert(rest =~= Seq::empty());
            assert(frames(first) =~= frame(first[0]));
        }
    }
}

/// A message on the wire, byte for byte: the number of segments less one and the length of each in
/// words, all in four bytes, four zeros where that makes no whole words, and then the segments.
pub proof fn law_frame_bytes(segments: Seq<Seq<u8>>)
    requires
        0 < segments.len() <= 0x1_0000_0000,
        forall|i: int| 0 <= i < segments.len() ==> (#[trigger] segments[i]).len() / 8 <= u32::MAX,
    ensures
        ({
            let message = frame(segments);
            let count = segments.len() as int;
            let start = 8 * (count / 2 + 1);
            &&& message.len() == start + body(segments).len()
            &&& message[0] + 0x100 * message[1] + 0x1_0000 * message[2] + 0x100_0000 * message[3]
                == count - 1
            &&& forall|i: int|
                0 <= i < count ==> (#[trigger] segments[i]).len() / 8 == message[4 * i + 4] + 0x100
                    * message[4 * i + 5] + 0x1_0000 * message[4 * i + 6] + 0x100_0000 * message[4
                    * i + 7]
            &&& count % 2 == 0 ==> message.subrange(start - 4, start) == seq![0u8, 0, 0, 0]
            &&& message.skip(start) == body(segments)
        }),
{
    let message = frame(segments);
    let count = segments.len() as int;
    let start = 8 * (count / 2 + 1);
    let lengths = word_lengths(segments);
    lemma_le_spans();
    lemma_le_len((count - 1) as nat, 4);
    law_le_read_back((count - 1) as nat, 4);
    lemma_table_len(count as nat);
    lemma_table_is_table_len(segments);
    lemma_length_fields(lengths);
    let head = le_bytes((count - 1) as nat, 4);
    law_le_value_of_few(head);
    assert(message.subrange(0, 4) =~= head);
    assert(message[0] == head[0] && message[1] == head[1] && message[2] == head[2] && message[3]
        == head[3]);
    assert forall|i: int| 0 <= i < count implies (#[trigger] segments[i]).len() / 8 == message[4 * i
        + 4] + 0x100 * message[4 * i + 5] + 0x1_0000 * message[4 * i + 6] + 0x100_0000 * message[4
        * i + 7] by {
        let field = length_fields(lengths).subrange(4 * i, 4 * i + 4);
        assert(message.subrange(4 * i + 4, 4 * i + 8) =~= field);
        assert(field[0] == message[4 * i + 4] && field[1] == message[4 * i + 5] && field[2]
            == message[4 * i + 6] && field[3] == message[4 * i + 7]);
        law_le_read_back(lengths[i], 4);
        law_le_value_of_few(field);
    }
    if count % 2 == 0 {
        assert(message.subrange(start - 4, start) =~= table_padding(count as nat));
    }
    assert(message.skip(start) =~= body(segments));
}

/// What the front of a stream holds, by the numbers in it: fewer than a word or than the table, or
/// than the table and the segments that it announces, are not enough to tell; no segments, or 512
/// and more, are refused, and so is a message over the limits; all else is a message, whose
/// segments have the announced lengths and are the bytes behind the table.
pub proof fn law_frame_is_read_by_its_table(stream: Seq<u8>, limit: Option<usize>)
    ensures
        ({
            let parse = read_frame(stream, limit);
            let first = le_value(stream.subrange(0, 4));
            let count = first + 1;
            let start = 8 * (count / 2 + 1);
            let lengths = Seq::new(
                count,
                |i: int| le_value(stream.subrange(4 * i + 4, 4 * i + 8)),
            );
            let words = total(lengths);
            if stream.len() < 8 {
                parse is Incomplete
            } else if first == 0xffff_ffff {
                parse == Parse::Refused(FrameError::InvalidNumberOfSegments(0))
            } else if first >= 511 {
                parse == Parse::Refused(FrameError::InvalidNumberOfSegments(count as usize))
            } else if stream.len() < start {
                parse is Incomplete
            } else if words > usize::MAX {
                parse == Parse::Refused(FrameError::MessageSizeOverflow)
            } else if limit is Some && words > limit->0 {
                parse == Parse::Refused(FrameError::MessageTooLarge(words as usize))
            } else if stream.len() < start + 8 * words {
                parse is Incomplete
            } else {
                &&& parse matches Parse::Complete { segments, consumed }
                &&& consumed == start + 8 * words
                &&& segments.len() == count
                &&& forall|i: int|
                    0 <= i < count ==> (#[trigger] segments[i]).len() == 8 * lengths[i]
                &&& body(segments) == stream.subrange(start as int, consumed as int)
            }
        }),
{
    reveal(read_frame);
    let first = le_value(stream.subrange(0, 4));
    let count = first + 1;
    let start = 8 * (count / 2 + 1);
    let lengths = Seq::new(count, |i: int| le_value(stream.subrange(4 * i + 4, 4 * i + 8)));
    lemma_le_spans();
    if stream.len() >= 8 {
        lemma_le_value_bound(stream.subrange(0, 4));
        if first < 511 {
            assert(announced_count(stream) == count);
            lemma_table_len(count);
            assert(announced_lengths(stream, count) =~= lengths);
            if stream.len() >= start {
                lemma_announced_bound(stream, count);
                let words = total(lengths);
                if let Parse::Complete { segments, consumed } = read_frame(stream, limit) {
                    let bytes = stream.subrange(start as int, consumed as int);
                    lemma_split(bytes, lengths);
                    assert(segments == split(bytes, lengths));
                    assert forall|i: int| 0 <= i < count implies (#[trigger] segments[i]).len() == 8
                        * lengths[i] by {
                        assert(word_lengths(segments)[i] == lengths[i]);
                    }
                }
            }
        }
    }
}

/// A stream is read message by message: one that is whole comes out and reading goes on behind it;
/// one that is refused, or that the stream ends in, ends the reading.
pub proof fn law_stream_is_read_message_by_message(stream: Seq<u8>, limit: Option<usize>)
    ensures
        stream.len() == 0 ==> read_stream(stream, limit) == (
            Seq::<Seq<Seq<u8>>>::empty(),
            StreamEnd::Clean,
        ),
        stream.len() > 0 ==> match read_frame(stream, limit) {
            Parse::Complete { segments, consumed } => {
                let rest = read_stream(stream.skip(consumed as int), limit);
                read_stream(stream, limit) == (seq![segments] + rest.0, rest.1)
            },
            Parse::Refused(error) => read_stream(stream, limit) == (
                Seq::<Seq<Seq<u8>>>::empty(),
                StreamEnd::Refused(error),
            ),
            Parse::Incomplete => read_stream(stream, limit) == (
                Seq::<Seq<Seq<u8>>>::empty(),
                StreamEnd::Truncated,
            ),
        },
{
    lemma_consumed(stream, limit);
}

/// Which messages a peer accepts: those with at least one and fewer than 512 segments of whole
/// words, within its limit.
pub proof fn law_what_is_acceptable(segments: Seq<Seq<u8>>, limit: Option<usize>)
    ensures
        acceptable(segments, limit) <==> {
            &&& 1 <= segments.len() <= 511
            &&& forall|i: int|
                0 <= i < segments.len() ==> (#[trigger] segments[i]).len() % 8 == 0
                    && segments[i].len() / 8 <= 0xffff_ffff
            &&& total(word_lengths(segments)) <= usize::MAX
            &&& limit is Some ==> total(word_lengths(segments)) <= limit->0
        },
        word_lengths(segments).len() == segments.len(),
        forall|i: int|
            0 <= i < segments.len() ==> (#[trigger] segments[i]).len() / 8 == word_lengths(
                segments,
            )[i],
{
}

} // verus!
