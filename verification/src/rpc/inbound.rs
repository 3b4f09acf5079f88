//! Reading framed messages off a byte stream.
//!
//! [`Inbound`] holds what has been read and not yet handed on. [`Inbound::next`] says what comes
//! next: a message, a buffer to read more bytes into, or the body of a large message to read into
//! directly. What comes out depends on the bytes alone, not on how they arrive.

use super::frame::{
    body, is_head, lemma_after_head, lemma_announced_bound, lemma_split, lemma_table_front,
    lemma_table_len, lemma_total_front, read_frame, split, table_len, total, whole_words, within,
    word_lengths, announced_count, announced_lengths, FrameError, Parse, SEGMENTS_COUNT_LIMIT, WORD,
};
use crate::bytes::{get_le, le_value, lemma_le_spans};
use capnp::serialize::{OwnedSegments, SegmentLengthsBuilder};
use std::ops::{Deref, DerefMut};
use vstd::prelude::*;

verus! {

/// An error of the `capnp` crate.
#[verifier::external_type_specification]
#[verifier::external_body]
pub struct ExCapnpError(capnp::Error);

/// `capnp::serialize::SegmentLengthsBuilder`, the lengths of the segments of one message.
#[verifier::external_type_specification]
#[verifier::external_body]
pub struct ExSegmentLengthsBuilder(SegmentLengthsBuilder);

/// `capnp::serialize::OwnedSegments`, the segments of one message in one buffer.
#[verifier::external_type_specification]
#[verifier::external_body]
pub struct ExOwnedSegments(OwnedSegments);

/// The lengths in words that have been pushed so far, in order.
pub uninterp spec fn segment_lengths(lengths: SegmentLengthsBuilder) -> Seq<nat>;

/// The bytes of each segment, in order.
pub uninterp spec fn owned_segments(segments: OwnedSegments) -> Seq<Seq<u8>>;

/// `SegmentLengthsBuilder::with_capacity` starts without lengths. The capacity, which only sizes
/// the list's allocation, has to fit in memory.
pub assume_specification[ SegmentLengthsBuilder::with_capacity ](capacity: usize) -> (lengths:
    SegmentLengthsBuilder)
    requires
        capacity < SEGMENTS_COUNT_LIMIT,
    ensures
        segment_lengths(lengths) == Seq::<nat>::empty(),
;

/// `SegmentLengthsBuilder::try_push_segment` adds a length, unless the sum of the lengths would
/// leave `usize`; then it fails and the lengths stay as they were.
pub assume_specification[ SegmentLengthsBuilder::try_push_segment ](
    lengths: &mut SegmentLengthsBuilder,
    length_in_words: usize,
) -> (pushed: capnp::Result<()>)
    ensures
        pushed is Ok <==> total(segment_lengths(*old(lengths))) + length_in_words <= usize::MAX,
        segment_lengths(*final(lengths)) == if pushed is Ok {
            segment_lengths(*old(lengths)).push(length_in_words as nat)
        } else {
            segment_lengths(*old(lengths))
        },
;

/// `SegmentLengthsBuilder::total_words` is the sum of the lengths.
pub assume_specification[ SegmentLengthsBuilder::total_words ](
    lengths: &SegmentLengthsBuilder,
) -> (words: usize)
    ensures
        words == total(segment_lengths(*lengths)),
;

/// `SegmentLengthsBuilder::into_owned_segments` makes one zeroed segment for each length. The
/// buffer has to fit in memory.
pub assume_specification[ SegmentLengthsBuilder::into_owned_segments ](
    lengths: SegmentLengthsBuilder,
) -> (segments: OwnedSegments)
    requires
        8 * total(segment_lengths(lengths)) <= isize::MAX,
    ensures
        owned_segments(segments) == Seq::new(
            segment_lengths(lengths).len(),
            |i: int| Seq::new(8 * segment_lengths(lengths)[i], |j: int| 0u8),
        ),
;

/// `<OwnedSegments as Deref>::deref`: the bytes of all segments, one after the other.
#[verifier::external_body]
fn flat(segments: &OwnedSegments) -> (bytes: &[u8])
    ensures
        bytes@ == body(owned_segments(*segments)),
{
    segments.deref()
}

/// `<OwnedSegments as DerefMut>::deref_mut`: the bytes of all segments, to be written to. The
/// lengths of the segments stay.
#[verifier::external_body]
fn flat_mut(segments: &mut OwnedSegments) -> (bytes: &mut [u8])
    ensures
        bytes@ == body(owned_segments(*old(segments))),
        final(bytes)@.len() == bytes@.len(),
        owned_segments(*final(segments)) == split(
            final(bytes)@,
            word_lengths(owned_segments(*old(segments))),
        ),
{
    segments.deref_mut()
}

/// `<[T]>::copy_from_slice` overwrites a slice with another of the same length.
pub assume_specification<T: Copy>[ <[T]>::copy_from_slice ](slice: &mut [T], src: &[T])
    requires
        old(slice)@.len() == src@.len(),
    ensures
        final(slice)@ == src@,
;

/// `Vec::drain` with the front of the vector as its range: those elements leave.
#[verifier::external_body]
fn drop_front(bytes: &mut Vec<u8>, count: usize)
    requires
        count <= old(bytes)@.len(),
    ensures
        final(bytes)@ == old(bytes)@.skip(count as int),
{
    bytes.drain(..count);
}

/// `Vec::capacity` is no less than the length.
#[verifier::external_body]
pub(crate) fn capacity_of(bytes: &Vec<u8>) -> (capacity: usize)
    ensures
        capacity >= bytes@.len(),
{
    bytes.capacity()
}

/// `Vec::reserve_exact` makes room and keeps the contents. The room has to fit in memory.
#[verifier::external_body]
fn make_room(bytes: &mut Vec<u8>, additional: usize)
    requires
        old(bytes)@.len() + additional <= isize::MAX,
    ensures
        final(bytes)@ == old(bytes)@,
{
    bytes.reserve_exact(additional);
}

/// What a reader of messages puts up with.
#[derive(Debug, Clone, Copy, PartialEq, Eq, Structural)]
pub struct ReaderOptions {
    /// A message with more words than this is refused.
    pub traversal_limit_in_words: Option<usize>,
    /// How deep pointers in a message may nest.
    pub nesting_limit: i32,
}

impl ReaderOptions {
    /// Whether every message within the traversal limit fits in the address space.
    pub open spec fn addressable(&self) -> bool {
        usize::BITS == 64 || (self.traversal_limit_in_words matches Some(most) && 8 * most
            <= isize::MAX)
    }

    /// Whether every message within the traversal limit fits in the address space.
    pub fn is_addressable(&self) -> (addressable: bool)
        ensures
            addressable <==> self.addressable(),
    {
        match self.traversal_limit_in_words {
            Some(most) => usize::BITS == 64 || most <= isize::MAX as usize / 8,
            None => usize::BITS == 64,
        }
    }
}

/// The body of a message that is being read directly into its segments.
pub struct Body {
    segments: OwnedSegments,
    filled: usize,
    head: Ghost<Seq<u8>>,
    limit: Ghost<Option<usize>>,
}

impl Body {
    /// The bytes of the body, those not read yet included.
    pub closed spec fn content(&self) -> Seq<u8> {
        body(owned_segments(self.segments))
    }

    /// How many bytes have been read.
    pub closed spec fn filled(&self) -> nat {
        self.filled as nat
    }

    /// The segment table that the body belongs to.
    pub closed spec fn head(&self) -> Seq<u8> {
        self.head@
    }

    /// The traversal limit that the segment table was held to.
    pub closed spec fn limit(&self) -> Option<usize> {
        self.limit@
    }

    /// The bytes of the message that have been read so far.
    pub open spec fn unread(&self) -> Seq<u8> {
        self.head() + self.content().take(self.filled() as int)
    }

    pub closed spec fn wf(&self) -> bool {
        let segments = owned_segments(self.segments);
        &&& whole_words(segments)
        &&& is_head(self.head@, word_lengths(segments), self.limit@)
        &&& self.filled <= self.content().len()
        &&& self.content().len() == 8 * total(word_lengths(segments))
    }

    /// The bytes that have been read.
    pub fn as_init(&self) -> (bytes: &[u8])
        requires
            self.wf(),
        ensures
            self.filled() <= self.content().len(),
            bytes@ == self.content().take(self.filled() as int),
    {
        let all = flat(&self.segments);
        assert(all@.subrange(0, self.filled as int) =~= all@.take(self.filled as int));
        &all[0..self.filled]
    }

    /// The room for the whole body, to read into behind the bytes that are there.
    pub fn as_uninit(&mut self) -> (bytes: &mut [u8])
        requires
            old(self).wf(),
        ensures
            bytes@ == old(self).content(),
            final(bytes)@.len() == bytes@.len(),
            final(self).wf(),
            final(self).content() == final(bytes)@,
            final(self).filled() == old(self).filled(),
            final(self).head() == old(self).head(),
            final(self).limit() == old(self).limit(),
    {
        proof {
            let lengths = word_lengths(owned_segments(self.segments));
            lemma_table_len(lengths.len());
            lemma_announced_bound(self.head@, lengths.len());
            assert forall|bytes: Seq<u8>| bytes.len() == 8 * total(lengths) implies word_lengths(
                #[trigger] split(bytes, lengths),
            ) == lengths && whole_words(split(bytes, lengths)) && body(split(bytes, lengths))
                == bytes by {
                lemma_split(bytes, lengths);
            }
        }
        flat_mut(&mut self.segments)
    }

    /// Records that the first `len` bytes of the body have been read.
    pub fn set_len(&mut self, len: usize)
        requires
            old(self).wf(),
            len <= old(self).content().len(),
        ensures
            final(self).wf(),
            final(self).content() == old(self).content(),
            final(self).filled() == len,
            final(self).head() == old(self).head(),
            final(self).limit() == old(self).limit(),
    {
        self.filled = len;
    }

    /// The message, once its body has been read; until then the stream may not end.
    pub fn into_segments(self) -> (segments: Result<OwnedSegments, FrameError>)
        requires
            self.wf(),
        ensures
            segments is Ok <==> self.filled() == self.content().len(),
            match read_frame(self.unread(), self.limit()) {
                Parse::Complete { segments: read, consumed } => {
                    &&& segments matches Ok(message)
                    &&& owned_segments(message) == read
                    &&& consumed == self.unread().len()
                },
                Parse::Incomplete => segments == Err::<OwnedSegments, FrameError>(
                    FrameError::PrematureEndOfFile,
                ),
                Parse::Refused(error) => false,
            },
    {
        let size: usize = flat(&self.segments).len();
        let ghost lengths = word_lengths(owned_segments(self.segments));
        let ghost part = self.content().take(self.filled as int);
        proof {
            lemma_after_head(self.head@, lengths, part, self.limit@);
        }
        if self.filled < size {
            return Err(FrameError::PrematureEndOfFile);
        }
        proof {
            assert(part.subrange(0, 8 * total(lengths) as int) =~= self.content());
            lemma_table_len(lengths.len());
            lemma_announced_bound(self.head@, lengths.len());
            super::frame::lemma_split_body(owned_segments(self.segments));
        }
        Ok(self.segments)
    }
}

/// The words of a message that the options admit can be counted in bytes.
proof fn lemma_words_addressable(lengths: Seq<nat>, options: ReaderOptions)
    requires
        options.addressable(),
        lengths.len() < SEGMENTS_COUNT_LIMIT,
        forall|i: int| 0 <= i < lengths.len() ==> #[trigger] lengths[i] <= u32::MAX,
        within(options.traversal_limit_in_words, total(lengths)),
    ensures
        8 * total(lengths) <= isize::MAX,
{
    lemma_total_bound(lengths);
}

proof fn lemma_total_bound(lengths: Seq<nat>)
    requires
        forall|i: int| 0 <= i < lengths.len() ==> #[trigger] lengths[i] <= u32::MAX,
    ensures
        total(lengths) <= lengths.len() * u32::MAX,
    decreases lengths.len(),
{
    if lengths.len() > 0 {
        let front = lengths.drop_last();
        assert forall|i: int| 0 <= i < front.len() implies #[trigger] front[i] <= u32::MAX by {
            assert(front[i] == lengths[i]);
        }
        lemma_total_bound(front);
        assert(lengths.len() * u32::MAX == front.len() * u32::MAX + u32::MAX) by (nonlinear_arith)
            requires
                lengths.len() == front.len() + 1,
        ;
    }
}

/// Segments that were made for `lengths` have these lengths.
proof fn lemma_fresh(segments: Seq<Seq<u8>>, lengths: Seq<nat>)
    requires
        segments.len() == lengths.len(),
        forall|i: int|
            0 <= i < lengths.len() ==> (#[trigger] segments[i]).len() == 8 * lengths[i],
        forall|i: int| 0 <= i < lengths.len() ==> #[trigger] lengths[i] <= u32::MAX,
    ensures
        word_lengths(segments) == lengths,
        whole_words(segments),
        body(segments).len() == 8 * total(lengths),
{
    assert(word_lengths(segments) =~= lengths);
    super::frame::lemma_body_len(segments);
}

/// A complete and acceptable segment table at the front of `stream` is a head.
proof fn lemma_head_front(stream: Seq<u8>, count: nat, limit: Option<usize>)
    requires
        count == announced_count(stream),
        0 < count < SEGMENTS_COUNT_LIMIT,
        table_len(count) <= stream.len(),
        total(announced_lengths(stream, count)) <= usize::MAX,
        within(limit, total(announced_lengths(stream, count))),
    ensures
        is_head(
            stream.subrange(0, table_len(count) as int),
            announced_lengths(stream, count),
            limit,
        ),
{
    let head = stream.subrange(0, table_len(count) as int);
    lemma_table_len(count);
    assert(head.subrange(0, 4) =~= stream.subrange(0, 4));
    lemma_table_front(head, stream.skip(table_len(count) as int), count);
    assert(head + stream.skip(table_len(count) as int) =~= stream);
}

/// What can be told of `stream` from its segment table.
proof fn lemma_read_head(stream: Seq<u8>, limit: Option<usize>)
    ensures
        ({
            let parse = read_frame(stream, limit);
            let count = announced_count(stream);
            let words = total(announced_lengths(stream, count));
            if stream.len() < 8 {
                parse is Incomplete
            } else if count == 0 || count >= SEGMENTS_COUNT_LIMIT {
                parse == Parse::Refused(FrameError::InvalidNumberOfSegments(count as usize))
            } else if stream.len() < table_len(count) {
                parse is Incomplete
            } else if words > usize::MAX {
                parse == Parse::Refused(FrameError::MessageSizeOverflow)
            } else {
                !within(limit, words) ==> parse == Parse::Refused(
                    FrameError::MessageTooLarge(words as usize),
                )
            }
        }),
{
    reveal(read_frame);
}

/// What a reader has to do to get on.
pub enum Step {
    /// A whole message has come in.
    Message(OwnedSegments),
    /// More bytes are needed: read some behind those in the buffer and hand it to
    /// [`Inbound::fill`], or to [`Inbound::abandon`] where that failed. The buffer is meant to hold
    /// the wanted number of bytes, and room was reserved for them.
    Fill { staging: Vec<u8>, wanted: usize },
    /// The rest of this body is needed: read it and ask [`Body::into_segments`] for the message.
    ReadBody(Body),
}

enum Stage {
    Start,
    Body { segments: OwnedSegments, head: Ghost<Seq<u8>> },
}

/// The bytes of a connection that have been read and not yet handed on.
pub struct Inbound {
    staging: Vec<u8>,
    pos: usize,
    capacity: usize,
    options: ReaderOptions,
    stage: Stage,
}

/// Whether the body that `stream` announces is too large for a staging buffer.
pub open spec fn announces_more_than(stream: Seq<u8>, capacity: nat) -> bool {
    let count = announced_count(stream);
    &&& stream.len() >= 8
    &&& stream.len() >= table_len(count)
    &&& 8 * total(announced_lengths(stream, count)) > capacity
}

/// The segment table at the front of `stream`, where all of it is there.
pub open spec fn whole_table(stream: Seq<u8>) -> Seq<u8> {
    let count = announced_count(stream);
    if stream.len() >= 8 && stream.len() >= table_len(count) {
        stream.take(table_len(count) as int)
    } else {
        Seq::empty()
    }
}

/// How many bytes it takes to get on with `stream`: a first word, the segment table, or the body
/// behind it.
pub open spec fn needed(stream: Seq<u8>) -> nat {
    let count = announced_count(stream);
    if stream.len() < 8 {
        8
    } else if stream.len() < table_len(count) {
        table_len(count)
    } else {
        8 * total(announced_lengths(stream, count))
    }
}

/// How many bytes a staging buffer is meant to hold where `needed` are needed.
pub open spec fn room_for(needed: nat, capacity: nat) -> nat {
    if capacity < needed {
        needed
    } else {
        capacity
    }
}

impl Inbound {
    spec fn staged(&self) -> Seq<u8> {
        self.staging@.skip(self.pos as int)
    }

    /// The bytes that have been read and not yet handed on.
    pub closed spec fn unread(&self) -> Seq<u8> {
        match self.stage {
            Stage::Start => self.staged(),
            Stage::Body { segments, head } => head@ + self.staged(),
        }
    }

    /// The segment table of the message that is being read, once it has been taken: the front of
    /// the unread bytes.
    pub closed spec fn begun(&self) -> Seq<u8> {
        match self.stage {
            Stage::Start => Seq::empty(),
            Stage::Body { segments, head } => head@,
        }
    }

    /// How large a body may be to go through the staging buffer.
    pub closed spec fn capacity(&self) -> nat {
        self.capacity as nat
    }

    pub closed spec fn options(&self) -> ReaderOptions {
        self.options
    }

    /// The traversal limit in words.
    pub open spec fn limit(&self) -> Option<usize> {
        self.options().traversal_limit_in_words
    }

    pub closed spec fn wf(&self) -> bool {
        &&& self.pos <= self.staging@.len()
        &&& self.capacity <= isize::MAX
        &&& self.options.addressable()
        &&& self.stage matches Stage::Body { segments, head } ==> {
            let lengths = word_lengths(owned_segments(segments));
            &&& whole_words(owned_segments(segments))
            &&& is_head(head@, lengths, self.limit())
            &&& body(owned_segments(segments)).len() == 8 * total(lengths) <= self.capacity
        }
    }

    /// A reader that has read nothing yet.
    pub fn new(options: ReaderOptions, capacity: usize) -> (inbound: Self)
        requires
            capacity <= isize::MAX,
            options.addressable(),
        ensures
            inbound.wf(),
            inbound.unread() == Seq::<u8>::empty(),
            inbound.begun() == Seq::<u8>::empty(),
            inbound.options() == options,
            inbound.capacity() == capacity,
    {
        let inbound = Inbound {
            staging: Vec::with_capacity(capacity),
            pos: 0,
            capacity,
            options,
            stage: Stage::Start,
        };
        assert(inbound.unread() =~= Seq::<u8>::empty());
        inbound
    }

    /// The 32-bit number at `index` in the unread part of the staging buffer.
    fn word_at(&self, index: usize) -> (word: u32)
        requires
            self.wf(),
            4 * index + 4 <= self.staged().len(),
        ensures
            word == le_value(self.staged().subrange(4 * index, 4 * index + 4)),
    {
        proof {
            lemma_le_spans();
            assert(self.staged().subrange(4 * index, 4 * index + 4) =~= self.staging@.subrange(
                self.pos + 4 * index,
                self.pos + 4 * index + 4,
            ));
        }
        let end: usize = self.staging.len();
        assert(self.pos + 4 * index + 4 <= end);
        get_le(self.staging.as_slice(), self.pos + 4 * index, 4) as u32
    }

    /// The lengths of the first `count` segments that the staged table announces.
    fn table_lengths(&self, count: usize) -> (lengths: Result<SegmentLengthsBuilder, FrameError>)
        requires
            self.wf(),
            count < SEGMENTS_COUNT_LIMIT,
            4 * (count + 1) <= self.staged().len(),
        ensures
            match lengths {
                Ok(lengths) => segment_lengths(lengths) == announced_lengths(
                    self.staged(),
                    count as nat,
                ),
                Err(error) => error == FrameError::MessageSizeOverflow && total(
                    announced_lengths(self.staged(), count as nat),
                ) > usize::MAX,
            },
    {
        let ghost all = announced_lengths(self.staged(), count as nat);
        let mut lengths = SegmentLengthsBuilder::with_capacity(count);
        let mut index: usize = 0;
        assert(all.subrange(0, 0) =~= Seq::<nat>::empty());
        while index < count
            invariant
                self.wf(),
                index <= count < SEGMENTS_COUNT_LIMIT,
                4 * (count + 1) <= self.staged().len(),
                all == announced_lengths(self.staged(), count as nat),
                segment_lengths(lengths) == all.subrange(0, index as int),
            decreases count - index,
        {
            let length: usize = self.word_at(index + 1) as usize;
            proof {
                lemma_total_front(all, index as int);
                lemma_total_front(all, index + 1);
                assert(all.subrange(0, index as int).push(all[index as int]) =~= all.subrange(
                    0,
                    index + 1,
                ));
                assert(all[index as int] == length);
            }
            match lengths.try_push_segment(length) {
                Ok(()) => {},
                Err(_) => {
                    return Err(FrameError::MessageSizeOverflow);
                },
            }
            index = index + 1;
        }
        assert(all.subrange(0, count as int) =~= all);
        Ok(lengths)
    }

    /// Hands the staging buffer out, with room for `needed` bytes.
    fn request(&mut self, needed: usize) -> (step: Step)
        requires
            old(self).wf(),
            needed <= isize::MAX,
            old(self).staged().len() < needed,
        ensures
            step matches Step::Fill { staging, wanted } && staging@ == old(self).staged() && wanted
                == room_for(needed as nat, old(self).capacity()),
            final(self).wf(),
            final(self).staged() == Seq::<u8>::empty(),
            final(self).stage == old(self).stage,
            final(self).options == old(self).options,
            final(self).capacity == old(self).capacity,
    {
        let mut staging: Vec<u8> = Vec::new();
        std::mem::swap(&mut staging, &mut self.staging);
        if self.pos > 0 {
            drop_front(&mut staging, self.pos);
            self.pos = 0;
        } else {
            assert(staging@.skip(0) =~= staging@);
        }
        let wanted: usize = if self.capacity < needed {
            needed
        } else {
            self.capacity
        };
        if capacity_of(&staging) < wanted {
            let room: usize = wanted - staging.len();
            make_room(&mut staging, room);
        }
        assert(self.staged() =~= Seq::<u8>::empty());
        Step::Fill { staging, wanted }
    }

    /// Goes on with a message whose segment table has been taken off the staging buffer and whose
    /// body goes through it.
    fn next_body(&mut self, segments: OwnedSegments, head: Ghost<Seq<u8>>) -> (step: Result<
        Step,
        FrameError,
    >)
        requires
            old(self).wf(),
            old(self).stage is Start,
            whole_words(owned_segments(segments)),
            is_head(head@, word_lengths(owned_segments(segments)), old(self).limit()),
            body(owned_segments(segments)).len() == 8 * total(
                word_lengths(owned_segments(segments)),
            ) <= old(self).capacity,
        ensures
            final(self).wf(),
            final(self).options == old(self).options,
            final(self).capacity == old(self).capacity,
            match read_frame(head@ + old(self).staged(), old(self).limit()) {
                Parse::Complete { segments, consumed } => {
                    &&& step matches Ok(Step::Message(message))
                    &&& owned_segments(message) == segments
                    &&& final(self).unread() == (head@ + old(self).staged()).skip(consumed as int)
                },
                Parse::Refused(error) => false,
                Parse::Incomplete => {
                    &&& step matches Ok(Step::Fill { staging, wanted })
                    &&& staging@ == old(self).staged()
                    &&& wanted == room_for(
                        needed(head@ + old(self).staged()),
                        old(self).capacity(),
                    )
                    &&& staging@.len() < wanted
                    &&& final(self).begun() == head@
                    &&& head@ == whole_table(head@ + old(self).staged())
                    &&& final(self).unread() == head@
                },
            },
            !(step matches Ok(Step::Fill { .. })) ==> final(self).begun().len() == 0,
            !announces_more_than(head@ + old(self).staged(), old(self).capacity()),
    {
        let ghost staged = self.staged();
        let ghost lengths = word_lengths(owned_segments(segments));
        let size: usize = flat(&segments).len();
        let there: usize = self.staging.len() - self.pos;
        proof {
            lemma_after_head(head@, lengths, staged, self.limit());
            lemma_table_len(lengths.len());
            lemma_table_front(head@, staged, lengths.len());
            lemma_announced_bound(head@, lengths.len());
        }
        if there < size {
            self.stage = Stage::Body { segments, head };
            let step = self.request(size);
            assert((head@ + staged).take(head@.len() as int) =~= head@);
            assert(self.unread() =~= head@);
            return Ok(step);
        }
        let mut segments = segments;
        let end: usize = self.pos + size;
        let source = &self.staging.as_slice()[self.pos..end];
        assert(source@ =~= staged.subrange(0, size as int));
        proof {
            lemma_split(source@, lengths);
        }
        flat_mut(&mut segments).copy_from_slice(source);
        self.pos = end;
        proof {
            assert(self.unread() =~= (head@ + staged).skip(head@.len() + size as int));
        }
        Ok(Step::Message(segments))
    }

    /// Goes on with a message whose segment table has been taken off the staging buffer and whose
    /// body is too large for it.
    fn next_direct(&mut self, segments: OwnedSegments, head: Ghost<Seq<u8>>) -> (step: Result<
        Step,
        FrameError,
    >)
        requires
            old(self).wf(),
            old(self).stage is Start,
            whole_words(owned_segments(segments)),
            is_head(head@, word_lengths(owned_segments(segments)), old(self).limit()),
            body(owned_segments(segments)).len() == 8 * total(
                word_lengths(owned_segments(segments)),
            ) > old(self).capacity,
        ensures
            final(self).wf(),
            final(self).options == old(self).options,
            final(self).capacity == old(self).capacity,
            match read_frame(head@ + old(self).staged(), old(self).limit()) {
                Parse::Complete { segments, consumed } => {
                    &&& step matches Ok(Step::Message(message))
                    &&& owned_segments(message) == segments
                    &&& final(self).unread() == (head@ + old(self).staged()).skip(consumed as int)
                },
                Parse::Refused(error) => false,
                Parse::Incomplete => {
                    &&& step matches Ok(Step::ReadBody(body))
                    &&& body.wf()
                    &&& body.limit() == old(self).limit()
                    &&& body.unread() == head@ + old(self).staged()
                    &&& final(self).unread() == Seq::<u8>::empty()
                },
            },
            final(self).begun().len() == 0,
            announces_more_than(head@ + old(self).staged(), old(self).capacity()),
    {
        let ghost staged = self.staged();
        let ghost lengths = word_lengths(owned_segments(segments));
        let ghost limit = self.limit();
        let size: usize = flat(&segments).len();
        let there: usize = self.staging.len() - self.pos;
        let buffered: usize = if there < size {
            there
        } else {
            size
        };
        proof {
            lemma_after_head(head@, lengths, staged, limit);
            lemma_table_len(lengths.len());
            lemma_table_front(head@, staged, lengths.len());
            lemma_announced_bound(head@, lengths.len());
        }
        let mut segments = segments;
        let end: usize = self.pos + buffered;
        let source = &self.staging.as_slice()[self.pos..end];
        assert(source@ =~= staged.subrange(0, buffered as int));
        let room = flat_mut(&mut segments);
        let ghost unfilled = room@.skip(buffered as int);
        let (front, _back) = room.split_at_mut(buffered);
        front.copy_from_slice(source);
        proof {
            lemma_split(source@ + unfilled, lengths);
        }
        self.pos = end;
        if buffered == size {
            assert(source@ + unfilled =~= source@);
            assert(self.unread() =~= (head@ + staged).skip(head@.len() + size as int));
            return Ok(Step::Message(segments));
        }
        let body = Body { segments, filled: buffered, head, limit: Ghost(limit) };
        proof {
            assert(body.content().take(buffered as int) =~= staged);
            assert(self.unread() =~= Seq::<u8>::empty());
        }
        Ok(Step::ReadBody(body))
    }

    /// Starts on a message at the front of the staging buffer.
    fn next_head(&mut self) -> (step: Result<Step, FrameError>)
        requires
            old(self).wf(),
            old(self).stage is Start,
        ensures
            final(self).wf(),
            final(self).options == old(self).options,
            final(self).capacity == old(self).capacity,
            match read_frame(old(self).staged(), old(self).limit()) {
                Parse::Complete { segments, consumed } => {
                    &&& step matches Ok(Step::Message(message))
                    &&& owned_segments(message) == segments
                    &&& final(self).unread() == old(self).staged().skip(consumed as int)
                },
                Parse::Refused(error) => {
                    &&& step matches Err(refusal)
                    &&& refusal == error
                    &&& final(self).unread() == old(self).staged()
                },
                Parse::Incomplete => if announces_more_than(
                    old(self).staged(),
                    old(self).capacity(),
                ) {
                    &&& step matches Ok(Step::ReadBody(body))
                    &&& body.wf()
                    &&& body.limit() == old(self).limit()
                    &&& body.unread() == old(self).staged()
                    &&& final(self).unread() == Seq::<u8>::empty()
                } else {
                    &&& step matches Ok(Step::Fill { staging, wanted })
                    &&& wanted == room_for(needed(old(self).staged()), old(self).capacity())
                    &&& staging@.len() < wanted
                    &&& final(self).begun() == whole_table(old(self).staged())
                    &&& final(self).unread() == final(self).begun()
                    &&& final(self).begun() + staging@ == old(self).staged()
                },
            },
            !(step matches Ok(Step::Fill { .. })) ==> final(self).begun().len() == 0,
    {
        let ghost staged = self.staged();
        let ghost limit = self.limit();
        let ghost count = announced_count(staged);
        let ghost announced = announced_lengths(staged, count);
        let there: usize = self.staging.len() - self.pos;
        proof {
            lemma_read_head(staged, limit);
        }
        if there < WORD {
            let step = self.request(WORD);
            assert(self.begun() + staged =~= staged);
            return Ok(step);
        }
        let segment_count: usize = self.word_at(0).wrapping_add(1) as usize;
        assert(segment_count == count);
        if segment_count == 0 || segment_count >= SEGMENTS_COUNT_LIMIT {
            return Err(FrameError::InvalidNumberOfSegments(segment_count));
        }
        let head_len: usize = (segment_count / 2 + 1) * WORD;
        proof {
            lemma_table_len(count);
        }
        if there < head_len {
            let step = self.request(head_len);
            assert(self.begun() + staged =~= staged);
            return Ok(step);
        }
        let lengths = match self.table_lengths(segment_count) {
            Ok(lengths) => lengths,
            Err(error) => {
                return Err(error);
            },
        };
        let words: usize = lengths.total_words();
        if let Some(most) = self.options.traversal_limit_in_words {
            if words > most {
                return Err(FrameError::MessageTooLarge(words));
            }
        }
        let head = Ghost(staged.subrange(0, head_len as int));
        let ghost rest = staged.skip(head_len as int);
        proof {
            assert(head@ + rest =~= staged);
            lemma_announced_bound(staged, count);
            lemma_words_addressable(announced, self.options);
            lemma_head_front(staged, count, limit);
        }
        let size: usize = words * WORD;
        let segments = lengths.into_owned_segments();
        proof {
            lemma_fresh(owned_segments(segments), announced);
        }
        self.pos = self.pos + head_len;
        assert(self.staged() =~= rest);
        if size <= self.capacity {
            return self.next_body(segments, head);
        }
        self.next_direct(segments, head)
    }

    /// Says what comes next. What it is depends on the bytes that have been read and on the
    /// limits alone; after a refusal nothing has been consumed. A buffer that is handed out is
    /// meant to hold more than it does, so reading nothing into it is the end of the stream. That
    /// the room is there is up to the allocator.
    pub fn next(&mut self) -> (step: Result<Step, FrameError>)
        requires
            old(self).wf(),
        ensures
            final(self).wf(),
            final(self).options() == old(self).options(),
            final(self).capacity() == old(self).capacity(),
            match read_frame(old(self).unread(), old(self).limit()) {
                Parse::Complete { segments, consumed } => {
                    &&& step matches Ok(Step::Message(message))
                    &&& owned_segments(message) == segments
                    &&& final(self).unread() == old(self).unread().skip(consumed as int)
                },
                Parse::Refused(error) => {
                    &&& step matches Err(refusal)
                    &&& refusal == error
                    &&& final(self).unread() == old(self).unread()
                },
                Parse::Incomplete => if announces_more_than(
                    old(self).unread(),
                    old(self).capacity(),
                ) {
                    &&& step matches Ok(Step::ReadBody(body))
                    &&& body.wf()
                    &&& body.limit() == old(self).limit()
                    &&& body.unread() == old(self).unread()
                    &&& final(self).unread() == Seq::<u8>::empty()
                } else {
                    &&& step matches Ok(Step::Fill { staging, wanted })
                    &&& wanted == room_for(needed(old(self).unread()), old(self).capacity())
                    &&& staging@.len() < wanted
                    &&& final(self).begun() == whole_table(old(self).unread())
                    &&& final(self).unread() == final(self).begun()
                    &&& final(self).begun() + staging@ == old(self).unread()
                },
            },
            !(step matches Ok(Step::Fill { .. })) ==> final(self).begun().len() == 0,
    {
        let mut stage = Stage::Start;
        std::mem::swap(&mut stage, &mut self.stage);
        match stage {
            Stage::Start => self.next_head(),
            Stage::Body { segments, head } => self.next_body(segments, head),
        }
    }

    /// Puts a staging buffer back behind the bytes that are there.
    fn put_back(&mut self, staging: Vec<u8>)
        requires
            old(self).wf(),
        ensures
            final(self).wf(),
            final(self).staged() == old(self).staged() + staging@,
            final(self).stage == old(self).stage,
            final(self).options == old(self).options,
            final(self).capacity == old(self).capacity,
    {
        let ghost before = self.staged();
        let mut staging = staging;
        let ghost added = staging@;
        if self.pos == self.staging.len() {
            self.staging = staging;
            self.pos = 0;
        } else {
            self.staging.append(&mut staging);
        }
        assert(self.staged() =~= before + added);
    }

    /// Takes a staging buffer back after reading into it failed. Where the segment table of a
    /// message has been taken, that message is given up: its table is gone, and what was read of
    /// its body stays.
    pub fn abandon(&mut self, staging: Vec<u8>)
        requires
            old(self).wf(),
        ensures
            final(self).wf(),
            final(self).unread() == (old(self).unread() + staging@).skip(
                old(self).begun().len() as int,
            ),
            final(self).begun() == Seq::<u8>::empty(),
            final(self).options() == old(self).options(),
            final(self).capacity() == old(self).capacity(),
    {
        self.put_back(staging);
        self.stage = Stage::Start;
        assert(self.unread() =~= (old(self).unread() + staging@).skip(
            old(self).begun().len() as int,
        ));
    }

    /// Takes a staging buffer back after `read` bytes were read into it. Tells whether the stream
    /// goes on; it may end between messages only. Where it ends inside a message, that message is
    /// given up as with [`Inbound::abandon`].
    pub fn fill(&mut self, staging: Vec<u8>, read: usize) -> (more: Result<bool, FrameError>)
        requires
            old(self).wf(),
        ensures
            final(self).wf(),
            final(self).unread() == (old(self).unread() + staging@).skip(
                if read > 0 {
                    0
                } else {
                    old(self).begun().len() as int
                },
            ),
            final(self).begun() == if read > 0 {
                old(self).begun()
            } else {
                Seq::empty()
            },
            final(self).options() == old(self).options(),
            final(self).capacity() == old(self).capacity(),
            more == if read > 0 {
                Ok::<bool, FrameError>(true)
            } else if (old(self).unread() + staging@).len() == 0 {
                Ok(false)
            } else {
                Err(FrameError::PrematureEndOfFile)
            },
    {
        if read > 0 {
            self.put_back(staging);
            assert(self.unread() =~= (old(self).unread() + staging@).skip(0));
            return Ok(true);
        }
        let empty = match &self.stage {
            Stage::Start => self.pos == self.staging.len() && staging.len() == 0,
            Stage::Body { segments, head } => {
                proof {
                    lemma_table_len(word_lengths(owned_segments(*segments)).len());
                }
                false
            },
        };
        self.abandon(staging);
        if empty {
            Ok(false)
        } else {
            Err(FrameError::PrematureEndOfFile)
        }
    }
}

/// How many bytes it takes to get on with a stream, by the numbers in it: eight at first, then the
/// segment table, then the segments that the table announces. A table is taken as a whole or not at
/// all, and a body is too large for a staging buffer exactly where it has more bytes than that.
pub proof fn law_what_is_needed(stream: Seq<u8>, capacity: nat)
    ensures
        ({
            let first = le_value(stream.subrange(0, 4));
            let count = first + 1;
            let start = 8 * (count / 2 + 1);
            let lengths = Seq::new(
                count,
                |i: int| le_value(stream.subrange(4 * i + 4, 4 * i + 8)),
            );
            &&& stream.len() < 8 ==> {
                &&& needed(stream) == 8
                &&& whole_table(stream).len() == 0
                &&& !announces_more_than(stream, capacity)
            }
            &&& stream.len() >= 8 && first < 511 && stream.len() < start ==> {
                &&& needed(stream) == start
                &&& whole_table(stream).len() == 0
                &&& !announces_more_than(stream, capacity)
            }
            &&& stream.len() >= 8 && first < 511 && stream.len() >= start ==> {
                &&& needed(stream) == 8 * total(lengths)
                &&& whole_table(stream) == stream.take(start as int)
                &&& announces_more_than(stream, capacity) <==> 8 * total(lengths) > capacity
            }
        }),
{
    let count = le_value(stream.subrange(0, 4)) + 1;
    let lengths = Seq::new(count, |i: int| le_value(stream.subrange(4 * i + 4, 4 * i + 8)));
    if stream.len() >= 8 && count < SEGMENTS_COUNT_LIMIT {
        assert(announced_count(stream) == count);
        lemma_table_len(count);
        assert(announced_lengths(stream, count) =~= lengths);
    }
}

/// A staging buffer is meant to hold its capacity, or what is needed where that is more.
pub proof fn law_room_is_the_greater(needed: nat, capacity: nat)
    ensures
        room_for(needed, capacity) >= needed,
        room_for(needed, capacity) >= capacity,
        room_for(needed, capacity) == needed || room_for(needed, capacity) == capacity,
{
}

/// Options are put up with exactly where every message that they let in can be addressed.
pub proof fn law_what_is_addressable(options: ReaderOptions)
    ensures
        usize::BITS == 64 ==> options.addressable(),
        usize::BITS != 64 ==> (options.addressable() <==> options.traversal_limit_in_words is Some
            && 8 * options.traversal_limit_in_words->0 <= isize::MAX),
{
}

/// What has been read of a message whose body is read directly is its table and then the bytes of
/// the body that are there.
pub proof fn law_body_is_read_behind_its_table(body: &Body)
    requires
        body.wf(),
    ensures
        body.unread() == body.head() + body.content().take(body.filled() as int),
        body.filled() <= body.content().len(),
{
}

} // verus!
