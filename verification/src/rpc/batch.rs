//! Collecting outgoing messages for one vectored write.
//!
//! A [`Batch`] turns messages into chunks of bytes. Segment tables and short segments are copied,
//! next to one another, into buffers of the batch; a long segment is sent from where it lies.

use super::frame::{
    acceptable, all_acceptable, body, frame, frames, law_stream_cut_on_a_boundary,
    lemma_table_is_table_len, lemma_table_len, length_fields, read_stream, table, table_padding,
    total, word_lengths, StreamEnd, WORD,
};
use super::inbound::capacity_of;
use crate::bytes::{le_bytes, put_le};
use capnp::message::{Builder, HeapAllocator};
use std::rc::Rc;
use vstd::prelude::*;

verus! {

/// Recycled buffers together hold no more than this many bytes.
pub const SPARE_BUDGET: usize = 2 * 1024 * 1024;

/// A message that is on its way out and no longer changes.
#[verifier::external_body]
pub struct OutMessage(pub Rc<Builder<HeapAllocator>>);

/// The segments that a message is written as.
pub uninterp spec fn written_segments(message: OutMessage) -> Seq<Seq<u8>>;

/// `Builder::get_segments_for_output`: the segments, in order. Each is a whole number of words,
/// counted with 32 bits.
#[verifier::external_body]
fn output_segments(message: &OutMessage) -> (segments: Vec<&[u8]>)
    ensures
        segments@.len() == written_segments(*message).len(),
        forall|i: int|
            0 <= i < segments@.len() ==> (#[trigger] segments@[i])@ == written_segments(
                *message,
            )[i] && segments@[i]@.len() % 8 == 0 && segments@[i]@.len() / 8 <= u32::MAX,
{
    message.0.get_segments_for_output().to_vec()
}

impl Clone for OutMessage {
    /// `Rc::clone`: another handle on the same message.
    #[verifier::external_body]
    fn clone(&self) -> (other: Self)
        ensures
            other == *self,
    {
        OutMessage(self.0.clone())
    }
}

/// One segment of a message.
pub struct SegmentRef {
    message: OutMessage,
    index: usize,
}

impl View for SegmentRef {
    type V = Seq<u8>;

    closed spec fn view(&self) -> Seq<u8> {
        written_segments(self.message)[self.index as int]
    }
}

impl SegmentRef {
    pub closed spec fn wf(&self) -> bool {
        self.index < written_segments(self.message).len()
    }

    /// The bytes of the segment.
    pub fn as_init(&self) -> (bytes: &[u8])
        requires
            self.wf(),
        ensures
            bytes@ == self@,
    {
        let segments = output_segments(&self.message);
        segments[self.index]
    }
}

/// A piece of an outgoing write.
pub enum Chunk {
    /// Bytes that were copied together.
    Inline(Vec<u8>),
    /// A segment where it lies.
    Segment(SegmentRef),
}

/// The bytes of a chunk, and whether they were copied.
pub enum ChunkView {
    Inline(Seq<u8>),
    Segment(Seq<u8>),
}

impl ChunkView {
    pub open spec fn bytes(self) -> Seq<u8> {
        match self {
            ChunkView::Inline(bytes) => bytes,
            ChunkView::Segment(bytes) => bytes,
        }
    }
}

impl View for Chunk {
    type V = ChunkView;

    open spec fn view(&self) -> ChunkView {
        match self {
            Chunk::Inline(bytes) => ChunkView::Inline(bytes@),
            Chunk::Segment(segment) => ChunkView::Segment(segment@),
        }
    }
}

impl Chunk {
    pub open spec fn wf(&self) -> bool {
        match self {
            Chunk::Inline(bytes) => true,
            Chunk::Segment(segment) => segment.wf(),
        }
    }

    /// The bytes of the chunk.
    pub fn as_init(&self) -> (bytes: &[u8])
        requires
            self.wf(),
        ensures
            bytes@ == self@.bytes(),
    {
        match self {
            Chunk::Inline(bytes) => bytes.as_slice(),
            Chunk::Segment(segment) => segment.as_init(),
        }
    }
}

/// What chunks hold, one after the other.
pub open spec fn views(chunks: Seq<Chunk>) -> Seq<ChunkView> {
    Seq::new(chunks.len(), |i: int| chunks[i]@)
}

/// The bytes that chunks amount to on the wire.
pub open spec fn content(chunks: Seq<ChunkView>) -> Seq<u8>
    decreases chunks.len(),
{
    if chunks.len() == 0 {
        Seq::empty()
    } else {
        content(chunks.drop_last()) + chunks.last().bytes()
    }
}

/// Copies `bytes` behind the last chunk, or into a new one where that is a segment.
pub open spec fn append_inline(chunks: Seq<ChunkView>, bytes: Seq<u8>) -> Seq<ChunkView> {
    if chunks.len() > 0 && chunks.last() is Inline {
        chunks.drop_last().push(ChunkView::Inline(chunks.last().bytes() + bytes))
    } else {
        chunks.push(ChunkView::Inline(bytes))
    }
}

/// Adds a segment: an empty one not at all, one up to `inline_limit` by copying it, a longer one
/// as it is.
pub open spec fn add_segment(
    chunks: Seq<ChunkView>,
    segment: Seq<u8>,
    inline_limit: nat,
) -> Seq<ChunkView> {
    if segment.len() == 0 {
        chunks
    } else if segment.len() <= inline_limit {
        append_inline(chunks, segment)
    } else {
        chunks.push(ChunkView::Segment(segment))
    }
}

/// Adds segments in order.
pub open spec fn add_segments(
    chunks: Seq<ChunkView>,
    segments: Seq<Seq<u8>>,
    inline_limit: nat,
) -> Seq<ChunkView>
    decreases segments.len(),
{
    if segments.len() == 0 {
        chunks
    } else {
        add_segment(
            add_segments(chunks, segments.drop_last(), inline_limit),
            segments.last(),
            inline_limit,
        )
    }
}

/// Adds a message: its segment table by copying it, then its segments.
pub open spec fn add_message(
    chunks: Seq<ChunkView>,
    segments: Seq<Seq<u8>>,
    inline_limit: nat,
) -> Seq<ChunkView> {
    add_segments(append_inline(chunks, table(segments)), segments, inline_limit)
}

/// Adds messages in order.
pub open spec fn add_messages(
    chunks: Seq<ChunkView>,
    messages: Seq<Seq<Seq<u8>>>,
    inline_limit: nat,
) -> Seq<ChunkView>
    decreases messages.len(),
{
    if messages.len() == 0 {
        chunks
    } else {
        add_messages(
            add_message(chunks, messages[0], inline_limit),
            messages.drop_first(),
            inline_limit,
        )
    }
}

/// Whether no chunk is empty and only segments over the limit are sent from where they lie.
pub open spec fn tidy(chunks: Seq<ChunkView>, inline_limit: nat) -> bool {
    forall|i: int|
        0 <= i < chunks.len() ==> (#[trigger] chunks[i]).bytes().len() > 0 && (chunks[i] is Segment
            ==> chunks[i].bytes().len() > inline_limit)
}

proof fn lemma_append_inline(chunks: Seq<ChunkView>, bytes: Seq<u8>, inline_limit: nat)
    ensures
        content(append_inline(chunks, bytes)) == content(chunks) + bytes,
        tidy(chunks, inline_limit) && bytes.len() > 0 ==> tidy(
            append_inline(chunks, bytes),
            inline_limit,
        ),
{
    let longer = append_inline(chunks, bytes);
    if chunks.len() > 0 && chunks.last() is Inline {
        assert(longer.drop_last() =~= chunks.drop_last());
        assert(content(longer) =~= content(chunks) + bytes);
        assert(chunks.last() == chunks[chunks.len() - 1]);
    } else {
        assert(longer.drop_last() =~= chunks);
    }
}

proof fn lemma_add_segment(chunks: Seq<ChunkView>, segment: Seq<u8>, inline_limit: nat)
    ensures
        content(add_segment(chunks, segment, inline_limit)) == content(chunks) + segment,
        tidy(chunks, inline_limit) ==> tidy(
            add_segment(chunks, segment, inline_limit),
            inline_limit,
        ),
{
    if segment.len() == 0 {
        assert(content(chunks) + segment =~= content(chunks));
    } else if segment.len() <= inline_limit {
        lemma_append_inline(chunks, segment, inline_limit);
    } else {
        assert(chunks.push(ChunkView::Segment(segment)).drop_last() =~= chunks);
    }
}

proof fn lemma_add_segments(chunks: Seq<ChunkView>, segments: Seq<Seq<u8>>, inline_limit: nat)
    ensures
        content(add_segments(chunks, segments, inline_limit)) == content(chunks) + body(segments),
        tidy(chunks, inline_limit) ==> tidy(
            add_segments(chunks, segments, inline_limit),
            inline_limit,
        ),
    decreases segments.len(),
{
    if segments.len() == 0 {
        assert(content(chunks) + body(segments) =~= content(chunks));
    } else {
        let front = segments.drop_last();
        lemma_add_segments(chunks, front, inline_limit);
        lemma_add_segment(
            add_segments(chunks, front, inline_limit),
            segments.last(),
            inline_limit,
        );
        assert(content(chunks) + body(segments) =~= (content(chunks) + body(front))
            + segments.last());
    }
}

/// A batch is byte for byte the concatenation of the frames of its messages: adding a message
/// adds its frame. Chunks stay non-empty, and only segments over the limit are sent from where
/// they lie.
pub proof fn law_add_message(
    chunks: Seq<ChunkView>,
    segments: Seq<Seq<u8>>,
    inline_limit: nat,
)
    requires
        segments.len() > 0,
    ensures
        content(add_message(chunks, segments, inline_limit)) == content(chunks) + frame(segments),
        tidy(chunks, inline_limit) ==> tidy(
            add_message(chunks, segments, inline_limit),
            inline_limit,
        ),
{
    lemma_table_is_table_len(segments);
    lemma_table_len(segments.len());
    lemma_append_inline(chunks, table(segments), inline_limit);
    lemma_add_segments(append_inline(chunks, table(segments)), segments, inline_limit);
    assert(content(chunks) + frame(segments) =~= (content(chunks) + table(segments)) + body(
        segments,
    ));
}

/// A batch of messages is byte for byte their frames, whatever the inline limit.
pub proof fn law_add_messages(
    chunks: Seq<ChunkView>,
    messages: Seq<Seq<Seq<u8>>>,
    inline_limit: nat,
)
    requires
        forall|i: int| 0 <= i < messages.len() ==> (#[trigger] messages[i]).len() > 0,
    ensures
        content(add_messages(chunks, messages, inline_limit)) == content(chunks) + frames(messages),
    decreases messages.len(),
{
    if messages.len() == 0 {
        assert(content(chunks) + frames(messages) =~= content(chunks));
    } else {
        let first = messages[0];
        let others = messages.drop_first();
        law_add_message(chunks, first, inline_limit);
        assert forall|i: int| 0 <= i < others.len() implies (#[trigger] others[i]).len() > 0 by {
            assert(others[i] == messages[i + 1]);
        }
        law_add_messages(add_message(chunks, first, inline_limit), others, inline_limit);
        assert(content(chunks) + frames(messages) =~= (content(chunks) + frame(first)) + frames(
            others,
        ));
    }
}

/// Adding messages and then one more is adding them all.
pub proof fn lemma_add_messages_push(
    chunks: Seq<ChunkView>,
    messages: Seq<Seq<Seq<u8>>>,
    message: Seq<Seq<u8>>,
    inline_limit: nat,
)
    ensures
        add_messages(chunks, messages.push(message), inline_limit) == add_message(
            add_messages(chunks, messages, inline_limit),
            message,
            inline_limit,
        ),
    decreases messages.len(),
{
    let all = messages.push(message);
    if messages.len() == 0 {
        assert(all.drop_first() =~= Seq::<Seq<Seq<u8>>>::empty());
        assert(add_messages(add_message(chunks, message, inline_limit), Seq::empty(), inline_limit)
            == add_message(chunks, message, inline_limit));
    } else {
        assert(all.drop_first() =~= messages.drop_first().push(message));
        lemma_add_messages_push(
            add_message(chunks, messages[0], inline_limit),
            messages.drop_first(),
            message,
            inline_limit,
        );
    }
}

/// What a batch wrote, a reader that accepts the messages reads back, message for message.
pub proof fn law_batch_read_back(
    messages: Seq<Seq<Seq<u8>>>,
    inline_limit: nat,
    limit: Option<usize>,
)
    requires
        all_acceptable(messages, limit),
    ensures
        read_stream(content(add_messages(Seq::empty(), messages, inline_limit)), limit) == (
            messages,
            StreamEnd::Clean,
        ),
{
    assert forall|i: int| 0 <= i < messages.len() implies (#[trigger] messages[i]).len() > 0 by {
        assert(acceptable(messages[i], limit));
    }
    law_add_messages(Seq::empty(), messages, inline_limit);
    assert(content(Seq::empty()) + frames(messages) =~= frames(messages));
    law_stream_cut_on_a_boundary(messages, limit);
}

/// Messages that go out in one write, and buffers of earlier writes to use again.
pub struct Batch {
    chunks: Vec<Chunk>,
    spare: Vec<(Vec<u8>, usize)>,
    spare_bytes: usize,
    inline_limit: usize,
    bytes: usize,
}

/// The capacities that were recorded with buffers.
spec fn capacities(spare: Seq<(Vec<u8>, usize)>) -> Seq<nat> {
    Seq::new(spare.len(), |i: int| spare[i].1 as nat)
}

/// How many chunks were copied together.
pub open spec fn inline_count(chunks: Seq<ChunkView>) -> nat
    decreases chunks.len(),
{
    if chunks.len() == 0 {
        0
    } else {
        inline_count(chunks.drop_last()) + if chunks.last() is Inline {
            1nat
        } else {
            0nat
        }
    }
}

/// The capacities of spare buffers after some were put to use, the latest first.
pub open spec fn spared_without(spared: Seq<nat>, used: int) -> Seq<nat> {
    if used < spared.len() {
        spared.take(spared.len() - used)
    } else {
        Seq::empty()
    }
}

/// Whether copied bytes go to a chunk of their own.
pub open spec fn opens(chunks: Seq<ChunkView>) -> bool {
    !(chunks.len() > 0 && chunks.last() is Inline)
}

proof fn lemma_inline_count(chunks: Seq<ChunkView>, bytes: Seq<u8>)
    ensures
        inline_count(append_inline(chunks, bytes)) == inline_count(chunks) + if opens(chunks) {
            1nat
        } else {
            0nat
        },
        inline_count(chunks.push(ChunkView::Segment(bytes))) == inline_count(chunks),
{
    assert(chunks.push(ChunkView::Segment(bytes)).drop_last() =~= chunks);
    if opens(chunks) {
        assert(append_inline(chunks, bytes).drop_last() =~= chunks);
    } else {
        assert(append_inline(chunks, bytes).drop_last() =~= chunks.drop_last());
    }
}

/// The capacities of spare buffers after one more was offered: it is kept where the budget allows.
pub open spec fn spared_with(spared: Seq<nat>, capacity: nat) -> Seq<nat> {
    if total(spared) + capacity <= SPARE_BUDGET {
        spared.push(capacity)
    } else {
        spared
    }
}

/// The capacities of spare buffers after those of `chunks` were offered in order. Buffers that
/// were copied into are offered, at the capacities given for them.
pub open spec fn spared_after(
    spared: Seq<nat>,
    chunks: Seq<ChunkView>,
    offered: Seq<nat>,
) -> Seq<nat>
    decreases chunks.len(),
{
    if chunks.len() == 0 {
        spared
    } else {
        let before = spared_after(spared, chunks.drop_last(), offered.drop_last());
        if chunks.last() is Inline {
            spared_with(before, offered.last())
        } else {
            before
        }
    }
}

/// Whether `offered` can be the capacities of the buffers of `chunks`: no buffer holds more than
/// its capacity.
pub open spec fn measured(chunks: Seq<ChunkView>, offered: Seq<nat>) -> bool {
    &&& offered.len() == chunks.len()
    &&& forall|i: int|
        0 <= i < chunks.len() && (#[trigger] chunks[i]) is Inline ==> offered[i]
            >= chunks[i].bytes().len()
}

/// Capacities as numbers.
pub open spec fn sizes(capacities: Seq<usize>) -> Seq<nat> {
    Seq::new(capacities.len(), |i: int| capacities[i] as nat)
}

/// Whether `after` is what is left of `before` once `chunks` were handed out for writing.
pub open spec fn taken(before: Batch, after: Batch, chunks: Seq<Chunk>) -> bool {
    &&& views(chunks) == before@
    &&& forall|i: int| 0 <= i < chunks.len() ==> (#[trigger] chunks[i]).wf()
    &&& tidy(views(chunks), before.limit())
    &&& after@ == Seq::<ChunkView>::empty()
    &&& after.counted() == 0
    &&& after.spared() == before.spared()
    &&& after.limit() == before.limit()
}

/// Whether `after` is what `before` becomes when it takes `chunks` back, whose buffers have the
/// capacities `offered`.
pub open spec fn recycled(
    before: Batch,
    after: Batch,
    chunks: Seq<ChunkView>,
    offered: Seq<nat>,
) -> bool {
    &&& after@ == Seq::<ChunkView>::empty()
    &&& after.spared() == spared_after(before.spared(), chunks, offered)
    &&& after.counted() == before.counted()
    &&& after.limit() == before.limit()
}

impl View for Batch {
    type V = Seq<ChunkView>;

    closed spec fn view(&self) -> Seq<ChunkView> {
        views(self.chunks@)
    }
}

impl Batch {
    spec fn sound(&self) -> bool {
        &&& forall|i: int| 0 <= i < self.chunks@.len() ==> (#[trigger] self.chunks@[i]).wf()
        &&& forall|i: int| 0 <= i < self.spare@.len() ==> (#[trigger] self.spare@[i]).0@.len() == 0
        &&& self.spare_bytes == total(self.spared())
        &&& self.spare_bytes <= SPARE_BUDGET
    }

    pub closed spec fn wf(&self) -> bool {
        self.sound() && tidy(self@, self.limit())
    }

    /// Segments up to this length are copied.
    pub closed spec fn limit(&self) -> nat {
        self.inline_limit as nat
    }

    /// The bytes of the messages that were added since the last [`Batch::take`].
    pub closed spec fn counted(&self) -> nat {
        self.bytes as nat
    }

    /// The capacities of the buffers that are kept for later.
    pub closed spec fn spared(&self) -> Seq<nat> {
        capacities(self.spare@)
    }

    /// A batch without messages.
    pub fn new(inline_limit: usize) -> (batch: Self)
        ensures
            batch.wf(),
            batch@ == Seq::<ChunkView>::empty(),
            batch.limit() == inline_limit,
            batch.counted() == 0,
            batch.spared() == Seq::<nat>::empty(),
    {
        let batch = Batch {
            chunks: Vec::new(),
            spare: Vec::new(),
            spare_bytes: 0,
            inline_limit,
            bytes: 0,
        };
        assert(batch@ =~= Seq::<ChunkView>::empty());
        assert(batch.spared() =~= Seq::<nat>::empty());
        batch
    }

    /// Whether there is nothing to write.
    pub fn is_empty(&self) -> (empty: bool)
        ensures
            empty <==> self@.len() == 0,
    {
        self.chunks.is_empty()
    }

    /// The number of chunks to write.
    pub fn chunk_count(&self) -> (count: usize)
        ensures
            count == self@.len(),
    {
        self.chunks.len()
    }

    /// The number of bytes that were added since the last [`Batch::take`].
    pub fn byte_count(&self) -> (count: usize)
        ensures
            count == self.counted(),
    {
        self.bytes
    }

    /// Hands the chunks out for writing.
    pub fn take(&mut self) -> (chunks: Vec<Chunk>)
        requires
            old(self).wf(),
        ensures
            final(self).wf(),
            taken(*old(self), *final(self), chunks@),
    {
        self.bytes = 0;
        let mut chunks: Vec<Chunk> = Vec::new();
        std::mem::swap(&mut chunks, &mut self.chunks);
        assert(self@ =~= Seq::<ChunkView>::empty());
        chunks
    }

    /// Keeps a buffer of the given capacity for later, where the budget allows.
    pub fn keep(&mut self, bytes: Vec<u8>, capacity: usize)
        requires
            old(self).wf(),
        ensures
            final(self).wf(),
            final(self)@ == old(self)@,
            final(self).spared() == spared_with(old(self).spared(), capacity as nat),
            final(self).counted() == old(self).counted(),
            final(self).limit() == old(self).limit(),
    {
        let mut bytes = bytes;
        if capacity <= SPARE_BUDGET - self.spare_bytes {
            let ghost before = self.spared();
            bytes.clear();
            self.spare_bytes = self.spare_bytes + capacity;
            self.spare.push((bytes, capacity));
            proof {
                assert(self.spared() =~= before.push(capacity as nat));
                assert(self.spared().drop_last() =~= before);
            }
        }
    }

    /// Takes chunks back after a write and keeps their buffers, which have the given capacities, as
    /// far as the budget for them goes. The batch is empty afterwards.
    pub fn recycle_sized(&mut self, chunks: Vec<Chunk>, capacities: &Vec<usize>)
        requires
            old(self).wf(),
            capacities@.len() == chunks@.len(),
        ensures
            final(self).wf(),
            recycled(*old(self), *final(self), views(chunks@), sizes(capacities@)),
    {
        let ghost all = views(chunks@);
        let ghost offered = sizes(capacities@);
        let mut chunks = chunks;
        let mut at: usize = 0;
        assert(offered.take(0) =~= Seq::<nat>::empty());
        while at < chunks.len()
            invariant
                self.wf(),
                self.bytes == old(self).bytes,
                self.inline_limit == old(self).inline_limit,
                at <= chunks@.len() == all.len() == capacities@.len(),
                offered == sizes(capacities@),
                forall|i: int| at <= i < chunks@.len() ==> (#[trigger] chunks@[i])@ == all[i],
                self.spared() == spared_after(
                    old(self).spared(),
                    all.take(at as int),
                    offered.take(at as int),
                ),
            decreases chunks@.len() - at,
        {
            let mut chunk = Chunk::Inline(Vec::new());
            std::mem::swap(&mut chunk, &mut chunks[at]);
            proof {
                assert(all.take(at + 1).drop_last() =~= all.take(at as int));
                assert(offered.take(at + 1).drop_last() =~= offered.take(at as int));
                assert(all.take(at + 1).last() == chunk@);
            }
            match chunk {
                Chunk::Inline(bytes) => {
                    self.keep(bytes, capacities[at]);
                },
                Chunk::Segment(_) => {},
            }
            at = at + 1;
        }
        assert(all.take(at as int) =~= all);
        assert(offered.take(at as int) =~= offered);
        chunks.clear();
        self.chunks = chunks;
        assert(self@ =~= Seq::<ChunkView>::empty());
    }

    /// Takes chunks back after a write and keeps their buffers, as far as the budget for them
    /// goes. The batch is empty afterwards. What the capacities of the buffers are is up to the
    /// allocator; [`Batch::recycle_sized`] says what comes of them.
    pub fn recycle(&mut self, chunks: Vec<Chunk>)
        requires
            old(self).wf(),
        ensures
            final(self).wf(),
            exists|offered: Seq<nat>|
                measured(views(chunks@), offered) && #[trigger] recycled(
                    *old(self),
                    *final(self),
                    views(chunks@),
                    offered,
                ),
    {
        let ghost all = views(chunks@);
        let mut capacities: Vec<usize> = Vec::new();
        let mut at: usize = 0;
        while at < chunks.len()
            invariant
                at <= chunks@.len(),
                all == views(chunks@),
                capacities@.len() == at,
                forall|i: int|
                    0 <= i < at && (#[trigger] all[i]) is Inline ==> capacities@[i]
                        >= all[i].bytes().len(),
            decreases chunks@.len() - at,
        {
            let capacity: usize = match &chunks[at] {
                Chunk::Inline(bytes) => capacity_of(bytes),
                Chunk::Segment(_) => 0,
            };
            assert(all[at as int] == chunks@[at as int]@);
            capacities.push(capacity);
            at = at + 1;
        }
        assert(measured(all, sizes(capacities@)));
        self.recycle_sized(chunks, &capacities);
    }

    /// The buffer at the end of the chunks, to copy bytes into.
    fn inline_tail(&mut self) -> (tail: &mut Vec<u8>)
        requires
            old(self).sound(),
        ensures
            final(self).sound(),
            final(self).inline_limit == old(self).inline_limit,
            final(self).bytes == old(self).bytes,
            final(self).spared() == spared_without(
                old(self).spared(),
                if opens(old(self)@) {
                    1
                } else {
                    0
                },
            ),
            forall|added: Seq<u8>|
                final(tail)@ == tail@ + added ==> #[trigger] append_inline(old(self)@, added)
                    == final(self)@,
    {
        let fresh = match self.chunks.last() {
            Some(Chunk::Inline(_)) => false,
            _ => true,
        };
        if fresh {
            let ghost before = self.spared();
            let bytes = match self.spare.pop() {
                Some((bytes, capacity)) => {
                    assert(before.drop_last() =~= capacities(self.spare@));
                    assert(spared_without(before, 1) =~= before.drop_last());
                    self.spare_bytes = self.spare_bytes - capacity;
                    bytes
                },
                None => {
                    assert(spared_without(before, 1) =~= capacities(self.spare@));
                    Vec::new()
                },
            };
            self.chunks.push(Chunk::Inline(bytes));
        } else {
            assert(spared_without(self.spared(), 0) =~= self.spared());
        }
        let last: usize = self.chunks.len() - 1;
        match &mut self.chunks[last] {
            Chunk::Inline(bytes) => bytes,
            _ => vstd::pervasive::unreached(),
        }
    }

    /// Adds a segment of `message`.
    fn push_segment(&mut self, message: &OutMessage, index: usize, segment: &[u8])
        requires
            old(self).sound(),
            index < written_segments(*message).len(),
            segment@ == written_segments(*message)[index as int],
            old(self).bytes + segment@.len() <= usize::MAX,
        ensures
            final(self).sound(),
            final(self)@ == add_segment(old(self)@, segment@, old(self).limit()),
            final(self).spared() == spared_without(
                old(self).spared(),
                inline_count(final(self)@) - inline_count(old(self)@),
            ),
            final(self).bytes == old(self).bytes + segment@.len(),
            final(self).inline_limit == old(self).inline_limit,
    {
        proof {
            assert(spared_without(self.spared(), 0) =~= self.spared());
            lemma_inline_count(self@, segment@);
        }
        if segment.len() == 0 {
            return;
        }
        if segment.len() <= self.inline_limit {
            let tail = self.inline_tail();
            let ghost before = tail@;
            tail.extend_from_slice(segment);
            assert(tail@ =~= before + segment@);
        } else {
            let ghost before = self@;
            let chunk = Chunk::Segment(SegmentRef { message: message.clone(), index });
            self.chunks.push(chunk);
            assert(self@ =~= before.push(ChunkView::Segment(segment@)));
        }
        self.bytes = self.bytes + segment.len();
    }

    /// Adds a message. It has a segment at least, no more than its segment table can count, and
    /// the batch no more bytes than can be counted.
    pub fn push(&mut self, message: &OutMessage)
        requires
            old(self).wf(),
            0 < written_segments(*message).len() <= u32::MAX,
            old(self).counted() + frame(written_segments(*message)).len() <= usize::MAX,
        ensures
            final(self).wf(),
            final(self)@ == add_message(
                old(self)@,
                written_segments(*message),
                old(self).limit(),
            ),
            final(self).spared() == spared_without(
                old(self).spared(),
                inline_count(final(self)@) - inline_count(old(self)@),
            ),
            final(self).counted() == old(self).counted() + frame(written_segments(*message)).len(),
            final(self).limit() == old(self).limit(),
    {
        let ghost written = written_segments(*message);
        let ghost start = self@;
        let ghost limit = self.limit();
        let segments = output_segments(message);
        proof {
            lemma_table_is_table_len(written);
            lemma_table_len(written.len());
            law_add_message(start, written, limit);
            lemma_inline_count(start, table(written));
        }
        let tail = self.inline_tail();
        put_table(tail, &segments, Ghost(written));
        self.bytes = self.bytes + (segments.len() / 2 + 1) * WORD;
        let mut at: usize = 0;
        assert(written.take(0) =~= Seq::<Seq<u8>>::empty());
        while at < segments.len()
            invariant
                self.sound(),
                at <= segments@.len() == written.len(),
                written == written_segments(*message),
                forall|i: int|
                    0 <= i < segments@.len() ==> (#[trigger] segments@[i])@ == written[i],
                self@ == add_segments(
                    append_inline(start, table(written)),
                    written.take(at as int),
                    limit,
                ),
                limit == self.limit(),
                self.limit() == old(self).limit(),
                start == old(self)@,
                inline_count(self@) >= inline_count(start),
                self.spared() == spared_without(
                    old(self).spared(),
                    inline_count(self@) - inline_count(start),
                ),
                old(self).bytes + frame(written).len() <= usize::MAX,
                self.bytes == old(self).bytes + table(written).len() + body(
                    written.take(at as int),
                ).len(),
            decreases segments@.len() - at,
        {
            let segment = segments[at];
            proof {
                let next = written.take(at + 1);
                assert(next.drop_last() =~= written.take(at as int));
                assert(next.last() == segment@);
                lemma_body_front(written, at + 1);
                lemma_inline_count(self@, segment@);
            }
            self.push_segment(message, at, segment);
            at = at + 1;
        }
        assert(written.take(at as int) =~= written);
    }

    /// Adds a message, where it can be added.
    pub fn try_push(&mut self, message: &OutMessage) -> (added: bool)
        requires
            old(self).wf(),
        ensures
            final(self).wf(),
            added <==> 0 < written_segments(*message).len() <= u32::MAX && old(self).counted()
                + frame(written_segments(*message)).len() <= usize::MAX,
            final(self)@ == if added {
                add_message(old(self)@, written_segments(*message), old(self).limit())
            } else {
                old(self)@
            },
            final(self).spared() == spared_without(
                old(self).spared(),
                inline_count(final(self)@) - inline_count(old(self)@),
            ),
            final(self).counted() == if added {
                old(self).counted() + frame(written_segments(*message)).len()
            } else {
                old(self).counted()
            },
            final(self).limit() == old(self).limit(),
    {
        let ghost written = written_segments(*message);
        assert(spared_without(self.spared(), 0) =~= self.spared());
        let segments = output_segments(message);
        let count: usize = segments.len();
        if count == 0 || count > u32::MAX as usize {
            return false;
        }
        proof {
            lemma_table_is_table_len(written);
            lemma_table_len(written.len());
        }
        let head: usize = match (count / 2 + 1).checked_mul(WORD) {
            Some(head) => head,
            None => {
                return false;
            },
        };
        let mut sum: usize = match self.bytes.checked_add(head) {
            Some(sum) => sum,
            None => {
                return false;
            },
        };
        let mut at: usize = 0;
        assert(written.take(0) =~= Seq::<Seq<u8>>::empty());
        while at < segments.len()
            invariant
                *self == *old(self),
                self.wf(),
                spared_without(self.spared(), 0) == self.spared(),
                at <= segments@.len() == written.len(),
                written == written_segments(*message),
                forall|i: int|
                    0 <= i < segments@.len() ==> (#[trigger] segments@[i])@ == written[i],
                sum == self.bytes + table(written).len() + body(written.take(at as int)).len(),
            decreases segments@.len() - at,
        {
            proof {
                let next = written.take(at + 1);
                assert(next.drop_last() =~= written.take(at as int));
                assert(next.last() == segments@[at as int]@);
                lemma_body_front(written, at + 1);
            }
            sum = match sum.checked_add(segments[at].len()) {
                Some(sum) => sum,
                None => {
                    return false;
                },
            };
            at = at + 1;
        }
        assert(written.take(at as int) =~= written);
        self.push(message);
        true
    }
}

/// Copies a segment table.
fn put_table(out: &mut Vec<u8>, segments: &Vec<&[u8]>, written: Ghost<Seq<Seq<u8>>>)
    requires
        0 < segments@.len() <= u32::MAX,
        segments@.len() == written@.len(),
        forall|i: int| 0 <= i < segments@.len() ==> (#[trigger] segments@[i])@ == written@[i],
    ensures
        final(out)@ == old(out)@ + table(written@),
{
    let ghost lengths = word_lengths(written@);
    let ghost head = le_bytes((written@.len() - 1) as nat, 4);
    put_le(out, (segments.len() - 1) as u64, 4);
    let mut at: usize = 0;
    assert(length_fields(lengths.take(0)) =~= Seq::<u8>::empty());
    assert(out@ =~= old(out)@ + head + length_fields(lengths.take(0)));
    while at < segments.len()
        invariant
            at <= segments@.len() == written@.len(),
            forall|i: int| 0 <= i < segments@.len() ==> (#[trigger] segments@[i])@ == written@[i],
            lengths == word_lengths(written@),
            out@ == old(out)@ + head + length_fields(lengths.take(at as int)),
        decreases segments@.len() - at,
    {
        let ghost before = out@;
        put_le(out, (segments[at].len() / WORD) as u64, 4);
        proof {
            assert(lengths.take(at + 1).drop_last() =~= lengths.take(at as int));
            assert(out@ =~= old(out)@ + head + length_fields(lengths.take(at + 1)));
        }
        at = at + 1;
    }
    assert(lengths.take(at as int) =~= lengths);
    if segments.len() % 2 == 0 {
        let ghost before = out@;
        out.push(0);
        out.push(0);
        out.push(0);
        out.push(0);
        assert(out@ =~= before + table_padding(written@.len()));
    } else {
        assert(out@ =~= out@ + table_padding(written@.len()));
    }
    assert(out@ =~= old(out)@ + table(written@));
}

/// The front of some segments has no more bytes than all of them.
proof fn lemma_body_front(segments: Seq<Seq<u8>>, count: int)
    requires
        0 <= count <= segments.len(),
    ensures
        body(segments.take(count)).len() <= body(segments).len(),
    decreases segments.len() - count,
{
    if count < segments.len() {
        lemma_body_front(segments, count + 1);
        assert(segments.take(count + 1).drop_last() =~= segments.take(count));
    } else {
        assert(segments.take(count) =~= segments);
    }
}

/// Buffers that are kept for later never have more than the budget between them.
pub proof fn law_spares_stay_within_budget(batch: &Batch)
    requires
        batch.wf(),
    ensures
        total(batch.spared()) <= SPARE_BUDGET,
{
}

/// A batch whose chunks were handed out and taken back is as good as new: it is empty and counts
/// nothing, whatever is added gives the chunks and the bytes that it gives in a fresh batch, and
/// the buffers that it kept are within the budget.
pub proof fn law_recycled_batch_is_as_new(
    before: &Batch,
    between: &Batch,
    after: &Batch,
    chunks: Seq<Chunk>,
    offered: Seq<nat>,
    messages: Seq<Seq<Seq<u8>>>,
)
    requires
        taken(*before, *between, chunks),
        after.wf(),
        recycled(*between, *after, views(chunks), offered),
        forall|i: int| 0 <= i < messages.len() ==> (#[trigger] messages[i]).len() > 0,
    ensures
        after@.len() == 0,
        after.counted() == 0,
        after.limit() == before.limit(),
        add_messages(after@, messages, after.limit()) == add_messages(
            Seq::empty(),
            messages,
            before.limit(),
        ),
        content(add_messages(after@, messages, after.limit())) == frames(messages),
        total(after.spared()) <= SPARE_BUDGET,
{
    law_spares_stay_within_budget(after);
    law_add_messages(after@, messages, after.limit());
    assert(content(after@) + frames(messages) =~= frames(messages));
}

/// What chunks amount to is what each of them holds, one after the other, copied or not.
pub proof fn law_content_is_the_chunks(chunks: Seq<ChunkView>, chunk: ChunkView)
    ensures
        content(Seq::empty()) == Seq::<u8>::empty(),
        content(chunks.push(chunk)) == content(chunks) + match chunk {
            ChunkView::Inline(bytes) => bytes,
            ChunkView::Segment(bytes) => bytes,
        },
{
    assert(chunks.push(chunk).drop_last() =~= chunks);
}

/// The segments among chunks that are sent from where they lie.
pub open spec fn lying(chunks: Seq<ChunkView>) -> Seq<Seq<u8>>
    decreases chunks.len(),
{
    if chunks.len() == 0 {
        Seq::empty()
    } else {
        match chunks.last() {
            ChunkView::Segment(bytes) => lying(chunks.drop_last()).push(bytes),
            ChunkView::Inline(_) => lying(chunks.drop_last()),
        }
    }
}

/// Those of `segments` that are longer than a limit.
pub open spec fn longer_than(segments: Seq<Seq<u8>>, limit: nat) -> Seq<Seq<u8>>
    decreases segments.len(),
{
    if segments.len() == 0 {
        Seq::empty()
    } else if segments.last().len() > limit {
        longer_than(segments.drop_last(), limit).push(segments.last())
    } else {
        longer_than(segments.drop_last(), limit)
    }
}

/// Whether no two neighbours among chunks were copied.
pub open spec fn joined(chunks: Seq<ChunkView>) -> bool {
    forall|i: int|
        0 < i < chunks.len() ==> chunks[i - 1] is Segment || (#[trigger] chunks[i]) is Segment
}

proof fn lemma_lying_inline(chunks: Seq<ChunkView>, bytes: Seq<u8>)
    ensures
        lying(append_inline(chunks, bytes)) == lying(chunks),
        joined(chunks) ==> joined(append_inline(chunks, bytes)),
{
    let longer = append_inline(chunks, bytes);
    if chunks.len() > 0 && chunks.last() is Inline {
        assert(longer.drop_last() =~= chunks.drop_last());
        assert(forall|i: int| 0 <= i < chunks.len() - 1 ==> longer[i] == chunks[i]);
    } else {
        assert(longer.drop_last() =~= chunks);
    }
}

proof fn lemma_lying_segments(chunks: Seq<ChunkView>, segments: Seq<Seq<u8>>, inline_limit: nat)
    ensures
        lying(add_segments(chunks, segments, inline_limit)) == lying(chunks) + longer_than(
            segments,
            inline_limit,
        ),
        joined(chunks) ==> joined(add_segments(chunks, segments, inline_limit)),
    decreases segments.len(),
{
    if segments.len() == 0 {
        assert(lying(chunks) + longer_than(segments, inline_limit) =~= lying(chunks));
    } else {
        let front = segments.drop_last();
        let before = add_segments(chunks, front, inline_limit);
        let segment = segments.last();
        lemma_lying_segments(chunks, front, inline_limit);
        if segment.len() > inline_limit {
            assert(before.push(ChunkView::Segment(segment)).drop_last() =~= before);
            assert(lying(chunks) + longer_than(segments, inline_limit) =~= (lying(chunks)
                + longer_than(front, inline_limit)).push(segment));
        } else if segment.len() > 0 {
            lemma_lying_inline(before, segment);
        }
    }
}

/// Exactly the segments over the limit are sent from where they lie, in order and whole; all else
/// is copied, and what is copied next to one another lies in one chunk.
pub proof fn law_only_long_segments_are_not_copied(
    chunks: Seq<ChunkView>,
    segments: Seq<Seq<u8>>,
    inline_limit: nat,
)
    ensures
        lying(add_message(chunks, segments, inline_limit)) == lying(chunks) + longer_than(
            segments,
            inline_limit,
        ),
        joined(chunks) ==> joined(add_message(chunks, segments, inline_limit)),
{
    lemma_lying_inline(chunks, table(segments));
    lemma_lying_segments(append_inline(chunks, table(segments)), segments, inline_limit);
}

/// Messages are added one after the other.
pub proof fn law_messages_are_added_in_order(
    chunks: Seq<ChunkView>,
    messages: Seq<Seq<Seq<u8>>>,
    message: Seq<Seq<u8>>,
    inline_limit: nat,
)
    ensures
        add_messages(chunks, Seq::empty(), inline_limit) == chunks,
        add_messages(chunks, messages.push(message), inline_limit) == add_message(
            add_messages(chunks, messages, inline_limit),
            message,
            inline_limit,
        ),
{
    lemma_add_messages_push(chunks, messages, message, inline_limit);
}

/// A buffer that is offered is kept exactly where the buffers kept then have no more than two
/// megabytes between them; those kept before stay. Buffers are put to use from the latest on, as
/// many as are asked for or there are.
pub proof fn law_which_buffers_are_kept(spared: Seq<nat>, capacity: nat, used: nat)
    ensures
        total(spared) + capacity <= 2_097_152 ==> spared_with(spared, capacity) == spared.push(
            capacity,
        ),
        total(spared) + capacity > 2_097_152 ==> spared_with(spared, capacity) == spared,
        spared_without(spared, 0) == spared,
        spared_without(spared.push(capacity), used as int + 1) == spared_without(
            spared,
            used as int,
        ),
        spared_without(Seq::empty(), used as int) == Seq::<nat>::empty(),
{
    assert(spared_without(spared, 0) =~= spared);
    assert(spared_without(spared.push(capacity), used as int + 1) =~= spared_without(
        spared,
        used as int,
    ));
}

/// After a write the buffers of the chunks are offered in order, and a segment that was sent from
/// where it lies offers none.
pub proof fn law_buffers_are_offered_in_order(
    spared: Seq<nat>,
    chunks: Seq<ChunkView>,
    offered: Seq<nat>,
    bytes: Seq<u8>,
    capacity: nat,
)
    requires
        offered.len() == chunks.len(),
    ensures
        spared_after(spared, Seq::empty(), Seq::empty()) == spared,
        spared_after(spared, chunks.push(ChunkView::Inline(bytes)), offered.push(capacity))
            == spared_with(spared_after(spared, chunks, offered), capacity),
        spared_after(spared, chunks.push(ChunkView::Segment(bytes)), offered.push(capacity))
            == spared_after(spared, chunks, offered),
{
    assert(offered.push(capacity).drop_last() =~= offered);
    assert(chunks.push(ChunkView::Inline(bytes)).drop_last() =~= chunks);
    assert(chunks.push(ChunkView::Segment(bytes)).drop_last() =~= chunks);
}

/// Every chunk that was copied counts once.
pub proof fn law_copied_chunks_are_counted(chunks: Seq<ChunkView>, bytes: Seq<u8>)
    ensures
        inline_count(Seq::empty()) == 0,
        inline_count(chunks.push(ChunkView::Inline(bytes))) == inline_count(chunks) + 1,
        inline_count(chunks.push(ChunkView::Segment(bytes))) == inline_count(chunks),
{
    assert(chunks.push(ChunkView::Inline(bytes)).drop_last() =~= chunks);
    assert(chunks.push(ChunkView::Segment(bytes)).drop_last() =~= chunks);
}

/// What is handed out for writing is all that was there, in order, and none of it stays.
pub proof fn law_all_is_handed_out(before: Batch, after: Batch, chunks: Seq<Chunk>)
    requires
        taken(before, after, chunks),
    ensures
        chunks.len() == before@.len(),
        forall|i: int| 0 <= i < chunks.len() ==> (#[trigger] chunks[i])@ == before@[i],
        forall|i: int| 0 <= i < chunks.len() ==> (#[trigger] chunks[i]).wf(),
        after@.len() == 0,
        after.counted() == 0,
        after.spared() == before.spared(),
        after.limit() == before.limit(),
{
    assert forall|i: int| 0 <= i < chunks.len() implies (#[trigger] chunks[i])@ == before@[i] by {
        assert(views(chunks)[i] == chunks[i]@);
    }
}

/// What is taken back after a write leaves the batch empty, and of its buffers those are kept that
/// the budget has room for.
pub proof fn law_buffers_are_taken_back(
    before: Batch,
    after: Batch,
    chunks: Seq<ChunkView>,
    offered: Seq<nat>,
)
    requires
        recycled(before, after, chunks, offered),
    ensures
        after@.len() == 0,
        after.spared() == spared_after(before.spared(), chunks, offered),
        after.counted() == before.counted(),
        after.limit() == before.limit(),
{
}

/// Capacities are offered as they are measured, one for each chunk, and none is less than what the
/// buffer holds.
pub proof fn law_capacities_are_measured(
    chunks: Seq<ChunkView>,
    offered: Seq<nat>,
    capacities: Seq<usize>,
    at: int,
)
    requires
        measured(chunks, offered),
        0 <= at < chunks.len(),
    ensures
        offered.len() == chunks.len(),
        chunks[at] is Inline ==> offered[at] >= chunks[at].bytes().len(),
        sizes(capacities).len() == capacities.len(),
        forall|i: int|
            0 <= i < capacities.len() ==> #[trigger] capacities[i] == sizes(capacities)[i],
{
}

} // verus!
