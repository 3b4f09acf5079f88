//! The two ends of a connection and the order in which messages leave it.

use super::batch::{
    add_messages, content, inline_count, law_add_messages, law_spares_stay_within_budget,
    lemma_add_messages_push, measured, recycled, spared_after, spared_without, tidy, views,
    written_segments, Batch, Chunk, ChunkView, OutMessage, SPARE_BUDGET,
};
use super::frame::{frame, frames, lemma_table_is_table_len, lemma_table_len, total};
use vstd::prelude::*;

verus! {

/// The capacity of the staging buffer of a connection.
pub const STAGING_CAPACITY: usize = 64 * 1024;

/// Segments up to this length are copied.
pub const INLINE_LIMIT: usize = 4 * 1024;

/// A batch with this many chunks is written before more is added.
pub const BATCH_CHUNKS: usize = 64;

/// A batch with this many bytes is written before more is added.
pub const BATCH_BYTES: usize = 1024 * 1024;

/// What a sender is told whose message was not written.
pub const WRITER_STOPPED: &'static str = "the connection's writer has stopped";

/// What a second receiver on one connection is told.
pub const RECEIVE_IN_PROGRESS: &'static str = "a receive is already in progress on this connection";

/// One of the two ends of a connection.
#[derive(Debug, Clone, Copy, PartialEq, Eq, Structural)]
pub enum Side {
    Server,
    Client,
}

impl Side {
    /// The other end.
    pub open spec fn spec_peer(self) -> Side {
        match self {
            Side::Server => Side::Client,
            Side::Client => Side::Server,
        }
    }

    /// The other end.
    pub fn peer(self) -> (peer: Side)
        ensures
            peer == self.spec_peer(),
    {
        match self {
            Side::Server => Side::Client,
            Side::Client => Side::Server,
        }
    }

    /// Whether an end that asks for `host` is given a connection. The connection leads to the
    /// other end only.
    pub fn reaches(self, host: Side) -> (reaches: bool)
        ensures
            reaches <==> host == self.spec_peer(),
    {
        host != self
    }
}

/// What the writer of a connection is told.
pub enum Event {
    /// A message is to be written.
    Message(OutMessage),
    /// Nothing more will come; what has come is to be written.
    Done,
    /// Nothing is waiting to be written at the moment.
    Idle,
}

/// What the writer of a connection wants done.
pub enum Action {
    /// Look whether something more is waiting, and report it or [`Event::Idle`].
    Poll,
    /// Wait for something to write.
    Wait,
    /// Write the chunks in order and flush, then report to [`Writer::written`]. Once that has
    /// worked, acknowledge this many messages, the oldest that have not been acknowledged.
    Write { chunks: Vec<Chunk>, acknowledge: usize },
    /// Stop.
    Finish,
    /// The message cannot be framed. It was not taken.
    Refuse,
}

/// What the writer of a connection is told. [`Writer::written`] is the last of these.
pub enum EventView {
    Message(Seq<Seq<u8>>),
    Done,
    Idle,
    Written,
}

impl View for Event {
    type V = EventView;

    open spec fn view(&self) -> EventView {
        match self {
            Event::Message(message) => EventView::Message(written_segments(*message)),
            Event::Done => EventView::Done,
            Event::Idle => EventView::Idle,
        }
    }
}

/// What the writer of a connection wants done.
pub enum ActionView {
    Poll,
    Wait,
    Write { chunks: Seq<ChunkView>, acknowledge: nat },
    Finish,
    Refuse,
}

impl View for Action {
    type V = ActionView;

    open spec fn view(&self) -> ActionView {
        match self {
            Action::Poll => ActionView::Poll,
            Action::Wait => ActionView::Wait,
            Action::Write { chunks, acknowledge } => ActionView::Write {
                chunks: views(chunks@),
                acknowledge: *acknowledge as nat,
            },
            Action::Finish => ActionView::Finish,
            Action::Refuse => ActionView::Refuse,
        }
    }
}

impl Action {
    /// Whether the chunks to write are as they should be: none is empty, and only long segments
    /// are sent from where they lie.
    pub open spec fn is_sound(self) -> bool {
        self matches Action::Write { chunks, acknowledge } ==> {
            &&& tidy(views(chunks@), INLINE_LIMIT as nat)
            &&& forall|i: int| 0 <= i < chunks@.len() ==> (#[trigger] chunks@[i]).wf()
        }
    }
}

/// Gathers messages into writes.
pub struct Writer {
    batch: Batch,
    pending: usize,
    done: bool,
    messages: Ghost<Seq<Seq<Seq<u8>>>>,
}

/// The chunks that messages are written as.
pub open spec fn chunks_of(messages: Seq<Seq<Seq<u8>>>) -> Seq<ChunkView> {
    add_messages(Seq::empty(), messages, INLINE_LIMIT as nat)
}

/// Whether these messages are written before more is added.
pub open spec fn full(messages: Seq<Seq<Seq<u8>>>) -> bool {
    chunks_of(messages).len() >= BATCH_CHUNKS || frames(messages).len() >= BATCH_BYTES
}

/// A writer.
pub struct WriterView {
    /// The segments of the messages that were taken and not yet handed out for writing.
    pub queued: Seq<Seq<Seq<u8>>>,
    /// Whether nothing more will come.
    pub done: bool,
}

impl View for Writer {
    type V = WriterView;

    closed spec fn view(&self) -> WriterView {
        WriterView { queued: self.messages@, done: self.done }
    }
}

impl WriterView {
    /// Whether a message can be framed behind those that are to be written.
    pub open spec fn takes(self, segments: Seq<Seq<u8>>) -> bool {
        0 < segments.len() <= u32::MAX && frames(self.queued).len() + frame(segments).len()
            <= usize::MAX
    }

    /// The messages that are to be written once the writer has been told something.
    pub open spec fn gathered(self, event: EventView) -> Seq<Seq<Seq<u8>>> {
        match event {
            EventView::Message(segments) if self.takes(segments) => self.queued.push(segments),
            _ => self.queued,
        }
    }
}

/// Hands everything out for writing, or says what to do where there is nothing to write.
pub open spec fn flushed(queued: Seq<Seq<Seq<u8>>>, done: bool) -> (WriterView, ActionView) {
    (
        WriterView { queued: Seq::empty(), done },
        if queued.len() > 0 {
            ActionView::Write { chunks: chunks_of(queued), acknowledge: queued.len() }
        } else if done {
            ActionView::Finish
        } else {
            ActionView::Wait
        },
    )
}

/// How a writer goes on when it is told something. A write holds the messages that were taken since
/// the last write, in order, and acknowledges exactly these.
pub open spec fn writer_next(writer: WriterView, event: EventView) -> (WriterView, ActionView) {
    let gathered = writer.gathered(event);
    match event {
        EventView::Message(segments) => if !writer.takes(segments) {
            (writer, ActionView::Refuse)
        } else if full(gathered) {
            flushed(gathered, writer.done)
        } else {
            (WriterView { queued: gathered, ..writer }, ActionView::Poll)
        },
        EventView::Done => flushed(gathered, true),
        EventView::Idle => flushed(gathered, writer.done),
        EventView::Written => (
            writer,
            if writer.done {
                ActionView::Finish
            } else {
                ActionView::Wait
            },
        ),
    }
}

impl Writer {
    /// The capacities of the buffers that are kept for later writes.
    pub closed spec fn spared(&self) -> Seq<nat> {
        self.batch.spared()
    }

    pub closed spec fn wf(&self) -> bool {
        &&& self.batch.wf()
        &&& self.batch.limit() == INLINE_LIMIT
        &&& self.batch@ == chunks_of(self.messages@)
        &&& self.batch.counted() == frames(self.messages@).len()
        &&& self.pending == self.messages@.len()
        &&& 8 * self.pending <= frames(self.messages@).len()
        &&& forall|i: int|
            0 <= i < self.messages@.len() ==> (#[trigger] self.messages@[i]).len() > 0
    }

    /// A writer with nothing to write.
    pub fn new() -> (writer: Self)
        ensures
            writer.wf(),
            writer@ == (WriterView { queued: Seq::empty(), done: false }),
            writer.spared() == Seq::<nat>::empty(),
    {
        Writer {
            batch: Batch::new(INLINE_LIMIT),
            pending: 0,
            done: false,
            messages: Ghost(Seq::empty()),
        }
    }

    /// Hands everything out for writing, or says what to do where there is nothing to write.
    fn flush(&mut self) -> (action: Action)
        requires
            old(self).wf(),
        ensures
            final(self).wf(),
            (final(self)@, action@) == flushed(old(self)@.queued, old(self)@.done),
            final(self).spared() == old(self).spared(),
            action.is_sound(),
    {
        proof {
            law_add_messages(Seq::empty(), self.messages@, INLINE_LIMIT as nat);
            assert(content(Seq::empty()) + frames(self.messages@) =~= frames(self.messages@));
            lemma_frames_empty(self.messages@);
        }
        if self.batch.is_empty() {
            assert(self.messages@ =~= Seq::<Seq<Seq<u8>>>::empty());
            return if self.done {
                Action::Finish
            } else {
                Action::Wait
            };
        }
        let acknowledge: usize = self.pending;
        let chunks = self.batch.take();
        self.pending = 0;
        self.messages = Ghost(Seq::empty());
        Action::Write { chunks, acknowledge }
    }

    /// Says what to do next. A write holds exactly the frames of the messages that were taken
    /// since the last write, in order. A message takes as many of the buffers that are kept as it
    /// opens new chunks to copy into.
    pub fn on(&mut self, event: Event) -> (action: Action)
        requires
            old(self).wf(),
        ensures
            final(self).wf(),
            (final(self)@, action@) == writer_next(old(self)@, event@),
            action.is_sound(),
            action@ matches ActionView::Write { chunks, acknowledge } ==> content(chunks)
                == frames(old(self)@.gathered(event@)),
            final(self).spared() == spared_without(
                old(self).spared(),
                inline_count(chunks_of(old(self)@.gathered(event@))) - inline_count(
                    chunks_of(old(self)@.queued),
                ),
            ),
    {
        proof {
            assert(spared_without(self.spared(), 0) =~= self.spared());
            lemma_writes_are_frames(self@.gathered(event@));
        }
        match event {
            Event::Message(message) => {
                let ghost segments = written_segments(message);
                let ghost before = self.messages@;
                proof {
                    lemma_frames_push(before, segments);
                    lemma_add_messages_push(Seq::empty(), before, segments, INLINE_LIMIT as nat);
                    lemma_table_is_table_len(segments);
                    lemma_table_len(segments.len());
                }
                if !self.batch.try_push(&message) {
                    return Action::Refuse;
                }
                self.pending = self.pending + 1;
                self.messages = Ghost(before.push(segments));
                if self.batch.chunk_count() >= BATCH_CHUNKS || self.batch.byte_count()
                    >= BATCH_BYTES {
                    self.flush()
                } else {
                    Action::Poll
                }
            },
            Event::Done => {
                self.done = true;
                self.flush()
            },
            Event::Idle => self.flush(),
        }
    }

    /// Says what to do next after the chunks of a write have been written and flushed. Their
    /// buffers are kept for later writes, as far as the budget for them goes.
    pub fn written(&mut self, chunks: Vec<Chunk>) -> (action: Action)
        requires
            old(self).wf(),
            old(self)@.queued.len() == 0,
        ensures
            final(self).wf(),
            (final(self)@, action@) == writer_next(old(self)@, EventView::Written),
            exists|offered: Seq<nat>|
                measured(views(chunks@), offered) && final(self).spared()
                    == #[trigger] spared_after(old(self).spared(), views(chunks@), offered),
    {
        let ghost before = self.batch;
        let ghost all = views(chunks@);
        self.batch.recycle(chunks);
        proof {
            let offered = choose|offered: Seq<nat>|
                measured(all, offered) && #[trigger] recycled(before, self.batch, all, offered);
            assert(self.spared() == spared_after(old(self).spared(), all, offered));
            assert(self.messages@ =~= Seq::<Seq<Seq<u8>>>::empty());
        }
        if self.done {
            Action::Finish
        } else {
            Action::Wait
        }
    }
}

/// Buffers that a writer keeps for later never have more than the budget between them.
pub proof fn law_writer_spares_stay_within_budget(writer: &Writer)
    requires
        writer.wf(),
    ensures
        total(writer.spared()) <= SPARE_BUDGET,
{
    law_spares_stay_within_budget(&writer.batch);
}

/// Chunks of messages hold the frames of the messages.
proof fn lemma_writes_are_frames(messages: Seq<Seq<Seq<u8>>>)
    requires
        forall|i: int| 0 <= i < messages.len() ==> (#[trigger] messages[i]).len() > 0,
    ensures
        content(chunks_of(messages)) == frames(messages),
{
    law_add_messages(Seq::empty(), messages, INLINE_LIMIT as nat);
    assert(content(Seq::empty()) + frames(messages) =~= frames(messages));
}

/// One more message adds its frame at the end.
proof fn lemma_frames_push(messages: Seq<Seq<Seq<u8>>>, message: Seq<Seq<u8>>)
    ensures
        frames(messages.push(message)) == frames(messages) + frame(message),
    decreases messages.len(),
{
    let all = messages.push(message);
    if messages.len() == 0 {
        assert(all.drop_first() =~= Seq::<Seq<Seq<u8>>>::empty());
        assert(frames(Seq::<Seq<Seq<u8>>>::empty()) =~= Seq::<u8>::empty());
        assert(frames(all) =~= frames(messages) + frame(message));
    } else {
        assert(all.drop_first() =~= messages.drop_first().push(message));
        lemma_frames_push(messages.drop_first(), message);
        assert(frames(all) =~= frames(messages) + frame(message));
    }
}

/// Messages take up no bytes only where there are none.
proof fn lemma_frames_empty(messages: Seq<Seq<Seq<u8>>>)
    requires
        forall|i: int| 0 <= i < messages.len() ==> (#[trigger] messages[i]).len() > 0,
    ensures
        messages.len() > 0 ==> frames(messages).len() > 0,
{
    if messages.len() > 0 {
        lemma_table_is_table_len(messages[0]);
        lemma_table_len(messages[0].len());
    }
}

/// A writer that has been told `events`, and what it wanted done after each of them.
pub open spec fn writer_run(events: Seq<EventView>) -> (WriterView, Seq<ActionView>)
    decreases events.len(),
{
    if events.len() == 0 {
        (WriterView { queued: Seq::empty(), done: false }, Seq::empty())
    } else {
        let (writer, actions) = writer_run(events.drop_last());
        let (next, action) = writer_next(writer, events.last());
        (next, actions.push(action))
    }
}

/// The messages among `events` that the writer took.
pub open spec fn taken(events: Seq<EventView>) -> Seq<Seq<Seq<u8>>>
    decreases events.len(),
{
    if events.len() == 0 {
        Seq::empty()
    } else {
        let before = taken(events.drop_last());
        match events.last() {
            EventView::Message(segments) => if writer_run(events).1.last() is Refuse {
                before
            } else {
                before.push(segments)
            },
            _ => before,
        }
    }
}

/// The bytes that `actions` write, one after the other.
pub open spec fn written_bytes(actions: Seq<ActionView>) -> Seq<u8>
    decreases actions.len(),
{
    if actions.len() == 0 {
        Seq::empty()
    } else {
        written_bytes(actions.drop_last()) + match actions.last() {
            ActionView::Write { chunks, acknowledge } => content(chunks),
            _ => Seq::empty(),
        }
    }
}

/// How many messages `actions` acknowledge.
pub open spec fn acknowledged(actions: Seq<ActionView>) -> nat
    decreases actions.len(),
{
    if actions.len() == 0 {
        0
    } else {
        acknowledged(actions.drop_last()) + match actions.last() {
            ActionView::Write { chunks, acknowledge } => acknowledge,
            _ => 0,
        }
    }
}

/// What the writer wanted done last. It waits at first.
pub open spec fn last_action(actions: Seq<ActionView>) -> ActionView {
    if actions.len() == 0 {
        ActionView::Wait
    } else {
        actions.last()
    }
}

/// Whether `event` can come of doing what the writer wants.
pub open spec fn answers(event: EventView, action: ActionView) -> bool {
    match action {
        ActionView::Poll => !(event is Written),
        ActionView::Wait => event is Message || event is Done,
        ActionView::Write { chunks, acknowledge } => event is Written,
        ActionView::Finish => false,
        ActionView::Refuse => !(event is Written),
    }
}

/// Whether each of `events` came of doing what the writer wanted.
pub open spec fn orderly(events: Seq<EventView>) -> bool
    decreases events.len(),
{
    events.len() == 0 || {
        &&& orderly(events.drop_last())
        &&& answers(events.last(), last_action(writer_run(events.drop_last()).1))
    }
}

/// Whatever a writer is told, in whatever order: the writes, joined, and the messages that are
/// still to be written are the frames of the messages that it took, in order. Each of these is
/// acknowledged once, with the write that holds it.
pub proof fn law_writes_are_the_messages_taken(events: Seq<EventView>)
    ensures
        ({
            let (writer, actions) = writer_run(events);
            &&& written_bytes(actions) + frames(writer.queued) == frames(taken(events))
            &&& acknowledged(actions) + writer.queued.len() == taken(events).len()
            &&& forall|i: int|
                0 <= i < writer.queued.len() ==> (#[trigger] writer.queued[i]).len() > 0
        }),
    decreases events.len(),
{
    let empty = Seq::<Seq<Seq<u8>>>::empty();
    if events.len() == 0 {
        assert(written_bytes(Seq::empty()) + frames(empty) =~= frames(empty));
    } else {
        let (before, earlier) = writer_run(events.drop_last());
        let (after, actions) = writer_run(events);
        let event = events.last();
        let gathered = before.gathered(event);
        law_writes_are_the_messages_taken(events.drop_last());
        assert(actions.drop_last() =~= earlier);
        if let EventView::Message(segments) = event {
            lemma_frames_push(before.queued, segments);
            lemma_frames_push(taken(events.drop_last()), segments);
            assert(written_bytes(earlier) + (frames(before.queued) + frame(segments))
                =~= written_bytes(earlier) + frames(before.queued) + frame(segments));
        }
        assert(written_bytes(earlier) + frames(gathered) == frames(taken(events)));
        assert forall|i: int| 0 <= i < gathered.len() implies (#[trigger] gathered[i]).len()
            > 0 by {
            if i < before.queued.len() {
                assert(gathered[i] == before.queued[i]);
            }
        }
        lemma_writes_are_frames(gathered);
        assert(written_bytes(actions) + frames(after.queued) =~= written_bytes(earlier) + frames(
            gathered,
        ));
    }
}

/// A writer whose wants are done in turn writes and acknowledges all that it took before it waits
/// or stops. It stops only once it has been told that nothing more will come; then there is at most
/// one write left, and nothing follows when it stops.
pub proof fn law_writer_stops_once(events: Seq<EventView>)
    requires
        orderly(events),
    ensures
        ({
            let (writer, actions) = writer_run(events);
            let last = last_action(actions);
            &&& actions.len() == events.len()
            &&& last is Write || last is Wait || last is Finish ==> {
                &&& written_bytes(actions) == frames(taken(events))
                &&& acknowledged(actions) == taken(events).len()
            }
            &&& forall|i: int| 0 <= i < events.len() - 1 ==> !((#[trigger] actions[i]) is Finish)
            &&& forall|i: int| 0 <= i < events.len() - 2 ==> !((#[trigger] events[i]) is Done)
            &&& last is Finish ==> exists|i: int|
                0 <= i < events.len() && (#[trigger] events[i]) is Done
        }),
{
    law_writes_are_the_messages_taken(events);
    lemma_orderly(events);
    let (writer, actions) = writer_run(events);
    let last = last_action(actions);
    if last is Write || last is Wait || last is Finish {
        assert(written_bytes(actions) + frames(writer.queued) =~= written_bytes(actions));
    }
}

proof fn lemma_orderly(events: Seq<EventView>)
    requires
        orderly(events),
    ensures
        ({
            let (writer, actions) = writer_run(events);
            let last = last_action(actions);
            &&& actions.len() == events.len()
            &&& last is Write || last is Wait || last is Finish ==> writer.queued.len() == 0
            &&& last is Poll || last is Wait || last is Refuse ==> !writer.done
            &&& last is Finish ==> writer.done
            &&& writer.done ==> exists|i: int|
                0 <= i < events.len() && (#[trigger] events[i]) is Done
            &&& forall|i: int|
                0 <= i < events.len() && (#[trigger] events[i]) is Done ==> writer.done
            &&& forall|i: int| 0 <= i < events.len() - 1 ==> !((#[trigger] actions[i]) is Finish)
            &&& forall|i: int| 0 <= i < events.len() - 2 ==> !((#[trigger] events[i]) is Done)
            &&& last is Write ==> forall|i: int|
                0 <= i < events.len() - 1 ==> !((#[trigger] events[i]) is Done)
        }),
    decreases events.len(),
{
    if events.len() > 0 {
        let front = events.drop_last();
        lemma_orderly(front);
        let (before, earlier) = writer_run(front);
        let (after, actions) = writer_run(events);
        assert(forall|i: int| 0 <= i < front.len() ==> front[i] == events[i]);
        assert(forall|i: int| 0 <= i < earlier.len() ==> earlier[i] == actions[i]);
        if before.done {
            let i = choose|i: int| 0 <= i < front.len() && (#[trigger] front[i]) is Done;
            assert(events[i] is Done);
        }
        if after.done && !before.done {
            assert(events[events.len() - 1] is Done);
        }
    }
}

/// A message is refused exactly where it cannot be framed: it has no segments, or more than 32 bits
/// can count, or its frame and those that are still to be written do not fit in memory together.
/// Every other message is taken, however long it is.
pub proof fn law_only_what_cannot_be_framed_is_refused(
    writer: WriterView,
    segments: Seq<Seq<u8>>,
)
    ensures
        ({
            let (next, action) = writer_next(writer, EventView::Message(segments));
            &&& action is Refuse <==> segments.len() == 0 || segments.len() > 0xffff_ffff || frames(
                writer.queued,
            ).len() + frame(segments).len() > usize::MAX
            &&& action is Refuse ==> next == writer && writer.gathered(EventView::Message(segments))
                == writer.queued
            &&& !(action is Refuse) ==> writer.gathered(EventView::Message(segments))
                == writer.queued.push(segments)
        }),
        writer.gathered(EventView::Done) == writer.queued,
        writer.gathered(EventView::Idle) == writer.queued,
        writer.gathered(EventView::Written) == writer.queued,
{
}

/// The messages that a writer takes are all that it is told of but for those that cannot be framed.
pub proof fn law_every_other_message_is_taken(
    events: Seq<EventView>,
    segments: Seq<Seq<u8>>,
)
    ensures
        ({
            let queued = writer_run(events).0.queued;
            let all = taken(events.push(EventView::Message(segments)));
            if segments.len() == 0 || segments.len() > 0xffff_ffff || frames(queued).len() + frame(
                segments,
            ).len() > usize::MAX {
                all == taken(events)
            } else {
                all == taken(events).push(segments)
            }
        }),
        taken(Seq::empty()) == Seq::<Seq<Seq<u8>>>::empty(),
        taken(events.push(EventView::Done)) == taken(events),
        taken(events.push(EventView::Idle)) == taken(events),
        taken(events.push(EventView::Written)) == taken(events),
{
    let longer = events.push(EventView::Message(segments));
    assert(longer.drop_last() =~= events);
    law_only_what_cannot_be_framed_is_refused(writer_run(events).0, segments);
    assert(writer_run(longer).1.last() == writer_next(
        writer_run(events).0,
        EventView::Message(segments),
    ).1);
    assert(events.push(EventView::Done).drop_last() =~= events);
    assert(events.push(EventView::Idle).drop_last() =~= events);
    assert(events.push(EventView::Written).drop_last() =~= events);
}

/// A message that is taken is written at once where the messages then make 64 chunks or a megabyte,
/// together with all that were waiting; otherwise it waits, and the writer looks for more.
pub proof fn law_when_a_message_is_written(writer: WriterView, segments: Seq<Seq<u8>>)
    requires
        forall|i: int| 0 <= i < writer.queued.len() ==> (#[trigger] writer.queued[i]).len() > 0,
    ensures
        ({
            let (next, action) = writer_next(writer, EventView::Message(segments));
            let all = writer.queued.push(segments);
            let chunks = add_messages(Seq::empty(), all, 4096);
            &&& next.done == writer.done
            &&& !(action is Refuse) ==> if chunks.len() >= 64 || frames(all).len() >= 1_048_576 {
                &&& action == (ActionView::Write { chunks, acknowledge: all.len() })
                &&& content(chunks) == frames(all)
                &&& next.queued.len() == 0
            } else {
                &&& action is Poll
                &&& next.queued == all
            }
        }),
{
    let all = writer.queued.push(segments);
    if segments.len() > 0 {
        assert forall|i: int| 0 <= i < all.len() implies (#[trigger] all[i]).len() > 0 by {
            if i < writer.queued.len() {
                assert(all[i] == writer.queued[i]);
            }
        }
        lemma_writes_are_frames(all);
    }
}

/// Where nothing is waiting, or nothing more will come, all that was taken is written and
/// acknowledged. Where there is nothing to write, a writer stops that was told so and another
/// waits.
pub proof fn law_when_what_waits_is_written(writer: WriterView)
    requires
        forall|i: int| 0 <= i < writer.queued.len() ==> (#[trigger] writer.queued[i]).len() > 0,
    ensures
        forall|event: EventView|
            #![trigger writer_next(writer, event)]
            event is Idle || event is Done ==> {
                let (next, action) = writer_next(writer, event);
                let chunks = add_messages(Seq::empty(), writer.queued, 4096);
                &&& next.queued.len() == 0
                &&& next.done <==> writer.done || event is Done
                &&& writer.queued.len() > 0 ==> action == (ActionView::Write {
                    chunks,
                    acknowledge: writer.queued.len(),
                }) && content(chunks) == frames(writer.queued)
                &&& writer.queued.len() == 0 && next.done ==> action is Finish
                &&& writer.queued.len() == 0 && !next.done ==> action is Wait
            },
        ({
            let (next, action) = writer_next(writer, EventView::Written);
            &&& next == writer
            &&& writer.done ==> action is Finish
            &&& !writer.done ==> action is Wait
        }),
{
    lemma_writes_are_frames(writer.queued);
}

/// The numbers that a connection goes by.
pub proof fn law_connection_numbers()
    ensures
        STAGING_CAPACITY == 65_536,
        INLINE_LIMIT == 4096,
        BATCH_CHUNKS == 64,
        BATCH_BYTES == 1_048_576,
        SPARE_BUDGET == 2_097_152,
{
}

/// The two ends lead to one another.
pub proof fn law_ends_lead_to_one_another(side: Side)
    ensures
        side.spec_peer() != side,
        side.spec_peer().spec_peer() == side,
{
}

/// What a writer is told and wants is seen as what it is.
pub proof fn law_writer_views(message: OutMessage, chunks: Vec<Chunk>, acknowledge: usize)
    ensures
        Event::Message(message)@ == EventView::Message(written_segments(message)),
        Event::Done@ == EventView::Done,
        Event::Idle@ == EventView::Idle,
        Action::Poll@ == ActionView::Poll,
        Action::Wait@ == ActionView::Wait,
        Action::Finish@ == ActionView::Finish,
        Action::Refuse@ == ActionView::Refuse,
        (Action::Write { chunks, acknowledge })@ == (ActionView::Write {
            chunks: views(chunks@),
            acknowledge: acknowledge as nat,
        }),
        views(chunks@).len() == chunks@.len(),
        forall|i: int| 0 <= i < chunks@.len() ==> (#[trigger] chunks@[i])@ == views(chunks@)[i],
{
}

/// What is to be written can be: each chunk holds something, and one that was not copied is a
/// segment of more than four kilobytes.
pub proof fn law_chunks_to_write_are_sound(chunks: Vec<Chunk>, acknowledge: usize, at: int)
    requires
        (Action::Write { chunks, acknowledge }).is_sound(),
        0 <= at < chunks@.len(),
    ensures
        chunks@[at].wf(),
        chunks@[at]@.bytes().len() > 0,
        chunks@[at]@ is Segment ==> chunks@[at]@.bytes().len() > 4096,
{
    assert(views(chunks@)[at] == chunks@[at]@);
}

} // verus!
