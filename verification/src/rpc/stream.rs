//! Reading a whole stream that arrives in pieces.

use super::frame::{
    all_acceptable, frames, law_more_bytes_change_nothing, law_stream_cut_on_a_boundary,
    lemma_consumed, lemma_refused, read_frame, read_stream, FrameError, Parse, StreamEnd,
};
use super::inbound::{owned_segments, Body, Inbound, ReaderOptions, Step};
use capnp::serialize::OwnedSegments;
use capnp::ErrorKind;
use vstd::prelude::*;

verus! {

/// A byte stream that gives out a set number of bytes at a time.
pub struct Trickle<'a> {
    data: &'a [u8],
    pos: usize,
    steps: &'a [usize],
    step: usize,
}

/// How many bytes the read in turn `turn` gives out at most: as many as its step says, but one at
/// least, and any number where there are no steps.
pub open spec fn step_of(steps: Seq<usize>, turn: nat) -> nat {
    if steps.len() == 0 {
        usize::MAX as nat
    } else if steps[turn as int] == 0 {
        1
    } else {
        steps[turn as int] as nat
    }
}

/// The smallest of three numbers.
pub open spec fn least(a: nat, b: nat, c: nat) -> nat {
    if a <= b && a <= c {
        a
    } else if b <= c {
        b
    } else {
        c
    }
}

impl<'a> Trickle<'a> {
    pub closed spec fn wf(&self) -> bool {
        &&& self.pos <= self.data@.len()
        &&& self.steps@.len() > 0 ==> self.step < self.steps@.len()
        &&& self.steps@.len() == 0 ==> self.step == 0
    }

    /// The bytes that have not been given out yet.
    pub closed spec fn rest(&self) -> Seq<u8> {
        self.data@.skip(self.pos as int)
    }

    /// How many bytes the reads give out, in turn.
    pub closed spec fn steps(&self) -> Seq<usize> {
        self.steps@
    }

    /// Whose turn it is.
    pub closed spec fn turn(&self) -> nat {
        self.step as nat
    }

    /// Reads of `data` give out `steps` bytes in turn, or everything where there are no steps.
    pub fn new(data: &'a [u8], steps: &'a [usize]) -> (trickle: Self)
        ensures
            trickle.wf(),
            trickle.rest() == data@,
            trickle.steps() == steps@,
            trickle.turn() == 0,
    {
        let trickle = Trickle { data, pos: 0, steps, step: 0 };
        assert(trickle.rest() =~= data@);
        trickle
    }

    /// The next bytes, no more than `room`.
    pub fn read(&mut self, room: usize) -> (bytes: &'a [u8])
        requires
            old(self).wf(),
        ensures
            final(self).wf(),
            final(self).steps() == old(self).steps(),
            final(self).turn() == if old(self).turn() + 1 < old(self).steps().len() {
                old(self).turn() + 1
            } else {
                0
            },
            old(self).rest() == bytes@ + final(self).rest(),
            bytes@.len() == least(
                step_of(old(self).steps(), old(self).turn()),
                room as nat,
                old(self).rest().len(),
            ),
            bytes@.len() == 0 <==> room == 0 || old(self).rest().len() == 0,
    {
        let step: usize = if self.steps.len() == 0 {
            usize::MAX
        } else if self.steps[self.step] == 0 {
            1
        } else {
            self.steps[self.step]
        };
        self.step = if self.step < self.steps.len() && self.step + 1 < self.steps.len() {
            self.step + 1
        } else {
            0
        };
        let left: usize = self.data.len() - self.pos;
        let most: usize = if step < room {
            step
        } else {
            room
        };
        let count: usize = if most < left {
            most
        } else {
            left
        };
        let end: usize = self.pos + count;
        let bytes = &self.data[self.pos..end];
        proof {
            assert(self.rest() =~= bytes@ + self.data@.skip(end as int));
        }
        self.pos = end;
        bytes
    }
}

/// What came of reading a stream: the messages, and how it ended.
pub type Outcome = (Vec<OwnedSegments>, Result<(), FrameError>);

/// Whether `outcome` is what `stream` holds for a reader with the given traversal limit.
pub open spec fn is_outcome(outcome: Outcome, stream: Seq<u8>, limit: Option<usize>) -> bool {
    let (messages, end) = read_stream(stream, limit);
    &&& message_contents(outcome.0@) == messages
    &&& outcome.1 == match end {
        StreamEnd::Clean => Ok::<(), FrameError>(()),
        StreamEnd::Truncated => Err(FrameError::PrematureEndOfFile),
        StreamEnd::Refused(error) => Err(error),
    }
}

/// The segments of each message.
pub open spec fn message_contents(messages: Seq<OwnedSegments>) -> Seq<Seq<Seq<u8>>> {
    Seq::new(messages.len(), |i: int| owned_segments(messages[i]))
}

/// Reads the rest of a body.
fn read_body(body: &mut Body, reader: &mut Trickle<'_>)
    requires
        old(body).wf(),
        old(reader).wf(),
    ensures
        final(body).wf(),
        final(body).limit() == old(body).limit(),
        final(reader).wf(),
        final(body).unread() + final(reader).rest() == old(body).unread() + old(reader).rest(),
        final(reader).rest().len() <= old(reader).rest().len(),
        final(body).filled() == final(body).content().len() || final(reader).rest().len() == 0,
{
    let mut filled: usize = body.as_init().len();
    let size: usize = body.as_uninit().len();
    let ghost whole = body.unread() + reader.rest();
    loop
        invariant
            body.wf(),
            body.limit() == old(body).limit(),
            reader.wf(),
            filled == body.filled() <= size == body.content().len(),
            whole == old(body).unread() + old(reader).rest(),
            body.unread() + reader.rest() == whole,
            reader.rest().len() <= old(reader).rest().len(),
        ensures
            body.filled() == body.content().len() || reader.rest().len() == 0,
        decreases reader.rest().len(),
    {
        let bytes = reader.read(size - filled);
        if bytes.len() == 0 {
            break ;
        }
        let ghost before = *body;
        let room = body.as_uninit();
        let (_front, back) = room.split_at_mut(filled);
        let (target, _rest) = back.split_at_mut(bytes.len());
        target.copy_from_slice(bytes);
        filled = filled + bytes.len();
        body.set_len(filled);
        proof {
            assert(body.content().take(filled as int) =~= before.content().take(
                before.filled() as int,
            ) + bytes@);
            assert(body.unread() + reader.rest() =~= before.unread() + (bytes@ + reader.rest()));
        }
    }
}

/// Why `capnp` cannot read a message.
#[derive(Debug, Clone, Copy, PartialEq, Eq, Structural)]
pub enum StockError {
    InvalidNumberOfSegments(usize),
    MessageSizeOverflow,
    MessageTooLarge(usize),
    FailedToFillTheWholeBuffer,
    /// Any other kind.
    Other,
}

/// The error of `capnp` for a message that is refused, or that the stream ends in.
pub open spec fn stock_error(error: FrameError) -> StockError {
    match error {
        FrameError::InvalidNumberOfSegments(count) => StockError::InvalidNumberOfSegments(count),
        FrameError::MessageSizeOverflow => StockError::MessageSizeOverflow,
        FrameError::MessageTooLarge(words) => StockError::MessageTooLarge(words),
        FrameError::PrematureEndOfFile => StockError::FailedToFillTheWholeBuffer,
    }
}

/// `capnp::serialize::try_read_message` on a slice: it reads the message at the front, by the
/// framing that [`read_frame`] states, and takes it off the slice. Nothing is there to be read
/// from an empty slice; a message that does not end in the slice fails to fill a buffer. What
/// is left of the slice after an error is not claimed. The buffer for a message has to fit in
/// memory.
#[verifier::external_body]
fn stock_message(stream: &mut &[u8], options: ReaderOptions) -> (read: Result<
    Option<OwnedSegments>,
    StockError,
>)
    requires
        options.addressable(),
    ensures
        if old(stream)@.len() == 0 {
            read matches Ok(None)
        } else {
            match read_frame(old(stream)@, options.traversal_limit_in_words) {
                Parse::Complete { segments, consumed } => {
                    &&& read matches Ok(Some(message))
                    &&& owned_segments(message) == segments
                    &&& final(stream)@ == old(stream)@.skip(consumed as int)
                },
                Parse::Refused(error) => read matches Err(why) && why == stock_error(error),
                Parse::Incomplete => read matches Err(why) && why
                    == StockError::FailedToFillTheWholeBuffer,
            }
        },
{
    let mut stock = capnp::message::ReaderOptions::new();
    stock.traversal_limit_in_words(options.traversal_limit_in_words);
    stock.nesting_limit(options.nesting_limit);
    match capnp::serialize::try_read_message(stream, stock) {
        Ok(message) => Ok(message.map(|message| message.into_segments())),
        Err(error) => Err(match error.kind {
            ErrorKind::InvalidNumberOfSegments(n) => StockError::InvalidNumberOfSegments(n),
            ErrorKind::MessageSizeOverflow => StockError::MessageSizeOverflow,
            ErrorKind::MessageTooLarge(words) => StockError::MessageTooLarge(words),
            ErrorKind::FailedToFillTheWholeBuffer => StockError::FailedToFillTheWholeBuffer,
            _ => StockError::Other,
        }),
    }
}

/// Reads all of `stream` with the reader of `capnp`. A stream that ends inside a message is
/// reported as that.
pub fn stock(stream: &[u8], options: ReaderOptions) -> (outcome: Outcome)
    requires
        options.addressable(),
    ensures
        is_outcome(outcome, stream@, options.traversal_limit_in_words),
{
    let ghost limit = options.traversal_limit_in_words;
    let mut rest = stream;
    let mut messages: Vec<OwnedSegments> = Vec::new();
    assert(message_contents(messages@) + read_stream(stream@, limit).0 =~= read_stream(
        stream@,
        limit,
    ).0);
    loop
        invariant
            options.addressable(),
            limit == options.traversal_limit_in_words,
            read_stream(stream@, limit) == (
                message_contents(messages@) + read_stream(rest@, limit).0,
                read_stream(rest@, limit).1,
            ),
        decreases rest@.len(),
    {
        let ghost before = messages@;
        let ghost whole = rest@;
        proof {
            lemma_consumed(whole, limit);
            assert(message_contents(messages@) + Seq::<Seq<Seq<u8>>>::empty()
                =~= message_contents(messages@));
        }
        match stock_message(&mut rest, options) {
            Ok(Some(message)) => {
                messages.push(message);
                proof {
                    lemma_next_message(before, message, whole, limit);
                }
            },
            Ok(None) => {
                return (messages, Ok(()));
            },
            Err(error) => {
                let end = match error {
                    StockError::InvalidNumberOfSegments(count) => {
                        FrameError::InvalidNumberOfSegments(count)
                    },
                    StockError::MessageSizeOverflow => FrameError::MessageSizeOverflow,
                    StockError::MessageTooLarge(words) => FrameError::MessageTooLarge(words),
                    StockError::FailedToFillTheWholeBuffer | StockError::Other => {
                        FrameError::PrematureEndOfFile
                    },
                };
                return (messages, Err(end));
            },
        }
    }
}

/// [`read_all`] accepts exactly what the reader of `capnp` accepts: of any stream, in steps of any
/// size and with any capacity, it gives the messages that [`stock`] gives and ends as it does.
pub proof fn law_reads_what_capnp_reads(
    ours: Outcome,
    theirs: Outcome,
    stream: Seq<u8>,
    limit: Option<usize>,
)
    requires
        is_outcome(ours, stream, limit),
        is_outcome(theirs, stream, limit),
    ensures
        message_contents(ours.0@) == message_contents(theirs.0@),
        ours.1 == theirs.1,
{
}

/// Reads all of `stream`, `steps` bytes at a time. What comes out is what the stream holds,
/// whatever the steps and the capacity of the staging buffer.
pub fn read_all(
    stream: &[u8],
    steps: &[usize],
    capacity: usize,
    options: ReaderOptions,
) -> (outcome: Outcome)
    requires
        capacity <= isize::MAX,
        options.addressable(),
    ensures
        is_outcome(outcome, stream@, options.traversal_limit_in_words),
{
    let ghost limit = options.traversal_limit_in_words;
    let mut reader = Trickle::new(stream, steps);
    let mut inbound = Inbound::new(options, capacity);
    let mut messages: Vec<OwnedSegments> = Vec::new();
    proof {
        assert(inbound.unread() + reader.rest() =~= stream@);
        assert(message_contents(messages@) + read_stream(stream@, limit).0 =~= read_stream(
            stream@,
            limit,
        ).0);
    }
    loop
        invariant
            inbound.wf(),
            inbound.options() == options,
            limit == options.traversal_limit_in_words,
            reader.wf(),
            read_stream(stream@, limit) == (
                message_contents(messages@) + read_stream(
                    inbound.unread() + reader.rest(),
                    limit,
                ).0,
                read_stream(inbound.unread() + reader.rest(), limit).1,
            ),
        decreases reader.rest().len(), inbound.unread().len(),
    {
        let ghost unread = inbound.unread();
        let ghost tail = reader.rest();
        let ghost whole = unread + tail;
        let ghost before = messages@;
        proof {
            lemma_consumed(unread, limit);
            lemma_refused(unread, limit);
            if !(read_frame(unread, limit) is Incomplete) {
                law_more_bytes_change_nothing(unread, tail, limit);
            }
        }
        match inbound.next() {
            Err(error) => {
                assert(message_contents(messages@) + Seq::<Seq<Seq<u8>>>::empty()
                    =~= message_contents(messages@));
                return (messages, Err(error));
            },
            Ok(Step::Message(message)) => {
                messages.push(message);
                proof {
                    lemma_next_message(before, message, whole, limit);
                    let consumed = read_frame(whole, limit)->consumed;
                    assert(whole.skip(consumed as int) =~= inbound.unread() + reader.rest());
                }
            },
            Ok(Step::Fill { staging, wanted }) => {
                let mut staging = staging;
                let ghost held = staging@;
                let bytes = reader.read(wanted - staging.len());
                staging.extend_from_slice(bytes);
                proof {
                    assert(staging@ =~= held + bytes@);
                    assert(inbound.unread() + staging@ =~= unread + bytes@);
                }
                match inbound.fill(staging, bytes.len()) {
                    Ok(true) => {
                        assert(inbound.unread() + reader.rest() =~= whole);
                    },
                    Ok(false) => {
                        assert(whole =~= Seq::<u8>::empty());
                        assert(message_contents(messages@) + Seq::<Seq<Seq<u8>>>::empty()
                            =~= message_contents(messages@));
                        return (messages, Ok(()));
                    },
                    Err(error) => {
                        assert(whole =~= unread);
                        assert(message_contents(messages@) + Seq::<Seq<Seq<u8>>>::empty()
                            =~= message_contents(messages@));
                        return (messages, Err(error));
                    },
                }
            },
            Ok(Step::ReadBody(body)) => {
                let mut body = body;
                read_body(&mut body, &mut reader);
                let ghost read = body.unread();
                let ghost left = reader.rest();
                proof {
                    assert(read + left =~= whole);
                    if left.len() == tail.len() {
                        assert(read =~= whole.take(read.len() as int));
                        assert(unread =~= whole.take(unread.len() as int));
                    }
                }
                match body.into_segments() {
                    Ok(message) => {
                        messages.push(message);
                        proof {
                            lemma_consumed(read, limit);
                            law_more_bytes_change_nothing(read, left, limit);
                            lemma_next_message(before, message, whole, limit);
                            let consumed = read_frame(whole, limit)->consumed;
                            assert(whole.skip(consumed as int) =~= inbound.unread()
                                + reader.rest());
                        }
                    },
                    Err(error) => {
                        assert(whole =~= read);
                        assert(message_contents(messages@) + Seq::<Seq<Seq<u8>>>::empty()
                            =~= message_contents(messages@));
                        return (messages, Err(error));
                    },
                }
            },
        }
    }
}

/// Taking one message off the front of `stream` moves it to the messages read.
proof fn lemma_next_message(
    messages: Seq<OwnedSegments>,
    message: OwnedSegments,
    stream: Seq<u8>,
    limit: Option<usize>,
)
    requires
        read_frame(stream, limit) matches Parse::Complete { segments, consumed } && segments
            == owned_segments(message),
    ensures
        ({
            let rest = stream.skip(read_frame(stream, limit)->consumed as int);
            &&& message_contents(messages) + read_stream(stream, limit).0 == message_contents(
                messages.push(message),
            ) + read_stream(rest, limit).0
            &&& read_stream(stream, limit).1 == read_stream(rest, limit).1
        }),
{
    lemma_consumed(stream, limit);
    let rest = stream.skip(read_frame(stream, limit)->consumed as int);
    assert(message_contents(messages.push(message)) =~= message_contents(messages).push(
        owned_segments(message),
    ));
    assert(message_contents(messages) + (seq![owned_segments(message)] + read_stream(rest, limit).0)
        =~= message_contents(messages.push(message)) + read_stream(rest, limit).0);
}

/// What came of reading a stream is all of its messages, in order and whole, and how it ended:
/// cleanly, inside a message, or with one that is refused for the reason given.
pub proof fn law_outcome_is_what_the_stream_holds(
    outcome: Outcome,
    stream: Seq<u8>,
    limit: Option<usize>,
)
    requires
        is_outcome(outcome, stream, limit),
    ensures
        ({
            let (messages, end) = read_stream(stream, limit);
            &&& outcome.0@.len() == messages.len()
            &&& forall|i: int|
                0 <= i < messages.len() ==> #[trigger] messages[i] == owned_segments(outcome.0@[i])
            &&& outcome.1 is Ok <==> end is Clean
            &&& end is Truncated ==> outcome.1 == Err::<(), FrameError>(
                FrameError::PrematureEndOfFile,
            )
            &&& end matches StreamEnd::Refused(error) ==> outcome.1 == Err::<(), FrameError>(error)
        }),
{
    let messages = read_stream(stream, limit).0;
    assert forall|i: int| 0 <= i < messages.len() implies #[trigger] messages[i] == owned_segments(
        outcome.0@[i],
    ) by {
        assert(message_contents(outcome.0@)[i] == messages[i]);
    }
}

/// Messages that were written and follow one another in a stream come out as they were, whoever
/// reads it, and the stream ends cleanly.
pub proof fn law_what_was_written_comes_out(
    outcome: Outcome,
    messages: Seq<Seq<Seq<u8>>>,
    limit: Option<usize>,
)
    requires
        all_acceptable(messages, limit),
        is_outcome(outcome, frames(messages), limit),
    ensures
        message_contents(outcome.0@) == messages,
        outcome.1 is Ok,
{
    law_stream_cut_on_a_boundary(messages, limit);
}

/// How many bytes a read gives out: no more than its step, the room and what is left, and as many
/// as that.
pub proof fn law_how_much_a_read_gives(
    steps: Seq<usize>,
    turn: nat,
    step: nat,
    room: nat,
    left: nat,
)
    requires
        turn < steps.len() || steps.len() == 0,
    ensures
        steps.len() == 0 ==> step_of(steps, turn) == usize::MAX,
        steps.len() > 0 && steps[turn as int] > 0 ==> step_of(steps, turn) == steps[turn as int],
        steps.len() > 0 && steps[turn as int] == 0 ==> step_of(steps, turn) == 1,
        least(step, room, left) <= step,
        least(step, room, left) <= room,
        least(step, room, left) <= left,
        least(step, room, left) == step || least(step, room, left) == room || least(
            step,
            room,
            left,
        ) == left,
{
}

} // verus!
