//! Trusting a peer for the program that it runs.

use crate::error::{HandshakeError, HandshakeFailure, Why};
use crate::text::{decimal, write_decimal};
use vstd::prelude::*;
use vstd::string::StringExecFns;

verus! {

/// The point in time that the two halves of a file time make.
pub fn file_time(high: u32, low: u32) -> (time: u64)
    ensures
        time == high * 0x1_0000_0000 + low,
{
    high as u64 * 0x1_0000_0000 + low as u64
}

/// Whether the process `pid`, created at `before` when its image was about to be verified and at
/// `after` once it had been, was the same all along.
pub fn same_process(pid: u32, before: u64, after: u64) -> (same: Result<(), HandshakeFailure>)
    ensures
        match same {
            Ok(()) => before == after,
            Err(failure) => before != after && failure@ == reused(pid),
        },
{
    if after != before {
        return Err(
            HandshakeFailure::with(
                HandshakeError::SignedProcessVerificationFailed,
                "pid ".to_owned().concat(write_decimal(pid as u64).as_str()).concat(
                    " was reused during verification",
                ),
            ),
        );
    }
    Ok(())
}

/// A step in verifying that the program of a process is signed.
///
/// A process is only known by its number, and a number can be given to another process once the
/// first has ended. So the time at which the process was created is asked for before its image is
/// verified and again afterwards.
#[derive(Debug, Clone, Copy, PartialEq, Eq, Structural)]
pub enum ProcessStep {
    /// Ask when the process was created.
    Before,
    /// Find the image of the process and verify its signature.
    Image { before: u64 },
    /// Ask again when the process was created.
    After { before: u64 },
}

/// How a step went.
pub enum ProcessEvent {
    /// When the process was created, or why that is not known.
    Created(Result<u64, HandshakeFailure>),
    /// Whether the image of the process is signed, or why it is not.
    Signed(Result<(), HandshakeFailure>),
}

/// What to do next in verifying that the program of a process is signed.
pub enum ProcessAction {
    /// Take this step and report how it went.
    Take(ProcessStep),
    /// This is how it all went.
    Finish(Result<(), HandshakeFailure>),
}

/// How a step went.
pub enum EventView {
    Created(Result<u64, Why>),
    Signed(Result<(), Why>),
}

/// What to do next in verifying that the program of a process is signed.
pub enum ActionView {
    Take(ProcessStep),
    Finish(Result<(), Why>),
}

impl View for ProcessEvent {
    type V = EventView;

    open spec fn view(&self) -> EventView {
        match self {
            ProcessEvent::Created(Ok(time)) => EventView::Created(Ok(*time)),
            ProcessEvent::Created(Err(failure)) => EventView::Created(Err(failure@)),
            ProcessEvent::Signed(Ok(())) => EventView::Signed(Ok(())),
            ProcessEvent::Signed(Err(failure)) => EventView::Signed(Err(failure@)),
        }
    }
}

impl View for ProcessAction {
    type V = ActionView;

    open spec fn view(&self) -> ActionView {
        match self {
            ProcessAction::Take(step) => ActionView::Take(*step),
            ProcessAction::Finish(Ok(())) => ActionView::Finish(Ok(())),
            ProcessAction::Finish(Err(failure)) => ActionView::Finish(Err(failure@)),
        }
    }
}

/// Why a process does not count as verified where its number was reused.
pub open spec fn reused(pid: u32) -> Why {
    (
        HandshakeError::SignedProcessVerificationFailed,
        Some("pid "@ + decimal(pid as nat) + " was reused during verification"@),
    )
}

/// What to do after a step: the next one, or nothing more once one has failed. A report of another
/// step than this one changes nothing.
pub open spec fn process_next(pid: u32, step: ProcessStep, event: EventView) -> ActionView {
    match (step, event) {
        (ProcessStep::Before, EventView::Created(Ok(before))) => ActionView::Take(
            ProcessStep::Image { before },
        ),
        (ProcessStep::Before, EventView::Created(Err(why))) => ActionView::Finish(Err(why)),
        (ProcessStep::Image { before }, EventView::Signed(Ok(()))) => ActionView::Take(
            ProcessStep::After { before },
        ),
        (ProcessStep::Image { before }, EventView::Signed(Err(why))) => ActionView::Finish(
            Err(why),
        ),
        (ProcessStep::After { before }, EventView::Created(Ok(after))) => ActionView::Finish(
            if after == before {
                Ok(())
            } else {
                Err(reused(pid))
            },
        ),
        (ProcessStep::After { before }, EventView::Created(Err(why))) => ActionView::Finish(
            Err(why),
        ),
        _ => ActionView::Take(step),
    }
}

/// What to do once all of `events` were reported, the first of them after `step`.
pub open spec fn process_run(pid: u32, step: ProcessStep, events: Seq<EventView>) -> ActionView
    decreases events.len(),
{
    if events.len() == 0 {
        ActionView::Take(step)
    } else {
        match process_next(pid, step, events[0]) {
            ActionView::Take(next) => process_run(pid, next, events.drop_first()),
            ActionView::Finish(outcome) => ActionView::Finish(outcome),
        }
    }
}

impl ProcessStep {
    /// What to do after this step went as reported.
    pub fn proceed(self, pid: u32, event: ProcessEvent) -> (action: ProcessAction)
        ensures
            action@ == process_next(pid, self, event@),
    {
        match (self, event) {
            (ProcessStep::Before, ProcessEvent::Created(report)) => match report {
                Ok(before) => ProcessAction::Take(ProcessStep::Image { before }),
                Err(failure) => ProcessAction::Finish(Err(failure)),
            },
            (ProcessStep::Image { before }, ProcessEvent::Signed(report)) => match report {
                Ok(()) => ProcessAction::Take(ProcessStep::After { before }),
                Err(failure) => ProcessAction::Finish(Err(failure)),
            },
            (ProcessStep::After { before }, ProcessEvent::Created(report)) => match report {
                Ok(after) => ProcessAction::Finish(same_process(pid, before, after)),
                Err(failure) => ProcessAction::Finish(Err(failure)),
            },
            _ => ProcessAction::Take(self),
        }
    }
}

/// A process counts as verified exactly where it was the same before and after its image was found
/// to be signed. The first step that fails decides otherwise, and the later steps are not taken.
pub proof fn law_process_is_verified(
    pid: u32,
    before: Result<u64, Why>,
    image: Result<(), Why>,
    after: Result<u64, Why>,
)
    ensures
        process_run(
            pid,
            ProcessStep::Before,
            seq![EventView::Created(before), EventView::Signed(image), EventView::Created(after)],
        ) == ActionView::Finish(
            match (before, image, after) {
                (Err(why), _, _) => Err(why),
                (_, Err(why), _) => Err(why),
                (_, _, Err(why)) => Err(why),
                (Ok(before), _, Ok(after)) => if before == after {
                    Ok(())
                } else {
                    Err(reused(pid))
                },
            },
        ),
        process_run(pid, ProcessStep::Before, seq![EventView::Created(before)]) == match before {
            Ok(before) => ActionView::Take(ProcessStep::Image { before }),
            Err(why) => ActionView::Finish(Err(why)),
        },
        process_run(
            pid,
            ProcessStep::Before,
            seq![EventView::Created(before), EventView::Signed(image)],
        ) == match (before, image) {
            (Ok(before), Ok(())) => ActionView::Take(ProcessStep::After { before }),
            (Err(why), _) => ActionView::Finish(Err(why)),
            (_, Err(why)) => ActionView::Finish(Err(why)),
        },
{
    reveal_with_fuel(process_run, 4);
    let first = seq![EventView::Created(before)];
    let both = seq![EventView::Created(before), EventView::Signed(image)];
    let events = seq![
        EventView::Created(before),
        EventView::Signed(image),
        EventView::Created(after),
    ];
    assert(first.drop_first().len() == 0);
    assert(both.drop_first()[0] == EventView::Signed(image));
    assert(events.drop_first()[0] == EventView::Signed(image));
    assert(events.drop_first().drop_first()[0] == EventView::Created(after));
}

/// What is said of a process whose number was given to another.
pub proof fn law_reused_number_is_named(pid: u32)
    ensures
        reused(pid).0 == HandshakeError::SignedProcessVerificationFailed,
        reused(pid).1 == Some("pid "@ + decimal(pid as nat) + " was reused during verification"@),
{
}

/// Events and actions are seen as what they are.
pub proof fn law_process_views(time: u64, failure: HandshakeFailure, step: ProcessStep)
    ensures
        ProcessEvent::Created(Ok(time))@ == EventView::Created(Ok(time)),
        ProcessEvent::Created(Err(failure))@ == EventView::Created(Err(failure@)),
        ProcessEvent::Signed(Ok(()))@ == EventView::Signed(Ok(())),
        ProcessEvent::Signed(Err(failure))@ == EventView::Signed(Err(failure@)),
        ProcessAction::Take(step)@ == ActionView::Take(step),
        ProcessAction::Finish(Ok(()))@ == ActionView::Finish(Ok(())),
        ProcessAction::Finish(Err(failure))@ == ActionView::Finish(Err(failure@)),
{
}

/// A report of another step than the one that was taken changes nothing, and least of all does it
/// end the verification.
pub proof fn law_other_reports_change_nothing(pid: u32, step: ProcessStep, event: EventView)
    requires
        step is Image <==> event is Created,
    ensures
        process_next(pid, step, event) == ActionView::Take(step),
{
}

} // verus!
