//! What the events of a run say, and how what a turn tells is recorded.

use vstd::prelude::*;

use crate::error::{error_code, ErrorView, MachineError};
use crate::ids::ThreadId;
use crate::json::{array_text, Json};
use crate::run::{RunStreamEvent, StepResult};
use crate::store::{RunEventEnvelope, RunEventPayload, RunStatus};
use crate::text::{opt, views};

verus! {

/// What an event of a run says.
#[derive(Debug, PartialEq)]
pub enum Payload {
    /// The turn begins.
    Start { thread_id: ThreadId },
    /// The turn is alive.
    Beat { thread_id: ThreadId },
    /// A step begins.
    StepStart { step: Json, n: u32 },
    /// A step has ended.
    StepDone { step: Json, result: StepResult },
    /// The machine has something to say.
    Signal { signal: Json },
    /// The run is complete. The trace is an array.
    Done { trace: Json, output: Json, snapshot: Json },
    /// The run is interrupted.
    Interrupt { interrupt: Json, snapshot: Json },
    /// The run failed.
    Fail { error: String },
    /// The run was cancelled.
    Cancel,
}

/// The mathematical view of [`Payload`].
pub enum PayloadView {
    Start { thread_id: Seq<char> },
    Beat { thread_id: Seq<char> },
    StepStart { step: Seq<char>, n: nat },
    StepDone { step: Seq<char>, result: StepResult },
    Signal { signal: Seq<char> },
    Done { trace: Seq<char>, output: Seq<char>, snapshot: Seq<char> },
    Interrupt { interrupt: Seq<char>, snapshot: Seq<char> },
    Fail { error: Seq<char> },
    Cancel,
}

impl View for Payload {
    type V = PayloadView;

    open spec fn view(&self) -> PayloadView {
        match *self {
            Payload::Start { thread_id } => PayloadView::Start { thread_id: thread_id@ },
            Payload::Beat { thread_id } => PayloadView::Beat { thread_id: thread_id@ },
            Payload::StepStart { step, n } => PayloadView::StepStart { step: step@, n: n as nat },
            Payload::StepDone { step, result } => PayloadView::StepDone { step: step@, result },
            Payload::Signal { signal } => PayloadView::Signal { signal: signal@ },
            Payload::Done { trace, output, snapshot } => PayloadView::Done {
                trace: trace@,
                output: output@,
                snapshot: snapshot@,
            },
            Payload::Interrupt { interrupt, snapshot } => PayloadView::Interrupt {
                interrupt: interrupt@,
                snapshot: snapshot@,
            },
            Payload::Fail { error } => PayloadView::Fail { error: error@ },
            Payload::Cancel => PayloadView::Cancel,
        }
    }
}

impl PayloadView {
    /// Whether the event ends its run.
    pub open spec fn terminal(self) -> bool {
        self is Done || self is Interrupt || self is Fail || self is Cancel
    }
}

impl Clone for Payload {
    fn clone(&self) -> (copy: Self)
        ensures
            copy == *self,
    {
        match self {
            Payload::Start { thread_id } => Payload::Start { thread_id: thread_id.clone() },
            Payload::Beat { thread_id } => Payload::Beat { thread_id: thread_id.clone() },
            Payload::StepStart { step, n } => Payload::StepStart { step: step.clone(), n: *n },
            Payload::StepDone { step, result } => Payload::StepDone {
                step: step.clone(),
                result: *result,
            },
            Payload::Signal { signal } => Payload::Signal { signal: signal.clone() },
            Payload::Done { trace, output, snapshot } => Payload::Done {
                trace: trace.clone(),
                output: output.clone(),
                snapshot: snapshot.clone(),
            },
            Payload::Interrupt { interrupt, snapshot } => Payload::Interrupt {
                interrupt: interrupt.clone(),
                snapshot: snapshot.clone(),
            },
            Payload::Fail { error } => Payload::Fail { error: error.clone() },
            Payload::Cancel => Payload::Cancel,
        }
    }
}

impl RunEventPayload for Payload {
    open spec fn terminal(&self) -> bool {
        self@.terminal()
    }

    fn is_terminal(&self) -> (terminal: bool) {
        matches!(
            self,
            Payload::Done { .. } | Payload::Interrupt { .. } | Payload::Fail { .. } | Payload::Cancel
        )
    }

    fn copy(&self) -> (copy: Self) {
        self.clone()
    }
}

/// An event of a run.
pub type Event = RunEventEnvelope<Payload>;

/// How a run is to end.
#[derive(Debug)]
pub struct Ending {
    /// How it ended.
    pub status: RunStatus,
    /// Why it ended.
    pub reason: &'static str,
    /// The code of its failure.
    pub code: Option<String>,
}

/// The mathematical view of [`Ending`].
pub struct EndingView {
    pub status: RunStatus,
    pub reason: Seq<char>,
    pub code: Option<Seq<char>>,
}

impl View for Ending {
    type V = EndingView;

    open spec fn view(&self) -> EndingView {
        EndingView { status: self.status, reason: self.reason@, code: opt(self.code) }
    }
}

/// How something that a turn tells is recorded.
#[derive(Debug)]
pub enum EventRecord {
    /// As an event.
    Append(Payload),
    /// As the event that ends the run.
    Finish { payload: Payload, ending: Ending },
}

/// The mathematical view of [`EventRecord`].
pub enum EventRecordView {
    Append(PayloadView),
    Finish { payload: PayloadView, ending: EndingView },
}

impl View for EventRecord {
    type V = EventRecordView;

    open spec fn view(&self) -> EventRecordView {
        match *self {
            EventRecord::Append(payload) => EventRecordView::Append(payload@),
            EventRecord::Finish { payload, ending } => EventRecordView::Finish {
                payload: payload@,
                ending: ending@,
            },
        }
    }
}

/// What a turn tells, with its steps, signals, outputs and interrupts as JSON.
pub type JsonStreamEvent = RunStreamEvent<Json, Json, Json, Json>;

/// How a failed run ends.
pub open spec fn failed(error: ErrorView) -> EndingView {
    EndingView { status: RunStatus::Error, reason: "failed"@, code: Some(error.code()) }
}

/// How something that a turn tells is recorded.
pub open spec fn recorded(event: JsonStreamEvent) -> EventRecordView {
    match event {
        RunStreamEvent::Started { thread_id, .. } => EventRecordView::Append(
            PayloadView::Start { thread_id: thread_id@ },
        ),
        RunStreamEvent::Heartbeat { thread_id, .. } => EventRecordView::Append(
            PayloadView::Beat { thread_id: thread_id@ },
        ),
        RunStreamEvent::StepStarted { step, step_count } => EventRecordView::Append(
            PayloadView::StepStart { step: step@, n: step_count as nat },
        ),
        RunStreamEvent::StepFinished { step, result } => EventRecordView::Append(
            PayloadView::StepDone { step: step@, result },
        ),
        RunStreamEvent::Signal { signal } => EventRecordView::Append(
            PayloadView::Signal { signal: signal@ },
        ),
        RunStreamEvent::Completed { trace, output, snapshot } => EventRecordView::Finish {
            payload: PayloadView::Done {
                trace: array_text(views(trace@)),
                output: output@,
                snapshot: snapshot@,
            },
            ending: EndingView {
                status: RunStatus::Completed,
                reason: "completed"@,
                code: None,
            },
        },
        RunStreamEvent::Interrupted { interrupt, snapshot } => EventRecordView::Finish {
            payload: PayloadView::Interrupt { interrupt: interrupt@, snapshot: snapshot@ },
            ending: EndingView {
                status: RunStatus::Interrupted,
                reason: "interrupted"@,
                code: None,
            },
        },
        RunStreamEvent::Failed { error } => EventRecordView::Finish {
            payload: PayloadView::Fail { error: error@.message() },
            ending: failed(error@),
        },
        RunStreamEvent::Cancelled => EventRecordView::Finish {
            payload: PayloadView::Cancel,
            ending: EndingView {
                status: RunStatus::Cancelled,
                reason: "cancelled"@,
                code: None,
            },
        },
    }
}

/// How something that a turn tells is recorded.
pub fn event_record(event: &JsonStreamEvent) -> (record: EventRecord)
    ensures
        record@ == recorded(*event),
{
    match event {
        RunStreamEvent::Started { thread_id, .. } => EventRecord::Append(
            Payload::Start { thread_id: thread_id.clone() },
        ),
        RunStreamEvent::Heartbeat { thread_id, .. } => EventRecord::Append(
            Payload::Beat { thread_id: thread_id.clone() },
        ),
        RunStreamEvent::StepStarted { step, step_count } => EventRecord::Append(
            Payload::StepStart { step: step.clone(), n: *step_count },
        ),
        RunStreamEvent::StepFinished { step, result } => EventRecord::Append(
            Payload::StepDone { step: step.clone(), result: *result },
        ),
        RunStreamEvent::Signal { signal } => EventRecord::Append(
            Payload::Signal { signal: signal.clone() },
        ),
        RunStreamEvent::Completed { trace, output, snapshot } => EventRecord::Finish {
            payload: Payload::Done {
                trace: Json::array(trace),
                output: output.clone(),
                snapshot: snapshot.clone(),
            },
            ending: Ending { status: RunStatus::Completed, reason: "completed", code: None },
        },
        RunStreamEvent::Interrupted { interrupt, snapshot } => EventRecord::Finish {
            payload: Payload::Interrupt {
                interrupt: interrupt.clone(),
                snapshot: snapshot.clone(),
            },
            ending: Ending { status: RunStatus::Interrupted, reason: "interrupted", code: None },
        },
        RunStreamEvent::Failed { error } => EventRecord::Finish {
            payload: Payload::Fail { error: error.message() },
            ending: failed_ending(error),
        },
        RunStreamEvent::Cancelled => EventRecord::Finish {
            payload: Payload::Cancel,
            ending: Ending { status: RunStatus::Cancelled, reason: "cancelled", code: None },
        },
    }
}

/// How a failed run ends.
pub fn failed_ending(error: &MachineError) -> (ending: Ending)
    ensures
        ending@ == failed(error@),
{
    Ending {
        status: RunStatus::Error,
        reason: "failed",
        code: Some(error_code(error).to_owned()),
    }
}

/// Something that a turn tells ends the run exactly if it is recorded as its end.
pub proof fn ends_as_recorded(event: JsonStreamEvent)
    ensures
        match recorded(event) {
            EventRecordView::Append(payload) => !payload.terminal(),
            EventRecordView::Finish { payload, ending } => payload.terminal()
                && ending.status.terminal(),
        },
{
}

} // verus!
