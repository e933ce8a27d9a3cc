//! Turns: what is asked of a machine, within which limits, and what it tells meanwhile.

use vstd::prelude::*;

use crate::error::MachineError;
use crate::ids::{RunId, SessionId, ThreadId};
use crate::json::Json;
use crate::store::Nanos;

verus! {

/// What a turn is asked to do.
#[derive(Debug, Clone, Copy, PartialEq, Eq, Structural)]
pub enum RunCommand {
    /// Begin, or go on where the thread was left.
    Start,
    /// Take up the thread where it was interrupted.
    Resume,
}

/// The limits of a turn.
#[derive(Debug, Clone, Copy, PartialEq, Eq, Structural)]
pub struct RuntimeLimits {
    /// How many steps a turn may take.
    pub max_steps: u32,
    /// Whether the machine may ask back.
    pub allow_clarification: bool,
    /// How long a step may take.
    pub step_timeout: Option<Nanos>,
    /// How long a turn may take.
    pub run_timeout: Option<Nanos>,
}

impl RuntimeLimits {
    /// A limit on the steps alone.
    pub open spec fn of_steps(max_steps: u32) -> Self {
        RuntimeLimits {
            max_steps,
            allow_clarification: true,
            step_timeout: None,
            run_timeout: None,
        }
    }

    /// A limit on the steps alone.
    pub fn new(max_steps: u32) -> (limits: Self)
        ensures
            limits == RuntimeLimits::of_steps(max_steps),
    {
        RuntimeLimits {
            max_steps,
            allow_clarification: true,
            step_timeout: None,
            run_timeout: None,
        }
    }
}

/// A turn of a machine on a thread.
#[derive(Debug)]
pub struct RunRequest<I> {
    /// The run.
    pub run_id: RunId,
    /// Its session.
    pub session_id: SessionId,
    /// The thread that it continues.
    pub thread_id: ThreadId,
    /// What to do.
    pub command: RunCommand,
    /// The input.
    pub input: I,
    /// A state to begin with.
    pub snapshot: Option<Json>,
    /// The limits of the turn.
    pub runtime_limits: RuntimeLimits,
}

/// How a turn ended.
#[derive(Debug)]
pub enum RunOutput<O, I> {
    /// With an output.
    Completed { trace: Vec<Json>, output: O, snapshot: Json },
    /// With an interrupt to be resumed from.
    Interrupted { interrupt: I, snapshot: Json },
}

/// How events are streamed.
#[derive(Debug, Clone, Copy, PartialEq, Eq, Structural)]
pub struct StreamConfig {
    /// After how long a sign of life is sent.
    pub heartbeat_interval: Nanos,
    /// How many events may wait to be received.
    pub channel_capacity: usize,
}

impl StreamConfig {
    /// How many events may wait: one at least.
    pub open spec fn capacity(self) -> usize {
        if self.channel_capacity < 1 {
            1
        } else {
            self.channel_capacity
        }
    }

    /// After how long a sign of life is sent: a millisecond at least.
    pub open spec fn interval(self) -> Nanos {
        if self.heartbeat_interval < 1_000_000 {
            1_000_000
        } else {
            self.heartbeat_interval
        }
    }

    /// How many events may wait: one at least.
    pub fn channel_capacity(self) -> (capacity: usize)
        ensures
            capacity == self.capacity(),
    {
        if self.channel_capacity < 1 {
            1
        } else {
            self.channel_capacity
        }
    }

    /// After how long a sign of life is sent: a millisecond at least.
    pub fn heartbeat_interval(self) -> (interval: Nanos)
        ensures
            interval == self.interval(),
    {
        if self.heartbeat_interval < 1_000_000 {
            1_000_000
        } else {
            self.heartbeat_interval
        }
    }
}

impl StreamConfig {
    /// Fifteen seconds, and thirty-two events.
    pub open spec fn standard() -> Self {
        StreamConfig { heartbeat_interval: 15_000_000_000, channel_capacity: 32 }
    }
}

impl Default for StreamConfig {
    /// Fifteen seconds, and thirty-two events.
    fn default() -> (config: Self)
        ensures
            config == StreamConfig::standard(),
    {
        StreamConfig { heartbeat_interval: 15_000_000_000, channel_capacity: 32 }
    }
}

/// How a step ended.
#[derive(Debug, Clone, Copy, PartialEq, Eq, Structural)]
pub enum StepResult {
    /// Another step follows.
    Next,
    /// The turn is interrupted.
    Interrupt,
    /// The turn is complete.
    Complete,
}

impl StepResult {
    /// The name under which the result is traced.
    pub open spec fn text(self) -> Seq<char> {
        match self {
            StepResult::Next => "next"@,
            StepResult::Interrupt => "interrupt"@,
            StepResult::Complete => "complete"@,
        }
    }

    /// The name under which the result is traced.
    pub fn as_str(&self) -> (text: &'static str)
        ensures
            text@ == self.text(),
    {
        match self {
            StepResult::Next => "next",
            StepResult::Interrupt => "interrupt",
            StepResult::Complete => "complete",
        }
    }
}

/// What a turn tells while it goes on.
#[derive(Debug)]
pub enum RunStreamEvent<Step, Signal, Output, Interrupt> {
    /// The turn begins.
    Started { run_id: RunId, session_id: SessionId, thread_id: ThreadId },
    /// The turn is alive.
    Heartbeat { run_id: RunId, session_id: SessionId, thread_id: ThreadId },
    /// A step begins.
    StepStarted { step: Step, step_count: u32 },
    /// A step has ended.
    StepFinished { step: Step, result: StepResult },
    /// The machine has something to say.
    Signal { signal: Signal },
    /// The turn is interrupted.
    Interrupted { interrupt: Interrupt, snapshot: Json },
    /// The turn is complete.
    Completed { trace: Vec<Json>, output: Output, snapshot: Json },
    /// The turn failed.
    Failed { error: MachineError },
    /// The turn was cancelled.
    Cancelled,
}

/// How a streamed turn ended.
#[derive(Debug)]
pub enum StreamTerminal<Output, Interrupt> {
    /// With an output.
    Completed { trace: Vec<Json>, output: Output, snapshot: Json },
    /// With an interrupt.
    Interrupted { interrupt: Interrupt, snapshot: Json },
    /// It was cancelled.
    Cancelled,
    /// Nobody listens any more.
    ReceiverClosed,
}

/// The last event of a streamed turn, where somebody is to be told.
pub open spec fn closing<Step, Signal, Output, Interrupt>(
    result: Result<StreamTerminal<Output, Interrupt>, MachineError>,
) -> Option<RunStreamEvent<Step, Signal, Output, Interrupt>> {
    match result {
        Ok(StreamTerminal::Completed { trace, output, snapshot }) => Some(
            RunStreamEvent::Completed { trace, output, snapshot },
        ),
        Ok(StreamTerminal::Interrupted { interrupt, snapshot }) => Some(
            RunStreamEvent::Interrupted { interrupt, snapshot },
        ),
        Ok(StreamTerminal::Cancelled) => Some(RunStreamEvent::Cancelled),
        Ok(StreamTerminal::ReceiverClosed) => None,
        Err(MachineError::Cancelled) => Some(RunStreamEvent::Cancelled),
        Err(error) => Some(RunStreamEvent::Failed { error }),
    }
}

/// The last event of a streamed turn, where somebody is to be told.
pub fn closing_event<Step, Signal, Output, Interrupt>(
    result: Result<StreamTerminal<Output, Interrupt>, MachineError>,
) -> (event: Option<RunStreamEvent<Step, Signal, Output, Interrupt>>)
    ensures
        event == closing::<Step, Signal, Output, Interrupt>(result),
{
    match result {
        Ok(StreamTerminal::Completed { trace, output, snapshot }) => Some(
            RunStreamEvent::Completed { trace, output, snapshot },
        ),
        Ok(StreamTerminal::Interrupted { interrupt, snapshot }) => Some(
            RunStreamEvent::Interrupted { interrupt, snapshot },
        ),
        Ok(StreamTerminal::Cancelled) => Some(RunStreamEvent::Cancelled),
        Ok(StreamTerminal::ReceiverClosed) => None,
        Err(MachineError::Cancelled) => Some(RunStreamEvent::Cancelled),
        Err(error) => Some(RunStreamEvent::Failed { error }),
    }
}

/// What one learns from a streamed event who waits for the end of the turn: nothing yet, or how it
/// ended.
pub open spec fn learned<Step, Signal, Output, Interrupt>(
    event: Option<RunStreamEvent<Step, Signal, Output, Interrupt>>,
) -> Option<Result<RunOutput<Output, Interrupt>, MachineError>> {
    match event {
        Some(RunStreamEvent::Completed { trace, output, snapshot }) => Some(
            Ok(RunOutput::Completed { trace, output, snapshot }),
        ),
        Some(RunStreamEvent::Interrupted { interrupt, snapshot }) => Some(
            Ok(RunOutput::Interrupted { interrupt, snapshot }),
        ),
        Some(RunStreamEvent::Failed { error }) => Some(Err(error)),
        Some(RunStreamEvent::Cancelled) => Some(Err(MachineError::Cancelled)),
        Some(_) => None,
        None => Some(Err(MachineError::StreamClosed)),
    }
}

/// What one learns from a streamed event who waits for the end of the turn: nothing yet, or how it
/// ended.
pub fn output_of<Step, Signal, Output, Interrupt>(
    event: Option<RunStreamEvent<Step, Signal, Output, Interrupt>>,
) -> (output: Option<Result<RunOutput<Output, Interrupt>, MachineError>>)
    ensures
        output == learned(event),
{
    match event {
        Some(RunStreamEvent::Completed { trace, output, snapshot }) => Some(
            Ok(RunOutput::Completed { trace, output, snapshot }),
        ),
        Some(RunStreamEvent::Interrupted { interrupt, snapshot }) => Some(
            Ok(RunOutput::Interrupted { interrupt, snapshot }),
        ),
        Some(RunStreamEvent::Failed { error }) => Some(Err(error)),
        Some(RunStreamEvent::Cancelled) => Some(Err(MachineError::Cancelled)),
        Some(_) => None,
        None => Some(Err(MachineError::StreamClosed)),
    }
}

} // verus!
