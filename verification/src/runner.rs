//! Turns: where they begin, and step by step what is to be done.

use vstd::prelude::*;

use crate::checkpoint::{record_version, CheckpointRecord, CheckpointRecordView};
use crate::error::{plain, seen, ErrorView, MachineError};
use crate::ids::RunId;
use crate::json::{pair_text, quoted_json, Json};
use crate::machine::{ResumeAction, Transition};
use crate::run::{RunCommand, StepResult};
use crate::text::{opt, same_text, views};

verus! {

/// Where a turn begins.
#[derive(Debug)]
pub enum Restore {
    /// With a new state, at the first step.
    Fresh,
    /// With a new state made from the one before, at the first step.
    Restart,
    /// With the state before and the input applied to it, after an interrupt.
    Resume { interrupt: Json, interrupted_step: Option<Json> },
    /// With a new state made from the one before, at the step that was to come, where there was one.
    Continue { step: Option<Json> },
}

/// The mathematical view of [`Restore`].
pub enum RestoreView {
    Fresh,
    Restart,
    Resume { interrupt: Seq<char>, interrupted_step: Option<Seq<char>> },
    Continue { step: Option<Seq<char>> },
}

impl View for Restore {
    type V = RestoreView;

    open spec fn view(&self) -> RestoreView {
        match *self {
            Restore::Fresh => RestoreView::Fresh,
            Restore::Restart => RestoreView::Restart,
            Restore::Resume { interrupt, interrupted_step } => RestoreView::Resume {
                interrupt: interrupt@,
                interrupted_step: opt(interrupted_step),
            },
            Restore::Continue { step } => RestoreView::Continue { step: opt(step) },
        }
    }
}

/// Where a turn begins, after what was saved of the thread.
pub open spec fn restored(
    command: RunCommand,
    run: Seq<char>,
    checkpoint: Option<CheckpointRecordView>,
) -> Result<RestoreView, ErrorView> {
    match (checkpoint, command) {
        (None, RunCommand::Start) => Ok(RestoreView::Fresh),
        (None, RunCommand::Resume) => Err(ErrorView::NoPendingInterrupt),
        (Some(record), RunCommand::Start) => if record.interrupt is Some {
            Ok(RestoreView::Restart)
        } else if record.run_id == Some(run) {
            Ok(RestoreView::Continue { step: record.next_step })
        } else {
            Ok(RestoreView::Continue { step: None })
        },
        (Some(record), RunCommand::Resume) => match record.interrupt {
            Some(interrupt) => Ok(
                RestoreView::Resume { interrupt, interrupted_step: record.interrupted_step },
            ),
            None => Err(ErrorView::NoPendingInterrupt),
        },
    }
}

/// Where a turn begins, after what was saved of the thread.
pub fn restore_or_start(
    command: RunCommand,
    run_id: &RunId,
    checkpoint: Option<CheckpointRecord>,
) -> (result: Result<Restore, MachineError>)
    ensures
        seen(result) == restored(command, run_id@, opt(checkpoint)),
{
    let record = match checkpoint {
        Some(record) => record,
        None => {
            if command == RunCommand::Resume {
                return Err(MachineError::NoPendingInterrupt);
            }
            return Ok(Restore::Fresh);
        },
    };
    if let Some(interrupt) = record.interrupt {
        if command != RunCommand::Resume {
            return Ok(Restore::Restart);
        }
        return Ok(
            Restore::Resume { interrupt, interrupted_step: record.interrupted_step },
        );
    }
    if command == RunCommand::Resume {
        return Err(MachineError::NoPendingInterrupt);
    }
    let same_run = match &record.run_id {
        Some(saved) => same_text(saved.as_str(), run_id.as_str()),
        None => false,
    };
    if same_run {
        Ok(Restore::Continue { step: record.next_step })
    } else {
        Ok(Restore::Continue { step: None })
    }
}

/// The step to go on with after an interrupt.
#[derive(Debug)]
pub enum ResumeStep<Step> {
    /// One that the machine names.
    Named(Step),
    /// The one that was interrupted, as it was saved.
    Saved(Json),
}

/// The step to go on with after an interrupt.
pub open spec fn resumed_at<Step>(
    action: ResumeAction<Step>,
    interrupted_step: Option<Json>,
) -> Result<ResumeStep<Step>, ErrorView> {
    match action {
        ResumeAction::JumpTo(step) => Ok(ResumeStep::Named(step)),
        ResumeAction::ReenterInterruptedStep => match interrupted_step {
            Some(step) => Ok(ResumeStep::Saved(step)),
            None => Err(ErrorView::NoInterruptedStep),
        },
    }
}

/// The step to go on with after an interrupt.
pub fn resume_step<Step>(
    action: ResumeAction<Step>,
    interrupted_step: Option<Json>,
) -> (result: Result<ResumeStep<Step>, MachineError>)
    ensures
        plain(result) == resumed_at(action, interrupted_step),
{
    match action {
        ResumeAction::JumpTo(step) => Ok(ResumeStep::Named(step)),
        ResumeAction::ReenterInterruptedStep => match interrupted_step {
            Some(step) => Ok(ResumeStep::Saved(step)),
            None => Err(MachineError::NoInterruptedStep),
        },
    }
}

/// What is saved of a thread after a step: the next step, or the step that was interrupted and what
/// it was interrupted with.
pub open spec fn saved(
    led: Transition<Seq<char>, (Seq<char>, Seq<char>), ()>,
    state: Seq<char>,
    run: Seq<char>,
) -> CheckpointRecordView {
    CheckpointRecordView {
        version: record_version(),
        state,
        next_step: match led {
            Transition::Next(next) => Some(next),
            _ => None,
        },
        interrupted_step: match led {
            Transition::Interrupt((step, _)) => Some(step),
            _ => None,
        },
        interrupt: match led {
            Transition::Interrupt((_, interrupt)) => Some(interrupt),
            _ => None,
        },
        run_id: Some(run),
    }
}

/// Where a step led, with the views of what it named.
pub open spec fn led_to(led: Transition<Json, (Json, Json), ()>) -> Transition<
    Seq<char>,
    (Seq<char>, Seq<char>),
    (),
> {
    match led {
        Transition::Next(next) => Transition::Next(next@),
        Transition::Interrupt((step, interrupt)) => Transition::Interrupt((step@, interrupt@)),
        Transition::Complete(_) => Transition::Complete(()),
    }
}

/// What is saved of a thread after a step: the next step, or the step that was interrupted and what
/// it was interrupted with.
pub fn step_record(led: Transition<Json, (Json, Json), ()>, state: Json, run_id: &RunId) -> (record:
    CheckpointRecord)
    ensures
        record@ == saved(led_to(led), state@, run_id@),
{
    let run = run_id.as_str().to_owned();
    match led {
        Transition::Next(next) => CheckpointRecord::running(state, Some(next), run),
        Transition::Interrupt((step, interrupt)) => CheckpointRecord::interrupted(
            state,
            step,
            interrupt,
            run,
        ),
        Transition::Complete(_) => CheckpointRecord::running(state, None, run),
    }
}

/// What the trace of a turn says of a step.
pub open spec fn traced(step: Seq<char>, result: StepResult) -> Seq<char> {
    pair_text("result"@, quoted_json(result.text()), "step"@, quoted_json(step))
}

/// What the trace of a turn says of a step.
pub fn step_trace(step: &str, result: StepResult) -> (trace: Json)
    ensures
        trace@ == traced(step@, result),
{
    proof {
        reveal_strlit("result");
        reveal_strlit("step");
        assert("result"@.take(0) =~= "step"@.take(0));
    }
    Json::pair("result", &Json::string(result.as_str()), "step", &Json::string(step))
}

/// What a turn waits for.
#[derive(Debug, Clone, Copy, PartialEq, Eq, Structural)]
pub enum TurnPhase {
    /// To take its next step.
    Ready,
    /// To hear whether the beginning of a step was told.
    Announcing,
    /// To hear where a step led.
    Moving,
    /// To hear whether the state after a step was saved.
    Saving(StepResult),
    /// To hear whether the end of a step was told.
    Reporting(StepResult),
    /// Nothing: it has ended.
    Over,
}

/// Where a step led.
#[derive(Debug)]
pub enum Moved {
    /// Somewhere.
    To(StepResult),
    /// Nowhere: the run was cancelled meanwhile.
    Cancelled,
    /// Nowhere: nobody listens any more.
    Closed,
    /// Nowhere: it failed.
    Failed(MachineError),
}

/// What a turn is told.
#[derive(Debug)]
pub enum TurnEvent {
    /// Take the next step.
    Go,
    /// Whether what was to be told was told.
    Told(bool),
    /// Where the step led.
    Moved(Moved),
    /// Whether the state was saved after a step, which the trace calls by this name.
    Saved(Result<(), MachineError>, String),
}

/// What is to be done for a turn.
#[derive(Debug)]
pub enum TurnAction {
    /// Tell that a step begins, and its number.
    Announce(u32),
    /// Take the step.
    Move,
    /// Save the state after the step.
    Save(StepResult),
    /// Tell that the step has ended.
    Report(StepResult),
    /// Make the next step the current one.
    Advance,
    /// End the turn: interrupted or complete.
    End(StepResult),
    /// End the turn: it was cancelled.
    Cancelled,
    /// End the turn: nobody listens any more.
    Closed,
    /// End the turn: it failed.
    Fail(MachineError),
}

/// The mathematical view of [`TurnAction`].
pub enum TurnActionView {
    Announce(nat),
    Move,
    Save(StepResult),
    Report(StepResult),
    Advance,
    End(StepResult),
    Cancelled,
    Closed,
    Fail(ErrorView),
}

impl View for TurnAction {
    type V = TurnActionView;

    open spec fn view(&self) -> TurnActionView {
        match *self {
            TurnAction::Announce(count) => TurnActionView::Announce(count as nat),
            TurnAction::Move => TurnActionView::Move,
            TurnAction::Save(result) => TurnActionView::Save(result),
            TurnAction::Report(result) => TurnActionView::Report(result),
            TurnAction::Advance => TurnActionView::Advance,
            TurnAction::End(result) => TurnActionView::End(result),
            TurnAction::Cancelled => TurnActionView::Cancelled,
            TurnAction::Closed => TurnActionView::Closed,
            TurnAction::Fail(error) => TurnActionView::Fail(error@),
        }
    }
}

/// A turn: how many steps it has taken, and what it waits for.
#[derive(Debug)]
pub struct Turn {
    max_steps: u32,
    streaming: bool,
    steps: u32,
    phase: TurnPhase,
    trace: Vec<Json>,
}

/// The mathematical view of [`Turn`].
#[verifier::ext_equal]
pub struct TurnView {
    /// How many steps the turn may take.
    pub max_steps: nat,
    /// Whether its steps are told.
    pub streaming: bool,
    /// How many steps it has begun.
    pub steps: nat,
    /// What it waits for.
    pub phase: TurnPhase,
    /// What its trace says.
    pub trace: Seq<Seq<char>>,
}

impl View for Turn {
    type V = TurnView;

    closed spec fn view(&self) -> TurnView {
        TurnView {
            max_steps: self.max_steps as nat,
            streaming: self.streaming,
            steps: self.steps as nat,
            phase: self.phase,
            trace: views(self.trace@),
        }
    }
}

impl TurnView {
    /// A turn that has taken no step.
    pub open spec fn begun(max_steps: nat, streaming: bool) -> Self {
        TurnView { max_steps, streaming, steps: 0, phase: TurnPhase::Ready, trace: Seq::empty() }
    }

    /// Whether a turn waits for an event.
    pub open spec fn expects(self, event: TurnEvent) -> bool {
        match event {
            TurnEvent::Go => self.phase is Ready,
            TurnEvent::Told(_) => self.phase is Announcing || self.phase is Reporting,
            TurnEvent::Moved(_) => self.phase is Moving,
            TurnEvent::Saved(_, _) => self.phase is Saving,
        }
    }

    /// What holds of every turn: it has begun no more steps than it may, and its trace tells of
    /// each step that has led somewhere.
    pub open spec fn sound(self) -> bool {
        &&& self.steps <= self.max_steps
        &&& self.phase is Ready ==> self.trace.len() == self.steps
        &&& self.phase is Announcing || self.phase is Moving || self.phase is Saving
            ==> self.trace.len() + 1 == self.steps
        &&& self.phase is Reporting ==> self.trace.len() == self.steps && self.streaming
        &&& self.phase is Announcing ==> self.streaming
        &&& self.trace.len() <= self.steps
    }

    /// The turn has ended.
    pub open spec fn over(self) -> Self {
        TurnView { phase: TurnPhase::Over, ..self }
    }

    /// What follows a step that is saved and told: the next step, or the end.
    pub open spec fn after(self, result: StepResult) -> (Self, TurnActionView) {
        if result is Next {
            (TurnView { phase: TurnPhase::Ready, ..self }, TurnActionView::Advance)
        } else {
            (self.over(), TurnActionView::End(result))
        }
    }

    /// What a turn does about an event.
    pub open spec fn step(self, event: TurnEvent) -> (Self, TurnActionView) {
        match event {
            TurnEvent::Go => if self.steps >= self.max_steps {
                (
                    self.over(),
                    TurnActionView::Fail(ErrorView::MaxStepsExceeded { max: self.max_steps as u32 }),
                )
            } else if self.streaming {
                (
                    TurnView { steps: self.steps + 1, phase: TurnPhase::Announcing, ..self },
                    TurnActionView::Announce(self.steps + 1),
                )
            } else {
                (
                    TurnView { steps: self.steps + 1, phase: TurnPhase::Moving, ..self },
                    TurnActionView::Move,
                )
            },
            TurnEvent::Told(told) => if !told {
                (self.over(), TurnActionView::Closed)
            } else {
                match self.phase {
                    TurnPhase::Reporting(result) => self.after(result),
                    _ => (TurnView { phase: TurnPhase::Moving, ..self }, TurnActionView::Move),
                }
            },
            TurnEvent::Moved(moved) => match moved {
                Moved::To(result) => (
                    TurnView { phase: TurnPhase::Saving(result), ..self },
                    TurnActionView::Save(result),
                ),
                Moved::Cancelled => (
                    self.over(),
                    if self.streaming {
                        TurnActionView::Cancelled
                    } else {
                        TurnActionView::Fail(ErrorView::Cancelled)
                    },
                ),
                Moved::Closed => (self.over(), TurnActionView::Closed),
                Moved::Failed(error) => (self.over(), TurnActionView::Fail(error@)),
            },
            TurnEvent::Saved(saved, step) => match saved {
                Err(error) => (self.over(), TurnActionView::Fail(error@)),
                Ok(_) => {
                    let result = self.phase->Saving_0;
                    let told = TurnView { trace: self.trace.push(traced(step@, result)), ..self };
                    if self.streaming {
                        (
                            TurnView { phase: TurnPhase::Reporting(result), ..told },
                            TurnActionView::Report(result),
                        )
                    } else {
                        told.after(result)
                    }
                },
            },
        }
    }
}

impl Turn {
    /// What holds of every turn.
    pub open spec fn wf(&self) -> bool {
        self@.sound()
    }

    /// A turn that has taken no step.
    pub fn new(max_steps: u32, streaming: bool) -> (turn: Self)
        ensures
            turn.wf(),
            turn@ == TurnView::begun(max_steps as nat, streaming),
    {
        let turn = Turn {
            max_steps,
            streaming,
            steps: 0,
            phase: TurnPhase::Ready,
            trace: Vec::new(),
        };
        assert(turn@.trace =~= Seq::empty());
        turn
    }

    /// What the turn waits for.
    pub fn phase(&self) -> (phase: TurnPhase)
        ensures
            phase == self@.phase,
    {
        self.phase
    }

    /// What the trace says.
    pub fn into_trace(self) -> (trace: Vec<Json>)
        ensures
            views(trace@) == self@.trace,
    {
        self.trace
    }

    fn after(&mut self, result: StepResult) -> (action: TurnAction)
        ensures
            (final(self)@, action@) == old(self)@.after(result),
    {
        if result == StepResult::Next {
            self.phase = TurnPhase::Ready;
            TurnAction::Advance
        } else {
            self.phase = TurnPhase::Over;
            TurnAction::End(result)
        }
    }

    /// Takes an event that the turn waits for, and says what is to be done next.
    pub fn step(&mut self, event: TurnEvent) -> (action: TurnAction)
        requires
            old(self).wf(),
            old(self)@.expects(event),
        ensures
            final(self).wf(),
            (final(self)@, action@) == old(self)@.step(event),
    {
        match event {
            TurnEvent::Go => {
                if self.steps >= self.max_steps {
                    self.phase = TurnPhase::Over;
                    return TurnAction::Fail(MachineError::MaxStepsExceeded { max: self.max_steps });
                }
                self.steps = self.steps + 1;
                if self.streaming {
                    self.phase = TurnPhase::Announcing;
                    TurnAction::Announce(self.steps)
                } else {
                    self.phase = TurnPhase::Moving;
                    TurnAction::Move
                }
            },
            TurnEvent::Told(told) => {
                if !told {
                    self.phase = TurnPhase::Over;
                    return TurnAction::Closed;
                }
                match self.phase {
                    TurnPhase::Reporting(result) => self.after(result),
                    _ => {
                        self.phase = TurnPhase::Moving;
                        TurnAction::Move
                    },
                }
            },
            TurnEvent::Moved(moved) => match moved {
                Moved::To(result) => {
                    self.phase = TurnPhase::Saving(result);
                    TurnAction::Save(result)
                },
                Moved::Cancelled => {
                    self.phase = TurnPhase::Over;
                    if self.streaming {
                        TurnAction::Cancelled
                    } else {
                        TurnAction::Fail(MachineError::Cancelled)
                    }
                },
                Moved::Closed => {
                    self.phase = TurnPhase::Over;
                    TurnAction::Closed
                },
                Moved::Failed(error) => {
                    self.phase = TurnPhase::Over;
                    TurnAction::Fail(error)
                },
            },
            TurnEvent::Saved(saved, step) => match saved {
                Err(error) => {
                    self.phase = TurnPhase::Over;
                    TurnAction::Fail(error)
                },
                Ok(()) => {
                    let result = match self.phase {
                        TurnPhase::Saving(result) => result,
                        _ => StepResult::Next,
                    };
                    let ghost before = views(self.trace@);
                    let trace = step_trace(step.as_str(), result);
                    self.trace.push(trace);
                    assert(views(self.trace@) =~= before.push(trace@));
                    if self.streaming {
                        self.phase = TurnPhase::Reporting(result);
                        TurnAction::Report(result)
                    } else {
                        self.after(result)
                    }
                },
            },
        }
    }
}

} // verus!
