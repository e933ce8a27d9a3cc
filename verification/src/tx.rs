//! How a runtime records what a turn tells: what is committed, what is passed on, and what happens
//! when one of them fails.

use vstd::prelude::*;

use crate::error::{ErrorView, MachineError};
use crate::ids::{LeaseId, RunId, SessionId, ThreadId};
use crate::json::Json;
use crate::payload::{failed, failed_ending, Ending, EndingView, EventRecord, Payload, PayloadView};
use crate::pending::{PendingOps, PendingOpsView};
use crate::run::StepResult;
use crate::runtime::{LeaseCfg, Start};
use crate::store::{
    CheckpointWrite, CheckpointWriteView, CommitPlan, CommitPlanView, Lease, LeaseClaimView,
    LeaseView, RunCommitResult, RunFinish, RunFinishView, RunStart, RunStatus,
};
use crate::text::{opt, views};

verus! {

/// A step that has ended its turn, and waits to be committed with the end of the run.
#[derive(Debug)]
pub struct PendingStep<V> {
    /// What the turn told.
    pub event: V,
    /// The checkpoint after the step.
    pub checkpoint: CheckpointWrite,
    /// How the step is recorded.
    pub payload: Payload,
}

/// Something to commit for a run.
#[derive(Debug)]
pub struct TxCommit {
    /// What the events say, in order.
    pub payloads: Vec<Payload>,
    /// The checkpoint.
    pub checkpoint: Option<CheckpointWrite>,
    /// Whether the effects, items and entries that wait go along.
    pub with_ops: bool,
    /// The end of the run.
    pub ending: Option<Ending>,
}

/// The mathematical view of [`TxCommit`].
#[verifier::ext_equal]
pub struct TxCommitView {
    pub payloads: Seq<PayloadView>,
    pub checkpoint: Option<CheckpointWriteView>,
    pub with_ops: bool,
    pub ending: Option<EndingView>,
}

impl View for TxCommit {
    type V = TxCommitView;

    open spec fn view(&self) -> TxCommitView {
        TxCommitView {
            payloads: views(self.payloads@),
            checkpoint: opt(self.checkpoint),
            with_ops: self.with_ops,
            ending: opt(self.ending),
        }
    }
}

/// The end of a run, behind a step that waits for it.
pub open spec fn ending_commit<V>(
    pending: Option<PendingStep<V>>,
    payload: PayloadView,
    ending: EndingView,
) -> TxCommitView {
    TxCommitView {
        payloads: match pending {
            Some(pending) => seq![pending.payload@, payload],
            None => seq![payload],
        },
        checkpoint: match pending {
            Some(pending) => Some(pending.checkpoint@),
            None => None,
        },
        with_ops: true,
        ending: Some(ending),
    }
}

/// The end of a run, behind a step that waits for it.
fn end_with<V>(pending: &Option<PendingStep<V>>, payload: Payload, ending: Ending) -> (commit:
    TxCommit)
    ensures
        commit@ == ending_commit(*pending, payload@, ending@),
{
    let mut payloads: Vec<Payload> = Vec::new();
    let mut checkpoint: Option<CheckpointWrite> = None;
    if let Some(pending) = pending {
        payloads.push(pending.payload.clone());
        checkpoint = Some(pending.checkpoint.clone());
    }
    payloads.push(payload);
    let commit = TxCommit { payloads, checkpoint, with_ops: true, ending: Some(ending) };
    assert(commit@ =~= ending_commit(*pending, payload@, ending@));
    commit
}

/// The end of a failed run.
pub open spec fn failure_commit<V>(pending: Option<PendingStep<V>>, error: ErrorView) -> TxCommitView {
    ending_commit(pending, PayloadView::Fail { error: error.message() }, failed(error))
}

/// The end of a cancelled run.
pub open spec fn cancel_commit<V>(
    pending: Option<PendingStep<V>>,
    reason: Seq<char>,
) -> TxCommitView {
    ending_commit(
        pending,
        PayloadView::Cancel,
        EndingView { status: RunStatus::Cancelled, reason, code: None },
    )
}

/// How a runtime stands with a run.
#[derive(Debug)]
pub enum TxState<V> {
    /// It waits for what the turn tells next, perhaps with a step that waits to be committed.
    Idle { pending: Option<PendingStep<V>> },
    /// It waits for the checkpoint of a step.
    Checkpointing { pending: Option<PendingStep<V>>, event: V, payload: Payload, result: StepResult },
    /// It waits for a commit that does not end the run.
    Committing { pending: Option<PendingStep<V>>, event: V },
    /// It waits for the commit that ends the run.
    Finishing { pending: Option<PendingStep<V>>, event: V },
    /// It passes something on.
    Sending,
    /// It passes the last step on, before the end.
    SendingStep { event: V },
    /// It passes the end on.
    SendingEnd,
    /// The run has ended.
    Over,
}

/// How a commit was answered.
#[derive(Debug)]
pub enum TxAnswer {
    /// It was written.
    Written,
    /// It was skipped.
    Skipped,
    /// It was refused.
    Refused(MachineError),
}

/// What a runtime is told of a run.
#[derive(Debug)]
pub enum TxEvent<V> {
    /// The turn has told something, and this is how it is recorded.
    Told(Result<EventRecord, MachineError>, V),
    /// The checkpoint of the step, where there is one.
    Checkpoint(Option<CheckpointWrite>),
    /// How the commit was answered.
    Committed(TxAnswer),
    /// Whether what was passed on was received.
    Sent(bool),
    /// The turn tells nothing any more.
    StreamClosed,
    /// Nobody receives any more.
    ReceiverClosed,
}

/// What a runtime is to do for a run.
#[derive(Debug)]
pub enum TxAction<V> {
    /// Wait for what the turn tells next.
    Wait,
    /// Take the checkpoint of the step.
    TakeCheckpoint,
    /// Commit.
    Commit(TxCommit),
    /// Pass something on.
    Send(V),
    /// Stop renewing the lease, and pass something on.
    SendLast(V),
    /// Cancel the turn, commit the failed end, stop renewing the lease, and tell the error.
    Abort(MachineError, TxCommit),
    /// Ask the run to stop, cancel the turn, commit the cancelled end, stop renewing the lease, and
    /// drop the checkpoints that wait.
    Cancel(TxCommit),
    /// Stop.
    Stop,
}

/// The mathematical view of [`TxAction`].
pub enum TxActionView<V> {
    Wait,
    TakeCheckpoint,
    Commit(TxCommitView),
    Send(V),
    SendLast(V),
    Abort(ErrorView, TxCommitView),
    Cancel(TxCommitView),
    Stop,
}

impl<V> View for TxAction<V> {
    type V = TxActionView<V>;

    open spec fn view(&self) -> TxActionView<V> {
        match *self {
            TxAction::Wait => TxActionView::Wait,
            TxAction::TakeCheckpoint => TxActionView::TakeCheckpoint,
            TxAction::Commit(commit) => TxActionView::Commit(commit@),
            TxAction::Send(event) => TxActionView::Send(event),
            TxAction::SendLast(event) => TxActionView::SendLast(event),
            TxAction::Abort(error, commit) => TxActionView::Abort(error@, commit@),
            TxAction::Cancel(commit) => TxActionView::Cancel(commit@),
            TxAction::Stop => TxActionView::Stop,
        }
    }
}

/// The error of a commit that was not written.
pub open spec fn answer_error(answer: TxAnswer) -> Option<ErrorView> {
    match answer {
        TxAnswer::Written => None,
        TxAnswer::Skipped => Some(ErrorView::RunNotFound),
        TxAnswer::Refused(error) => Some(error@),
    }
}

/// How a commit was answered.
pub open spec fn answered<E>(result: Result<RunCommitResult<E>, MachineError>) -> TxAnswer {
    match result {
        Ok(RunCommitResult::Skipped) => TxAnswer::Skipped,
        Ok(_) => TxAnswer::Written,
        Err(error) => TxAnswer::Refused(error),
    }
}

/// How a commit was answered.
pub fn answer_of<E>(result: Result<RunCommitResult<E>, MachineError>) -> (answer: TxAnswer)
    ensures
        answer == answered(result),
{
    match result {
        Ok(result) => if result.is_skipped() {
            TxAnswer::Skipped
        } else {
            TxAnswer::Written
        },
        Err(error) => TxAnswer::Refused(error),
    }
}

impl<V> TxState<V> {
    /// Whether something can be told now.
    pub open spec fn expects(self, event: TxEvent<V>) -> bool {
        match event {
            TxEvent::Told(_, _) => self is Idle,
            TxEvent::StreamClosed => self is Idle,
            TxEvent::ReceiverClosed => self is Idle,
            TxEvent::Checkpoint(_) => self is Checkpointing,
            TxEvent::Committed(_) => self is Committing || self is Finishing,
            TxEvent::Sent(_) => self is Sending || self is SendingStep || self is SendingEnd,
        }
    }

    /// What a runtime does about what the turn tells.
    pub open spec fn told(
        pending: Option<PendingStep<V>>,
        record: Result<EventRecord, MachineError>,
        event: V,
    ) -> (TxState<V>, TxActionView<V>) {
        match record {
            Err(error) => (
                TxState::Over,
                TxActionView::Abort(error@, failure_commit(pending, error@)),
            ),
            Ok(EventRecord::Append(payload)) => match payload {
                Payload::StepDone { result, .. } => (
                    TxState::Checkpointing { pending, event, payload, result },
                    TxActionView::TakeCheckpoint,
                ),
                _ => if pending is Some {
                    let error = crate::error::invalid(
                        "terminal step must be followed by terminal event"@,
                    );
                    (TxState::Over, TxActionView::Abort(error, failure_commit(pending, error)))
                } else {
                    (
                        TxState::Committing { pending: None, event },
                        TxActionView::Commit(
                            TxCommitView {
                                payloads: seq![payload@],
                                checkpoint: None,
                                with_ops: false,
                                ending: None,
                            },
                        ),
                    )
                },
            },
            Ok(EventRecord::Finish { payload, ending }) => (
                TxState::Finishing { pending, event },
                TxActionView::Commit(ending_commit(pending, payload@, ending@)),
            ),
        }
    }

    /// What a runtime does about an event, and how it stands with the run then.
    pub open spec fn step_to(self, event: TxEvent<V>, next: TxState<V>, action: TxActionView<V>) -> bool {
        match (self, event) {
            (TxState::Idle { pending }, TxEvent::Told(record, told)) => (next, action)
                == Self::told(pending, record, told),
            (TxState::Idle { pending }, TxEvent::StreamClosed) => next is Over && action
                == TxActionView::<V>::Cancel(cancel_commit(pending, "stream_closed"@)),
            (TxState::Idle { pending }, TxEvent::ReceiverClosed) => next is Over && action
                == TxActionView::<V>::Cancel(cancel_commit(pending, "receiver_closed"@)),
            (
                TxState::Checkpointing { pending, event: told, payload, result },
                TxEvent::Checkpoint(taken),
            ) => match taken {
                None => {
                    let error = crate::error::invalid("missing checkpoint for step event"@);
                    next is Over && action == TxActionView::<V>::Abort(
                        error,
                        failure_commit(pending, error),
                    )
                },
                Some(checkpoint) => if result is Next {
                    next == TxState::Committing { pending, event: told } && action
                        == TxActionView::<V>::Commit(
                        TxCommitView {
                            payloads: seq![payload@],
                            checkpoint: Some(checkpoint@),
                            with_ops: true,
                            ending: None,
                        },
                    )
                } else {
                    next == (TxState::Idle {
                        pending: Some(PendingStep { event: told, checkpoint, payload }),
                    }) && action is Wait
                },
            },
            (TxState::Committing { pending, event: told }, TxEvent::Committed(answer)) =>
            match answer_error(answer) {
                None => next is Sending && action == TxActionView::Send(told),
                Some(error) => next is Over && action == TxActionView::<V>::Abort(
                    error,
                    failure_commit(pending, error),
                ),
            },
            (TxState::Finishing { pending, event: told }, TxEvent::Committed(answer)) =>
            match answer_error(answer) {
                None => match pending {
                    Some(step) => next == TxState::SendingStep { event: told } && action
                        == TxActionView::SendLast(step.event),
                    None => next is SendingEnd && action == TxActionView::SendLast(told),
                },
                Some(error) => next is Over && action == TxActionView::<V>::Abort(
                    error,
                    failure_commit(pending, error),
                ),
            },
            (TxState::Sending, TxEvent::Sent(received)) => if received {
                next == (TxState::Idle::<V> { pending: None }) && action is Wait
            } else {
                next is Over && action == TxActionView::<V>::Cancel(
                    cancel_commit(None::<PendingStep<V>>, "receiver_closed"@),
                )
            },
            (TxState::SendingStep { event: told }, TxEvent::Sent(received)) => if received {
                next is SendingEnd && action == TxActionView::SendLast(told)
            } else {
                next is Over && action is Stop
            },
            (TxState::SendingEnd, TxEvent::Sent(_)) => next is Over && action is Stop,
            _ => next is Over && action is Stop,
        }
    }

    fn abort(pending: &Option<PendingStep<V>>, error: MachineError) -> (action: TxAction<V>)
        ensures
            action@ == TxActionView::<V>::Abort(error@, failure_commit(*pending, error@)),
    {
        let commit = end_with(
            pending,
            Payload::Fail { error: error.message() },
            failed_ending(&error),
        );
        TxAction::Abort(error, commit)
    }

    fn cancel(pending: &Option<PendingStep<V>>, reason: &'static str) -> (action: TxAction<V>)
        ensures
            action@ == TxActionView::<V>::Cancel(cancel_commit(*pending, reason@)),
    {
        TxAction::Cancel(
            end_with(
                pending,
                Payload::Cancel,
                Ending { status: RunStatus::Cancelled, reason, code: None },
            ),
        )
    }

    fn on_told(
        pending: Option<PendingStep<V>>,
        record: Result<EventRecord, MachineError>,
        event: V,
    ) -> (result: (TxState<V>, TxAction<V>))
        ensures
            (result.0, result.1@) == Self::told(pending, record, event),
    {
        match record {
            Err(error) => (TxState::Over, Self::abort(&pending, error)),
            Ok(EventRecord::Append(payload)) => {
                if let Payload::StepDone { result, .. } = &payload {
                    let result = *result;
                    return (
                        TxState::Checkpointing { pending, event, payload, result },
                        TxAction::TakeCheckpoint,
                    );
                }
                if pending.is_some() {
                    let error = MachineError::invalid_run_event(
                        "terminal step must be followed by terminal event",
                    );
                    return (TxState::Over, Self::abort(&pending, error));
                }
                let mut payloads: Vec<Payload> = Vec::new();
                payloads.push(payload);
                assert(views(payloads@) =~= seq![payload@]);
                (
                    TxState::Committing { pending: None, event },
                    TxAction::Commit(
                        TxCommit { payloads, checkpoint: None, with_ops: false, ending: None },
                    ),
                )
            },
            Ok(EventRecord::Finish { payload, ending }) => {
                let commit = end_with(&pending, payload, ending);
                (TxState::Finishing { pending, event }, TxAction::Commit(commit))
            },
        }
    }

    fn on_checkpoint(
        pending: Option<PendingStep<V>>,
        event: V,
        payload: Payload,
        result: StepResult,
        taken: Option<CheckpointWrite>,
    ) -> (next: (TxState<V>, TxAction<V>))
        ensures
            (TxState::Checkpointing { pending, event, payload, result }).step_to(
                TxEvent::Checkpoint(taken),
                next.0,
                next.1@,
            ),
    {
        match taken {
            None => {
                let error = MachineError::invalid_run_event("missing checkpoint for step event");
                (TxState::Over, Self::abort(&pending, error))
            },
            Some(checkpoint) => {
                if result != StepResult::Next {
                    return (
                        TxState::Idle { pending: Some(PendingStep { event, checkpoint, payload }) },
                        TxAction::Wait,
                    );
                }
                let mut payloads: Vec<Payload> = Vec::new();
                payloads.push(payload);
                assert(views(payloads@) =~= seq![payload@]);
                (
                    TxState::Committing { pending, event },
                    TxAction::Commit(
                        TxCommit {
                            payloads,
                            checkpoint: Some(checkpoint),
                            with_ops: true,
                            ending: None,
                        },
                    ),
                )
            },
        }
    }

    /// Takes an event that can be told now, and says what is to be done next.
    pub fn step(self, event: TxEvent<V>) -> (result: (TxState<V>, TxAction<V>))
        requires
            self.expects(event),
        ensures
            self.step_to(event, result.0, result.1@),
    {
        match self {
            TxState::Idle { pending } => match event {
                TxEvent::Told(record, told) => Self::on_told(pending, record, told),
                TxEvent::StreamClosed => (TxState::Over, Self::cancel(&pending, "stream_closed")),
                _ => (TxState::Over, Self::cancel(&pending, "receiver_closed")),
            },
            TxState::Checkpointing { pending, event: told, payload, result } => match event {
                TxEvent::Checkpoint(taken) => Self::on_checkpoint(
                    pending,
                    told,
                    payload,
                    result,
                    taken,
                ),
                _ => (TxState::Over, TxAction::Stop),
            },
            TxState::Committing { pending, event: told } => match event {
                TxEvent::Committed(TxAnswer::Written) => (TxState::Sending, TxAction::Send(told)),
                TxEvent::Committed(TxAnswer::Skipped) => (
                    TxState::Over,
                    Self::abort(&pending, MachineError::RunNotFound),
                ),
                TxEvent::Committed(TxAnswer::Refused(error)) => (
                    TxState::Over,
                    Self::abort(&pending, error),
                ),
                _ => (TxState::Over, TxAction::Stop),
            },
            TxState::Finishing { pending, event: told } => match event {
                TxEvent::Committed(TxAnswer::Written) => match pending {
                    Some(step) => (
                        TxState::SendingStep { event: told },
                        TxAction::SendLast(step.event),
                    ),
                    None => (TxState::SendingEnd, TxAction::SendLast(told)),
                },
                TxEvent::Committed(TxAnswer::Skipped) => (
                    TxState::Over,
                    Self::abort(&pending, MachineError::RunNotFound),
                ),
                TxEvent::Committed(TxAnswer::Refused(error)) => (
                    TxState::Over,
                    Self::abort(&pending, error),
                ),
                _ => (TxState::Over, TxAction::Stop),
            },
            TxState::Sending => match event {
                TxEvent::Sent(true) => (TxState::Idle { pending: None }, TxAction::Wait),
                _ => (TxState::Over, Self::cancel(&None, "receiver_closed")),
            },
            TxState::SendingStep { event: told } => match event {
                TxEvent::Sent(true) => (TxState::SendingEnd, TxAction::SendLast(told)),
                _ => (TxState::Over, TxAction::Stop),
            },
            TxState::SendingEnd => (TxState::Over, TxAction::Stop),
            TxState::Over => (TxState::Over, TxAction::Stop),
        }
    }
}

/// The run that a runtime commits for.
#[derive(Debug)]
pub struct TxTarget {
    /// The run.
    pub run_id: RunId,
    /// Its session.
    pub session_id: SessionId,
    /// Its scope.
    pub scope: Json,
    /// The lease under which it writes.
    pub lease: LeaseId,
}

impl TxTarget {
    /// The plan of a commit, with what waits.
    pub open spec fn planned<D>(&self, commit: TxCommitView, ops: PendingOpsView, data: D) -> CommitPlanView<
        D,
    > {
        CommitPlanView {
            lease: Some(self.lease@),
            checkpoint: commit.checkpoint,
            event_count: 0,
            effects: ops.effects,
            items: ops.items,
            entries: ops.entries,
            finish: match commit.ending {
                Some(ending) => Some(
                    RunFinishView {
                        run_id: self.run_id@,
                        session_id: self.session_id@,
                        scope: self.scope@,
                        status: ending.status,
                        finish_reason: ending.reason,
                        error_code: ending.code,
                        entries: Seq::empty(),
                        data,
                    },
                ),
                None => None,
            },
        }
    }

    /// The plan of a commit, with what waits, and the payloads of its events.
    pub fn plan<D>(&self, commit: TxCommit, ops: PendingOps, data: D) -> (planned: (
        CommitPlan<D>,
        Vec<Payload>,
    ))
        ensures
            planned.0@ == self.planned(commit@, ops@, data),
            planned.1 == commit.payloads,
    {
        let finish = match commit.ending {
            Some(ending) => {
                let finish = RunFinish {
                    run_id: self.run_id.clone(),
                    session_id: self.session_id.clone(),
                    scope: self.scope.clone(),
                    status: ending.status,
                    finish_reason: ending.reason.to_owned(),
                    error_code: ending.code,
                    entries: Vec::new(),
                    data,
                };
                assert(finish@.entries =~= Seq::empty());
                Some(finish)
            },
            None => None,
        };
        let plan = CommitPlan {
            lease: Some(self.lease.clone()),
            checkpoint: commit.checkpoint,
            event_count: 0,
            effects: ops.effects,
            items: ops.items,
            entries: ops.entries,
            finish,
        };
        (plan, commit.payloads)
    }
}

/// A run that a runtime is to start, and what it works with once the run is started.
#[derive(Debug)]
pub struct TxStart {
    /// The run to start.
    pub run: RunStart,
    /// The token of its handle.
    pub token: String,
    /// The lease to renew.
    pub lease: Lease,
    /// The run that is committed for.
    pub target: TxTarget,
}

impl TxStart {
    /// Whether a run is started, renewed and committed for under one lease.
    pub open spec fn leased(&self, cfg: LeaseCfg, id: Seq<char>) -> bool {
        &&& self.run@.lease == Some(
            LeaseClaimView { owner: cfg.owner@, id, ttl: cfg.ttl as nat },
        )
        &&& self.lease@ == (LeaseView { run: self.run@.run_id, owner: cfg.owner@, id })
        &&& self.target.run_id@ == self.run@.run_id
        &&& self.target.session_id@ == self.run@.session_id
        &&& self.target.scope@ == self.run@.scope
        &&& self.target.lease@ == id
    }
}

impl LeaseCfg {
    /// A run to start under a lease of this runtime.
    pub fn begin(
        &self,
        start: Start,
        run_id: &RunId,
        session_id: &SessionId,
        thread_id: &ThreadId,
        input: Option<Json>,
        id: LeaseId,
    ) -> (begun: TxStart)
        ensures
            begun.leased(*self, id@),
            begun.run@ == start.run(
                run_id@,
                session_id@,
                thread_id@,
                opt(input),
                begun.run@.lease,
            ),
            begun.token@ == start.handle_token(run_id@),
    {
        let target = TxTarget {
            run_id: run_id.clone(),
            session_id: session_id.clone(),
            scope: start.scope.clone(),
            lease: id.clone(),
        };
        let (claim, lease) = self.claim(run_id, id);
        let (run, token) = start.into_run(run_id, session_id, thread_id, input, Some(claim));
        TxStart { run, token, lease, target }
    }
}

} // verus!
