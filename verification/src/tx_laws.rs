//! What a runtime commits for a run, and what it passes on.

use vstd::prelude::*;

use crate::bridge::{BridgeActionView, BridgeEvent, BridgeState};
use crate::error::{ErrorView, MachineError};
use crate::payload::{EventRecord, PayloadView};
use crate::pending::PendingOpsView;
use crate::store::{CheckpointWrite, RunStatus};
use crate::tx::{PendingStep, TxActionView, TxAnswer, TxCommitView, TxEvent, TxState, TxTarget};

verus! {

/// What an action commits, where it commits something.
pub open spec fn committed<V>(action: TxActionView<V>) -> Option<TxCommitView> {
    match action {
        TxActionView::Commit(commit) => Some(commit),
        TxActionView::Abort(_, commit) => Some(commit),
        TxActionView::Cancel(commit) => Some(commit),
        _ => None,
    }
}

/// The step that waits to be committed with the end of the run.
pub open spec fn waiting_step<V>(state: TxState<V>) -> Option<PendingStep<V>> {
    match state {
        TxState::Idle { pending } => pending,
        TxState::Checkpointing { pending, .. } => pending,
        TxState::Committing { pending, .. } => pending,
        TxState::Finishing { pending, .. } => pending,
        _ => None,
    }
}

/// An error about an event of a run, with this message.
pub open spec fn about_event(error: ErrorView, message: Seq<char>) -> bool {
    error matches ErrorView::InvalidRunEvent { reason } && reason == message
}

/// Whatever a runtime is told, the effects, items and entries that wait go along with each commit
/// that carries the checkpoint of a step or ends the run, and with no other.
pub proof fn what_waits_goes_along<V>(
    state: TxState<V>,
    event: TxEvent<V>,
    next: TxState<V>,
    action: TxActionView<V>,
)
    requires
        state.expects(event),
        state.step_to(event, next, action),
    ensures
        committed(action) matches Some(commit) ==> (commit.with_ops <==> (commit.checkpoint is Some
            || commit.ending is Some)),
{
}

/// A commit that ends the run carries the step that waited, with its checkpoint, before the end.
pub proof fn ends_carry_the_last_step<V>(
    state: TxState<V>,
    event: TxEvent<V>,
    next: TxState<V>,
    action: TxActionView<V>,
)
    requires
        state.expects(event),
        state.step_to(event, next, action),
        committed(action) is Some,
        committed(action)->0.ending is Some,
    ensures
        waiting_step(state) matches Some(step) ==> {
            &&& committed(action)->0.payloads.len() == 2
            &&& committed(action)->0.payloads[0] == step.payload@
            &&& committed(action)->0.checkpoint == Some(step.checkpoint@)
        },
        waiting_step(state) is None ==> {
            &&& committed(action)->0.payloads.len() == 1
            &&& committed(action)->0.checkpoint is None
        },
{
}

/// A commit that does not end the run holds the one event that was told, and the checkpoint where
/// a step has ended.
pub proof fn events_are_committed_one_by_one<V>(
    state: TxState<V>,
    event: TxEvent<V>,
    next: TxState<V>,
    action: TxActionView<V>,
)
    requires
        state.expects(event),
        state.step_to(event, next, action),
        committed(action) is Some,
        committed(action)->0.ending is None,
    ensures
        action is Commit,
        committed(action)->0.payloads.len() == 1,
        match event {
            TxEvent::Told(Ok(EventRecord::Append(payload)), told) => {
                &&& committed(action)->0.payloads[0] == payload@
                &&& committed(action)->0.checkpoint is None
                &&& next == TxState::Committing { pending: None, event: told }
                &&& !(payload is StepDone)
            },
            TxEvent::Checkpoint(Some(checkpoint)) => {
                &&& state is Checkpointing
                &&& committed(action)->0.payloads[0] == state->Checkpointing_payload@
                &&& committed(action)->0.checkpoint == Some(checkpoint@)
                &&& next == TxState::Committing {
                    pending: state->Checkpointing_pending,
                    event: state->Checkpointing_event,
                }
            },
            _ => false,
        },
{
}

/// What a turn tells is taken up as it is told: an event is committed, a step waits for its
/// checkpoint, and an end is committed as the end.
pub proof fn what_is_told_is_taken_up<V>(
    pending: Option<PendingStep<V>>,
    record: Result<EventRecord, MachineError>,
    told: V,
    next: TxState<V>,
    action: TxActionView<V>,
)
    requires
        (TxState::Idle { pending }).step_to(TxEvent::Told(record, told), next, action),
    ensures
        match record {
            Ok(EventRecord::Append(payload)) => {
                &&& payload is StepDone ==> action is TakeCheckpoint && next
                    == TxState::Checkpointing {
                    pending,
                    event: told,
                    payload,
                    result: payload->StepDone_result,
                }
                &&& !(payload is StepDone) && pending is None ==> action is Commit
                    && action->Commit_0.ending is None
                &&& !(payload is StepDone) && pending is Some ==> action is Abort && about_event(
                    action->Abort_0,
                    "terminal step must be followed by terminal event"@,
                )
            },
            Ok(EventRecord::Finish { payload, ending }) => {
                &&& action is Commit && action->Commit_0.ending == Some(ending@)
                &&& action->Commit_0.payloads.last() == payload@
                &&& next == TxState::Finishing { pending, event: told }
            },
            Err(error) => action is Abort && action->Abort_0 == error@,
        },
{
}

/// Once a step's checkpoint is there, a step that leads on is committed and one that ends the turn
/// waits for the end; without it the run fails.
pub proof fn steps_are_committed_with_their_checkpoint<V>(
    state: TxState<V>,
    taken: Option<CheckpointWrite>,
    next: TxState<V>,
    action: TxActionView<V>,
)
    requires
        state is Checkpointing,
        state.step_to(TxEvent::Checkpoint(taken), next, action),
    ensures
        taken is None ==> action is Abort && about_event(
            action->Abort_0,
            "missing checkpoint for step event"@,
        ),
        taken is Some && state->result is Next ==> action is Commit && action->Commit_0.ending
            is None,
        taken is Some && !(state->result is Next) ==> action is Wait && (waiting_step(
            next,
        ) matches Some(step) && step.event == state->Checkpointing_event && step.payload
            == state->Checkpointing_payload && Some(step.checkpoint) == taken) && next is Idle,
{
}

/// A commit that was not written fails the run with the reason, and a run that does not go on is
/// told as not found.
pub proof fn refused_commits_fail_the_run<V>(
    state: TxState<V>,
    answer: TxAnswer,
    next: TxState<V>,
    action: TxActionView<V>,
)
    requires
        state is Committing || state is Finishing,
        state.step_to(TxEvent::Committed(answer), next, action),
    ensures
        action is Abort <==> !(answer is Written),
        answer is Skipped ==> action->Abort_0 is RunNotFound,
        answer matches TxAnswer::Refused(error) ==> action->Abort_0 == error@,
{
}

/// Once a commit was written, what it told is passed on: the last step before the end.
pub proof fn what_was_written_is_passed_on<V>(
    state: TxState<V>,
    next: TxState<V>,
    action: TxActionView<V>,
)
    requires
        state is Committing || state is Finishing,
        state.step_to(TxEvent::Committed(TxAnswer::Written), next, action),
    ensures
        state matches TxState::Committing { event, .. } ==> action == TxActionView::Send(event)
            && next is Sending,
        state matches TxState::Finishing { event, pending } ==> {
            &&& pending matches Some(step) ==> action == TxActionView::SendLast(step.event) && next
                == TxState::SendingStep { event }
            &&& pending is None ==> action == TxActionView::SendLast(event) && next is SendingEnd
        },
{
}

/// After what was passed on was received the run goes on, or the end is passed on; where nobody
/// receives any more the run is cancelled, unless its end was written.
pub proof fn receivers_are_followed<V>(
    state: TxState<V>,
    received: bool,
    next: TxState<V>,
    action: TxActionView<V>,
)
    requires
        state is Sending || state is SendingStep || state is SendingEnd,
        state.step_to(TxEvent::Sent(received), next, action),
    ensures
        state is Sending && received ==> action is Wait && next is Idle && waiting_step(next)
            is None,
        state is Sending && !received ==> action is Cancel && next is Over,
        state is SendingStep && received ==> action == TxActionView::SendLast(
            state->SendingStep_event,
        ) && next is SendingEnd,
        state is SendingStep && !received ==> action is Stop && next is Over,
        state is SendingEnd ==> action is Stop && next is Over,
{
}

/// A failed run ends with the error, its message and its code; a cancelled run ends as cancelled,
/// and says who left.
pub proof fn ends_say_why<V>(
    state: TxState<V>,
    event: TxEvent<V>,
    next: TxState<V>,
    action: TxActionView<V>,
)
    requires
        state.expects(event),
        state.step_to(event, next, action),
    ensures
        action matches TxActionView::Abort(error, commit) ==> {
            &&& next is Over
            &&& commit.payloads.last() == (PayloadView::Fail { error: error.message() })
            &&& commit.ending matches Some(ending) && ending.status == RunStatus::Error
                && ending.reason == "failed"@ && ending.code == Some(error.code())
        },
        action matches TxActionView::Cancel(commit) ==> {
            &&& next is Over
            &&& commit.payloads.last() is Cancel
            &&& commit.ending matches Some(ending) && ending.status == RunStatus::Cancelled
                && ending.code is None && ending.reason == if event is StreamClosed {
                "stream_closed"@
            } else {
                "receiver_closed"@
            }
        },
        action is Cancel <==> event is StreamClosed || event is ReceiverClosed || (state is Sending
            && event == TxEvent::<V>::Sent(false)),
{
}

/// What is planned for a commit is made under the run's lease, with the checkpoint of the commit,
/// all that waits, and the end, which names the run.
pub proof fn plans_hold_all_of_it<D>(
    target: TxTarget,
    commit: TxCommitView,
    ops: PendingOpsView,
    data: D,
)
    ensures
        ({
            let plan = target.planned(commit, ops, data);
            &&& plan.lease == Some(target.lease@)
            &&& plan.checkpoint == commit.checkpoint
            &&& plan.effects == ops.effects && plan.items == ops.items && plan.entries
                == ops.entries
            &&& plan.finish is Some <==> commit.ending is Some
            &&& plan.finish matches Some(finish) ==> {
                &&& finish.run_id == target.run_id@ && finish.session_id == target.session_id@
                    && finish.scope == target.scope@
                &&& finish.status == commit.ending->0.status
                &&& finish.finish_reason == commit.ending->0.reason
                &&& finish.error_code == commit.ending->0.code
                &&& finish.entries.len() == 0
                &&& finish.data == data
            }
        }),
{
}

/// How a runtime without transactions records and passes on what a turn tells: an event is appended
/// and an end ends the run, each as it is told, and each is passed on once it was recorded.
pub proof fn plain_runs_record_what_is_told<V>(
    record: EventRecord,
    error: MachineError,
    told: V,
)
    ensures
        ({
            let (next, action) = (BridgeState::Idle).next(BridgeEvent::Told(Ok(record), told));
            &&& match record {
                EventRecord::Append(payload) => action == BridgeActionView::<V>::Append(payload@),
                EventRecord::Finish { payload, ending } => action == BridgeActionView::<V>::Finish(
                    payload@,
                    ending@,
                ),
            }
            &&& next.next(BridgeEvent::Recorded(Ok(()))).1 == BridgeActionView::Send(told)
            &&& next.next(BridgeEvent::Recorded(Ok(()))).0.next(BridgeEvent::Sent(true))
                == if record is Append {
                (BridgeState::Idle::<V>, BridgeActionView::<V>::Wait)
            } else {
                (BridgeState::Over::<V>, BridgeActionView::<V>::Stop)
            }
            &&& next.next(BridgeEvent::Recorded(Ok(()))).0.next(BridgeEvent::Sent(false)).1
                is Cancel <==> record is Append
            &&& next.next(BridgeEvent::Recorded(Err(error))).1 is Abort
        }),
{
}

/// A runtime without transactions ends a run as one with them does: a failed run with the error,
/// its message and its code, a cancelled run as cancelled, saying who left.
pub proof fn plain_ends_say_why<V>(state: BridgeState<V>, event: BridgeEvent<V>)
    requires
        state.expects(event),
    ensures
        state.next(event).1 matches BridgeActionView::Abort(error, payload, ending) ==> {
            &&& state.next(event).0 is Over
            &&& payload == (PayloadView::Fail { error: error.message() })
            &&& ending.status == RunStatus::Error && ending.reason == "failed"@ && ending.code
                == Some(error.code())
            &&& match event {
                BridgeEvent::Told(Err(cause), _) => error == cause@,
                BridgeEvent::Recorded(Err(cause)) => error == cause@,
                _ => false,
            }
        },
        state.next(event).1 matches BridgeActionView::Cancel(payload, ending) ==> {
            &&& state.next(event).0 is Over
            &&& payload is Cancel
            &&& ending.status == RunStatus::Cancelled && ending.code is None && ending.reason
                == if event is StreamClosed {
                "stream_closed"@
            } else {
                "receiver_closed"@
            }
        },
        state.next(event).1 is Abort <==> (event is Told && event->Told_0 is Err) || (event
            is Recorded && event->Recorded_0 is Err),
        state.next(event).1 is Cancel <==> event is StreamClosed || event is ReceiverClosed || (
        state is Sending && event == BridgeEvent::<V>::Sent(false)),
{
}

/// A runtime is told one thing at a time, and always something: what the turn tells or that it, or
/// its receiver, has gone, the checkpoint, the answer to the commit, or whether something was
/// received.
pub proof fn runtimes_wait_for_one_thing<V>(
    state: TxState<V>,
    plain: BridgeState<V>,
    event: TxEvent<V>,
    plain_event: BridgeEvent<V>,
)
    ensures
        state.expects(event) <==> match state {
            TxState::Idle { .. } => event is Told || event is StreamClosed || event
                is ReceiverClosed,
            TxState::Checkpointing { .. } => event is Checkpoint,
            TxState::Committing { .. } => event is Committed,
            TxState::Finishing { .. } => event is Committed,
            TxState::Sending => event is Sent,
            TxState::SendingStep { .. } => event is Sent,
            TxState::SendingEnd => event is Sent,
            TxState::Over => false,
        },
        plain.expects(plain_event) <==> match plain {
            BridgeState::Idle => plain_event is Told || plain_event is StreamClosed || plain_event
                is ReceiverClosed,
            BridgeState::Appending { .. } => plain_event is Recorded,
            BridgeState::Finishing { .. } => plain_event is Recorded,
            BridgeState::Sending => plain_event is Sent,
            BridgeState::SendingEnd => plain_event is Sent,
            BridgeState::Over => false,
        },
{
}

} // verus!
