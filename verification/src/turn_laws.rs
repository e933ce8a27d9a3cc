//! What turns and the recording of turns promise as a whole.

use vstd::prelude::*;

use crate::bridge::{BridgeEvent, BridgeState};
use crate::checkpoint::CheckpointRecordView;
use crate::error::ErrorView;
use crate::ids::{RunId, SessionId};
use crate::life_view::{built_events_refusal, built_refusal};
use crate::lifecycle::envelopes;
use crate::model::{ends, ends_early};
use crate::payload::{EventRecord, Payload};
use crate::pending::{waiting, PendingOpsView};
use crate::run::{RunCommand, StepResult};
use crate::machine::Transition;
use crate::runner::{
    restored, saved, RestoreView, TurnActionView, TurnEvent, TurnPhase, TurnView,
};
use crate::runtime::LeaseCfg;
use crate::store::{CheckpointWrite, LeaseClaimView, RunEvent, RunEventPayload, RunFinishView};
use crate::store_laws::lemma_all_pass;
use crate::tx::{PendingStep, TxActionView, TxAnswer, TxCommitView, TxEvent, TxStart, TxState};

verus! {

/// A turn takes no more steps than it may, and its trace tells of each step that led somewhere.
pub proof fn turns_are_limited(turn: TurnView, event: TurnEvent)
    requires
        turn.sound(),
        turn.expects(event),
    ensures
        turn.step(event).0.sound(),
        turn.step(event).0.steps <= turn.max_steps,
        turn.step(event).1 is Move ==> turn.step(event).0.steps >= 1,
{
}

/// A step is told to have ended, or followed by another, or by the end, only once the state after it
/// was saved.
pub proof fn saved_before_told(turn: TurnView, event: TurnEvent)
    requires
        turn.sound(),
        turn.expects(event),
    ensures
        turn.step(event).1 is Report || turn.step(event).1 is Advance || turn.step(event).1 is End
            ==> {
            ||| event matches TurnEvent::Saved(saved, _) && saved is Ok && turn.phase is Saving
            ||| event matches TurnEvent::Told(told) && told && turn.phase is Reporting
        },
        turn.step(event).1 is Report || turn.step(event).1 is Advance || turn.step(event).1 is End
            ==> turn.step(event).0.trace.len() == turn.steps,
{
}

/// A turn after all that it was told, and what was to be done for it each time.
pub open spec fn played(turn: TurnView, events: Seq<TurnEvent>) -> (TurnView, Seq<TurnActionView>)
    decreases events.len(),
{
    if events.len() == 0 {
        (turn, Seq::empty())
    } else {
        let (now, actions) = played(turn, events.drop_last());
        let (next, action) = now.step(events.last());
        (next, actions.push(action))
    }
}

/// Whether a turn waited for all that it was told, each time.
pub open spec fn playable(turn: TurnView, events: Seq<TurnEvent>) -> bool
    decreases events.len(),
{
    events.len() == 0 || playable(turn, events.drop_last()) && played(
        turn,
        events.drop_last(),
    ).0.expects(events.last())
}

/// How many steps are told to begin.
pub open spec fn announced(actions: Seq<TurnActionView>) -> nat
    decreases actions.len(),
{
    if actions.len() == 0 {
        0
    } else if actions.last() is Announce {
        announced(actions.drop_last()) + 1
    } else {
        announced(actions.drop_last())
    }
}

/// Whether a turn waits for what was last to be done for it.
pub open spec fn waits_for(phase: TurnPhase, actions: Seq<TurnActionView>) -> bool {
    match phase {
        TurnPhase::Ready => actions.len() == 0 || actions.last() is Advance,
        TurnPhase::Announcing => actions.len() > 0 && actions.last() is Announce,
        TurnPhase::Moving => actions.len() > 0 && actions.last() is Move,
        TurnPhase::Saving(result) => actions.len() > 0 && actions.last() == TurnActionView::Save(
            result,
        ),
        TurnPhase::Reporting(result) => actions.len() > 0 && actions.last()
            == TurnActionView::Report(result),
        TurnPhase::Over => true,
    }
}

/// Whether what is to be done for a turn at some point follows what was to be done before it: a step
/// is announced under its number, where steps are told, then taken, then the state after it is
/// saved, then the step is told to have ended, and then comes the next step or the end. Nothing is
/// told of the end of a step, and nothing follows it, unless the state after it was saved.
pub open spec fn in_turn(
    streaming: bool,
    events: Seq<TurnEvent>,
    actions: Seq<TurnActionView>,
    k: int,
) -> bool {
    let first = k == 0;
    let saved = events[k] matches TurnEvent::Saved(answer, _) && answer is Ok;
    match actions[k] {
        TurnActionView::Announce(n) => streaming && (first || actions[k - 1] is Advance) && n
            == announced(actions.take(k + 1)),
        TurnActionView::Move => if streaming {
            !first && actions[k - 1] is Announce
        } else {
            first || actions[k - 1] is Advance
        },
        TurnActionView::Save(_) => !first && actions[k - 1] is Move,
        TurnActionView::Report(result) => streaming && saved && !first && actions[k - 1]
            == TurnActionView::Save(result),
        TurnActionView::Advance => !first && actions[k - 1] == if streaming {
            TurnActionView::Report(StepResult::Next)
        } else {
            TurnActionView::Save(StepResult::Next)
        } && (streaming || saved),
        TurnActionView::End(result) => !first && actions[k - 1] == if streaming {
            TurnActionView::Report(result)
        } else {
            TurnActionView::Save(result)
        } && (streaming || saved),
        _ => true,
    }
}

/// A whole turn goes in order: each of its steps is announced under the next number, taken, saved and
/// told to have ended, one after the other.
pub proof fn turns_go_in_order(max_steps: nat, streaming: bool, events: Seq<TurnEvent>)
    requires
        playable(TurnView::begun(max_steps, streaming), events),
    ensures
        ({
            let (turn, actions) = played(TurnView::begun(max_steps, streaming), events);
            &&& turn.sound()
            &&& actions.len() == events.len()
            &&& forall|k: int|
                0 <= k < actions.len() ==> #[trigger] in_turn(streaming, events, actions, k)
            &&& announced(actions) <= max_steps
        }),
{
    lemma_turn(max_steps, streaming, events);
}

proof fn lemma_turn(max_steps: nat, streaming: bool, events: Seq<TurnEvent>)
    requires
        playable(TurnView::begun(max_steps, streaming), events),
    ensures
        ({
            let (turn, actions) = played(TurnView::begun(max_steps, streaming), events);
            &&& turn.sound()
            &&& turn.max_steps == max_steps
            &&& turn.streaming == streaming
            &&& waits_for(turn.phase, actions)
            &&& announced(actions) == if streaming {
                turn.steps
            } else {
                0
            }
            &&& actions.len() == events.len()
            &&& forall|k: int|
                0 <= k < actions.len() ==> #[trigger] in_turn(streaming, events, actions, k)
        }),
    decreases events.len(),
{
    let begun = TurnView::begun(max_steps, streaming);
    if events.len() > 0 {
        let fewer = events.drop_last();
        lemma_turn(max_steps, streaming, fewer);
        let (turn, before) = played(begun, fewer);
        let (next, actions) = played(begun, events);
        assert(actions.drop_last() =~= before);
        let last = actions.len() - 1;
        assert(actions.take(last + 1) =~= actions);
        assert forall|k: int| 0 <= k < actions.len() implies #[trigger] in_turn(
            streaming,
            events,
            actions,
            k,
        ) by {
            if k < last {
                assert(in_turn(streaming, fewer, before, k));
                assert(actions.take(k + 1) =~= before.take(k + 1));
                assert(fewer[k] == events[k]);
            } else if last > 0 {
                assert(actions[last - 1] == before.last());
            }
        }
    }
}

/// A turn that has ended expects nothing more.
pub proof fn over_is_over(turn: TurnView, event: TurnEvent)
    requires
        turn.phase is Over,
    ensures
        !turn.expects(event),
{
}

/// A thread that was interrupted is resumed from where it was interrupted, whoever resumes it.
pub proof fn interrupts_can_be_resumed(
    interrupt: Seq<char>,
    step: Seq<char>,
    state: Seq<char>,
    run: Seq<char>,
    by: Seq<char>,
)
    ensures
        restored(
            RunCommand::Resume,
            by,
            Some(saved(Transition::Interrupt((step, interrupt)), state, run)),
        ) == Ok::<RestoreView, ErrorView>(
            RestoreView::Resume { interrupt, interrupted_step: Some(step) },
        ),
{
}

/// A run that was stopped between two steps goes on with the second. Another run on the thread
/// begins at the first step, and nothing is there to be resumed.
pub proof fn runs_go_on_where_they_stopped(
    next: Seq<char>,
    state: Seq<char>,
    own: Seq<char>,
    other: Seq<char>,
)
    requires
        other != own,
    ensures
        ({
            let record = Some(saved(Transition::Next(next), state, own));
            &&& restored(RunCommand::Start, own, record) == Ok::<RestoreView, ErrorView>(
                RestoreView::Continue { step: Some(next) },
            )
            &&& restored(RunCommand::Start, other, record) == Ok::<RestoreView, ErrorView>(
                RestoreView::Continue { step: None },
            )
            &&& restored(RunCommand::Resume, own, record) == Err::<RestoreView, ErrorView>(
                ErrorView::NoPendingInterrupt,
            )
        }),
{
}

/// After a turn that is complete, the next begins at the first step, and nothing is there to be
/// resumed.
pub proof fn complete_turns_are_done(state: Seq<char>, run: Seq<char>, by: Seq<char>)
    ensures
        ({
            let record = Some(saved(Transition::Complete(()), state, run));
            &&& restored(RunCommand::Start, by, record) == Ok::<RestoreView, ErrorView>(
                RestoreView::Continue { step: None },
            )
            &&& restored(RunCommand::Resume, by, record) == Err::<RestoreView, ErrorView>(
                ErrorView::NoPendingInterrupt,
            )
        }),
{
}

/// The checkpoints of a thread are taken in the order in which they came.
pub proof fn checkpoints_wait_in_line(
    queues: Map<Seq<char>, Seq<CheckpointRecordView>>,
    thread: Seq<char>,
    record: CheckpointRecordView,
)
    ensures
        ({
            let after = queues.insert(thread, waiting(queues, thread).push(record));
            &&& waiting(after, thread).last() == record
            &&& waiting(queues, thread).len() == 0 ==> waiting(after, thread)[0] == record
            &&& waiting(queues, thread).len() > 0 ==> waiting(after, thread)[0] == waiting(
                queues,
                thread,
            )[0]
        }),
{
}

impl<V> TxState<V> {
    /// A step that waits to be committed does not end the run by itself.
    pub open spec fn sound(self) -> bool {
        match self {
            TxState::Idle { pending } => pending_sound(pending),
            TxState::Checkpointing { pending, payload, .. } => pending_sound(pending)
                && !payload@.terminal(),
            TxState::Committing { pending, .. } => pending_sound(pending),
            TxState::Finishing { pending, .. } => pending_sound(pending),
            _ => true,
        }
    }

    /// What is recorded as an event does not end the run, and what is recorded as its end does.
    pub open spec fn record_sound(event: TxEvent<V>) -> bool {
        match event {
            TxEvent::Told(Ok(EventRecord::Append(payload)), _) => !payload@.terminal(),
            TxEvent::Told(Ok(EventRecord::Finish { payload, ending }), _) => payload@.terminal()
                && ending.status.terminal(),
            _ => true,
        }
    }
}

/// A step that waits to be committed does not end the run by itself.
pub open spec fn pending_sound<V>(pending: Option<PendingStep<V>>) -> bool {
    pending matches Some(step) ==> !step.payload@.terminal()
}

/// A commit that a runtime makes holds together: it says something, what it says ends the run only
/// at its end, and exactly if the commit ends the run.
pub open spec fn commit_sound(commit: TxCommitView) -> bool {
    &&& commit.payloads.len() > 0
    &&& forall|i: int|
        0 <= i < commit.payloads.len() - 1 ==> !(#[trigger] commit.payloads[i]).terminal()
    &&& commit.payloads.last().terminal() <==> commit.ending is Some
    &&& commit.ending matches Some(ending) ==> ending.status.terminal()
}

/// Whatever a runtime is told, what it commits holds together.
pub proof fn commits_are_sound<V>(
    state: TxState<V>,
    event: TxEvent<V>,
    next: TxState<V>,
    action: TxActionView<V>,
)
    requires
        state.sound(),
        state.expects(event),
        TxState::record_sound(event),
        state.step_to(event, next, action),
    ensures
        next.sound(),
        match action {
            TxActionView::Commit(commit) => commit_sound(commit),
            TxActionView::Abort(_, commit) => commit_sound(commit) && commit.ending is Some,
            TxActionView::Cancel(commit) => commit_sound(commit) && commit.ending is Some,
            _ => true,
        },
{
}

/// The last step of a turn, its checkpoint and the end of the run are committed together.
pub proof fn last_step_and_end_together<V>(
    pending: Option<PendingStep<V>>,
    told: V,
    payload: Payload,
    result: StepResult,
    checkpoint: CheckpointWrite,
    waiting: TxState<V>,
    first: TxActionView<V>,
    end: Payload,
    ending: crate::payload::Ending,
    end_told: V,
    finishing: TxState<V>,
    second: TxActionView<V>,
)
    requires
        !(result is Next),
        (TxState::Checkpointing { pending, event: told, payload, result }).step_to(
            TxEvent::Checkpoint(Some(checkpoint)),
            waiting,
            first,
        ),
        waiting.step_to(
            TxEvent::Told(Ok(EventRecord::Finish { payload: end, ending }), end_told),
            finishing,
            second,
        ),
    ensures
        first is Wait,
        second matches TxActionView::Commit(commit) && commit.payloads == seq![payload@, end@]
            && commit.checkpoint == Some(checkpoint@) && commit.ending == Some(ending@),
{
}

/// A runtime stops without ending the run itself only after the end of the run was written.
pub proof fn stops_only_after_the_end<V>(
    state: TxState<V>,
    event: TxEvent<V>,
    next: TxState<V>,
    action: TxActionView<V>,
)
    requires
        state.expects(event),
        state.step_to(event, next, action),
    ensures
        action is Stop ==> state is SendingStep || state is SendingEnd,
        next is SendingStep || (next is SendingEnd && !(state is SendingStep)) ==> state is Finishing
            && event == TxEvent::<V>::Committed(TxAnswer::Written),
        next is Over && !(action is Stop) ==> action is Abort || action is Cancel,
{
}

/// What a turn tells is passed on only once it was recorded.
pub proof fn recorded_before_passed_on<V>(
    state: TxState<V>,
    event: TxEvent<V>,
    next: TxState<V>,
    action: TxActionView<V>,
    plain: BridgeState<V>,
    plain_event: BridgeEvent<V>,
)
    requires
        state.expects(event),
        state.step_to(event, next, action),
        plain.expects(plain_event),
    ensures
        action is Send ==> state is Committing && event == TxEvent::<V>::Committed(
            TxAnswer::Written,
        ),
        action is SendLast ==> state is SendingStep || state is Finishing && event == TxEvent::<
            V,
        >::Committed(TxAnswer::Written),
        plain.next(plain_event).1 is Send ==> plain_event is Recorded
            && plain_event->Recorded_0 is Ok,
{
}

/// A runtime without transactions stops without ending the run itself only after the end of the run
/// was recorded.
pub proof fn plain_runs_end<V>(state: BridgeState<V>, event: BridgeEvent<V>)
    requires
        state.expects(event),
    ensures
        state.next(event).1 is Stop ==> state is SendingEnd,
        state.next(event).0 is SendingEnd ==> state is Finishing && event is Recorded
            && event->Recorded_0 is Ok,
        state.next(event).0 is Over ==> state.next(event).1 is Stop || state.next(event).1 is Abort
            || state.next(event).1 is Cancel,
{
}

/// The events of a commit that holds together pass the checks on events that were built for a run.
pub proof fn sound_commits_pass<D>(
    run_id: RunId,
    session_id: SessionId,
    base: int,
    payloads: Seq<Payload>,
    commit: TxCommitView,
    finish: Option<RunFinishView<D>>,
)
    requires
        commit_sound(commit),
        commit.payloads == crate::text::views(payloads),
        0 <= base,
        base + payloads.len() <= i64::MAX,
        finish is Some <==> commit.ending is Some,
        finish matches Some(finish) ==> finish.run_id == run_id@ && finish.session_id
            == session_id@,
    ensures
        built_events_refusal(
            run_id@,
            session_id@,
            finish,
            envelopes(run_id, session_id, base, payloads),
            base,
        ) is None,
{
    let events = envelopes(run_id, session_id, base, payloads);
    let check = |i: int| built_refusal(run_id@, session_id@, events[i], base + 1 + i);
    assert forall|i: int| 0 <= i < events.len() implies (#[trigger] check(i)) is None by {
        assert(events[i].seq == (base + 1 + i) as i64);
    }
    lemma_all_pass(events.len(), check);
    assert forall|i: int| 0 <= i < events.len() implies (#[trigger] events[i]).terminal()
        == commit.payloads[i].terminal() by {
        assert(commit.payloads[i] == payloads[i]@);
    }
    assert(events.last() == events[events.len() - 1]);
    if ends(events) && finish is None {
        let i = choose|i: int| 0 <= i < events.len() && (#[trigger] events[i]).terminal();
        assert(commit.payloads[i].terminal());
    }
    if ends_early(events) {
        let i = choose|i: int| 0 <= i < events.len() - 1 && (#[trigger] events[i]).terminal();
        assert(commit.payloads[i].terminal());
    }
}

/// Letting the same thing wait twice is letting it wait once.
pub proof fn waiting_twice_is_waiting_once(
    ops: PendingOpsView,
    update: crate::op::EffectUpdateView,
    item: crate::op::ItemWriteView,
    entry: crate::op::EntryWriteView,
)
    requires
        ops.distinct(),
    ensures
        ops.push_effect(update).1 is Ok ==> ops.push_effect(update).0.push_effect(update) == (
            ops.push_effect(update).0,
            Ok::<(), ErrorView>(()),
        ),
        ops.push_item(item).1 is Ok ==> ops.push_item(item).0.push_item(item) == (
            ops.push_item(item).0,
            Ok::<(), ErrorView>(()),
        ),
        ops.push_entry(entry).1 is Ok ==> ops.push_entry(entry).0.push_entry(entry) == (
            ops.push_entry(entry).0,
            Ok::<(), ErrorView>(()),
        ),
{
    assert(ops.effects.push(update).last() == update);
    assert(ops.effects.push(update)[ops.effects.len() as int] == update);
    assert(ops.items.push(item)[ops.items.len() as int] == item);
    assert(ops.entries.push(entry)[ops.entries.len() as int] == entry);
}

/// A run that a runtime starts is started with the runtime's lease, and each commit for it carries
/// that lease and is made to that run.
pub proof fn commits_carry_the_lease<D>(
    begun: TxStart,
    cfg: LeaseCfg,
    id: Seq<char>,
    commit: TxCommitView,
    ops: PendingOpsView,
    data: D,
)
    requires
        begun.leased(cfg, id),
    ensures
        begun.run@.lease == Some(
            LeaseClaimView { owner: cfg.owner@, id, ttl: cfg.ttl as nat },
        ),
        begun.target.planned(commit, ops, data).lease == Some(id),
        begun.target.run_id@ == begun.run@.run_id,
        begun.target.session_id@ == begun.run@.session_id,
        begun.target.scope@ == begun.run@.scope,
        begun.target.planned(commit, ops, data).finish matches Some(finish) ==> finish.run_id
            == begun.run@.run_id && finish.session_id == begun.run@.session_id && finish.scope
            == begun.run@.scope,
{
}

} // verus!
