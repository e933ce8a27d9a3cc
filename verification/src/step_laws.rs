//! What is saved, told and recorded of the steps of a turn.

use vstd::prelude::*;

use crate::checkpoint::{CheckpointRecord, CheckpointRecordView};
use crate::error::{ErrorView, MachineError};
use crate::json::{quoted_json, Json};
use crate::json_laws::{arrays_hold_their_items, is_array, plain_texts_are_quoted_as_they_are};
use crate::machine::{ResumeAction, Transition};
use crate::payload::{recorded, EventRecord, JsonStreamEvent, Payload};
use crate::run::{
    closing, learned, RunCommand, RunOutput, RunStreamEvent, RuntimeLimits, StepResult,
    StreamConfig, StreamTerminal,
};
use crate::runner::{
    led_to, restored, resumed_at, saved, traced, Moved, RestoreView, ResumeStep, TurnActionView,
    TurnEvent, TurnPhase, TurnView,
};
use crate::text::views;

verus! {

/// Wherever a step led, the state after it is what is saved, by the run that took the step.
pub proof fn states_are_saved_as_they_are(
    led: Transition<Seq<char>, (Seq<char>, Seq<char>), ()>,
    state: Seq<char>,
    run: Seq<char>,
)
    ensures
        saved(led, state, run).state == state,
        saved(led, state, run).run_id == Some(run),
        saved(led, state, run).version == 1,
{
}

/// What is saved of a step says where it led: the next step, or the step that was interrupted and
/// the interrupt, or neither.
pub proof fn records_say_where_a_step_led(
    led: Transition<Json, (Json, Json), ()>,
    state: Json,
    run: Seq<char>,
    record: CheckpointRecord,
)
    requires
        record@ == saved(led_to(led), state@, run),
    ensures
        record.state@ == state@,
        record.run_id matches Some(by) && by@ == run,
        match led {
            Transition::Next(next) => {
                &&& record.next_step matches Some(step) && step@ == next@
                &&& record.interrupted_step is None && record.interrupt is None
            },
            Transition::Interrupt((at, with)) => {
                &&& record.next_step is None
                &&& record.interrupted_step matches Some(step) && step@ == at@
                &&& record.interrupt matches Some(interrupt) && interrupt@ == with@
            },
            Transition::Complete(_) => record.next_step is None && record.interrupted_step is None
                && record.interrupt is None,
        },
{
}

/// A turn that begins from what was saved after a step is handed the state after that step, in each
/// case in which a turn is handed a state at all: whatever it is asked to do, and whichever run
/// takes it up.
pub proof fn turns_take_up_the_state_that_was_saved(
    led: Transition<Seq<char>, (Seq<char>, Seq<char>), ()>,
    state: Seq<char>,
    run: Seq<char>,
    command: RunCommand,
    by: Seq<char>,
    threads: Map<Seq<char>, CheckpointRecordView>,
    thread: Seq<char>,
)
    ensures
        ({
            let record = threads.insert(thread, saved(led, state, run))[thread];
            let begun = restored(command, by, Some(record));
            &&& record.state == state
            &&& !(begun matches Ok(RestoreView::Fresh))
            &&& begun is Err <==> command is Resume && !(led is Interrupt)
            &&& begun matches Err(error) ==> error is NoPendingInterrupt
            &&& begun matches Ok(RestoreView::Resume { interrupt, interrupted_step }) ==> led
                == Transition::<Seq<char>, (Seq<char>, Seq<char>), ()>::Interrupt(
                (interrupted_step->0, interrupt),
            ) && interrupted_step is Some && command is Resume
            &&& begun matches Ok(RestoreView::Restart) ==> led is Interrupt && command is Start
            &&& begun matches Ok(RestoreView::Continue { step }) ==> !(led is Interrupt)
                && command is Start && (step is Some <==> led is Next && by == run) && (
            step matches Some(next) ==> led == Transition::<
                Seq<char>,
                (Seq<char>, Seq<char>),
                (),
            >::Next(next))
        }),
{
}

/// Whatever was saved of a thread, a turn that is to resume it goes on from the interrupt, and is
/// refused where there is none; one that is to start leaves an interrupt behind, and goes on with
/// the next step where its own run saved one.
pub proof fn turns_begin_by_what_was_saved(record: CheckpointRecordView, by: Seq<char>)
    ensures
        record.interrupt matches Some(with) ==> {
            &&& restored(RunCommand::Resume, by, Some(record)) matches Ok(RestoreView::Resume {
                interrupt,
                interrupted_step,
            }) && interrupt == with && interrupted_step == record.interrupted_step
            &&& restored(RunCommand::Start, by, Some(record)) matches Ok(begun) && begun is Restart
        },
        record.interrupt is None ==> {
            &&& restored(RunCommand::Resume, by, Some(record)) matches Err(error) && error
                is NoPendingInterrupt
            &&& restored(RunCommand::Start, by, Some(record)) matches Ok(RestoreView::Continue {
                step,
            }) && (step is Some <==> record.next_step is Some && record.run_id == Some(by)) && (step
                is Some ==> step == record.next_step)
        },
{
}

/// A thread of which nothing was saved begins anew, and cannot be resumed.
pub proof fn new_threads_begin_anew(run: Seq<char>)
    ensures
        restored(RunCommand::Start, run, None) matches Ok(begun) && begun is Fresh,
        restored(RunCommand::Resume, run, None) matches Err(error) && error is NoPendingInterrupt,
{
}

/// After an interrupt a machine goes on with the step that it names, or with the one that was
/// interrupted, where that was saved.
pub proof fn resumed_turns_go_on_with_a_step<Step>(step: Step, interrupted: Option<Json>)
    ensures
        resumed_at(ResumeAction::JumpTo(step), interrupted) matches Ok(ResumeStep::Named(named))
            && named == step,
        interrupted is None <==> resumed_at(ResumeAction::<Step>::ReenterInterruptedStep, interrupted)
            is Err,
        interrupted matches Some(at) ==> (resumed_at(
            ResumeAction::<Step>::ReenterInterruptedStep,
            interrupted,
        ) matches Ok(ResumeStep::Saved(step)) && step == at),
        resumed_at(ResumeAction::<Step>::ReenterInterruptedStep, None) matches Err(error) && error
            is NoInterruptedStep,
{
}

/// A turn keeps its limit, its number of steps grows by one with each step it takes up and not
/// otherwise, and its trace grows by one with each step that is saved and not otherwise.
pub proof fn turns_count_their_steps(turn: TurnView, event: TurnEvent)
    requires
        turn.sound(),
        turn.expects(event),
    ensures
        ({
            let (next, action) = turn.step(event);
            &&& next.max_steps == turn.max_steps && next.streaming == turn.streaming
            &&& next.steps == if event is Go && turn.steps < turn.max_steps {
                turn.steps + 1
            } else {
                turn.steps
            }
            &&& match event {
                TurnEvent::Saved(Ok(_), step) => next.trace.len() == turn.trace.len() + 1
                    && turn.trace.is_prefix_of(next.trace) && next.trace.last() == traced(
                    step@,
                    turn.phase->Saving_0,
                ),
                _ => next.trace == turn.trace,
            }
        }),
{
}

/// A turn that may take another step takes it, and is told where it led; one that may not fails.
pub proof fn turns_go_on_as_they_may(turn: TurnView, event: TurnEvent)
    requires
        turn.sound(),
        turn.max_steps <= u32::MAX,
        turn.expects(event),
    ensures
        ({
            let (next, action) = turn.step(event);
            match event {
                TurnEvent::Go => {
                    &&& turn.steps == turn.max_steps ==> next.phase is Over && (
                    action matches TurnActionView::Fail(ErrorView::MaxStepsExceeded { max }) && max
                        == turn.max_steps)
                    &&& turn.steps < turn.max_steps && turn.streaming ==> next.phase is Announcing
                        && action == TurnActionView::Announce(turn.steps + 1)
                    &&& turn.steps < turn.max_steps && !turn.streaming ==> next.phase is Moving
                        && action is Move
                },
                TurnEvent::Told(told) => {
                    &&& !told ==> next.phase is Over && action is Closed
                    &&& told && turn.phase is Announcing ==> next.phase is Moving && action is Move
                    &&& told && turn.phase == TurnPhase::Reporting(StepResult::Next) ==> next.phase
                        is Ready && action is Advance
                    &&& told && (turn.phase matches TurnPhase::Reporting(result) && !(result
                        is Next)) ==> next.phase is Over && action == TurnActionView::End(
                        turn.phase->Reporting_0,
                    )
                },
                TurnEvent::Moved(Moved::To(result)) => next.phase == TurnPhase::Saving(result)
                    && action == TurnActionView::Save(result),
                TurnEvent::Moved(Moved::Cancelled) => next.phase is Over && if turn.streaming {
                    action is Cancelled
                } else {
                    action matches TurnActionView::Fail(error) && error is Cancelled
                },
                TurnEvent::Moved(Moved::Closed) => next.phase is Over && action is Closed,
                TurnEvent::Moved(Moved::Failed(error)) => next.phase is Over && action
                    == TurnActionView::Fail(error@),
                TurnEvent::Saved(Err(error), _) => next.phase is Over && action
                    == TurnActionView::Fail(error@),
                TurnEvent::Saved(Ok(_), _) => {
                    let result = turn.phase->Saving_0;
                    &&& turn.streaming ==> next.phase == TurnPhase::Reporting(result) && action
                        == TurnActionView::Report(result)
                    &&& !turn.streaming && result is Next ==> next.phase is Ready && action
                        is Advance
                    &&& !turn.streaming && !(result is Next) ==> next.phase is Over && action
                        == TurnActionView::End(result)
                },
            }
        }),
{
}

/// The trace of a turn names each step and how it ended.
pub proof fn traces_name_the_step(step: Seq<char>, result: StepResult)
    ensures
        traced(step, result) == "{\"result\":"@ + seq!['"'] + (match result {
            StepResult::Next => "next"@,
            StepResult::Interrupt => "interrupt"@,
            StepResult::Complete => "complete"@,
        }) + seq!['"'] + ",\"step\":"@ + quoted_json(step) + "}"@,
{
    reveal_strlit("{");
    reveal_strlit(":");
    reveal_strlit(",");
    reveal_strlit("}");
    reveal_strlit("result");
    reveal_strlit("step");
    reveal_strlit("next");
    reveal_strlit("interrupt");
    reveal_strlit("complete");
    reveal_strlit("{\"result\":");
    reveal_strlit(",\"step\":");
    plain_texts_are_quoted_as_they_are("result"@);
    plain_texts_are_quoted_as_they_are("step"@);
    plain_texts_are_quoted_as_they_are(result.text());
    assert("{"@ + quoted_json("result"@) + ":"@ =~= "{\"result\":"@);
    assert(","@ + quoted_json("step"@) + ":"@ =~= ",\"step\":"@);
    assert(traced(step, result) =~= ("{"@ + quoted_json("result"@) + ":"@) + quoted_json(
        result.text(),
    ) + (","@ + quoted_json("step"@) + ":"@) + quoted_json(step) + "}"@);
    assert(traced(step, result) =~= "{\"result\":"@ + seq!['"'] + result.text() + seq!['"']
        + ",\"step\":"@ + quoted_json(step) + "}"@);
}

/// Each thing that a turn tells can be told from how it is recorded, with all that it says.
pub proof fn records_tell_what_was_told(event: JsonStreamEvent, record: EventRecord)
    requires
        record@ == recorded(event),
    ensures
        match event {
            RunStreamEvent::Started { thread_id, .. } => {
                record matches EventRecord::Append(Payload::Start { thread_id: thread })
                    && thread@ == thread_id@
            },
            RunStreamEvent::Heartbeat { thread_id, .. } => {
                record matches EventRecord::Append(Payload::Beat { thread_id: thread }) && thread@
                    == thread_id@
            },
            RunStreamEvent::StepStarted { step, step_count } => {
                record matches EventRecord::Append(Payload::StepStart { step: begun, n })
                    && begun@ == step@ && n == step_count
            },
            RunStreamEvent::StepFinished { step, result } => {
                record matches EventRecord::Append(Payload::StepDone { step: done, result: how })
                    && done@ == step@ && how == result
            },
            RunStreamEvent::Signal { signal } => {
                record matches EventRecord::Append(Payload::Signal { signal: said }) && said@
                    == signal@
            },
            RunStreamEvent::Completed { trace, output, snapshot } => {
                &&& record matches EventRecord::Finish {
                    payload: Payload::Done { trace: steps, output: result, snapshot: state },
                    ending,
                } && result@ == output@ && state@ == snapshot@ && is_array(steps@, views(trace@))
                    && ending.status is Completed && ending.reason@ == "completed"@ && ending.code
                    is None
            },
            RunStreamEvent::Interrupted { interrupt, snapshot } => {
                &&& record matches EventRecord::Finish {
                    payload: Payload::Interrupt { interrupt: with, snapshot: state },
                    ending,
                } && with@ == interrupt@ && state@ == snapshot@ && ending.status is Interrupted
                    && ending.reason@ == "interrupted"@ && ending.code is None
            },
            RunStreamEvent::Failed { error } => {
                &&& record matches EventRecord::Finish { payload: Payload::Fail { error: why }, ending }
                    && why@ == error@.message() && ending.status is Error && ending.reason@
                    == "failed"@ && (ending.code matches Some(code) && code@ == error@.code())
            },
            RunStreamEvent::Cancelled => {
                &&& record matches EventRecord::Finish { payload: Payload::Cancel, ending }
                    && ending.status is Cancelled && ending.reason@ == "cancelled"@ && ending.code
                    is None
            },
        },
{
    if let RunStreamEvent::Completed { trace, .. } = event {
        arrays_hold_their_items(views(trace@));
    }
}

/// What one learns who waits for the end of a turn is how it ended: the last event that is told
/// loses nothing of it.
pub proof fn the_end_is_learned_as_it_was<Step, Signal, Output, Interrupt>(
    result: Result<StreamTerminal<Output, Interrupt>, MachineError>,
)
    ensures
        ({
            let told = closing::<Step, Signal, Output, Interrupt>(result);
            let end = learned(told);
            &&& told is None <==> (result matches Ok(terminal) && terminal is ReceiverClosed)
            &&& end is Some
            &&& told matches Some(event) ==> {
                &&& event is Completed <==> (result matches Ok(terminal) && terminal is Completed)
                &&& event is Interrupted <==> (result matches Ok(terminal) && terminal
                    is Interrupted)
                &&& event is Failed <==> (result matches Err(error) && !(error is Cancelled))
                &&& event is Completed || event is Interrupted || event is Failed || event
                    is Cancelled
            }
            &&& match result {
                Ok(StreamTerminal::Completed { trace, output, snapshot }) => {
                    &&& end->0 matches Ok(RunOutput::Completed {
                        trace: steps,
                        output: out,
                        snapshot: state,
                    }) && steps == trace && out == output && state == snapshot
                },
                Ok(StreamTerminal::Interrupted { interrupt, snapshot }) => {
                    &&& end->0 matches Ok(RunOutput::Interrupted { interrupt: with, snapshot: state })
                        && with == interrupt && state == snapshot
                },
                Ok(StreamTerminal::Cancelled) => end->0 matches Err(error) && error is Cancelled,
                Ok(StreamTerminal::ReceiverClosed) => end->0 matches Err(error) && error
                    is StreamClosed,
                Err(why) => end->0 matches Err(error) && error == why,
            }
        }),
{
}

/// Nothing is learned of the end of a turn from what it tells before, and what ends a turn also
/// ends its run.
pub proof fn only_the_end_is_learned(event: JsonStreamEvent)
    ensures
        learned(Some(event)) is None <==> event is Started || event is Heartbeat || event
            is StepStarted || event is StepFinished || event is Signal,
        learned(Some(event)) is None <==> recorded(event) is Append,
{
}

/// Room for one event at least, and a millisecond at least between signs of life; more where more
/// is asked for.
pub proof fn streams_have_room(config: StreamConfig)
    ensures
        config.capacity() >= 1 && config.capacity() >= config.channel_capacity,
        config.channel_capacity >= 1 ==> config.capacity() == config.channel_capacity,
        config.channel_capacity == 0 ==> config.capacity() == 1,
        config.interval() >= 1_000_000 && config.interval() >= config.heartbeat_interval,
        config.interval() == 1_000_000 || config.interval() == config.heartbeat_interval,
{
}

/// Where nothing else is said, a sign of life is sent every fifteen seconds and thirty-two events may
/// wait, and a turn is limited in its steps alone.
pub proof fn standards_are_kept(max_steps: u32)
    ensures
        StreamConfig::standard().interval() == 15 * 1000 * 1_000_000,
        StreamConfig::standard().capacity() == 32,
        ({
            let limits = RuntimeLimits::of_steps(max_steps);
            &&& limits.max_steps == max_steps && limits.allow_clarification
            &&& limits.step_timeout is None && limits.run_timeout is None
        }),
{
}

/// A turn begins with no step taken and nothing traced, and takes its first step where it may take
/// one at all.
pub proof fn turns_begin_with_their_first_step(max_steps: nat, streaming: bool)
    requires
        max_steps > 0,
    ensures
        ({
            let turn = TurnView::begun(max_steps, streaming);
            &&& turn.sound()
            &&& turn.steps == 0 && turn.trace.len() == 0 && turn.max_steps == max_steps
            &&& turn.expects(TurnEvent::Go)
            &&& streaming ==> turn.step(TurnEvent::Go).1 == TurnActionView::Announce(1)
            &&& !streaming ==> turn.step(TurnEvent::Go).1 is Move
        }),
{
}

/// A turn waits for one thing at a time: to go on, to hear that something was told, where a step led,
/// or whether the state was saved.
pub proof fn turns_wait_for_one_thing(
    turn: TurnView,
    told: bool,
    moved: Moved,
    saved: Result<(), MachineError>,
    step: String,
)
    ensures
        turn.expects(TurnEvent::Go) <==> turn.phase is Ready,
        turn.expects(TurnEvent::Told(told)) <==> turn.phase is Announcing || turn.phase
            is Reporting,
        turn.expects(TurnEvent::Moved(moved)) <==> turn.phase is Moving,
        turn.expects(TurnEvent::Saved(saved, step)) <==> turn.phase is Saving,
{
}

} // verus!
