//! What waits is committed as it came; which runs go on is known.

use vstd::prelude::*;

use crate::bridge::appended;
use crate::cancel::CancelView;
use crate::checkpoint::{last_saved, saved_last, CheckpointRecordView};
use crate::error::{ErrorView, MachineError};
use crate::flow::StartRunResult;
use crate::ids::WorkerId;
use crate::life_view::{lets_through, stands_at, AppendEventResult};
use crate::op::{unrecorded, EffectUpdateView, EntryWriteView, ItemWriteView, Vis};
use crate::payload::{Event, Payload};
use crate::pending::{
    dropped, first_waiting, live_commit, live_refusal, run_refusal, saved_behind, taken_from,
    waiting, PendingOpsView,
};
use crate::registry::{handle_of, has_numbers, resolved, ActiveView};
use crate::rows::reap_event_refusal;
use crate::runtime::{answered, expires, still_held, LeaseCfg, Start, StartResult};
use crate::store::{
    FinishRunResult, LeaseClaimView, RunCommitResult, RunCommitResultView, RunEvent, RunLookup,
};
use crate::text::{opt, views};
use crate::tx::TxAnswer;

verus! {

/// An update waits unless another under its key waits; the same update waits once.
pub proof fn updates_wait_once(ops: PendingOpsView, update: EffectUpdateView)
    requires
        ops.distinct(),
    ensures
        ({
            let (next, answer) = ops.push_effect(update);
            &&& answer is Err <==> exists|i: int|
                0 <= i < ops.effects.len() && (#[trigger] ops.effects[i]).key == update.key
                    && ops.effects[i] != update
            &&& answer matches Err(error) ==> error is EffectConflict && next == ops
            &&& answer is Ok ==> next.effects.contains(update) && ops.effects.is_prefix_of(
                next.effects,
            ) && next.effects.len() == if ops.effects.contains(update) {
                ops.effects.len()
            } else {
                ops.effects.len() + 1
            }
            &&& next.items == ops.items && next.entries == ops.entries
            &&& next.distinct()
        }),
{
    let next = ops.push_effect(update).0;
    if ops.effects.contains(update) {
        let j = ops.effects.index_of(update);
        assert(ops.effects[j] == update);
    } else if exists|i: int|
        0 <= i < ops.effects.len() && (#[trigger] ops.effects[i]).key == update.key {
        let i = choose|i: int|
            0 <= i < ops.effects.len() && (#[trigger] ops.effects[i]).key == update.key;
        assert(ops.effects.contains(ops.effects[i]));
    } else {
        assert(next.effects[ops.effects.len() as int] == update);
    }
}

/// An item waits unless another under its key waits; the same item waits once.
pub proof fn items_wait_once(ops: PendingOpsView, item: ItemWriteView)
    requires
        ops.distinct(),
    ensures
        ({
            let (next, answer) = ops.push_item(item);
            &&& answer is Err <==> exists|i: int|
                0 <= i < ops.items.len() && (#[trigger] ops.items[i]).key == item.key
                    && ops.items[i] != item
            &&& answer matches Err(error) ==> error is ItemConflict && next == ops
            &&& answer is Ok ==> next.items.contains(item) && ops.items.is_prefix_of(next.items)
                && next.items.len() == if ops.items.contains(item) {
                ops.items.len()
            } else {
                ops.items.len() + 1
            }
            &&& next.effects == ops.effects && next.entries == ops.entries
            &&& next.distinct()
        }),
{
    let next = ops.push_item(item).0;
    if ops.items.contains(item) {
        let j = ops.items.index_of(item);
        assert(ops.items[j] == item);
    } else if exists|i: int| 0 <= i < ops.items.len() && (#[trigger] ops.items[i]).key == item.key {
        let i = choose|i: int|
            0 <= i < ops.items.len() && (#[trigger] ops.items[i]).key == item.key;
        assert(ops.items.contains(ops.items[i]));
    } else {
        assert(next.items[ops.items.len() as int] == item);
    }
}

/// An entry waits unless another under its key waits; the same entry waits once.
pub proof fn entries_wait_once(ops: PendingOpsView, entry: EntryWriteView)
    requires
        ops.distinct(),
    ensures
        ({
            let (next, answer) = ops.push_entry(entry);
            &&& answer is Err <==> exists|i: int|
                0 <= i < ops.entries.len() && (#[trigger] ops.entries[i]).key == entry.key
                    && ops.entries[i] != entry
            &&& answer matches Err(error) ==> error is EntryConflict && next == ops
            &&& answer is Ok ==> next.entries.contains(entry) && ops.entries.is_prefix_of(
                next.entries,
            ) && next.entries.len() == if ops.entries.contains(entry) {
                ops.entries.len()
            } else {
                ops.entries.len() + 1
            }
            &&& next.effects == ops.effects && next.items == ops.items
            &&& next.distinct()
        }),
{
    let next = ops.push_entry(entry).0;
    if ops.entries.contains(entry) {
        let j = ops.entries.index_of(entry);
        assert(ops.entries[j] == entry);
    } else if exists|i: int|
        0 <= i < ops.entries.len() && (#[trigger] ops.entries[i]).key == entry.key {
        let i = choose|i: int|
            0 <= i < ops.entries.len() && (#[trigger] ops.entries[i]).key == entry.key;
        assert(ops.entries.contains(ops.entries[i]));
    } else {
        assert(next.entries[ops.entries.len() as int] == entry);
    }
}

/// Where nothing waits there is no update, no item and no entry.
pub proof fn nothing_waits_at_first()
    ensures
        PendingOpsView::empty().effects.len() == 0,
        PendingOpsView::empty().items.len() == 0,
        PendingOpsView::empty().entries.len() == 0,
        PendingOpsView::empty().distinct(),
{
}

/// Of the checkpoints of a thread the one that came first is taken first, and taking or dropping
/// those of one thread leaves the others' where they are.
pub proof fn checkpoints_are_taken_as_they_came(
    queues: Map<Seq<char>, Seq<CheckpointRecordView>>,
    thread: Seq<char>,
    other: Seq<char>,
    record: CheckpointRecordView,
)
    ensures
        ({
            let before = waiting(queues, thread);
            let after = saved_behind(queues, thread, record);
            &&& waiting(after, thread).len() == before.len() + 1
            &&& waiting(after, thread).last() == record
            &&& before.is_prefix_of(waiting(after, thread))
            &&& first_waiting(queues, thread) is Some <==> before.len() > 0
            &&& first_waiting(queues, thread) matches Some(write) ==> write.thread_id == thread
                && before == seq![write.record] + waiting(taken_from(queues, thread), thread)
            &&& before.len() == 0 ==> first_waiting(after, thread) is Some && first_waiting(
                after,
                thread,
            )->0.record == record
            &&& waiting(dropped(queues, thread), thread).len() == 0
            &&& other != thread ==> {
                &&& waiting(after, other) == waiting(queues, other)
                &&& waiting(taken_from(queues, thread), other) == waiting(queues, other)
                &&& waiting(dropped(queues, thread), other) == waiting(queues, other)
            }
        }),
{
    let before = waiting(queues, thread);
    if before.len() > 0 {
        assert(waiting(taken_from(queues, thread), thread) =~= before.skip(1));
        assert(before =~= seq![before[0]] + before.skip(1));
    }
}

/// A run that was cancelled is known as cancelled until it leaves, whether it was cancelled before it
/// went on or while it did; cancelling one that goes on finds its control.
pub proof fn cancelled_runs_are_known<C>(
    book: CancelView<C>,
    run: Seq<char>,
    other: Seq<char>,
    control: C,
)
    ensures
        book.cancel(run).was_cancelled(run),
        book.cancel(run).go_on(run, control).was_cancelled(run),
        book.go_on(run, control).cancel(run).was_cancelled(run),
        book.go_on(run, control).control(run) == Some(control),
        book.go_on(run, control).was_cancelled(run) == book.was_cancelled(run),
        book.cancel(run).control(run) == book.control(run),
        !book.leave(run).was_cancelled(run),
        book.leave(run).control(run) is None,
        !CancelView::<C>::empty().was_cancelled(run),
        CancelView::<C>::empty().control(run) is None,
        other != run ==> {
            &&& book.cancel(run).was_cancelled(other) == book.was_cancelled(other)
            &&& book.go_on(run, control).was_cancelled(other) == book.was_cancelled(other)
            &&& book.leave(run).was_cancelled(other) == book.was_cancelled(other)
            &&& book.cancel(run).control(other) == book.control(other)
            &&& book.go_on(run, control).control(other) == book.control(other)
            &&& book.leave(run).control(other) == book.control(other)
        },
{
}

/// An operation is taken from the run that it works for, and from no other.
pub proof fn operations_work_for_their_run(own: Seq<char>, run: Seq<char>)
    ensures
        run_refusal(own, run) is None <==> own == run,
        run_refusal(own, run) matches Some(error) ==> (error matches ErrorView::InvalidRunEvent {
            reason,
        } && reason == "runtime operation target does not match run"@),
{
}

/// An entry that is recorded at once is all that its commit writes, under the lease of its run; the
/// run goes on, and one that does not takes no entry.
pub proof fn live_entries_are_written_alone<E, D>(
    run: Seq<char>,
    session: Seq<char>,
    scope: Seq<char>,
    lease: Seq<char>,
    entry: EntryWriteView,
    result: RunCommitResult<E>,
)
    ensures
        ({
            let commit = live_commit::<E, D>(run, session, scope, lease, entry);
            &&& commit.run_id == run && commit.session_id == session && commit.scope == scope
            &&& commit.lease == Some(lease)
            &&& commit.entries.len() == 1 && commit.entries[0] == entry
            &&& commit.events.len() == 0 && commit.effects.len() == 0 && commit.items.len() == 0
            &&& commit.checkpoint is None && commit.finish is None
        }),
        live_refusal(result) is None <==> result is Recorded,
        result is Skipped ==> live_refusal(result)->0 is RunNotFound,
        result is Finished ==> (live_refusal(result)->0 matches ErrorView::InvalidRunEvent {
            reason,
        } && reason == "live entry commit produced a terminal result"@),
{
}

/// What a commit or an appended event is answered is what became of it: it was written unless it was
/// skipped or refused.
pub proof fn answers_say_what_became_of_it<E>(
    commit: Result<RunCommitResult<E>, MachineError>,
    append: Result<AppendEventResult<E>, MachineError>,
)
    ensures
        crate::tx::answered(commit) is Written <==> (commit matches Ok(result) && !(result
            is Skipped)),
        crate::tx::answered(commit) is Skipped <==> (commit matches Ok(result) && result
            is Skipped),
        commit matches Err(error) ==> crate::tx::answered(commit) == TxAnswer::Refused(error),
        appended(append) is Ok <==> (append matches Ok(result) && result is Recorded),
        append matches Ok(result) ==> (result is Skipped ==> appended(append)->Err_0 is RunNotFound),
        append matches Err(error) ==> appended(append)->Err_0 == error,
{
}

/// A lease is renewed again while it holds, and after a millisecond at least.
pub proof fn leases_are_renewed_while_they_hold(
    cfg: LeaseCfg,
    renewed: Result<bool, MachineError>,
)
    ensures
        still_held(renewed) <==> renewed == Ok::<bool, MachineError>(true),
        cfg.interval() >= 1_000_000 && cfg.interval() >= cfg.renew,
        cfg.interval() == 1_000_000 || cfg.interval() == cfg.renew,
{
}

/// What a client says of a run is started: each part of it, and nothing in its place.
pub proof fn runs_are_started_as_asked(
    start: Start,
    run: Seq<char>,
    session: Seq<char>,
    thread: Seq<char>,
    input: Option<Seq<char>>,
    lease: Option<LeaseClaimView>,
)
    ensures
        ({
            let begun = start.run(run, session, thread, input, lease);
            &&& begun.run_id == run && begun.session_id == session && begun.thread_id == thread
            &&& begun.scope == start.scope@ && begun.metadata == start.meta@
            &&& begun.agent_kind == start.kind@ && begun.model == opt(start.model)
            &&& begun.client_run_key == opt(start.key)
            &&& begun.parent_run_id == opt(start.parent) && begun.retry_of_run_id == opt(
                start.retry_of,
            )
            &&& begun.entries == views(start.entries@)
            &&& begun.input == input && begun.lease == lease
        }),
        start.token matches Some(token) ==> start.handle_token(run) == token@,
        start.token is None ==> start.handle_token(run) == run,
{
}

/// A client is answered that the run was not started just where it was not, and why.
pub proof fn clients_are_answered<T>(result: StartRunResult)
    ensures
        answered::<T>(result) is None <==> result is Started,
        result matches StartRunResult::Existing(run) ==> answered::<T>(result) == Some(
            StartResult::<T>::Existing(run),
        ),
        result matches StartRunResult::NotRegistered(why) ==> answered::<T>(result) == Some(
            StartResult::<T>::Rejected(why),
        ),
{
}

/// The last checkpoint of a thread that was saved is the one that is loaded.
pub proof fn the_last_checkpoint_is_loaded(
    threads: Map<Seq<char>, CheckpointRecordView>,
    thread: Seq<char>,
    record: CheckpointRecordView,
    other: Seq<char>,
)
    ensures
        last_saved(saved_last(threads, thread, record), thread) == Some(record),
        other != thread ==> last_saved(saved_last(threads, thread, record), other) == last_saved(
            threads,
            other,
        ),
        last_saved(Map::empty(), thread) is None,
        last_saved(threads, thread) is Some <==> threads.contains_key(thread),
{
}

/// The event with which a run ends whose lease has run out is one that ends it, under the number
/// that it was built for, and says so.
pub proof fn expired_runs_end_with_their_own_event(event: Event, run: RunLookup, seq: int)
    requires
        expires(event, run, seq),
    ensures
        reap_event_refusal(run@, seq, event) is None,
        event.payload matches Payload::Fail { error } && error@ == "lease expired"@,
{
}

/// An update says of an effect what came of it: a result, a failure with its code and message, or
/// nothing that is known.
pub proof fn updates_say_what_came_of_it(
    key: Seq<char>,
    result: Seq<char>,
    code: Seq<char>,
    message: Seq<char>,
)
    ensures
        ({
            let done = EffectUpdateView::done(key, result);
            &&& done.key == key && done.status is Done && done.result == Some(result)
            &&& done.error_code is None && done.error_message is None
        }),
        ({
            let failed = EffectUpdateView::failed(key, code, message);
            &&& failed.key == key && failed.status is Failed && failed.result is None
            &&& failed.error_code == Some(code) && failed.error_message == Some(message)
        }),
        ({
            let unknown = EffectUpdateView::unknown(key, message);
            &&& unknown.key == key && unknown.status is Unknown && unknown.result is None
            &&& unknown.error_code is None && unknown.error_message == Some(message)
        }),
{
}

/// The handle of an active run is found by who shows its token, and by no other; the run itself
/// finds it without.
pub proof fn handles_are_found_by_token<E>(
    runs: Map<Seq<char>, ActiveView<E>>,
    run: Seq<char>,
    token: Seq<char>,
)
    ensures
        resolved(runs, run, token) is Some <==> runs.contains_key(run) && runs[run].handle.token
            == token,
        resolved(runs, run, token) is Some ==> resolved(runs, run, token) == Some(runs[run].handle),
        handle_of(runs, run) is Some <==> runs.contains_key(run),
        handle_of(runs, run) matches Some(handle) ==> handle == runs[run].handle && resolved(
            runs,
            run,
            handle.token,
        ) == Some(handle),
{
}

/// A tail lets an event through just where its place was not reached, and stands at the last place
/// that was.
pub proof fn tails_go_forward<E: RunEvent>(place: int, event: E)
    ensures
        lets_through(place, event) <==> event.place() > place,
        stands_at(place, event) >= place && stands_at(place, event) >= event.place(),
        stands_at(place, event) == place || stands_at(place, event) == event.place(),
{
}

/// A lease of a runtime holds for thirty seconds where nothing else is said, and is renewed thrice in
/// that time.
pub proof fn standard_leases_are_renewed_in_time(owner: WorkerId)
    ensures
        LeaseCfg::standard(owner).owner == owner,
        LeaseCfg::standard(owner).ttl == 30 * 1000 * 1_000_000,
        LeaseCfg::standard(owner).interval() * 3 == LeaseCfg::standard(owner).ttl,
{
}

/// An operation that nothing records is refused as unavailable.
pub proof fn unrecorded_operations_are_unavailable()
    ensures
        unrecorded() is RuntimeOpUnavailable,
{
}

/// An entry to record is of what it was made of.
pub proof fn entries_are_made_of_their_parts(
    key: Seq<char>,
    kind: Seq<char>,
    vis: Vis,
    body: Seq<char>,
)
    ensures
        ({
            let entry = EntryWriteView::of(key, kind, vis, body);
            entry.key == key && entry.kind == kind && entry.vis == vis && entry.body == body
        }),
{
}

/// An active run has event numbers left while its last is not beyond the numbers of a machine; one
/// that is not active needs none.
pub proof fn numbers_run_out_at_the_end<E>(
    runs: Map<Seq<char>, ActiveView<E>>,
    run: Seq<char>,
    count: nat,
    fewer: nat,
)
    requires
        fewer <= count,
    ensures
        !runs.contains_key(run) ==> has_numbers(runs, run, count),
        runs.contains_key(run) && runs[run].seq >= 0 ==> (has_numbers(runs, run, count)
            <==> runs[run].seq + count <= i64::MAX),
        has_numbers(runs, run, count) ==> has_numbers(runs, run, fewer),
{
}

/// What became of a commit is told with its events, and the end of a run with the event that ended
/// it, now or before.
pub proof fn outcomes_tell_their_events<E>(
    events: Seq<E>,
    end: FinishRunResult<E>,
    event: E,
    result: RunCommitResult<E>,
)
    ensures
        result.outcome() is Some <==> result is Finished,
        result is Finished ==> result.outcome() == Some(result->result),
        RunCommitResultView::Recorded(events).events() == events,
        (RunCommitResultView::Finished { events, result: end }).events() == events,
        RunCommitResultView::<E>::Skipped.events().len() == 0,
        FinishRunResult::Finished(event).event() == event,
        FinishRunResult::AlreadyFinished(event).event() == event,
{
}

} // verus!
