//! What is read from the rows of a database and decided on them is what a store in memory holds and
//! decides.

use vstd::prelude::*;

use crate::error::ErrorView;
use crate::fit::{
    commit_fits, commits_hold_together, effects_fit, entries_are_taken_where_they_fit, entries_fit,
    goes_on, holds_together, items_are_taken_where_they_fit, items_fit, may_write,
};
use crate::model::{
    commit_refusal, ends, first_failure, lemma_first_failure, with_effects, with_entries,
    with_items, Clock, Keyed, RunView,
};
use crate::op::{Effect, EffectStatus, EffectUpdateView, EffectView, Vis};
use crate::rows::{
    after_refusal, checkpoint_of, effect_decision, ended_answer, event_answered, event_as_commit,
    finish_answered, finish_as_commit, follow_refusal, gate, millis, op_row_refusal, read_as,
    read_optional, reap_event_refusal, reaped_lookup, reservation, row_effect_refusal,
    row_effects_refusal, row_thread_refusal, rows_fetched, rows_listed, rows_refusal, runs_out,
    sql_commit_refusal, sqlite_commit_refusal, unknown_effect_status, unknown_status, unknown_vis,
    written_answer, CheckpointRow, CommitRow, CommitRows, EffectGate, EffectRow, EntryRow, ItemRow,
    LookupRow, ThreadRows,
};
use crate::store::{
    CheckpointWriteView, FinishRunResult, Nanos, RunCommitResult, RunCommitResultView,
    RunCommitView, RunEvent, RunFinishRecordView, RunStatus,
};
use crate::store_laws::{lemma_all_pass, lemma_no_failure};
use crate::store_view::StoreView;
use crate::text::{opt, views};
use crate::tx_laws::about_event;

verus! {

/// Whether a row tells who may write a run.
pub open spec fn row_of<E, D>(row: CommitRow, run: RunView<E, D>, now: nat) -> bool {
    &&& row.session_id@ == run.start.session_id
    &&& row.thread_id@ == run.start.thread_id
    &&& row.status == run.status
    &&& opt(row.lease_id) == match run.lease {
        Some(held) => Some(held.id),
        None => None,
    }
    &&& row.lease_expired == (run.lease is Some && run.lease->0.until <= now)
}

/// What a row tells of a run is what stands in it.
pub proof fn lookups_are_read_as_they_stand(row: LookupRow, status: RunStatus)
    ensures
        ({
            let lookup = row.told(status);
            &&& lookup.run_id == row.run_id@ && lookup.session_id == row.session_id@
                && lookup.thread_id == row.thread_id@
            &&& lookup.status == status && lookup.cancel_requested == row.cancel_requested
            &&& lookup.finish_reason == opt(row.finish_reason) && lookup.owner == opt(row.owner)
        }),
{
}

/// What a row holds of an effect is what stands in it.
pub proof fn effects_are_read_as_they_stand(
    row: EffectRow,
    run: Seq<char>,
    status: EffectStatus,
    request: Seq<char>,
    result: Option<Seq<char>>,
)
    ensures
        ({
            let effect = row.holds(run, status, request, result);
            &&& effect.run_id == run && effect.key == row.key@ && effect.kind == row.kind@
            &&& effect.status == status && effect.request == request && effect.result == result
            &&& effect.error_code == opt(row.error_code) && effect.error_message == opt(
                row.error_message,
            )
            &&& effect.created_at == row.created_at && effect.updated_at == row.updated_at
        }),
{
}

/// What rows hold of items and entries is what stands in them.
pub proof fn items_and_entries_are_read_as_they_stand(
    item: ItemRow,
    entry: EntryRow,
    run: Seq<char>,
    session: Seq<char>,
    vis: Vis,
    body: Seq<char>,
)
    ensures
        ({
            let read = item.holds(run, body);
            &&& read.run_id == run && read.key == item.key@ && read.kind == item.kind@
            &&& read.body == body
            &&& read.created_at == item.created_at && read.updated_at == item.updated_at
        }),
        ({
            let read = entry.holds(session, vis, body);
            &&& read.run_id == entry.run_id@ && read.session_id == session && read.thread_id
                == entry.thread_id@
            &&& read.seq == entry.seq && read.key == entry.key@ && read.kind == entry.kind@
            &&& read.vis == vis && read.body == body
            &&& read.created_at == entry.created_at && read.updated_at == entry.updated_at
        }),
{
}

/// A checkpoint is read just where each of its texts is, and holds what they hold; else the first
/// that cannot be read is what is told.
pub proof fn checkpoints_are_read_whole(row: CheckpointRow)
    ensures
        checkpoint_of(row) is Ok <==> read_as(row.state@) is Ok && read_optional(opt(row.next_step))
            is Ok && read_optional(opt(row.interrupted_step)) is Ok && read_optional(
            opt(row.interrupt),
        ) is Ok,
        checkpoint_of(row) matches Ok(record) ==> {
            &&& read_as(row.state@) == Ok::<Seq<char>, ErrorView>(record.state)
            &&& read_optional(opt(row.next_step)) == Ok::<Option<Seq<char>>, ErrorView>(
                record.next_step,
            )
            &&& read_optional(opt(row.interrupted_step)) == Ok::<Option<Seq<char>>, ErrorView>(
                record.interrupted_step,
            )
            &&& read_optional(opt(row.interrupt)) == Ok::<Option<Seq<char>>, ErrorView>(
                record.interrupt,
            )
            &&& record.version == row.version && record.run_id == opt(row.run_id)
        },
        read_as(row.state@) matches Err(error) ==> checkpoint_of(row)->Err_0 == error,
        read_as(row.state@) is Ok ==> (read_optional(opt(row.next_step)) matches Err(error)
            ==> checkpoint_of(row)->Err_0 == error),
        read_as(row.state@) is Ok && read_optional(opt(row.next_step)) is Ok ==> (read_optional(
            opt(row.interrupted_step),
        ) matches Err(error) ==> checkpoint_of(row)->Err_0 == error),
        read_as(row.state@) is Ok && read_optional(opt(row.next_step)) is Ok && read_optional(
            opt(row.interrupted_step),
        ) is Ok ==> (read_optional(opt(row.interrupt)) matches Err(error) ==> checkpoint_of(
            row,
        )->Err_0 == error),
{
}

/// The first update that cannot be made to stored effects is what updates are refused for.
pub proof fn unfit_row_updates_are_named(
    effects: Keyed<EffectView>,
    run: Seq<char>,
    updates: Seq<EffectUpdateView>,
    k: int,
)
    requires
        0 <= k < updates.len(),
        row_effects_refusal(effects, run, updates.take(k)) is None,
    ensures
        ({
            let refusal = row_effects_refusal(effects, run, updates);
            let again = exists|j: int| 0 <= j < k && (#[trigger] updates[j]).key == updates[k].key;
            let outcome = updates[k].status is Done || updates[k].status is Failed
                || updates[k].status is Unknown;
            let there = effects.contains_key((run, updates[k].key));
            let stored = effects[(run, updates[k].key)];
            let undone = stored.status is Done && (!(updates[k].status is Done)
                || updates[k].result != stored.result);
            &&& again ==> refusal is Some && refusal->0 is EffectConflict
            &&& !again && !outcome ==> refusal is Some && about_event(
                refusal->0,
                "effect commit requires a terminal or unknown status"@,
            )
            &&& !again && outcome && !there ==> refusal is Some && refusal->0 is EffectNotFound
            &&& !again && outcome && there && undone ==> refusal is Some && refusal->0
                is EffectConflict
            &&& !again && outcome && there && !undone ==> row_effects_refusal(
                effects,
                run,
                updates.take(k + 1),
            ) is None
        }),
{
    let some = updates.take(k);
    let more = updates.take(k + 1);
    let check = |i: int| row_effect_refusal(effects, run, updates, i);
    let some_check = |i: int| row_effect_refusal(effects, run, some, i);
    let more_check = |i: int| row_effect_refusal(effects, run, more, i);
    lemma_no_failure(some.len(), some_check);
    assert forall|i: int| 0 <= i < k implies (#[trigger] check(i)) is None by {
        assert(some_check(i) is None);
        assert(some[i] == updates[i]);
        if exists|j: int| 0 <= j < i && (#[trigger] updates[j]).key == updates[i].key {
            let j = choose|j: int| 0 <= j < i && (#[trigger] updates[j]).key == updates[i].key;
            assert(some[j].key == some[i].key);
        }
    }
    lemma_all_pass(k as nat, check);
    if check(k) is Some {
        lemma_first_failure(updates.len(), check, k as nat);
    } else {
        assert forall|i: int| 0 <= i < more.len() implies (#[trigger] more_check(i)) is None by {
            assert(check(i) is None);
            assert(more[i] == updates[i]);
            if exists|j: int| 0 <= j < i && (#[trigger] more[j]).key == more[i].key {
                let j = choose|j: int| 0 <= j < i && (#[trigger] more[j]).key == more[i].key;
                assert(updates[j].key == updates[i].key);
            }
        }
        lemma_all_pass(more.len(), more_check);
    }
}

/// Events follow a stored place just where each comes after the one before, and the first after the
/// place.
pub proof fn events_follow_the_stored_place<E: RunEvent>(last: int, events: Seq<E>)
    ensures
        after_refusal(last, events) is None <==> forall|i: int|
            0 <= i < events.len() ==> (#[trigger] events[i]).place() > (if i == 0 {
                last
            } else {
                events[i - 1].place()
            }),
        after_refusal(last, events) matches Some(error) ==> about_event(
            error,
            "event seq must increase monotonically"@,
        ),
{
    let check = |i: int| follow_refusal(last, events, i);
    if after_refusal(last, events) is None {
        lemma_no_failure(events.len(), check);
        assert forall|i: int| 0 <= i < events.len() implies (#[trigger] events[i]).place() > (if i
            == 0 {
            last
        } else {
            events[i - 1].place()
        }) by {
            assert(check(i) is None);
        }
    }
    if forall|i: int|
        0 <= i < events.len() ==> (#[trigger] events[i]).place() > (if i == 0 {
            last
        } else {
            events[i - 1].place()
        }) {
        assert forall|i: int| 0 <= i < events.len() implies (#[trigger] check(i)) is None by {
            assert(events[i].place() > (if i == 0 {
                last
            } else {
                events[i - 1].place()
            }));
        }
        lemma_all_pass(events.len(), check);
    }
    lemma_follow_kind(last, events, events.len());
}

proof fn lemma_follow_kind<E: RunEvent>(last: int, events: Seq<E>, n: nat)
    ensures
        first_failure(n, |i: int| follow_refusal(last, events, i)) matches Some(error)
            ==> about_event(error, "event seq must increase monotonically"@),
    decreases n,
{
    if n > 0 {
        lemma_follow_kind(last, events, (n - 1) as nat);
    }
}

/// A commit that does not fit what is stored is refused for the first of these that does not: the
/// thread, the effects, the items, the entries, the events.
pub proof fn unfit_row_commits_say_why<E: RunEvent, D>(
    row: CommitRow,
    rows: CommitRows,
    commit: RunCommitView<E, D>,
)
    ensures
        ({
            let refusal = rows_refusal(row, rows, commit);
            let thread = commit.checkpoint is None || row_thread_refusal(
                row,
                rows.thread,
                commit.checkpoint->0,
                commit.lease,
            ) is None;
            let effects = row_effects_refusal(rows.effects@, commit.run_id, commit.effects) is None;
            let items = items_fit(rows.items@, commit.run_id, commit.items);
            let entries = entries_fit(
                views(rows.entries@),
                commit.scope,
                commit.session_id,
                commit.entries,
            );
            let events = after_refusal(rows.last_seq as int, commit.events) is None;
            &&& refusal is None <==> thread && effects && items && entries && events
            &&& !thread ==> refusal == row_thread_refusal(
                row,
                rows.thread,
                commit.checkpoint->0,
                commit.lease,
            )
            &&& thread && !effects ==> refusal == row_effects_refusal(
                rows.effects@,
                commit.run_id,
                commit.effects,
            )
            &&& thread && effects && !items ==> refusal->0 is ItemConflict
            &&& thread && effects && items && !entries ==> refusal->0 is EntryConflict
            &&& thread && effects && items && entries && !events ==> about_event(
                refusal->0,
                "event seq must increase monotonically"@,
            )
        }),
{
    items_are_taken_where_they_fit(rows.items@, commit.run_id, commit.items);
    entries_are_taken_where_they_fit(
        views(rows.entries@),
        commit.scope,
        commit.session_id,
        commit.entries,
    );
    events_follow_the_stored_place(rows.last_seq as int, commit.events);
}

/// A text that is there is read as JSON, and one that is not is left out.
pub proof fn optional_texts_are_read(text: Seq<char>)
    ensures
        read_optional(None) == Ok::<Option<Seq<char>>, ErrorView>(None),
        read_as(text) matches Ok(value) ==> read_optional(Some(text)) == Ok::<
            Option<Seq<char>>,
            ErrorView,
        >(Some(value)),
        read_as(text) matches Err(error) ==> read_optional(Some(text)) == Err::<
            Option<Seq<char>>,
            ErrorView,
        >(error) && error is Deserialization,
{
}

/// A commit to a store in a database must hold together as any, and hold more than entries; it is
/// refused for the reasons of any store, of which SQLite words one in another way.
pub proof fn database_commits_hold_together<E: RunEvent, D>(commit: RunCommitView<E, D>)
    ensures
        ({
            let refusal = sql_commit_refusal(commit);
            let lite = sqlite_commit_refusal(commit);
            let enough = commit.events.len() > 0 || commit.effects.len() > 0 || commit.items.len()
                > 0;
            let reworded = refusal is Some && about_event(
                refusal->0,
                "finish_run requires a terminal event"@,
            );
            &&& refusal is None <==> enough && holds_together(commit)
            &&& !enough ==> about_event(refusal->0, "commit requires an event, effect, or item"@)
            &&& enough ==> refusal == commit_refusal(commit)
            &&& lite is None <==> refusal is None
            &&& reworded ==> about_event(lite->0, "finish commit requires a terminal event"@)
            &&& !reworded ==> lite == refusal
        }),
{
    commits_hold_together(commit);
}

/// A commit goes on by what the row of its run says: it is written while the run goes on, under the
/// run's lease and in time.
pub proof fn gates_open_for_the_lease<E, D>(
    row: CommitRow,
    run: RunView<E, D>,
    session: Seq<char>,
    lease: Option<Seq<char>>,
    finishes: bool,
    now: nat,
)
    requires
        row_of(row, run, now),
    ensures
        ({
            let answer = gate(Some(row), session, lease, finishes);
            let own = session == run.start.session_id;
            &&& answer matches Ok(gate) ==> (gate is Write <==> own && run.status is Running
                && may_write(run.lease, lease, now))
            &&& answer matches Ok(gate) ==> (gate is AskTerminal <==> own && !(run.status is Running)
                && finishes)
            &&& own && !(run.status is Running) ==> answer is Ok
            &&& !own ==> answer is Err && about_event(
                answer->Err_0,
                "event session_id does not match target run"@,
            )
            &&& own && run.status is Running && !may_write(run.lease, lease, now) ==> answer is Err
                && answer->Err_0 is LeaseLost
            &&& own && run.status is Running && may_write(run.lease, lease, now) ==> answer is Ok
        }),
        gate(None, session, lease, finishes) matches Ok(gate) && gate is Skip,
{
}

/// A checkpoint is written where it is of the run's thread, no other run has the thread, and the run
/// has claimed it under its lease or nobody has.
pub proof fn threads_are_written_by_who_has_them(
    row: CommitRow,
    rows: ThreadRows,
    checkpoint: CheckpointWriteView,
    lease: Option<Seq<char>>,
)
    ensures
        ({
            let refusal = row_thread_refusal(row, rows, checkpoint, lease);
            let own = checkpoint.thread_id == row.thread_id@;
            let free = own && rows.other_run is None;
            &&& !own ==> refusal is Some && about_event(
                refusal->0,
                "checkpoint thread_id does not match target run"@,
            )
            &&& own && !free ==> (refusal matches Some(ErrorView::ThreadBusy { owner, run })
                && owner == opt(rows.other_run->0.owner) && run == opt(rows.other_run->0.run))
            &&& free && row.lease_id is None ==> match rows.claim {
                Some(claim) => refusal matches Some(ErrorView::ThreadBusy { owner, run }) && owner
                    == opt(claim.owner) && run == opt(claim.run),
                None => refusal is None,
            }
            &&& free && (row.lease_id matches Some(stored) && lease == Some(stored@) && rows.held)
                ==> refusal is None
            &&& free && (row.lease_id matches Some(stored) && !(lease == Some(stored@)
                && rows.held)) ==> refusal is Some && refusal->0 is LeaseLost
        }),
{
}

/// An operation is let through by the row of its run just as by a store in memory.
pub proof fn operations_pass_alike<E: RunEvent, D>(
    store: StoreView<E, D>,
    run: Seq<char>,
    scope: Seq<char>,
    row: Option<CommitRow>,
    lease: Option<Seq<char>>,
    now: nat,
)
    requires
        match store.visible(run, scope) {
            Some(found) => row matches Some(row) && row_of(row, found, now),
            None => row is None,
        },
    ensures
        op_row_refusal(row, lease) == store.op_refusal(run, scope, lease, now),
        op_row_refusal(row, lease) is None <==> goes_on(store, run, scope) && may_write(
            store.runs[run].lease,
            lease,
            now,
        ),
        !goes_on(store, run, scope) ==> op_row_refusal(row, lease)->0 is RunNotFound,
        goes_on(store, run, scope) && !may_write(store.runs[run].lease, lease, now)
            ==> op_row_refusal(row, lease)->0 is LeaseLost,
{
}

/// An effect that was read is taken as reserved just where a store in memory takes it, and started
/// just where that starts it.
pub proof fn effects_pass_alike<E: RunEvent, D>(
    store: StoreView<E, D>,
    run: Seq<char>,
    scope: Seq<char>,
    lease: Option<Seq<char>>,
    key: Seq<char>,
    kind: Seq<char>,
    request: Seq<char>,
    effect: Option<Effect>,
    clock: Clock,
)
    requires
        store.op_refusal(run, scope, lease, clock.now as nat) is None,
        match effect {
            Some(effect) => store.effects.contains_key((run, key)) && store.effects[(run, key)]
                == effect@,
            None => !store.effects.contains_key((run, key)),
        },
    ensures
        effect matches Some(found) ==> {
            let answer = store.reserve_effect(run, scope, lease, key, kind, request, clock).1;
            match reservation(effect, kind, request) {
                Ok(read) => read == found && answer == Ok::<EffectView, ErrorView>(read@) && found.kind@
                    == kind && found.request@ == request,
                Err(error) => answer == Err::<EffectView, ErrorView>(error) && error
                    is EffectConflict && (found.kind@ != kind || found.request@ != request),
            }
        },
        effect is None ==> reservation(effect, kind, request) is Err && reservation(
            effect,
            kind,
            request,
        )->Err_0 is EffectNotFound,
        ({
            let (after, answer) = store.start_effect(run, scope, lease, key, clock);
            match effect_decision(effect) {
                Ok(EffectGate::Known(read)) => Some(read) == effect && read.status is Done && answer
                    == Ok::<EffectView, ErrorView>(read@) && after == store,
                Ok(EffectGate::Start) => answer is Ok && after.effects[(run, key)].status is Started
                    && (effect->0.status is Reserved || effect->0.status is Failed),
                Err(error) => answer == Err::<EffectView, ErrorView>(error) && match effect {
                    None => error is EffectNotFound,
                    Some(found) => error is EffectPending && (found.status is Started || found.status
                        is Unknown),
                },
            }
        }),
{
}

/// The end of a run as a commit says all that the end says, and a commit that is made in its place is
/// answered as the end.
pub proof fn ends_are_made_as_commits<E, D>(
    finish: RunFinishRecordView<E, D>,
    result: RunCommitResult<E>,
)
    ensures
        ({
            let commit = finish_as_commit(finish);
            &&& commit.run_id == finish.run_id && commit.session_id == finish.session_id
                && commit.scope == finish.scope
            &&& commit.lease is None && commit.checkpoint is None
            &&& commit.events.len() == 1 && commit.events[0] == finish.terminal_event
            &&& commit.effects.len() == 0 && commit.items.len() == 0
            &&& commit.entries == finish.entries
            &&& commit.finish matches Some(end) && {
                &&& end.run_id == finish.run_id && end.session_id == finish.session_id && end.scope
                    == finish.scope
                &&& end.status == finish.status && end.finish_reason == finish.finish_reason
                    && end.error_code == finish.error_code
                &&& end.entries.len() == 0 && end.data == finish.data
            }
        }),
        match result {
            RunCommitResult::Finished { result: end, .. } => finish_answered(result) == Ok::<
                FinishRunResult<E>,
                ErrorView,
            >(end),
            RunCommitResult::Skipped => finish_answered(result) is Err && finish_answered(
                result,
            )->Err_0 is RunNotFound,
            RunCommitResult::Recorded(_) => finish_answered(result) is Err && about_event(
                finish_answered(result)->Err_0,
                "finish_run did not produce a terminal result"@,
            ),
        },
{
}

/// An event as a commit is all that the commit writes, and the answer is whether it was recorded.
pub proof fn events_are_made_as_commits<E: RunEvent, D>(
    run: Seq<char>,
    scope: Seq<char>,
    event: E,
    result: RunCommitResult<E>,
)
    ensures
        ({
            let commit = event_as_commit::<E, D>(run, scope, event);
            &&& commit.run_id == run && commit.session_id == event.session() && commit.scope == scope
            &&& commit.lease is None && commit.checkpoint is None && commit.finish is None
            &&& commit.events.len() == 1 && commit.events[0] == event
            &&& commit.effects.len() == 0 && commit.items.len() == 0 && commit.entries.len() == 0
        }),
        event_answered(result) is Ok <==> !(result is Finished),
        event_answered(result) matches Ok(recorded) ==> (recorded <==> result is Recorded),
        result is Finished ==> about_event(
            event_answered(result)->Err_0,
            "record_event produced a terminal result"@,
        ),
{
}

/// An event that is recorded as a commit without a lease leaves a store in memory as recording the
/// event does, where the run goes on without a lease.
pub proof fn events_as_commits_record_alike<E: RunEvent, D>(
    store: StoreView<E, D>,
    run: Seq<char>,
    scope: Seq<char>,
    event: E,
    clock: Clock,
)
    requires
        store.inv(),
        event.run() == run,
        !event.terminal(),
        goes_on(store, run, scope),
        store.runs[run].start.session_id == event.session(),
        store.runs[run].lease is None,
    ensures
        ({
            let (after, answer) = store.commit_run(event_as_commit::<E, D>(run, scope, event), clock);
            let (recorded, told) = store.record_event(run, scope, event);
            &&& after == recorded
            &&& answer is Ok <==> told is Ok
            &&& answer matches Err(error) ==> told == Err::<bool, ErrorView>(error)
        }),
{
    let commit = event_as_commit::<E, D>(run, scope, event);
    let found = store.runs[run];
    reveal_with_fuel(first_failure, 3);
    reveal_with_fuel(with_entries, 2);
    reveal_with_fuel(with_items, 2);
    reveal_with_fuel(with_effects, 2);
    assert(found.events + commit.events.take(0) =~= found.events);
    assert(found.events + commit.events =~= found.events.push(event));
    let (after, answer) = store.commit_run(commit, clock);
    let (recorded, told) = store.record_event(run, scope, event);
    assert(!ends(commit.events));
    assert(after =~= recorded);
}

/// The end of a run that is made as a commit without a lease leaves a store in memory as ending the
/// run does, where the run goes on without a lease, and is taken just where that is.
pub proof fn ends_as_commits_end_alike<E: RunEvent, D>(
    store: StoreView<E, D>,
    finish: RunFinishRecordView<E, D>,
    clock: Clock,
)
    requires
        store.inv(),
        goes_on(store, finish.run_id, finish.scope),
        store.runs[finish.run_id].lease is None,
    ensures
        ({
            let (after, answer) = store.commit_run(finish_as_commit(finish), clock);
            let (ended, told) = store.finish_run(finish, clock);
            &&& answer is Ok <==> told is Ok
            &&& after == ended
            &&& answer matches Ok(result) ==> result == written_answer(
                seq![finish.terminal_event],
                true,
            ) && told == Ok::<FinishRunResult<E>, ErrorView>(
                FinishRunResult::Finished(finish.terminal_event),
            )
        }),
{
    let commit = finish_as_commit(finish);
    let run = store.runs[finish.run_id];
    let thread = run.start.thread_id;
    let (after, answer) = store.commit_run(commit, clock);
    let (ended, told) = store.finish_run(finish, clock);
    store.runs_end_as_asked(finish, clock);
    commits_hold_together(commit);
    assert(commit.events =~= seq![finish.terminal_event]);
    assert(commit.events[0] == finish.terminal_event);
    assert(effects_fit(store.effects, commit.run_id, commit.effects));
    assert(items_fit(store.items, commit.run_id, commit.items));
    if commit_fits(store, commit, clock.now as nat) {
        store.fitting_commits_are_written(commit, clock);
        if store.thread_leases.contains_key(thread) {
            let held = store.thread_leases[thread];
            assert(store.runs[held.run].lease is Some);
            assert(store.runs[held.run].status is Running);
            assert(store.running_on(held.run, thread));
            assert(store.running_on(finish.run_id, thread));
        }
        assert(store.thread_leases.remove(thread) =~= store.thread_leases);
        reveal_with_fuel(with_items, 2);
        reveal_with_fuel(with_effects, 2);
        assert(after =~= ended);
    } else {
        store.other_commits_change_nothing(commit, clock);
        store.refused_ends_say_why(finish, clock);
    }
}

/// The answers to a commit that was written, and to one whose run had ended, say what became of the
/// run.
pub proof fn answers_tell_the_end<E>(events: Seq<E>, event: E)
    ensures
        written_answer(events, false) == RunCommitResultView::Recorded(events),
        written_answer(events, true) matches RunCommitResultView::Finished {
            events: told,
            result: FinishRunResult::Finished(last),
        } && told == events && last == events.last(),
        ended_answer(Some(event)) matches RunCommitResultView::Finished {
            events: told,
            result: FinishRunResult::AlreadyFinished(last),
        } && told == seq![event] && last == event,
        ended_answer(None::<E>) is Skipped,
{
}

/// A run whose lease has run out is ended by the event after its last, and told of as a store in
/// memory tells of it.
pub proof fn reaping_agrees<E: RunEvent, D>(
    store: StoreView<E, D>,
    run: Seq<char>,
    event: E,
    data: D,
)
    requires
        store.inv(),
        store.runs.contains_key(run),
    ensures
        ({
            let found = store.runs[run];
            let seq = if found.events.len() == 0 {
                1
            } else {
                found.events.last().place() + 1
            };
            let refusal = reap_event_refusal(found.lookup(), seq, event);
            let own = event.run() == run && event.session() == found.start.session_id;
            &&& refusal == StoreView::<E, D>::reap_refusal(found, event)
            &&& refusal is None <==> own && event.place() == seq && event.terminal()
            &&& !own ==> about_event(refusal->0, "reap event target does not match run"@)
            &&& own && refusal is Some ==> about_event(
                refusal->0,
                "reap requires the next terminal event"@,
            )
            &&& store.with_reaped(run, event, data).runs[run].lookup() == reaped_lookup(
                found.lookup(),
            )
            &&& reaped_lookup(found.lookup()).status is Error
            &&& reaped_lookup(found.lookup()).finish_reason == Some("lease_expired"@)
            &&& reaped_lookup(found.lookup()).owner is None
        }),
{
}

/// Milliseconds are whole, and the parts of one are left out.
pub proof fn milliseconds_are_whole(duration: Nanos)
    ensures
        0 <= millis(duration) <= i64::MAX,
        millis(duration) < i64::MAX ==> millis(duration) * 1_000_000 <= duration < (millis(duration)
            + 1) * 1_000_000,
        millis(duration) * 1_000_000 <= duration,
{
}

/// A lease runs out once its time has passed, to the millisecond.
pub proof fn leases_run_out_in_time(now: int, ttl: Nanos)
    requires
        ttl / 1_000_000 < i64::MAX,
    ensures
        (runs_out(now, ttl) - now) * 1_000_000 <= ttl < (runs_out(now, ttl) - now + 1) * 1_000_000,
{
}

/// A row whose status or visibility is none is refused with the text that it holds.
pub proof fn unreadable_rows_are_named(text: Seq<char>)
    ensures
        about_event(unknown_status(text), "invalid stored run status: "@ + text),
        about_event(unknown_effect_status(text), "invalid effect status: "@ + text),
        about_event(unknown_vis(text), "invalid entry visibility: "@ + text),
{
}

/// A list reads as many rows as it may, and a page one more, so that a page that is full is told from
/// one that is the last.
pub proof fn rows_are_counted(limit: usize)
    ensures
        rows_listed(limit) == limit || limit > i64::MAX && rows_listed(limit) == i64::MAX,
        limit < i64::MAX ==> rows_fetched(limit) > limit && rows_fetched(limit) == rows_listed(limit)
            + 1,
        limit >= i64::MAX ==> rows_fetched(limit) == i64::MAX,
{
}

} // verus!
