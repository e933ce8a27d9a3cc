//! What fits a store: when a write is taken, in terms of what is stored and what is written.

use vstd::prelude::*;

use crate::error::ErrorView;
use crate::model::{
    commit_refusal, committed_event_refusal, effect_refusal, effects_refusal, entries_refusal,
    entry_refusal, first_failure, item_refusal, items_refusal, place_refusal, sequence_refusal,
    HeldLeaseView, Keyed, ScopedEntryView,
};
use crate::op::{
    EffectStatus, EffectUpdateView, EffectView, EntryWriteView, ItemView, ItemWriteView,
};
use crate::store::{last_place, RunCommitView, RunEvent, RunStatus};
use crate::store_laws::{lemma_all_pass, lemma_no_failure};
use crate::store_view::StoreView;

verus! {

/// Whether someone who shows a lease, or none, may write a run at a time: the run has no lease, or
/// this one, and it has not run out.
pub open spec fn may_write(held: Option<HeldLeaseView>, lease: Option<Seq<char>>, now: nat) -> bool {
    match held {
        None => true,
        Some(held) => lease == Some(held.id) && now < held.until,
    }
}

/// Whether a run goes on in a scope.
pub open spec fn goes_on<E, D>(store: StoreView<E, D>, run: Seq<char>, scope: Seq<char>) -> bool {
    &&& store.runs.contains_key(run)
    &&& store.runs[run].start.scope == scope
    &&& store.runs[run].status == RunStatus::Running
}

/// Whether events belong to a run and come after others, in the order of their places.
pub open spec fn events_fit<E: RunEvent>(
    before: Seq<E>,
    run: Seq<char>,
    session: Seq<char>,
    events: Seq<E>,
) -> bool {
    &&& forall|i: int|
        0 <= i < events.len() ==> (#[trigger] events[i]).run() == run && events[i].session()
            == session && events[i].place() > 0
    &&& forall|i: int, j: int|
        0 <= i < j < events.len() ==> (#[trigger] events[i]).place() < (#[trigger] events[j]).place()
    &&& forall|i: int, j: int|
        0 <= i < before.len() && 0 <= j < events.len() ==> (#[trigger] before[i]).place() < (
        #[trigger] events[j]).place()
}

/// Whether events end a run where they are to, and only with the last of them.
pub open spec fn ends_fit<E: RunEvent>(finishes: bool, events: Seq<E>) -> bool {
    &&& finishes ==> events.len() > 0
    &&& forall|i: int|
        0 <= i < events.len() ==> ((#[trigger] events[i]).terminal() <==> finishes && i
            == events.len() - 1)
}

/// Whether updates can be made: each of another effect that is there, to an outcome, and one that is
/// done keeps its result.
pub open spec fn effects_fit(
    effects: Keyed<EffectView>,
    run: Seq<char>,
    updates: Seq<EffectUpdateView>,
) -> bool {
    &&& forall|i: int, j: int|
        0 <= i < j < updates.len() ==> (#[trigger] updates[i]).key != (#[trigger] updates[j]).key
    &&& forall|i: int|
        0 <= i < updates.len() ==> effects.contains_key((run, (#[trigger] updates[i]).key))
    &&& forall|i: int|
        0 <= i < updates.len() ==> (#[trigger] updates[i]).status == EffectStatus::Done
            || updates[i].status == EffectStatus::Failed || updates[i].status
            == EffectStatus::Unknown
    &&& forall|i: int|
        0 <= i < updates.len() && effects[(run, (#[trigger] updates[i]).key)].status
            == EffectStatus::Done ==> updates[i].status == EffectStatus::Done && updates[i].result
            == effects[(run, updates[i].key)].result
}

/// Whether items can be recorded: each under another key, and one that is there says the same.
pub open spec fn items_fit(
    items: Keyed<ItemView>,
    run: Seq<char>,
    writes: Seq<ItemWriteView>,
) -> bool {
    &&& forall|i: int, j: int|
        0 <= i < j < writes.len() ==> (#[trigger] writes[i]).key != (#[trigger] writes[j]).key
    &&& forall|i: int|
        0 <= i < writes.len() && items.contains_key((run, (#[trigger] writes[i]).key))
            ==> items[(run, writes[i].key)].kind == writes[i].kind && items[(
            run,
            writes[i].key,
        )].body == writes[i].body
}

/// Whether entries can be recorded: each under another key, and one of the session that is there
/// says the same.
pub open spec fn entries_fit(
    entries: Seq<ScopedEntryView>,
    scope: Seq<char>,
    session: Seq<char>,
    writes: Seq<EntryWriteView>,
) -> bool {
    &&& forall|i: int, j: int|
        0 <= i < j < writes.len() ==> (#[trigger] writes[i]).key != (#[trigger] writes[j]).key
    &&& forall|i: int, j: int|
        0 <= i < writes.len() && 0 <= j < entries.len() && (#[trigger] entries[j]).scope == scope
            && entries[j].entry.session_id == session && entries[j].entry.key == (
        #[trigger] writes[i]).key ==> entries[j].entry.kind == writes[i].kind && entries[j].entry.vis
            == writes[i].vis && entries[j].entry.body == writes[i].body
}

/// Whether a commit holds together, whatever is stored.
pub open spec fn holds_together<E: RunEvent, D>(commit: RunCommitView<E, D>) -> bool {
    &&& commit.events.len() > 0 || commit.effects.len() > 0 || commit.items.len() > 0
        || commit.entries.len() > 0
    &&& forall|i: int|
        0 <= i < commit.events.len() ==> (#[trigger] commit.events[i]).run() == commit.run_id
            && commit.events[i].session() == commit.session_id && commit.events[i].place() > 0
    &&& ends_fit(commit.finish is Some, commit.events)
    &&& commit.finish matches Some(finish) ==> finish.run_id == commit.run_id && finish.session_id
        == commit.session_id && finish.status != RunStatus::Running
}

/// Whether a commit fits what is stored of a run that goes on.
pub open spec fn commit_fits<E: RunEvent, D>(
    store: StoreView<E, D>,
    commit: RunCommitView<E, D>,
    now: nat,
) -> bool {
    let run = store.runs[commit.run_id];
    &&& holds_together(commit)
    &&& run.start.session_id == commit.session_id
    &&& may_write(run.lease, commit.lease, now)
    &&& commit.checkpoint matches Some(checkpoint) ==> checkpoint.thread_id == run.start.thread_id
    &&& events_fit(run.events, commit.run_id, commit.session_id, commit.events)
    &&& effects_fit(store.effects, commit.run_id, commit.effects)
    &&& items_fit(store.items, commit.run_id, commit.items)
    &&& entries_fit(store.entries, commit.scope, commit.session_id, commit.entries)
}

/// Updates are taken exactly where they fit.
pub proof fn effects_are_taken_where_they_fit(
    effects: Keyed<EffectView>,
    run: Seq<char>,
    updates: Seq<EffectUpdateView>,
)
    ensures
        effects_refusal(effects, run, updates) is None <==> effects_fit(effects, run, updates),
{
    let check = |i: int| effect_refusal(effects, run, updates, i);
    if effects_refusal(effects, run, updates) is None {
        lemma_no_failure(updates.len(), check);
        assert forall|i: int| 0 <= i < updates.len() implies effects.contains_key(
            (run, (#[trigger] updates[i]).key),
        ) && (updates[i].status == EffectStatus::Done || updates[i].status == EffectStatus::Failed
            || updates[i].status == EffectStatus::Unknown) && (effects[(run, updates[i].key)].status
            == EffectStatus::Done ==> updates[i].status == EffectStatus::Done && updates[i].result
            == effects[(run, updates[i].key)].result) by {
            assert(check(i) is None);
        }
        assert forall|i: int, j: int| 0 <= i < j < updates.len() implies (
        #[trigger] updates[i]).key != (#[trigger] updates[j]).key by {
            assert(check(j) is None);
        }
    }
    if effects_fit(effects, run, updates) {
        assert forall|i: int| 0 <= i < updates.len() implies (#[trigger] check(i)) is None by {
            assert(effects.contains_key((run, updates[i].key)));
        }
        lemma_all_pass(updates.len(), check);
    }
}

/// Items are taken exactly where they fit.
pub proof fn items_are_taken_where_they_fit(
    items: Keyed<ItemView>,
    run: Seq<char>,
    writes: Seq<ItemWriteView>,
)
    ensures
        items_refusal(items, run, writes) is None <==> items_fit(items, run, writes),
        items_refusal(items, run, writes) is Some ==> items_refusal(items, run, writes) == Some(
            ErrorView::ItemConflict,
        ),
{
    let check = |i: int| item_refusal(items, run, writes, i);
    if items_refusal(items, run, writes) is None {
        lemma_no_failure(writes.len(), check);
        assert forall|i: int|
            0 <= i < writes.len() && items.contains_key(
                (run, (#[trigger] writes[i]).key),
            ) implies items[(run, writes[i].key)].kind == writes[i].kind && items[(
            run,
            writes[i].key,
        )].body == writes[i].body by {
            assert(check(i) is None);
        }
        assert forall|i: int, j: int| 0 <= i < j < writes.len() implies (#[trigger] writes[i]).key
            != (#[trigger] writes[j]).key by {
            assert(check(j) is None);
        }
    } else {
        lemma_only(
            writes.len(),
            check,
            ErrorView::ItemConflict,
        );
    }
    if items_fit(items, run, writes) {
        assert forall|i: int| 0 <= i < writes.len() implies (#[trigger] check(i)) is None by {}
        lemma_all_pass(writes.len(), check);
    }
}

proof fn lemma_only(n: nat, check: spec_fn(int) -> Option<ErrorView>, error: ErrorView)
    requires
        forall|i: int| 0 <= i < n ==> (#[trigger] check(i)) is None || check(i) == Some(error),
    ensures
        first_failure(n, check) is None || first_failure(n, check) == Some(error),
    decreases n,
{
    if n > 0 {
        lemma_only((n - 1) as nat, check, error);
        assert(check(n - 1) is None || check(n - 1) == Some(error));
    }
}

/// Entries are taken exactly where they fit.
pub proof fn entries_are_taken_where_they_fit(
    entries: Seq<ScopedEntryView>,
    scope: Seq<char>,
    session: Seq<char>,
    writes: Seq<EntryWriteView>,
)
    ensures
        entries_refusal(entries, scope, session, writes) is None <==> entries_fit(
            entries,
            scope,
            session,
            writes,
        ),
        entries_refusal(entries, scope, session, writes) is Some ==> entries_refusal(
            entries,
            scope,
            session,
            writes,
        ) == Some(ErrorView::EntryConflict),
{
    let check = |i: int| entry_refusal(entries, scope, session, writes, i);
    if entries_refusal(entries, scope, session, writes) is None {
        lemma_no_failure(writes.len(), check);
        assert forall|i: int, j: int|
            0 <= i < writes.len() && 0 <= j < entries.len() && (#[trigger] entries[j]).scope
                == scope && entries[j].entry.session_id == session && entries[j].entry.key == (
            #[trigger] writes[i]).key implies entries[j].entry.kind == writes[i].kind
            && entries[j].entry.vis == writes[i].vis && entries[j].entry.body
            == writes[i].body by {
            assert(check(i) is None);
            assert(entries[j].under(scope, session, writes[i].key));
        }
        assert forall|i: int, j: int| 0 <= i < j < writes.len() implies (#[trigger] writes[i]).key
            != (#[trigger] writes[j]).key by {
            assert(check(j) is None);
        }
    } else {
        lemma_only(writes.len(), check, ErrorView::EntryConflict);
    }
    if entries_fit(entries, scope, session, writes) {
        assert forall|i: int| 0 <= i < writes.len() implies (#[trigger] check(i)) is None by {}
        lemma_all_pass(writes.len(), check);
    }
}

/// Events are taken exactly where they come after those before, in the order of their places.
pub proof fn events_are_taken_where_they_fit<E: RunEvent>(
    before: Seq<E>,
    run: Seq<char>,
    session: Seq<char>,
    events: Seq<E>,
)
    requires
        forall|i: int, j: int|
            0 <= i < j < before.len() ==> (#[trigger] before[i]).place() < (
            #[trigger] before[j]).place(),
        forall|i: int|
            0 <= i < events.len() ==> (#[trigger] events[i]).run() == run && events[i].session()
                == session && events[i].place() > 0,
    ensures
        sequence_refusal(before, events) is None <==> events_fit(before, run, session, events),
{
    let check = |i: int| place_refusal(last_place(before + events.take(i)), events[i].place());
    if sequence_refusal(before, events) is None {
        lemma_no_failure(events.len(), check);
        assert forall|i: int, j: int| 0 <= i < j < events.len() implies (#[trigger] events[i]).place()
            < (#[trigger] events[j]).place() by {
            lemma_growing(before, events, check, i, j);
        }
        assert forall|i: int, j: int|
            0 <= i < before.len() && 0 <= j < events.len() implies (#[trigger] before[i]).place() < (
        #[trigger] events[j]).place() by {
            assert(check(0) is None);
            assert(before + events.take(0) =~= before);
            if j > 0 {
                lemma_growing(before, events, check, 0, j);
            }
            if i < before.len() - 1 {
                assert(before[i].place() < before[before.len() - 1].place());
            }
        }
    }
    if events_fit(before, run, session, events) {
        assert forall|i: int| 0 <= i < events.len() implies (#[trigger] check(i)) is None by {
            let all = before + events.take(i);
            if i > 0 {
                assert(all.last() == events[i - 1]);
            } else {
                assert(all =~= before);
                if before.len() > 0 {
                    assert(before[before.len() - 1].place() < events[0].place());
                }
            }
        }
        lemma_all_pass(events.len(), check);
    }
}

proof fn lemma_growing<E: RunEvent>(
    before: Seq<E>,
    events: Seq<E>,
    check: spec_fn(int) -> Option<ErrorView>,
    i: int,
    j: int,
)
    requires
        0 <= i < j < events.len(),
        check == |i: int| place_refusal(last_place(before + events.take(i)), events[i].place()),
        forall|i: int| 0 <= i < events.len() ==> (#[trigger] check(i)) is None,
    ensures
        events[i].place() < events[j].place(),
    decreases j,
{
    assert(check(j) is None);
    assert((before + events.take(j)).last() == events[j - 1]);
    if i < j - 1 {
        lemma_growing(before, events, check, i, j - 1);
    }
}

/// A commit is let through, whatever is stored, exactly where it holds together.
pub proof fn commits_hold_together<E: RunEvent, D>(commit: RunCommitView<E, D>)
    ensures
        commit_refusal(commit) is None <==> holds_together(commit),
{
    let events = commit.events;
    let check = |i: int| committed_event_refusal(commit.run_id, commit.session_id, events[i]);
    if commit_refusal(commit) is None {
        lemma_no_failure(events.len(), check);
        assert forall|i: int| 0 <= i < events.len() implies (#[trigger] events[i]).run()
            == commit.run_id && events[i].session() == commit.session_id && events[i].place()
            > 0 by {
            assert(check(i) is None);
        }
        assert forall|i: int| 0 <= i < events.len() implies ((#[trigger] events[i]).terminal()
            <==> commit.finish is Some && i == events.len() - 1) by {
            assert(events.last() == events[events.len() - 1]);
        }
    }
    if holds_together(commit) {
        assert forall|i: int| 0 <= i < events.len() implies (#[trigger] check(i)) is None by {
            assert(events[i].run() == commit.run_id);
        }
        lemma_all_pass(events.len(), check);
        if events.len() > 0 {
            assert(events.last() == events[events.len() - 1]);
        }
    }
}

} // verus!
