//! Decisions on the rows of a database agree with those of a store in memory.

use vstd::prelude::*;

use crate::error::ErrorView;
use crate::model::{
    commit_refusal, committed_event_refusal, effect_refusal, effects_refusal, entries_refusal,
    entry_refusal, first_failure, item_refusal, items_refusal, place_refusal, sequence_refusal,
    Clock, Keyed, RunView, ScopedEntryView,
};
use crate::op::{EffectUpdateView, EffectView, EntryWriteView, ItemView, ItemWriteView, Vis};
use crate::rows::{
    after_refusal, follow_refusal, gate, measured, row_effect_refusal, row_effects_refusal,
    rows_refusal, sig_text, start_decision, write_text, writes_text, CommitGate, CommitRow,
    CommitRows, StartGateView,
};
use crate::store::{
    last_place, RunCommitView, RunEvent, RunLookupView, RunStartView, StoreStartResultView,
};
use crate::store_laws::{lemma_all_pass, lemma_no_failure};
use crate::store_view::StoreView;
use crate::text::{decimal, decimal_injective, opt, views};

verus! {

/// Whether two collections agree on what lies under a run and keys.
pub open spec fn agree<T>(
    left: Keyed<T>,
    right: Keyed<T>,
    run: Seq<char>,
    keys: spec_fn(Seq<char>) -> bool,
) -> bool {
    forall|key: Seq<char>| #[trigger]
        keys(key) ==> (left.contains_key((run, key)) <==> right.contains_key((run, key))) && (
        left.contains_key((run, key)) ==> left[(run, key)] == right[(run, key)])
}

/// Whether two lists of entries agree on what lies under the keys of some entries.
pub open spec fn entries_agree(
    left: Seq<ScopedEntryView>,
    right: Seq<ScopedEntryView>,
    scope: Seq<char>,
    session: Seq<char>,
    writes: Seq<EntryWriteView>,
) -> bool {
    forall|i: int, entry: ScopedEntryView|
        0 <= i < writes.len() && #[trigger] entry.under(scope, session, (#[trigger] writes[i]).key)
            ==> (left.contains(entry) <==> right.contains(entry))
}

/// Whether rows were read from a store that holds the same as one in memory.
pub open spec fn read_from<E: RunEvent, D>(
    row: CommitRow,
    rows: CommitRows,
    store: StoreView<E, D>,
    run: RunView<E, D>,
    commit: RunCommitView<E, D>,
    now: nat,
) -> bool {
    let thread = run.start.thread_id;
    &&& row.session_id@ == run.start.session_id
    &&& row.thread_id@ == thread
    &&& row.status == run.status
    &&& opt(row.lease_id) == match run.lease {
        Some(held) => Some(held.id),
        None => None,
    }
    &&& row.lease_expired == (run.lease is Some && run.lease->0.until <= now)
    &&& rows.thread.other_run is Some <==> store.thread_refusal(thread, run.start.run_id) is Some
    &&& rows.thread.claim is Some <==> store.claim_refusal(thread, now) is Some
    &&& rows.thread.held == (run.lease is Some && store.thread_leases.contains_key(thread)
        && store.thread_leases[thread].run == run.start.run_id && store.thread_leases[thread].owner
        == run.lease->0.owner && store.thread_leases[thread].id == run.lease->0.id && now
        < store.thread_leases[thread].until)
    &&& agree(
        rows.effects@,
        store.effects,
        commit.run_id,
        |key: Seq<char>|
            exists|i: int| 0 <= i < commit.effects.len() && (#[trigger] commit.effects[i]).key == key,
    )
    &&& agree(
        rows.items@,
        store.items,
        commit.run_id,
        |key: Seq<char>|
            exists|i: int| 0 <= i < commit.items.len() && (#[trigger] commit.items[i]).key == key,
    )
    &&& entries_agree(
        views(rows.entries@),
        store.entries,
        commit.scope,
        commit.session_id,
        commit.entries,
    )
    &&& rows.last_seq == match last_place(run.events) {
        Some(last) => last,
        None => 0,
    }
}

/// Checks that pass alike at each place pass alike together.
proof fn lemma_alike(
    n: nat,
    left: spec_fn(int) -> Option<ErrorView>,
    right: spec_fn(int) -> Option<ErrorView>,
)
    requires
        forall|i: int|
            0 <= i < n ==> ((#[trigger] left(i)) is None <==> (#[trigger] right(i)) is None),
    ensures
        first_failure(n, left) is None <==> first_failure(n, right) is None,
{
    if first_failure(n, left) is None {
        lemma_no_failure(n, left);
        assert forall|i: int| 0 <= i < n implies (#[trigger] right(i)) is None by {
            assert(left(i) is None);
        }
        lemma_all_pass(n, right);
    }
    if first_failure(n, right) is None {
        lemma_no_failure(n, right);
        assert forall|i: int| 0 <= i < n implies (#[trigger] left(i)) is None by {
            assert(right(i) is None);
        }
        lemma_all_pass(n, left);
    }
}

proof fn lemma_effects_alike(
    rows: Keyed<EffectView>,
    stored: Keyed<EffectView>,
    run: Seq<char>,
    updates: Seq<EffectUpdateView>,
)
    requires
        agree(
            rows,
            stored,
            run,
            |key: Seq<char>|
                exists|i: int| 0 <= i < updates.len() && (#[trigger] updates[i]).key == key,
        ),
    ensures
        row_effects_refusal(rows, run, updates) is None <==> effects_refusal(
            stored,
            run,
            updates,
        ) is None,
{
    let keys = |key: Seq<char>|
        exists|i: int| 0 <= i < updates.len() && (#[trigger] updates[i]).key == key;
    let left = |i: int| row_effect_refusal(rows, run, updates, i);
    let right = |i: int| effect_refusal(stored, run, updates, i);
    assert forall|i: int| 0 <= i < updates.len() implies ((#[trigger] left(i)) is None <==> (
    #[trigger] right(i)) is None) by {
        assert(keys(updates[i].key));
    }
    lemma_alike(updates.len(), left, right);
}

proof fn lemma_items_alike(
    rows: Keyed<ItemView>,
    stored: Keyed<ItemView>,
    run: Seq<char>,
    writes: Seq<ItemWriteView>,
)
    requires
        agree(
            rows,
            stored,
            run,
            |key: Seq<char>|
                exists|i: int| 0 <= i < writes.len() && (#[trigger] writes[i]).key == key,
        ),
    ensures
        items_refusal(rows, run, writes) is None <==> items_refusal(stored, run, writes) is None,
{
    let keys = |key: Seq<char>|
        exists|i: int| 0 <= i < writes.len() && (#[trigger] writes[i]).key == key;
    let left = |i: int| item_refusal(rows, run, writes, i);
    let right = |i: int| item_refusal(stored, run, writes, i);
    assert forall|i: int| 0 <= i < writes.len() implies ((#[trigger] left(i)) is None <==> (
    #[trigger] right(i)) is None) by {
        assert(keys(writes[i].key));
    }
    lemma_alike(writes.len(), left, right);
}

proof fn lemma_entries_alike(
    rows: Seq<ScopedEntryView>,
    stored: Seq<ScopedEntryView>,
    scope: Seq<char>,
    session: Seq<char>,
    writes: Seq<EntryWriteView>,
)
    requires
        entries_agree(rows, stored, scope, session, writes),
    ensures
        entries_refusal(rows, scope, session, writes) is None <==> entries_refusal(
            stored,
            scope,
            session,
            writes,
        ) is None,
{
    let left = |i: int| entry_refusal(rows, scope, session, writes, i);
    let right = |i: int| entry_refusal(stored, scope, session, writes, i);
    assert forall|i: int| 0 <= i < writes.len() implies ((#[trigger] left(i)) is None <==> (
    #[trigger] right(i)) is None) by {
        let key = writes[i].key;
        if exists|j: int|
            0 <= j < rows.len() && (#[trigger] rows[j]).under(scope, session, key) && !rows[j].says(
                writes[i],
            ) {
            let j = choose|j: int|
                0 <= j < rows.len() && (#[trigger] rows[j]).under(scope, session, key)
                    && !rows[j].says(writes[i]);
            assert(rows.contains(rows[j]));
            assert(stored.contains(rows[j]));
            let k = stored.index_of(rows[j]);
            assert(stored[k].under(scope, session, key) && !stored[k].says(writes[i]));
        }
        if exists|j: int|
            0 <= j < stored.len() && (#[trigger] stored[j]).under(scope, session, key)
                && !stored[j].says(writes[i]) {
            let j = choose|j: int|
                0 <= j < stored.len() && (#[trigger] stored[j]).under(scope, session, key)
                    && !stored[j].says(writes[i]);
            assert(stored.contains(stored[j]));
            assert(rows.contains(stored[j]));
            let k = rows.index_of(stored[j]);
            assert(rows[k].under(scope, session, key) && !rows[k].says(writes[i]));
        }
    }
    lemma_alike(writes.len(), left, right);
}

proof fn lemma_events_alike<E: RunEvent>(last: int, before: Seq<E>, events: Seq<E>)
    requires
        last == match last_place(before) {
            Some(place) => place,
            None => 0,
        },
        forall|i: int| 0 <= i < events.len() ==> (#[trigger] events[i]).place() > 0,
    ensures
        after_refusal(last, events) is None <==> sequence_refusal(before, events) is None,
{
    let left = |i: int| follow_refusal(last, events, i);
    let right = |i: int| place_refusal(last_place(before + events.take(i)), events[i].place());
    assert forall|i: int| 0 <= i < events.len() implies ((#[trigger] left(i)) is None <==> (
    #[trigger] right(i)) is None) by {
        let so_far = before + events.take(i);
        if i == 0 {
            assert(so_far =~= before);
        } else {
            assert(so_far.last() == events[i - 1]);
        }
    }
    lemma_alike(events.len(), left, right);
}

/// A commit that is decided on rows is written exactly if a store in memory that holds the same
/// would write it.
pub proof fn rows_decide_as_memory<E: RunEvent, D>(
    row: CommitRow,
    rows: CommitRows,
    store: StoreView<E, D>,
    run: RunView<E, D>,
    commit: RunCommitView<E, D>,
    now: nat,
)
    requires
        read_from(row, rows, store, run, commit, now),
        commit_refusal(commit) is None,
        run.start.session_id == commit.session_id,
    ensures
        gate(Some(row), commit.session_id, commit.lease, commit.finish is Some) == Ok::<
            CommitGate,
            ErrorView,
        >(CommitGate::Write) && rows_refusal(row, rows, commit) is None <==> !run.status.terminal()
            && store.write_refusal(run, commit, now) is None,
{
    lemma_effects_alike(rows.effects@, store.effects, commit.run_id, commit.effects);
    lemma_items_alike(rows.items@, store.items, commit.run_id, commit.items);
    lemma_entries_alike(
        views(rows.entries@),
        store.entries,
        commit.scope,
        commit.session_id,
        commit.entries,
    );
    let check = |i: int|
        committed_event_refusal(commit.run_id, commit.session_id, commit.events[i]);
    lemma_no_failure(commit.events.len(), check);
    assert forall|i: int| 0 <= i < commit.events.len() implies (#[trigger] commit.events[i]).place()
        > 0 by {
        assert(check(i) is None);
    }
    lemma_events_alike(rows.last_seq as int, run.events, commit.events);
}

proof fn lemma_digits(n: nat, i: int)
    requires
        0 <= i < decimal(n).len(),
    ensures
        decimal(n)[i] != ':',
    decreases n,
{
    if n >= 10 && i < decimal(n).len() - 1 {
        lemma_digits(n / 10, i);
    }
}

/// A text behind its length can be told from what follows it.
proof fn lemma_measured(a: Seq<char>, rest_a: Seq<char>, b: Seq<char>, rest_b: Seq<char>)
    requires
        measured(a) + rest_a == measured(b) + rest_b,
    ensures
        a == b,
        rest_a == rest_b,
{
    reveal_strlit(":");
    let left = measured(a) + rest_a;
    let right = measured(b) + rest_b;
    let m = decimal(a.len()).len() as int;
    let n = decimal(b.len()).len() as int;
    assert(left[m] == ':');
    assert(right[n] == ':');
    if m < n {
        assert(right[m] == decimal(b.len())[m]);
        lemma_digits(b.len(), m);
    }
    if n < m {
        assert(left[n] == decimal(a.len())[n]);
        lemma_digits(a.len(), n);
    }
    assert(decimal(a.len()) =~= left.take(m));
    assert(decimal(b.len()) =~= right.take(n));
    decimal_injective(a.len(), b.len());
    assert(a =~= left.subrange(m + 1, m + 1 + a.len()));
    assert(b =~= right.subrange(n + 1, n + 1 + b.len()));
    assert(rest_a =~= left.skip(m + 1 + a.len()));
    assert(rest_b =~= right.skip(n + 1 + b.len()));
}

proof fn lemma_writes_first(writes: Seq<EntryWriteView>)
    requires
        writes.len() > 0,
    ensures
        writes_text(writes) == write_text(writes[0]) + writes_text(writes.skip(1)),
    decreases writes.len(),
{
    let rest = writes.skip(1);
    if writes.len() == 1 {
        assert(writes.drop_last() =~= Seq::empty());
        assert(rest =~= Seq::empty());
        assert(Seq::<char>::empty() + write_text(writes[0]) =~= write_text(writes[0])
            + Seq::<char>::empty());
    } else {
        lemma_writes_first(writes.drop_last());
        assert(writes.drop_last().skip(1) =~= rest.drop_last());
        assert(writes_text(writes) =~= write_text(writes[0]) + writes_text(rest));
    }
}

proof fn lemma_four(a: Seq<char>, b: Seq<char>, c: Seq<char>, d: Seq<char>, rest: Seq<char>)
    ensures
        a + b + c + d + rest == a + (b + (c + (d + rest))),
{
    assert(a + b + c + d + rest =~= a + (b + (c + (d + rest))));
}

proof fn lemma_write_text(
    a: EntryWriteView,
    rest_a: Seq<char>,
    b: EntryWriteView,
    rest_b: Seq<char>,
)
    requires
        write_text(a) + rest_a == write_text(b) + rest_b,
    ensures
        a == b,
        rest_a == rest_b,
{
    let body_a = measured(a.body) + rest_a;
    let body_b = measured(b.body) + rest_b;
    let vis_a = measured(a.vis.text()) + body_a;
    let vis_b = measured(b.vis.text()) + body_b;
    let kind_a = measured(a.kind) + vis_a;
    let kind_b = measured(b.kind) + vis_b;
    lemma_four(
        measured(a.key),
        measured(a.kind),
        measured(a.vis.text()),
        measured(a.body),
        rest_a,
    );
    lemma_four(
        measured(b.key),
        measured(b.kind),
        measured(b.vis.text()),
        measured(b.body),
        rest_b,
    );
    lemma_measured(a.key, kind_a, b.key, kind_b);
    lemma_measured(a.kind, vis_a, b.kind, vis_b);
    lemma_measured(a.vis.text(), body_a, b.vis.text(), body_b);
    lemma_measured(a.body, rest_a, b.body, rest_b);
    Vis::text_injective(a.vis, b.vis);
}

proof fn lemma_writes_text(a: Seq<EntryWriteView>, b: Seq<EntryWriteView>)
    requires
        writes_text(a) == writes_text(b),
    ensures
        a == b,
    decreases a.len(),
{
    reveal_strlit(":");
    if a.len() > 0 {
        lemma_writes_first(a);
    }
    if b.len() > 0 {
        lemma_writes_first(b);
    }
    if a.len() > 0 && b.len() > 0 {
        lemma_write_text(a[0], writes_text(a.skip(1)), b[0], writes_text(b.skip(1)));
        lemma_writes_text(a.skip(1), b.skip(1));
        assert(a =~= seq![a[0]] + a.skip(1));
        assert(b =~= seq![b[0]] + b.skip(1));
    } else if a.len() > 0 {
        assert(writes_text(a).len() > 0);
    } else if b.len() > 0 {
        assert(writes_text(b).len() > 0);
    }
    assert(a =~= b);
}

/// The signatures of two starts are the same exactly if the runs are started with the same input and
/// the same entries, so that a start is refused on the rows of a database exactly where a store in
/// memory refuses it.
pub proof fn signatures_tell_starts_apart(
    input: Option<Seq<char>>,
    entries: Seq<EntryWriteView>,
    other_input: Option<Seq<char>>,
    other_entries: Seq<EntryWriteView>,
)
    ensures
        sig_text(input, entries) == sig_text(other_input, other_entries) <==> input == other_input
            && entries == other_entries,
{
    reveal_strlit("+");
    reveal_strlit("-");
    let left = sig_text(input, entries);
    let right = sig_text(other_input, other_entries);
    if left == right {
        assert(left[0] == if input is Some {
            '+'
        } else {
            '-'
        });
        assert(right[0] == if other_input is Some {
            '+'
        } else {
            '-'
        });
        if input is Some {
            let a = measured(input->0) + writes_text(entries);
            let b = measured(other_input->0) + writes_text(other_entries);
            assert(a =~= left.skip(1));
            assert(b =~= right.skip(1));
            lemma_measured(
                input->0,
                writes_text(entries),
                other_input->0,
                writes_text(other_entries),
            );
        } else {
            assert(writes_text(entries) =~= left.skip(1));
            assert(writes_text(other_entries) =~= right.skip(1));
        }
        lemma_writes_text(entries, other_entries);
    }
}

/// The row of a run that is stored, as a start reads it.
pub open spec fn started_row<E: RunEvent, D>(store: StoreView<E, D>, run: Seq<char>) -> (
    RunLookupView,
    Seq<char>,
) {
    let start = store.runs[run].start;
    (store.runs[run].lookup(), sig_text(start.input, start.entries))
}

/// The start of a run that is decided on the rows of a database is answered as a store in memory
/// answers it: with the run that is there, with the same refusal, or else as far as the claim of the
/// thread and the entries allow. The name of a run is taken in one scope at a time.
pub proof fn rows_start_as_memory<E: RunEvent, D>(
    store: StoreView<E, D>,
    start: RunStartView,
    clock: Clock,
)
    requires
        store.runs.contains_key(start.run_id) ==> store.runs[start.run_id].start.scope
            == start.scope,
    ensures
        ({
            let named = match store.visible(start.run_id, start.scope) {
                Some(_) => Some(started_row(store, start.run_id)),
                None => None,
            };
            let key = start.client_run_key;
            let keyed = if key is Some {
                match store.keyed_run(start.scope, start.session_id, key->0) {
                    Some(run) => Some(started_row(store, run)),
                    None => None,
                }
            } else {
                None
            };
            let busy = store.thread_refusal(start.thread_id, start.run_id);
            let answer = store.start_run(start, clock).1;
            match start_decision(named, keyed, sig_text(start.input, start.entries), busy) {
                Ok(StartGateView::Existing(lookup)) => answer == Ok::<
                    StoreStartResultView,
                    ErrorView,
                >(StoreStartResultView::Existing(lookup)),
                Ok(StartGateView::Insert) => answer == match store.start_refusal(
                    start,
                    clock.now as nat,
                ) {
                    Some(error) => Err(error),
                    None => Ok(StoreStartResultView::Created),
                },
                Err(error) => answer == Err::<StoreStartResultView, ErrorView>(error),
            }
        }),
{
    let named = store.runs[start.run_id].start;
    signatures_tell_starts_apart(named.input, named.entries, start.input, start.entries);
    if start.client_run_key is Some {
        let found = store.keyed_run(start.scope, start.session_id, start.client_run_key->0);
        if found is Some {
            let keyed = store.runs[found->0].start;
            signatures_tell_starts_apart(keyed.input, keyed.entries, start.input, start.entries);
        }
    }
}

} // verus!
