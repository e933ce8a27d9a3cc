//! Every operation of a run store keeps what holds of every store.

use vstd::prelude::*;

use crate::error::ErrorView;
use crate::model::{
    commit_refusal, committed_event_refusal, effect_refusal, effects_refusal, ends, ends_early,
    entries_sound, first_failure, has_entry, place_refusal, sequence_refusal, top_place,
    with_effect, with_effects, with_entries, with_entry, with_items, Clock, EntryOrigin, Keyed,
    RunView, ScopedEntryView,
};
use crate::op::{EffectUpdateView, EffectView, EntryWriteView, ItemView, ItemWriteView};
use crate::store::{
    last_place, LeaseView, RunCommitView, RunEvent, RunFinishRecordView, RunStartView, RunStatus,
};
use crate::store_view::StoreView;

verus! {

/// Where none of the checks fails, each passes.
pub proof fn lemma_no_failure(n: nat, check: spec_fn(int) -> Option<ErrorView>)
    requires
        first_failure(n, check) is None,
    ensures
        forall|i: int| 0 <= i < n ==> (#[trigger] check(i)) is None,
    decreases n,
{
    if n > 0 {
        lemma_no_failure((n - 1) as nat, check);
    }
}

/// Where each check passes, none fails.
pub proof fn lemma_all_pass(n: nat, check: spec_fn(int) -> Option<ErrorView>)
    requires
        forall|i: int| 0 <= i < n ==> (#[trigger] check(i)) is None,
    ensures
        first_failure(n, check) is None,
    decreases n,
{
    if n > 0 {
        lemma_all_pass((n - 1) as nat, check);
        assert(check(n - 1) is None);
    }
}

/// Events that pass the check on their places follow those of the run in order.
pub proof fn lemma_sequence<E: RunEvent>(before: Seq<E>, events: Seq<E>, n: nat)
    requires
        n <= events.len(),
        sequence_refusal(before, events) is None,
        forall|i: int| 0 <= i < before.len() ==> (#[trigger] before[i]).place() > 0,
        forall|i: int, j: int|
            0 <= i < j < before.len() ==> (#[trigger] before[i]).place() < (
            #[trigger] before[j]).place(),
    ensures
        ({
            let all = before + events.take(n as int);
            &&& forall|i: int| 0 <= i < all.len() ==> (#[trigger] all[i]).place() > 0
            &&& forall|i: int, j: int|
                0 <= i < j < all.len() ==> (#[trigger] all[i]).place() < (#[trigger] all[j]).place()
        }),
    decreases n,
{
    let all = before + events.take(n as int);
    if n == 0 {
        assert(all =~= before);
    } else {
        let m = n - 1;
        lemma_sequence(before, events, m as nat);
        let check = |i: int|
            place_refusal(last_place(before + events.take(i)), events[i].place());
        lemma_no_failure(events.len(), check);
        assert(check(m) is None);
        let front = before + events.take(m);
        assert(all =~= front.push(events[m]));
        assert forall|i: int, j: int| 0 <= i < j < all.len() implies (#[trigger] all[i]).place() < (
        #[trigger] all[j]).place() by {
            assert(all[i] == front[i]);
            if j < front.len() {
                assert(all[j] == front[j]);
            } else if i < front.len() - 1 {
                assert(front[i].place() < front[front.len() - 1].place());
            }
        }
    }
}

impl<E: RunEvent, D> StoreView<E, D> {
    /// Replacing a run by one that started alike keeps the invariant, where the run stays sound,
    /// keeps its lease and does not begin to run again.
    pub proof fn lemma_updated(self, id: Seq<char>, run: RunView<E, D>)
        requires
            self.inv(),
            self.runs.contains_key(id),
            run.start == self.runs[id].start,
            run.sound(),
            run.lease == self.runs[id].lease,
            run.status is Running ==> self.runs[id].status is Running,
            run.lease is Some ==> run.status is Running,
        ensures
            self.with_updated(id, run).inv(),
    {
        let next = self.with_updated(id, run);
        assert forall|a: Seq<char>, thread: Seq<char>| #[trigger]
            next.running_on(a, thread) implies self.running_on(a, thread) by {}
        assert(next.runs_named());
        assert(next.runs_sound());
        assert(next.one_per_thread());
        assert(next.leases_agree());
        assert(next.keys_sound());
    }

    /// Ending a run that goes on keeps the invariant, where its thread is given back.
    pub proof fn lemma_ended(self, id: Seq<char>, run: RunView<E, D>)
        requires
            self.inv(),
            self.runs.contains_key(id),
            self.runs[id].status is Running,
            run.start == self.runs[id].start,
            run.sound(),
            run.status.terminal(),
        ensures
            (StoreView {
                thread_leases: self.thread_leases.remove(run.start.thread_id),
                ..self.with_updated(id, run)
            }).inv(),
            self.runs[id].lease is None ==> self.thread_leases.remove(run.start.thread_id)
                == self.thread_leases,
    {
        let thread = run.start.thread_id;
        let next = StoreView {
            thread_leases: self.thread_leases.remove(thread),
            ..self.with_updated(id, run)
        };
        assert(self.running_on(id, thread));
        assert forall|a: Seq<char>, t: Seq<char>| #[trigger] next.running_on(a, t) implies a != id
            && self.running_on(a, t) by {}
        if self.thread_leases.contains_key(thread) {
            let held = self.thread_leases[thread];
            assert(self.running_on(held.run, thread));
            assert(held.run == id);
        } else {
            assert(self.thread_leases.remove(thread) =~= self.thread_leases);
        }
        assert forall|a: Seq<char>| #[trigger]
            next.runs.contains_key(a) && next.runs[a].lease is Some implies next.runs[a].status
            is Running && next.thread_leases.contains_key(next.runs[a].start.thread_id)
            && next.thread_leases[next.runs[a].start.thread_id].run == a by {
            assert(self.runs.contains_key(a));
            assert(a != id);
            if self.runs[a].start.thread_id == thread {
                assert(self.running_on(a, thread));
            }
        }
        assert forall|t: Seq<char>| #[trigger] next.thread_leases.contains_key(t) implies {
            let held = next.thread_leases[t];
            &&& next.runs.contains_key(held.run)
            &&& next.runs[held.run].start.thread_id == t
            &&& next.runs[held.run].lease == self.runs[held.run].lease
        } by {
            assert(self.thread_leases.contains_key(t));
            let held = self.thread_leases[t];
            if held.run == id {
                assert(t == thread);
            }
        }
        assert(next.leases_agree());
        assert(next.runs_named());
        assert(next.keys_sound());
    }
}

/// A run that goes on stays sound with more events that do not end it.
pub proof fn lemma_continued<E: RunEvent, D>(run: RunView<E, D>, events: Seq<E>)
    requires
        run.sound(),
        run.status is Running,
        sequence_refusal(run.events, events) is None,
        forall|i: int|
            0 <= i < events.len() ==> (#[trigger] events[i]).run() == run.start.run_id
                && events[i].session() == run.start.session_id,
        !ends(events),
    ensures
        (RunView { events: run.events + events, ..run }).sound(),
{
    lemma_sequence(run.events, events, events.len());
    assert(events.take(events.len() as int) =~= events);
    let all = run.events + events;
    assert forall|i: int| 0 <= i < all.len() implies !(#[trigger] all[i]).terminal() by {
        if i < run.events.len() {
            assert(!run.events[i].terminal());
        } else {
            assert(!events[i - run.events.len()].terminal());
        }
    }
    assert forall|i: int| 0 <= i < all.len() implies (#[trigger] all[i]).run() == run.start.run_id
        && all[i].session() == run.start.session_id by {
        if i < run.events.len() {
            assert(all[i] == run.events[i]);
        } else {
            assert(all[i] == events[i - run.events.len()]);
        }
    }
}

/// A run that goes on is sound when it ends with events of which the last ends it.
pub proof fn lemma_finished<E: RunEvent, D>(
    run: RunView<E, D>,
    status: RunStatus,
    reason: Seq<char>,
    data: D,
    events: Seq<E>,
)
    requires
        run.sound(),
        run.status is Running,
        status.terminal(),
        sequence_refusal(run.events, events) is None,
        events.len() > 0,
        events.last().terminal(),
        !ends_early(events),
        forall|i: int|
            0 <= i < events.len() ==> (#[trigger] events[i]).run() == run.start.run_id
                && events[i].session() == run.start.session_id,
    ensures
        run.ended(status, reason, data, events).sound(),
{
    lemma_sequence(run.events, events, events.len());
    assert(events.take(events.len() as int) =~= events);
    let all = run.events + events;
    assert(all.last() == events.last());
    assert forall|i: int| 0 <= i < all.len() - 1 implies !(#[trigger] all[i]).terminal() by {
        if i < run.events.len() {
            assert(!run.events[i].terminal());
        } else {
            assert(!events[i - run.events.len()].terminal());
        }
    }
    assert forall|i: int| 0 <= i < all.len() implies (#[trigger] all[i]).run() == run.start.run_id
        && all[i].session() == run.start.session_id by {
        if i < run.events.len() {
            assert(all[i] == run.events[i]);
        } else {
            assert(all[i] == events[i - run.events.len()]);
        }
    }
}

/// The last place of a session is no smaller than the place of any of its entries.
pub proof fn lemma_top_place(entries: Seq<ScopedEntryView>, scope: Seq<char>, session: Seq<char>)
    ensures
        top_place(entries, scope, session) >= 0,
        forall|i: int|
            0 <= i < entries.len() && (#[trigger] entries[i]).within(scope, session)
                ==> entries[i].entry.seq <= top_place(entries, scope, session),
    decreases entries.len(),
{
    if entries.len() > 0 {
        let front = entries.drop_last();
        lemma_top_place(front, scope, session);
        assert forall|i: int|
            0 <= i < entries.len() && (#[trigger] entries[i]).within(
                scope,
                session,
            ) implies entries[i].entry.seq <= top_place(entries, scope, session) by {
            if i < front.len() {
                assert(front[i] == entries[i]);
            }
        }
    }
}

/// Recording an entry keeps the entries sound.
pub proof fn lemma_with_entry(
    entries: Seq<ScopedEntryView>,
    origin: EntryOrigin,
    write: EntryWriteView,
)
    requires
        entries_sound(entries),
    ensures
        entries_sound(with_entry(entries, origin, write)),
        with_entry(entries, origin, write).len() <= entries.len() + 1,
{
    let next = with_entry(entries, origin, write);
    if !has_entry(entries, origin.scope, origin.session_id, write.key) {
        lemma_top_place(entries, origin.scope, origin.session_id);
        let last = entries.len() as int;
        assert forall|i: int, j: int|
            0 <= i < j < next.len() && (#[trigger] next[i]).within(
                (#[trigger] next[j]).scope,
                next[j].entry.session_id,
            ) implies next[i].entry.key != next[j].entry.key && next[i].entry.seq
            < next[j].entry.seq by {
            assert(next[i] == entries[i]);
            if j < last {
                assert(next[j] == entries[j]);
            } else {
                assert(!entries[i].under(origin.scope, origin.session_id, write.key));
            }
        }
        assert forall|i: int| 0 <= i < next.len() implies (#[trigger] next[i]).entry.seq > 0 by {
            if i < last {
                assert(next[i] == entries[i]);
            }
        }
    }
}

/// Recording entries keeps the entries sound.
pub proof fn lemma_with_entries(
    entries: Seq<ScopedEntryView>,
    origin: EntryOrigin,
    writes: Seq<EntryWriteView>,
)
    requires
        entries_sound(entries),
    ensures
        entries_sound(with_entries(entries, origin, writes)),
        with_entries(entries, origin, writes).len() <= entries.len() + writes.len(),
    decreases writes.len(),
{
    if writes.len() > 0 {
        lemma_with_entries(entries, origin, writes.drop_last());
        lemma_with_entry(
            with_entries(entries, origin, writes.drop_last()),
            origin,
            writes.last(),
        );
    }
}

/// Each effect lies under its own run and key.
pub open spec fn effects_sound(effects: Keyed<EffectView>) -> bool {
    forall|run: Seq<char>, key: Seq<char>| #[trigger]
        effects.contains_key((run, key)) ==> effects[(run, key)].run_id == run
            && effects[(run, key)].key == key
}

/// Each item lies under its own run and key.
pub open spec fn items_sound(items: Keyed<ItemView>) -> bool {
    forall|run: Seq<char>, key: Seq<char>| #[trigger]
        items.contains_key((run, key)) ==> items[(run, key)].run_id == run && items[(run, key)].key
            == key
}

/// Updating effects that are there keeps each under its own run and key, and adds none.
pub proof fn lemma_with_effects(
    effects: Keyed<EffectView>,
    run: Seq<char>,
    updates: Seq<EffectUpdateView>,
    at: int,
)
    requires
        effects_sound(effects),
        forall|i: int|
            0 <= i < updates.len() ==> effects.contains_key((run, (#[trigger] updates[i]).key)),
    ensures
        effects_sound(with_effects(effects, run, updates, at)),
        with_effects(effects, run, updates, at).dom() == effects.dom(),
    decreases updates.len(),
{
    if updates.len() > 0 {
        let front = updates.drop_last();
        assert forall|i: int| 0 <= i < front.len() implies effects.contains_key(
            (run, (#[trigger] front[i]).key),
        ) by {
            assert(front[i] == updates[i]);
        }
        lemma_with_effects(effects, run, front, at);
        let before = with_effects(effects, run, front, at);
        let last = updates.last();
        assert(last == updates[updates.len() - 1]);
        assert(effects.contains_key((run, last.key)));
        assert(before.dom().contains((run, last.key)));
        assert(with_effect(before, run, last, at).dom() =~= before.dom());
    }
}

/// Recording items keeps each under its own run and key.
pub proof fn lemma_with_items(
    items: Keyed<ItemView>,
    run: Seq<char>,
    writes: Seq<ItemWriteView>,
    at: int,
)
    requires
        items_sound(items),
    ensures
        items_sound(with_items(items, run, writes, at)),
    decreases writes.len(),
{
    if writes.len() > 0 {
        lemma_with_items(items, run, writes.drop_last(), at);
    }
}

impl<E: RunEvent, D> StoreView<E, D> {
    /// A store that holds nothing is sound.
    pub proof fn empty_is_sound()
        ensures
            Self::empty().inv(),
    {
    }

    /// Adding a session keeps the invariant.
    pub proof fn with_session_keeps(self, session: Seq<char>, scope: Seq<char>)
        requires
            self.inv(),
        ensures
            self.with_session(session, scope).inv(),
    {
        let next = self.with_session(session, scope);
        assert forall|a: Seq<char>, t: Seq<char>| #[trigger] next.running_on(a, t) implies
            self.running_on(a, t) by {}
        assert(next.one_per_thread());
    }

    /// Starting a run keeps the invariant: among others, that no thread has two runs that go on.
    pub proof fn start_run_keeps(self, start: RunStartView, clock: Clock)
        requires
            self.inv(),
        ensures
            self.start_run(start, clock).0.inv(),
    {
        let store = self.with_session(start.session_id, start.scope);
        self.with_session_keeps(start.session_id, start.scope);
        let next = self.start_run(start, clock).0;
        if next != store {
            let id = start.run_id;
            let thread = start.thread_id;
            assert(!self.runs.contains_key(id));
            assert(!self.order.contains(id));
            assert(self.thread_refusal(thread, id) is None);
            assert forall|a: Seq<char>| !self.running_on(a, thread) by {
                if self.running_on(a, thread) {
                    assert(a != id);
                }
            }
            assert(!self.thread_leases.contains_key(thread)) by {
                if self.thread_leases.contains_key(thread) {
                    let held = self.thread_leases[thread];
                    assert(self.runs.contains_key(held.run));
                    assert(self.running_on(held.run, thread));
                }
            }
            assert forall|a: Seq<char>, t: Seq<char>| #[trigger]
                next.running_on(a, t) implies self.running_on(a, t) || (a == id && t == thread) by {}
            assert(next.runs_named()) by {
                assert(next.order =~= self.order.push(id));
                assert forall|run: Seq<char>| #[trigger]
                    next.runs.contains_key(run) <==> next.order.contains(run) by {
                    if self.order.contains(run) {
                        let i = self.order.index_of(run);
                        assert(next.order[i] == run);
                    }
                    assert(next.order[self.order.len() as int] == id);
                    if next.order.contains(run) && run != id {
                        let i = next.order.index_of(run);
                        assert(next.order[i] == run);
                        assert(self.order[i] == run);
                    }
                }
            }
            assert(next.runs_sound());
            assert(next.one_per_thread());
            assert(next.leases_agree());
            assert(next.keys_sound());
            lemma_with_entries(
                self.entries,
                EntryOrigin {
                    scope: start.scope,
                    run_id: id,
                    session_id: start.session_id,
                    thread_id: thread,
                    at: clock.wall_ms as int,
                },
                start.entries,
            );
            assert(next.entries_sound());
        }
    }

    /// Adding the session of a run does not change how its start is answered.
    pub proof fn lemma_start_alike(self, before: Self, start: RunStartView, clock: Clock)
        requires
            self == before.with_session(start.session_id, start.scope),
        ensures
            self.start_run(start, clock) == before.start_run(start, clock),
            self.runs == before.runs,
    {
        let now = clock.now as nat;
        assert(self.with_session(start.session_id, start.scope) == self);
        assert(self.start_refusal(start, now) == before.start_refusal(start, now));
    }

    /// Noting that a run was asked to stop keeps the invariant.
    pub proof fn mark_cancelled_keeps(self, run: Seq<char>, scope: Seq<char>)
        requires
            self.inv(),
        ensures
            self.mark_cancelled(run, scope).0.inv(),
    {
        if self.visible(run, scope) is Some {
            let found = self.runs[run];
            assert(found.sound());
            self.lemma_updated(run, RunView { cancel_requested: true, ..found });
        }
    }

    /// Recording an event keeps the invariant.
    pub proof fn record_event_keeps(self, run: Seq<char>, scope: Seq<char>, event: E)
        requires
            self.inv(),
        ensures
            self.record_event(run, scope, event).0.inv(),
    {
        if self.record_event(run, scope, event).1 == Ok::<bool, ErrorView>(true) {
            let found = self.runs[run];
            assert(found.sound());
            lemma_one(found.events, event);
            lemma_continued(found, seq![event]);
            assert(found.events + seq![event] =~= found.events.push(event));
            self.lemma_updated(run, RunView { events: found.events.push(event), ..found });
        }
    }

    /// Ending a run keeps the invariant.
    pub proof fn finish_run_keeps(self, finish: RunFinishRecordView<E, D>, clock: Clock)
        requires
            self.inv(),
        ensures
            self.finish_run(finish, clock).0.inv(),
    {
        let (next, result) = self.finish_run(finish, clock);
        if result is Ok && self.runs[finish.run_id].status is Running {
            let run = self.runs[finish.run_id];
            let event = finish.terminal_event;
            let ended = run.ended(finish.status, finish.finish_reason, finish.data, seq![event]);
            assert(run.sound());
            lemma_one(run.events, event);
            lemma_finished(run, finish.status, finish.finish_reason, finish.data, seq![event]);
            self.lemma_ended(finish.run_id, ended);
            let base = self.with_updated(finish.run_id, ended);
            assert(base.inv());
            lemma_with_entries(
                self.entries,
                EntryOrigin {
                    scope: finish.scope,
                    run_id: finish.run_id,
                    session_id: finish.session_id,
                    thread_id: run.start.thread_id,
                    at: clock.wall_ms as int,
                },
                finish.entries,
            );
            base.lemma_with_ops(next);
        }
    }

    /// A store with the runs, leases, keys, effects, items and entries of a sound one is sound.
    pub proof fn lemma_same_runs(self, other: Self)
        requires
            other.inv(),
            self.runs == other.runs,
            self.order == other.order,
            self.thread_leases == other.thread_leases,
            self.idempotency == other.idempotency,
            self.effects == other.effects,
            self.items == other.items,
            self.entries == other.entries,
        ensures
            self.inv(),
    {
        other.lemma_with_ops(self);
    }

    proof fn lemma_with_ops(self, next: Self)
        requires
            self.inv(),
            next.runs == self.runs,
            next.order == self.order,
            next.thread_leases == self.thread_leases,
            next.idempotency == self.idempotency,
            next.ops_sound(),
            next.entries_sound(),
        ensures
            next.inv(),
    {
        assert forall|a: Seq<char>, t: Seq<char>| #[trigger] next.running_on(a, t) implies
            self.running_on(a, t) by {}
        assert(next.one_per_thread());
    }

    /// Committing keeps the invariant.
    pub proof fn commit_run_keeps(self, commit: RunCommitView<E, D>, clock: Clock)
        requires
            self.inv(),
        ensures
            self.commit_run(commit, clock).0.inv(),
    {
        let (next, result) = self.commit_run(commit, clock);
        let run = self.runs[commit.run_id];
        let now = clock.now as nat;
        if commit_refusal(commit) is None && self.runs.contains_key(commit.run_id)
            && run.start.scope == commit.scope && run.start.session_id == commit.session_id
            && run.status is Running && self.write_refusal(run, commit, now) is None {
            assert(run.sound());
            lemma_commit(commit);
            assert(run.start.run_id == commit.run_id);
            let at = clock.wall_ms as int;
            let base = match commit.finish {
                Some(finish) => {
                    let ended = run.ended(
                        finish.status,
                        finish.finish_reason,
                        finish.data,
                        commit.events,
                    );
                    lemma_finished(
                        run,
                        finish.status,
                        finish.finish_reason,
                        finish.data,
                        commit.events,
                    );
                    self.lemma_ended(commit.run_id, ended);
                    StoreView {
                        thread_leases: self.thread_leases.remove(run.start.thread_id),
                        ..self.with_updated(commit.run_id, ended)
                    }
                },
                None => {
                    let continued = RunView { events: run.events + commit.events, ..run };
                    lemma_continued(run, commit.events);
                    self.lemma_updated(commit.run_id, continued);
                    self.with_updated(commit.run_id, continued)
                },
            };
            assert(base.inv());
            lemma_effects_there(self.effects, commit.run_id, commit.effects);
            lemma_with_effects(self.effects, commit.run_id, commit.effects, at);
            lemma_with_items(self.items, commit.run_id, commit.items, at);
            lemma_with_entries(
                self.entries,
                EntryOrigin {
                    scope: commit.scope,
                    run_id: commit.run_id,
                    session_id: commit.session_id,
                    thread_id: run.start.thread_id,
                    at,
                },
                commit.entries,
            );
            base.lemma_with_ops(next);
        }
    }

    /// Announcing an effect keeps the invariant.
    pub proof fn reserve_effect_keeps(
        self,
        run: Seq<char>,
        scope: Seq<char>,
        lease: Option<Seq<char>>,
        key: Seq<char>,
        kind: Seq<char>,
        request: Seq<char>,
        clock: Clock,
    )
        requires
            self.inv(),
        ensures
            self.reserve_effect(run, scope, lease, key, kind, request, clock).0.inv(),
    {
        self.lemma_with_ops(self.reserve_effect(run, scope, lease, key, kind, request, clock).0);
    }

    /// Starting an effect keeps the invariant.
    pub proof fn start_effect_keeps(
        self,
        run: Seq<char>,
        scope: Seq<char>,
        lease: Option<Seq<char>>,
        key: Seq<char>,
        clock: Clock,
    )
        requires
            self.inv(),
        ensures
            self.start_effect(run, scope, lease, key, clock).0.inv(),
    {
        self.lemma_with_ops(self.start_effect(run, scope, lease, key, clock).0);
    }

    /// Recording an entry keeps the invariant.
    pub proof fn record_entry_keeps(
        self,
        run: Seq<char>,
        scope: Seq<char>,
        lease: Option<Seq<char>>,
        write: EntryWriteView,
        clock: Clock,
    )
        requires
            self.inv(),
        ensures
            self.record_entry(run, scope, lease, write, clock).0.inv(),
    {
        let start = self.runs[run].start;
        lemma_with_entry(
            self.entries,
            EntryOrigin {
                scope,
                run_id: run,
                session_id: start.session_id,
                thread_id: start.thread_id,
                at: clock.wall_ms as int,
            },
            write,
        );
        self.lemma_with_ops(self.record_entry(run, scope, lease, write, clock).0);
    }

    /// Renewing a lease keeps the invariant.
    pub proof fn renew_keeps(self, lease: LeaseView, ttl: nat, now: nat)
        requires
            self.inv(),
        ensures
            self.renew(lease, ttl, now).0.inv(),
    {
        if self.leased(lease, now) {
            let next = self.renew(lease, ttl, now).0;
            assert(self.runs[lease.run].sound());
            assert forall|a: Seq<char>, t: Seq<char>| #[trigger]
                next.running_on(a, t) implies self.running_on(a, t) by {}
            assert(next.runs_named());
            assert(next.runs_sound());
            assert(next.one_per_thread());
            assert(next.leases_agree());
            assert(next.keys_sound());
        }
    }

    /// Giving a lease back keeps the invariant.
    pub proof fn release_keeps(self, lease: LeaseView)
        requires
            self.inv(),
        ensures
            self.release(lease).inv(),
    {
        let next = self.release(lease);
        if self.runs.contains_key(lease.run) {
            assert(self.runs[lease.run].sound());
            assert forall|a: Seq<char>, t: Seq<char>| #[trigger]
                next.running_on(a, t) implies self.running_on(a, t) by {}
            assert(next.runs_named());
            assert(next.runs_sound());
            assert(next.one_per_thread());
            assert(next.leases_agree());
            assert(next.keys_sound());
        }
    }

    /// The runs to end are there, go on, and are named once each.
    pub proof fn lemma_stale(self, limit: nat, now: nat)
        requires
            self.inv(),
        ensures
            self.stale(limit, now).no_duplicates(),
            self.stale(limit, now).len() <= limit,
            forall|i: int|
                0 <= i < self.stale(limit, now).len() ==> self.runs.contains_key(
                    #[trigger] self.stale(limit, now)[i],
                ) && self.runs[self.stale(limit, now)[i]].expired(now),
    {
        let expired = |run: Seq<char>| self.runs[run].expired(now);
        let all = self.order.filter(expired);
        lemma_filter_no_duplicates(self.order, expired);
        assert forall|i: int| 0 <= i < all.len() implies self.runs.contains_key(#[trigger] all[i])
            && self.runs[all[i]].expired(now) by {
            assert(all.contains(all[i]));
            lemma_filter_contains(self.order, expired, all[i]);
        }
    }

    /// Ending runs whose lease has run out keeps the invariant, and leaves the others as they were.
    pub proof fn reap_first_keeps(self, stale: Seq<Seq<char>>, n: nat, ends: Seq<(E, D)>, now: nat)
        requires
            self.inv(),
            n <= stale.len(),
            stale.no_duplicates(),
            forall|i: int|
                0 <= i < stale.len() ==> self.runs.contains_key(#[trigger] stale[i])
                    && self.runs[stale[i]].expired(now),
        ensures
            self.reap_first(stale, n, ends).0.inv(),
            self.reap_first(stale, n, ends).0.order == self.order,
            forall|i: int|
                n <= i < stale.len() ==> self.reap_first(stale, n, ends).0.runs.contains_key(
                    #[trigger] stale[i],
                ) && self.reap_first(stale, n, ends).0.runs[stale[i]] == self.runs[stale[i]],
        decreases n,
    {
        if n > 0 {
            let m = (n - 1) as nat;
            self.reap_first_keeps(stale, m, ends, now);
            let (store, result) = self.reap_first(stale, m, ends);
            let id = stale[n - 1];
            let run = store.runs[id];
            let (event, data) = ends[n - 1];
            if result is Ok && Self::reap_refusal(run, event) is None {
                assert(run.sound());
                lemma_one(run.events, event);
                lemma_finished(run, RunStatus::Error, "lease_expired"@, data, seq![event]);
                store.lemma_ended(
                    id,
                    run.ended(RunStatus::Error, "lease_expired"@, data, seq![event]),
                );
            }
        }
    }
}

/// What a filter keeps occurs once where it did before.
pub proof fn lemma_filter_no_duplicates<A>(s: Seq<A>, keep: spec_fn(A) -> bool)
    requires
        s.no_duplicates(),
    ensures
        s.filter(keep).no_duplicates(),
    decreases s.len(),
{
    reveal(Seq::filter);
    if s.len() > 0 {
        let front = s.drop_last();
        lemma_filter_no_duplicates(front, keep);
        if front.filter(keep).contains(s.last()) {
            lemma_filter_contains(front, keep, s.last());
            let i = front.index_of(s.last());
            assert(s[i] == s.last());
        }
    }
}

/// What a filter keeps was there and passes.
pub proof fn lemma_filter_contains<A>(s: Seq<A>, keep: spec_fn(A) -> bool, a: A)
    ensures
        s.filter(keep).contains(a) <==> s.contains(a) && keep(a),
    decreases s.len(),
{
    reveal(Seq::filter);
    if s.len() > 0 {
        let front = s.drop_last();
        lemma_filter_contains(front, keep, a);
        assert(s =~= front.push(s.last()));
        if front.contains(a) {
            let i = front.index_of(a);
            assert(s[i] == a);
        }
        if s.contains(a) && a != s.last() {
            let i = s.index_of(a);
            assert(front[i] == a);
        }
        let kept = s.filter(keep);
        if keep(s.last()) {
            assert(kept == front.filter(keep).push(s.last()));
            assert(kept[kept.len() - 1] == s.last());
            if front.filter(keep).contains(a) {
                let i = front.filter(keep).index_of(a);
                assert(kept[i] == a);
            }
            if kept.contains(a) && a != s.last() {
                let i = kept.index_of(a);
                assert(front.filter(keep)[i] == a);
            }
            assert(s[s.len() - 1] == s.last());
        }
    }
}

/// One event that may follow a run's events may follow them as a sequence of one.
proof fn lemma_one<E: RunEvent>(before: Seq<E>, event: E)
    ensures
        place_refusal(last_place(before), event.place()) is None ==> sequence_refusal(
            before,
            seq![event],
        ) is None,
        !ends_early(seq![event]),
        !event.terminal() ==> !ends(seq![event]),
        before.len() > 0 && event.place() == before.last().place() + 1 && before.last().place() > 0
            ==> place_refusal(last_place(before), event.place()) is None,
        before.len() == 0 && event.place() == 1 ==> place_refusal(last_place(before), event.place())
            is None,
{
    let events = seq![event];
    let check = |i: int| place_refusal(last_place(before + events.take(i)), events[i].place());
    assert(before + events.take(0) =~= before);
    assert(first_failure(0, check) is None);
    assert(first_failure(1, check) == check(0));
}

/// A commit that is not refused holds events of its own run, of which only the last may end it.
proof fn lemma_commit<E: RunEvent, D>(commit: RunCommitView<E, D>)
    requires
        commit_refusal(commit) is None,
    ensures
        forall|i: int|
            0 <= i < commit.events.len() ==> (#[trigger] commit.events[i]).run() == commit.run_id
                && commit.events[i].session() == commit.session_id,
{
    let check = |i: int|
        committed_event_refusal(commit.run_id, commit.session_id, commit.events[i]);
    lemma_no_failure(commit.events.len(), check);
    assert forall|i: int| 0 <= i < commit.events.len() implies (#[trigger] commit.events[i]).run()
        == commit.run_id && commit.events[i].session() == commit.session_id by {
        assert(check(i) is None);
    }
}

/// Updates that are not refused are of effects that are there.
pub proof fn lemma_effects_there(
    effects: Keyed<EffectView>,
    run: Seq<char>,
    updates: Seq<EffectUpdateView>,
)
    requires
        effects_refusal(effects, run, updates) is None,
    ensures
        forall|i: int|
            0 <= i < updates.len() ==> effects.contains_key((run, (#[trigger] updates[i]).key)),
{
    let check = |i: int| effect_refusal(effects, run, updates, i);
    lemma_no_failure(updates.len(), check);
    assert forall|i: int| 0 <= i < updates.len() implies effects.contains_key(
        (run, (#[trigger] updates[i]).key),
    ) by {
        assert(check(i) is None);
    }
}

} // verus!
