//! What a run store promises as a whole.

use vstd::prelude::*;

use crate::error::ErrorView;
use crate::model::{
    commit_refusal, entries_refusal, entries_sound, entry_refusal, has_entry, with_entries,
    with_entry, Clock, EntryOrigin, RunView, ScopedEntryView,
};
use crate::op::{EffectView, EntryQueryView, EntryWriteView, PageView};
use crate::store::{
    FinishRunResult, LeaseView, RunCommitResultView, RunCommitView, RunEvent, RunFinishRecordView,
    RunStartView, StoreStartResultView,
};
use crate::store_laws::{
    lemma_all_pass, lemma_filter_contains, lemma_filter_no_duplicates, lemma_no_failure,
};
use crate::store_view::{other_run, running_on, StoreView};

verus! {

/// Events in order, each once.
pub open spec fn in_order<E: RunEvent>(events: Seq<E>) -> bool {
    forall|i: int, j: int|
        0 <= i < j < events.len() ==> (#[trigger] events[i]).place() < (#[trigger] events[j]).place()
}

proof fn lemma_filter_in_order<E: RunEvent>(events: Seq<E>, keep: spec_fn(E) -> bool)
    requires
        in_order(events),
    ensures
        in_order(events.filter(keep)),
    decreases events.len(),
{
    reveal(Seq::filter);
    if events.len() > 0 {
        let front = events.drop_last();
        lemma_filter_in_order(front, keep);
        let kept = front.filter(keep);
        assert forall|i: int| 0 <= i < kept.len() implies (#[trigger] kept[i]).place()
            < events.last().place() by {
            assert(kept.contains(kept[i]));
            lemma_filter_contains(front, keep, kept[i]);
            let j = front.index_of(kept[i]);
            assert(events[j] == kept[i]);
        }
    }
}

proof fn lemma_filter_again<E: RunEvent>(events: Seq<E>, first: int, second: int)
    requires
        first <= second,
    ensures
        events.filter(|e: E| e.place() > first).filter(|e: E| e.place() > second) == events.filter(
            |e: E| e.place() > second,
        ),
    decreases events.len(),
{
    reveal(Seq::filter);
    if events.len() > 0 {
        let front = events.drop_last();
        lemma_filter_again(front, first, second);
        let a = |e: E| e.place() > first;
        let b = |e: E| e.place() > second;
        if events.last().place() > first {
            assert(front.filter(a).push(events.last()).drop_last() =~= front.filter(a));
        }
    }
}

proof fn lemma_filter_after<E: RunEvent>(events: Seq<E>, i: int)
    requires
        in_order(events),
        0 <= i < events.len(),
    ensures
        events.filter(|e: E| e.place() > events[i].place()) == events.skip(i + 1),
    decreases events.len(),
{
    reveal(Seq::filter);
    let front = events.drop_last();
    let keep = |e: E| e.place() > events[i].place();
    if i == events.len() - 1 {
        assert forall|e: E| !(#[trigger] front.filter(keep).contains(e)) by {
            lemma_filter_contains(front, keep, e);
            if front.contains(e) {
                let j = front.index_of(e);
                assert(events[j] == e);
            }
        }
        if front.filter(keep).len() > 0 {
            assert(front.filter(keep).contains(front.filter(keep)[0]));
        }
        assert(events.filter(keep) =~= events.skip(i + 1));
    } else {
        assert(front[i] == events[i]);
        lemma_filter_after(front, i);
        assert(events.skip(i + 1) =~= front.skip(i + 1).push(events.last()));
    }
}

impl<E: RunEvent, D> StoreView<E, D> {
    /// A commit is whole: where it is refused or skipped, the store stays as it was.
    pub proof fn commit_is_whole(self, commit: RunCommitView<E, D>, clock: Clock)
        ensures
            ({
                let (after, result) = self.commit_run(commit, clock);
                result is Err || result == Ok::<RunCommitResultView<E>, ErrorView>(
                    RunCommitResultView::Skipped,
                ) ==> after == self
            }),
    {
    }

    /// What a commit recorded can be read back: its events come after those before, and its
    /// checkpoint is the thread's.
    pub proof fn commit_reads_back(self, commit: RunCommitView<E, D>, clock: Clock)
        requires
            self.inv(),
            commit_refusal(commit) is None,
            self.visible(commit.run_id, commit.scope) matches Some(run) && run.status is Running,
            self.commit_run(commit, clock).1 is Ok,
        ensures
            ({
                let after = self.commit_run(commit, clock).0;
                &&& after.events_after(commit.run_id, commit.scope, 0) == self.events_after(
                    commit.run_id,
                    commit.scope,
                    0,
                ) + commit.events
                &&& commit.checkpoint matches Some(checkpoint) ==> after.checkpoints.contains_key(
                    checkpoint.thread_id,
                ) && after.checkpoints[checkpoint.thread_id] == checkpoint.record
                &&& commit.finish is None ==> after.lookup_run(commit.run_id, commit.scope)
                    == self.lookup_run(commit.run_id, commit.scope)
                &&& commit.finish matches Some(finish) ==> after.lookup_run(
                    commit.run_id,
                    commit.scope,
                ) matches Some(lookup) && lookup.status == finish.status && lookup.finish_reason
                    == Some(finish.finish_reason) && lookup.owner is None && after.terminal_event(
                    commit.run_id,
                    commit.scope,
                ) == Some(commit.events.last())
            }),
    {
        let run = self.runs[commit.run_id];
        let after = self.commit_run(commit, clock).0;
        self.commit_run_keeps(commit, clock);
        assert(after.runs[commit.run_id].sound());
        assert(run.sound());
        assert(after.runs[commit.run_id].events == run.events + commit.events);
        lemma_all_after_start(run);
        lemma_all_after_start(after.runs[commit.run_id]);
    }

    /// A run ends once: after that nothing changes it, and a finish is answered with the event
    /// that ended it.
    pub proof fn ends_once(
        self,
        commit: RunCommitView<E, D>,
        finish: RunFinishRecordView<E, D>,
        scope: Seq<char>,
        event: E,
        clock: Clock,
    )
        requires
            self.inv(),
            self.runs.contains_key(commit.run_id),
            self.runs[commit.run_id].status.terminal(),
            finish.run_id == commit.run_id,
        ensures
            self.commit_run(commit, clock).0 == self,
            self.finish_run(finish, clock).0 == self,
            self.record_event(commit.run_id, scope, event).0 == self,
            commit.finish is Some && self.commit_run(commit, clock).1 is Ok ==> self.commit_run(
                commit,
                clock,
            ).1->Ok_0 == (RunCommitResultView::Finished {
                events: seq![self.runs[commit.run_id].events.last()],
                result: FinishRunResult::AlreadyFinished(self.runs[commit.run_id].events.last()),
            }),
            self.finish_run(finish, clock).1 matches Ok(result) ==> result
                == FinishRunResult::<E>::AlreadyFinished(self.runs[commit.run_id].events.last()),
    {
        assert(self.runs[commit.run_id].sound());
    }

    /// A run that has ended has exactly one event that ends it, its last.
    pub proof fn one_terminal_event(self, run: Seq<char>, i: int)
        requires
            self.inv(),
            self.runs.contains_key(run),
            0 <= i < self.runs[run].events.len(),
        ensures
            self.runs[run].events[i].terminal() <==> self.runs[run].status.terminal() && i
                == self.runs[run].events.len() - 1,
    {
        assert(self.runs[run].sound());
    }

    /// At most one run goes on on a thread.
    pub proof fn one_run_per_thread(self, a: Seq<char>, b: Seq<char>)
        requires
            self.inv(),
            self.runs.contains_key(a),
            self.runs.contains_key(b),
            self.runs[a].status is Running,
            self.runs[b].status is Running,
            self.runs[a].start.thread_id == self.runs[b].start.thread_id,
        ensures
            a == b,
    {
        assert(self.running_on(a, self.runs[a].start.thread_id));
        assert(self.running_on(b, self.runs[a].start.thread_id));
    }

    /// While a run goes on, no other run can be started on its thread.
    pub proof fn busy_thread_refuses(self, run: Seq<char>, start: RunStartView, clock: Clock)
        requires
            self.inv(),
            self.running_on(run, start.thread_id),
            !self.runs.contains_key(start.run_id),
            start.client_run_key matches Some(key) ==> self.keyed_run(
                start.scope,
                start.session_id,
                key,
            ) is None,
        ensures
            self.start_run(start, clock).1 == Err::<StoreStartResultView, ErrorView>(
                ErrorView::ThreadBusy { owner: self.runs[run].owner(), run: Some(run) },
            ),
            self.start_run(start, clock).0.runs == self.runs,
    {
        assert(run != start.run_id);
        let other = other_run(self.runs, start.thread_id, start.run_id)->0;
        assert(self.running_on(other, start.thread_id));
    }

    /// Starting a run again, with the same input and entries, changes no run and is answered with
    /// the run as it is, whatever happened to it since.
    pub proof fn start_is_idempotent(self, start: RunStartView, clock: Clock)
        requires
            self.inv(),
            self.runs.contains_key(start.run_id),
            self.started_alike(start.run_id, start),
        ensures
            self.start_run(start, clock).1 == Ok::<StoreStartResultView, ErrorView>(
                StoreStartResultView::Existing(self.runs[start.run_id].lookup()),
            ),
            self.start_run(start, clock).0 == self.with_session(start.session_id, start.scope),
    {
    }

    /// A started run can be looked up, and starting it once more finds it.
    pub proof fn start_reads_back(self, start: RunStartView, clock: Clock, later: Clock)
        requires
            self.inv(),
            self.start_run(start, clock).1 == Ok::<StoreStartResultView, ErrorView>(
                StoreStartResultView::Created,
            ),
        ensures
            ({
                let after = self.start_run(start, clock).0;
                &&& after.lookup_run(start.run_id, start.scope) matches Some(lookup)
                    && lookup.run_id == start.run_id && lookup.session_id == start.session_id
                    && lookup.thread_id == start.thread_id && lookup.status is Running
                &&& after.start_run(start, later) == (
                    after,
                    Ok::<StoreStartResultView, ErrorView>(
                        StoreStartResultView::Existing(after.runs[start.run_id].lookup()),
                    ),
                )
                &&& start.client_run_key matches Some(key) ==> after.find_idempotent_run(
                    start.scope,
                    start.session_id,
                    key,
                ) == Some(after.runs[start.run_id].lookup())
            }),
    {
        self.start_run_keeps(start, clock);
    }

    /// A run started under a client's key is started once: another start under the key is answered
    /// with the first run, or refused where it asks for something else.
    pub proof fn client_key_starts_once(self, start: RunStartView, clock: Clock)
        requires
            self.inv(),
            !self.runs.contains_key(start.run_id),
            start.client_run_key matches Some(key) && self.keyed_run(
                start.scope,
                start.session_id,
                key,
            ) is Some,
        ensures
            ({
                let run = self.keyed_run(start.scope, start.session_id, start.client_run_key->0)->0;
                &&& self.start_run(start, clock).0.runs == self.runs
                &&& self.start_run(start, clock).1 == if self.started_alike(run, start) {
                    Ok(StoreStartResultView::Existing(self.runs[run].lookup()))
                } else {
                    Err(ErrorView::StartConflict)
                }
            }),
    {
    }

    /// A run is invisible from other scopes, and nothing written from there changes it.
    pub proof fn scopes_are_apart(
        self,
        run: Seq<char>,
        scope: Seq<char>,
        commit: RunCommitView<E, D>,
        finish: RunFinishRecordView<E, D>,
        event: E,
        after: int,
        clock: Clock,
    )
        requires
            self.inv(),
            self.runs.contains_key(run),
            self.runs[run].start.scope != scope,
            commit.run_id == run,
            commit.scope == scope,
            finish.run_id == run,
            finish.scope == scope,
        ensures
            self.lookup_run(run, scope) is None,
            self.terminal_event(run, scope) is None,
            self.events_after(run, scope, after) == Seq::<E>::empty(),
            self.commit_run(commit, clock).1 is Err,
            self.commit_run(commit, clock).0 == self,
            self.finish_run(finish, clock).1 is Err,
            self.finish_run(finish, clock).0 == self,
            !(self.record_event(run, scope, event).1 is Ok),
            self.record_event(run, scope, event).0 == self,
            self.mark_cancelled(run, scope).1 is Err,
            self.mark_cancelled(run, scope).0 == self,
    {
    }

    /// Only the holder of a run's lease can write it, and only in time.
    pub proof fn lease_fences(self, commit: RunCommitView<E, D>, clock: Clock)
        requires
            self.inv(),
            commit_refusal(commit) is None,
            self.visible(commit.run_id, commit.scope) matches Some(run) && run.status is Running
                && run.start.session_id == commit.session_id && !run.held(
                commit.lease,
                clock.now as nat,
            ),
        ensures
            self.commit_run(commit, clock) == (
                self,
                Err::<RunCommitResultView<E>, ErrorView>(ErrorView::LeaseLost),
            ),
    {
    }

    /// A run under a lease is ended or written without the lease by nobody.
    pub proof fn lease_guards(
        self,
        finish: RunFinishRecordView<E, D>,
        scope: Seq<char>,
        event: E,
        clock: Clock,
    )
        requires
            self.inv(),
            self.runs.contains_key(finish.run_id),
            self.runs[finish.run_id].lease is Some,
        ensures
            self.finish_run(finish, clock).0 == self,
            self.finish_run(finish, clock).1 is Err,
            self.record_event(finish.run_id, scope, event).0 == self,
            self.record_event(finish.run_id, scope, event).1 is Err,
    {
        assert(self.runs[finish.run_id].sound());
    }

    /// A lease that was renewed holds until the new time, and no longer.
    pub proof fn renewal_holds(self, lease: LeaseView, ttl: nat, now: nat, later: nat)
        requires
            self.inv(),
            self.renew(lease, ttl, now).1,
        ensures
            self.renew(lease, ttl, now).0.leased(lease, later) <==> later < now + ttl,
    {
    }

    /// A lease that was given back is not held any more, and its thread can be claimed.
    pub proof fn release_frees(self, lease: LeaseView, now: nat)
        requires
            self.inv(),
            self.leased(lease, now),
        ensures
            ({
                let after = self.release(lease);
                &&& !after.leased(lease, now)
                &&& after.claim_refusal(self.runs[lease.run].start.thread_id, now) is None
                &&& after.runs[lease.run].status is Running
            }),
    {
    }

    /// A run whose lease has run out ends with an error, its thread is free, and its events before
    /// stay.
    pub proof fn reaping_frees(self, id: Seq<char>, event: E, data: D, now: nat)
        requires
            self.inv(),
            self.runs.contains_key(id),
            self.runs[id].expired(now),
            Self::reap_refusal(self.runs[id], event) is None,
        ensures
            ({
                let after = self.with_reaped(id, event, data);
                let thread = self.runs[id].start.thread_id;
                &&& after.runs[id].status is Error
                &&& after.runs[id].finish_reason == Some("lease_expired"@)
                &&& after.runs[id].lease is None
                &&& after.runs[id].events == self.runs[id].events.push(event)
                &&& forall|run: Seq<char>| !#[trigger] after.running_on(run, thread)
                &&& !after.thread_leases.contains_key(thread)
            }),
    {
        let after = self.with_reaped(id, event, data);
        let thread = self.runs[id].start.thread_id;
        assert(self.runs[id].events + seq![event] =~= self.runs[id].events.push(event));
        assert forall|run: Seq<char>| !#[trigger] after.running_on(run, thread) by {
            if after.running_on(run, thread) {
                assert(self.running_on(run, thread));
                assert(self.running_on(id, thread));
            }
        }
    }

    /// Runs whose lease has run out are ended once: after that they have ended for that reason, are
    /// not found again, and the other runs are as they were.
    pub proof fn reaping_happens_once(
        self,
        limit: nat,
        now: nat,
        ends: Seq<(E, D)>,
        next_limit: nat,
        later: nat,
    )
        requires
            self.inv(),
            self.reap_first(self.stale(limit, now), self.stale(limit, now).len(), ends).1 is Ok,
        ensures
            ({
                let stale = self.stale(limit, now);
                let after = self.reap_first(stale, stale.len(), ends).0;
                &&& forall|i: int|
                    0 <= i < stale.len() ==> after.runs[#[trigger] stale[i]].status is Error
                        && after.runs[stale[i]].finish_reason == Some("lease_expired"@)
                        && !after.stale(next_limit, later).contains(stale[i])
                &&& forall|run: Seq<char>|
                    !stale.contains(run) ==> #[trigger] after.runs[run] == self.runs[run]
            }),
    {
        let keep = |run: Seq<char>| self.runs[run].expired(now);
        let all = self.order.filter(keep);
        let stale = self.stale(limit, now);
        lemma_filter_no_duplicates(self.order, keep);
        assert forall|i: int| 0 <= i < stale.len() implies self.runs.contains_key(
            #[trigger] stale[i],
        ) && self.runs[stale[i]].expired(now) by {
            assert(all[i] == stale[i]);
            assert(all.contains(all[i]));
            lemma_filter_contains(self.order, keep, all[i]);
        }
        self.lemma_reaped(stale, stale.len(), ends, now);
        let after = self.reap_first(stale, stale.len(), ends).0;
        assert forall|i: int| 0 <= i < stale.len() implies !after.stale(
            next_limit,
            later,
        ).contains(#[trigger] stale[i]) by {
            let still = |run: Seq<char>| after.runs[run].expired(later);
            let found = after.stale(next_limit, later);
            if found.contains(stale[i]) {
                let j = found.index_of(stale[i]);
                let kept = after.order.filter(still);
                assert(kept[j] == stale[i]);
                assert(kept.contains(stale[i]));
                lemma_filter_contains(after.order, still, stale[i]);
            }
        }
    }

    /// Runs whose lease has run out, as a set.
    pub open spec fn expired_runs(self, now: nat) -> Set<Seq<char>> {
        Set::new(|run: Seq<char>| self.runs.contains_key(run) && self.runs[run].expired(now))
    }

    /// As many runs are ended as have no lease any more, up to the limit: where all goes well, the
    /// answer tells of each of them.
    pub proof fn reaping_counts(self, limit: nat, now: nat, ends: Seq<(E, D)>)
        requires
            self.inv(),
        ensures
            self.expired_runs(now).finite(),
            self.stale(limit, now).len() == if self.expired_runs(now).len() <= limit {
                self.expired_runs(now).len()
            } else {
                limit
            },
            self.reap_first(self.stale(limit, now), self.stale(limit, now).len(), ends).1 matches Ok(
                reaped,
            ) ==> reaped.len() == self.stale(limit, now).len(),
    {
        let keep = |run: Seq<char>| self.runs[run].expired(now);
        let all = self.order.filter(keep);
        lemma_filter_no_duplicates(self.order, keep);
        assert forall|run: Seq<char>| #[trigger]
            all.contains(run) <==> self.expired_runs(now).contains(run) by {
            lemma_filter_contains(self.order, keep, run);
        }
        assert(all.to_set() =~= self.expired_runs(now));
        vstd::seq_lib::seq_to_set_is_finite(all);
        all.unique_seq_to_set();
        self.lemma_reaped_count(self.stale(limit, now), self.stale(limit, now).len(), ends);
    }

    proof fn lemma_reaped_count(self, stale: Seq<Seq<char>>, n: nat, ends: Seq<(E, D)>)
        ensures
            self.reap_first(stale, n, ends).1 matches Ok(reaped) ==> reaped.len() == n,
        decreases n,
    {
        if n > 0 {
            self.lemma_reaped_count(stale, (n - 1) as nat, ends);
        }
    }

    proof fn lemma_reaped(self, stale: Seq<Seq<char>>, n: nat, ends: Seq<(E, D)>, now: nat)
        requires
            self.inv(),
            n <= stale.len(),
            stale.no_duplicates(),
            forall|i: int|
                0 <= i < stale.len() ==> self.runs.contains_key(#[trigger] stale[i])
                    && self.runs[stale[i]].expired(now),
            self.reap_first(stale, n, ends).1 is Ok,
        ensures
            forall|i: int|
                0 <= i < n ==> self.reap_first(stale, n, ends).0.runs[#[trigger] stale[i]].status
                    is Error && self.reap_first(stale, n, ends).0.runs[stale[i]].finish_reason
                    == Some("lease_expired"@),
            forall|run: Seq<char>|
                !stale.contains(run) ==> #[trigger] self.reap_first(stale, n, ends).0.runs[run]
                    == self.runs[run],
        decreases n,
    {
        if n > 0 {
            let m = (n - 1) as nat;
            self.lemma_reaped(stale, m, ends, now);
            self.reap_first_keeps(stale, m, ends, now);
            let store = self.reap_first(stale, m, ends).0;
            let id = stale[n - 1];
            let (event, data) = ends[n - 1];
            let after = store.with_reaped(id, event, data);
            assert forall|i: int| 0 <= i < n implies after.runs[#[trigger] stale[i]].status
                is Error && after.runs[stale[i]].finish_reason == Some("lease_expired"@) by {
                if i < n - 1 {
                    assert(stale[i] != stale[n - 1]);
                }
            }
            assert forall|run: Seq<char>| !stale.contains(run) implies #[trigger] after.runs[run]
                == self.runs[run] by {
                assert(stale.contains(stale[n - 1]));
            }
        }
    }

    /// Entries are only ever added: those that were recorded stay as they are, whatever is written.
    pub proof fn entries_stay(
        self,
        start: RunStartView,
        commit: RunCommitView<E, D>,
        finish: RunFinishRecordView<E, D>,
        write: EntryWriteView,
        lease: Option<Seq<char>>,
        clock: Clock,
    )
        ensures
            self.entries.is_prefix_of(self.start_run(start, clock).0.entries),
            self.entries.is_prefix_of(self.commit_run(commit, clock).0.entries),
            self.entries.is_prefix_of(self.finish_run(finish, clock).0.entries),
            self.entries.is_prefix_of(
                self.record_entry(commit.run_id, commit.scope, lease, write, clock).0.entries,
            ),
    {
        assert forall|origin: EntryOrigin, writes: Seq<EntryWriteView>|
            self.entries.is_prefix_of(#[trigger] with_entries(self.entries, origin, writes)) by {
            lemma_entries_stay(self.entries, origin, writes);
        }
    }

    /// What a commit recorded as entries can be read back: under each key lies what was written.
    pub proof fn entries_read_back(self, commit: RunCommitView<E, D>, clock: Clock, i: int)
        requires
            self.inv(),
            commit_refusal(commit) is None,
            self.visible(commit.run_id, commit.scope) matches Some(run) && run.status is Running,
            self.commit_run(commit, clock).1 is Ok,
            0 <= i < commit.entries.len(),
        ensures
            ({
                let after = self.commit_run(commit, clock).0;
                let write = commit.entries[i];
                &&& has_entry(after.entries, commit.scope, commit.session_id, write.key)
                &&& after.entry_under(commit.scope, commit.session_id, write.key).kind == write.kind
                &&& after.entry_under(commit.scope, commit.session_id, write.key).vis == write.vis
                &&& after.entry_under(commit.scope, commit.session_id, write.key).body == write.body
            }),
    {
        let run = self.runs[commit.run_id];
        let origin = EntryOrigin {
            scope: commit.scope,
            run_id: commit.run_id,
            session_id: commit.session_id,
            thread_id: run.start.thread_id,
            at: clock.wall_ms as int,
        };
        lemma_entries_read_back(self.entries, origin, commit.entries);
    }

    /// The entries of a session are listed in the order of their places.
    pub proof fn entries_are_in_order(self, query: EntryQueryView, i: int, j: int)
        requires
            self.inv(),
            0 <= i < j < self.entries_for(query).len(),
        ensures
            self.entries_for(query)[i].seq < self.entries_for(query)[j].seq,
    {
        lemma_entries_in_order(self.entries, query);
    }

    /// The events of a run are listed in order, each once.
    pub proof fn events_are_in_order(self, run: Seq<char>, scope: Seq<char>, after: int)
        requires
            self.inv(),
        ensures
            in_order(self.events_after(run, scope, after)),
    {
        if self.visible(run, scope) is Some {
            assert(self.runs[run].sound());
            lemma_filter_in_order(self.runs[run].events, |event: E| event.place() > after);
        }
    }

    /// Pages leave no event out and repeat none: what a page holds and what comes after its end
    /// are the events from its beginning.
    pub proof fn pages_join(
        self,
        run: Seq<char>,
        scope: Seq<char>,
        after: int,
        limit: nat,
        page: PageView<E>,
    )
        requires
            self.inv(),
            self.list_events(run, scope, after, limit) == Ok::<PageView<E>, ErrorView>(page),
        ensures
            page.items.len() <= limit,
            page.next is None ==> self.events_after(run, scope, after) == page.items,
            page.next matches Some(next) ==> page.items.len() == limit && next
                == page.items.last().place() && self.events_after(run, scope, after) == page.items
                + self.events_after(run, scope, next),
    {
        self.events_are_in_order(run, scope, after);
        let all = self.events_after(run, scope, after);
        if page.next is Some {
            let next = page.next->0;
            assert(self.visible(run, scope) is Some);
            let events = self.runs[run].events;
            assert(all.contains(all[limit - 1]));
            lemma_filter_contains(events, |event: E| event.place() > after, all[limit - 1]);
            lemma_filter_again(events, after, next);
            lemma_filter_after(all, limit - 1);
            assert(all =~= all.take(limit as int) + all.skip(limit as int));
        }
    }

    /// An effect that was announced is handed out again, and one that is done is never started
    /// again.
    pub proof fn effects_happen_once(
        self,
        run: Seq<char>,
        scope: Seq<char>,
        lease: Option<Seq<char>>,
        key: Seq<char>,
        kind: Seq<char>,
        request: Seq<char>,
        clock: Clock,
    )
        requires
            self.inv(),
            self.op_refusal(run, scope, lease, clock.now as nat) is None,
        ensures
            self.effects.contains_key((run, key)) && self.effects[(run, key)].kind == kind
                && self.effects[(run, key)].request == request ==> self.reserve_effect(
                run,
                scope,
                lease,
                key,
                kind,
                request,
                clock,
            ) == (self, Ok::<EffectView, ErrorView>(self.effects[(run, key)])),
            self.effects.contains_key((run, key)) && self.effects[(run, key)].status is Done
                ==> self.start_effect(run, scope, lease, key, clock) == (
                self,
                Ok::<EffectView, ErrorView>(self.effects[(run, key)]),
            ),
            self.effects.contains_key((run, key)) && self.effects[(run, key)].status.blocking()
                ==> self.start_effect(run, scope, lease, key, clock) == (
                self,
                Err::<EffectView, ErrorView>(ErrorView::EffectPending),
            ),
    {
    }
}

proof fn lemma_entries_stay(
    entries: Seq<ScopedEntryView>,
    origin: EntryOrigin,
    writes: Seq<EntryWriteView>,
)
    ensures
        entries.is_prefix_of(with_entries(entries, origin, writes)),
    decreases writes.len(),
{
    if writes.len() > 0 {
        lemma_entries_stay(entries, origin, writes.drop_last());
    }
}

proof fn lemma_entries_read_back(
    entries: Seq<ScopedEntryView>,
    origin: EntryOrigin,
    writes: Seq<EntryWriteView>,
)
    requires
        entries_refusal(entries, origin.scope, origin.session_id, writes) is None,
    ensures
        forall|i: int|
            0 <= i < writes.len() ==> has_entry(
                with_entries(entries, origin, writes),
                origin.scope,
                origin.session_id,
                (#[trigger] writes[i]).key,
            ),
        forall|i: int, j: int|
            0 <= i < writes.len() && 0 <= j < with_entries(entries, origin, writes).len()
                && #[trigger] with_entries(entries, origin, writes)[j].under(
                origin.scope,
                origin.session_id,
                (#[trigger] writes[i]).key,
            ) ==> with_entries(entries, origin, writes)[j].says(writes[i]),
        forall|j: int|
            0 <= j < with_entries(entries, origin, writes).len() ==> entries.contains(
                #[trigger] with_entries(entries, origin, writes)[j],
            ) || exists|i: int|
                0 <= i < writes.len() && with_entries(entries, origin, writes)[j].entry.key == (
                #[trigger] writes[i]).key,
    decreases writes.len(),
{
    let (scope, session) = (origin.scope, origin.session_id);
    let check = |i: int| entry_refusal(entries, scope, session, writes, i);
    lemma_no_failure(writes.len(), check);
    assert forall|i: int| 0 <= i < writes.len() implies (#[trigger] check(i)) is None by {}
    if writes.len() > 0 {
        let front = writes.drop_last();
        let front_check = |i: int| entry_refusal(entries, scope, session, front, i);
        assert forall|i: int| 0 <= i < front.len() implies (#[trigger] front_check(i)) is None by {
            assert(check(i) is None);
            assert(front[i] == writes[i]);
            if exists|j: int| 0 <= j < i && (#[trigger] front[j]).key == front[i].key {
                let j = choose|j: int| 0 <= j < i && (#[trigger] front[j]).key == front[i].key;
                assert(writes[j].key == writes[i].key);
            }
        }
        lemma_all_pass(front.len(), front_check);
        lemma_entries_read_back(entries, origin, front);
        let before = with_entries(entries, origin, front);
        let last = writes.last();
        let after = with_entry(before, origin, last);
        assert(check(writes.len() - 1) is None);
        assert forall|j: int|
            0 <= j < before.len() && #[trigger] before[j].under(
                scope,
                session,
                last.key,
            ) implies before[j].says(last) by {
            if entries.contains(before[j]) {
                let k = entries.index_of(before[j]);
                assert(entries[k].under(scope, session, writes[writes.len() - 1].key));
            } else {
                let i = choose|i: int|
                    0 <= i < front.len() && before[j].entry.key == (#[trigger] front[i]).key;
                assert(writes[i].key == writes[writes.len() - 1].key);
            }
        }
        assert(has_entry(after, scope, session, last.key)) by {
            if !has_entry(before, scope, session, last.key) {
                assert(after.last().under(scope, session, last.key));
                assert(after[after.len() - 1].under(scope, session, last.key));
            }
        }
        assert forall|i: int| 0 <= i < writes.len() implies has_entry(
            after,
            scope,
            session,
            (#[trigger] writes[i]).key,
        ) by {
            if i < front.len() {
                assert(front[i] == writes[i]);
                let j = choose|j: int|
                    0 <= j < before.len() && (#[trigger] before[j]).under(
                        scope,
                        session,
                        front[i].key,
                    );
                assert(after[j].under(scope, session, writes[i].key));
            }
        }
        assert forall|i: int, j: int|
            0 <= i < writes.len() && 0 <= j < after.len() && #[trigger] after[j].under(
                scope,
                session,
                (#[trigger] writes[i]).key,
            ) implies after[j].says(writes[i]) by {
            if j < before.len() {
                assert(after[j] == before[j]);
                if i < front.len() {
                    assert(front[i] == writes[i]);
                    assert(before[j].under(scope, session, front[i].key));
                } else {
                    assert(before[j].under(scope, session, last.key));
                }
            } else if i < front.len() {
                assert(writes[i].key == writes[writes.len() - 1].key);
            }
        }
        assert forall|j: int| 0 <= j < after.len() implies entries.contains(#[trigger] after[j])
            || exists|i: int|
            0 <= i < writes.len() && after[j].entry.key == (#[trigger] writes[i]).key by {
            if j < before.len() {
                assert(after[j] == before[j]);
                if !entries.contains(before[j]) {
                    let i = choose|i: int|
                        0 <= i < front.len() && before[j].entry.key == (#[trigger] front[i]).key;
                    assert(after[j].entry.key == writes[i].key);
                }
            } else {
                assert(after[j].entry.key == writes[writes.len() - 1].key);
            }
        }
    } else {
        assert forall|j: int| 0 <= j < entries.len() implies entries.contains(
            #[trigger] entries[j],
        ) by {}
    }
}

proof fn lemma_entries_in_order(entries: Seq<ScopedEntryView>, query: EntryQueryView)
    requires
        entries_sound(entries),
    ensures
        ({
            let found = entries.filter(|scoped: ScopedEntryView| scoped.matches(query));
            forall|i: int, j: int|
                0 <= i < j < found.len() ==> (#[trigger] found[i]).entry.seq < (
                #[trigger] found[j]).entry.seq
        }),
    decreases entries.len(),
{
    reveal(Seq::filter);
    let keep = |scoped: ScopedEntryView| scoped.matches(query);
    if entries.len() > 0 {
        let front = entries.drop_last();
        lemma_entries_in_order(front, query);
        let found = front.filter(keep);
        assert forall|i: int| 0 <= i < found.len() && keep(entries.last()) implies (
        #[trigger] found[i]).entry.seq < entries.last().entry.seq by {
            assert(found.contains(found[i]));
            lemma_filter_contains(front, keep, found[i]);
            let k = front.index_of(found[i]);
            assert(entries[k] == found[i]);
            assert(entries[k].within(
                entries[entries.len() - 1].scope,
                entries[entries.len() - 1].entry.session_id,
            ));
        }
    }
}

/// All events of a run come after its start.
proof fn lemma_all_after_start<E: RunEvent, D>(run: RunView<E, D>)
    requires
        run.sound(),
    ensures
        run.events.filter(|event: E| event.place() > 0) == run.events,
{
    lemma_filter_all(run.events, |event: E| event.place() > 0);
}

proof fn lemma_filter_all<A>(s: Seq<A>, keep: spec_fn(A) -> bool)
    requires
        forall|i: int| 0 <= i < s.len() ==> keep(#[trigger] s[i]),
    ensures
        s.filter(keep) == s,
    decreases s.len(),
{
    reveal(Seq::filter);
    if s.len() > 0 {
        let front = s.drop_last();
        assert forall|i: int| 0 <= i < front.len() implies keep(#[trigger] front[i]) by {
            assert(front[i] == s[i]);
        }
        lemma_filter_all(front, keep);
        assert(s.last() == s[s.len() - 1]);
        assert(front.push(s.last()) =~= s);
    }
}

} // verus!
