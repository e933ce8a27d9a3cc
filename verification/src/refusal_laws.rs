//! What someone is told whose write is refused.

use vstd::prelude::*;

use crate::error::ErrorView;
use crate::fit::{
    commits_hold_together, effects_are_taken_where_they_fit, effects_fit,
    entries_are_taken_where_they_fit, entries_fit, events_are_taken_where_they_fit, events_fit,
    goes_on, holds_together, items_are_taken_where_they_fit, items_fit, may_write,
};
use crate::model::{
    commit_refusal, committed_event_refusal, effect_refusal, effects_refusal, first_failure,
    lemma_first_failure, place_refusal, Clock, Keyed,
};
use crate::op::{EffectStatus, EffectUpdateView, EffectView};
use crate::store::{last_place, RunCommitView, RunEvent, RunFinishRecordView};
use crate::store_laws::{lemma_all_pass, lemma_no_failure};
use crate::store_view::{running_on, StoreView};
use crate::tx_laws::about_event;

verus! {

/// Whether an event is one of a run, at a place.
pub open spec fn belongs<E: RunEvent, D>(commit: RunCommitView<E, D>, i: int) -> bool {
    &&& commit.events[i].run() == commit.run_id
    &&& commit.events[i].session() == commit.session_id
    &&& commit.events[i].place() > 0
}

/// A commit with nothing in it is refused as such.
pub proof fn empty_commits_are_refused<E: RunEvent, D>(commit: RunCommitView<E, D>)
    requires
        commit.events.len() == 0,
        commit.effects.len() == 0,
        commit.items.len() == 0,
        commit.entries.len() == 0,
    ensures
        commit_refusal(commit) matches Some(error) && about_event(
            error,
            "commit requires an event, effect, item, or entry"@,
        ),
{
}

/// The first event of a commit that does not belong to the run is what the commit is refused for.
pub proof fn foreign_events_are_named<E: RunEvent, D>(commit: RunCommitView<E, D>, k: int)
    requires
        0 <= k < commit.events.len(),
        forall|i: int| 0 <= i < k ==> #[trigger] belongs(commit, i),
        !belongs(commit, k),
    ensures
        commit_refusal(commit) matches Some(error) && about_event(
            error,
            if commit.events[k].run() != commit.run_id {
                "event run_id does not match target run"@
            } else if commit.events[k].session() != commit.session_id {
                "event session_id does not match target run"@
            } else {
                "event seq must be positive"@
            },
        ),
{
    let check = |i: int|
        committed_event_refusal(commit.run_id, commit.session_id, commit.events[i]);
    assert forall|i: int| 0 <= i < k implies (#[trigger] check(i)) is None by {
        assert(belongs(commit, i));
    }
    lemma_all_pass(k as nat, check);
    assert(check(k) is Some);
    lemma_first_failure(commit.events.len(), check, k as nat);
}

/// A commit whose events all belong to the run is refused where its end and its events do not go
/// together, and told how.
pub proof fn ends_that_do_not_fit_are_named<E: RunEvent, D>(commit: RunCommitView<E, D>)
    requires
        commit.events.len() > 0 || commit.effects.len() > 0 || commit.items.len() > 0
            || commit.entries.len() > 0,
        forall|i: int| 0 <= i < commit.events.len() ==> #[trigger] belongs(commit, i),
        !holds_together(commit),
    ensures
        commit_refusal(commit) matches Some(error) && about_event(
            error,
            match commit.finish {
                Some(finish) => if finish.run_id != commit.run_id || finish.session_id
                    != commit.session_id {
                    "finish target does not match committed run"@
                } else if finish.status is Running {
                    "finish_run requires a terminal status"@
                } else if commit.events.len() == 0 {
                    "finish commit requires a terminal event"@
                } else if !commit.events[commit.events.len() - 1].terminal() {
                    "finish_run requires a terminal event"@
                } else {
                    "only the last commit event may be terminal"@
                },
                None => "record_event does not accept terminal events"@,
            },
        ),
{
    let check = |i: int|
        committed_event_refusal(commit.run_id, commit.session_id, commit.events[i]);
    assert forall|i: int| 0 <= i < commit.events.len() implies (#[trigger] check(i)) is None by {
        assert(belongs(commit, i));
    }
    lemma_all_pass(commit.events.len(), check);
    commits_hold_together(commit);
    if commit.events.len() > 0 {
        assert(commit.events.last() == commit.events[commit.events.len() - 1]);
    }
}

/// The first update that cannot be made is what updates are refused for: a second for an effect, one
/// for an effect that is not there, one to something that is no outcome, or one that would undo what
/// is done.
pub proof fn unfit_updates_are_named(
    effects: Keyed<EffectView>,
    run: Seq<char>,
    updates: Seq<EffectUpdateView>,
    k: int,
)
    requires
        0 <= k < updates.len(),
        effects_fit(effects, run, updates.take(k)),
        !effects_fit(effects, run, updates.take(k + 1)),
    ensures
        effects_refusal(effects, run, updates) matches Some(error) && {
            let again = exists|j: int| 0 <= j < k && (#[trigger] updates[j]).key == updates[k].key;
            let there = effects.contains_key((run, updates[k].key));
            let outcome = !(updates[k].status == EffectStatus::Reserved || updates[k].status
                == EffectStatus::Started);
            &&& again ==> error is EffectConflict
            &&& !again && !there ==> error is EffectNotFound
            &&& !again && there && !outcome ==> about_event(
                error,
                "effect commit requires a terminal or unknown status"@,
            )
            &&& !again && there && outcome ==> error is EffectConflict && effects[(
                run,
                updates[k].key,
            )].status == EffectStatus::Done
        },
{
    let some = updates.take(k);
    let more = updates.take(k + 1);
    let check = |i: int| effect_refusal(effects, run, updates, i);
    effects_are_taken_where_they_fit(effects, run, some);
    effects_are_taken_where_they_fit(effects, run, more);
    let some_check = |i: int| effect_refusal(effects, run, some, i);
    lemma_no_failure(some.len(), some_check);
    assert forall|i: int| 0 <= i < k implies (#[trigger] check(i)) is None by {
        assert(some_check(i) is None);
        assert(some[i] == updates[i]);
        if exists|j: int| 0 <= j < i && (#[trigger] updates[j]).key == updates[i].key {
            let j = choose|j: int| 0 <= j < i && (#[trigger] updates[j]).key == updates[i].key;
            assert(some[j].key == some[i].key);
        }
    }
    lemma_all_pass(k as nat, check);
    if check(k) is None {
        let more_check = |i: int| effect_refusal(effects, run, more, i);
        assert forall|i: int| 0 <= i < more.len() implies (#[trigger] more_check(i)) is None by {
            assert(check(i) is None);
            assert(more[i] == updates[i]);
            if exists|j: int| 0 <= j < i && (#[trigger] more[j]).key == more[i].key {
                let j = choose|j: int| 0 <= j < i && (#[trigger] more[j]).key == more[i].key;
                assert(updates[j].key == updates[i].key);
            }
        }
        lemma_all_pass(more.len(), more_check);
    }
    lemma_first_failure(updates.len(), check, k as nat);
}

proof fn lemma_late_events<E: RunEvent>(before: Seq<E>, events: Seq<E>, n: nat)
    requires
        n <= events.len(),
        forall|i: int| 0 <= i < events.len() ==> (#[trigger] events[i]).place() > 0,
    ensures
        first_failure(
            n,
            |i: int| place_refusal(last_place(before + events.take(i)), events[i].place()),
        ) matches Some(error) ==> about_event(error, "event seq must increase monotonically"@),
    decreases n,
{
    if n > 0 {
        lemma_late_events(before, events, (n - 1) as nat);
    }
}

impl<E: RunEvent, D> StoreView<E, D> {
    /// A commit under the lease of a run that goes on is refused for the first of these that does not
    /// fit: the thread of the checkpoint, the events, the effects, the items, the entries.
    pub proof fn unfit_commits_say_why(self, commit: RunCommitView<E, D>, clock: Clock)
        requires
            self.inv(),
            goes_on(self, commit.run_id, commit.scope),
            holds_together(commit),
            self.runs[commit.run_id].start.session_id == commit.session_id,
            may_write(self.runs[commit.run_id].lease, commit.lease, clock.now as nat),
        ensures
            ({
                let (after, answer) = self.commit_run(commit, clock);
                let run = self.runs[commit.run_id];
                let thread = commit.checkpoint matches Some(checkpoint) ==> checkpoint.thread_id
                    == run.start.thread_id;
                let events = events_fit(
                    run.events,
                    commit.run_id,
                    commit.session_id,
                    commit.events,
                );
                let effects = effects_fit(self.effects, commit.run_id, commit.effects);
                let items = items_fit(self.items, commit.run_id, commit.items);
                let entries = entries_fit(
                    self.entries,
                    commit.scope,
                    commit.session_id,
                    commit.entries,
                );
                let all = thread && events && effects && items && entries;
                &&& !all ==> after == self && answer is Err
                &&& !thread ==> about_event(
                    answer->Err_0,
                    "checkpoint thread_id does not match target run"@,
                )
                &&& thread && !events ==> about_event(
                    answer->Err_0,
                    "event seq must increase monotonically"@,
                )
                &&& thread && events && !effects ==> Some(answer->Err_0) == effects_refusal(
                    self.effects,
                    commit.run_id,
                    commit.effects,
                )
                &&& thread && events && effects && !items ==> answer->Err_0 is ItemConflict
                &&& thread && events && effects && items && !entries ==> answer->Err_0
                    is EntryConflict
                &&& all ==> answer is Ok
            }),
    {
        let run = self.runs[commit.run_id];
        commits_hold_together(commit);
        assert(run.sound());
        events_are_taken_where_they_fit(
            run.events,
            commit.run_id,
            commit.session_id,
            commit.events,
        );
        lemma_late_events(run.events, commit.events, commit.events.len());
        effects_are_taken_where_they_fit(self.effects, commit.run_id, commit.effects);
        items_are_taken_where_they_fit(self.items, commit.run_id, commit.items);
        entries_are_taken_where_they_fit(
            self.entries,
            commit.scope,
            commit.session_id,
            commit.entries,
        );
        let thread = run.start.thread_id;
        assert(self.running_on(commit.run_id, thread));
        assert(self.thread_refusal(thread, commit.run_id) is None) by {
            if self.thread_refusal(thread, commit.run_id) is Some {
                let other = choose|other: Seq<char>|
                    other != commit.run_id && #[trigger] running_on(
                        self.runs,
                        other,
                        thread,
                    );
                assert(self.running_on(other, thread));
            }
        }
        if run.lease is None && self.thread_leases.contains_key(thread) {
            let held = self.thread_leases[thread];
            assert(self.runs[held.run].lease is Some);
            assert(self.runs[held.run].status is Running);
            assert(self.running_on(held.run, thread));
        }
    }

    /// Why the end of a run is not written: the event is not the run's or does not end it, the end is
    /// none, the run is not there, is leased or has ended, or something does not fit.
    pub proof fn refused_ends_say_why(self, finish: RunFinishRecordView<E, D>, clock: Clock)
        requires
            self.inv(),
        ensures
            ({
                let (after, answer) = self.finish_run(finish, clock);
                let event = finish.terminal_event;
                let run = self.runs[finish.run_id];
                let own = event.run() == finish.run_id && event.session() == finish.session_id;
                let ends = own && event.terminal() && !(finish.status is Running);
                let there = self.runs.contains_key(finish.run_id);
                let found = there && run.start.session_id == finish.session_id && run.start.scope
                    == finish.scope;
                let free = found && run.status is Running && run.lease is None;
                let later = event.place() > 0 && (run.events.len() > 0 ==> run.events.last().place()
                    < event.place());
                &&& event.run() != finish.run_id ==> answer is Err && about_event(
                    answer->Err_0,
                    "event run_id does not match target run"@,
                )
                &&& event.run() == finish.run_id && !own ==> answer is Err && about_event(
                    answer->Err_0,
                    "event session_id does not match target run"@,
                )
                &&& own && !event.terminal() ==> answer is Err && about_event(
                    answer->Err_0,
                    "finish_run requires a terminal event"@,
                )
                &&& own && event.terminal() && finish.status is Running ==> answer is Err
                    && about_event(answer->Err_0, "finish_run requires a terminal status"@)
                &&& ends && !there ==> answer is Err && answer->Err_0 is RunNotFound
                &&& ends && there && run.start.session_id != finish.session_id ==> answer is Err
                    && about_event(
                    answer->Err_0,
                    "finish session_id does not match target run"@,
                )
                &&& ends && there && run.start.session_id == finish.session_id && !found ==> answer
                    is Err && answer->Err_0 is RunNotFound
                &&& ends && found && run.status is Running && run.lease is Some ==> answer is Err
                    && answer->Err_0 is LeaseLost
                &&& ends && free && event.place() <= 0 ==> answer is Err && about_event(
                    answer->Err_0,
                    "event seq must be positive"@,
                )
                &&& ends && free && event.place() > 0 && !later ==> answer is Err && about_event(
                    answer->Err_0,
                    "event seq must increase monotonically"@,
                )
                &&& ends && free && later && !entries_fit(
                    self.entries,
                    finish.scope,
                    finish.session_id,
                    finish.entries,
                ) ==> answer is Err && answer->Err_0 is EntryConflict
                &&& answer is Err ==> after == self
            }),
    {
        entries_are_taken_where_they_fit(
            self.entries,
            finish.scope,
            finish.session_id,
            finish.entries,
        );
        if self.runs.contains_key(finish.run_id) {
            assert(self.runs[finish.run_id].sound());
        }
    }

    /// Why an event is not recorded.
    pub proof fn refused_events_say_why(self, run: Seq<char>, scope: Seq<char>, event: E)
        requires
            self.inv(),
        ensures
            ({
                let (after, answer) = self.record_event(run, scope, event);
                let found = self.runs[run];
                let free = !event.terminal() && event.run() == run && goes_on(self, run, scope)
                    && found.lease is None;
                let own = free && event.session() == found.start.session_id;
                &&& event.terminal() ==> answer is Err && about_event(
                    answer->Err_0,
                    "record_event does not accept terminal events"@,
                )
                &&& !event.terminal() && event.run() != run ==> answer is Err && about_event(
                    answer->Err_0,
                    "event run_id does not match target run"@,
                )
                &&& free && !own ==> answer is Err && about_event(
                    answer->Err_0,
                    "event session_id does not match target run"@,
                )
                &&& own && event.place() <= 0 ==> answer is Err && about_event(
                    answer->Err_0,
                    "event seq must be positive"@,
                )
                &&& own && event.place() > 0 && found.events.len() > 0 && event.place()
                    <= found.events.last().place() ==> answer is Err && about_event(
                    answer->Err_0,
                    "event seq must increase monotonically"@,
                )
                &&& answer != Ok::<bool, ErrorView>(true) ==> after == self
            }),
    {
    }
}

} // verus!
