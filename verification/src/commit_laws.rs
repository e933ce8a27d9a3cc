//! When commits, ends and events are taken, and what is stored then.

use vstd::prelude::*;

use crate::error::ErrorView;
use crate::fit::{
    commit_fits, commits_hold_together, effects_are_taken_where_they_fit,
    entries_are_taken_where_they_fit, entries_fit, events_are_taken_where_they_fit, events_fit,
    goes_on, holds_together, items_are_taken_where_they_fit,
};
use crate::model::{Clock, EntryOrigin, RunView};
use crate::store::{
    FinishRunResult, RunCommitResultView, RunCommitView, RunEvent, RunFinishRecordView, RunStatus,
};
use crate::store_view::StoreView;
use crate::write_laws::{
    effects_written, entries_are_recorded, entries_written, items_are_recorded, items_written,
    updates_are_made,
};

verus! {

/// Whether a run has ended as it was asked to, and is otherwise what it was.
pub open spec fn ended_as<E, D>(
    before: RunView<E, D>,
    after: RunView<E, D>,
    status: RunStatus,
    reason: Seq<char>,
    data: D,
    event: E,
) -> bool {
    &&& after.status == status
    &&& after.finish_reason == Some(reason)
    &&& after.finish_data == Some(data)
    &&& after.terminal_event == Some(event)
    &&& after.lease is None
    &&& after.start == before.start
    &&& after.cancel_requested == before.cancel_requested
}

/// Whether two stores hold the same but for what a run writes.
pub open spec fn same_but_writes<E, D>(
    before: StoreView<E, D>,
    after: StoreView<E, D>,
    run: Seq<char>,
) -> bool {
    &&& after.next_session == before.next_session
    &&& after.sessions == before.sessions
    &&& after.order == before.order
    &&& after.idempotency == before.idempotency
    &&& after.runs.dom() == before.runs.dom()
    &&& forall|other: Seq<char>| other != run ==> #[trigger] after.runs[other] == before.runs[other]
}

impl<E: RunEvent, D> StoreView<E, D> {
    /// A commit that fits a run that goes on is written, all of it, and answered with its events;
    /// nothing else changes.
    pub proof fn fitting_commits_are_written(self, commit: RunCommitView<E, D>, clock: Clock)
        requires
            self.inv(),
            goes_on(self, commit.run_id, commit.scope),
            commit_fits(self, commit, clock.now as nat),
        ensures
            ({
                let (after, answer) = self.commit_run(commit, clock);
                let before = self.runs[commit.run_id];
                let run = after.runs[commit.run_id];
                let at = clock.wall_ms as int;
                &&& match commit.finish {
                    None => answer == Ok::<RunCommitResultView<E>, ErrorView>(
                        RunCommitResultView::Recorded(commit.events),
                    ) && run == (RunView { events: before.events + commit.events, ..before })
                        && after.thread_leases == self.thread_leases,
                    Some(finish) => answer == Ok::<RunCommitResultView<E>, ErrorView>(
                        RunCommitResultView::Finished {
                            events: commit.events,
                            result: FinishRunResult::Finished(commit.events.last()),
                        },
                    ) && ended_as(
                        before,
                        run,
                        finish.status,
                        finish.finish_reason,
                        finish.data,
                        commit.events.last(),
                    ) && run.events == before.events + commit.events && after.thread_leases
                        == self.thread_leases.remove(before.start.thread_id),
                }
                &&& after.checkpoints == match commit.checkpoint {
                    Some(checkpoint) => self.checkpoints.insert(
                        before.start.thread_id,
                        checkpoint.record,
                    ),
                    None => self.checkpoints,
                }
                &&& effects_written(
                    self.effects,
                    commit.run_id,
                    commit.effects,
                    at,
                    after.effects,
                )
                &&& items_written(self.items, commit.run_id, commit.items, at, after.items)
                &&& entries_written(
                    self.entries,
                    EntryOrigin {
                        scope: commit.scope,
                        run_id: commit.run_id,
                        session_id: commit.session_id,
                        thread_id: before.start.thread_id,
                        at,
                    },
                    commit.entries,
                    after.entries,
                )
                &&& same_but_writes(self, after, commit.run_id)
            }),
    {
        self.lemma_commit_fits(commit, clock);
        let run = self.runs[commit.run_id];
        let at = clock.wall_ms as int;
        let after = self.commit_run(commit, clock).0;
        updates_are_made(self.effects, commit.run_id, commit.effects, at);
        items_are_recorded(self.items, commit.run_id, commit.items, at);
        entries_are_recorded(
            self.entries,
            EntryOrigin {
                scope: commit.scope,
                run_id: commit.run_id,
                session_id: commit.session_id,
                thread_id: run.start.thread_id,
                at,
            },
            commit.entries,
        );
        assert(after.runs.dom() =~= self.runs.dom());
    }

    /// A commit that does not fit a run that goes on is refused, and changes nothing.
    pub proof fn other_commits_change_nothing(self, commit: RunCommitView<E, D>, clock: Clock)
        requires
            self.inv(),
            goes_on(self, commit.run_id, commit.scope),
            !commit_fits(self, commit, clock.now as nat),
        ensures
            self.commit_run(commit, clock).0 == self,
            self.commit_run(commit, clock).1 is Err,
    {
        self.lemma_commit_fits(commit, clock);
    }

    /// A commit fits exactly where it is not refused.
    proof fn lemma_commit_fits(self, commit: RunCommitView<E, D>, clock: Clock)
        requires
            self.inv(),
            goes_on(self, commit.run_id, commit.scope),
        ensures
            commit_fits(self, commit, clock.now as nat) <==> self.commit_run(commit, clock).1 is Ok,
    {
        let run = self.runs[commit.run_id];
        let now = clock.now as nat;
        let thread = run.start.thread_id;
        commits_hold_together(commit);
        assert(run.sound());
        if holds_together(commit) {
            events_are_taken_where_they_fit(
                run.events,
                commit.run_id,
                commit.session_id,
                commit.events,
            );
        }
        effects_are_taken_where_they_fit(self.effects, commit.run_id, commit.effects);
        items_are_taken_where_they_fit(self.items, commit.run_id, commit.items);
        entries_are_taken_where_they_fit(
            self.entries,
            commit.scope,
            commit.session_id,
            commit.entries,
        );
        assert(self.running_on(commit.run_id, thread));
        assert(self.thread_refusal(thread, commit.run_id) is None) by {
            if self.thread_refusal(thread, commit.run_id) is Some {
                let other = choose|other: Seq<char>|
                    other != commit.run_id && #[trigger] crate::store_view::running_on(
                        self.runs,
                        other,
                        thread,
                    );
                assert(self.running_on(other, thread));
            }
        }
        if run.lease is None && self.thread_leases.contains_key(thread) {
            let held = self.thread_leases[thread];
            assert(self.runs[held.run].lease is Some);
            assert(self.runs[held.run].status is Running);
            assert(self.running_on(held.run, thread));
        }
    }

    /// What a commit is answered that does not reach a run that goes on: nothing changes, and one
    /// that would end a run that has ended gets the event that ended it.
    pub proof fn commits_need_a_run_that_goes_on(self, commit: RunCommitView<E, D>, clock: Clock)
        requires
            self.inv(),
            holds_together(commit),
            !goes_on(self, commit.run_id, commit.scope),
        ensures
            ({
                let (after, answer) = self.commit_run(commit, clock);
                let run = self.runs[commit.run_id];
                &&& after == self
                &&& answer == if !self.runs.contains_key(commit.run_id) {
                    Ok(RunCommitResultView::Skipped)
                } else if run.start.scope != commit.scope {
                    Err(ErrorView::RunNotFound)
                } else if run.start.session_id != commit.session_id {
                    Err(
                        ErrorView::InvalidRunEvent {
                            reason: "event session_id does not match target run"@,
                        },
                    )
                } else if commit.finish is None {
                    Ok(RunCommitResultView::Skipped)
                } else {
                    Ok(
                        RunCommitResultView::Finished {
                            events: seq![run.events.last()],
                            result: FinishRunResult::AlreadyFinished(run.events.last()),
                        },
                    )
                }
            }),
    {
        commits_hold_together(commit);
        if self.runs.contains_key(commit.run_id) {
            assert(self.runs[commit.run_id].sound());
        }
    }

    /// Whoever does not hold the lease of a run, or no longer, is told so, and writes nothing.
    pub proof fn lost_leases_write_nothing(self, commit: RunCommitView<E, D>, clock: Clock)
        requires
            self.inv(),
            goes_on(self, commit.run_id, commit.scope),
            holds_together(commit),
            self.runs[commit.run_id].start.session_id == commit.session_id,
            self.runs[commit.run_id].lease matches Some(held) && (commit.lease != Some(held.id)
                || held.until <= clock.now),
        ensures
            self.commit_run(commit, clock) == (
                self,
                Err::<RunCommitResultView<E>, ErrorView>(ErrorView::LeaseLost),
            ),
    {
        commits_hold_together(commit);
    }

    /// Ending a run is taken exactly where it goes on without a lease, the event is of the run, ends
    /// it and comes after its events, and the entries fit; then the run has ended as asked.
    pub proof fn runs_end_as_asked(self, finish: RunFinishRecordView<E, D>, clock: Clock)
        requires
            self.inv(),
            goes_on(self, finish.run_id, finish.scope),
        ensures
            ({
                let (after, answer) = self.finish_run(finish, clock);
                let before = self.runs[finish.run_id];
                let event = finish.terminal_event;
                let at = clock.wall_ms as int;
                let fits = finish.session_id == before.start.session_id && finish.status
                    != RunStatus::Running && event.terminal() && before.lease is None && events_fit(
                    before.events,
                    finish.run_id,
                    finish.session_id,
                    seq![event],
                ) && entries_fit(
                    self.entries,
                    finish.scope,
                    finish.session_id,
                    finish.entries,
                );
                &&& fits <==> answer is Ok
                &&& fits ==> {
                    &&& answer == Ok::<FinishRunResult<E>, ErrorView>(
                        FinishRunResult::Finished(event),
                    )
                    &&& ended_as(
                        before,
                        after.runs[finish.run_id],
                        finish.status,
                        finish.finish_reason,
                        finish.data,
                        event,
                    )
                    &&& after.runs[finish.run_id].events == before.events.push(event)
                    &&& after.thread_leases == self.thread_leases
                    &&& after.checkpoints == self.checkpoints
                    &&& after.effects == self.effects
                    &&& after.items == self.items
                    &&& entries_written(
                        self.entries,
                        EntryOrigin {
                            scope: finish.scope,
                            run_id: finish.run_id,
                            session_id: finish.session_id,
                            thread_id: before.start.thread_id,
                            at,
                        },
                        finish.entries,
                        after.entries,
                    )
                    &&& same_but_writes(self, after, finish.run_id)
                }
                &&& !fits ==> after == self
                &&& finish.session_id == before.start.session_id && finish.status
                    != RunStatus::Running && event.terminal() && event.run() == finish.run_id
                    && event.session() == finish.session_id && before.lease is Some ==> answer
                    == Err::<FinishRunResult<E>, ErrorView>(ErrorView::LeaseLost)
            }),
    {
        let before = self.runs[finish.run_id];
        let event = finish.terminal_event;
        assert(before.sound());
        entries_are_taken_where_they_fit(
            self.entries,
            finish.scope,
            finish.session_id,
            finish.entries,
        );
        lemma_one_event(before.events, finish.run_id, finish.session_id, event);
        entries_are_recorded(
            self.entries,
            EntryOrigin {
                scope: finish.scope,
                run_id: finish.run_id,
                session_id: finish.session_id,
                thread_id: before.start.thread_id,
                at: clock.wall_ms as int,
            },
            finish.entries,
        );
        assert(before.events + seq![event] =~= before.events.push(event));
        assert(self.finish_run(finish, clock).0.runs.dom() =~= self.runs.dom());
    }

    /// A run that has ended is answered with the event that ended it, and one that is not in the
    /// scope is not found; nothing changes.
    pub proof fn ended_runs_answer_with_their_end(
        self,
        finish: RunFinishRecordView<E, D>,
        clock: Clock,
    )
        requires
            self.inv(),
            !goes_on(self, finish.run_id, finish.scope),
            finish.terminal_event.run() == finish.run_id,
            finish.terminal_event.session() == finish.session_id,
            finish.terminal_event.terminal(),
            finish.status != RunStatus::Running,
            self.runs.contains_key(finish.run_id) ==> self.runs[finish.run_id].start.session_id
                == finish.session_id,
        ensures
            self.finish_run(finish, clock) == (
                self,
                if self.runs.contains_key(finish.run_id) && self.runs[finish.run_id].start.scope
                    == finish.scope {
                    Ok(FinishRunResult::AlreadyFinished(self.runs[finish.run_id].events.last()))
                } else {
                    Err(ErrorView::RunNotFound)
                },
            ),
    {
        if self.runs.contains_key(finish.run_id) {
            assert(self.runs[finish.run_id].sound());
        }
    }

    /// An event is recorded exactly where the run goes on without a lease, and the event is of the
    /// run, does not end it and comes after its events; then it is the run's last event, and nothing
    /// else changes.
    pub proof fn events_are_recorded(self, run: Seq<char>, scope: Seq<char>, event: E)
        requires
            self.inv(),
        ensures
            ({
                let (after, answer) = self.record_event(run, scope, event);
                let before = self.runs[run];
                let fits = goes_on(self, run, scope) && before.lease is None && !event.terminal()
                    && events_fit(before.events, run, before.start.session_id, seq![event]);
                &&& fits <==> answer == Ok::<bool, ErrorView>(true)
                &&& fits ==> {
                    &&& after.runs[run] == (RunView { events: before.events.push(event), ..before })
                    &&& same_but_writes(self, after, run)
                    &&& after.thread_leases == self.thread_leases
                    &&& after.checkpoints == self.checkpoints
                    &&& after.effects == self.effects
                    &&& after.items == self.items
                    &&& after.entries == self.entries
                }
                &&& !fits ==> after == self
                &&& event.run() == run && !event.terminal() && !self.runs.contains_key(run)
                    ==> answer == Ok::<bool, ErrorView>(false)
                &&& event.run() == run && !event.terminal() && self.runs.contains_key(run)
                    && before.start.scope != scope ==> answer == Err::<bool, ErrorView>(
                    ErrorView::RunNotFound,
                )
                &&& event.run() == run && !event.terminal() && self.runs.contains_key(run)
                    && before.start.scope == scope && before.status != RunStatus::Running
                    ==> answer == Ok::<bool, ErrorView>(false)
                &&& event.run() == run && !event.terminal() && goes_on(self, run, scope)
                    && before.lease is Some ==> answer == Err::<bool, ErrorView>(
                    ErrorView::LeaseLost,
                )
            }),
    {
        if self.runs.contains_key(run) {
            assert(self.runs[run].sound());
            let before = self.runs[run];
            lemma_one_event(before.events, run, before.start.session_id, event);
            assert(self.record_event(run, scope, event).0.runs.dom() =~= self.runs.dom());
        }
    }

    /// Asking a run to stop marks it exactly where it is in the scope, and changes nothing else.
    pub proof fn marks_are_kept(self, run: Seq<char>, scope: Seq<char>)
        ensures
            ({
                let (after, answer) = self.mark_cancelled(run, scope);
                let found = self.runs.contains_key(run) && self.runs[run].start.scope == scope;
                &&& found <==> answer is Ok
                &&& found ==> after.runs[run].cancel_requested && after.runs[run] == (RunView {
                    cancel_requested: after.runs[run].cancel_requested,
                    ..self.runs[run]
                }) && same_but_writes(self, after, run) && after.thread_leases
                    == self.thread_leases && after.checkpoints == self.checkpoints
                    && after.effects == self.effects && after.items == self.items && after.entries
                    == self.entries
                &&& !found ==> after == self && answer == Err::<(), ErrorView>(
                    ErrorView::RunNotFound,
                )
            }),
    {
        assert(self.mark_cancelled(run, scope).0.runs.dom() =~= self.runs.dom());
    }
}

/// One event can follow others exactly where its place is above zero and after theirs.
proof fn lemma_one_event<E: RunEvent>(
    before: Seq<E>,
    run: Seq<char>,
    session: Seq<char>,
    event: E,
)
    requires
        forall|i: int, j: int|
            0 <= i < j < before.len() ==> (#[trigger] before[i]).place() < (
            #[trigger] before[j]).place(),
    ensures
        events_fit(before, run, session, seq![event]) <==> event.run() == run && event.session()
            == session && crate::model::place_refusal(
            crate::store::last_place(before),
            event.place(),
        ) is None,
{
    let one = seq![event];
    assert(one[0] == event);
    if events_fit(before, run, session, one) {
        if before.len() > 0 {
            assert(before[before.len() - 1].place() < one[0].place());
        }
    } else if event.run() == run && event.session() == session && event.place() > 0 {
        assert forall|i: int, j: int|
            0 <= i < before.len() && 0 <= j < one.len() && (before.len() > 0 ==> before.last().place()
                < event.place()) implies (#[trigger] before[i]).place() < (
        #[trigger] one[j]).place() by {
            if i < before.len() - 1 {
                assert(before[i].place() < before[before.len() - 1].place());
            }
        }
    }
}

} // verus!
