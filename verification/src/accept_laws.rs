//! What a lifecycle does for whom, and what it answers the others.

use vstd::prelude::*;

use tokio::sync::mpsc::UnboundedSender;

use crate::channel::{ListenerView, Sent};
use crate::error::ErrorView;
use crate::fit::{commit_fits, commits_hold_together, goes_on};
use crate::flow::lemma_others_untold;
use crate::ids::{RunId, SessionId};
use crate::life_view::{
    built_events_refusal, built_refusal, counted, planned_commit, told_all, AppendEventResult,
    LifeView, RunSubscriptionView, StartRunRejection, StartRunResultView,
};
use crate::lifecycle::{built_after, envelope, envelopes, with_count};
use crate::model::{first_failure, Clock, EntryOrigin};
use crate::pending::PendingOpsView;
use crate::registry::{ActiveView, HandleView};
use crate::store::{
    CommitPlanView, FinishRunResult, RunCommitResultView, RunCommitView, RunEvent, RunEventPayload,
    RunFinishRecordView, RunFinishView, RunStartView, StoreStartResultView,
};
use crate::store_laws::{lemma_all_pass, lemma_no_failure};
use crate::tx::{TxCommitView, TxTarget};
use crate::tx_laws::about_event;
use crate::write_laws::{effects_written, entries_written, items_written};

verus! {

/// Whether an event was built for a run and a session, under a number.
pub open spec fn built_for<E: RunEvent>(
    event: E,
    run: Seq<char>,
    session: Seq<char>,
    seq: int,
) -> bool {
    event.run() == run && event.session() == session && event.place() == seq
}

/// Whether events were built for a run and a session, under the numbers after one, and just the last
/// of them ends the run where it is to end.
pub open spec fn built_in_order<E: RunEvent>(
    events: Seq<E>,
    run: Seq<char>,
    session: Seq<char>,
    base: int,
    ending: bool,
) -> bool {
    &&& forall|i: int|
        0 <= i < events.len() ==> built_for(#[trigger] events[i], run, session, base + 1 + i)
    &&& ending ==> events.len() > 0
    &&& forall|i: int|
        0 <= i < events.len() ==> ((#[trigger] events[i]).terminal() <==> ending && i
            == events.len() - 1)
}

/// Why an event was not taken, where it was not built for its run and number.
pub open spec fn misbuilt<E: RunEvent>(
    error: ErrorView,
    event: E,
    run: Seq<char>,
    seq: int,
) -> bool {
    &&& event.run() != run ==> about_event(error, "event run_id does not match target run"@)
    &&& event.run() == run && event.place() != seq ==> about_event(
        error,
        "event seq does not match allocated seq"@,
    )
}

/// Whether two active runs are the same but for the last number that was given out.
pub open spec fn same_but_number<E>(before: ActiveView<E>, after: ActiveView<E>) -> bool {
    &&& after.handle == before.handle
    &&& after.listeners == before.listeners
    &&& after.terminal_published == before.terminal_published
}

impl<E: RunEvent, D> LifeView<E, D> {
    /// Whether a run is stored, in a scope.
    pub open spec fn stored(self, run: Seq<char>, scope: Seq<char>) -> bool {
        self.store.runs.contains_key(run) && self.store.runs[run].start.scope == scope
    }

    /// A run is started here where nothing is known of it, it is not active, there is room for it
    /// and the store starts it. A run that is known is answered with what is stored of it, where it
    /// was started alike.
    pub proof fn starts_are_answered(
        self,
        start: RunStartView,
        handle: HandleView,
        sender: Option<UnboundedSender<E>>,
        clock: Clock,
    )
        requires
            self.store.inv(),
        ensures
            ({
                let (after, result) = self.start_run(start, handle, sender, clock);
                let named = self.stored(start.run_id, start.scope);
                let place = (start.scope, start.session_id, start.client_run_key->0);
                let keyed = start.client_run_key is Some && self.store.idempotency.contains_key(
                    place,
                );
                let run = if named {
                    start.run_id
                } else {
                    self.store.idempotency[place]
                };
                let room = self.active.len() < self.max_in_flight;
                let stored = self.store.start_run(start, clock);
                &&& after.max_in_flight == self.max_in_flight && after.flags == self.flags
                    && after.said == self.said
                &&& named || keyed ==> after == self && {
                    let found = self.store.runs[run];
                    &&& result is Ok <==> found.start.input == start.input && found.start.entries
                        == start.entries
                    &&& result matches Ok(answer) ==> (answer matches StartRunResultView::Existing(
                        lookup,
                    ) && lookup.run_id == run && lookup.status == found.status
                        && lookup.session_id == found.start.session_id)
                    &&& result matches Err(error) ==> error is StartConflict
                }
                &&& !named && !keyed && self.active.contains_key(start.run_id) ==> after == self
                    && result == Ok::<StartRunResultView, ErrorView>(
                    StartRunResultView::NotRegistered(StartRunRejection::RunAlreadyActive),
                )
                &&& !named && !keyed && !self.active.contains_key(start.run_id) && !room ==> after
                    == self && result == Ok::<StartRunResultView, ErrorView>(
                    StartRunResultView::NotRegistered(StartRunRejection::CapacityExceeded),
                )
                &&& !named && !keyed && !self.active.contains_key(start.run_id) && room ==> {
                    &&& after.store == stored.0
                    &&& stored.1 is Err ==> result == Err::<StartRunResultView, ErrorView>(
                        stored.1->Err_0,
                    ) && after.active == self.active
                    &&& stored.1 matches Ok(StoreStartResultView::Existing(lookup)) ==> result
                        == Ok::<StartRunResultView, ErrorView>(
                        StartRunResultView::Existing(lookup),
                    ) && after.active == self.active
                    &&& stored.1 matches Ok(answer) ==> (answer is Created ==> {
                        &&& result matches Ok(answer) && answer is Started
                        &&& after.active.dom() == self.active.dom().insert(start.run_id)
                        &&& after.active[start.run_id].handle == handle
                        &&& after.active[start.run_id].seq == 0
                        &&& !after.active[start.run_id].terminal_published
                        &&& after.active[start.run_id].listeners.len() == if sender is Some {
                            1nat
                        } else {
                            0nat
                        }
                        &&& forall|other: Seq<char>|
                            other != start.run_id && self.active.contains_key(other)
                                ==> #[trigger] after.active[other] == self.active[other]
                    })
                }
            }),
    {
        let after = self.start_run(start, handle, sender, clock).0;
        assert(after.active.dom() =~= self.active.dom() || after.active.dom()
            =~= self.active.dom().insert(start.run_id));
        if start.client_run_key is Some {
            self.runs_behind_keys(start.scope, start.session_id, start.client_run_key->0);
        }
    }

    proof fn runs_behind_keys(self, scope: Seq<char>, session: Seq<char>, key: Seq<char>)
        requires
            self.store.inv(),
        ensures
            self.store.idempotency.contains_key((scope, session, key)) ==> self.stored(
                self.store.idempotency[(scope, session, key)],
                scope,
            ),
    {
        self.store.runs_are_found_by_their_key(scope, session, key);
        if self.store.idempotency.contains_key((scope, session, key)) {
            let lookup = self.store.find_idempotent_run(scope, session, key)->0;
            self.store.lookups_tell_what_is_stored(lookup.run_id, scope);
        }
    }

    /// An event is appended to a run that is stored and active, where it was built under the run's
    /// next number and does not end the run; the number is then used up, whatever the store says.
    pub proof fn appends_are_answered(
        self,
        run: Seq<char>,
        scope: Seq<char>,
        event: E,
        answers: Seq<bool>,
    )
        ensures
            ({
                let (after, result) = self.append(run, scope, event, answers);
                let there = self.stored(run, scope) && self.active.contains_key(run);
                let seq = self.active[run].seq + 1;
                let fits = event.run() == run && event.place() == seq && !event.terminal();
                let stored = self.store.record_event(run, scope, event);
                &&& !there ==> after == self && (result matches Err(error) && error is RunNotFound)
                &&& there && !fits ==> after == self && (result matches Err(error) && misbuilt(
                    error,
                    event,
                    run,
                    seq,
                ) && (event.run() == run && event.place() == seq ==> about_event(
                    error,
                    "append_event does not accept terminal events"@,
                )))
                &&& there && fits ==> {
                    &&& after.store == stored.0
                    &&& stored.1 matches Err(error) ==> result == Err::<
                        AppendEventResult<E>,
                        ErrorView,
                    >(error) && after.said == self.said && same_but_number(
                        self.active[run],
                        after.active[run],
                    )
                    &&& stored.1 == Ok::<bool, ErrorView>(false) ==> (result matches Ok(answer)
                        && answer is Skipped) && after.said == self.said
                        && !after.active.contains_key(run)
                    &&& stored.1 == Ok::<bool, ErrorView>(true) ==> result == Ok::<
                        AppendEventResult<E>,
                        ErrorView,
                    >(AppendEventResult::Recorded(event))
                    &&& stored.1 != Ok::<bool, ErrorView>(false) ==> after.active.contains_key(run)
                        && after.active[run].seq == seq && after.active[run].handle
                        == self.active[run].handle
                }
                &&& after.flags == self.flags && after.max_in_flight == self.max_in_flight
                &&& forall|other: Seq<char>|
                    other != run ==> (#[trigger] after.active.contains_key(other)
                        <==> self.active.contains_key(other))
                &&& forall|other: Seq<char>|
                    other != run && self.active.contains_key(other) ==> #[trigger]
                    after.active[other] == self.active[other]
            }),
    {
    }

    /// A run that is active here is ended by an event that was built under its next number; it is
    /// then not active any more. One that is not active and has ended is answered with its end.
    pub proof fn ends_are_answered(
        self,
        finish: RunFinishView<D>,
        event: E,
        clock: Clock,
        answers: Seq<bool>,
    )
        ensures
            ({
                let (after, result) = self.finish(finish, event, clock, answers);
                let run = finish.run_id;
                let seq = self.active[run].seq + 1;
                let known = self.stored(run, finish.scope);
                let here = self.active.contains_key(run);
                let fits = built_for(event, run, finish.session_id, seq) && event.terminal();
                let record = RunFinishRecordView {
                    run_id: finish.run_id,
                    session_id: finish.session_id,
                    scope: finish.scope,
                    status: finish.status,
                    finish_reason: finish.finish_reason,
                    error_code: finish.error_code,
                    terminal_event: event,
                    entries: finish.entries,
                    data: finish.data,
                };
                let stored = self.store.finish_run(record, clock);
                &&& finish.status is Running ==> after == self && (result matches Err(error)
                    && about_event(error, "finish_run requires a terminal status"@))
                &&& !(finish.status is Running) && !known ==> after == self && (
                result matches Err(error) && error is RunNotFound)
                &&& !(finish.status is Running) && known && !here ==> after == self && match
                self.store.runs[run].terminal_event {
                    Some(end) => result == Ok::<FinishRunResult<E>, ErrorView>(
                        FinishRunResult::AlreadyFinished(end),
                    ),
                    None => result matches Err(error) && error is RunNotFound,
                }
                &&& !(finish.status is Running) && known && here && !fits ==> after == self && (
                result matches Err(error) && finish_misbuilt(error, event, finish, seq))
                &&& !(finish.status is Running) && known && here && fits ==> {
                    &&& after.store == stored.0
                    &&& result == stored.1
                    &&& after.active.contains_key(run) <==> result is Err
                    &&& result is Err ==> after.active[run].seq == seq && same_but_number(
                        self.active[run],
                        after.active[run],
                    ) && after.said == self.said
                }
                &&& after.flags == self.flags && after.max_in_flight == self.max_in_flight
                &&& forall|other: Seq<char>|
                    other != run ==> (#[trigger] after.active.contains_key(other)
                        <==> self.active.contains_key(other))
                &&& forall|other: Seq<char>|
                    other != run && self.active.contains_key(other) ==> #[trigger]
                    after.active[other] == self.active[other]
            }),
    {
    }

    /// A run that is not active here is ended by an event that was built under the number after its
    /// last event; one that has ended is answered with its end.
    pub proof fn ends_from_elsewhere_are_answered(
        self,
        finish: RunFinishView<D>,
        event: E,
        clock: Clock,
    )
        requires
            self.store.inv(),
        ensures
            ({
                let (after, result) = self.finish_detached(finish, event, clock);
                let run = finish.run_id;
                let found = self.store.runs[run];
                let known = self.stored(run, finish.scope);
                let seq = if found.events.len() == 0 {
                    1
                } else {
                    found.events.last().place() + 1
                };
                let fits = built_for(event, run, finish.session_id, seq) && event.terminal();
                let record = RunFinishRecordView {
                    run_id: finish.run_id,
                    session_id: finish.session_id,
                    scope: finish.scope,
                    status: finish.status,
                    finish_reason: finish.finish_reason,
                    error_code: finish.error_code,
                    terminal_event: event,
                    entries: finish.entries,
                    data: finish.data,
                };
                &&& finish.status is Running ==> after == self && (result matches Err(error)
                    && about_event(error, "finish_run requires a terminal status"@))
                &&& !(finish.status is Running) && !known ==> after == self && (
                result matches Err(error) && error is RunNotFound)
                &&& !(finish.status is Running) && known && self.active.contains_key(run) ==> after
                    == self && (result matches Err(error) && error is RunAlreadyActive)
                &&& !(finish.status is Running) && known && !self.active.contains_key(run) ==> match
                found.terminal_event {
                    Some(end) => after == self && result == Ok::<FinishRunResult<E>, ErrorView>(
                        FinishRunResult::AlreadyFinished(end),
                    ),
                    None => if fits {
                        after.store == self.store.finish_run(record, clock).0 && result
                            == self.store.finish_run(record, clock).1
                    } else {
                        after == self && (result matches Err(error) && finish_misbuilt(
                            error,
                            event,
                            finish,
                            seq,
                        ))
                    },
                }
                &&& after.active == self.active && after.said == self.said && after.flags
                    == self.flags && after.max_in_flight == self.max_in_flight
            }),
    {
        if self.stored(finish.run_id, finish.scope) {
            self.detached_runs_go_on_after_their_last(finish.run_id, finish.scope);
        }
    }

    /// The number after the last event of a run that is stored.
    pub proof fn detached_runs_go_on_after_their_last(self, run: Seq<char>, scope: Seq<char>)
        requires
            self.store.inv(),
            self.stored(run, scope),
        ensures
            self.detached_seq(run, scope) == if self.store.runs[run].events.len() == 0 {
                1
            } else {
                self.store.runs[run].events.last().place() + 1
            },
    {
        let events = self.store.runs[run].events;
        assert(self.store.runs[run].sound());
        let found = self.store.events_after(run, scope, 0);
        self.store.events_are_in_order(run, scope, 0);
        if events.len() > 0 {
            let last = events.last();
            assert(events.contains(last));
            if last.place() > 0 {
                self.store.events_are_listed(run, scope, 0, 1, last);
                assert(found.contains(last));
                self.store.events_are_listed(run, scope, 0, 1, found.last());
                assert(found.contains(found.last()));
                let i = found.index_of(last);
                let j = events.index_of(found.last());
                assert(events[j] == found.last());
            }
        }
        if found.len() > 0 {
            self.store.events_are_listed(run, scope, 0, 1, found[0]);
            assert(found.contains(found[0]));
        }
    }

    /// A commit is made where there is something to commit, the end is that of the run and the run is
    /// stored, and active where numbers are needed: with events that were built under the run's next
    /// numbers, all that was planned is handed to the store, under the plan's lease. The numbers are
    /// used up where the run goes on, and a run that does not go on is not active any more.
    pub proof fn commits_are_answered(
        self,
        run: Seq<char>,
        session: Seq<char>,
        scope: Seq<char>,
        plan: CommitPlanView<D>,
        events: Seq<E>,
        clock: Clock,
        answers: Seq<Seq<bool>>,
    )
        ensures
            ({
                let (after, result) = self.commit(
                    run,
                    session,
                    scope,
                    plan,
                    events,
                    clock,
                    answers,
                );
                let empty = plan.event_count == 0 && plan.effects.len() == 0 && plan.items.len()
                    == 0 && plan.entries.len() == 0;
                let own = plan.finish matches Some(finish) ==> !(finish.status is Running)
                    && finish.run_id == run && finish.session_id == session;
                let known = self.stored(run, scope);
                let here = plan.event_count == 0 || self.active.contains_key(run);
                let built = built_in_order(
                    events,
                    run,
                    session,
                    self.active[run].seq,
                    plan.finish is Some,
                );
                let whole = RunCommitView {
                    run_id: run,
                    session_id: session,
                    scope,
                    lease: plan.lease,
                    checkpoint: plan.checkpoint,
                    events,
                    effects: plan.effects,
                    items: plan.items,
                    entries: plan.entries,
                    finish: plan.finish,
                };
                let stored = self.store.commit_run(whole, clock);
                &&& empty ==> after == self && (result matches Err(error) && about_event(
                    error,
                    "commit requires an event, effect, item, or entry"@,
                ))
                &&& !empty && !own ==> after == self && (result matches Err(error) && about_event(
                    error,
                    if plan.finish->0.status is Running {
                        "finish_run requires a terminal status"@
                    } else {
                        "finish target does not match committed run"@
                    },
                ))
                &&& !empty && own && !known ==> after == self && (result matches Err(error) && error
                    is RunNotFound)
                &&& !empty && own && known && !here ==> after == self && match
                self.store.runs[run].terminal_event {
                    Some(end) if plan.finish is Some => {
                        &&& result matches Ok(RunCommitResultView::Finished {
                            events: told,
                            result: answer,
                        }) && told == seq![end] && answer == FinishRunResult::AlreadyFinished(end)
                    },
                    _ => result matches Err(error) && error is RunNotFound,
                }
                &&& !empty && own && known && here && !built ==> after == self && (
                result matches Err(error) && error is InvalidRunEvent)
                &&& !empty && own && known && here && built ==> {
                    &&& after.store == stored.0
                    &&& result == stored.1
                    &&& result is Err ==> after.active == self.active && after.said == self.said
                    &&& result matches Ok(answer) ==> (!(answer is Recorded)
                        ==> !after.active.contains_key(run))
                    &&& result matches Ok(answer) ==> (answer is Recorded
                        && self.active.contains_key(run) ==> after.active.contains_key(run)
                        && after.active[run].seq == self.active[run].seq + plan.event_count
                        && after.active[run].handle == self.active[run].handle)
                }
                &&& after.flags == self.flags && after.max_in_flight == self.max_in_flight
                &&& !self.active.contains_key(run) ==> !after.active.contains_key(run)
                &&& forall|other: Seq<char>|
                    other != run ==> (#[trigger] after.active.contains_key(other)
                        <==> self.active.contains_key(other))
                &&& forall|other: Seq<char>|
                    other != run && self.active.contains_key(other) ==> #[trigger]
                    after.active[other] == self.active[other]
            }),
    {
        let base = self.active[run].seq;
        let check = |i: int|
            built_refusal(run, session, events[i], base + 1 + i);
        let built = built_in_order(events, run, session, base, plan.finish is Some);
        let refusal = built_events_refusal(run, session, plan.finish, events, base);
        let own = plan.finish matches Some(finish) ==> finish.run_id == run && finish.session_id
            == session;
        if own && refusal is None {
            lemma_no_failure(events.len(), check);
            assert forall|i: int| 0 <= i < events.len() implies built_for(
                #[trigger] events[i],
                run,
                session,
                base + 1 + i,
            ) by {
                assert(check(i) is None);
            }
            assert(built);
        }
        if own && built {
            assert forall|i: int| 0 <= i < events.len() implies (#[trigger] check(i)) is None by {
                assert(built_for(events[i], run, session, base + 1 + i));
            }
            lemma_all_pass(events.len(), check);
            if events.len() > 0 {
                assert(events.last() == events[events.len() - 1]);
            }
            assert(refusal is None);
        }
        if own && refusal is Some {
            if first_failure(events.len(), check) is Some {
                lemma_failure_kind(events, run, session, base, events.len());
            }
        }
        let ready = counted(self.active, run, plan.event_count);
        let (after, result) = self.commit(run, session, scope, plan, events, clock, answers);
        let written = result->Ok_0->Recorded_0;
        lemma_told_keeps_number(ready, self.said, run, written, false, answers);
        lemma_others_untold(ready, self.said, run, written, false, answers);
        assert(after.active.remove(run) =~= self.active.remove(run));
        assert forall|other: Seq<char>| other != run implies (#[trigger] after.active.contains_key(
            other,
        ) <==> self.active.contains_key(other)) by {
            assert(after.active.remove(run).contains_key(other)
                == self.active.remove(run).contains_key(other));
        }
        assert forall|other: Seq<char>|
            other != run && self.active.contains_key(other) implies #[trigger] after.active[other]
            == self.active[other] by {
            assert(after.active.remove(run)[other] == self.active.remove(run)[other]);
        }
    }

    /// What waits of a run is stored with each commit that is planned with it and written, under the
    /// run's lease, and with the end of the run too: the updates are made, and the items and entries
    /// are there.
    pub proof fn what_waits_is_stored(
        self,
        target: TxTarget,
        commit: TxCommitView,
        ops: PendingOpsView,
        data: D,
        events: Seq<E>,
        clock: Clock,
        answers: Seq<Seq<bool>>,
    )
        requires
            self.store.inv(),
        ensures
            ({
                let run = target.run_id@;
                let (after, result) = self.commit(
                    run,
                    target.session_id@,
                    target.scope@,
                    with_count(target.planned(commit, ops, data), events.len()),
                    events,
                    clock,
                    answers,
                );
                let at = clock.wall_ms as int;
                let written = match result {
                    Ok(RunCommitResultView::Recorded(_)) => true,
                    Ok(RunCommitResultView::Finished { result, .. }) => result is Finished,
                    _ => false,
                };
                written ==> {
                    &&& effects_written(
                        self.store.effects,
                        run,
                        ops.effects,
                        at,
                        after.store.effects,
                    )
                    &&& items_written(self.store.items, run, ops.items, at, after.store.items)
                    &&& entries_written(
                        self.store.entries,
                        EntryOrigin {
                            scope: target.scope@,
                            run_id: run,
                            session_id: target.session_id@,
                            thread_id: self.store.runs[run].start.thread_id,
                            at,
                        },
                        ops.entries,
                        after.store.entries,
                    )
                    &&& commit.checkpoint matches Some(checkpoint)
                        ==> after.store.load_checkpoint(checkpoint.thread_id) == Some(
                        checkpoint.record,
                    )
                    &&& commit.ending is Some <==> !(after.store.runs[run].status is Running)
                    &&& commit.ending matches Some(ending) ==> after.store.runs[run].status
                        == ending.status && after.store.runs[run].finish_reason == Some(
                        ending.reason,
                    )
                }
            }),
    {
        let run = target.run_id@;
        let plan = with_count(target.planned(commit, ops, data), events.len());
        let whole = planned_commit(run, target.session_id@, target.scope@, plan, events);
        let result = self.commit(
            run,
            target.session_id@,
            target.scope@,
            plan,
            events,
            clock,
            answers,
        ).1;
        self.commits_are_answered(
            run,
            target.session_id@,
            target.scope@,
            plan,
            events,
            clock,
            answers,
        );
        let written = match result {
            Ok(RunCommitResultView::Recorded(_)) => true,
            Ok(RunCommitResultView::Finished { result, .. }) => result is Finished,
            _ => false,
        };
        if written {
            commits_hold_together(whole);
            if !goes_on(self.store, run, target.scope@) {
                self.store.commits_need_a_run_that_goes_on(whole, clock);
            }
            if !commit_fits(self.store, whole, clock.now as nat) {
                self.store.other_commits_change_nothing(whole, clock);
            }
            self.store.fitting_commits_are_written(whole, clock);
        }
    }

    /// Asking a run to stop is answered with its handle where it is active here and goes on; where it
    /// has ended, with nothing; where it goes on elsewhere, with who owns it.
    pub proof fn stops_are_answered(self, run: Seq<char>, scope: Seq<char>)
        ensures
            ({
                let (after, result) = self.request_cancel(run, scope);
                let found = self.store.runs[run];
                &&& !self.stored(run, scope) ==> after == self && (result matches Err(error)
                    && error is RunNotFound)
                &&& self.stored(run, scope) && !(found.status is Running) ==> after == self
                    && result == Ok::<Option<HandleView>, ErrorView>(None)
                &&& self.stored(run, scope) && found.status is Running
                    && !self.active.contains_key(run) ==> after == self && result == Err::<
                    Option<HandleView>,
                    ErrorView,
                >(
                    ErrorView::NotOwner {
                        owner: match found.lease {
                            Some(lease) => Some(lease.owner),
                            None => None,
                        },
                    },
                )
                &&& self.stored(run, scope) && found.status is Running && self.active.contains_key(
                    run,
                ) ==> {
                    let handle = self.active[run].handle;
                    &&& result == Ok::<Option<HandleView>, ErrorView>(Some(handle))
                    &&& after.store.runs[run].cancel_requested
                    &&& after.store == self.store.mark_cancelled(run, scope).0
                    &&& handle.bit < self.flags.len() ==> after.flags[handle.bit as int]
                        && after.flags.len() == self.flags.len()
                }
                &&& after.active == self.active && after.said == self.said && after.max_in_flight
                    == self.max_in_flight
            }),
    {
    }

    /// Who listens to a run gets its events after the place, up to a page of them, and is told where
    /// to go on. Where the run goes on here they get what is to come on their channel, where it goes
    /// on elsewhere they are told who owns it, and where it has ended, how.
    pub proof fn listeners_are_answered(
        self,
        run: Seq<char>,
        scope: Seq<char>,
        cursor: int,
        listener: ListenerView<E>,
    )
        requires
            self.store.inv(),
            listener.peer is Some,
        ensures
            ({
                let (after, result) = self.subscribe(run, scope, cursor, listener);
                let found = self.store.runs[run];
                let here = self.active.contains_key(run) && !self.active[run].terminal_published;
                let all = self.store.events_after(run, scope, cursor);
                let more = all.len() > 1024;
                let page = if more {
                    all.take(1024)
                } else {
                    all
                };
                &&& !self.stored(run, scope) ==> after == self && (result matches Ok(answer)
                    && answer is Missing)
                &&& self.stored(run, scope) && found.status is Running && !here ==> after == self
                    && result == Err::<RunSubscriptionView<E>, ErrorView>(
                    ErrorView::NotOwner {
                        owner: match found.lease {
                            Some(lease) => Some(lease.owner),
                            None => None,
                        },
                    },
                )
                &&& self.stored(run, scope) && !(found.status is Running) ==> after == self && (
                result matches Ok(answer) && if more {
                    answer == (RunSubscriptionView::Replay {
                        events: page,
                        cursor: page.last().place(),
                    })
                } else {
                    answer == (RunSubscriptionView::Inactive::<E> {
                        status: found.status,
                        replay: page,
                    })
                })
                &&& self.stored(run, scope) && found.status is Running && here ==> {
                    &&& after.active[run].listeners.len() == self.active[run].listeners.len() + 1
                    &&& after.active[run].listeners.last() == listener
                    &&& self.active[run].listeners.is_prefix_of(after.active[run].listeners)
                    &&& after.active[run].handle == self.active[run].handle
                        && after.active[run].seq == self.active[run].seq
                    &&& !after.active[run].terminal_published
                    &&& result matches Ok(answer) && if more {
                        answer == (RunSubscriptionView::Replay {
                            events: page,
                            cursor: page.last().place(),
                        })
                    } else {
                        &&& answer matches RunSubscriptionView::Active {
                            replay,
                            cursor: place,
                            receiver,
                        } && replay == page && Some(receiver) == listener.peer && place == if
                        page.len() == 0 {
                            cursor
                        } else {
                            page.last().place()
                        }
                    }
                }
                &&& after.store == self.store && after.said == self.said && after.flags
                    == self.flags && after.max_in_flight == self.max_in_flight
                &&& after.active.dom() == self.active.dom()
                &&& forall|other: Seq<char>|
                    other != run && self.active.contains_key(other) ==> #[trigger]
                    after.active[other] == self.active[other]
            }),
    {
        assert(self.subscribe(run, scope, cursor, listener).0.active.dom() =~= self.active.dom());
        let all = self.store.events_after(run, scope, cursor);
        if all.len() > 0 {
            self.store.events_are_listed(run, scope, cursor, 1024, all.last());
            assert(all.contains(all.last()));
        } else {
            self.store.events_are_listed(run, scope, cursor, 1024, self.store.runs[run].events[0]);
        }
    }
}

/// The events that carry payloads are of the run and the session that they were made for, under the
/// numbers after the last, each with its payload, and end the run where their payload does.
pub proof fn envelopes_carry_their_payloads<P: RunEventPayload, D>(
    run: RunId,
    session: SessionId,
    base: int,
    payloads: Seq<P>,
    i: int,
    plan: CommitPlanView<D>,
)
    requires
        0 <= i < payloads.len(),
        i64::MIN <= base,
        base + payloads.len() <= i64::MAX,
    ensures
        envelopes(run, session, base, payloads).len() == payloads.len(),
        built_for(envelopes(run, session, base, payloads)[i], run@, session@, base + 1 + i),
        envelopes(run, session, base, payloads)[i].payload == payloads[i],
        envelopes(run, session, base, payloads)[i].terminal() <==> payloads[i].terminal(),
        envelope(run, session, base + 1 + i, payloads[i]) == envelopes(run, session, base, payloads)[i],
        ({
            let counted = with_count(plan, payloads.len());
            &&& counted.event_count == payloads.len()
            &&& counted.lease == plan.lease && counted.checkpoint == plan.checkpoint
            &&& counted.effects == plan.effects && counted.items == plan.items && counted.entries
                == plan.entries
            &&& counted.finish == plan.finish
        }),
{
}

/// Events that are built by one who builds for the number that they are asked for are built in order,
/// under the numbers after the last.
pub proof fn events_are_built_in_order<E: RunEvent, F: Fn(i64) -> E>(
    build: F,
    run: Seq<char>,
    session: Seq<char>,
    base: int,
    events: Seq<E>,
)
    requires
        forall|seq: i64, event: E| #[trigger]
            call_ensures(build, (seq,), event) ==> built_for(event, run, session, seq as int),
        i64::MIN <= base,
        base + events.len() <= i64::MAX,
        built_after(build, base, events),
    ensures
        forall|i: int|
            0 <= i < events.len() ==> built_for(#[trigger] events[i], run, session, base + 1 + i),
{
    assert forall|i: int| 0 <= i < events.len() implies built_for(
        #[trigger] events[i],
        run,
        session,
        base + 1 + i,
    ) by {
        assert(call_ensures(build, ((base + 1 + i) as i64,), events[i]));
    }
}

proof fn lemma_failure_kind<E: RunEvent>(
    events: Seq<E>,
    run: Seq<char>,
    session: Seq<char>,
    base: int,
    n: nat,
)
    ensures
        first_failure(
            n,
            |i: int| built_refusal(run, session, events[i], base + 1 + i),
        ) matches Some(error) ==> error is InvalidRunEvent,
    decreases n,
{
    if n > 0 {
        lemma_failure_kind(events, run, session, base, (n - 1) as nat);
    }
}

proof fn lemma_told_keeps_number<E: RunEvent>(
    active: Map<Seq<char>, ActiveView<E>>,
    said: Seq<Sent<E>>,
    run: Seq<char>,
    events: Seq<E>,
    closing: bool,
    answers: Seq<Seq<bool>>,
)
    ensures
        ({
            let after = told_all(active, said, run, events, closing, answers).0;
            &&& after.contains_key(run) == active.contains_key(run)
            &&& active.contains_key(run) ==> after[run].seq == active[run].seq && after[run].handle
                == active[run].handle
        }),
    decreases events.len(),
{
    if events.len() > 0 {
        lemma_told_keeps_number(active, said, run, events.drop_last(), closing, answers);
    }
}

/// Why an event does not end a run as it was asked to.
pub open spec fn finish_misbuilt<E: RunEvent, D>(
    error: ErrorView,
    event: E,
    finish: RunFinishView<D>,
    seq: int,
) -> bool {
    if event.run() != finish.run_id {
        about_event(error, "event run_id does not match target run"@)
    } else if event.session() != finish.session_id {
        about_event(error, "event session_id does not match target run"@)
    } else if event.place() != seq {
        about_event(error, "event seq does not match allocated seq"@)
    } else {
        about_event(error, "finish_run requires a terminal event"@)
    }
}

} // verus!
