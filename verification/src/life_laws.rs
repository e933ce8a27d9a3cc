//! What a lifecycle promises as a whole.

use vstd::prelude::*;

use tokio::sync::mpsc::{UnboundedReceiver, UnboundedSender};

use crate::channel::{newcomer, sends, ListenerView, Sent};
use crate::error::ErrorView;
use crate::flow::lemma_others_untold;
use crate::laws::in_order;
use crate::life_view::{
    built_events_refusal, built_refusal, counted, lets_through, renumbered, stands_at, told_all,
    AppendEventResult, LifeView, RunSubscriptionView, StartRunResultView,
};
use crate::listen_laws::{
    followed, gone, heard, sent_on, served, telling_all_reaches_all, telling_reaches_all,
};
use crate::model::{place_refusal, sequence_refusal, Clock};
use crate::registry::{
    handles_known, open_to, said_told, same, told, ActiveView, HandleView,
};
use crate::store::{
    last_place, CommitPlanView, RunCommitResultView, RunEvent, RunFinishView, RunStartView,
};
use crate::store_laws::{lemma_all_pass, lemma_no_failure};

verus! {

/// Whether someone was sent the last of some events, and nothing else.
pub open spec fn keeps_up<E>(listener: ListenerView<E>, events: Seq<E>) -> bool {
    &&& listener.offered.len() <= events.len()
    &&& listener.offered == events.skip(events.len() - listener.offered.len())
}

/// Whether all who listen were sent the last of some events, and nothing else.
pub open spec fn all_keep_up<E>(listeners: Seq<ListenerView<E>>, events: Seq<E>) -> bool {
    forall|i: int| 0 <= i < listeners.len() ==> keeps_up(#[trigger] listeners[i], events)
}

impl<E: RunEvent, D> LifeView<E, D> {
    /// Of a run that is active here, the numbers that were given out are not behind the events in
    /// the store, each who listens was sent the last events in the store, as many as they were sent
    /// at all, and they wait for more.
    pub open spec fn run_in_step(self, run: Seq<char>) -> bool {
        &&& self.active[run].seq >= 0
        &&& last_place(self.store.runs[run].events) matches Some(last) ==> last
            <= self.active[run].seq
        &&& all_keep_up(self.active[run].listeners, self.store.runs[run].events)
        &&& !self.active[run].terminal_published
    }

    /// The runs that are active here are in step with the store.
    pub open spec fn in_step(self) -> bool {
        forall|run: Seq<char>| #[trigger]
            self.active.contains_key(run) && self.store.runs.contains_key(run) ==> self.run_in_step(
                run,
            )
    }

    /// A commit that is refused changes nothing: not the store, and not the numbers of the run.
    pub proof fn refused_commit_changes_nothing(
        self,
        run: Seq<char>,
        session: Seq<char>,
        scope: Seq<char>,
        plan: CommitPlanView<D>,
        events: Seq<E>,
        clock: Clock,
        answers: Seq<Seq<bool>>,
    )
        ensures
            self.commit(run, session, scope, plan, events, clock, answers).1 is Err ==> self.commit(
                run,
                session,
                scope,
                plan,
                events,
                clock,
                answers,
            ).0 == self,
    {
        let after = self.commit(run, session, scope, plan, events, clock, answers).0;
        if self.commit(run, session, scope, plan, events, clock, answers).1 is Err {
            assert(after =~= self);
        }
    }

    /// A run that is started here is active here and in the store, with nothing said yet and its
    /// first listener, where it has one; where it is not started, the active runs are as before, and
    /// where it was not registered, the store is too.
    pub proof fn only_started_runs_are_active(
        self,
        start: RunStartView,
        handle: HandleView,
        sender: Option<UnboundedSender<E>>,
        clock: Clock,
    )
        ensures
            match self.start_run(start, handle, sender, clock).1 {
                Ok(StartRunResultView::Started) => {
                    let after = self.start_run(start, handle, sender, clock).0;
                    &&& !self.active.contains_key(start.run_id)
                    &&& !self.store.runs.contains_key(start.run_id)
                    &&& after.active.contains_key(start.run_id)
                    &&& after.active.remove(start.run_id) == self.active
                    &&& after.active[start.run_id].handle == handle
                    &&& after.active[start.run_id].seq == 0
                    &&& after.active[start.run_id].listeners == match sender {
                        Some(sender) => seq![newcomer(sender)],
                        None => Seq::empty(),
                    }
                    &&& after.store.runs.contains_key(start.run_id)
                    &&& after.said == self.said
                },
                Ok(StartRunResultView::NotRegistered(_)) => self.start_run(
                    start,
                    handle,
                    sender,
                    clock,
                ).0 == self,
                _ => {
                    let after = self.start_run(start, handle, sender, clock).0;
                    after.active == self.active && after.said == self.said
                },
            },
    {
        if self.start_run(start, handle, sender, clock).1 is Ok {
            let after = self.start_run(start, handle, sender, clock).0;
            assert(!self.active.contains_key(start.run_id) ==> after.active.remove(start.run_id)
                =~= self.active);
        }
    }

    /// No more runs are active than may be.
    pub proof fn capacity_holds(
        self,
        start: RunStartView,
        handle: HandleView,
        sender: Option<UnboundedSender<E>>,
        clock: Clock,
    )
        requires
            self.active.dom().finite(),
            self.active.len() <= self.max_in_flight,
        ensures
            self.start_run(start, handle, sender, clock).0.active.len() <= self.max_in_flight,
    {
    }

    /// A run that has ended is not active here any more.
    pub proof fn ended_runs_are_not_active(
        self,
        run: Seq<char>,
        session: Seq<char>,
        scope: Seq<char>,
        plan: CommitPlanView<D>,
        events: Seq<E>,
        finish: RunFinishView<D>,
        event: E,
        clock: Clock,
        answers: Seq<Seq<bool>>,
        given: Seq<bool>,
    )
        ensures
            self.commit(run, session, scope, plan, events, clock, answers).1 matches Ok(result)
                ==> result is Recorded || !self.commit(
                run,
                session,
                scope,
                plan,
                events,
                clock,
                answers,
            ).0.active.contains_key(run),
            self.finish(finish, event, clock, given).1 is Ok ==> !self.finish(
                finish,
                event,
                clock,
                given,
            ).0.active.contains_key(finish.run_id),
    {
    }

    /// Asking a run to stop sets its flag, which all copies of its handle read, and marks it in the
    /// store; no other flag is set, and no other run is marked. Where it is refused, or the run has
    /// ended, no flag is set and nothing is marked.
    pub proof fn cancelling_marks_both(self, run: Seq<char>, scope: Seq<char>, other: HandleView)
        requires
            handles_known(self.active, self.flags),
            other.among(self.flags),
        ensures
            match self.request_cancel(run, scope).1 {
                Ok(Some(handle)) => {
                    let after = self.request_cancel(run, scope).0;
                    &&& handle == self.active[run].handle
                    &&& after.active == self.active
                    &&& other.bit == handle.bit ==> other.raised(after.flags)
                    &&& other.bit != handle.bit ==> other.raised(after.flags) == other.raised(
                        self.flags,
                    )
                    &&& after.store.runs.contains_key(run) && after.store.runs[run].cancel_requested
                    &&& after.store.runs.remove(run) == self.store.runs.remove(run)
                },
                _ => self.request_cancel(run, scope).0 == self,
            },
    {
        let after = self.request_cancel(run, scope).0;
        assert(after.store.runs.remove(run) =~= self.store.runs.remove(run));
    }

    /// Asking a run to stop keeps the active runs in step with the store.
    pub proof fn cancelling_keeps_step(self, run: Seq<char>, scope: Seq<char>)
        requires
            self.in_step(),
        ensures
            self.request_cancel(run, scope).0.in_step(),
    {
        let after = self.request_cancel(run, scope).0;
        assert forall|other: Seq<char>| #[trigger]
            after.active.contains_key(other) && after.store.runs.contains_key(
                other,
            ) implies after.run_in_step(other) by {
            assert(self.active.contains_key(other) && self.store.runs.contains_key(other));
            assert(self.run_in_step(other));
        }
    }

    /// Events that were built under the next numbers of a run follow its events in the store.
    pub proof fn built_events_follow(
        self,
        run: Seq<char>,
        session: Seq<char>,
        finish: Option<RunFinishView<D>>,
        events: Seq<E>,
    )
        requires
            self.in_step(),
            self.active.contains_key(run),
            self.store.runs.contains_key(run),
            built_events_refusal(run, session, finish, events, self.active[run].seq) is None,
        ensures
            sequence_refusal(self.store.runs[run].events, events) is None,
            forall|i: int|
                0 <= i < events.len() ==> (#[trigger] events[i]).place() == self.active[run].seq + 1
                    + i,
    {
        let base = self.active[run].seq;
        let before = self.store.runs[run].events;
        let check = |i: int| built_refusal(run, session, events[i], base + 1 + i);
        lemma_no_failure(events.len(), check);
        assert forall|i: int| 0 <= i < events.len() implies (#[trigger] events[i]).place() == base + 1
            + i by {
            assert(check(i) is None);
        }
        let order = |i: int|
            place_refusal(last_place(before + events.take(i)), events[i].place());
        assert forall|i: int| 0 <= i < events.len() implies (#[trigger] order(i)) is None by {
            let so_far = before + events.take(i);
            if i == 0 {
                assert(so_far =~= before);
            } else {
                assert(so_far.last() == events[i - 1]);
            }
            assert(events[i].place() == base + 1 + i);
        }
        lemma_all_pass(events.len(), order);
    }

    /// Starting a run keeps the runs in step.
    pub proof fn start_run_keeps_step(
        self,
        start: RunStartView,
        handle: HandleView,
        sender: Option<UnboundedSender<E>>,
        clock: Clock,
    )
        requires
            self.in_step(),
        ensures
            self.start_run(start, handle, sender, clock).0.in_step(),
    {
        let after = self.start_run(start, handle, sender, clock).0;
        let store = self.store.start_run(start, clock).0;
        assert forall|run: Seq<char>|
            store.runs.contains_key(run) implies run == start.run_id && !self.store.runs.contains_key(
            run,
        ) || self.store.runs.contains_key(run) && #[trigger] store.runs[run]
            == self.store.runs[run] by {}
        assert forall|run: Seq<char>| #[trigger]
            after.active.contains_key(run) && after.store.runs.contains_key(
                run,
            ) implies after.run_in_step(run) by {
            if run != start.run_id {
                assert(self.active.contains_key(run));
                assert(after.store.runs[run] == self.store.runs[run]);
            } else if !self.active.contains_key(run) {
                let events = after.store.runs[run].events;
                assert(events.skip(0) =~= Seq::empty());
            }
        }
    }

    /// Listening to a run keeps the runs in step.
    pub proof fn subscribe_keeps_step(
        self,
        run: Seq<char>,
        scope: Seq<char>,
        cursor: int,
        listener: ListenerView<E>,
    )
        requires
            self.in_step(),
            listener.offered == Seq::<E>::empty(),
        ensures
            self.subscribe(run, scope, cursor, listener).0.in_step(),
    {
        let after = self.subscribe(run, scope, cursor, listener).0;
        assert forall|other: Seq<char>| #[trigger]
            after.active.contains_key(other) && after.store.runs.contains_key(
                other,
            ) implies after.run_in_step(other) by {
            assert(self.active.contains_key(other));
            assert(self.run_in_step(other));
            let events = self.store.runs[other].events;
            assert(keeps_up(listener, events)) by {
                assert(listener.offered =~= events.skip(events.len() as int));
            }
        }
    }

    /// Appending an event keeps the runs in step.
    pub proof fn append_keeps_step(
        self,
        run: Seq<char>,
        scope: Seq<char>,
        event: E,
        answers: Seq<bool>,
    )
        requires
            self.in_step(),
        ensures
            self.append(run, scope, event, answers).0.in_step(),
    {
        let (after, result) = self.append(run, scope, event, answers);
        assert forall|other: Seq<char>| #[trigger]
            after.active.contains_key(other) && after.store.runs.contains_key(
                other,
            ) implies after.run_in_step(other) by {
            assert(self.active.contains_key(other));
            assert(self.store.runs.contains_key(other));
            assert(self.run_in_step(other));
            if other == run && result is Ok {
                let counted = renumbered(self.active, run, self.active[run].seq + 1);
                telling_reaches_all(counted, self.said, run, event, false, answers);
                assert(self.store.runs[run].events + seq![event]
                    =~= self.store.runs[run].events.push(event));
                lemma_followed_keep_up(
                    self.active[run].listeners,
                    after.active[run].listeners,
                    self.store.runs[run].events,
                    seq![event],
                );
            }
        }
    }

    /// Ending a run keeps the runs in step, whether it is active here or not.
    pub proof fn finish_keeps_step(
        self,
        finish: RunFinishView<D>,
        event: E,
        clock: Clock,
        answers: Seq<bool>,
    )
        requires
            self.in_step(),
        ensures
            self.finish(finish, event, clock, answers).0.in_step(),
            self.finish_detached(finish, event, clock).0.in_step(),
    {
        let after = self.finish(finish, event, clock, answers).0;
        assert forall|other: Seq<char>| #[trigger]
            after.active.contains_key(other) && after.store.runs.contains_key(
                other,
            ) implies after.run_in_step(other) by {
            assert(self.active.contains_key(other));
            assert(self.store.runs.contains_key(other));
            assert(self.run_in_step(other));
        }
        let detached = self.finish_detached(finish, event, clock).0;
        assert forall|other: Seq<char>| #[trigger]
            detached.active.contains_key(other) && detached.store.runs.contains_key(
                other,
            ) implies detached.run_in_step(other) by {
            assert(self.active.contains_key(other));
            assert(self.store.runs.contains_key(other));
            assert(self.run_in_step(other));
        }
    }

    /// Committing keeps the runs in step.
    pub proof fn commit_keeps_step(
        self,
        run: Seq<char>,
        session: Seq<char>,
        scope: Seq<char>,
        plan: CommitPlanView<D>,
        events: Seq<E>,
        clock: Clock,
        answers: Seq<Seq<bool>>,
    )
        requires
            self.in_step(),
            self.builds(run, session, scope, plan) ==> events.len() == plan.event_count,
        ensures
            self.commit(run, session, scope, plan, events, clock, answers).0.in_step(),
    {
        let (after, result) = self.commit(run, session, scope, plan, events, clock, answers);
        let base = self.active[run].seq;
        if self.builds(run, session, scope, plan) && built_events_refusal(
            run,
            session,
            plan.finish,
            events,
            base,
        ) is None {
            if events.len() > 0 && self.active.contains_key(run) && self.store.runs.contains_key(
                run,
            ) {
                self.built_events_follow(run, session, plan.finish, events);
                assert(events.last() == events[events.len() - 1]);
            }
            let old_events = self.store.runs[run].events;
            let ready = counted(self.active, run, plan.event_count);
            assert forall|other: Seq<char>| #[trigger]
                after.active.contains_key(other) && after.store.runs.contains_key(
                other,
            ) implies after.run_in_step(other) by {
                if self.active.contains_key(run) && self.store.runs.contains_key(run) {
                    assert(self.run_in_step(run));
                    telling_all_reaches_all(ready, self.said, run, events, false, answers);
                } else {
                    lemma_others_untold(ready, self.said, run, events, false, answers);
                    let then = told_all(ready, self.said, run, events, false, answers).0;
                    assert(then.remove(run).contains_key(other) == ready.remove(run).contains_key(
                        other,
                    ));
                    assert(other != run ==> then.remove(run)[other] == ready.remove(run)[other]);
                }
                assert(self.active.contains_key(other));
                assert(self.store.runs.contains_key(other));
                assert(self.run_in_step(other));
                if other == run && after.store.runs[run].events == old_events + events {
                    if events.len() > 0 {
                        assert((old_events + events).last() == events.last());
                    } else {
                        assert(old_events + events =~= old_events);
                    }
                    lemma_followed_keep_up(
                        self.active[run].listeners,
                        after.active[run].listeners,
                        old_events,
                        events,
                    );
                }
            }
        }
    }

    /// What is committed of a run that is active here is sent to each who listens to it, in order,
    /// as long as their channel takes what it is sent, and those who go on listening were sent
    /// exactly that.
    pub proof fn committed_events_are_told(
        self,
        run: Seq<char>,
        session: Seq<char>,
        scope: Seq<char>,
        plan: CommitPlanView<D>,
        events: Seq<E>,
        clock: Clock,
        answers: Seq<Seq<bool>>,
    )
        requires
            self.in_step(),
            self.active.contains_key(run),
        ensures
            ({
                let (after, result) = self.commit(
                    run,
                    session,
                    scope,
                    plan,
                    events,
                    clock,
                    answers,
                );
                let before = self.active[run].listeners;
                match result {
                    Ok(RunCommitResultView::Recorded(written)) => {
                        &&& after.store.runs[run].events == self.store.runs[run].events + written
                        &&& self.said.is_prefix_of(after.said)
                        &&& all_told(before, written, after.said, self.said.len())
                        &&& followed(before, after.active[run].listeners, written)
                        &&& forall|j: int|
                            0 <= j < before.len() ==> served(
                                #[trigger] before[j],
                                after.active[run].listeners,
                                written,
                                after.said,
                                self.said.len(),
                            )
                    },
                    Ok(RunCommitResultView::Finished { events: written, result: ended }) => {
                        &&& ended is Finished ==> after.store.runs[run].events
                            == self.store.runs[run].events + written
                        &&& self.said.is_prefix_of(after.said)
                        &&& all_told(before, written, after.said, self.said.len())
                    },
                    Ok(RunCommitResultView::Skipped) => after.said == self.said,
                    Err(_) => after == self,
                }
            }),
    {
        let (after, result) = self.commit(run, session, scope, plan, events, clock, answers);
        if self.store.runs.contains_key(run) {
            assert(self.run_in_step(run));
        }
        let ready = counted(self.active, run, plan.event_count);
        match result {
            Ok(RunCommitResultView::Recorded(written)) => {
                telling_all_reaches_all(ready, self.said, run, written, false, answers);
            },
            Ok(RunCommitResultView::Finished { events: written, result: ended }) => {
                telling_all_reaches_all(ready, self.said, run, written, true, answers);
            },
            Ok(RunCommitResultView::Skipped) => {},
            Err(_) => {
                self.refused_commit_changes_nothing(
                    run,
                    session,
                    scope,
                    plan,
                    events,
                    clock,
                    answers,
                );
            },
        }
    }

    /// What is appended to a run that is active here, and what ends it, is recorded and sent to each
    /// who listens to it, once; where it is refused, nothing is sent.
    pub proof fn recorded_events_are_told(
        self,
        run: Seq<char>,
        scope: Seq<char>,
        finish: RunFinishView<D>,
        event: E,
        clock: Clock,
        answers: Seq<bool>,
    )
        requires
            self.in_step(),
            self.active.contains_key(run),
            finish.run_id == run,
        ensures
            ({
                let (after, result) = self.append(run, scope, event, answers);
                let before = self.active[run].listeners;
                match result {
                    Ok(AppendEventResult::Recorded(written)) => {
                        &&& after.store.runs[run].events == self.store.runs[run].events.push(
                            written,
                        )
                        &&& after.said == self.said + sends(
                            before,
                            same(written, before.len()),
                            answers,
                        )
                        &&& followed(before, after.active[run].listeners, seq![written])
                        &&& forall|j: int|
                            0 <= j < before.len() ==> served(
                                #[trigger] before[j],
                                after.active[run].listeners,
                                seq![written],
                                after.said,
                                self.said.len(),
                            )
                    },
                    _ => after.said == self.said,
                }
            }),
            ({
                let (after, result) = self.finish(finish, event, clock, answers);
                let before = self.active[run].listeners;
                match result {
                    Ok(ended) => {
                        &&& ended is Finished ==> after.store.runs[run].events
                            == self.store.runs[run].events.push(ended.event())
                        &&& after.said == self.said + sends(
                            before,
                            same(ended.event(), before.len()),
                            answers,
                        )
                    },
                    Err(_) => after.said == self.said,
                }
            }),
    {
        if self.store.runs.contains_key(run) {
            assert(self.run_in_step(run));
        }
        let ready = renumbered(self.active, run, self.active[run].seq + 1);
        if self.append(run, scope, event, answers).1 is Ok {
            telling_reaches_all(ready, self.said, run, event, false, answers);
        }
    }

    /// Whether someone listens on a channel to a run, and the events that they were given at first
    /// and those that they were sent since are all the events of the run after a place.
    pub open spec fn listening(
        self,
        run: Seq<char>,
        scope: Seq<char>,
        from: int,
        replay: Seq<E>,
        receiver: UnboundedReceiver<E>,
        i: int,
    ) -> bool {
        let listener = self.active[run].listeners[i];
        &&& self.active.contains_key(run)
        &&& 0 <= i < self.active[run].listeners.len()
        &&& listener.peer == Some(receiver)
        &&& replay + listener.offered == self.store.events_after(run, scope, from)
    }

    /// Who listens to an active run from a place on misses nothing: the replay holds all events
    /// after the place, the events to come have later places than where the replay ends, and they
    /// are sent on the channel that they were given.
    pub proof fn subscriber_misses_nothing(
        self,
        run: Seq<char>,
        scope: Seq<char>,
        from: int,
        listener: ListenerView<E>,
        replay: Seq<E>,
        cursor: int,
        receiver: UnboundedReceiver<E>,
    )
        requires
            self.in_step(),
            self.store.inv(),
            listener.offered == Seq::<E>::empty(),
            listener.peer is Some,
            self.subscribe(run, scope, from, listener).1 == Ok::<RunSubscriptionView<E>, ErrorView>(
                RunSubscriptionView::Active { replay, cursor, receiver },
            ),
            from <= self.active[run].seq,
        ensures
            replay == self.store.events_after(run, scope, from),
            in_order(replay),
            from <= cursor <= self.active[run].seq,
            forall|i: int| 0 <= i < replay.len() ==> (#[trigger] replay[i]).place() <= cursor,
            self.subscribe(run, scope, from, listener).0.listening(
                run,
                scope,
                from,
                replay,
                receiver,
                self.active[run].listeners.len() as int,
            ),
    {
        self.store.events_are_in_order(run, scope, from);
        let events = self.store.runs[run].events;
        let keep = |event: E| event.place() > from;
        assert(self.store.runs[run].sound());
        assert(replay + listener.offered =~= replay);
        if replay.len() > 0 {
            let last = replay.last();
            assert(replay.contains(last));
            crate::store_laws::lemma_filter_contains(events, keep, last);
            let i = events.index_of(last);
            assert(events[i] == last);
            if i < events.len() - 1 {
                assert(events[i].place() < events[events.len() - 1].place());
            }
            assert forall|j: int| 0 <= j < replay.len() implies (#[trigger] replay[j]).place()
                <= cursor by {
                if j < replay.len() - 1 {
                    assert(replay[j].place() < replay[replay.len() - 1].place());
                }
            }
        }
    }

    /// Who listens goes on missing nothing when an event is appended or events are committed, as
    /// long as their channel takes what it is sent.
    pub proof fn listeners_miss_nothing(
        self,
        run: Seq<char>,
        session: Seq<char>,
        scope: Seq<char>,
        plan: CommitPlanView<D>,
        events: Seq<E>,
        event: E,
        clock: Clock,
        answers: Seq<Seq<bool>>,
        given: Seq<bool>,
        from: int,
        replay: Seq<E>,
        receiver: UnboundedReceiver<E>,
        i: int,
    )
        requires
            self.in_step(),
            self.listening(run, scope, from, replay, receiver, i),
            from <= self.active[run].seq,
            self.builds(run, session, scope, plan) ==> events.len() == plan.event_count,
        ensures
            ({
                let (after, result) = self.append(run, scope, event, given);
                result matches Ok(AppendEventResult::Recorded(_)) ==> gone(
                    after.said,
                    self.said.len(),
                    self.active[run].listeners[i].half,
                ) || exists|j: int| #[trigger]
                    after.listening(run, scope, from, replay, receiver, j)
            }),
            ({
                let (after, result) = self.commit(
                    run,
                    session,
                    scope,
                    plan,
                    events,
                    clock,
                    answers,
                );
                result matches Ok(RunCommitResultView::Recorded(_)) ==> gone(
                    after.said,
                    self.said.len(),
                    self.active[run].listeners[i].half,
                ) || exists|j: int| #[trigger]
                    after.listening(run, scope, from, replay, receiver, j)
            }),
    {
        let listener = self.active[run].listeners[i];
        let keep = |event: E| event.place() > from;
        if self.store.runs.contains_key(run) {
            assert(self.run_in_step(run));
        }
        let old_events = self.store.runs[run].events;
        let (appended, result) = self.append(run, scope, event, given);
        if result matches Ok(AppendEventResult::Recorded(_)) {
            let ready = renumbered(self.active, run, self.active[run].seq + 1);
            telling_reaches_all(ready, self.said, run, event, false, given);
            assert(old_events.push(event) =~= old_events + seq![event]);
            lemma_later_events(old_events, seq![event], from);
            let after = appended.active[run].listeners;
            assert(served(listener, after, seq![event], appended.said, self.said.len()));
            if after.contains(heard(listener, seq![event])) {
                let j = after.index_of(heard(listener, seq![event]));
                assert(replay + (listener.offered + seq![event]) =~= replay + listener.offered
                    + seq![event]);
                assert(appended.listening(run, scope, from, replay, receiver, j));
            }
        }
        let (committed, answer) = self.commit(run, session, scope, plan, events, clock, answers);
        if answer matches Ok(RunCommitResultView::Recorded(_)) {
            let ready = counted(self.active, run, plan.event_count);
            telling_all_reaches_all(ready, self.said, run, events, false, answers);
            self.built_events_follow(run, session, plan.finish, events);
            lemma_later_events(old_events, events, from);
            let after = committed.active[run].listeners;
            assert(served(listener, after, events, committed.said, self.said.len()));
            if after.contains(heard(listener, events)) {
                let j = after.index_of(heard(listener, events));
                assert(replay + (listener.offered + events) =~= replay + listener.offered + events);
                assert(committed.listening(run, scope, from, replay, receiver, j));
            }
        }
    }
}

/// Whether each who listened was sent some events, or has gone.
pub open spec fn all_told<E>(
    listeners: Seq<ListenerView<E>>,
    events: Seq<E>,
    said: Seq<Sent<E>>,
    from: nat,
) -> bool {
    forall|j: int, e: int|
        0 <= j < listeners.len() && 0 <= e < events.len() ==> sent_on(
            said,
            from,
            (#[trigger] listeners[j]).half,
            #[trigger] events[e],
        ) || gone(said, from, listeners[j].half)
}

/// Events with later places are among those after a place.
proof fn lemma_later_events<E: RunEvent>(events: Seq<E>, more: Seq<E>, from: int)
    requires
        forall|i: int| 0 <= i < more.len() ==> (#[trigger] more[i]).place() > from,
    ensures
        (events + more).filter(|event: E| event.place() > from) == events.filter(
            |event: E| event.place() > from,
        ) + more,
    decreases more.len(),
{
    let keep = |event: E| event.place() > from;
    Seq::filter_distributes_over_add(events, more, keep);
    assert(more.filter(keep) == more) by {
        lemma_filter_all(more, keep);
    }
}

/// Where all pass, a filter changes nothing.
proof fn lemma_filter_all<T>(all: Seq<T>, keep: spec_fn(T) -> bool)
    requires
        forall|i: int| 0 <= i < all.len() ==> keep(#[trigger] all[i]),
    ensures
        all.filter(keep) == all,
    decreases all.len(),
{
    reveal(Seq::filter);
    if all.len() > 0 {
        let shorter = all.drop_last();
        assert forall|i: int| 0 <= i < shorter.len() implies keep(#[trigger] shorter[i]) by {
            assert(shorter[i] == all[i]);
        }
        lemma_filter_all(shorter, keep);
        assert(keep(all[all.len() - 1]));
        assert(shorter.push(all.last()) =~= all);
    }
}

/// Those who were sent the last of some events, and then more, were sent the last of all.
proof fn lemma_followed_keep_up<E>(
    before: Seq<ListenerView<E>>,
    after: Seq<ListenerView<E>>,
    events: Seq<E>,
    more: Seq<E>,
)
    requires
        all_keep_up(before, events),
        followed(before, after, more),
    ensures
        all_keep_up(after, events + more),
{
    assert forall|i: int| 0 <= i < after.len() implies keeps_up(
        #[trigger] after[i],
        events + more,
    ) by {
        let j = choose|j: int|
            0 <= j < before.len() && after[i] == heard(#[trigger] before[j], more);
        assert(keeps_up(before[j], events));
        let all = events + more;
        assert(after[i].offered =~= all.skip(all.len() - after[i].offered.len()));
    }
}

/// Taking back a number that was given out leaves the registry as it was.
pub proof fn taking_back_undoes<E>(runs: Map<Seq<char>, ActiveView<E>>, run: Seq<char>)
    requires
        runs.contains_key(run),
    ensures
        ({
            let seq = runs[run].seq + 1;
            crate::registry::numbered(
                crate::registry::numbered(runs, run, seq),
                run,
                seq - 1,
            ) == runs
        }),
{
    let seq = runs[run].seq + 1;
    assert(crate::registry::numbered(crate::registry::numbered(runs, run, seq), run, seq - 1)
        =~= runs);
}

/// The events that a tail lets through, of those that arrive, and the place where it stands then.
pub open spec fn passed<E: RunEvent>(place: int, arrived: Seq<E>) -> (Seq<E>, int)
    decreases arrived.len(),
{
    if arrived.len() == 0 {
        (Seq::empty(), place)
    } else {
        let (events, now) = passed(place, arrived.drop_last());
        let event = arrived.last();
        (
            if lets_through(now, event) {
                events.push(event)
            } else {
                events
            },
            stands_at(now, event),
        )
    }
}

/// Of the events that arrive, a tail lets through those with later places, in order and none twice:
/// what it does not let through was at or before the place where it stood, and it stands at the last
/// that it let through.
pub proof fn tails_are_in_order<E: RunEvent>(place: int, arrived: Seq<E>)
    ensures
        ({
            let (events, now) = passed(place, arrived);
            &&& in_order(events)
            &&& forall|i: int|
                0 <= i < events.len() ==> place < (#[trigger] events[i]).place() <= now
            &&& now == if events.len() == 0 {
                place
            } else {
                events.last().place()
            }
            &&& forall|i: int| 0 <= i < arrived.len() ==> (#[trigger] arrived[i]).place() <= now
            &&& forall|i: int|
                0 <= i < arrived.len() && (#[trigger] arrived[i]).place() > passed(
                    place,
                    arrived.take(i),
                ).1 ==> events.contains(arrived[i])
        }),
    decreases arrived.len(),
{
    let (events, now) = passed(place, arrived);
    if arrived.len() > 0 {
        let fewer = arrived.drop_last();
        let event = arrived.last();
        let (before, then) = passed(place, fewer);
        tails_are_in_order(place, fewer);
        assert forall|i: int| 0 <= i < arrived.len() implies (#[trigger] arrived[i]).place()
            <= now by {
            if i < fewer.len() {
                assert(fewer[i] == arrived[i]);
            }
        }
        assert forall|i: int|
            0 <= i < arrived.len() && (#[trigger] arrived[i]).place() > passed(
                place,
                arrived.take(i),
            ).1 implies events.contains(arrived[i]) by {
            if i < fewer.len() {
                assert(fewer[i] == arrived[i]);
                assert(fewer.take(i) =~= arrived.take(i));
                assert(before.contains(fewer[i]));
                let j = before.index_of(fewer[i]);
                assert(events[j] == arrived[i]);
            } else {
                assert(arrived.take(i) =~= fewer);
                assert(events[events.len() - 1] == event);
            }
        }
    }
}

/// The event that ends a run is sent once, and nothing after it.
pub proof fn nothing_after_the_end<E>(
    runs: Map<Seq<char>, ActiveView<E>>,
    said: Seq<Sent<E>>,
    run: Seq<char>,
    event: E,
    answers: Seq<bool>,
    later: E,
    terminal: bool,
    given: Seq<bool>,
)
    requires
        open_to(runs, run),
    ensures
        ({
            let after = told(runs, run, event, true, answers);
            let now = said_told(said, runs, run, event, answers);
            &&& now == said + sends(
                runs[run].listeners,
                same(event, runs[run].listeners.len()),
                answers,
            )
            &&& !open_to(after, run)
            &&& told(after, run, later, terminal, given) == after
            &&& said_told(now, after, run, later, given) == now
        }),
{
}

} // verus!
