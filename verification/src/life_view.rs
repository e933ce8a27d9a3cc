//! The mathematical view of a lifecycle, and what each operation makes of it.

use vstd::prelude::*;

use tokio::sync::mpsc::{UnboundedReceiver, UnboundedSender};

use crate::channel::{ListenerView, Sent};
use crate::error::{invalid, ErrorView};
use crate::model::{ends, ends_early, first_failure, Clock};
use crate::op::PageView;
use crate::registry::{
    fresh, has_numbers, listened, open_to, said_told, told, ActiveView, HandleView,
};
use crate::store::{
    last_place, CommitPlanView, FinishRunResult, RunCommitResultView, RunCommitView, RunEvent,
    RunFinishView, RunLookupView, RunStartView, RunStatus, StoreStartResultView,
};
use crate::store_view::StoreView;

verus! {

/// What became of an event.
#[derive(Debug)]
pub enum AppendEventResult<E> {
    /// It was recorded.
    Recorded(E),
    /// The run had ended.
    Skipped,
}

/// Why a run was not started here.
#[derive(Debug, Clone, Copy, PartialEq, Eq, Structural)]
pub enum StartRunRejection {
    /// As many runs as may be are in flight.
    CapacityExceeded,
    /// The run is active already.
    RunAlreadyActive,
}

/// How the start of a run ended.
pub enum StartRunResultView {
    Started,
    Existing(RunLookupView),
    NotRegistered(StartRunRejection),
}

/// What a subscriber gets.
#[verifier::reject_recursive_types(E)]
pub enum RunSubscriptionView<E> {
    Active { replay: Seq<E>, cursor: int, receiver: UnboundedReceiver<E> },
    Replay { events: Seq<E>, cursor: int },
    Inactive { status: RunStatus, replay: Seq<E> },
    Missing,
}

/// Whether a tail that stands at a place lets an event through.
pub open spec fn lets_through<E: RunEvent>(place: int, event: E) -> bool {
    event.place() > place
}

/// Where a tail stands after an event arrived.
pub open spec fn stands_at<E: RunEvent>(place: int, event: E) -> int {
    if lets_through(place, event) {
        event.place()
    } else {
        place
    }
}

/// How many events a subscriber gets at once.
pub open spec fn replay_limit() -> nat {
    1024
}

/// Why an event does not end a run as it was asked to.
pub open spec fn finish_event_refusal<E: RunEvent, D>(
    finish: RunFinishView<D>,
    event: E,
    seq: int,
) -> Option<ErrorView> {
    if event.run() != finish.run_id {
        Some(invalid("event run_id does not match target run"@))
    } else if event.session() != finish.session_id {
        Some(invalid("event session_id does not match target run"@))
    } else if event.place() != seq {
        Some(invalid("event seq does not match allocated seq"@))
    } else if !event.terminal() {
        Some(invalid("finish_run requires a terminal event"@))
    } else {
        None
    }
}

/// Why an event cannot be appended to a run under a number.
pub open spec fn append_refusal<E: RunEvent>(run: Seq<char>, event: E, seq: int) -> Option<
    ErrorView,
> {
    if event.run() != run {
        Some(invalid("event run_id does not match target run"@))
    } else if event.place() != seq {
        Some(invalid("event seq does not match allocated seq"@))
    } else if event.terminal() {
        Some(invalid("append_event does not accept terminal events"@))
    } else {
        None
    }
}

/// Why an event was not built for a run and a number.
pub open spec fn built_refusal<E: RunEvent>(
    run: Seq<char>,
    session: Seq<char>,
    event: E,
    seq: int,
) -> Option<ErrorView> {
    if event.run() != run {
        Some(invalid("event run_id does not match target run"@))
    } else if event.session() != session {
        Some(invalid("event session_id does not match target run"@))
    } else if event.place() != seq {
        Some(invalid("event seq does not match allocated seq"@))
    } else {
        None
    }
}

/// Why events that were built for the numbers after `base` cannot be committed.
pub open spec fn built_events_refusal<E: RunEvent, D>(
    run: Seq<char>,
    session: Seq<char>,
    finish: Option<RunFinishView<D>>,
    events: Seq<E>,
    base: int,
) -> Option<ErrorView> {
    let failed = first_failure(
        events.len(),
        |i: int| built_refusal(run, session, events[i], base + 1 + i),
    );
    if failed is Some {
        failed
    } else {
        match finish {
            Some(finish) => if events.len() == 0 {
                Some(invalid("finish commit requires a terminal event"@))
            } else if ends_early(events) {
                Some(invalid("only the last commit event may be terminal"@))
            } else {
                finish_event_refusal(finish, events.last(), base + events.len())
            },
            None => if ends(events) {
                Some(invalid("non-finish commit does not accept terminal events"@))
            } else {
                None
            },
        }
    }
}

/// Why a plan of a commit is refused before any event is built.
pub open spec fn plan_refusal<D>(
    run: Seq<char>,
    session: Seq<char>,
    plan: CommitPlanView<D>,
) -> Option<ErrorView> {
    if plan.event_count == 0 && plan.effects.len() == 0 && plan.items.len() == 0
        && plan.entries.len() == 0 {
        Some(invalid("commit requires an event, effect, item, or entry"@))
    } else {
        match plan.finish {
            Some(finish) => if !finish.status.terminal() {
                Some(invalid("finish_run requires a terminal status"@))
            } else if finish.run_id != run || finish.session_id != session {
                Some(invalid("finish target does not match committed run"@))
            } else {
                None
            },
            None => None,
        }
    }
}

/// The commit of a plan with its events.
pub open spec fn planned_commit<E, D>(
    run: Seq<char>,
    session: Seq<char>,
    scope: Seq<char>,
    plan: CommitPlanView<D>,
    events: Seq<E>,
) -> RunCommitView<E, D> {
    RunCommitView {
        run_id: run,
        session_id: session,
        scope,
        lease: plan.lease,
        checkpoint: plan.checkpoint,
        events,
        effects: plan.effects,
        items: plan.items,
        entries: plan.entries,
        finish: plan.finish,
    }
}

/// The active runs with another last event number for one of them.
pub open spec fn renumbered<E>(
    active: Map<Seq<char>, ActiveView<E>>,
    run: Seq<char>,
    seq: int,
) -> Map<Seq<char>, ActiveView<E>> {
    active.insert(run, ActiveView { seq, ..active[run] })
}

/// The active runs, and what was sent, after events were sent, in order, to those who listen to one
/// of them. Where `closing` is set, nothing is sent after an event that ends the run.
pub open spec fn told_all<E: RunEvent>(
    active: Map<Seq<char>, ActiveView<E>>,
    said: Seq<Sent<E>>,
    run: Seq<char>,
    events: Seq<E>,
    closing: bool,
    answers: Seq<Seq<bool>>,
) -> (Map<Seq<char>, ActiveView<E>>, Seq<Sent<E>>)
    decreases events.len(),
{
    if events.len() == 0 {
        (active, said)
    } else {
        let (active, said) = told_all(active, said, run, events.drop_last(), closing, answers);
        let event = events.last();
        let given = answers[events.len() - 1];
        (
            told(active, run, event, closing && event.terminal(), given),
            said_told(said, active, run, event, given),
        )
    }
}

/// The active runs with other numbers given out for a run, where there were any to give.
pub open spec fn counted<E>(
    active: Map<Seq<char>, ActiveView<E>>,
    run: Seq<char>,
    count: nat,
) -> Map<Seq<char>, ActiveView<E>> {
    if count > 0 {
        renumbered(active, run, active[run].seq + count)
    } else {
        active
    }
}

/// The active runs with the numbers of a run after `base` taken back, where any were given out.
pub open spec fn uncounted<E>(
    active: Map<Seq<char>, ActiveView<E>>,
    run: Seq<char>,
    count: nat,
    base: int,
) -> Map<Seq<char>, ActiveView<E>> {
    if count > 0 {
        renumbered(active, run, base)
    } else {
        active
    }
}

/// The active runs, and what was sent, after the answer to a commit of `count` events of a run.
pub open spec fn settled<E: RunEvent>(
    active: Map<Seq<char>, ActiveView<E>>,
    said: Seq<Sent<E>>,
    run: Seq<char>,
    count: nat,
    result: Result<RunCommitResultView<E>, ErrorView>,
    answers: Seq<Seq<bool>>,
) -> (Map<Seq<char>, ActiveView<E>>, Seq<Sent<E>>) {
    match result {
        Err(_) => (active, said),
        Ok(RunCommitResultView::Recorded(events)) => told_all(
            counted(active, run, count),
            said,
            run,
            events,
            false,
            answers,
        ),
        Ok(RunCommitResultView::Finished { events, .. }) => (
            active.remove(run),
            told_all(counted(active, run, count), said, run, events, true, answers).1,
        ),
        Ok(RunCommitResultView::Skipped) => (active.remove(run), said),
    }
}

/// What someone gets who listens to a run from a place on, after a page of its events.
pub open spec fn subscribed<E: RunEvent>(
    status: RunStatus,
    owner: Option<Seq<char>>,
    receiver: Option<UnboundedReceiver<E>>,
    page: PageView<E>,
    cursor: int,
) -> Result<RunSubscriptionView<E>, ErrorView> {
    if status is Running && receiver is None {
        Err(ErrorView::NotOwner { owner })
    } else if page.next is Some {
        Ok(RunSubscriptionView::Replay { events: page.items, cursor: page.next->0 })
    } else if status is Running {
        Ok(
            RunSubscriptionView::Active {
                replay: page.items,
                cursor: match last_place(page.items) {
                    Some(last) => if last > cursor {
                        last
                    } else {
                        cursor
                    },
                    None => cursor,
                },
                receiver: receiver->0,
            },
        )
    } else {
        Ok(RunSubscriptionView::Inactive { status, replay: page.items })
    }
}

/// The answer to one who asks a run to stop, of which the store tells something or nothing: the
/// handle of a run that is active here and has not ended.
pub open spec fn cancel_answer<E>(
    active: Map<Seq<char>, ActiveView<E>>,
    run: Seq<char>,
    lookup: Option<RunLookupView>,
) -> Result<Option<HandleView>, ErrorView> {
    match lookup {
        None => Err(ErrorView::RunNotFound),
        Some(lookup) => if lookup.status.terminal() {
            Ok(None)
        } else if active.contains_key(run) {
            Ok(Some(active[run].handle))
        } else {
            Err(ErrorView::NotOwner { owner: lookup.owner })
        },
    }
}

/// A run store and the runs that are active here.
#[verifier::ext_equal]
#[verifier::reject_recursive_types(E)]
pub struct LifeView<E, D> {
    /// The active runs.
    pub active: Map<Seq<char>, ActiveView<E>>,
    /// The store.
    pub store: StoreView<E, D>,
    /// How many runs may be active.
    pub max_in_flight: nat,
    /// All that was ever sent to those who listened.
    pub said: Seq<Sent<E>>,
    /// The flags of the handles that were made here.
    pub flags: Seq<bool>,
}

impl<E: RunEvent, D> LifeView<E, D> {
    /// Starts a run here: it is registered before it is stored, and taken off again where the
    /// store does not start it.
    pub open spec fn start_run(
        self,
        start: RunStartView,
        handle: HandleView,
        sender: Option<UnboundedSender<E>>,
        clock: Clock,
    ) -> (Self, Result<StartRunResultView, ErrorView>) {
        let keyed = match start.client_run_key {
            Some(key) => self.store.find_idempotent_run(start.scope, start.session_id, key),
            None => None,
        };
        let known = match self.store.lookup_run(start.run_id, start.scope) {
            Some(lookup) => Some(lookup),
            None => keyed,
        };
        match known {
            Some(lookup) => match self.store.check_run_start(
                lookup.run_id,
                start.scope,
                start.input,
                start.entries,
            ) {
                Ok(_) => (self, Ok(StartRunResultView::Existing(lookup))),
                Err(error) => (self, Err(error)),
            },
            None => if self.active.contains_key(start.run_id) {
                (
                    self,
                    Ok(StartRunResultView::NotRegistered(StartRunRejection::RunAlreadyActive)),
                )
            } else if self.active.len() >= self.max_in_flight {
                (
                    self,
                    Ok(StartRunResultView::NotRegistered(StartRunRejection::CapacityExceeded)),
                )
            } else {
                let (store, result) = self.store.start_run(start, clock);
                match result {
                    Ok(StoreStartResultView::Created) => (
                        LifeView {
                            active: self.active.insert(start.run_id, fresh(handle, sender)),
                            store,
                            ..self
                        },
                        Ok(StartRunResultView::Started),
                    ),
                    Ok(StoreStartResultView::Existing(lookup)) => (
                        LifeView { store, ..self },
                        Ok(StartRunResultView::Existing(lookup)),
                    ),
                    Err(error) => (LifeView { store, ..self }, Err(error)),
                }
            },
        }
    }

    /// Whether a run can be given event numbers: it is in the scope, and active.
    pub open spec fn numbers(self, run: Seq<char>, scope: Seq<char>) -> bool {
        self.store.lookup_run(run, scope) is Some && self.active.contains_key(run)
    }

    /// Whether a run has so many numbers left to give.
    pub open spec fn countable(self, run: Seq<char>, count: nat) -> bool {
        has_numbers(self.active, run, count)
    }

    /// Appends an event that was built under the next number of a run.
    pub open spec fn append(
        self,
        run: Seq<char>,
        scope: Seq<char>,
        event: E,
        answers: Seq<bool>,
    ) -> (Self, Result<AppendEventResult<E>, ErrorView>) {
        let seq = self.active[run].seq + 1;
        if !self.numbers(run, scope) {
            (self, Err(ErrorView::RunNotFound))
        } else if append_refusal(run, event, seq) is Some {
            (self, Err(append_refusal(run, event, seq)->0))
        } else {
            let (store, result) = self.store.record_event(run, scope, event);
            let active = renumbered(self.active, run, seq);
            match result {
                Err(error) => (LifeView { active, store, ..self }, Err(error)),
                Ok(true) => (
                    LifeView {
                        active: told(active, run, event, false, answers),
                        store,
                        said: said_told(self.said, active, run, event, answers),
                        ..self
                    },
                    Ok(AppendEventResult::Recorded(event)),
                ),
                Ok(false) => (
                    LifeView { active: active.remove(run), store, ..self },
                    Ok(AppendEventResult::Skipped),
                ),
            }
        }
    }

    /// Ends a run that is active here, with an event that was built under its next number.
    pub open spec fn finish(
        self,
        finish: RunFinishView<D>,
        event: E,
        clock: Clock,
        answers: Seq<bool>,
    ) -> (Self, Result<FinishRunResult<E>, ErrorView>) {
        let run = finish.run_id;
        let seq = self.active[run].seq + 1;
        if !finish.status.terminal() {
            (self, Err(invalid("finish_run requires a terminal status"@)))
        } else if self.store.lookup_run(run, finish.scope) is None {
            (self, Err(ErrorView::RunNotFound))
        } else if !self.active.contains_key(run) {
            match self.store.terminal_event(run, finish.scope) {
                Some(event) => (self, Ok(FinishRunResult::AlreadyFinished(event))),
                None => (self, Err(ErrorView::RunNotFound)),
            }
        } else if finish_event_refusal(finish, event, seq) is Some {
            (self, Err(finish_event_refusal(finish, event, seq)->0))
        } else {
            let (store, result) = self.store.finish_run(finish.record(event), clock);
            match result {
                Err(error) => (
                    LifeView { active: renumbered(self.active, run, seq), store, ..self },
                    Err(error),
                ),
                Ok(result) => (
                    LifeView {
                        active: self.active.remove(run),
                        store,
                        said: said_told(self.said, self.active, run, result.event(), answers),
                        ..self
                    },
                    Ok(result),
                ),
            }
        }
    }

    /// The number after the last event of a run in the store.
    pub open spec fn detached_seq(self, run: Seq<char>, scope: Seq<char>) -> int {
        match last_place(self.store.events_after(run, scope, 0)) {
            Some(last) => last + 1,
            None => 1,
        }
    }

    /// Ends a run that is not active here, with an event that was built under the number after the
    /// last in the store.
    pub open spec fn finish_detached(self, finish: RunFinishView<D>, event: E, clock: Clock) -> (
        Self,
        Result<FinishRunResult<E>, ErrorView>,
    ) {
        let run = finish.run_id;
        let seq = self.detached_seq(run, finish.scope);
        if !finish.status.terminal() {
            (self, Err(invalid("finish_run requires a terminal status"@)))
        } else if self.store.lookup_run(run, finish.scope) is None {
            (self, Err(ErrorView::RunNotFound))
        } else if self.active.contains_key(run) {
            (self, Err(ErrorView::RunAlreadyActive))
        } else if self.store.terminal_event(run, finish.scope) is Some {
            (
                self,
                Ok(
                    FinishRunResult::AlreadyFinished(
                        self.store.terminal_event(run, finish.scope)->0,
                    ),
                ),
            )
        } else if finish_event_refusal(finish, event, seq) is Some {
            (self, Err(finish_event_refusal(finish, event, seq)->0))
        } else {
            let (store, result) = self.store.finish_run(finish.record(event), clock);
            (LifeView { store, ..self }, result)
        }
    }

    /// Whether a plan gets as far as having its events built.
    pub open spec fn builds(
        self,
        run: Seq<char>,
        session: Seq<char>,
        scope: Seq<char>,
        plan: CommitPlanView<D>,
    ) -> bool {
        &&& plan_refusal(run, session, plan) is None
        &&& self.store.lookup_run(run, scope) is Some
        &&& plan.event_count == 0 || self.active.contains_key(run)
    }

    /// Commits a plan with events that were built under the next numbers of the run. Where the
    /// store refuses it, the numbers are taken back.
    pub open spec fn commit(
        self,
        run: Seq<char>,
        session: Seq<char>,
        scope: Seq<char>,
        plan: CommitPlanView<D>,
        events: Seq<E>,
        clock: Clock,
        answers: Seq<Seq<bool>>,
    ) -> (Self, Result<RunCommitResultView<E>, ErrorView>) {
        let base = self.active[run].seq;
        if plan_refusal(run, session, plan) is Some {
            (self, Err(plan_refusal(run, session, plan)->0))
        } else if self.store.lookup_run(run, scope) is None {
            (self, Err(ErrorView::RunNotFound))
        } else if !self.builds(run, session, scope, plan) {
            if plan.finish is Some && self.store.terminal_event(run, scope) is Some {
                let event = self.store.terminal_event(run, scope)->0;
                (
                    self,
                    Ok(
                        RunCommitResultView::Finished {
                            events: seq![event],
                            result: FinishRunResult::AlreadyFinished(event),
                        },
                    ),
                )
            } else {
                (self, Err(ErrorView::RunNotFound))
            }
        } else if built_events_refusal(run, session, plan.finish, events, base) is Some {
            (self, Err(built_events_refusal(run, session, plan.finish, events, base)->0))
        } else {
            let (store, result) = self.store.commit_run(
                planned_commit(run, session, scope, plan, events),
                clock,
            );
            let (active, said) = settled(
                self.active,
                self.said,
                run,
                plan.event_count,
                result,
                answers,
            );
            (LifeView { active, store, said, ..self }, result)
        }
    }

    /// Asks a run that is active here to stop: its flag is set, and the store notes it.
    pub open spec fn request_cancel(self, run: Seq<char>, scope: Seq<char>) -> (
        Self,
        Result<Option<HandleView>, ErrorView>,
    ) {
        let answer = cancel_answer(self.active, run, self.store.lookup_run(run, scope));
        match answer {
            Ok(Some(handle)) => (
                LifeView {
                    store: self.store.mark_cancelled(run, scope).0,
                    flags: handle.raise(self.flags),
                    ..self
                },
                answer,
            ),
            _ => (self, answer),
        }
    }

    /// What someone gets who listens to a run from a place on: the events so far, a page at a
    /// time, and where the run is active here, those to come, on a channel whose sending half
    /// listens from then on.
    pub open spec fn subscribe(
        self,
        run: Seq<char>,
        scope: Seq<char>,
        cursor: int,
        listener: ListenerView<E>,
    ) -> (Self, Result<RunSubscriptionView<E>, ErrorView>) {
        let page = self.store.list_events(run, scope, cursor, replay_limit())->Ok_0;
        match self.store.lookup_run(run, scope) {
            None => (self, Ok(RunSubscriptionView::Missing)),
            Some(lookup) => if lookup.status is Running && open_to(self.active, run) {
                (
                    LifeView { active: listened(self.active, run, listener), ..self },
                    subscribed(lookup.status, lookup.owner, listener.peer, page, cursor),
                )
            } else {
                (self, subscribed(lookup.status, lookup.owner, None, page, cursor))
            },
        }
    }
}

} // verus!
