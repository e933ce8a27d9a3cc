//! The life of runs: a store, and the runs that are active here.

use vstd::prelude::*;
use vstd::std_specs::cmp::{PartialEqSpec, PartialOrdSpec};

use tokio::sync::mpsc::{UnboundedReceiver, UnboundedSender};

use crate::channel::ListenerView;
use crate::error::{plain, seen, seen_opt, MachineError};
use crate::flag::{with_flag, Flags};
use crate::flow::{
    allot, allot_many, cancel_active, check_append, enlist, settle_append, settle_commit, settle_finish,
    settle_start, take_back, take_back_many, validate_built_events, validate_finish_event,
    validate_plan, StartRunResult,
};
use crate::ids::{RunId, SessionId};
use crate::json::Json;
use crate::life_view::{
    built_events_refusal, lets_through, planned_commit, renumbered, settled, stands_at, subscribed,
    uncounted, AppendEventResult, LifeView, RunSubscriptionView,
};
use crate::memory::MemoryRunStore;
use crate::model::{numberable, Clock};
use crate::op::Page;
use crate::registry::{handles_known, said_told, told, HandleView, RunHandle, RunRegistry};
use crate::store::{
    last_seq, CommitPlan, CommitPlanView, FinishRunResult, RunCommit, RunCommitResult, RunEvent,
    RunEventEnvelope, RunEventPayload, RunFinish, RunFinishView, RunLookup, RunStart, RunStatus,
};
use crate::store_view::session_name;
use crate::text::opt;

verus! {

/// How many events a subscriber gets at once.
pub const REPLAY_LIMIT: usize = 1024;

/// A place in the events of a run.
#[derive(Debug, Clone, Copy, Eq, Ord)]
pub struct RunCursor(i64);

impl PartialEq for RunCursor {
    fn eq(&self, other: &Self) -> (same: bool) {
        self.0 == other.0
    }
}

impl vstd::std_specs::cmp::PartialEqSpecImpl for RunCursor {
    open spec fn obeys_eq_spec() -> bool {
        true
    }

    open spec fn eq_spec(&self, other: &Self) -> bool {
        self@ == other@
    }
}

impl PartialOrd for RunCursor {
    fn partial_cmp(&self, other: &Self) -> (order: Option<std::cmp::Ordering>) {
        self.0.partial_cmp(&other.0)
    }
}

impl vstd::std_specs::cmp::PartialOrdSpecImpl for RunCursor {
    open spec fn obeys_partial_cmp_spec() -> bool {
        true
    }

    open spec fn partial_cmp_spec(&self, other: &Self) -> Option<std::cmp::Ordering> {
        if self@ < other@ {
            Some(std::cmp::Ordering::Less)
        } else if self@ > other@ {
            Some(std::cmp::Ordering::Greater)
        } else {
            Some(std::cmp::Ordering::Equal)
        }
    }
}

impl View for RunCursor {
    type V = int;

    closed spec fn view(&self) -> int {
        self.0 as int
    }
}

impl RunCursor {
    /// Before the first event.
    pub fn start() -> (cursor: RunCursor)
        ensures
            cursor@ == 0,
    {
        RunCursor(0)
    }

    /// The place of an event.
    pub fn new(seq: i64) -> (cursor: RunCursor)
        ensures
            cursor@ == seq,
    {
        RunCursor(seq)
    }

    /// The place as a number.
    pub fn as_i64(self) -> (seq: i64)
        ensures
            seq == self@,
    {
        self.0
    }
}

impl Default for RunCursor {
    fn default() -> (cursor: Self)
        ensures
            cursor@ == 0,
    {
        RunCursor::start()
    }
}

impl From<i64> for RunCursor {
    fn from(seq: i64) -> (cursor: Self)
        ensures
            cursor@ == seq,
    {
        RunCursor(seq)
    }
}

impl vstd::std_specs::convert::FromSpecImpl<i64> for RunCursor {
    closed spec fn obeys_from_spec() -> bool {
        true
    }

    closed spec fn from_spec(seq: i64) -> Self {
        RunCursor(seq)
    }
}

impl From<RunCursor> for i64 {
    fn from(cursor: RunCursor) -> (seq: Self)
        ensures
            seq == cursor@,
    {
        cursor.0
    }
}

impl vstd::std_specs::convert::FromSpecImpl<RunCursor> for i64 {
    open spec fn obeys_from_spec() -> bool {
        true
    }

    open spec fn from_spec(cursor: RunCursor) -> Self {
        cursor@ as i64
    }
}

/// Cursors are the same, and come before each other, as their places do.
pub proof fn cursors_go_by_place(left: RunCursor, right: RunCursor)
    ensures
        left.eq_spec(&right) <==> left@ == right@,
        left@ == right@ <==> left == right,
        left.partial_cmp_spec(&right) == Some(std::cmp::Ordering::Less) <==> left@ < right@,
        left.partial_cmp_spec(&right) == Some(std::cmp::Ordering::Greater) <==> left@ > right@,
        left.partial_cmp_spec(&right) == Some(std::cmp::Ordering::Equal) <==> left@ == right@,
{
}

/// A page of events, and where the next begins.
#[derive(Debug)]
pub struct ReplayPage<E> {
    events: Vec<E>,
    cursor: RunCursor,
}

impl<E> ReplayPage<E> {
    /// The events of the page.
    pub closed spec fn replayed(&self) -> Seq<E> {
        self.events@
    }

    /// The place after which the next page begins.
    pub closed spec fn place(&self) -> int {
        self.cursor@
    }

    fn new(events: Vec<E>, cursor: RunCursor) -> (page: Self)
        ensures
            page.replayed() == events@,
            page.place() == cursor@,
    {
        ReplayPage { events, cursor }
    }

    /// The events of the page.
    pub fn events(&self) -> (events: &[E])
        ensures
            events@ == self.replayed(),
    {
        self.events.as_slice()
    }

    /// The events of the page.
    pub fn into_events(self) -> (events: Vec<E>)
        ensures
            events@ == self.replayed(),
    {
        self.events
    }

    /// The place after which the next page begins.
    pub fn cursor(&self) -> (cursor: RunCursor)
        ensures
            cursor@ == self.place(),
    {
        self.cursor
    }
}

impl<E> std::ops::Deref for ReplayPage<E> {
    type Target = [E];

    /// The events of the page.
    fn deref(&self) -> (events: &[E])
        ensures
            events@ == self.replayed(),
    {
        self.events.as_slice()
    }
}

/// The events of a run to come.
#[verifier::reject_recursive_types(E)]
pub struct RunTail<E> {
    /// Where they arrive.
    pub receiver: UnboundedReceiver<E>,
    cursor: RunCursor,
}

impl<E: RunEvent> RunTail<E> {
    /// The place of the last event that was let through.
    pub closed spec fn place(&self) -> int {
        self.cursor@
    }

    /// The receiving half on which they arrive.
    pub closed spec fn channel(&self) -> UnboundedReceiver<E> {
        self.receiver
    }

    /// The events that a receiver gets, from a place on.
    pub fn new(receiver: UnboundedReceiver<E>, cursor: RunCursor) -> (tail: Self)
        ensures
            tail.place() == cursor@,
            tail.channel() == receiver,
    {
        RunTail { receiver, cursor }
    }

    /// The place of the last event that was let through.
    pub fn cursor(&self) -> (cursor: RunCursor)
        ensures
            cursor@ == self.place(),
    {
        self.cursor
    }

    /// Lets through an event that arrived, unless its place was reached before.
    pub fn accept(&mut self, event: &E) -> (accepted: bool)
        ensures
            accepted == lets_through(old(self).place(), *event),
            final(self).channel() == old(self).channel(),
            final(self).place() == stands_at(old(self).place(), *event),
    {
        if event.seq() <= self.cursor.as_i64() {
            return false;
        }
        self.cursor = RunCursor::new(event.seq());
        true
    }
}

/// Without events it does not matter which numbers they would have.
proof fn lemma_no_events<E: RunEvent, D>(
    run: Seq<char>,
    session: Seq<char>,
    finish: Option<RunFinishView<D>>,
    events: Seq<E>,
    a: int,
    b: int,
)
    requires
        events.len() == 0,
    ensures
        built_events_refusal(run, session, finish, events, a) == built_events_refusal(
            run,
            session,
            finish,
            events,
            b,
        ),
{
}

/// What a subscriber gets.
#[verifier::reject_recursive_types(E)]
pub enum RunSubscription<E> {
    /// The run is active here: its events so far, and those to come.
    Active { replay: Vec<E>, tail: RunTail<E> },
    /// There are more events than one page holds.
    Replay { page: ReplayPage<E> },
    /// The run has ended.
    Inactive { status: RunStatus, replay: Vec<E> },
    /// There is no such run.
    Missing,
}

impl<E: RunEvent> View for RunSubscription<E> {
    type V = RunSubscriptionView<E>;

    open spec fn view(&self) -> RunSubscriptionView<E> {
        match *self {
            RunSubscription::Active { replay, tail } => RunSubscriptionView::Active {
                replay: replay@,
                cursor: tail.place(),
                receiver: tail.channel(),
            },
            RunSubscription::Replay { page } => RunSubscriptionView::Replay {
                events: page.replayed(),
                cursor: page.place(),
            },
            RunSubscription::Inactive { status, replay } => RunSubscriptionView::Inactive {
                status,
                replay: replay@,
            },
            RunSubscription::Missing => RunSubscriptionView::Missing,
        }
    }
}

/// What someone gets who listens to a run: of a run that goes on a page of events and those to
/// come, where it is active here, and of one that has ended its events.
pub fn subscription<E: RunEvent>(
    lookup: RunLookup,
    receiver: Option<UnboundedReceiver<E>>,
    page: Page<E>,
    cursor: RunCursor,
) -> (result: Result<RunSubscription<E>, MachineError>)
    ensures
        seen(result) == subscribed(
            lookup.status,
            opt(lookup.owner),
            receiver,
            page@,
            cursor@,
        ),
{
    if lookup.status == RunStatus::Running && receiver.is_none() {
        return Err(MachineError::NotOwner { owner: lookup.owner });
    }
    if let Some(next) = page.next {
        return Ok(
            RunSubscription::Replay { page: ReplayPage::new(page.items, RunCursor::new(next)) },
        );
    }
    if lookup.status != RunStatus::Running {
        return Ok(RunSubscription::Inactive { status: lookup.status, replay: page.items });
    }
    let mut place: i64 = cursor.as_i64();
    if let Some(last) = last_seq(&page.items) {
        if last > place {
            place = last;
        }
    }
    match receiver {
        Some(receiver) => Ok(
            RunSubscription::Active {
                replay: page.items,
                tail: RunTail::new(receiver, RunCursor::new(place)),
            },
        ),
        None => Err(MachineError::NotOwner { owner: lookup.owner }),
    }
}

/// The life of runs in a store in memory.
#[verifier::reject_recursive_types(E)]
pub struct RunLifecycle<E, D> {
    registry: RunRegistry<E>,
    store: MemoryRunStore<E, D>,
    max_in_flight: usize,
}

impl<E: RunEvent, D> View for RunLifecycle<E, D> {
    type V = LifeView<E, D>;

    closed spec fn view(&self) -> LifeView<E, D> {
        LifeView {
            active: self.registry@,
            store: self.store@,
            max_in_flight: self.max_in_flight as nat,
            said: self.registry.said(),
            flags: self.registry.flagged(),
        }
    }
}

impl<E: RunEvent, D> RunLifecycle<E, D> {
    /// What holds of every lifecycle.
    pub closed spec fn wf(&self) -> bool {
        self.registry.wf() && self.store.wf()
    }

    /// The flag of each run that is active here is among the flags of the lifecycle.
    pub proof fn every_handle_is_known(&self)
        requires
            self.wf(),
        ensures
            handles_known(self@.active, self@.flags),
    {
        self.registry.lemma_handles_known();
    }

    /// A lifecycle of a registry and a store.
    pub fn new(
        registry: RunRegistry<E>,
        store: MemoryRunStore<E, D>,
        max_in_flight: usize,
    ) -> (life: Self)
        requires
            registry.wf(),
            store.wf(),
        ensures
            life.wf(),
            life@ == (LifeView {
                active: registry@,
                store: store@,
                max_in_flight: max_in_flight as nat,
                said: registry.said(),
                flags: registry.flagged(),
            }),
    {
        RunLifecycle { registry, store, max_in_flight }
    }

    /// The registry and the store, apart.
    pub fn into_parts(self) -> (parts: (RunRegistry<E>, MemoryRunStore<E, D>))
        requires
            self.wf(),
        ensures
            parts.0.wf(),
            parts.0@ == self@.active,
            parts.0.said() == self@.said,
            parts.0.flagged() == self@.flags,
            parts.1.wf(),
            parts.1@ == self@.store,
    {
        (self.registry, self.store)
    }

    /// The runs that are active here.
    pub fn registry(&self) -> (registry: &RunRegistry<E>)
        requires
            self.wf(),
        ensures
            registry.wf(),
            registry@ == self@.active,
            registry.said() == self@.said,
            registry.flagged() == self@.flags,
    {
        &self.registry
    }

    /// The store.
    pub fn store(&self) -> (store: &MemoryRunStore<E, D>)
        requires
            self.wf(),
        ensures
            store.wf(),
            store@ == self@.store,
    {
        &self.store
    }

    /// The store, to be changed.
    pub fn store_mut(&mut self) -> (store: &mut MemoryRunStore<E, D>)
        requires
            old(self).wf(),
        ensures
            store.wf(),
            store@ == old(self)@.store,
            final(store).wf() ==> final(self).wf(),
            final(self)@ == (LifeView { store: final(store)@, ..old(self)@ }),
    {
        &mut self.store
    }

    /// Adds a session to the store, under a name of the store's own where none is given.
    pub fn ensure_session(&mut self, session_id: Option<SessionId>, scope: &Json) -> (result:
        SessionId)
        requires
            old(self).wf(),
            session_id is None ==> old(self)@.store.next_session + old(self)@.store.sessions.len()
                < u64::MAX,
        ensures
            final(self).wf(),
            final(self)@.active == old(self)@.active,
            final(self)@.max_in_flight == old(self)@.max_in_flight,
            final(self)@.said == old(self)@.said,
            final(self)@.flags == old(self)@.flags,
            match session_id {
                Some(session_id) => result == session_id && final(self)@.store
                    == old(self)@.store.with_session(session_id@, scope@),
                None => {
                    let n = final(self)@.store.next_session;
                    &&& old(self)@.store.first_free(n)
                    &&& result@ == session_name(n)
                    &&& final(self)@.store == old(self)@.store.made_session(n, scope@)
                },
            },
    {
        self.store.ensure_session(session_id, scope)
    }

    /// What the store tells of the run that was started under a client's key.
    pub fn find_idempotent_run(&self, scope: &Json, session_id: &SessionId, key: &str) -> (lookup:
        Option<RunLookup>)
        requires
            self.wf(),
        ensures
            opt(lookup) == self@.store.find_idempotent_run(scope@, session_id@, key@),
    {
        self.store.find_idempotent_run(scope, session_id, key)
    }

    /// Starts a run here.
    pub fn start_run(
        &mut self,
        run: RunStart,
        handle: RunHandle,
        stream_sender: Option<UnboundedSender<E>>,
        clock: Clock,
    ) -> (result: Result<StartRunResult, MachineError>)
        requires
            old(self).wf(),
            handle@.among(old(self)@.flags),
            run.lease matches Some(claim) ==> clock.now + claim.ttl <= u128::MAX,
            numberable(old(self)@.store.entries, run.scope@, run.session_id@, run.entries@.len()),
        ensures
            final(self).wf(),
            (final(self)@, seen(result)) == old(self)@.start_run(
                run@,
                handle@,
                stream_sender,
                clock,
            ),
    {
        let mut known = self.store.lookup_run(&run.run_id, &run.scope);
        if known.is_none() {
            if let Some(key) = &run.client_run_key {
                known = self.store.find_idempotent_run(&run.scope, &run.session_id, key.as_str());
            }
        }
        if let Some(existing) = known {
            return match self.store.check_run_start(
                &existing.run_id,
                &run.scope,
                &run.input,
                &run.entries,
            ) {
                Ok(()) => Ok(StartRunResult::Existing(existing)),
                Err(error) => Err(error),
            };
        }
        let ghost before = self.registry@;
        let ghost listed = crate::registry::fresh(handle@, stream_sender);
        match enlist(
            &mut self.registry,
            run.run_id.clone(),
            handle,
            stream_sender,
            self.max_in_flight,
        ) {
            Some(rejection) => {
                return Ok(StartRunResult::NotRegistered(rejection));
            },
            None => {},
        }
        let started = self.store.start_run(&run, clock);
        let result = settle_start(&mut self.registry, &run.run_id, started);
        assert(before.insert(run.run_id@, listed).remove(run.run_id@) =~= before);
        result
    }

    /// Appends an event to a run, built under the run's next number.
    pub fn append_with<F: FnOnce(i64) -> E>(
        &mut self,
        run_id: &RunId,
        scope: &Json,
        build_event: F,
    ) -> (result: Result<AppendEventResult<E>, MachineError>)
        requires
            old(self).wf(),
            forall|seq: i64| call_requires(build_event, (seq,)),
            old(self)@.countable(run_id@, 1),
        ensures
            final(self).wf(),
            exists|event: E, answers: Seq<bool>|
                (old(self)@.numbers(run_id@, scope@) ==> call_ensures(
                    build_event,
                    ((old(self)@.active[run_id@].seq + 1) as i64,),
                    event,
                )) && (final(self)@, plain(result)) == #[trigger] old(self)@.append(
                    run_id@,
                    scope@,
                    event,
                    answers,
                ),
    {
        let ghost before = self@;
        let ghost none: E = arbitrary();
        let found = self.store.lookup_run(run_id, scope).is_some();
        let seq: i64 = match allot(&mut self.registry, run_id, found) {
            Some(seq) => seq,
            None => {
                assert(self@ == before.append(run_id@, scope@, none, Seq::empty()).0);
                return Err(MachineError::RunNotFound);
            },
        };
        let event = build_event(seq);
        proof {
            assert(renumbered(self@.active, run_id@, seq - 1) =~= before.active);
        }
        match check_append(&mut self.registry, run_id, &event, seq) {
            Err(error) => {
                assert(self@ == before.append(run_id@, scope@, event, Seq::empty()).0);
                return Err(error);
            },
            Ok(()) => {},
        }
        let ghost now = self@;
        let recorded = match self.store.record_event(run_id, scope, &event) {
            Err(error) => {
                assert(self@ == before.append(run_id@, scope@, event, Seq::empty()).0);
                return Err(error);
            },
            Ok(recorded) => recorded,
        };
        let result = settle_append(&mut self.registry, run_id, event.copy(), recorded);
        proof {
            let answers = if recorded {
                choose|answers: Seq<bool>|
                    self.registry@ == #[trigger] told(now.active, run_id@, event, false, answers)
                        && self.registry.said() == said_told(
                        now.said,
                        now.active,
                        run_id@,
                        event,
                        answers,
                    )
            } else {
                Seq::empty()
            };
            assert(self@ == before.append(run_id@, scope@, event, answers).0);
        }
        Ok(result)
    }

    /// Ends a run that is active here, with an event built under the run's next number.
    pub fn finish_with<F: FnOnce(i64) -> E>(
        &mut self,
        finish: RunFinish<D>,
        build_event: F,
        clock: Clock,
    ) -> (result: Result<FinishRunResult<E>, MachineError>)
        requires
            old(self).wf(),
            forall|seq: i64| call_requires(build_event, (seq,)),
            old(self)@.countable(finish.run_id@, 1),
            numberable(
                old(self)@.store.entries,
                finish.scope@,
                finish.session_id@,
                finish.entries@.len(),
            ),
        ensures
            final(self).wf(),
            exists|event: E, answers: Seq<bool>|
                (finish.status.terminal() && old(self)@.numbers(finish.run_id@, finish.scope@)
                    ==> call_ensures(
                    build_event,
                    ((old(self)@.active[finish.run_id@].seq + 1) as i64,),
                    event,
                )) && (final(self)@, plain(result)) == #[trigger] old(self)@.finish(
                    finish@,
                    event,
                    clock,
                    answers,
                ),
    {
        let ghost before = self@;
        let ghost none: E = arbitrary();
        if !finish.status.is_terminal() {
            assert(self@ == before.finish(finish@, none, clock, Seq::empty()).0);
            return Err(MachineError::invalid_run_event("finish_run requires a terminal status"));
        }
        if self.store.lookup_run(&finish.run_id, &finish.scope).is_none() {
            assert(self@ == before.finish(finish@, none, clock, Seq::empty()).0);
            return Err(MachineError::RunNotFound);
        }
        let seq: i64 = match allot(&mut self.registry, &finish.run_id, true) {
            Some(seq) => seq,
            None => {
                assert(self@ == before.finish(finish@, none, clock, Seq::empty()).0);
                return match self.store.terminal_event(&finish.run_id, &finish.scope) {
                    Some(event) => Ok(FinishRunResult::AlreadyFinished(event)),
                    None => Err(MachineError::RunNotFound),
                };
            },
        };
        let event = build_event(seq);
        proof {
            assert(renumbered(self@.active, finish.run_id@, seq - 1) =~= before.active);
        }
        match validate_finish_event(&finish, &event, seq) {
            Err(error) => {
                take_back(&mut self.registry, &finish.run_id, seq);
                assert(self@ == before.finish(finish@, event, clock, Seq::empty()).0);
                return Err(error);
            },
            Ok(()) => {},
        }
        let run_id = finish.run_id.clone();
        let ghost now = self@;
        let result = self.store.finish_run(finish.into_record(event.copy()), clock);
        let ghost mut answers: Seq<bool> = Seq::empty();
        if let Ok(result) = &result {
            settle_finish(&mut self.registry, &run_id, result);
            proof {
                answers = choose|answers: Seq<bool>|
                    self.registry.said() == #[trigger] said_told(
                        now.said,
                        now.active,
                        run_id@,
                        result.event(),
                        answers,
                    );
            }
        }
        assert(renumbered(before.active, run_id@, seq as int).remove(run_id@)
            =~= before.active.remove(run_id@));
        assert(self@ == before.finish(finish@, event, clock, answers).0);
        result
    }

    /// Ends a run that is not active here, with an event built under the number after the last in
    /// the store.
    pub fn finish_detached_with<F: FnOnce(i64) -> E>(
        &mut self,
        finish: RunFinish<D>,
        build_event: F,
        clock: Clock,
    ) -> (result: Result<FinishRunResult<E>, MachineError>)
        requires
            old(self).wf(),
            forall|seq: i64| call_requires(build_event, (seq,)),
            old(self)@.detached_seq(finish.run_id@, finish.scope@) <= i64::MAX,
            numberable(
                old(self)@.store.entries,
                finish.scope@,
                finish.session_id@,
                finish.entries@.len(),
            ),
        ensures
            final(self).wf(),
            exists|event: E|
                (finish.status.terminal() && old(self)@.store.lookup_run(
                    finish.run_id@,
                    finish.scope@,
                ) is Some && !old(self)@.active.contains_key(finish.run_id@)
                    && old(self)@.store.terminal_event(finish.run_id@, finish.scope@) is None
                    ==> call_ensures(
                    build_event,
                    (old(self)@.detached_seq(finish.run_id@, finish.scope@) as i64,),
                    event,
                )) && (final(self)@, plain(result)) == #[trigger] old(self)@.finish_detached(
                    finish@,
                    event,
                    clock,
                ),
    {
        let ghost before = self@;
        let ghost none: E = arbitrary();
        if !finish.status.is_terminal() {
            assert(self@ == before.finish_detached(finish@, none, clock).0);
            return Err(MachineError::invalid_run_event("finish_run requires a terminal status"));
        }
        if self.store.lookup_run(&finish.run_id, &finish.scope).is_none() {
            assert(self@ == before.finish_detached(finish@, none, clock).0);
            return Err(MachineError::RunNotFound);
        }
        if self.registry.handle(&finish.run_id).is_some() {
            assert(self@ == before.finish_detached(finish@, none, clock).0);
            return Err(MachineError::RunAlreadyActive);
        }
        if let Some(event) = self.store.terminal_event(&finish.run_id, &finish.scope) {
            assert(self@ == before.finish_detached(finish@, none, clock).0);
            return Ok(FinishRunResult::AlreadyFinished(event));
        }
        proof {
            self.store.lemma_one_page(finish.run_id@, finish.scope@, 0);
        }
        let seq: i64 = match self.store.list_events(&finish.run_id, &finish.scope, 0, usize::MAX) {
            Ok(page) => match last_seq(&page.items) {
                Some(last) => last + 1,
                None => 1,
            },
            Err(error) => {
                return Err(error);
            },
        };
        let event = build_event(seq);
        match validate_finish_event(&finish, &event, seq) {
            Err(error) => {
                assert(self@ == before.finish_detached(finish@, event, clock).0);
                return Err(error);
            },
            Ok(()) => {},
        }
        let result = self.store.finish_run(finish.into_record(event.copy()), clock);
        assert(self@ == before.finish_detached(finish@, event, clock).0);
        result
    }

    fn open_commit(
        &mut self,
        run_id: &RunId,
        session_id: &SessionId,
        scope: &Json,
        plan: &CommitPlan<D>,
    ) -> (opened: Result<i64, Result<RunCommitResult<E>, MachineError>>)
        requires
            old(self).wf(),
            old(self)@.countable(run_id@, plan.event_count as nat),
        ensures
            final(self).wf(),
            opened is Ok <==> old(self)@.builds(run_id@, session_id@, scope@, plan@),
            match opened {
                Ok(base) => {
                    &&& final(self)@ == (LifeView {
                        active: if plan.event_count > 0 {
                            renumbered(old(self)@.active, run_id@, base + plan.event_count)
                        } else {
                            old(self)@.active
                        },
                        ..old(self)@
                    })
                    &&& plan.event_count <= i64::MAX
                    &&& base + plan.event_count <= i64::MAX
                    &&& plan.event_count > 0 ==> base == old(self)@.active[run_id@].seq
                },
                Err(answer) => forall|events: Seq<E>, clock: Clock, answers: Seq<Seq<bool>>|
                    (final(self)@, seen(answer)) == #[trigger] old(self)@.commit(
                        run_id@,
                        session_id@,
                        scope@,
                        plan@,
                        events,
                        clock,
                        answers,
                    ),
            },
    {
        match validate_plan(run_id, session_id, plan) {
            Err(error) => {
                return Err(Err(error));
            },
            Ok(()) => {},
        }
        if self.store.lookup_run(run_id, scope).is_none() {
            return Err(Err(MachineError::RunNotFound));
        }
        match allot_many(&mut self.registry, run_id, plan.event_count) {
            Some(base) => Ok(base),
            None => {
                if plan.finish.is_some() {
                    if let Some(event) = self.store.terminal_event(run_id, scope) {
                        let mut events: Vec<E> = Vec::new();
                        events.push(event.copy());
                        assert(events@ =~= seq![event]);
                        return Err(
                            Ok(
                                RunCommitResult::Finished {
                                    events,
                                    result: FinishRunResult::AlreadyFinished(event),
                                },
                            ),
                        );
                    }
                }
                Err(Err(MachineError::RunNotFound))
            },
        }
    }

    fn close_commit(
        &mut self,
        run_id: &RunId,
        session_id: &SessionId,
        scope: &Json,
        plan: CommitPlan<D>,
        base: i64,
        events: Vec<E>,
        clock: Clock,
        Ghost(before): Ghost<LifeView<E, D>>,
    ) -> (result: Result<RunCommitResult<E>, MachineError>)
        requires
            old(self).wf(),
            before.builds(run_id@, session_id@, scope@, plan@),
            plan.event_count == events@.len(),
            plan.event_count <= i64::MAX,
            base + plan.event_count <= i64::MAX,
            plan.event_count > 0 ==> base == before.active[run_id@].seq,
            old(self)@ == (LifeView {
                active: if plan.event_count > 0 {
                    renumbered(before.active, run_id@, base + plan.event_count)
                } else {
                    before.active
                },
                ..before
            }),
            numberable(before.store.entries, scope@, session_id@, plan.entries@.len()),
        ensures
            final(self).wf(),
            exists|answers: Seq<Seq<bool>>|
                (final(self)@, seen(result)) == #[trigger] before.commit(
                    run_id@,
                    session_id@,
                    scope@,
                    plan@,
                    events@,
                    clock,
                    answers,
                ),
    {
        let ghost none: Seq<Seq<bool>> = Seq::empty();
        let count: usize = plan.event_count;
        proof {
            if count > 0 {
                assert(renumbered(self@.active, run_id@, base as int) =~= before.active);
            } else {
                lemma_no_events(
                    run_id@,
                    session_id@,
                    plan@.finish,
                    events@,
                    base as int,
                    before.active[run_id@].seq,
                );
            }
        }
        match validate_built_events(run_id, session_id, &plan.finish, &events, base) {
            Err(error) => {
                take_back_many(&mut self.registry, run_id, base, count);
                assert(self@ == before.commit(
                    run_id@,
                    session_id@,
                    scope@,
                    plan@,
                    events@,
                    clock,
                    none,
                ).0);
                return Err(error);
            },
            Ok(()) => {},
        }
        let commit = RunCommit {
            run_id: run_id.clone(),
            session_id: session_id.clone(),
            scope: scope.clone(),
            lease: plan.lease,
            checkpoint: plan.checkpoint,
            events,
            effects: plan.effects,
            items: plan.items,
            entries: plan.entries,
            finish: plan.finish,
        };
        assert(commit@ == planned_commit(run_id@, session_id@, scope@, plan@, events@));
        let ghost now = self@;
        let result = self.store.commit_run(commit, clock);
        settle_commit(&mut self.registry, run_id, base, count, &result);
        proof {
            let given = uncounted(now.active, run_id@, count as nat, base as int);
            assert(given =~= before.active);
            let answers = choose|answers: Seq<Seq<bool>>|
                (self.registry@, self.registry.said()) == #[trigger] settled(
                    given,
                    now.said,
                    run_id@,
                    count as nat,
                    seen(result),
                    answers,
                );
            assert(self@ == before.commit(
                run_id@,
                session_id@,
                scope@,
                plan@,
                events@,
                clock,
                answers,
            ).0);
        }
        result
    }

    /// Commits a plan, with events built under the run's next numbers.
    pub fn commit_with<F: Fn(i64) -> E>(
        &mut self,
        run_id: &RunId,
        session_id: &SessionId,
        scope: &Json,
        plan: CommitPlan<D>,
        build_event: F,
        clock: Clock,
    ) -> (result: Result<RunCommitResult<E>, MachineError>)
        requires
            old(self).wf(),
            forall|seq: i64| call_requires(build_event, (seq,)),
            old(self)@.countable(run_id@, plan.event_count as nat),
            numberable(old(self)@.store.entries, scope@, session_id@, plan.entries@.len()),
        ensures
            final(self).wf(),
            exists|events: Seq<E>, answers: Seq<Seq<bool>>|
                (old(self)@.builds(run_id@, session_id@, scope@, plan@) ==> events.len()
                    == plan.event_count && built_after(
                    build_event,
                    old(self)@.active[run_id@].seq,
                    events,
                )) && (final(self)@, seen(result)) == #[trigger] old(self)@.commit(
                    run_id@,
                    session_id@,
                    scope@,
                    plan@,
                    events,
                    clock,
                    answers,
                ),
    {
        let ghost before = self@;
        let base: i64 = match self.open_commit(run_id, session_id, scope, &plan) {
            Ok(base) => base,
            Err(answer) => {
                proof {
                    let none: Seq<E> = Seq::empty();
                    assert((self@, seen(answer)) == before.commit(
                        run_id@,
                        session_id@,
                        scope@,
                        plan@,
                        none,
                        clock,
                        Seq::empty(),
                    ));
                }
                return answer;
            },
        };
        let mut events: Vec<E> = Vec::new();
        let mut i: usize = 0;
        while i < plan.event_count
            invariant
                i <= plan.event_count,
                events@.len() == i,
                plan.event_count <= i64::MAX,
                base + plan.event_count <= i64::MAX,
                plan.event_count > 0 ==> base == before.active[run_id@].seq,
                forall|seq: i64| call_requires(build_event, (seq,)),
                forall|j: int|
                    0 <= j < events@.len() ==> call_ensures(
                        build_event,
                        ((before.active[run_id@].seq + 1 + j) as i64,),
                        #[trigger] events@[j],
                    ),
            decreases plan.event_count - i,
        {
            let seq: i64 = base + 1 + i as i64;
            let event = build_event(seq);
            events.push(event);
            i = i + 1;
        }
        assert(built_after(build_event, before.active[run_id@].seq, events@));
        self.close_commit(run_id, session_id, scope, plan, base, events, clock, Ghost(before))
    }

    /// Asks a run that is active here to stop.
    pub fn request_cancel(&mut self, run_id: &RunId, scope: &Json) -> (result: Result<
        Option<RunHandle>,
        MachineError,
    >)
        requires
            old(self).wf(),
        ensures
            final(self).wf(),
            (final(self)@, seen_opt(result)) == old(self)@.request_cancel(run_id@, scope@),
    {
        let lookup = self.store.lookup_run(run_id, scope);
        let handle = match cancel_active(&mut self.registry, run_id, lookup) {
            Ok(Some(handle)) => handle,
            result => {
                return result;
            },
        };
        match self.store.mark_cancelled(run_id, scope) {
            Ok(()) => Ok(Some(handle)),
            Err(error) => Err(error),
        }
    }

    /// A handle with a flag of its own here, which is not set.
    pub fn issue(&mut self, token: String) -> (handle: RunHandle)
        requires
            old(self).wf(),
        ensures
            final(self).wf(),
            handle@ == HandleView::issued(token@, old(self)@.flags),
            final(self)@ == (LifeView { flags: with_flag(old(self)@.flags), ..old(self)@ }),
    {
        self.registry.issue(token)
    }

    /// The flags of the handles that were made here.
    pub fn flags(&self) -> (flags: &Flags)
        requires
            self.wf(),
        ensures
            flags@ == self@.flags,
    {
        self.registry.flags()
    }

    /// Listens to a run from a place on.
    pub fn subscribe(&mut self, run_id: &RunId, scope: &Json, cursor: RunCursor) -> (result: Result<
        RunSubscription<E>,
        MachineError,
    >)
        requires
            old(self).wf(),
        ensures
            final(self).wf(),
            exists|listener: ListenerView<E>|
                listener.offered == Seq::<E>::empty() && listener.peer is Some && (
                    final(self)@,
                    seen(result),
                ) == #[trigger] old(self)@.subscribe(run_id@, scope@, cursor@, listener),
    {
        let ghost before = self@;
        let ghost mut listener = ListenerView::<E> {
            half: arbitrary(),
            peer: Some(arbitrary()),
            offered: Seq::empty(),
        };
        let lookup = match self.store.lookup_run(run_id, scope) {
            Some(lookup) => lookup,
            None => {
                assert(self@ == before.subscribe(run_id@, scope@, cursor@, listener).0);
                return Ok(RunSubscription::Missing);
            },
        };
        let mut receiver: Option<UnboundedReceiver<E>> = None;
        if lookup.status == RunStatus::Running {
            receiver = self.registry.subscribe(run_id);
            if receiver.is_none() {
                assert(self@ == before.subscribe(run_id@, scope@, cursor@, listener).0);
                return subscription(lookup, receiver, Page::empty(), cursor);
            }
            proof {
                listener = self.registry@[run_id@].listeners.last();
            }
        }
        let page = match self.store.list_events(run_id, scope, cursor.as_i64(), REPLAY_LIMIT) {
            Ok(page) => page,
            Err(error) => {
                return Err(error);
            },
        };
        let result = subscription(lookup, receiver, page, cursor);
        assert((self@, seen(result)) == before.subscribe(run_id@, scope@, cursor@, listener));
        result
    }
}

/// Whether events were built for the numbers after one, in order.
pub open spec fn built_after<E, F: Fn(i64) -> E>(build: F, base: int, events: Seq<E>) -> bool {
    forall|i: int|
        0 <= i < events.len() ==> call_ensures(
            build,
            ((base + 1 + i) as i64,),
            #[trigger] events[i],
        )
}

/// The event that carries a payload under a number.
pub open spec fn envelope<P>(
    run_id: RunId,
    session_id: SessionId,
    seq: int,
    payload: P,
) -> RunEventEnvelope<P> {
    RunEventEnvelope { run_id, session_id, seq: seq as i64, payload }
}

/// Events that carry payloads, under the numbers after `base`.
pub open spec fn envelopes<P>(
    run_id: RunId,
    session_id: SessionId,
    base: int,
    payloads: Seq<P>,
) -> Seq<RunEventEnvelope<P>> {
    Seq::new(payloads.len(), |i: int| envelope(run_id, session_id, base + 1 + i, payloads[i]))
}

/// A plan of a commit of so many events.
pub open spec fn with_count<D>(plan: CommitPlanView<D>, count: nat) -> CommitPlanView<D> {
    CommitPlanView { event_count: count, ..plan }
}

impl<P: RunEventPayload, D> RunLifecycle<RunEventEnvelope<P>, D> {
    /// Appends an event that carries a payload.
    pub fn append_event(
        &mut self,
        run_id: &RunId,
        session_id: &SessionId,
        scope: &Json,
        payload: P,
    ) -> (result: Result<AppendEventResult<RunEventEnvelope<P>>, MachineError>)
        requires
            old(self).wf(),
            old(self)@.countable(run_id@, 1),
        ensures
            final(self).wf(),
            exists|answers: Seq<bool>|
                (final(self)@, plain(result)) == #[trigger] old(self)@.append(
                    run_id@,
                    scope@,
                    envelope(*run_id, *session_id, old(self)@.active[run_id@].seq + 1, payload),
                    answers,
                ),
    {
        let event_run_id = run_id.clone();
        let event_session_id = session_id.clone();
        let build_event = |seq: i64| -> (event: RunEventEnvelope<P>)
            ensures
                event == (RunEventEnvelope {
                    run_id: event_run_id,
                    session_id: event_session_id,
                    seq,
                    payload,
                }),
            { RunEventEnvelope::new(event_run_id, event_session_id, seq, payload) };
        let ghost before = self@;
        let result = self.append_with(run_id, scope, build_event);
        proof {
            let event = envelope(
                *run_id,
                *session_id,
                before.active[run_id@].seq + 1,
                payload,
            );
            let (built, answers) = choose|built: RunEventEnvelope<P>, answers: Seq<bool>|
                (before.numbers(run_id@, scope@) ==> call_ensures(
                    build_event,
                    ((before.active[run_id@].seq + 1) as i64,),
                    built,
                )) && (self@, plain(result)) == #[trigger] before.append(
                    run_id@,
                    scope@,
                    built,
                    answers,
                );
            assert((self@, plain(result)) == before.append(run_id@, scope@, event, answers));
        }
        result
    }

    /// Ends a run that is active here, with an event that carries a payload.
    pub fn finish_run(&mut self, finish: RunFinish<D>, payload: P, clock: Clock) -> (result: Result<
        FinishRunResult<RunEventEnvelope<P>>,
        MachineError,
    >)
        requires
            old(self).wf(),
            old(self)@.countable(finish.run_id@, 1),
            numberable(
                old(self)@.store.entries,
                finish.scope@,
                finish.session_id@,
                finish.entries@.len(),
            ),
        ensures
            final(self).wf(),
            exists|answers: Seq<bool>|
                (final(self)@, plain(result)) == #[trigger] old(self)@.finish(
                    finish@,
                    envelope(
                        finish.run_id,
                        finish.session_id,
                        old(self)@.active[finish.run_id@].seq + 1,
                        payload,
                    ),
                    clock,
                    answers,
                ),
    {
        let event_run_id = finish.run_id.clone();
        let event_session_id = finish.session_id.clone();
        let build_event = |seq: i64| -> (event: RunEventEnvelope<P>)
            ensures
                event == (RunEventEnvelope {
                    run_id: event_run_id,
                    session_id: event_session_id,
                    seq,
                    payload,
                }),
            { RunEventEnvelope::new(event_run_id, event_session_id, seq, payload) };
        let ghost before = self@;
        let ghost ending = finish@;
        let ghost event = envelope(
            finish.run_id,
            finish.session_id,
            before.active[finish.run_id@].seq + 1,
            payload,
        );
        let result = self.finish_with(finish, build_event, clock);
        proof {
            let (built, answers) = choose|built: RunEventEnvelope<P>, answers: Seq<bool>|
                (ending.status.terminal() && before.numbers(ending.run_id, ending.scope)
                    ==> call_ensures(
                    build_event,
                    ((before.active[ending.run_id].seq + 1) as i64,),
                    built,
                )) && (self@, plain(result)) == #[trigger] before.finish(
                    ending,
                    built,
                    clock,
                    answers,
                );
            assert(before.finish(ending, event, clock, answers) == (self@, plain(result)));
        }
        result
    }

    /// Ends a run that is not active here, with an event that carries a payload.
    pub fn finish_detached(&mut self, finish: RunFinish<D>, payload: P, clock: Clock) -> (result:
        Result<FinishRunResult<RunEventEnvelope<P>>, MachineError>)
        requires
            old(self).wf(),
            old(self)@.detached_seq(finish.run_id@, finish.scope@) <= i64::MAX,
            numberable(
                old(self)@.store.entries,
                finish.scope@,
                finish.session_id@,
                finish.entries@.len(),
            ),
        ensures
            final(self).wf(),
            (final(self)@, plain(result)) == old(self)@.finish_detached(
                finish@,
                envelope(
                    finish.run_id,
                    finish.session_id,
                    old(self)@.detached_seq(finish.run_id@, finish.scope@),
                    payload,
                ),
                clock,
            ),
    {
        let event_run_id = finish.run_id.clone();
        let event_session_id = finish.session_id.clone();
        let build_event = |seq: i64| -> (event: RunEventEnvelope<P>)
            ensures
                event == (RunEventEnvelope {
                    run_id: event_run_id,
                    session_id: event_session_id,
                    seq,
                    payload,
                }),
            { RunEventEnvelope::new(event_run_id, event_session_id, seq, payload) };
        let ghost before = self@;
        let ghost ending = finish@;
        let ghost event = envelope(
            finish.run_id,
            finish.session_id,
            before.detached_seq(finish.run_id@, finish.scope@),
            payload,
        );
        let result = self.finish_detached_with(finish, build_event, clock);
        proof {
            assert(before.finish_detached(ending, event, clock) == (self@, plain(result)));
        }
        result
    }

    /// Commits a plan, with events that carry payloads.
    pub fn commit_events(
        &mut self,
        run_id: &RunId,
        session_id: &SessionId,
        scope: &Json,
        plan: CommitPlan<D>,
        payloads: Vec<P>,
        clock: Clock,
    ) -> (result: Result<RunCommitResult<RunEventEnvelope<P>>, MachineError>)
        requires
            old(self).wf(),
            old(self)@.countable(run_id@, payloads@.len()),
            numberable(old(self)@.store.entries, scope@, session_id@, plan.entries@.len()),
        ensures
            final(self).wf(),
            exists|answers: Seq<Seq<bool>>|
                (final(self)@, seen(result)) == #[trigger] old(self)@.commit(
                    run_id@,
                    session_id@,
                    scope@,
                    with_count(plan@, payloads@.len()),
                    envelopes(*run_id, *session_id, old(self)@.active[run_id@].seq, payloads@),
                    clock,
                    answers,
                ),
    {
        let mut plan = plan;
        plan.event_count = payloads.len();
        let ghost before = self@;
        let ghost all = envelopes(*run_id, *session_id, before.active[run_id@].seq, payloads@);
        let base: i64 = match self.open_commit(run_id, session_id, scope, &plan) {
            Ok(base) => base,
            Err(answer) => {
                assert((self@, seen(answer)) == before.commit(
                    run_id@,
                    session_id@,
                    scope@,
                    plan@,
                    all,
                    clock,
                    Seq::empty(),
                ));
                return answer;
            },
        };
        let mut events: Vec<RunEventEnvelope<P>> = Vec::new();
        let mut i: usize = 0;
        while i < payloads.len()
            invariant
                i <= payloads@.len(),
                payloads@.len() <= i64::MAX,
                base + payloads@.len() <= i64::MAX,
                payloads@.len() > 0 ==> base == before.active[run_id@].seq,
                all == envelopes(*run_id, *session_id, before.active[run_id@].seq, payloads@),
                events@ == all.take(i as int),
            decreases payloads@.len() - i,
        {
            let seq: i64 = base + 1 + i as i64;
            let event = RunEventEnvelope::new(
                run_id.clone(),
                session_id.clone(),
                seq,
                payloads[i].copy(),
            );
            proof {
                assert(event == all[i as int]);
                assert(all.take(i + 1) =~= all.take(i as int).push(event));
            }
            events.push(event);
            i = i + 1;
        }
        assert(all.take(all.len() as int) =~= all);
        self.close_commit(run_id, session_id, scope, plan, base, events, clock, Ghost(before))
    }
}

} // verus!
