//! A run store in memory.

pub mod lease;
pub mod op;
pub mod tx;

use vstd::prelude::*;
use vstd::string::StringExecFns;

use crate::checkpoint::CheckpointRecord;
use crate::entries::{apply_entries, lemma_entries_refusal, validate_entries, Origin, ScopedEntry};
use crate::error::{failure, plain, seen, ErrorView, MachineError};
use crate::ids::{LeaseId, RunId, SessionId, ThreadId, WorkerId};
use crate::json::Json;
use crate::model::{numberable, Clock, HeldLeaseView, RunView, ThreadLeaseView};
use crate::op::{Effect, EntryWrite, Item, Page};
use crate::store::{
    last_seq, same_start, FinishRunResult, Nanos, RunEvent, RunFinishRecord, RunLookup, RunStart,
    RunStatus, StoreStartResult, StoreStartResultView,
};
use crate::store_view::{other_run, session_name, StoreView};
use crate::table::Table;
use crate::validate::{validate_event_run, validate_next_seq};
use crate::text::{decimal, decimal_injective, decimal_text, opt, views};

verus! {

/// A lease on a run.
#[derive(Debug)]
pub struct MemoryLease {
    pub owner: WorkerId,
    pub id: LeaseId,
    pub until: Nanos,
}

impl View for MemoryLease {
    type V = HeldLeaseView;

    open spec fn view(&self) -> HeldLeaseView {
        HeldLeaseView { owner: self.owner@, id: self.id@, until: self.until as nat }
    }
}

/// A claim to a thread.
#[derive(Debug)]
pub struct MemoryThreadLease {
    pub run: RunId,
    pub owner: WorkerId,
    pub id: LeaseId,
    pub until: Nanos,
}

impl View for MemoryThreadLease {
    type V = ThreadLeaseView;

    open spec fn view(&self) -> ThreadLeaseView {
        ThreadLeaseView {
            run: self.run@,
            owner: self.owner@,
            id: self.id@,
            until: self.until as nat,
        }
    }
}

/// A run in the store.
#[derive(Debug)]
pub struct MemoryRun<E, D> {
    pub start: RunStart,
    pub status: RunStatus,
    pub finish_reason: Option<String>,
    pub cancel_requested: bool,
    pub finish_data: Option<D>,
    pub terminal_event: Option<E>,
    pub events: Vec<E>,
    pub lease: Option<MemoryLease>,
}

impl<E, D> View for MemoryRun<E, D> {
    type V = RunView<E, D>;

    open spec fn view(&self) -> RunView<E, D> {
        RunView {
            start: self.start@,
            status: self.status,
            finish_reason: opt(self.finish_reason),
            cancel_requested: self.cancel_requested,
            finish_data: self.finish_data,
            terminal_event: self.terminal_event,
            events: self.events@,
            lease: opt(self.lease),
        }
    }
}

impl<E: RunEvent, D> MemoryRun<E, D> {
    /// What the store tells of the run.
    pub fn lookup(&self) -> (lookup: RunLookup)
        ensures
            lookup@ == self@.lookup(),
    {
        RunLookup {
            run_id: self.start.run_id.clone(),
            session_id: self.start.session_id.clone(),
            thread_id: self.start.thread_id.clone(),
            status: self.status,
            finish_reason: self.finish_reason.clone(),
            cancel_requested: self.cancel_requested,
            owner: match &self.lease {
                Some(lease) => Some(lease.owner.clone()),
                None => None,
            },
        }
    }

    /// Whether one may write the run under a lease.
    pub fn held(&self, lease: Option<&LeaseId>, now: Nanos) -> (held: bool)
        ensures
            held == self@.held(opt(lease), now as nat),
    {
        match &self.lease {
            Some(active) => match lease {
                Some(lease) => *lease == active.id && now < active.until,
                None => false,
            },
            None => true,
        }
    }

    /// Whether the run goes on under a lease that has run out.
    pub fn expired(&self, now: Nanos) -> (expired: bool)
        ensures
            expired == self@.expired(now as nat),
    {
        match &self.lease {
            Some(active) => self.status == RunStatus::Running && active.until <= now,
            None => false,
        }
    }
}

/// A run store in memory.
#[derive(Debug)]
pub struct MemoryRunStore<E, D> {
    next_session: u64,
    sessions: Table<SessionId, Json>,
    runs: Table<RunId, MemoryRun<E, D>>,
    thread_leases: Table<ThreadId, MemoryThreadLease>,
    checkpoints: Table<ThreadId, CheckpointRecord>,
    idempotency: Table<(Json, SessionId, String), RunId>,
    effects: Table<(RunId, String), Effect>,
    items: Table<(RunId, String), Item>,
    entries: Vec<ScopedEntry>,
}

impl<E: RunEvent, D> View for MemoryRunStore<E, D> {
    type V = StoreView<E, D>;

    closed spec fn view(&self) -> StoreView<E, D> {
        StoreView {
            next_session: self.next_session as nat,
            sessions: self.sessions@,
            runs: self.runs@,
            order: self.runs.keys(),
            thread_leases: self.thread_leases@,
            checkpoints: self.checkpoints@,
            idempotency: self.idempotency@,
            effects: self.effects@,
            items: self.items@,
            entries: views(self.entries@),
        }
    }
}

proof fn lemma_filter_shorter<A>(s: Seq<A>, keep: spec_fn(A) -> bool)
    ensures
        s.filter(keep).len() <= s.len(),
    decreases s.len(),
{
    reveal(Seq::filter);
    if s.len() > 0 {
        lemma_filter_shorter(s.drop_last(), keep);
    }
}

/// Names that are all in use are no more than there are sessions.
proof fn lemma_names_used(sessions: Map<Seq<char>, Seq<char>>, from: nat, to: nat)
    requires
        sessions.dom().finite(),
        from <= to,
        forall|k: nat|
            from < k <= to ==> #[trigger] sessions.contains_key(session_name(k)),
    ensures
        to - from <= sessions.len(),
    decreases to - from,
{
    if from < to {
        let name = session_name(to);
        let rest = sessions.remove(name);
        assert(sessions.contains_key(name));
        assert forall|k: nat| from < k <= to - 1 implies #[trigger] rest.contains_key(
            session_name(k),
        ) by {
            assert(sessions.contains_key(session_name(k)));
            if session_name(k) == name {
                assert(decimal(k) =~= session_name(k).skip("session-"@.len() as int));
                assert(decimal(to) =~= session_name(to).skip("session-"@.len() as int));
                decimal_injective(k, to);
            }
        }
        lemma_names_used(rest, from, (to - 1) as nat);
    }
}

impl<E: RunEvent, D> Default for MemoryRunStore<E, D> {
    /// A store that holds nothing.
    fn default() -> (store: Self)
        ensures
            store.wf(),
            store@ == StoreView::<E, D>::empty(),
    {
        MemoryRunStore::new()
    }
}

impl<E: RunEvent, D> MemoryRunStore<E, D> {
    closed spec fn tables_wf(&self) -> bool {
        &&& self.sessions.wf()
        &&& self.runs.wf()
        &&& self.thread_leases.wf()
        &&& self.checkpoints.wf()
        &&& self.idempotency.wf()
        &&& self.effects.wf()
        &&& self.items.wf()
    }

    /// What holds of every store.
    pub closed spec fn wf(&self) -> bool {
        self.tables_wf() && self@.inv()
    }

    /// Whatever was done to a store, what holds of every store holds of it.
    pub proof fn every_store_is_sound(&self)
        requires
            self.wf(),
        ensures
            self@.inv(),
    {
    }

    /// A page of as many events as a machine can count holds them all.
    pub proof fn lemma_one_page(&self, run: Seq<char>, scope: Seq<char>, after: int)
        requires
            self.wf(),
        ensures
            self@.events_after(run, scope, after).len() <= usize::MAX,
    {
        if self@.visible(run, scope) is Some {
            let value = self.runs.lemma_value(run);
            assert(value@ == self@.runs[run]);
            assert(value.events.len() <= usize::MAX);
            lemma_filter_shorter(value.events@, |event: E| event.place() > after);
        }
    }

    /// A store that holds nothing.
    pub fn new() -> (store: Self)
        ensures
            store.wf(),
            store@ == StoreView::<E, D>::empty(),
    {
        let store = MemoryRunStore {
            next_session: 0,
            sessions: Table::new(),
            runs: Table::new(),
            thread_leases: Table::new(),
            checkpoints: Table::new(),
            idempotency: Table::new(),
            effects: Table::new(),
            items: Table::new(),
            entries: Vec::new(),
        };
        assert(store@ =~= StoreView::<E, D>::empty());
        store
    }

    /// What the client added when the run ended.
    pub fn finish_data(&self, run_id: &RunId) -> (data: Option<&D>)
        requires
            self.wf(),
        ensures
            match data {
                Some(data) => self@.finish_data(run_id@) == Some(*data),
                None => self@.finish_data(run_id@) is None,
            },
    {
        match self.runs.get(run_id) {
            Some(run) => run.finish_data.as_ref(),
            None => None,
        }
    }

    fn visible(&self, run_id: &RunId, scope: &Json) -> (run: Option<&MemoryRun<E, D>>)
        requires
            self.wf(),
        ensures
            opt(run) == self@.visible(run_id@, scope@),
    {
        match self.runs.get(run_id) {
            Some(run) => if run.start.scope == *scope {
                Some(run)
            } else {
                None
            },
            None => None,
        }
    }

    /// What the store tells of a run.
    pub fn lookup_run(&self, run_id: &RunId, scope: &Json) -> (lookup: Option<RunLookup>)
        requires
            self.wf(),
        ensures
            opt(lookup) == self@.lookup_run(run_id@, scope@),
    {
        match self.visible(run_id, scope) {
            Some(run) => Some(run.lookup()),
            None => None,
        }
    }

    /// The event that ended a run.
    pub fn terminal_event(&self, run_id: &RunId, scope: &Json) -> (event: Option<E>)
        requires
            self.wf(),
        ensures
            event == self@.terminal_event(run_id@, scope@),
    {
        match self.visible(run_id, scope) {
            Some(run) => match &run.terminal_event {
                Some(event) => Some(event.copy()),
                None => None,
            },
            None => None,
        }
    }

    fn keyed_run(&self, scope: &Json, session_id: &SessionId, key: &String) -> (run: Option<
        &MemoryRun<E, D>,
    >)
        requires
            self.wf(),
        ensures
            match run {
                Some(run) => {
                    &&& self@.keyed_run(scope@, session_id@, key@) == Some(run.start.run_id@)
                    &&& self@.runs[run.start.run_id@] == run@
                },
                None => self@.keyed_run(scope@, session_id@, key@) is None,
            },
    {
        let full = (scope.clone(), session_id.clone(), key.clone());
        match self.idempotency.get(&full) {
            Some(run_id) => self.runs.get(run_id),
            None => None,
        }
    }

    /// What the store tells of the run that was started under a client's key.
    pub fn find_idempotent_run(&self, scope: &Json, session_id: &SessionId, key: &str) -> (lookup:
        Option<RunLookup>)
        requires
            self.wf(),
        ensures
            opt(lookup) == self@.find_idempotent_run(scope@, session_id@, key@),
    {
        match self.keyed_run(scope, session_id, &key.to_owned()) {
            Some(run) => Some(run.lookup()),
            None => None,
        }
    }

    fn free_session(&mut self) -> (session_id: SessionId)
        requires
            old(self).wf(),
            old(self)@.next_session + old(self)@.sessions.len() < u64::MAX,
        ensures
            final(self).wf(),
            old(self)@.first_free(final(self)@.next_session),
            session_id@ == session_name(final(self)@.next_session),
            final(self)@ == (StoreView {
                next_session: final(self)@.next_session,
                ..old(self)@
            }),
    {
        let ghost before = self@;
        loop
            invariant
                self.tables_wf(),
                before == old(self)@,
                before.inv(),
                self@ == (StoreView { next_session: self@.next_session, ..before }),
                before.next_session <= self@.next_session,
                before.next_session + before.sessions.len() < u64::MAX,
                forall|k: nat|
                    before.next_session < k <= self@.next_session
                        ==> #[trigger] before.sessions.contains_key(session_name(k)),
            decreases u64::MAX - self.next_session,
        {
            proof {
                self.sessions.lemma_keys();
                self.sessions.lemma_finite();
                lemma_names_used(before.sessions, before.next_session, self@.next_session);
            }
            self.next_session = self.next_session + 1;
            let mut name = "session-".to_owned();
            name.append(decimal_text(self.next_session).as_str());
            let candidate = SessionId(name);
            if !self.sessions.contains(&candidate) {
                proof {
                    let k = self@.next_session;
                    assert(candidate@ == session_name(k));
                    self@.lemma_same_runs(before);
                }
                return candidate;
            }
        }
    }

    /// Adds a session, under a name of the store's own where none is given. The scope of a session
    /// that is there already stays.
    pub fn ensure_session(&mut self, session_id: Option<SessionId>, scope: &Json) -> (result:
        SessionId)
        requires
            old(self).wf(),
            session_id is None ==> old(self)@.next_session + old(self)@.sessions.len() < u64::MAX,
        ensures
            final(self).wf(),
            match session_id {
                Some(session_id) => result == session_id && final(self)@
                    == old(self)@.with_session(session_id@, scope@),
                None => {
                    let n = final(self)@.next_session;
                    &&& old(self)@.first_free(n)
                    &&& result@ == session_name(n)
                    &&& final(self)@ == old(self)@.made_session(n, scope@)
                },
            },
    {
        let session_id = match session_id {
            Some(session_id) => session_id,
            None => self.free_session(),
        };
        self.add_session(&session_id, scope);
        session_id
    }

    fn add_session(&mut self, session_id: &SessionId, scope: &Json)
        requires
            old(self).wf(),
        ensures
            final(self).wf(),
            final(self)@ == old(self)@.with_session(session_id@, scope@),
    {
        proof {
            self@.with_session_keeps(session_id@, scope@);
        }
        if !self.sessions.contains(session_id) {
            self.sessions.insert(session_id.clone(), scope.clone());
        }
        assert(self@ =~= old(self)@.with_session(session_id@, scope@));
    }

    /// A run that goes on on a thread, other than one.
    fn running_thread(&self, thread_id: &ThreadId, except: &RunId) -> (busy: Option<&MemoryRun<E, D>>)
        requires
            self.wf(),
        ensures
            match busy {
                Some(run) => self@.thread_refusal(thread_id@, except@) == Some(
                    ErrorView::ThreadBusy { owner: run@.owner(), run: Some(run@.start.run_id) },
                ),
                None => self@.thread_refusal(thread_id@, except@) is None,
            },
    {
        proof {
            self.runs.lemma_keys();
        }
        let mut i: usize = 0;
        while i < self.runs.len()
            invariant
                self.wf(),
                i <= self@.order.len(),
                forall|j: int|
                    0 <= j < i ==> self@.order[j] == except@ || !self@.running_on(
                        #[trigger] self@.order[j],
                        thread_id@,
                    ),
            decreases self@.order.len() - i,
        {
            let run = self.runs.value_at(i);
            let ghost id = self@.order[i as int];
            proof {
                assert(self@.runs.contains_key(id));
            }
            if run.status == RunStatus::Running && run.start.thread_id == *thread_id
                && run.start.run_id != *except {
                proof {
                    assert(self@.running_on(id, thread_id@));
                    let chosen = other_run(self@.runs, thread_id@, except@)->0;
                    assert(self@.running_on(chosen, thread_id@));
                }
                return Some(run);
            }
            i = i + 1;
        }
        proof {
            assert forall|run: Seq<char>| run != except@ implies !#[trigger] self@.running_on(
                run,
                thread_id@,
            ) by {
                if self@.running_on(run, thread_id@) {
                    assert(self@.order.contains(run));
                    let j = self@.order.index_of(run);
                    assert(self@.order[j] == run);
                }
            }
        }
        None
    }

    /// Why a thread cannot be claimed: another claim to it has not run out.
    fn claimed_thread(&self, thread_id: &ThreadId, now: Nanos) -> (result: Result<(), MachineError>)
        requires
            self.wf(),
        ensures
            failure(result) == self@.claim_refusal(thread_id@, now as nat),
    {
        if let Some(held) = self.thread_leases.get(thread_id) {
            if held.until > now {
                return Err(
                    MachineError::ThreadBusy {
                        owner: Some(held.owner.clone()),
                        run: Some(held.run.clone()),
                    },
                );
            }
        }
        Ok(())
    }

    fn restarted(run: &MemoryRun<E, D>, start: &RunStart) -> (result: Result<
        StoreStartResult,
        MachineError,
    >)
        ensures
            seen(result) == if run@.start.input == start@.input && run@.start.entries
                == start@.entries {
                Ok(StoreStartResultView::Existing(run@.lookup()))
            } else {
                Err(ErrorView::StartConflict)
            },
    {
        if same_start(&run.start.input, &run.start.entries, &start.input, &start.entries) {
            Ok(StoreStartResult::Existing(run.lookup()))
        } else {
            Err(MachineError::StartConflict)
        }
    }

    /// Whether a run was started with this input and these entries.
    pub fn check_run_start(
        &self,
        run_id: &RunId,
        scope: &Json,
        input: &Option<Json>,
        entries: &Vec<EntryWrite>,
    ) -> (result: Result<(), MachineError>)
        requires
            self.wf(),
        ensures
            plain(result) == self@.check_run_start(
                run_id@,
                scope@,
                opt(*input),
                views(entries@),
            ),
    {
        match self.visible(run_id, scope) {
            Some(run) => if same_start(&run.start.input, &run.start.entries, input, entries) {
                Ok(())
            } else {
                Err(MachineError::StartConflict)
            },
            None => Err(MachineError::RunNotFound),
        }
    }

    /// Starts a run. A run that was started before, under its name or under the client's key, is
    /// not started again.
    pub fn start_run(&mut self, start: &RunStart, clock: Clock) -> (result: Result<
        StoreStartResult,
        MachineError,
    >)
        requires
            old(self).wf(),
            start.lease matches Some(claim) ==> clock.now + claim.ttl <= u128::MAX,
            numberable(old(self)@.entries, start.scope@, start.session_id@, start.entries@.len()),
        ensures
            final(self).wf(),
            (final(self)@, seen(result)) == old(self)@.start_run(start@, clock),
    {
        proof {
            self@.start_run_keeps(start@, clock);
        }
        self.add_session(&start.session_id, &start.scope);
        let ghost store = self@;
        proof {
            assert(store.visible(start@.run_id, start@.scope) == old(self)@.visible(
                start@.run_id,
                start@.scope,
            ));
            self@.lemma_start_alike(old(self)@, start@, clock);
        }
        if let Some(run) = self.runs.get(&start.run_id) {
            return Self::restarted(run, start);
        }
        if let Some(key) = &start.client_run_key {
            if let Some(run) = self.keyed_run(&start.scope, &start.session_id, key) {
                return Self::restarted(run, start);
            }
        }
        if let Some(run) = self.running_thread(&start.thread_id, &start.run_id) {
            return Err(
                MachineError::ThreadBusy {
                    owner: match &run.lease {
                        Some(lease) => Some(lease.owner.clone()),
                        None => None,
                    },
                    run: Some(run.start.run_id.clone()),
                },
            );
        }
        if start.lease.is_some() {
            match self.claimed_thread(&start.thread_id, clock.now) {
                Err(error) => {
                    return Err(error);
                },
                Ok(()) => {},
            }
        }
        match validate_entries(&self.entries, &start.scope, &start.session_id, &start.entries) {
            Err(error) => {
                return Err(error);
            },
            Ok(()) => {},
        }
        if let Some(key) = &start.client_run_key {
            self.idempotency.insert(
                (start.scope.clone(), start.session_id.clone(), key.clone()),
                start.run_id.clone(),
            );
        }
        let lease = match &start.lease {
            Some(claim) => {
                let until: Nanos = clock.now + claim.ttl;
                self.thread_leases.insert(
                    start.thread_id.clone(),
                    MemoryThreadLease {
                        run: start.run_id.clone(),
                        owner: claim.owner.clone(),
                        id: claim.id.clone(),
                        until,
                    },
                );
                Some(MemoryLease { owner: claim.owner.clone(), id: claim.id.clone(), until })
            },
            None => None,
        };
        let origin = Origin {
            scope: &start.scope,
            run_id: &start.run_id,
            session_id: &start.session_id,
            thread_id: &start.thread_id,
            at: clock.wall_ms,
        };
        apply_entries(&mut self.entries, &origin, &start.entries);
        let run = MemoryRun {
            start: start.clone(),
            status: RunStatus::Running,
            finish_reason: None,
            cancel_requested: false,
            finish_data: None,
            terminal_event: None,
            events: Vec::new(),
            lease,
        };
        self.runs.insert(start.run_id.clone(), run);
        assert(run@.events =~= Seq::<E>::empty());
        assert(self@ =~= store.with_run(start@, clock));
        Ok(StoreStartResult::Created)
    }

    /// Notes that a run was asked to stop.
    pub fn mark_cancelled(&mut self, run_id: &RunId, scope: &Json) -> (result: Result<
        (),
        MachineError,
    >)
        requires
            old(self).wf(),
        ensures
            final(self).wf(),
            (final(self)@, plain(result)) == old(self)@.mark_cancelled(run_id@, scope@),
    {
        proof {
            self@.mark_cancelled_keeps(run_id@, scope@);
        }
        if self.visible(run_id, scope).is_none() {
            return Err(MachineError::RunNotFound);
        }
        if let Some(run) = self.runs.get_mut(run_id) {
            run.cancel_requested = true;
        }
        assert(self@ =~= old(self)@.mark_cancelled(run_id@, scope@).0);
        Ok(())
    }

    /// Records an event of a run. The answer is whether it was recorded.
    pub fn record_event(&mut self, run_id: &RunId, scope: &Json, event: &E) -> (result: Result<
        bool,
        MachineError,
    >)
        requires
            old(self).wf(),
        ensures
            final(self).wf(),
            (final(self)@, plain(result)) == old(self)@.record_event(run_id@, scope@, *event),
    {
        proof {
            self@.record_event_keeps(run_id@, scope@, *event);
        }
        if event.is_terminal() {
            return Err(
                MachineError::invalid_run_event("record_event does not accept terminal events"),
            );
        }
        if *event.run_id() != *run_id {
            return Err(MachineError::invalid_run_event("event run_id does not match target run"));
        }
        let run = match self.runs.get(run_id) {
            Some(run) => run,
            None => {
                return Ok(false);
            },
        };
        if run.start.scope != *scope {
            return Err(MachineError::RunNotFound);
        }
        if run.status.is_terminal() {
            return Ok(false);
        }
        if run.lease.is_some() {
            return Err(MachineError::LeaseLost);
        }
        if *event.session_id() != run.start.session_id {
            return Err(MachineError::invalid_run_event("event session_id does not match target run"));
        }
        match validate_next_seq(last_seq(&run.events), event.seq()) {
            Err(error) => {
                return Err(error);
            },
            Ok(()) => {},
        }
        if let Some(run) = self.runs.get_mut(run_id) {
            run.events.push(event.copy());
        }
        assert(self@ =~= old(self)@.record_event(run_id@, scope@, *event).0);
        Ok(true)
    }

    /// Lists the events of a run after a place, in order.
    pub fn list_events(&self, run_id: &RunId, scope: &Json, after_seq: i64, limit: usize) -> (result:
        Result<Page<E>, MachineError>)
        requires
            self.wf(),
        ensures
            seen(result) == self@.list_events(run_id@, scope@, after_seq as int, limit as nat),
    {
        if limit == 0 {
            return Err(MachineError::InvalidPageLimit);
        }
        let mut events: Vec<E> = Vec::new();
        let ghost after = |event: E| event.place() > after_seq;
        if let Some(run) = self.visible(run_id, scope) {
            let mut i: usize = 0;
            assert(run.events@.take(0).filter(after) =~= Seq::<E>::empty()) by {
                reveal(Seq::filter);
            }
            while i < run.events.len()
                invariant
                    i <= run.events.len(),
                    after == |event: E| event.place() > after_seq,
                    events@ == run.events@.take(i as int).filter(after),
                decreases run.events.len() - i,
            {
                proof {
                    let next = run.events@.take(i + 1);
                    assert(next.drop_last() =~= run.events@.take(i as int));
                    assert(next.last() == run.events@[i as int]);
                    reveal(Seq::filter);
                }
                if run.events[i].seq() > after_seq {
                    events.push(run.events[i].copy());
                }
                i = i + 1;
            }
            assert(run.events@.take(run.events@.len() as int) =~= run.events@);
        }
        if events.len() > limit {
            let next: i64 = events[limit - 1].seq();
            events.truncate(limit);
            return Ok(Page::new(events, Some(next)));
        }
        Ok(Page::new(events, None))
    }

    /// Ends a run.
    pub fn finish_run(&mut self, finish: RunFinishRecord<E, D>, clock: Clock) -> (result: Result<
        FinishRunResult<E>,
        MachineError,
    >)
        requires
            old(self).wf(),
            numberable(
                old(self)@.entries,
                finish.scope@,
                finish.session_id@,
                finish.entries@.len(),
            ),
        ensures
            final(self).wf(),
            (final(self)@, plain(result)) == old(self)@.finish_run(finish@, clock),
    {
        proof {
            self@.finish_run_keeps(finish@, clock);
            lemma_entries_refusal(
                self@.entries,
                finish@.scope,
                finish@.session_id,
                finish@.entries,
            );
        }
        match validate_event_run(&finish.run_id, &finish.session_id, &finish.terminal_event) {
            Err(error) => {
                return Err(error);
            },
            Ok(()) => {},
        }
        if !finish.terminal_event.is_terminal() {
            return Err(MachineError::invalid_run_event("finish_run requires a terminal event"));
        }
        if !finish.status.is_terminal() {
            return Err(MachineError::invalid_run_event("finish_run requires a terminal status"));
        }
        let run = match self.runs.get(&finish.run_id) {
            Some(run) => run,
            None => {
                return Err(MachineError::RunNotFound);
            },
        };
        if finish.session_id != run.start.session_id {
            return Err(MachineError::invalid_run_event("finish session_id does not match target run"));
        }
        if finish.scope != run.start.scope {
            return Err(MachineError::RunNotFound);
        }
        if run.status.is_terminal() {
            return match &run.terminal_event {
                Some(event) => Ok(FinishRunResult::AlreadyFinished(event.copy())),
                None => Err(MachineError::RunNotFound),
            };
        }
        if run.lease.is_some() {
            return Err(MachineError::LeaseLost);
        }
        match validate_next_seq(last_seq(&run.events), finish.terminal_event.seq()) {
            Err(error) => {
                return Err(error);
            },
            Ok(()) => {},
        }
        match validate_entries(&self.entries, &finish.scope, &finish.session_id, &finish.entries) {
            Err(error) => {
                return Err(error);
            },
            Ok(()) => {},
        }
        let thread_id = run.start.thread_id.clone();
        let origin = Origin {
            scope: &finish.scope,
            run_id: &finish.run_id,
            session_id: &finish.session_id,
            thread_id: &thread_id,
            at: clock.wall_ms,
        };
        apply_entries(&mut self.entries, &origin, &finish.entries);
        let event = finish.terminal_event;
        let recorded = event.copy();
        let terminal = event.copy();
        if let Some(run) = self.runs.get_mut(&finish.run_id) {
            run.status = finish.status;
            run.finish_reason = Some(finish.finish_reason);
            run.finish_data = Some(finish.data);
            run.terminal_event = Some(terminal);
            run.events.push(recorded);
            run.lease = None;
            assert(run@ =~= old(self)@.runs[finish@.run_id].ended(
                finish@.status,
                finish@.finish_reason,
                finish@.data,
                seq![event],
            ));
        }
        assert(self@ =~= old(self)@.finish_run(finish@, clock).0);
        Ok(FinishRunResult::Finished(event))
    }

    /// The checkpoint of a thread.
    pub fn load_checkpoint(&self, thread_id: &ThreadId) -> (record: Option<CheckpointRecord>)
        requires
            self.wf(),
        ensures
            opt(record) == self@.load_checkpoint(thread_id@),
    {
        match self.checkpoints.get(thread_id) {
            Some(record) => Some(record.clone()),
            None => None,
        }
    }
}

} // verus!
