//! The mathematical view of a run store, and what each operation makes of it.

use vstd::prelude::*;

use crate::checkpoint::CheckpointRecordView;
use crate::error::{invalid, ErrorView};
use crate::listing::first_of;
use crate::model::{
    commit_refusal, effects_refusal, entries_refusal, entries_sound, event_refusal, granted,
    items_refusal, place_refusal, sequence_refusal, with_effects, with_entries, with_entry,
    with_items, Clock, EntryOrigin, HeldLeaseView, Keyed, RunView, ScopedEntryView, ThreadLeaseView,
};
use crate::op::{
    EffectStatus, EffectView, EntryQueryView, EntryView, EntryWriteView, ItemView, PageView, Vis,
};
use crate::store::{
    last_place, CheckpointWriteView, FinishRunResult, LeaseView, RunCommitResultView,
    RunCommitView, RunEvent, RunFinishRecordView, RunLookupView, RunStartView, RunStatus,
    StoreStartResultView,
};
use crate::text::decimal;

verus! {

/// The first part of a list: at most `limit` items, and the place of the last of them where there
/// are more.
pub open spec fn page_of<T>(all: Seq<T>, limit: nat, place: spec_fn(T) -> int) -> PageView<T> {
    if all.len() > limit {
        PageView { items: all.take(limit as int), next: Some(place(all[limit - 1])) }
    } else {
        PageView { items: all, next: None }
    }
}

/// The name of a session that the store makes up.
pub open spec fn session_name(n: nat) -> Seq<char> {
    "session-"@ + decimal(n)
}

/// Whether a run goes on on a thread.
pub open spec fn running_on<E, D>(
    runs: Map<Seq<char>, RunView<E, D>>,
    run: Seq<char>,
    thread: Seq<char>,
) -> bool {
    runs.contains_key(run) && runs[run].status is Running && runs[run].start.thread_id == thread
}

/// A run that goes on on a thread, other than one.
pub open spec fn other_run<E, D>(
    runs: Map<Seq<char>, RunView<E, D>>,
    thread: Seq<char>,
    except: Seq<char>,
) -> Option<Seq<char>> {
    if exists|run: Seq<char>| run != except && #[trigger] running_on(runs, run, thread) {
        Some(choose|run: Seq<char>| run != except && #[trigger] running_on(runs, run, thread))
    } else {
        None
    }
}

/// The contents of a run store.
#[verifier::ext_equal]
pub struct StoreView<E, D> {
    /// The number in the last session name that was made up.
    pub next_session: nat,
    /// The scope of each session.
    pub sessions: Map<Seq<char>, Seq<char>>,
    /// The runs.
    pub runs: Map<Seq<char>, RunView<E, D>>,
    /// The runs in the order in which they were started.
    pub order: Seq<Seq<char>>,
    /// The claims to threads.
    pub thread_leases: Map<Seq<char>, ThreadLeaseView>,
    /// The checkpoint of each thread.
    pub checkpoints: Map<Seq<char>, CheckpointRecordView>,
    /// The run that was started under a client's key, by scope, session and key.
    pub idempotency: Map<(Seq<char>, Seq<char>, Seq<char>), Seq<char>>,
    /// The effects.
    pub effects: Keyed<EffectView>,
    /// The items.
    pub items: Keyed<ItemView>,
    /// The entries, in the order in which they were recorded.
    pub entries: Seq<ScopedEntryView>,
}

impl<E: RunEvent, D> StoreView<E, D> {
    /// A store that holds nothing.
    pub open spec fn empty() -> Self {
        StoreView {
            next_session: 0,
            sessions: Map::empty(),
            runs: Map::empty(),
            order: Seq::empty(),
            thread_leases: Map::empty(),
            checkpoints: Map::empty(),
            idempotency: Map::empty(),
            effects: Map::empty(),
            items: Map::empty(),
            entries: Seq::empty(),
        }
    }

    /// Each run lies under its own name, and the order names each run once.
    pub open spec fn runs_named(self) -> bool {
        &&& self.order.no_duplicates()
        &&& forall|run: Seq<char>| #[trigger]
            self.runs.contains_key(run) <==> self.order.contains(run)
        &&& forall|run: Seq<char>| #[trigger]
            self.runs.contains_key(run) ==> self.runs[run].start.run_id == run
    }

    /// Each run is sound.
    pub open spec fn runs_sound(self) -> bool {
        forall|run: Seq<char>| #[trigger] self.runs.contains_key(run) ==> self.runs[run].sound()
    }

    /// At most one run goes on on each thread.
    pub open spec fn one_per_thread(self) -> bool {
        forall|a: Seq<char>, b: Seq<char>, thread: Seq<char>| #[trigger]
            self.running_on(a, thread) && #[trigger] self.running_on(b, thread) ==> a == b
    }

    /// A run with a lease has its thread under the same lease, and a thread is claimed by no run
    /// but one with that lease.
    pub open spec fn leases_agree(self) -> bool {
        &&& forall|run: Seq<char>| #[trigger]
            self.runs.contains_key(run) && self.runs[run].lease is Some ==> self.runs[run].status
                is Running && self.thread_leases.contains_key(self.runs[run].start.thread_id)
                && self.thread_leases[self.runs[run].start.thread_id].run == run
        &&& forall|thread: Seq<char>| #[trigger]
            self.thread_leases.contains_key(thread) ==> {
                let held = self.thread_leases[thread];
                &&& self.runs.contains_key(held.run)
                &&& self.runs[held.run].start.thread_id == thread
                &&& self.runs[held.run].lease == Some(
                    HeldLeaseView { owner: held.owner, id: held.id, until: held.until },
                )
            }
    }

    /// Each client's key names a run that was started under it.
    pub open spec fn keys_sound(self) -> bool {
        forall|scope: Seq<char>, session: Seq<char>, key: Seq<char>| #[trigger]
            self.idempotency.contains_key((scope, session, key)) ==> {
                let run = self.idempotency[(scope, session, key)];
                &&& self.runs.contains_key(run)
                &&& self.runs[run].start.scope == scope
                &&& self.runs[run].start.session_id == session
                &&& self.runs[run].start.client_run_key == Some(key)
            }
    }

    /// Each effect and each item lies under its own run and key.
    pub open spec fn ops_sound(self) -> bool {
        &&& forall|run: Seq<char>, key: Seq<char>| #[trigger]
            self.effects.contains_key((run, key)) ==> self.effects[(run, key)].run_id == run
                && self.effects[(run, key)].key == key
        &&& forall|run: Seq<char>, key: Seq<char>| #[trigger]
            self.items.contains_key((run, key)) ==> self.items[(run, key)].run_id == run
                && self.items[(run, key)].key == key
    }

    /// The entries of a session have different keys, and places that grow from one.
    pub open spec fn entries_sound(self) -> bool {
        entries_sound(self.entries)
    }

    /// What holds of every store.
    pub open spec fn inv(self) -> bool {
        &&& self.runs_named()
        &&& self.runs_sound()
        &&& self.one_per_thread()
        &&& self.leases_agree()
        &&& self.keys_sound()
        &&& self.ops_sound()
        &&& self.entries_sound()
    }

    /// The run as one sees it from a scope.
    pub open spec fn visible(self, run: Seq<char>, scope: Seq<char>) -> Option<RunView<E, D>> {
        if self.runs.contains_key(run) && self.runs[run].start.scope == scope {
            Some(self.runs[run])
        } else {
            None
        }
    }

    /// Whether a run goes on on a thread.
    pub open spec fn running_on(self, run: Seq<char>, thread: Seq<char>) -> bool {
        running_on(self.runs, run, thread)
    }

    /// Why a run cannot have a thread: another run goes on on it.
    pub open spec fn thread_refusal(self, thread: Seq<char>, except: Seq<char>) -> Option<ErrorView> {
        match other_run(self.runs, thread, except) {
            Some(run) => Some(
                ErrorView::ThreadBusy { owner: self.runs[run].owner(), run: Some(run) },
            ),
            None => None,
        }
    }

    /// Why a thread cannot be claimed: another claim to it has not run out.
    pub open spec fn claim_refusal(self, thread: Seq<char>, now: nat) -> Option<ErrorView> {
        if self.thread_leases.contains_key(thread) && self.thread_leases[thread].until > now {
            let held = self.thread_leases[thread];
            Some(ErrorView::ThreadBusy { owner: Some(held.owner), run: Some(held.run) })
        } else {
            None
        }
    }

    /// Whether a checkpoint can be written for a run that goes on: it is of the run's thread, and
    /// the run has the thread.
    pub open spec fn checkpoint_refusal(
        self,
        run: RunView<E, D>,
        checkpoint: CheckpointWriteView,
        lease: Option<Seq<char>>,
        now: nat,
    ) -> Option<ErrorView> {
        let thread = run.start.thread_id;
        if checkpoint.thread_id != thread {
            Some(invalid("checkpoint thread_id does not match target run"@))
        } else if self.thread_refusal(thread, run.start.run_id) is Some {
            self.thread_refusal(thread, run.start.run_id)
        } else {
            match run.lease {
                None => self.claim_refusal(thread, now),
                Some(active) => if self.thread_leases.contains_key(thread)
                    && self.thread_leases[thread].run == run.start.run_id
                    && self.thread_leases[thread].owner == active.owner
                    && self.thread_leases[thread].id == active.id && lease == Some(
                    self.thread_leases[thread].id,
                ) && now < self.thread_leases[thread].until {
                    None
                } else {
                    Some(ErrorView::LeaseLost)
                },
            }
        }
    }

    /// The store with a session in it: the scope of one that is there already stays.
    pub open spec fn with_session(self, session: Seq<char>, scope: Seq<char>) -> Self {
        if self.sessions.contains_key(session) {
            self
        } else {
            StoreView { sessions: self.sessions.insert(session, scope), ..self }
        }
    }

    /// The store with a session in it under a name of its own.
    pub open spec fn made_session(self, n: nat, scope: Seq<char>) -> Self {
        (StoreView { next_session: n, ..self }).with_session(session_name(n), scope)
    }

    /// Whether a number is the first after the last one whose session name is free.
    pub open spec fn first_free(self, n: nat) -> bool {
        &&& self.next_session < n
        &&& !self.sessions.contains_key(session_name(n))
        &&& forall|k: nat| self.next_session < k < n ==> #[trigger] self.sessions.contains_key(
            session_name(k),
        )
    }

    /// Whether a run was started with the same input and entries as one to be started.
    pub open spec fn started_alike(self, run: Seq<char>, start: RunStartView) -> bool {
        self.runs[run].start.input == start.input && self.runs[run].start.entries == start.entries
    }

    /// The answer to the start of a run that is there already.
    pub open spec fn restarted(self, run: Seq<char>, start: RunStartView) -> Result<
        StoreStartResultView,
        ErrorView,
    > {
        if self.started_alike(run, start) {
            Ok(StoreStartResultView::Existing(self.runs[run].lookup()))
        } else {
            Err(ErrorView::StartConflict)
        }
    }

    /// The run that was started under a client's key.
    pub open spec fn keyed_run(
        self,
        scope: Seq<char>,
        session: Seq<char>,
        key: Seq<char>,
    ) -> Option<Seq<char>> {
        if self.idempotency.contains_key((scope, session, key)) && self.runs.contains_key(
            self.idempotency[(scope, session, key)],
        ) {
            Some(self.idempotency[(scope, session, key)])
        } else {
            None
        }
    }

    /// Why a run that is not there yet cannot be started.
    pub open spec fn start_refusal(self, start: RunStartView, now: nat) -> Option<ErrorView> {
        if self.thread_refusal(start.thread_id, start.run_id) is Some {
            self.thread_refusal(start.thread_id, start.run_id)
        } else if start.lease is Some && self.claim_refusal(start.thread_id, now) is Some {
            self.claim_refusal(start.thread_id, now)
        } else {
            entries_refusal(self.entries, start.scope, start.session_id, start.entries)
        }
    }

    /// The store with a run started in it.
    pub open spec fn with_run(self, start: RunStartView, clock: Clock) -> Self {
        let now = clock.now as nat;
        StoreView {
            runs: self.runs.insert(
                start.run_id,
                RunView {
                    start,
                    status: RunStatus::Running,
                    finish_reason: None,
                    cancel_requested: false,
                    finish_data: None,
                    terminal_event: None,
                    events: Seq::empty(),
                    lease: match start.lease {
                        Some(claim) => Some(granted(claim, now)),
                        None => None,
                    },
                },
            ),
            order: self.order.push(start.run_id),
            thread_leases: match start.lease {
                Some(claim) => self.thread_leases.insert(
                    start.thread_id,
                    ThreadLeaseView {
                        run: start.run_id,
                        owner: claim.owner,
                        id: claim.id,
                        until: now + claim.ttl,
                    },
                ),
                None => self.thread_leases,
            },
            idempotency: match start.client_run_key {
                Some(key) => self.idempotency.insert(
                    (start.scope, start.session_id, key),
                    start.run_id,
                ),
                None => self.idempotency,
            },
            entries: with_entries(
                self.entries,
                EntryOrigin {
                    scope: start.scope,
                    run_id: start.run_id,
                    session_id: start.session_id,
                    thread_id: start.thread_id,
                    at: clock.wall_ms as int,
                },
                start.entries,
            ),
            ..self
        }
    }

    /// Starts a run.
    pub open spec fn start_run(self, start: RunStartView, clock: Clock) -> (
        Self,
        Result<StoreStartResultView, ErrorView>,
    ) {
        let store = self.with_session(start.session_id, start.scope);
        if self.runs.contains_key(start.run_id) {
            (store, self.restarted(start.run_id, start))
        } else if start.client_run_key is Some && self.keyed_run(
            start.scope,
            start.session_id,
            start.client_run_key->0,
        ) is Some {
            let run = self.keyed_run(start.scope, start.session_id, start.client_run_key->0)->0;
            (store, self.restarted(run, start))
        } else {
            match self.start_refusal(start, clock.now as nat) {
                Some(error) => (store, Err(error)),
                None => (store.with_run(start, clock), Ok(StoreStartResultView::Created)),
            }
        }
    }

    /// Whether a run was started with this input and these entries.
    pub open spec fn check_run_start(
        self,
        run: Seq<char>,
        scope: Seq<char>,
        input: Option<Seq<char>>,
        entries: Seq<EntryWriteView>,
    ) -> Result<(), ErrorView> {
        match self.visible(run, scope) {
            None => Err(ErrorView::RunNotFound),
            Some(found) => if found.start.input == input && found.start.entries == entries {
                Ok(())
            } else {
                Err(ErrorView::StartConflict)
            },
        }
    }

    /// What the store tells of a run.
    pub open spec fn lookup_run(self, run: Seq<char>, scope: Seq<char>) -> Option<RunLookupView> {
        match self.visible(run, scope) {
            Some(found) => Some(found.lookup()),
            None => None,
        }
    }

    /// The event that ended a run.
    pub open spec fn terminal_event(self, run: Seq<char>, scope: Seq<char>) -> Option<E> {
        match self.visible(run, scope) {
            Some(found) => found.terminal_event,
            None => None,
        }
    }

    /// What the store tells of the run that was started under a client's key.
    pub open spec fn find_idempotent_run(
        self,
        scope: Seq<char>,
        session: Seq<char>,
        key: Seq<char>,
    ) -> Option<RunLookupView> {
        match self.keyed_run(scope, session, key) {
            Some(run) => Some(self.runs[run].lookup()),
            None => None,
        }
    }

    /// Notes that a run was asked to stop.
    pub open spec fn mark_cancelled(self, run: Seq<char>, scope: Seq<char>) -> (
        Self,
        Result<(), ErrorView>,
    ) {
        match self.visible(run, scope) {
            Some(found) => (
                self.with_updated(run, RunView { cancel_requested: true, ..found }),
                Ok(()),
            ),
            None => (self, Err(ErrorView::RunNotFound)),
        }
    }

    /// The store with a run replaced.
    pub open spec fn with_updated(self, run: Seq<char>, found: RunView<E, D>) -> Self {
        StoreView { runs: self.runs.insert(run, found), ..self }
    }

    /// Why a finish is refused, whatever the store holds.
    pub open spec fn finish_refusal(finish: RunFinishRecordView<E, D>) -> Option<ErrorView> {
        match event_refusal(finish.run_id, finish.session_id, finish.terminal_event) {
            Some(error) => Some(error),
            None => if !finish.terminal_event.terminal() {
                Some(invalid("finish_run requires a terminal event"@))
            } else if !finish.status.terminal() {
                Some(invalid("finish_run requires a terminal status"@))
            } else {
                None
            },
        }
    }

    /// Ends a run.
    pub open spec fn finish_run(self, finish: RunFinishRecordView<E, D>, clock: Clock) -> (
        Self,
        Result<FinishRunResult<E>, ErrorView>,
    ) {
        let event = finish.terminal_event;
        let run = self.runs[finish.run_id];
        if Self::finish_refusal(finish) is Some {
            (self, Err(Self::finish_refusal(finish)->0))
        } else if !self.runs.contains_key(finish.run_id) {
            (self, Err(ErrorView::RunNotFound))
        } else if finish.session_id != run.start.session_id {
            (self, Err(invalid("finish session_id does not match target run"@)))
        } else if finish.scope != run.start.scope {
            (self, Err(ErrorView::RunNotFound))
        } else if run.status.terminal() {
            match run.terminal_event {
                Some(event) => (self, Ok(FinishRunResult::AlreadyFinished(event))),
                None => (self, Err(ErrorView::RunNotFound)),
            }
        } else if run.lease is Some {
            (self, Err(ErrorView::LeaseLost))
        } else if place_refusal(last_place(run.events), event.place()) is Some {
            (self, Err(place_refusal(last_place(run.events), event.place())->0))
        } else if entries_refusal(
            self.entries,
            finish.scope,
            finish.session_id,
            finish.entries,
        ) is Some {
            (self, Err(ErrorView::EntryConflict))
        } else {
            (
                StoreView {
                    runs: self.runs.insert(
                        finish.run_id,
                        run.ended(
                            finish.status,
                            finish.finish_reason,
                            finish.data,
                            seq![event],
                        ),
                    ),
                    entries: with_entries(
                        self.entries,
                        EntryOrigin {
                            scope: finish.scope,
                            run_id: finish.run_id,
                            session_id: finish.session_id,
                            thread_id: run.start.thread_id,
                            at: clock.wall_ms as int,
                        },
                        finish.entries,
                    ),
                    ..self
                },
                Ok(FinishRunResult::Finished(event)),
            )
        }
    }

    /// Records an event of a run. The answer is whether it was recorded.
    pub open spec fn record_event(self, run: Seq<char>, scope: Seq<char>, event: E) -> (
        Self,
        Result<bool, ErrorView>,
    ) {
        let found = self.runs[run];
        if event.terminal() {
            (self, Err(invalid("record_event does not accept terminal events"@)))
        } else if event.run() != run {
            (self, Err(invalid("event run_id does not match target run"@)))
        } else if !self.runs.contains_key(run) {
            (self, Ok(false))
        } else if found.start.scope != scope {
            (self, Err(ErrorView::RunNotFound))
        } else if found.status.terminal() {
            (self, Ok(false))
        } else if found.lease is Some {
            (self, Err(ErrorView::LeaseLost))
        } else if event.session() != found.start.session_id {
            (self, Err(invalid("event session_id does not match target run"@)))
        } else {
            match place_refusal(last_place(found.events), event.place()) {
                Some(error) => (self, Err(error)),
                None => (
                    self.with_updated(run, RunView { events: found.events.push(event), ..found }),
                    Ok(true),
                ),
            }
        }
    }

    /// The events of a run after a place.
    pub open spec fn events_after(self, run: Seq<char>, scope: Seq<char>, after: int) -> Seq<E> {
        match self.visible(run, scope) {
            Some(found) => found.events.filter(|event: E| event.place() > after),
            None => Seq::empty(),
        }
    }

    /// What the client added when a run ended.
    pub open spec fn finish_data(self, run: Seq<char>) -> Option<D> {
        if self.runs.contains_key(run) {
            self.runs[run].finish_data
        } else {
            None
        }
    }

    /// The checkpoint of a thread.
    pub open spec fn load_checkpoint(self, thread: Seq<char>) -> Option<CheckpointRecordView> {
        if self.checkpoints.contains_key(thread) {
            Some(self.checkpoints[thread])
        } else {
            None
        }
    }

    /// Lists the events of a run after a place.
    pub open spec fn list_events(
        self,
        run: Seq<char>,
        scope: Seq<char>,
        after: int,
        limit: nat,
    ) -> Result<PageView<E>, ErrorView> {
        if limit == 0 {
            Err(ErrorView::InvalidPageLimit)
        } else {
            Ok(page_of(self.events_after(run, scope, after), limit, |event: E| event.place()))
        }
    }

    /// Why a commit to a run that goes on is refused.
    pub open spec fn write_refusal(
        self,
        run: RunView<E, D>,
        commit: RunCommitView<E, D>,
        now: nat,
    ) -> Option<ErrorView> {
        if !run.held(commit.lease, now) {
            Some(ErrorView::LeaseLost)
        } else if commit.checkpoint is Some && self.checkpoint_refusal(
            run,
            commit.checkpoint->0,
            commit.lease,
            now,
        ) is Some {
            self.checkpoint_refusal(run, commit.checkpoint->0, commit.lease, now)
        } else if sequence_refusal(run.events, commit.events) is Some {
            sequence_refusal(run.events, commit.events)
        } else if effects_refusal(self.effects, commit.run_id, commit.effects) is Some {
            effects_refusal(self.effects, commit.run_id, commit.effects)
        } else if items_refusal(self.items, commit.run_id, commit.items) is Some {
            items_refusal(self.items, commit.run_id, commit.items)
        } else {
            entries_refusal(self.entries, commit.scope, commit.session_id, commit.entries)
        }
    }

    /// The store after a commit to a run that goes on.
    pub open spec fn written(
        self,
        run: RunView<E, D>,
        commit: RunCommitView<E, D>,
        clock: Clock,
    ) -> Self {
        let at = clock.wall_ms as int;
        StoreView {
            runs: self.runs.insert(
                commit.run_id,
                match commit.finish {
                    Some(finish) => run.ended(
                        finish.status,
                        finish.finish_reason,
                        finish.data,
                        commit.events,
                    ),
                    None => RunView { events: run.events + commit.events, ..run },
                },
            ),
            thread_leases: match commit.finish {
                Some(_) => self.thread_leases.remove(run.start.thread_id),
                None => self.thread_leases,
            },
            checkpoints: match commit.checkpoint {
                Some(checkpoint) => self.checkpoints.insert(
                    checkpoint.thread_id,
                    checkpoint.record,
                ),
                None => self.checkpoints,
            },
            effects: with_effects(self.effects, commit.run_id, commit.effects, at),
            items: with_items(self.items, commit.run_id, commit.items, at),
            entries: with_entries(
                self.entries,
                EntryOrigin {
                    scope: commit.scope,
                    run_id: commit.run_id,
                    session_id: commit.session_id,
                    thread_id: run.start.thread_id,
                    at,
                },
                commit.entries,
            ),
            ..self
        }
    }

    /// Commits what a run writes in one step.
    pub open spec fn commit_run(self, commit: RunCommitView<E, D>, clock: Clock) -> (
        Self,
        Result<RunCommitResultView<E>, ErrorView>,
    ) {
        let run = self.runs[commit.run_id];
        if commit_refusal(commit) is Some {
            (self, Err(commit_refusal(commit)->0))
        } else if !self.runs.contains_key(commit.run_id) {
            (self, Ok(RunCommitResultView::Skipped))
        } else if run.start.scope != commit.scope {
            (self, Err(ErrorView::RunNotFound))
        } else if run.start.session_id != commit.session_id {
            (self, Err(invalid("event session_id does not match target run"@)))
        } else if run.status.terminal() {
            if commit.finish is Some && run.terminal_event is Some {
                let event = run.terminal_event->0;
                (
                    self,
                    Ok(
                        RunCommitResultView::Finished {
                            events: seq![event],
                            result: FinishRunResult::AlreadyFinished(event),
                        },
                    ),
                )
            } else {
                (self, Ok(RunCommitResultView::Skipped))
            }
        } else {
            match self.write_refusal(run, commit, clock.now as nat) {
                Some(error) => (self, Err(error)),
                None => (
                    self.written(run, commit, clock),
                    Ok(
                        match commit.finish {
                            Some(_) => RunCommitResultView::Finished {
                                events: commit.events,
                                result: FinishRunResult::Finished(commit.events.last()),
                            },
                            None => RunCommitResultView::Recorded(commit.events),
                        },
                    ),
                ),
            }
        }
    }

    /// Why a run cannot work on its effects and entries outside a commit.
    pub open spec fn op_refusal(
        self,
        run: Seq<char>,
        scope: Seq<char>,
        lease: Option<Seq<char>>,
        now: nat,
    ) -> Option<ErrorView> {
        match self.visible(run, scope) {
            None => Some(ErrorView::RunNotFound),
            Some(found) => if found.status.terminal() {
                Some(ErrorView::RunNotFound)
            } else if !found.held(lease, now) {
                Some(ErrorView::LeaseLost)
            } else {
                None
            },
        }
    }

    /// Announces an effect.
    pub open spec fn reserve_effect(
        self,
        run: Seq<char>,
        scope: Seq<char>,
        lease: Option<Seq<char>>,
        key: Seq<char>,
        kind: Seq<char>,
        request: Seq<char>,
        clock: Clock,
    ) -> (Self, Result<EffectView, ErrorView>) {
        let at = clock.wall_ms as int;
        if self.op_refusal(run, scope, lease, clock.now as nat) is Some {
            (self, Err(self.op_refusal(run, scope, lease, clock.now as nat)->0))
        } else if self.effects.contains_key((run, key)) {
            let effect = self.effects[(run, key)];
            if effect.kind != kind || effect.request != request {
                (self, Err(ErrorView::EffectConflict))
            } else {
                (self, Ok(effect))
            }
        } else {
            let effect = EffectView {
                run_id: run,
                key,
                kind,
                status: EffectStatus::Reserved,
                request,
                result: None,
                error_code: None,
                error_message: None,
                created_at: at,
                updated_at: at,
            };
            (StoreView { effects: self.effects.insert((run, key), effect), ..self }, Ok(effect))
        }
    }

    /// Starts an effect that is not under way. One that is done stays done.
    pub open spec fn start_effect(
        self,
        run: Seq<char>,
        scope: Seq<char>,
        lease: Option<Seq<char>>,
        key: Seq<char>,
        clock: Clock,
    ) -> (Self, Result<EffectView, ErrorView>) {
        let effect = self.effects[(run, key)];
        if self.op_refusal(run, scope, lease, clock.now as nat) is Some {
            (self, Err(self.op_refusal(run, scope, lease, clock.now as nat)->0))
        } else if !self.effects.contains_key((run, key)) {
            (self, Err(ErrorView::EffectNotFound))
        } else if effect.status.blocking() {
            (self, Err(ErrorView::EffectPending))
        } else if effect.status is Done {
            (self, Ok(effect))
        } else {
            let started = EffectView {
                status: EffectStatus::Started,
                result: None,
                error_code: None,
                error_message: None,
                updated_at: clock.wall_ms as int,
                ..effect
            };
            (StoreView { effects: self.effects.insert((run, key), started), ..self }, Ok(started))
        }
    }

    /// The entries that a query asks for.
    pub open spec fn entries_for(self, query: EntryQueryView) -> Seq<EntryView> {
        self.entries.filter(|scoped: ScopedEntryView| scoped.matches(query)).map_values(
            |scoped: ScopedEntryView| scoped.entry,
        )
    }

    /// Lists entries of a session.
    pub open spec fn list_entries(self, query: EntryQueryView) -> Result<
        PageView<EntryView>,
        ErrorView,
    > {
        if query.limit == 0 {
            Err(ErrorView::InvalidPageLimit)
        } else {
            Ok(page_of(self.entries_for(query), query.limit, |entry: EntryView| entry.seq))
        }
    }

    /// Lists the items of a run, in the order of their keys.
    pub open spec fn list_items(self, run: Seq<char>, scope: Seq<char>, limit: nat) -> Result<
        Seq<ItemView>,
        ErrorView,
    > {
        if limit == 0 {
            Err(ErrorView::InvalidPageLimit)
        } else if self.visible(run, scope) is Some {
            Ok(first_of(self.items, run, limit))
        } else {
            Ok(Seq::empty())
        }
    }

    /// Lists the effects of a run, in the order of their keys.
    pub open spec fn list_effects(self, run: Seq<char>, scope: Seq<char>, limit: nat) -> Result<
        Seq<EffectView>,
        ErrorView,
    > {
        if limit == 0 {
            Err(ErrorView::InvalidPageLimit)
        } else if self.visible(run, scope) is Some {
            Ok(first_of(self.effects, run, limit))
        } else {
            Ok(Seq::empty())
        }
    }

    /// The last entry of a kind in a session, of a thread and a visibility where they are named.
    pub open spec fn latest_entry(
        self,
        scope: Seq<char>,
        session: Seq<char>,
        thread: Option<Seq<char>>,
        kind: Seq<char>,
        vis: Option<Vis>,
    ) -> Option<EntryView> {
        let found = self.entries_for(
            EntryQueryView {
                scope,
                session_id: session,
                thread_id: thread,
                kind: Some(kind),
                vis,
                after_seq: 0,
                limit: usize::MAX as nat,
            },
        );
        if found.len() > 0 {
            Some(found.last())
        } else {
            None
        }
    }

    /// The entry under a key of a session.
    pub open spec fn entry_under(
        self,
        scope: Seq<char>,
        session: Seq<char>,
        key: Seq<char>,
    ) -> EntryView {
        let i = choose|i: int|
            0 <= i < self.entries.len() && (#[trigger] self.entries[i]).under(scope, session, key);
        self.entries[i].entry
    }

    /// Records an entry outside a commit.
    pub open spec fn record_entry(
        self,
        run: Seq<char>,
        scope: Seq<char>,
        lease: Option<Seq<char>>,
        write: EntryWriteView,
        clock: Clock,
    ) -> (Self, Result<EntryView, ErrorView>) {
        let start = self.runs[run].start;
        if self.op_refusal(run, scope, lease, clock.now as nat) is Some {
            (self, Err(self.op_refusal(run, scope, lease, clock.now as nat)->0))
        } else if entries_refusal(self.entries, scope, start.session_id, seq![write]) is Some {
            (self, Err(ErrorView::EntryConflict))
        } else {
            let store = StoreView {
                entries: with_entry(
                    self.entries,
                    EntryOrigin {
                        scope,
                        run_id: run,
                        session_id: start.session_id,
                        thread_id: start.thread_id,
                        at: clock.wall_ms as int,
                    },
                    write,
                ),
                ..self
            };
            (store, Ok(store.entry_under(scope, start.session_id, write.key)))
        }
    }

    /// Whether a lease holds: its run goes on under it, in time, and has the thread under it.
    pub open spec fn leased(self, lease: LeaseView, now: nat) -> bool {
        &&& self.runs.contains_key(lease.run)
        &&& self.runs[lease.run].status is Running
        &&& self.runs[lease.run].lease matches Some(active) && active.owner == lease.owner
            && active.id == lease.id && now < active.until
        &&& self.thread_leases.contains_key(self.runs[lease.run].start.thread_id)
        &&& {
            let thread = self.thread_leases[self.runs[lease.run].start.thread_id];
            thread.run == lease.run && thread.owner == lease.owner && thread.id == lease.id && now
                < thread.until
        }
    }

    /// Renews a lease. The answer is whether it held.
    pub open spec fn renew(self, lease: LeaseView, ttl: nat, now: nat) -> (Self, bool) {
        if self.leased(lease, now) {
            let run = self.runs[lease.run];
            let thread = self.thread_leases[run.start.thread_id];
            (
                StoreView {
                    runs: self.runs.insert(
                        lease.run,
                        RunView {
                            lease: Some(HeldLeaseView { until: now + ttl, ..run.lease->0 }),
                            ..run
                        },
                    ),
                    thread_leases: self.thread_leases.insert(
                        run.start.thread_id,
                        ThreadLeaseView { until: now + ttl, ..thread },
                    ),
                    ..self
                },
                true,
            )
        } else {
            (self, false)
        }
    }

    /// Gives a lease back.
    pub open spec fn release(self, lease: LeaseView) -> Self {
        let run = self.runs[lease.run];
        if self.runs.contains_key(lease.run) && (run.lease matches Some(active) && active.owner
            == lease.owner && active.id == lease.id) {
            StoreView {
                runs: self.runs.insert(lease.run, RunView { lease: None, ..run }),
                thread_leases: self.thread_leases.remove(run.start.thread_id),
                ..self
            }
        } else {
            self
        }
    }

    /// Why an event cannot end a run whose lease has run out.
    pub open spec fn reap_refusal(run: RunView<E, D>, event: E) -> Option<ErrorView> {
        if event.run() != run.start.run_id || event.session() != run.start.session_id {
            Some(invalid("reap event target does not match run"@))
        } else if event.place() != run.next_place() || !event.terminal() {
            Some(invalid("reap requires the next terminal event"@))
        } else {
            None
        }
    }

    /// The store after a run whose lease has run out was ended.
    pub open spec fn with_reaped(self, id: Seq<char>, event: E, data: D) -> Self {
        let run = self.runs[id];
        StoreView {
            runs: self.runs.insert(
                id,
                run.ended(RunStatus::Error, "lease_expired"@, data, seq![event]),
            ),
            thread_leases: self.thread_leases.remove(run.start.thread_id),
            ..self
        }
    }

    /// Whether the runs whose lease has run out have an event number left to end with.
    pub open spec fn reapable(self, now: nat) -> bool {
        forall|run: Seq<char>| #[trigger]
            self.runs.contains_key(run) && self.runs[run].expired(now)
                ==> self.runs[run].next_place() <= i64::MAX
    }

    /// The runs whose lease has run out, in the order in which they were started, at most `limit`.
    pub open spec fn stale(self, limit: nat, now: nat) -> Seq<Seq<char>> {
        let all = self.order.filter(|run: Seq<char>| self.runs[run].expired(now));
        if all.len() > limit {
            all.take(limit as int)
        } else {
            all
        }
    }

    /// Ends the first `n` of some runs, each with its event and data, up to the first that is
    /// refused.
    pub open spec fn reap_first(self, stale: Seq<Seq<char>>, n: nat, ends: Seq<(E, D)>) -> (
        Self,
        Result<Seq<RunLookupView>, ErrorView>,
    )
        decreases n,
    {
        if n == 0 {
            (self, Ok(Seq::empty()))
        } else {
            let (store, result) = self.reap_first(stale, (n - 1) as nat, ends);
            let id = stale[n - 1];
            let (event, data) = ends[n - 1];
            match result {
                Err(error) => (store, Err(error)),
                Ok(reaped) => match Self::reap_refusal(self.runs[id], event) {
                    Some(error) => (store, Err(error)),
                    None => {
                        let next = store.with_reaped(id, event, data);
                        (next, Ok(reaped.push(next.runs[id].lookup())))
                    },
                },
            }
        }
    }
}

} // verus!
