//! When a run is started, and what is stored of it then.

use vstd::prelude::*;

use crate::error::ErrorView;
use crate::fit::{entries_are_taken_where_they_fit, entries_fit};
use crate::model::{Clock, EntryOrigin};
use crate::store::{RunEvent, RunStartView, RunStatus, StoreStartResultView};
use crate::store_view::{running_on, session_name, StoreView};
use crate::text::decimal;
use crate::write_laws::{entries_are_recorded, entries_written};

verus! {

/// The run that a start names, by its own name or by the client's key.
pub open spec fn names<E, D>(store: StoreView<E, D>, start: RunStartView, run: Seq<char>) -> bool {
    &&& store.runs.contains_key(run)
    &&& run == start.run_id || (!store.runs.contains_key(start.run_id) && start.client_run_key
        is Some && store.idempotency.contains_key(
        (start.scope, start.session_id, start.client_run_key->0),
    ) && store.idempotency[(start.scope, start.session_id, start.client_run_key->0)] == run)
}

/// Whether a run goes on on the thread of a start.
pub open spec fn on_thread<E, D>(
    store: StoreView<E, D>,
    start: RunStartView,
    run: Seq<char>,
) -> bool {
    &&& store.runs.contains_key(run)
    &&& store.runs[run].status == RunStatus::Running
    &&& store.runs[run].start.thread_id == start.thread_id
}

impl<E: RunEvent, D> StoreView<E, D> {
    /// A session is stored with its scope, and one that is there keeps the scope that it has; nothing
    /// else changes.
    pub proof fn sessions_keep_their_scope(
        self,
        session: Seq<char>,
        scope: Seq<char>,
        other: Seq<char>,
    )
        ensures
            ({
                let after = self.with_session(session, scope);
                &&& after.sessions.contains_key(session)
                &&& after.sessions[session] == if self.sessions.contains_key(session) {
                    self.sessions[session]
                } else {
                    scope
                }
                &&& other != session ==> (after.sessions.contains_key(other)
                    <==> self.sessions.contains_key(other)) && (self.sessions.contains_key(other)
                    ==> after.sessions[other] == self.sessions[other])
                &&& after == (StoreView { sessions: after.sessions, ..self })
            }),
    {
    }

    /// A session that the store names itself gets the first name after the last one made up that no
    /// session has, and its scope; no session that was there loses its own.
    pub proof fn made_up_names_are_new(self, n: nat, m: nat, scope: Seq<char>, other: Seq<char>)
        requires
            self.first_free(n),
        ensures
            self.first_free(m) ==> m == n,
            n > self.next_session,
            session_name(n) == "session-"@ + decimal(n),
            !self.sessions.contains_key(session_name(n)),
            ({
                let after = self.made_session(n, scope);
                &&& after.next_session == n
                &&& after.sessions.contains_key(session_name(n))
                &&& after.sessions[session_name(n)] == scope
                &&& self.sessions.contains_key(other) ==> after.sessions.contains_key(other)
                    && after.sessions[other] == self.sessions[other]
                &&& after == (StoreView {
                    next_session: n,
                    sessions: after.sessions,
                    ..self
                })
            }),
            self.made_session(n, scope).first_free(m) ==> session_name(m) != session_name(n),
    {
        if self.first_free(m) && m < n {
            assert(self.sessions.contains_key(session_name(m)));
        }
        if self.first_free(m) && n < m {
            assert(self.sessions.contains_key(session_name(n)));
        }
    }

    /// A run that is not there yet is started where its thread is free and its entries fit: it goes
    /// on with what it was started with, its thread is claimed under its lease until the lease runs
    /// out, it is found by the client's key, and nothing else changes.
    pub proof fn new_runs_are_started(self, start: RunStartView, clock: Clock)
        requires
            self.inv(),
            forall|run: Seq<char>| !#[trigger] names(self, start, run),
            forall|run: Seq<char>| !#[trigger] on_thread(self, start, run),
            entries_fit(self.entries, start.scope, start.session_id, start.entries),
        ensures
            ({
                let (after, answer) = self.start_run(start, clock);
                let run = after.runs[start.run_id];
                let now = clock.now as nat;
                &&& answer == Ok::<StoreStartResultView, ErrorView>(StoreStartResultView::Created)
                &&& after.runs.contains_key(start.run_id)
                &&& run.start == start
                &&& run.status == RunStatus::Running
                &&& run.finish_reason is None && run.finish_data is None
                &&& run.terminal_event is None && !run.cancel_requested
                &&& run.events == Seq::<E>::empty()
                &&& match start.lease {
                    Some(claim) => {
                        let held = after.thread_leases[start.thread_id];
                        &&& run.lease matches Some(lease) && lease.owner == claim.owner && lease.id
                            == claim.id && lease.until == now + claim.ttl
                        &&& after.thread_leases.contains_key(start.thread_id)
                        &&& held.run == start.run_id && held.owner == claim.owner && held.id
                            == claim.id && held.until == now + claim.ttl
                        &&& after.thread_leases.remove(start.thread_id)
                            == self.thread_leases.remove(start.thread_id)
                    },
                    None => run.lease is None && after.thread_leases == self.thread_leases,
                }
                &&& match start.client_run_key {
                    Some(key) => after.idempotency == self.idempotency.insert(
                        (start.scope, start.session_id, key),
                        start.run_id,
                    ),
                    None => after.idempotency == self.idempotency,
                }
                &&& after.order == self.order.push(start.run_id)
                &&& after.runs.remove(start.run_id) == self.runs
                &&& after.sessions.contains_key(start.session_id)
                &&& self.sessions.contains_key(start.session_id) ==> after.sessions == self.sessions
                &&& !self.sessions.contains_key(start.session_id) ==> after.sessions
                    == self.sessions.insert(start.session_id, start.scope)
                &&& after.next_session == self.next_session
                &&& after.checkpoints == self.checkpoints
                &&& after.effects == self.effects
                &&& after.items == self.items
                &&& entries_written(
                    self.entries,
                    EntryOrigin {
                        scope: start.scope,
                        run_id: start.run_id,
                        session_id: start.session_id,
                        thread_id: start.thread_id,
                        at: clock.wall_ms as int,
                    },
                    start.entries,
                    after.entries,
                )
            }),
    {
        let (after, answer) = self.start_run(start, clock);
        self.lemma_unnamed(start);
        self.lemma_free(start, clock.now as nat);
        entries_are_taken_where_they_fit(
            self.entries,
            start.scope,
            start.session_id,
            start.entries,
        );
        entries_are_recorded(
            self.entries,
            EntryOrigin {
                scope: start.scope,
                run_id: start.run_id,
                session_id: start.session_id,
                thread_id: start.thread_id,
                at: clock.wall_ms as int,
            },
            start.entries,
        );
        assert(after.runs.remove(start.run_id) =~= self.runs);
        assert(after.thread_leases.remove(start.thread_id) =~= self.thread_leases.remove(
            start.thread_id,
        ));
    }

    proof fn lemma_unnamed(self, start: RunStartView)
        requires
            self.inv(),
            forall|run: Seq<char>| !#[trigger] names(self, start, run),
        ensures
            !self.runs.contains_key(start.run_id),
            start.client_run_key matches Some(key) ==> self.keyed_run(
                start.scope,
                start.session_id,
                key,
            ) is None,
    {
        assert(!names(self, start, start.run_id));
        if let Some(key) = start.client_run_key {
            assert(!names(
                self,
                start,
                self.idempotency[(start.scope, start.session_id, key)],
            ));
        }
    }

    proof fn lemma_free(self, start: RunStartView, now: nat)
        requires
            self.inv(),
            forall|run: Seq<char>| !#[trigger] on_thread(self, start, run),
        ensures
            self.thread_refusal(start.thread_id, start.run_id) is None,
            self.claim_refusal(start.thread_id, now) is None,
    {
        let thread = start.thread_id;
        if self.thread_refusal(thread, start.run_id) is Some {
            let other = choose|other: Seq<char>|
                other != start.run_id && #[trigger] running_on(self.runs, other, thread);
            assert(on_thread(self, start, other));
        }
        if self.thread_leases.contains_key(thread) {
            let held = self.thread_leases[thread];
            assert(self.runs[held.run].lease is Some);
            assert(on_thread(self, start, held.run));
        }
    }

    /// A start that names a run that is there starts nothing: it is answered with the run where it
    /// was started with the same input and entries, and refused where it was not.
    pub proof fn known_runs_are_not_started_again(
        self,
        start: RunStartView,
        run: Seq<char>,
        clock: Clock,
    )
        requires
            self.inv(),
            names(self, start, run),
        ensures
            ({
                let (after, answer) = self.start_run(start, clock);
                let found = self.runs[run];
                let same = found.start.input == start.input && found.start.entries
                    == start.entries;
                &&& after == self.with_session(start.session_id, start.scope)
                &&& after.runs == self.runs && after.order == self.order
                &&& after.thread_leases == self.thread_leases
                &&& after.idempotency == self.idempotency && after.entries == self.entries
                &&& after.checkpoints == self.checkpoints && after.effects == self.effects
                &&& after.items == self.items
                &&& same <==> answer is Ok
                &&& !same ==> answer == Err::<StoreStartResultView, ErrorView>(
                    ErrorView::StartConflict,
                )
                &&& same ==> (answer matches Ok(StoreStartResultView::Existing(lookup)) && {
                    &&& lookup.run_id == run
                    &&& lookup.session_id == found.start.session_id
                    &&& lookup.thread_id == found.start.thread_id
                    &&& lookup.status == found.status
                    &&& lookup.finish_reason == found.finish_reason
                    &&& lookup.cancel_requested == found.cancel_requested
                    &&& lookup.owner == match found.lease {
                        Some(lease) => Some(lease.owner),
                        None => None,
                    }
                })
            }),
    {
    }

    /// A run is not started while another goes on on its thread, or where an entry conflicts; nothing
    /// is stored of it but its session.
    pub proof fn refused_runs_are_not_started(
        self,
        start: RunStartView,
        run: Seq<char>,
        clock: Clock,
    )
        requires
            self.inv(),
            forall|other: Seq<char>| !#[trigger] names(self, start, other),
            on_thread(self, start, run) || !entries_fit(
                self.entries,
                start.scope,
                start.session_id,
                start.entries,
            ),
        ensures
            ({
                let (after, answer) = self.start_run(start, clock);
                &&& after == self.with_session(start.session_id, start.scope)
                &&& after.runs == self.runs && after.order == self.order
                &&& after.thread_leases == self.thread_leases
                &&& after.idempotency == self.idempotency && after.entries == self.entries
                &&& after.checkpoints == self.checkpoints && after.effects == self.effects
                &&& after.items == self.items
                &&& answer == Err::<StoreStartResultView, ErrorView>(
                    if on_thread(self, start, run) {
                        ErrorView::ThreadBusy {
                            owner: match self.runs[run].lease {
                                Some(lease) => Some(lease.owner),
                                None => None,
                            },
                            run: Some(run),
                        }
                    } else {
                        answer->Err_0
                    },
                )
                &&& (forall|other: Seq<char>| !#[trigger] on_thread(self, start, other))
                    ==> answer == Err::<StoreStartResultView, ErrorView>(ErrorView::EntryConflict)
            }),
    {
        self.lemma_unnamed(start);
        entries_are_taken_where_they_fit(
            self.entries,
            start.scope,
            start.session_id,
            start.entries,
        );
        if on_thread(self, start, run) {
            assert(self.running_on(run, start.thread_id));
            assert(run != start.run_id);
            let other = crate::store_view::other_run(
                self.runs,
                start.thread_id,
                start.run_id,
            )->0;
            assert(self.running_on(other, start.thread_id));
        } else if forall|other: Seq<char>| !#[trigger] on_thread(self, start, other) {
            self.lemma_free(start, clock.now as nat);
        }
    }

    /// A thread that is claimed cannot be claimed by another until the claim runs out, and who asks is
    /// told who has it.
    pub proof fn claims_keep_others_out(self, thread: Seq<char>, now: nat)
        ensures
            self.claim_refusal(thread, now) is None <==> !self.thread_leases.contains_key(thread)
                || self.thread_leases[thread].until <= now,
            self.claim_refusal(thread, now) matches Some(error) ==> (
            error matches ErrorView::ThreadBusy { owner, run } && owner == Some(
                self.thread_leases[thread].owner,
            ) && run == Some(self.thread_leases[thread].run)),
    {
    }

    /// Asking whether a run was started in some way tells just that.
    pub proof fn starts_are_compared(
        self,
        run: Seq<char>,
        scope: Seq<char>,
        input: Option<Seq<char>>,
        entries: Seq<crate::op::EntryWriteView>,
    )
        ensures
            self.check_run_start(run, scope, input, entries) is Ok <==> self.runs.contains_key(run)
                && self.runs[run].start.scope == scope && self.runs[run].start.input == input
                && self.runs[run].start.entries == entries,
            self.check_run_start(run, scope, input, entries) == Err::<(), ErrorView>(
                ErrorView::StartConflict,
            ) <==> self.runs.contains_key(run) && self.runs[run].start.scope == scope && (
            self.runs[run].start.input != input || self.runs[run].start.entries != entries),
    {
    }
}

} // verus!
