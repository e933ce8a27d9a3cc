//! Who holds a run, for how long, and what becomes of a run that nobody holds any more.

use vstd::prelude::*;

use crate::commit_laws::ended_as;
use crate::model::{HeldLeaseView, RunView};
use crate::store::{LeaseView, RunEvent, RunStatus};
use crate::store_laws::{lemma_filter_contains, lemma_filter_no_duplicates};
use crate::store_view::StoreView;
use crate::tx_laws::about_event;

verus! {

/// Whether a run goes on under a lease that has run out.
pub open spec fn abandoned<E, D>(store: StoreView<E, D>, run: Seq<char>, now: nat) -> bool {
    &&& store.runs.contains_key(run)
    &&& store.runs[run].status == RunStatus::Running
    &&& store.runs[run].lease matches Some(held) && held.until <= now
}

/// Whether a run goes on under a lease that has not run out.
pub open spec fn holds<E, D>(store: StoreView<E, D>, lease: LeaseView, now: nat) -> bool {
    &&& store.runs.contains_key(lease.run)
    &&& store.runs[lease.run].status == RunStatus::Running
    &&& store.runs[lease.run].lease matches Some(held) && held.owner == lease.owner && held.id
        == lease.id && now < held.until
}

/// Whether two stores hold the same but for a run and the claim to its thread.
pub open spec fn same_but_lease<E, D>(
    before: StoreView<E, D>,
    after: StoreView<E, D>,
    run: Seq<char>,
) -> bool {
    let thread = before.runs[run].start.thread_id;
    &&& after.next_session == before.next_session && after.sessions == before.sessions
    &&& after.order == before.order && after.idempotency == before.idempotency
    &&& after.checkpoints == before.checkpoints && after.effects == before.effects
    &&& after.items == before.items && after.entries == before.entries
    &&& after.runs.dom() == before.runs.dom()
    &&& after.runs.remove(run) == before.runs.remove(run)
    &&& after.thread_leases.remove(thread) == before.thread_leases.remove(thread)
}

impl<E: RunEvent, D> StoreView<E, D> {
    /// A lease is renewed exactly where its run goes on under it and it has not run out: then it and
    /// the claim to the thread hold until the new time, and nothing else changes.
    pub proof fn leases_are_renewed(self, lease: LeaseView, ttl: nat, now: nat)
        requires
            self.inv(),
        ensures
            ({
                let (after, renewed) = self.renew(lease, ttl, now);
                let thread = self.runs[lease.run].start.thread_id;
                &&& renewed <==> holds(self, lease, now)
                &&& renewed ==> {
                    &&& after.runs[lease.run] == (RunView {
                        lease: Some(
                            HeldLeaseView { owner: lease.owner, id: lease.id, until: now + ttl },
                        ),
                        ..self.runs[lease.run]
                    })
                    &&& after.thread_leases.contains_key(thread)
                    &&& after.thread_leases[thread].run == lease.run
                    &&& after.thread_leases[thread].owner == lease.owner
                    &&& after.thread_leases[thread].id == lease.id
                    &&& after.thread_leases[thread].until == now + ttl
                    &&& same_but_lease(self, after, lease.run)
                }
                &&& !renewed ==> after == self
            }),
    {
        let (after, renewed) = self.renew(lease, ttl, now);
        let thread = self.runs[lease.run].start.thread_id;
        if holds(self, lease, now) {
            assert(self.runs.contains_key(lease.run) && self.runs[lease.run].lease is Some);
            let held = self.thread_leases[thread];
            assert(self.thread_leases.contains_key(thread));
            assert(self.runs[held.run].lease == Some(
                HeldLeaseView { owner: held.owner, id: held.id, until: held.until },
            ));
            assert(after.runs.dom() =~= self.runs.dom());
            assert(after.runs.remove(lease.run) =~= self.runs.remove(lease.run));
            assert(after.thread_leases.remove(thread) =~= self.thread_leases.remove(thread));
        }
    }

    /// A lease is given back by the one who has it, whether it has run out or not: the run has none
    /// then, its thread is not claimed, and nothing else changes.
    pub proof fn leases_are_given_back(self, lease: LeaseView)
        requires
            self.inv(),
        ensures
            ({
                let after = self.release(lease);
                let thread = self.runs[lease.run].start.thread_id;
                let own = self.runs.contains_key(lease.run) && (self.runs[lease.run].lease matches Some(
                    held,
                ) && held.owner == lease.owner && held.id == lease.id);
                &&& own ==> {
                    &&& after.runs[lease.run] == (RunView { lease: None, ..self.runs[lease.run] })
                    &&& !after.thread_leases.contains_key(thread)
                    &&& same_but_lease(self, after, lease.run)
                }
                &&& !own ==> after == self
            }),
    {
        let after = self.release(lease);
        let thread = self.runs[lease.run].start.thread_id;
        if after != self {
            assert(after.runs.dom() =~= self.runs.dom());
            assert(after.runs.remove(lease.run) =~= self.runs.remove(lease.run));
            assert(after.thread_leases.remove(thread) =~= self.thread_leases.remove(thread));
        }
    }

    /// The runs to be reaped are just those that go on under a lease that has run out, whatever they
    /// have done, each once and in the order in which they were started; where not all may be
    /// reaped, those that were started first.
    pub proof fn abandoned_runs_are_found(self, limit: nat, now: nat, run: Seq<char>)
        requires
            self.inv(),
        ensures
            self.stale(limit, now).len() <= limit,
            self.stale(limit, now).no_duplicates(),
            self.stale(limit, now).contains(run) ==> abandoned(self, run, now),
            abandoned(self, run, now) && self.order.len() <= limit ==> self.stale(
                limit,
                now,
            ).contains(run),
            abandoned(self, run, now) && !self.stale(limit, now).contains(run) ==> self.stale(
                limit,
                now,
            ).len() == limit && forall|i: int|
                0 <= i < self.stale(limit, now).len() ==> self.order.index_of(
                    #[trigger] self.stale(limit, now)[i],
                ) < self.order.index_of(run),
            forall|i: int, j: int|
                0 <= i < j < self.stale(limit, now).len() ==> self.order.index_of(
                    #[trigger] self.stale(limit, now)[i],
                ) < self.order.index_of(#[trigger] self.stale(limit, now)[j]),
    {
        let keep = |id: Seq<char>| self.runs[id].expired(now);
        let all = self.order.filter(keep);
        let stale = self.stale(limit, now);
        lemma_filter_no_duplicates(self.order, keep);
        lemma_filter_contains(self.order, keep, run);
        lemma_filter_order(self.order, keep);
        lemma_filter_short(self.order, keep);
        assert forall|i: int| 0 <= i < stale.len() implies stale[i] == all[i] by {}
        if stale.contains(run) {
            let i = stale.index_of(run);
            assert(all[i] == run);
            assert(all.contains(run));
        }
        if abandoned(self, run, now) {
            assert(self.order.contains(run));
            assert(all.contains(run));
            let k = all.index_of(run);
            assert(all[k] == run);
            if k < limit {
                assert(stale[k] == run);
            }
        }
        assert(stale.no_duplicates());
    }

    /// Runs whose lease has run out can be ended just where a number is left for the event that ends
    /// each of them.
    pub proof fn abandoned_runs_have_a_number_left(self, now: nat)
        requires
            self.inv(),
        ensures
            self.reapable(now) <==> forall|run: Seq<char>| #[trigger]
                abandoned(self, run, now) && self.runs[run].events.len() > 0
                    ==> self.runs[run].events.last().place() < i64::MAX,
    {
        if self.reapable(now) {
            assert forall|run: Seq<char>| #[trigger]
                abandoned(self, run, now) && self.runs[run].events.len()
                    > 0 implies self.runs[run].events.last().place() < i64::MAX by {
                assert(self.runs.contains_key(run));
            }
        }
        if forall|run: Seq<char>| #[trigger]
            abandoned(self, run, now) && self.runs[run].events.len() > 0
                ==> self.runs[run].events.last().place() < i64::MAX {
            assert forall|run: Seq<char>| #[trigger]
                self.runs.contains_key(run) && self.runs[run].expired(
                    now,
                ) implies self.runs[run].next_place() <= i64::MAX by {
                assert(abandoned(self, run, now));
            }
        }
    }

    /// Reaping ends each of the runs that were found with the event that was built for it, as an
    /// error, gives their threads back, and is answered with them in order; the other runs are as
    /// they were.
    pub proof fn reaped_runs_have_failed(self, limit: nat, now: nat, ends: Seq<(E, D)>, i: int)
        requires
            self.inv(),
            self.stale(limit, now).len() <= ends.len(),
            forall|k: int|
                0 <= k < self.stale(limit, now).len() ==> {
                    let run = self.runs[#[trigger] self.stale(limit, now)[k]];
                    let event = ends[k].0;
                    &&& event.run() == run.start.run_id && event.session() == run.start.session_id
                    &&& event.terminal()
                    &&& event.place() == if run.events.len() == 0 {
                        1
                    } else {
                        run.events.last().place() + 1
                    }
                },
            0 <= i < self.stale(limit, now).len(),
        ensures
            ({
                let stale = self.stale(limit, now);
                let (after, answer) = self.reap_first(stale, stale.len(), ends);
                let before = self.runs[stale[i]];
                &&& answer matches Ok(reaped) && {
                    &&& reaped.len() == stale.len()
                    &&& reaped[i].run_id == stale[i]
                    &&& reaped[i].session_id == before.start.session_id
                    &&& reaped[i].thread_id == before.start.thread_id
                    &&& reaped[i].status == RunStatus::Error
                    &&& reaped[i].finish_reason == Some("lease_expired"@)
                    &&& reaped[i].cancel_requested == before.cancel_requested
                    &&& reaped[i].owner is None
                }
                &&& ended_as(
                    before,
                    after.runs[stale[i]],
                    RunStatus::Error,
                    "lease_expired"@,
                    ends[i].1,
                    ends[i].0,
                )
                &&& after.runs[stale[i]].events == before.events.push(ends[i].0)
                &&& !after.thread_leases.contains_key(before.start.thread_id)
                &&& after.checkpoints == self.checkpoints && after.effects == self.effects
                &&& after.items == self.items && after.entries == self.entries
                &&& after.order == self.order && after.idempotency == self.idempotency
                &&& after.runs.dom() == self.runs.dom()
            }),
    {
        let stale = self.stale(limit, now);
        self.abandoned_runs_are_found(limit, now, stale[i]);
        assert forall|k: int| 0 <= k < stale.len() implies abandoned(
            self,
            #[trigger] stale[k],
            now,
        ) by {
            self.abandoned_runs_are_found(limit, now, stale[k]);
        }
        self.lemma_reaped_one(stale, stale.len(), ends, now, i);
    }

    /// Where the event that was built for a run is refused, the runs before it stay ended, that run
    /// and those behind it are as they were, and the reason is told.
    pub proof fn refused_events_stop_reaping(
        self,
        stale: Seq<Seq<char>>,
        n: nat,
        ends: Seq<(E, D)>,
        k: nat,
    )
        requires
            k < n,
            self.reap_first(stale, k, ends).1 is Ok,
            ({
                let run = self.runs[stale[k as int]];
                let event = ends[k as int].0;
                let next = if run.events.len() == 0 {
                    1
                } else {
                    run.events.last().place() + 1
                };
                event.run() != run.start.run_id || event.session() != run.start.session_id
                    || event.place() != next || !event.terminal()
            }),
        ensures
            ({
                let (after, answer) = self.reap_first(stale, n, ends);
                let run = self.runs[stale[k as int]];
                let event = ends[k as int].0;
                &&& after == self.reap_first(stale, k, ends).0
                &&& answer matches Err(error) && about_event(
                    error,
                    if event.run() != run.start.run_id || event.session() != run.start.session_id {
                        "reap event target does not match run"@
                    } else {
                        "reap requires the next terminal event"@
                    },
                )
            }),
        decreases n,
    {
        if k < n - 1 {
            self.refused_events_stop_reaping(stale, (n - 1) as nat, ends, k);
        }
    }

    proof fn lemma_reaped_one(
        self,
        stale: Seq<Seq<char>>,
        n: nat,
        ends: Seq<(E, D)>,
        now: nat,
        i: int,
    )
        requires
            self.inv(),
            n <= stale.len() <= ends.len(),
            stale.no_duplicates(),
            0 <= i < stale.len(),
            forall|k: int| 0 <= k < stale.len() ==> abandoned(self, #[trigger] stale[k], now),
            forall|k: int|
                0 <= k < stale.len() ==> {
                    let run = self.runs[#[trigger] stale[k]];
                    let event = ends[k].0;
                    &&& event.run() == run.start.run_id && event.session() == run.start.session_id
                    &&& event.terminal()
                    &&& event.place() == if run.events.len() == 0 {
                        1
                    } else {
                        run.events.last().place() + 1
                    }
                },
        ensures
            ({
                let (after, answer) = self.reap_first(stale, n, ends);
                let before = self.runs[stale[i]];
                &&& answer is Ok && answer->Ok_0.len() == n
                &&& after.runs.dom() == self.runs.dom()
                &&& after.checkpoints == self.checkpoints && after.effects == self.effects
                &&& after.items == self.items && after.entries == self.entries
                &&& after.order == self.order && after.idempotency == self.idempotency
                &&& n <= i ==> after.runs[stale[i]] == before
                &&& i < n ==> {
                    let told = answer->Ok_0[i];
                    &&& told.run_id == stale[i]
                    &&& told.session_id == before.start.session_id
                    &&& told.thread_id == before.start.thread_id
                    &&& told.status == RunStatus::Error
                    &&& told.finish_reason == Some("lease_expired"@)
                    &&& told.cancel_requested == before.cancel_requested
                    &&& told.owner is None
                    &&& ended_as(
                        before,
                        after.runs[stale[i]],
                        RunStatus::Error,
                        "lease_expired"@,
                        ends[i].1,
                        ends[i].0,
                    )
                    &&& after.runs[stale[i]].events == before.events.push(ends[i].0)
                    &&& !after.thread_leases.contains_key(before.start.thread_id)
                }
            }),
        decreases n,
    {
        if n > 0 {
            let m = (n - 1) as nat;
            self.lemma_reaped_one(stale, m, ends, now, i);
            self.lemma_reaped_one(stale, m, ends, now, n - 1);
            let (mid, _) = self.reap_first(stale, m, ends);
            let id = stale[n - 1];
            assert(abandoned(self, id, now));
            assert(self.runs[id].sound());
            let after = self.reap_first(stale, n, ends).0;
            assert(after.runs.dom() =~= self.runs.dom());
            assert(self.runs[id].events + seq![ends[n - 1].0] =~= self.runs[id].events.push(
                ends[n - 1].0,
            ));
            if i < n - 1 {
                assert(stale[i] != stale[n - 1]);
            }
        }
    }
}

/// A filter keeps the order of what it keeps.
proof fn lemma_filter_order<A>(s: Seq<A>, keep: spec_fn(A) -> bool)
    requires
        s.no_duplicates(),
    ensures
        forall|i: int, j: int|
            0 <= i < j < s.filter(keep).len() ==> s.index_of(#[trigger] s.filter(keep)[i])
                < s.index_of(#[trigger] s.filter(keep)[j]),
    decreases s.len(),
{
    reveal(Seq::filter);
    if s.len() > 0 {
        let front = s.drop_last();
        let kept = front.filter(keep);
        let all = s.filter(keep);
        lemma_filter_order(front, keep);
        assert forall|i: int, j: int| 0 <= i < j < all.len() implies s.index_of(
            #[trigger] all[i],
        ) < s.index_of(#[trigger] all[j]) by {
            assert(all[i] == kept[i]);
            lemma_same_index(s, front, keep, i);
            if j < kept.len() {
                assert(all[j] == kept[j]);
                lemma_same_index(s, front, keep, j);
            } else {
                assert(s[s.len() - 1] == all[j]);
                assert(s.contains(all[j]));
                let k = s.index_of(all[j]);
                assert(s[k] == s[s.len() - 1]);
            }
        }
    }
}

proof fn lemma_same_index<A>(s: Seq<A>, front: Seq<A>, keep: spec_fn(A) -> bool, i: int)
    requires
        s.no_duplicates(),
        s.len() > 0,
        front == s.drop_last(),
        0 <= i < front.filter(keep).len(),
    ensures
        s.index_of(front.filter(keep)[i]) == front.index_of(front.filter(keep)[i]),
        s.index_of(front.filter(keep)[i]) < front.len(),
{
    let a = front.filter(keep)[i];
    assert(front.filter(keep).contains(a));
    lemma_filter_contains(front, keep, a);
    let k = front.index_of(a);
    assert(front[k] == a);
    assert(s[k] == a);
    assert(s.contains(a));
    let l = s.index_of(a);
    assert(s[l] == a);
}

/// A filter keeps no more than there is.
proof fn lemma_filter_short<A>(s: Seq<A>, keep: spec_fn(A) -> bool)
    ensures
        s.filter(keep).len() <= s.len(),
    decreases s.len(),
{
    reveal(Seq::filter);
    if s.len() > 0 {
        lemma_filter_short(s.drop_last(), keep);
    }
}

} // verus!
