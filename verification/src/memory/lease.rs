//! Leases: renewing them, giving them back, and ending runs whose lease has run out.

use vstd::prelude::*;

use crate::error::{invalid, seen_all, ErrorView, MachineError};
use crate::ids::{RunId, ThreadId, WorkerId};
use crate::memory::MemoryRunStore;
use crate::model::RunView;
use crate::store::{last_seq, Lease, Nanos, RunEvent, RunLookup, RunLookupView, RunStatus};
use crate::store_view::StoreView;
use crate::text::views;

verus! {

impl<E: RunEvent, D> MemoryRunStore<E, D> {
    /// Renews a lease. The answer is whether it held.
    pub fn renew(&mut self, lease: &Lease, ttl: Nanos, now: Nanos) -> (renewed: bool)
        requires
            old(self).wf(),
            now + ttl <= u128::MAX,
        ensures
            final(self).wf(),
            (final(self)@, renewed) == old(self)@.renew(lease@, ttl as nat, now as nat),
    {
        proof {
            self@.renew_keeps(lease@, ttl as nat, now as nat);
        }
        let run = match self.runs.get(&lease.run) {
            Some(run) => run,
            None => {
                return false;
            },
        };
        let active = match &run.lease {
            Some(active) => active,
            None => {
                return false;
            },
        };
        if run.status != RunStatus::Running || active.owner != lease.owner || active.id != lease.id
            || active.until <= now {
            return false;
        }
        let thread_id = run.start.thread_id.clone();
        let thread = match self.thread_leases.get(&thread_id) {
            Some(thread) => thread,
            None => {
                return false;
            },
        };
        if thread.run != lease.run || thread.owner != lease.owner || thread.id != lease.id
            || thread.until <= now {
            return false;
        }
        let until: Nanos = now + ttl;
        if let Some(thread) = self.thread_leases.get_mut(&thread_id) {
            thread.until = until;
        }
        if let Some(run) = self.runs.get_mut(&lease.run) {
            if let Some(active) = &mut run.lease {
                active.until = until;
            }
        }
        assert(self@ =~= old(self)@.renew(lease@, ttl as nat, now as nat).0);
        true
    }

    /// Gives a lease back, with the thread that was held under it.
    pub fn release(&mut self, lease: &Lease)
        requires
            old(self).wf(),
        ensures
            final(self).wf(),
            final(self)@ == old(self)@.release(lease@),
    {
        proof {
            self@.release_keeps(lease@);
        }
        let thread_id = match self.runs.get(&lease.run) {
            Some(run) => match &run.lease {
                Some(active) => {
                    if active.owner != lease.owner || active.id != lease.id {
                        return ;
                    }
                    run.start.thread_id.clone()
                },
                None => {
                    return ;
                },
            },
            None => {
                return ;
            },
        };
        if let Some(run) = self.runs.get_mut(&lease.run) {
            run.lease = None;
        }
        self.thread_leases.remove(&thread_id);
        assert(self@ =~= old(self)@.release(lease@));
    }

    fn stale_runs(&self, limit: usize, now: Nanos) -> (ids: Vec<RunId>)
        requires
            self.wf(),
        ensures
            views(ids@) == self@.stale(limit as nat, now as nat),
    {
        let ghost order = self@.order;
        let ghost expired = |run: Seq<char>| self@.runs[run].expired(now as nat);
        let mut ids: Vec<RunId> = Vec::new();
        let mut i: usize = 0;
        assert(views(ids@) =~= order.take(0).filter(expired)) by {
            reveal(Seq::filter);
        }
        while i < self.runs.len()
            invariant
                self.wf(),
                i <= order.len(),
                order == self@.order,
                expired == |run: Seq<char>| self@.runs[run].expired(now as nat),
                ids@.len() <= limit,
                views(ids@) == order.take(i as int).filter(expired),
            decreases order.len() - i,
        {
            let ghost before = views(ids@);
            proof {
                let next = order.take(i + 1);
                assert(next.drop_last() =~= order.take(i as int));
                assert(next.last() == order[i as int]);
                reveal(Seq::filter);
            }
            if self.runs.value_at(i).expired(now) {
                if ids.len() >= limit {
                    proof {
                        assert(order.take(i + 1).filter(expired) == before.push(order[i as int]));
                        lemma_filter_prefix(order, expired, i + 1);
                        assert(self@.stale(limit as nat, now as nat) =~= before);
                    }
                    return ids;
                }
                let id = self.runs.key_at(i).clone();
                ids.push(id);
                assert(views(ids@) =~= before.push(id@));
            }
            i = i + 1;
        }
        assert(order.take(order.len() as int) =~= order);
        ids
    }

    /// Whether the runs whose lease has run out have an event number left to end with.
    pub fn reapable(&self, now: Nanos) -> (reapable: bool)
        requires
            self.wf(),
        ensures
            reapable == self@.reapable(now as nat),
    {
        let ghost order = self@.order;
        let mut i: usize = 0;
        while i < self.runs.len()
            invariant
                self.wf(),
                i <= order.len(),
                order == self@.order,
                forall|j: int|
                    0 <= j < i && self@.runs[#[trigger] order[j]].expired(now as nat)
                        ==> self@.runs[order[j]].next_place() <= i64::MAX,
            decreases order.len() - i,
        {
            let run = self.runs.value_at(i);
            proof {
                assert(order.contains(order[i as int]));
                assert(self@.runs.contains_key(order[i as int]));
            }
            if run.expired(now) {
                if let Some(last) = last_seq(&run.events) {
                    if last == i64::MAX {
                        return false;
                    }
                }
            }
            i = i + 1;
        }
        proof {
            assert forall|run: Seq<char>| #[trigger]
                self@.runs.contains_key(run) && self@.runs[run].expired(
                    now as nat,
                ) implies self@.runs[run].next_place() <= i64::MAX by {
                assert(order.contains(run));
                let j = order.index_of(run);
                assert(order[j] == run);
            }
        }
        true
    }

    fn reap(&mut self, id: &RunId, event: E, data: D) -> (lookup: RunLookup)
        requires
            old(self).tables_wf(),
            old(self)@.runs.contains_key(id@),
        ensures
            final(self).tables_wf(),
            final(self)@ == old(self)@.with_reaped(id@, event, data),
            lookup@ == final(self)@.runs[id@].lookup(),
    {
        let recorded = event.copy();
        let mut lookup: Option<RunLookup> = None;
        let mut thread_id: Option<ThreadId> = None;
        if let Some(run) = self.runs.get_mut(id) {
            run.status = RunStatus::Error;
            run.finish_reason = Some("lease_expired".to_owned());
            run.finish_data = Some(data);
            run.terminal_event = Some(event);
            run.events.push(recorded);
            run.lease = None;
            lookup = Some(run.lookup());
            thread_id = Some(run.start.thread_id.clone());
            assert(run@ =~= old(self)@.runs[id@].ended(
                RunStatus::Error,
                "lease_expired"@,
                data,
                seq![event],
            ));
        }
        let thread_id = thread_id.unwrap();
        self.thread_leases.remove(&thread_id);
        assert(self@ =~= old(self)@.with_reaped(id@, event, data));
        lookup.unwrap()
    }

    /// Whether an event was built to end a run, and data made for it.
    pub open spec fn built<F: Fn(&RunLookup, i64) -> E>(
        run: RunView<E, D>,
        build_event: F,
        end: (E, D),
    ) -> bool where D: Default {
        &&& exists|lookup: RunLookup|
            #![trigger lookup@]
            lookup@ == run.lookup() && call_ensures(
                build_event,
                (&lookup, run.next_place() as i64),
                end.0,
            )
        &&& call_ensures(D::default, (), end.1)
    }

    /// Whether a store is what ending runs whose lease has run out makes of it: each with the event
    /// built for it, up to the first that is refused.
    pub open spec fn reaped<F: Fn(&RunLookup, i64) -> E>(
        before: StoreView<E, D>,
        after: StoreView<E, D>,
        limit: nat,
        now: nat,
        build_event: F,
        result: Result<Seq<RunLookupView>, ErrorView>,
        ends: Seq<(E, D)>,
    ) -> bool where D: Default {
        let stale = before.stale(limit, now);
        &&& ends.len() <= stale.len()
        &&& result is Ok ==> ends.len() == stale.len()
        &&& forall|k: int|
            0 <= k < ends.len() ==> Self::built(
                before.runs[stale[k]],
                build_event,
                #[trigger] ends[k],
            )
        &&& (after, result) == before.reap_first(stale, ends.len(), ends)
    }

    /// Ends runs whose lease has run out, with an event that the caller builds for each, and gives
    /// their threads back. Where an event is refused, the runs before it stay ended.
    pub fn reap_stale<F: Fn(&RunLookup, i64) -> E>(
        &mut self,
        _owner: &WorkerId,
        limit: usize,
        build_event: F,
        now: Nanos,
    ) -> (result: Result<Vec<RunLookup>, MachineError>) where D: Default
        requires
            old(self).wf(),
            forall|lookup: &RunLookup, seq: i64| call_requires(build_event, (lookup, seq)),
            old(self)@.reapable(now as nat),
        ensures
            final(self).wf(),
            exists|ends: Seq<(E, D)>| #[trigger]
                Self::reaped(
                    old(self)@,
                    final(self)@,
                    limit as nat,
                    now as nat,
                    build_event,
                    seen_all(result),
                    ends,
                ),
    {
        let ghost before = self@;
        let ghost stale = before.stale(limit as nat, now as nat);
        let ids = self.stale_runs(limit, now);
        let ghost mut ends: Seq<(E, D)> = Seq::empty();
        let mut reaped: Vec<RunLookup> = Vec::new();
        proof {
            before.lemma_stale(limit as nat, now as nat);
            assert(views(reaped@) =~= Seq::empty());
        }
        let mut i: usize = 0;
        while i < ids.len()
            invariant
                before == old(self)@,
                before.inv(),
                stale == before.stale(limit as nat, now as nat),
                stale.no_duplicates(),
                views(ids@) == stale,
                i <= ids@.len(),
                ends.len() == i,
                self.tables_wf(),
                forall|i: int|
                    0 <= i < stale.len() ==> before.runs.contains_key(#[trigger] stale[i])
                        && before.runs[stale[i]].expired(now as nat),
                forall|lookup: &RunLookup, seq: i64| call_requires(build_event, (lookup, seq)),
                forall|run: Seq<char>| #[trigger]
                    before.runs.contains_key(run) && before.runs[run].expired(now as nat)
                        ==> before.runs[run].next_place() <= i64::MAX,
                forall|k: int|
                    0 <= k < ends.len() ==> Self::built(
                        before.runs[stale[k]],
                        build_event,
                        #[trigger] ends[k],
                    ),
                (self@, Ok::<Seq<RunLookupView>, ErrorView>(views(reaped@))) == before.reap_first(
                    stale,
                    i as nat,
                    ends,
                ),
            decreases ids@.len() - i,
        {
            let id = &ids[i];
            proof {
                assert(stale[i as int] == id@);
                before.reap_first_keeps(stale, i as nat, ends, now as nat);
            }
            let run = match self.runs.get(id) {
                Some(run) => run,
                None => {
                    proof {
                        assert(false);
                    }
                    return Ok(reaped);
                },
            };
            let lookup = run.lookup();
            let seq: i64 = match last_seq(&run.events) {
                Some(last) => last + 1,
                None => 1,
            };
            let event = build_event(&lookup, seq);
            let data = D::default();
            let ghost known = ends;
            proof {
                assert(run@ == before.runs[stale[i as int]]);
                assert(lookup@ == run@.lookup());
                ends = ends.push((event, data));
                lemma_reap_prefix(before, stale, i as nat, known, ends);
                assert(Self::built(before.runs[stale[i as int]], build_event, ends[i as int]));
            }
            if *event.run_id() != run.start.run_id || *event.session_id() != run.start.session_id {
                proof {
                    before.reap_first_keeps(stale, (i + 1) as nat, ends, now as nat);
                    assert(Self::reaped(
                        before,
                        self@,
                        limit as nat,
                        now as nat,
                        build_event,
                        Err(invalid("reap event target does not match run"@)),
                        ends,
                    ));
                }
                return Err(MachineError::invalid_run_event("reap event target does not match run"));
            }
            if event.seq() != seq || !event.is_terminal() {
                proof {
                    before.reap_first_keeps(stale, (i + 1) as nat, ends, now as nat);
                    assert(Self::reaped(
                        before,
                        self@,
                        limit as nat,
                        now as nat,
                        build_event,
                        Err(invalid("reap requires the next terminal event"@)),
                        ends,
                    ));
                }
                return Err(MachineError::invalid_run_event("reap requires the next terminal event"));
            }
            let ghost done = views(reaped@);
            let ended = self.reap(id, event, data);
            reaped.push(ended);
            assert(views(reaped@) =~= done.push(ended@));
            i = i + 1;
        }
        proof {
            before.reap_first_keeps(stale, ends.len(), ends, now as nat);
            assert(Self::reaped(
                before,
                self@,
                limit as nat,
                now as nat,
                build_event,
                Ok(views(reaped@)),
                ends,
            ));
        }
        Ok(reaped)
    }
}

/// Ending the first runs does not look at the ends of later ones.
proof fn lemma_reap_prefix<E: RunEvent, D>(
    store: StoreView<E, D>,
    stale: Seq<Seq<char>>,
    n: nat,
    ends: Seq<(E, D)>,
    more: Seq<(E, D)>,
)
    requires
        n <= ends.len() <= more.len(),
        forall|k: int| 0 <= k < n ==> ends[k] == more[k],
    ensures
        store.reap_first(stale, n, ends) == store.reap_first(stale, n, more),
    decreases n,
{
    if n > 0 {
        lemma_reap_prefix(store, stale, (n - 1) as nat, ends, more);
    }
}

/// What a filter keeps of the first items comes first in what it keeps of all.
proof fn lemma_filter_prefix<A>(s: Seq<A>, keep: spec_fn(A) -> bool, n: int)
    requires
        0 <= n <= s.len(),
    ensures
        s.take(n).filter(keep).len() <= s.filter(keep).len(),
        s.filter(keep).take(s.take(n).filter(keep).len() as int) == s.take(n).filter(keep),
    decreases s.len(),
{
    reveal(Seq::filter);
    if n < s.len() {
        let front = s.drop_last();
        assert(front.take(n) =~= s.take(n));
        lemma_filter_prefix(front, keep, n);
        let kept = s.take(n).filter(keep);
        assert(s.filter(keep).take(kept.len() as int) =~= front.filter(keep).take(
            kept.len() as int,
        ));
    } else {
        assert(s.take(n) =~= s);
        assert(s.filter(keep).take(s.filter(keep).len() as int) =~= s.filter(keep));
    }
}

} // verus!
