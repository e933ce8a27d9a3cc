//! Ending runs whose lease has run out.

use vstd::prelude::*;

use crate::error::ErrorView;
use crate::lease_laws::abandoned;
use crate::memory::MemoryRunStore;
use crate::store::{RunEvent, RunLookup, RunLookupView};
use crate::store_view::StoreView;

verus! {

/// Whether the events that are built for runs end them, under the numbers that they are built for.
pub open spec fn builds_ends<E: RunEvent, F: Fn(&RunLookup, i64) -> E>(build: F) -> bool {
    forall|lookup: RunLookup, seq: i64, event: E| #[trigger]
        call_ensures(build, (&lookup, seq), event) ==> event.run() == lookup@.run_id
            && event.session() == lookup@.session_id && event.place() == seq && event.terminal()
}

proof fn lemma_taken<E: RunEvent, D>(
    store: StoreView<E, D>,
    stale: Seq<Seq<char>>,
    n: nat,
    ends: Seq<(E, D)>,
)
    requires
        n <= ends.len(),
        forall|k: int|
            0 <= k < n ==> StoreView::<E, D>::reap_refusal(
                store.runs[stale[k]],
                (#[trigger] ends[k]).0,
            ) is None,
    ensures
        store.reap_first(stale, n, ends).1 is Ok,
    decreases n,
{
    if n > 0 {
        lemma_taken(store, stale, (n - 1) as nat, ends);
        assert(StoreView::<E, D>::reap_refusal(store.runs[stale[n - 1]], ends[n - 1].0) is None);
    }
}

/// Where each event that is built for a run ends it under the number that it is built for, all the
/// runs that were found are ended, each with the event built for it, and none is refused.
pub proof fn built_ends_are_taken<E: RunEvent, D: Default, F: Fn(&RunLookup, i64) -> E>(
    before: StoreView<E, D>,
    after: StoreView<E, D>,
    limit: nat,
    now: nat,
    build: F,
    result: Result<Seq<RunLookupView>, ErrorView>,
    ends: Seq<(E, D)>,
)
    requires
        before.inv(),
        before.reapable(now),
        builds_ends(build),
        MemoryRunStore::<E, D>::reaped(before, after, limit, now, build, result, ends),
    ensures
        result is Ok,
        ends.len() == before.stale(limit, now).len(),
        forall|k: int|
            0 <= k < ends.len() ==> {
                let run = before.runs[#[trigger] before.stale(limit, now)[k]];
                let event = ends[k].0;
                &&& event.run() == run.start.run_id && event.terminal()
                &&& event.place() == if run.events.len() == 0 {
                    1
                } else {
                    run.events.last().place() + 1
                }
            },
{
    let stale = before.stale(limit, now);
    assert forall|k: int| 0 <= k < ends.len() implies StoreView::<E, D>::reap_refusal(
        before.runs[stale[k]],
        (#[trigger] ends[k]).0,
    ) is None by {
        let run = before.runs[stale[k]];
        before.abandoned_runs_are_found(limit, now, stale[k]);
        assert(stale.contains(stale[k]));
        assert(abandoned(before, stale[k], now));
        assert(before.runs.contains_key(stale[k]));
        assert(run.sound());
        assert(MemoryRunStore::<E, D>::built(run, build, ends[k]));
        let lookup = choose|lookup: RunLookup|
            #![trigger lookup@]
            lookup@ == run.lookup() && call_ensures(
                build,
                (&lookup, run.next_place() as i64),
                ends[k].0,
            );
        assert(call_ensures(build, (&lookup, run.next_place() as i64), ends[k].0));
    }
    lemma_taken(before, stale, ends.len(), ends);
    assert forall|k: int| 0 <= k < ends.len() implies {
        let run = before.runs[#[trigger] stale[k]];
        let event = ends[k].0;
        &&& event.run() == run.start.run_id && event.terminal()
        &&& event.place() == if run.events.len() == 0 {
            1
        } else {
            run.events.last().place() + 1
        }
    } by {
        assert(StoreView::<E, D>::reap_refusal(before.runs[stale[k]], ends[k].0) is None);
    }
}

} // verus!
