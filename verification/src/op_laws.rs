//! What becomes of the effects and entries of a run outside of commits.

use vstd::prelude::*;

use crate::error::ErrorView;
use crate::fit::{effects_fit, entries_are_taken_where_they_fit, entries_fit, goes_on, may_write};
use crate::model::{Clock, EntryOrigin};
use crate::op::{EffectStatus, EffectUpdateView, EffectView, EntryView, EntryWriteView};
use crate::store::RunEvent;
use crate::store_view::StoreView;
use crate::write_laws::{
    entries_are_recorded, entries_that_fit_read_back, entries_written, known, updates_are_made,
};

verus! {

/// Whether two stores hold the same but for their effects.
pub open spec fn same_but_effects<E, D>(before: StoreView<E, D>, after: StoreView<E, D>) -> bool {
    &&& after.next_session == before.next_session && after.sessions == before.sessions
    &&& after.runs == before.runs && after.order == before.order
    &&& after.thread_leases == before.thread_leases && after.checkpoints == before.checkpoints
    &&& after.idempotency == before.idempotency && after.items == before.items
    &&& after.entries == before.entries
}

impl<E: RunEvent, D> StoreView<E, D> {
    /// Only a run that goes on works on its effects and entries, and only under its lease.
    pub proof fn ops_need_the_run(
        self,
        run: Seq<char>,
        scope: Seq<char>,
        lease: Option<Seq<char>>,
        key: Seq<char>,
        kind: Seq<char>,
        request: Seq<char>,
        write: EntryWriteView,
        clock: Clock,
    )
        requires
            !goes_on(self, run, scope) || !may_write(
                self.runs[run].lease,
                lease,
                clock.now as nat,
            ),
        ensures
            ({
                let error = if goes_on(self, run, scope) {
                    ErrorView::LeaseLost
                } else {
                    ErrorView::RunNotFound
                };
                &&& self.reserve_effect(run, scope, lease, key, kind, request, clock) == (
                    self,
                    Err::<EffectView, ErrorView>(error),
                )
                &&& self.start_effect(run, scope, lease, key, clock) == (
                    self,
                    Err::<EffectView, ErrorView>(error),
                )
                &&& self.record_entry(run, scope, lease, write, clock) == (
                    self,
                    Err::<EntryView, ErrorView>(error),
                )
            }),
    {
    }

    /// Announcing an effect records what was asked for, once: announcing it again hands out what is
    /// recorded, and something else under its key is refused.
    pub proof fn effects_are_announced(
        self,
        run: Seq<char>,
        scope: Seq<char>,
        lease: Option<Seq<char>>,
        key: Seq<char>,
        kind: Seq<char>,
        request: Seq<char>,
        clock: Clock,
    )
        requires
            goes_on(self, run, scope),
            may_write(self.runs[run].lease, lease, clock.now as nat),
        ensures
            ({
                let (after, answer) = self.reserve_effect(
                    run,
                    scope,
                    lease,
                    key,
                    kind,
                    request,
                    clock,
                );
                let at = clock.wall_ms as int;
                let old = self.effects[(run, key)];
                if !self.effects.contains_key((run, key)) {
                    &&& answer matches Ok(effect) && {
                        &&& effect.run_id == run && effect.key == key
                        &&& effect.kind == kind && effect.request == request
                        &&& effect.status == EffectStatus::Reserved
                        &&& effect.result is None && effect.error_code is None
                        &&& effect.error_message is None
                        &&& effect.created_at == at && effect.updated_at == at
                        &&& after.effects == self.effects.insert((run, key), effect)
                    }
                    &&& same_but_effects(self, after)
                } else if old.kind == kind && old.request == request {
                    after == self && answer == Ok::<EffectView, ErrorView>(old)
                } else {
                    after == self && answer == Err::<EffectView, ErrorView>(
                        ErrorView::EffectConflict,
                    )
                }
            }),
    {
    }

    /// An effect is started where it was announced or has failed; one that is under way, or whose
    /// outcome is unknown, is not started again, and one that is done is handed out as it is.
    pub proof fn effects_are_started(
        self,
        run: Seq<char>,
        scope: Seq<char>,
        lease: Option<Seq<char>>,
        key: Seq<char>,
        clock: Clock,
    )
        requires
            goes_on(self, run, scope),
            may_write(self.runs[run].lease, lease, clock.now as nat),
        ensures
            ({
                let (after, answer) = self.start_effect(run, scope, lease, key, clock);
                let old = self.effects[(run, key)];
                if !self.effects.contains_key((run, key)) {
                    after == self && answer == Err::<EffectView, ErrorView>(
                        ErrorView::EffectNotFound,
                    )
                } else {
                    match old.status {
                        EffectStatus::Started | EffectStatus::Unknown => after == self && answer
                            == Err::<EffectView, ErrorView>(ErrorView::EffectPending),
                        EffectStatus::Done => after == self && answer == Ok::<
                            EffectView,
                            ErrorView,
                        >(old),
                        EffectStatus::Reserved | EffectStatus::Failed => {
                            &&& answer matches Ok(effect) && {
                                &&& effect.run_id == old.run_id && effect.key == old.key
                                &&& effect.kind == old.kind && effect.request == old.request
                                &&& effect.status == EffectStatus::Started
                                &&& effect.result is None && effect.error_code is None
                                &&& effect.error_message is None
                                &&& effect.created_at == old.created_at
                                &&& effect.updated_at == clock.wall_ms as int
                                &&& after.effects == self.effects.insert((run, key), effect)
                            }
                            &&& same_but_effects(self, after)
                        },
                    }
                }
            }),
    {
    }

    /// An effect whose update says that it failed can be started once more, one whose update says
    /// that it is done or unknown cannot.
    pub proof fn failed_effects_are_tried_again(
        self,
        run: Seq<char>,
        updates: Seq<EffectUpdateView>,
        i: int,
        at: int,
        scope: Seq<char>,
        lease: Option<Seq<char>>,
        clock: Clock,
    )
        requires
            goes_on(self, run, scope),
            may_write(self.runs[run].lease, lease, clock.now as nat),
            effects_fit(self.effects, run, updates),
            0 <= i < updates.len(),
            self.effects[(run, updates[i].key)].status != EffectStatus::Done,
        ensures
            ({
                let after = StoreView {
                    effects: crate::model::with_effects(self.effects, run, updates, at),
                    ..self
                };
                let answer = after.start_effect(run, scope, lease, updates[i].key, clock).1;
                match updates[i].status {
                    EffectStatus::Failed => answer matches Ok(effect) && effect.status
                        == EffectStatus::Started && effect.request == self.effects[(
                        run,
                        updates[i].key,
                    )].request,
                    EffectStatus::Done => answer matches Ok(effect) && effect.status
                        == EffectStatus::Done && effect.result == updates[i].result,
                    _ => answer == Err::<EffectView, ErrorView>(ErrorView::EffectPending),
                }
            }),
    {
        updates_are_made(self.effects, run, updates, at);
        let key = (run, updates[i].key);
        assert(self.effects.contains_key(key));
        assert(self.effects.dom().contains(key));
        assert(crate::model::with_effects(self.effects, run, updates, at).dom().contains(key));
    }

    /// Recording an entry stores it behind the others, where nothing else lies under its key, and is
    /// answered with what lies under the key.
    pub proof fn entries_are_recorded_at_once(
        self,
        run: Seq<char>,
        scope: Seq<char>,
        lease: Option<Seq<char>>,
        write: EntryWriteView,
        clock: Clock,
    )
        requires
            goes_on(self, run, scope),
            may_write(self.runs[run].lease, lease, clock.now as nat),
        ensures
            ({
                let (after, answer) = self.record_entry(run, scope, lease, write, clock);
                let start = self.runs[run].start;
                let origin = EntryOrigin {
                    scope,
                    run_id: run,
                    session_id: start.session_id,
                    thread_id: start.thread_id,
                    at: clock.wall_ms as int,
                };
                if entries_fit(self.entries, scope, start.session_id, seq![write]) {
                    &&& entries_written(self.entries, origin, seq![write], after.entries)
                    &&& answer matches Ok(entry) && {
                        &&& entry.session_id == start.session_id
                        &&& entry.key == write.key && entry.kind == write.kind
                        &&& entry.vis == write.vis && entry.body == write.body
                        &&& exists|j: int|
                            0 <= j < after.entries.len() && (#[trigger] after.entries[j]).scope
                                == scope && after.entries[j].entry == entry
                    }
                    &&& after == (StoreView { entries: after.entries, ..self })
                } else {
                    after == self && answer == Err::<EntryView, ErrorView>(
                        ErrorView::EntryConflict,
                    )
                }
            }),
    {
        let start = self.runs[run].start;
        let session = start.session_id;
        let origin = EntryOrigin {
            scope,
            run_id: run,
            session_id: session,
            thread_id: start.thread_id,
            at: clock.wall_ms as int,
        };
        let writes = seq![write];
        entries_are_taken_where_they_fit(self.entries, scope, session, writes);
        entries_are_recorded(self.entries, origin, writes);
        let all = crate::model::with_entries(self.entries, origin, writes);
        assert(writes.drop_last() =~= Seq::empty());
        assert(writes.last() == write);
        assert(crate::model::with_entries(self.entries, origin, writes.drop_last())
            == self.entries);
        assert(all == crate::model::with_entry(self.entries, origin, write));
        if entries_fit(self.entries, scope, session, writes) {
            assert(writes[0] == write);
            assert(known(all, scope, session, writes[0].key));
            let k = choose|k: int|
                0 <= k < all.len() && (#[trigger] all[k]).scope == scope && all[k].entry.session_id
                    == session && all[k].entry.key == write.key;
            assert(all[k].under(scope, session, write.key));
            let j = choose|j: int|
                0 <= j < all.len() && (#[trigger] all[j]).under(scope, session, write.key);
            entries_that_fit_read_back(self.entries, origin, writes, 0, j);
        }
    }
}

} // verus!
