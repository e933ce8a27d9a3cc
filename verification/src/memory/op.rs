//! Effects, items and entries outside a commit.

use vstd::prelude::*;

use crate::entries::{apply_entry, find_entry, lemma_entries_refusal, validate_entries, Origin};
use crate::error::{failure, seen, seen_all, ErrorView, MachineError};
use crate::ids::{LeaseId, RunId, SessionId, ThreadId};
use crate::json::Json;
use crate::listing::{first_of, keys_at, places_of};
use crate::memory::MemoryRunStore;
use crate::model::{entries_sound, numberable, Clock, ScopedEntryView};
use crate::op::{
    Effect, EffectStatus, Entry, EntryQuery, EntryView, EntryWrite, Item, Page, PageView, Vis,
};
use crate::store::{Nanos, RunEvent};
use crate::text::{opt, same_text, views};

verus! {

impl<E: RunEvent, D> MemoryRunStore<E, D> {
    fn check_op(&self, run_id: &RunId, scope: &Json, lease: Option<&LeaseId>, now: Nanos) -> (result:
        Result<(), MachineError>)
        requires
            self.wf(),
        ensures
            failure(result) == self@.op_refusal(run_id@, scope@, opt(lease), now as nat),
    {
        match self.visible(run_id, scope) {
            Some(run) => if run.status.is_terminal() {
                Err(MachineError::RunNotFound)
            } else if !run.held(lease, now) {
                Err(MachineError::LeaseLost)
            } else {
                Ok(())
            },
            None => Err(MachineError::RunNotFound),
        }
    }

    /// Announces an effect. One that was announced before is handed out again, where it is the
    /// same.
    pub fn reserve_effect(
        &mut self,
        run_id: &RunId,
        scope: &Json,
        lease: Option<&LeaseId>,
        key: &str,
        kind: &str,
        request: Json,
        clock: Clock,
    ) -> (result: Result<Effect, MachineError>)
        requires
            old(self).wf(),
        ensures
            final(self).wf(),
            (final(self)@, seen(result)) == old(self)@.reserve_effect(
                run_id@,
                scope@,
                opt(lease),
                key@,
                kind@,
                request@,
                clock,
            ),
    {
        proof {
            self@.reserve_effect_keeps(
                run_id@,
                scope@,
                opt(lease),
                key@,
                kind@,
                request@,
                clock,
            );
        }
        match self.check_op(run_id, scope, lease, clock.now) {
            Err(error) => {
                return Err(error);
            },
            Ok(()) => {},
        }
        let full = (run_id.clone(), key.to_owned());
        if let Some(effect) = self.effects.get(&full) {
            if !same_text(effect.kind.as_str(), kind) || effect.request != request {
                return Err(MachineError::EffectConflict);
            }
            return Ok(effect.clone());
        }
        let effect = Effect {
            run_id: run_id.clone(),
            key: key.to_owned(),
            kind: kind.to_owned(),
            status: EffectStatus::Reserved,
            request,
            result: None,
            error_code: None,
            error_message: None,
            created_at: clock.wall_ms,
            updated_at: clock.wall_ms,
        };
        self.effects.insert(full, effect.clone());
        assert(self@ =~= old(self)@.reserve_effect(
            run_id@,
            scope@,
            opt(lease),
            key@,
            kind@,
            request@,
            clock,
        ).0);
        Ok(effect)
    }

    /// Starts an effect that was announced. One that is under way or whose outcome is unknown is
    /// not started, and one that is done is handed out.
    pub fn start_effect(
        &mut self,
        run_id: &RunId,
        scope: &Json,
        lease: Option<&LeaseId>,
        key: &str,
        clock: Clock,
    ) -> (result: Result<Effect, MachineError>)
        requires
            old(self).wf(),
        ensures
            final(self).wf(),
            (final(self)@, seen(result)) == old(self)@.start_effect(
                run_id@,
                scope@,
                opt(lease),
                key@,
                clock,
            ),
    {
        proof {
            self@.start_effect_keeps(run_id@, scope@, opt(lease), key@, clock);
        }
        match self.check_op(run_id, scope, lease, clock.now) {
            Err(error) => {
                return Err(error);
            },
            Ok(()) => {},
        }
        let full = (run_id.clone(), key.to_owned());
        let mut started = match self.effects.get(&full) {
            Some(effect) => {
                if effect.status.is_blocking() {
                    return Err(MachineError::EffectPending);
                }
                if effect.status == EffectStatus::Done {
                    return Ok(effect.clone());
                }
                effect.clone()
            },
            None => {
                return Err(MachineError::EffectNotFound);
            },
        };
        started.status = EffectStatus::Started;
        started.result = None;
        started.error_code = None;
        started.error_message = None;
        started.updated_at = clock.wall_ms;
        self.effects.insert(full, started.clone());
        assert(self@ =~= old(self)@.start_effect(run_id@, scope@, opt(lease), key@, clock).0);
        Ok(started)
    }

    /// Lists the items of a run in the order of their keys.
    pub fn list_items(&self, run_id: &RunId, scope: &Json, limit: usize) -> (result: Result<
        Vec<Item>,
        MachineError,
    >)
        requires
            self.wf(),
        ensures
            seen_all(result) == self@.list_items(run_id@, scope@, limit as nat),
    {
        if limit == 0 {
            return Err(MachineError::InvalidPageLimit);
        }
        let mut items: Vec<Item> = Vec::new();
        if self.visible(run_id, scope).is_none() {
            assert(views(items@) =~= Seq::empty());
            return Ok(items);
        }
        let places = places_of(&self.items, run_id);
        let mut i: usize = 0;
        while i < places.len() && i < limit
            invariant
                self.wf(),
                i <= places@.len(),
                i <= limit,
                forall|i: int|
                    0 <= i < places@.len() ==> (#[trigger] places@[i]) < self.items.keys().len()
                        && self.items.keys()[places@[i] as int].0 == run_id@,
                items@.len() == i,
                forall|j: int|
                    0 <= j < i ==> (#[trigger] views(items@)[j]) == self@.items[(
                        run_id@,
                        keys_at(self.items.keys(), places@)[j],
                    )],
            decreases places@.len() - i,
        {
            let place: usize = places[i];
            let ghost before = items@;
            items.push(self.items.value_at(place).clone());
            proof {
                let key = self.items.keys()[place as int];
                assert(key == (run_id@, keys_at(self.items.keys(), places@)[i as int]));
                assert forall|j: int| 0 <= j < i + 1 implies (#[trigger] views(items@)[j])
                    == self@.items[(run_id@, keys_at(self.items.keys(), places@)[j])] by {
                    if j < i {
                        assert(views(items@)[j] == views(before)[j]);
                    }
                }
            }
            i = i + 1;
        }
        assert(views(items@) =~= first_of(self@.items, run_id@, limit as nat));
        Ok(items)
    }

    /// Lists the effects of a run in the order of their keys.
    pub fn list_effects(&self, run_id: &RunId, scope: &Json, limit: usize) -> (result: Result<
        Vec<Effect>,
        MachineError,
    >)
        requires
            self.wf(),
        ensures
            seen_all(result) == self@.list_effects(run_id@, scope@, limit as nat),
    {
        if limit == 0 {
            return Err(MachineError::InvalidPageLimit);
        }
        let mut effects: Vec<Effect> = Vec::new();
        if self.visible(run_id, scope).is_none() {
            assert(views(effects@) =~= Seq::empty());
            return Ok(effects);
        }
        let places = places_of(&self.effects, run_id);
        let mut i: usize = 0;
        while i < places.len() && i < limit
            invariant
                self.wf(),
                i <= places@.len(),
                i <= limit,
                forall|i: int|
                    0 <= i < places@.len() ==> (#[trigger] places@[i]) < self.effects.keys().len()
                        && self.effects.keys()[places@[i] as int].0 == run_id@,
                effects@.len() == i,
                forall|j: int|
                    0 <= j < i ==> (#[trigger] views(effects@)[j]) == self@.effects[(
                        run_id@,
                        keys_at(self.effects.keys(), places@)[j],
                    )],
            decreases places@.len() - i,
        {
            let place: usize = places[i];
            let ghost before = effects@;
            effects.push(self.effects.value_at(place).clone());
            proof {
                let key = self.effects.keys()[place as int];
                assert(key == (run_id@, keys_at(self.effects.keys(), places@)[i as int]));
                assert forall|j: int| 0 <= j < i + 1 implies (#[trigger] views(effects@)[j])
                    == self@.effects[(run_id@, keys_at(self.effects.keys(), places@)[j])] by {
                    if j < i {
                        assert(views(effects@)[j] == views(before)[j]);
                    }
                }
            }
            i = i + 1;
        }
        assert(views(effects@) =~= first_of(self@.effects, run_id@, limit as nat));
        Ok(effects)
    }

    fn collect_entries(&self, query: &EntryQuery) -> (entries: Vec<Entry>)
        requires
            self.wf(),
        ensures
            views(entries@) == self@.entries_for(query@),
    {
        let ghost all = views(self.entries@);
        let ghost asked = |scoped: ScopedEntryView| scoped.matches(query@);
        let ghost entry = |scoped: ScopedEntryView| scoped.entry;
        let mut entries: Vec<Entry> = Vec::new();
        let mut i: usize = 0;
        assert(views(entries@) =~= all.take(0).filter(asked).map_values(entry)) by {
            reveal(Seq::filter);
        }
        while i < self.entries.len()
            invariant
                i <= self.entries@.len(),
                all == views(self.entries@),
                asked == |scoped: ScopedEntryView| scoped.matches(query@),
                entry == |scoped: ScopedEntryView| scoped.entry,
                views(entries@) == all.take(i as int).filter(asked).map_values(entry),
            decreases self.entries@.len() - i,
        {
            let ghost before = views(entries@);
            proof {
                let next = all.take(i + 1);
                assert(next.drop_last() =~= all.take(i as int));
                assert(next.last() == self.entries@[i as int]@);
                reveal(Seq::filter);
            }
            if self.entries[i].matches(query) {
                let copy = self.entries[i].entry.clone();
                entries.push(copy);
                proof {
                    assert(views(entries@) =~= before.push(copy@));
                    let kept = all.take(i as int).filter(asked);
                    assert(kept.push(all[i as int]).map_values(entry) =~= kept.map_values(
                        entry,
                    ).push(all[i as int].entry));
                }
            }
            i = i + 1;
        }
        assert(all.take(all.len() as int) =~= all);
        entries
    }

    /// Lists entries of a session, in order.
    pub fn list_entries(&self, query: EntryQuery) -> (result: Result<Page<Entry>, MachineError>)
        requires
            self.wf(),
        ensures
            match result {
                Ok(page) => self@.list_entries(query@) == Ok::<PageView<EntryView>, ErrorView>(
                    PageView { items: views(page.items@), next: page@.next },
                ),
                Err(error) => self@.list_entries(query@) == Err::<PageView<EntryView>, ErrorView>(
                    error@,
                ),
            },
    {
        if query.limit == 0 {
            return Err(MachineError::InvalidPageLimit);
        }
        let mut entries = self.collect_entries(&query);
        if entries.len() > query.limit {
            let next: i64 = entries[query.limit - 1].seq;
            let ghost all = views(entries@);
            assert(all[query.limit - 1].seq == next);
            entries.truncate(query.limit);
            assert(views(entries@) =~= all.take(query.limit as int));
            return Ok(Page::new(entries, Some(next)));
        }
        Ok(Page::new(entries, None))
    }

    /// Records an entry outside a commit. One that was recorded before is handed out again, where
    /// it is the same.
    pub fn record_entry(
        &mut self,
        run_id: &RunId,
        scope: &Json,
        lease: Option<&LeaseId>,
        entry: EntryWrite,
        clock: Clock,
    ) -> (result: Result<Entry, MachineError>)
        requires
            old(self).wf(),
            old(self)@.runs.contains_key(run_id@) ==> numberable(
                old(self)@.entries,
                scope@,
                old(self)@.runs[run_id@].start.session_id,
                1,
            ),
        ensures
            final(self).wf(),
            (final(self)@, seen(result)) == old(self)@.record_entry(
                run_id@,
                scope@,
                opt(lease),
                entry@,
                clock,
            ),
    {
        proof {
            self@.record_entry_keeps(run_id@, scope@, opt(lease), entry@, clock);
        }
        match self.check_op(run_id, scope, lease, clock.now) {
            Err(error) => {
                return Err(error);
            },
            Ok(()) => {},
        }
        let run = match self.visible(run_id, scope) {
            Some(run) => run,
            None => {
                return Err(MachineError::RunNotFound);
            },
        };
        let session_id = run.start.session_id.clone();
        let thread_id = run.start.thread_id.clone();
        let mut writes: Vec<EntryWrite> = Vec::new();
        writes.push(entry.clone());
        proof {
            assert(views(writes@) =~= seq![entry@]);
            lemma_entries_refusal(self@.entries, scope@, session_id@, views(writes@));
        }
        match validate_entries(&self.entries, scope, &session_id, &writes) {
            Err(error) => {
                return Err(error);
            },
            Ok(()) => {},
        }
        let origin = Origin {
            scope,
            run_id,
            session_id: &session_id,
            thread_id: &thread_id,
            at: clock.wall_ms,
        };
        apply_entry(&mut self.entries, &origin, &entry);
        let ghost next = old(self)@.record_entry(run_id@, scope@, opt(lease), entry@, clock).0;
        assert(self@ =~= next);
        proof {
            lemma_recorded(old(self)@.entries, origin@, entry@);
        }
        match find_entry(&self.entries, scope, &session_id, &entry.key) {
            Some(i) => {
                proof {
                    let all = views(self.entries@);
                    let j = choose|j: int|
                        0 <= j < all.len() && (#[trigger] all[j]).under(
                            scope@,
                            session_id@,
                            entry@.key,
                        );
                    lemma_one_under(all, scope@, session_id@, entry@.key, i as int, j);
                }
                Ok(self.entries[i].entry.clone())
            },
            None => Err(MachineError::RunNotFound),
        }
    }

    /// The last entry of a sort in a session.
    pub fn latest_entry(
        &self,
        scope: &Json,
        session_id: &SessionId,
        thread_id: Option<&ThreadId>,
        kind: &str,
        vis: Option<Vis>,
    ) -> (entry: Option<Entry>)
        requires
            self.wf(),
        ensures
            opt(entry) == self@.latest_entry(scope@, session_id@, opt(thread_id), kind@, vis),
    {
        let query = EntryQuery {
            scope,
            session_id,
            thread_id,
            kind: Some(kind),
            vis,
            after_seq: 0,
            limit: usize::MAX,
        };
        let mut entries = self.collect_entries(&query);
        let ghost all = views(entries@);
        proof {
            assert(all.len() > 0 ==> all.last() == entries@.last()@);
        }
        entries.pop()
    }
}

/// After an entry is recorded there is one under its key.
proof fn lemma_recorded(
    entries: Seq<ScopedEntryView>,
    origin: crate::model::EntryOrigin,
    write: crate::op::EntryWriteView,
)
    ensures
        crate::model::has_entry(
            crate::model::with_entry(entries, origin, write),
            origin.scope,
            origin.session_id,
            write.key,
        ),
{
    let next = crate::model::with_entry(entries, origin, write);
    if !crate::model::has_entry(entries, origin.scope, origin.session_id, write.key) {
        assert(next[entries.len() as int].under(origin.scope, origin.session_id, write.key));
    }
}

/// A session has one entry under a key.
proof fn lemma_one_under(
    entries: Seq<ScopedEntryView>,
    scope: Seq<char>,
    session: Seq<char>,
    key: Seq<char>,
    i: int,
    j: int,
)
    requires
        entries_sound(entries),
        0 <= i < entries.len(),
        0 <= j < entries.len(),
        entries[i].under(scope, session, key),
        entries[j].under(scope, session, key),
    ensures
        i == j,
{
    if i < j {
        assert(entries[i].within(entries[j].scope, entries[j].entry.session_id));
    } else if j < i {
        assert(entries[j].within(entries[i].scope, entries[i].entry.session_id));
    }
}

} // verus!
