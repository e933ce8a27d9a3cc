//! Commits: what a run writes in one step.

use vstd::prelude::*;

use crate::entries::{apply_entries, validate_entries, Origin};
use crate::error::{failure, seen, MachineError};
use crate::ids::{LeaseId, RunId};
use crate::memory::{MemoryRun, MemoryRunStore};
use crate::model::{numberable, with_effects, with_items, Clock};
use crate::op::{Effect, EffectStatus, EffectUpdate, Item, ItemWrite};
use crate::store::{
    copy_events, CheckpointWrite, FinishRunResult, Nanos, RunCommit, RunCommitResult, RunEvent,
};
use crate::store_laws::lemma_effects_there;
use crate::table::Table;
use crate::text::{opt, views};
use crate::validate::{
    validate_commit, validate_effect_updates, validate_event_sequence, validate_items,
};

verus! {

/// Updates effects that are there, in order. One that is done stays as it is.
fn apply_effect_updates(
    effects: &mut Table<(RunId, String), Effect>,
    run_id: &RunId,
    updates: &Vec<EffectUpdate>,
    at: i64,
)
    requires
        old(effects).wf(),
        forall|i: int|
            0 <= i < updates@.len() ==> old(effects)@.contains_key(
                (run_id@, (#[trigger] views(updates@)[i]).key),
            ),
    ensures
        final(effects).wf(),
        final(effects)@ == with_effects(old(effects)@, run_id@, views(updates@), at as int),
{
    let ghost before = effects@;
    let mut i: usize = 0;
    assert(with_effects(before, run_id@, views(updates@).take(0), at as int) =~= before);
    while i < updates.len()
        invariant
            i <= updates.len(),
            effects.wf(),
            effects@ == with_effects(before, run_id@, views(updates@).take(i as int), at as int),
            effects@.dom() == before.dom(),
            forall|i: int|
                0 <= i < updates@.len() ==> before.contains_key(
                    (run_id@, (#[trigger] views(updates@)[i]).key),
                ),
        decreases updates.len() - i,
    {
        let update = &updates[i];
        let key = (run_id.clone(), update.key.clone());
        let ghost now = effects@;
        proof {
            let next = views(updates@).take(i + 1);
            assert(next.drop_last() =~= views(updates@).take(i as int));
            assert(next.last() == views(updates@)[i as int]);
            assert(before.dom().contains(key@));
            assert(now.dom().contains(key@));
        }
        let done = match effects.get(&key) {
            Some(effect) => effect.status == EffectStatus::Done,
            None => false,
        };
        if !(done && update.status == EffectStatus::Done) {
            if let Some(effect) = effects.get_mut(&key) {
                effect.status = update.status;
                effect.result = update.result.clone();
                effect.error_code = update.error_code.clone();
                effect.error_message = update.error_message.clone();
                effect.updated_at = at;
            }
            assert(effects@.dom() =~= before.dom());
        }
        i = i + 1;
    }
    assert(views(updates@).take(updates@.len() as int) =~= views(updates@));
}

/// Records items, in order. One that is there already is left as it is.
fn apply_items(
    items: &mut Table<(RunId, String), Item>,
    run_id: &RunId,
    writes: &Vec<ItemWrite>,
    at: i64,
)
    requires
        old(items).wf(),
    ensures
        final(items).wf(),
        final(items)@ == with_items(old(items)@, run_id@, views(writes@), at as int),
{
    let ghost before = items@;
    let mut i: usize = 0;
    assert(with_items(before, run_id@, views(writes@).take(0), at as int) =~= before);
    while i < writes.len()
        invariant
            i <= writes.len(),
            items.wf(),
            items@ == with_items(before, run_id@, views(writes@).take(i as int), at as int),
        decreases writes.len() - i,
    {
        let write = &writes[i];
        let key = (run_id.clone(), write.key.clone());
        proof {
            let next = views(writes@).take(i + 1);
            assert(next.drop_last() =~= views(writes@).take(i as int));
            assert(next.last() == views(writes@)[i as int]);
        }
        if !items.contains(&key) {
            items.insert(
                key,
                Item {
                    run_id: run_id.clone(),
                    key: write.key.clone(),
                    kind: write.kind.clone(),
                    body: write.body.clone(),
                    created_at: at,
                    updated_at: at,
                },
            );
        }
        i = i + 1;
    }
    assert(views(writes@).take(writes@.len() as int) =~= views(writes@));
}

impl<E: RunEvent, D> MemoryRunStore<E, D> {
    /// A checkpoint must be of the run's thread, and the run must have the thread.
    fn check_thread(
        &self,
        run: &MemoryRun<E, D>,
        checkpoint: &CheckpointWrite,
        lease: Option<&LeaseId>,
        now: Nanos,
    ) -> (result: Result<(), MachineError>)
        requires
            self.wf(),
        ensures
            failure(result) == self@.checkpoint_refusal(run@, checkpoint@, opt(lease), now as nat),
    {
        let thread_id = &run.start.thread_id;
        if checkpoint.thread_id != *thread_id {
            return Err(
                MachineError::invalid_run_event("checkpoint thread_id does not match target run"),
            );
        }
        if let Some(other) = self.running_thread(thread_id, &run.start.run_id) {
            return Err(
                MachineError::ThreadBusy {
                    owner: match &other.lease {
                        Some(lease) => Some(lease.owner.clone()),
                        None => None,
                    },
                    run: Some(other.start.run_id.clone()),
                },
            );
        }
        let active = match &run.lease {
            Some(active) => active,
            None => {
                return self.claimed_thread(thread_id, now);
            },
        };
        let held = match self.thread_leases.get(thread_id) {
            Some(held) => held,
            None => {
                return Err(MachineError::LeaseLost);
            },
        };
        let same = match lease {
            Some(lease) => *lease == held.id,
            None => false,
        };
        if held.run != run.start.run_id || held.owner != active.owner || held.id != active.id
            || !same || held.until <= now {
            return Err(MachineError::LeaseLost);
        }
        Ok(())
    }

    /// A commit to a run that goes on must hold its lease and fit what the store holds.
    fn check_write(&self, run: &MemoryRun<E, D>, commit: &RunCommit<E, D>, now: Nanos) -> (result:
        Result<(), MachineError>)
        requires
            self.wf(),
        ensures
            failure(result) == self@.write_refusal(run@, commit@, now as nat),
    {
        if !run.held(commit.lease.as_ref(), now) {
            return Err(MachineError::LeaseLost);
        }
        if let Some(checkpoint) = &commit.checkpoint {
            match self.check_thread(run, checkpoint, commit.lease.as_ref(), now) {
                Err(error) => {
                    return Err(error);
                },
                Ok(()) => {},
            }
        }
        match validate_event_sequence(&run.events, &commit.events) {
            Err(error) => {
                return Err(error);
            },
            Ok(()) => {},
        }
        match validate_effect_updates(&self.effects, &commit.run_id, &commit.effects) {
            Err(error) => {
                return Err(error);
            },
            Ok(()) => {},
        }
        match validate_items(&self.items, &commit.run_id, &commit.items) {
            Err(error) => {
                return Err(error);
            },
            Ok(()) => {},
        }
        validate_entries(&self.entries, &commit.scope, &commit.session_id, &commit.entries)
    }

    /// Commits what a run writes in one step: its checkpoint, events, effects, items, entries and
    /// end. Where it is refused, nothing is written.
    pub fn commit_run(&mut self, commit: RunCommit<E, D>, clock: Clock) -> (result: Result<
        RunCommitResult<E>,
        MachineError,
    >)
        requires
            old(self).wf(),
            numberable(
                old(self)@.entries,
                commit.scope@,
                commit.session_id@,
                commit.entries@.len(),
            ),
        ensures
            final(self).wf(),
            (final(self)@, seen(result)) == old(self)@.commit_run(commit@, clock),
    {
        proof {
            self@.commit_run_keeps(commit@, clock);
        }
        match validate_commit(&commit) {
            Err(error) => {
                return Err(error);
            },
            Ok(()) => {},
        }
        let run = match self.runs.get(&commit.run_id) {
            Some(run) => run,
            None => {
                return Ok(RunCommitResult::Skipped);
            },
        };
        if run.start.scope != commit.scope {
            return Err(MachineError::RunNotFound);
        }
        if run.start.session_id != commit.session_id {
            return Err(MachineError::invalid_run_event("event session_id does not match target run"));
        }
        if run.status.is_terminal() {
            if commit.finish.is_some() {
                if let Some(event) = &run.terminal_event {
                    let mut events: Vec<E> = Vec::new();
                    events.push(event.copy());
                    assert(events@ =~= seq![*event]);
                    return Ok(
                        RunCommitResult::Finished {
                            events,
                            result: FinishRunResult::AlreadyFinished(event.copy()),
                        },
                    );
                }
            }
            return Ok(RunCommitResult::Skipped);
        }
        match self.check_write(run, &commit, clock.now) {
            Err(error) => {
                return Err(error);
            },
            Ok(()) => {},
        }
        let thread_id = run.start.thread_id.clone();
        if let Some(checkpoint) = commit.checkpoint {
            self.checkpoints.insert(checkpoint.thread_id, checkpoint.record);
        }
        proof {
            lemma_effects_there(self@.effects, commit@.run_id, commit@.effects);
        }
        apply_effect_updates(&mut self.effects, &commit.run_id, &commit.effects, clock.wall_ms);
        apply_items(&mut self.items, &commit.run_id, &commit.items, clock.wall_ms);
        let origin = Origin {
            scope: &commit.scope,
            run_id: &commit.run_id,
            session_id: &commit.session_id,
            thread_id: &thread_id,
            at: clock.wall_ms,
        };
        apply_entries(&mut self.entries, &origin, &commit.entries);
        let mut recorded = copy_events(&commit.events);
        match commit.finish {
            Some(finish) => {
                let last = &commit.events[commit.events.len() - 1];
                let terminal = last.copy();
                let ended = last.copy();
                if let Some(run) = self.runs.get_mut(&commit.run_id) {
                    run.status = finish.status;
                    run.finish_reason = Some(finish.finish_reason);
                    run.finish_data = Some(finish.data);
                    run.terminal_event = Some(terminal);
                    run.events.append(&mut recorded);
                    run.lease = None;
                }
                self.thread_leases.remove(&thread_id);
                assert(self@ =~= old(self)@.commit_run(commit@, clock).0);
                Ok(
                    RunCommitResult::Finished {
                        events: commit.events,
                        result: FinishRunResult::Finished(ended),
                    },
                )
            },
            None => {
                if let Some(run) = self.runs.get_mut(&commit.run_id) {
                    run.events.append(&mut recorded);
                }
                assert(self@ =~= old(self)@.commit_run(commit@, clock).0);
                Ok(RunCommitResult::Recorded(commit.events))
            },
        }
    }
}

} // verus!
