//! The checks that a write to a run must pass.

use vstd::prelude::*;

use crate::error::{failure, ErrorView, MachineError};
use crate::ids::{RunId, SessionId};
use crate::json::same_optional_json;
use crate::model::{
    commit_refusal, committed_event_refusal, effect_refusal, effects_refusal, event_refusal,
    first_failure, item_refusal, items_refusal, lemma_first_failure, place_refusal,
    sequence_refusal,
};
use crate::op::{Effect, EffectStatus, EffectUpdate, Item, ItemWrite};
use crate::store::{last_place, last_seq, RunCommit, RunEvent};
use crate::table::Table;
use crate::text::views;

verus! {

/// An event must belong to its run and session.
pub fn validate_event_run<E: RunEvent>(
    run_id: &RunId,
    session_id: &SessionId,
    event: &E,
) -> (result: Result<(), MachineError>)
    ensures
        failure(result) == event_refusal(run_id@, session_id@, *event),
{
    if *event.run_id() != *run_id {
        return Err(MachineError::invalid_run_event("event run_id does not match target run"));
    }
    if *event.session_id() != *session_id {
        return Err(MachineError::invalid_run_event("event session_id does not match target run"));
    }
    Ok(())
}

/// Whether an event among the first `n` ends its run.
pub fn any_terminal<E: RunEvent>(events: &Vec<E>, n: usize) -> (found: bool)
    requires
        n <= events.len(),
    ensures
        found == exists|i: int| 0 <= i < n && (#[trigger] events@[i]).terminal(),
{
    let mut i: usize = 0;
    while i < n
        invariant
            i <= n,
            n <= events.len(),
            forall|j: int| 0 <= j < i ==> !(#[trigger] events@[j]).terminal(),
        decreases n - i,
    {
        if events[i].is_terminal() {
            return true;
        }
        i = i + 1;
    }
    false
}

/// A commit must hold together, whatever the store holds.
pub fn validate_commit<E: RunEvent, D>(commit: &RunCommit<E, D>) -> (result: Result<
    (),
    MachineError,
>)
    ensures
        failure(result) == commit_refusal(commit@),
{
    if commit.events.len() == 0 && commit.effects.len() == 0 && commit.items.len() == 0
        && commit.entries.len() == 0 {
        return Err(
            MachineError::invalid_run_event("commit requires an event, effect, item, or entry"),
        );
    }
    let ghost check = |i: int|
        committed_event_refusal(commit@.run_id, commit@.session_id, commit@.events[i]);
    let mut i: usize = 0;
    while i < commit.events.len()
        invariant
            i <= commit.events.len(),
            check == |i: int|
                committed_event_refusal(commit@.run_id, commit@.session_id, commit@.events[i]),
            first_failure(i as nat, check) is None,
            !(commit@.events.len() == 0 && commit@.effects.len() == 0 && commit@.items.len() == 0
                && commit@.entries.len() == 0),
        decreases commit.events.len() - i,
    {
        let event = &commit.events[i];
        match validate_event_run(&commit.run_id, &commit.session_id, event) {
            Err(error) => {
                proof {
                    lemma_first_failure(commit@.events.len(), check, i as nat);
                }
                return Err(error);
            },
            Ok(()) => {},
        }
        if event.seq() <= 0 {
            proof {
                lemma_first_failure(commit@.events.len(), check, i as nat);
            }
            return Err(MachineError::invalid_run_event("event seq must be positive"));
        }
        i = i + 1;
    }
    match &commit.finish {
        Some(finish) => {
            if finish.run_id != commit.run_id || finish.session_id != commit.session_id {
                return Err(
                    MachineError::invalid_run_event("finish target does not match committed run"),
                );
            }
            if !finish.status.is_terminal() {
                return Err(MachineError::invalid_run_event("finish_run requires a terminal status"));
            }
            if commit.events.len() == 0 {
                return Err(
                    MachineError::invalid_run_event("finish commit requires a terminal event"),
                );
            }
            if !commit.events[commit.events.len() - 1].is_terminal() {
                return Err(MachineError::invalid_run_event("finish_run requires a terminal event"));
            }
            if any_terminal(&commit.events, commit.events.len() - 1) {
                return Err(
                    MachineError::invalid_run_event("only the last commit event may be terminal"),
                );
            }
        },
        None => {
            if any_terminal(&commit.events, commit.events.len()) {
                return Err(
                    MachineError::invalid_run_event("record_event does not accept terminal events"),
                );
            }
        },
    }
    Ok(())
}

/// An event must come after the last one.
pub fn validate_next_seq(last: Option<i64>, seq: i64) -> (result: Result<(), MachineError>)
    ensures
        failure(result) == place_refusal(
            match last {
                Some(last) => Some(last as int),
                None => None,
            },
            seq as int,
        ),
{
    if seq <= 0 {
        return Err(MachineError::invalid_run_event("event seq must be positive"));
    }
    if let Some(last) = last {
        if seq <= last {
            return Err(MachineError::invalid_run_event("event seq must increase monotonically"));
        }
    }
    Ok(())
}

/// Events must come after those of the run, each after the one before.
pub fn validate_event_sequence<E: RunEvent>(before: &Vec<E>, events: &Vec<E>) -> (result: Result<
    (),
    MachineError,
>)
    ensures
        failure(result) == sequence_refusal(before@, events@),
{
    let ghost check = |i: int|
        place_refusal(last_place(before@ + events@.take(i)), events@[i].place());
    let mut last: Option<i64> = last_seq(before);
    let mut i: usize = 0;
    assert(before@ + events@.take(0) =~= before@);
    while i < events.len()
        invariant
            i <= events.len(),
            check == |i: int|
                place_refusal(last_place(before@ + events@.take(i)), events@[i].place()),
            first_failure(i as nat, check) is None,
            match last {
                Some(seq) => last_place(before@ + events@.take(i as int)) == Some(seq as int),
                None => last_place(before@ + events@.take(i as int)) is None,
            },
        decreases events.len() - i,
    {
        let seq: i64 = events[i].seq();
        match validate_next_seq(last, seq) {
            Err(error) => {
                proof {
                    lemma_first_failure(events@.len(), check, i as nat);
                }
                return Err(error);
            },
            Ok(()) => {},
        }
        last = Some(seq);
        proof {
            assert((before@ + events@.take(i + 1)).last() == events@[i as int]);
        }
        i = i + 1;
    }
    Ok(())
}

/// Updates must be of effects that were announced, each once, and must not undo a result.
pub fn validate_effect_updates(
    effects: &Table<(RunId, String), Effect>,
    run_id: &RunId,
    updates: &Vec<EffectUpdate>,
) -> (result: Result<(), MachineError>)
    requires
        effects.wf(),
    ensures
        failure(result) == effects_refusal(effects@, run_id@, views(updates@)),
{
    let ghost check = |i: int| effect_refusal(effects@, run_id@, views(updates@), i);
    let mut i: usize = 0;
    while i < updates.len()
        invariant
            effects.wf(),
            i <= updates.len(),
            check == |i: int| effect_refusal(effects@, run_id@, views(updates@), i),
            first_failure(i as nat, check) is None,
        decreases updates.len() - i,
    {
        match validate_effect_update(effects, run_id, updates, i) {
            Err(error) => {
                proof {
                    lemma_first_failure(updates@.len(), check, i as nat);
                }
                return Err(error);
            },
            Ok(()) => {},
        }
        i = i + 1;
    }
    Ok(())
}

fn validate_effect_update(
    effects: &Table<(RunId, String), Effect>,
    run_id: &RunId,
    updates: &Vec<EffectUpdate>,
    i: usize,
) -> (result: Result<(), MachineError>)
    requires
        effects.wf(),
        i < updates.len(),
    ensures
        failure(result) == effect_refusal(effects@, run_id@, views(updates@), i as int),
{
    let update = &updates[i];
    let mut j: usize = 0;
    while j < i
        invariant
            j <= i,
            i < updates.len(),
            *update == updates@[i as int],
            forall|k: int| 0 <= k < j ==> (#[trigger] views(updates@)[k]).key != update.key@,
        decreases i - j,
    {
        if updates[j].key == update.key {
            assert(views(updates@)[j as int].key == update.key@);
            return Err(MachineError::EffectConflict);
        }
        j = j + 1;
    }
    let key = (run_id.clone(), update.key.clone());
    let effect = match effects.get(&key) {
        Some(effect) => effect,
        None => {
            return Err(MachineError::EffectNotFound);
        },
    };
    if matches!(update.status, EffectStatus::Reserved | EffectStatus::Started) {
        return Err(
            MachineError::invalid_run_event("effect commit requires a terminal or unknown status"),
        );
    }
    if effect.status == EffectStatus::Done && (update.status != EffectStatus::Done
        || !same_optional_json(&effect.result, &update.result)) {
        return Err(MachineError::EffectConflict);
    }
    Ok(())
}

/// Items must be recorded once each, and not over others.
pub fn validate_items(
    items: &Table<(RunId, String), Item>,
    run_id: &RunId,
    writes: &Vec<ItemWrite>,
) -> (result: Result<(), MachineError>)
    requires
        items.wf(),
    ensures
        failure(result) == items_refusal(items@, run_id@, views(writes@)),
{
    let ghost check = |i: int| item_refusal(items@, run_id@, views(writes@), i);
    let mut i: usize = 0;
    while i < writes.len()
        invariant
            items.wf(),
            i <= writes.len(),
            check == |i: int| item_refusal(items@, run_id@, views(writes@), i),
            first_failure(i as nat, check) is None,
        decreases writes.len() - i,
    {
        if item_conflicts(items, run_id, writes, i) {
            proof {
                lemma_first_failure(writes@.len(), check, i as nat);
            }
            return Err(MachineError::ItemConflict);
        }
        i = i + 1;
    }
    Ok(())
}

fn item_conflicts(
    items: &Table<(RunId, String), Item>,
    run_id: &RunId,
    writes: &Vec<ItemWrite>,
    i: usize,
) -> (conflict: bool)
    requires
        items.wf(),
        i < writes.len(),
    ensures
        item_refusal(items@, run_id@, views(writes@), i as int) == if conflict {
            Some(ErrorView::ItemConflict)
        } else {
            None
        },
{
    let write = &writes[i];
    let mut j: usize = 0;
    while j < i
        invariant
            j <= i,
            i < writes.len(),
            *write == writes@[i as int],
            forall|k: int| 0 <= k < j ==> (#[trigger] views(writes@)[k]).key != write.key@,
        decreases i - j,
    {
        if writes[j].key == write.key {
            assert(views(writes@)[j as int].key == write.key@);
            return true;
        }
        j = j + 1;
    }
    let key = (run_id.clone(), write.key.clone());
    match items.get(&key) {
        Some(existing) => existing.kind != write.kind || existing.body != write.body,
        None => false,
    }
}

} // verus!
