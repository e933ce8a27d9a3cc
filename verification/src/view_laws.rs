//! What is seen of a value tells it from every other: nothing of it is left out.

use vstd::prelude::*;

use crate::checkpoint::CheckpointRecord;
use crate::error::MachineError;
use crate::op::{Effect, EffectUpdate, Entry, EntryQuery, EntryWrite, Item, ItemWrite};
use crate::payload::Ending;
use crate::pending::PendingOps;
use crate::store::{
    CheckpointWrite, CommitPlan, Lease, LeaseClaim, RunCommit, RunFinish, RunFinishRecord,
    RunLookup, RunStart,
};
use crate::text::{opt, views};
use crate::tx::TxCommit;

verus! {

/// What is seen of an effect leaves out nothing of it.
pub proof fn effects_are_seen_whole(left: Effect, right: Effect)
    requires
        left@ == right@,
    ensures
        left.run_id@ == right.run_id@,
        left.key@ == right.key@,
        left.kind@ == right.kind@,
        left.status == right.status,
        left.request@ == right.request@,
        opt(left.result) == opt(right.result),
        opt(left.error_code) == opt(right.error_code),
        opt(left.error_message) == opt(right.error_message),
        left.created_at == right.created_at,
        left.updated_at == right.updated_at,
{
}

/// What is seen of an update of an effect leaves out nothing of it.
pub proof fn updates_are_seen_whole(left: EffectUpdate, right: EffectUpdate)
    requires
        left@ == right@,
    ensures
        left.key@ == right.key@,
        left.status == right.status,
        opt(left.result) == opt(right.result),
        opt(left.error_code) == opt(right.error_code),
        opt(left.error_message) == opt(right.error_message),
{
}

/// What is seen of an item leaves out nothing of it.
pub proof fn items_are_seen_whole(left: Item, right: Item)
    requires
        left@ == right@,
    ensures
        left.run_id@ == right.run_id@,
        left.key@ == right.key@,
        left.kind@ == right.kind@,
        left.body@ == right.body@,
        left.created_at == right.created_at,
        left.updated_at == right.updated_at,
{
}

/// What is seen of an item to record leaves out nothing of it.
pub proof fn item_writes_are_seen_whole(left: ItemWrite, right: ItemWrite)
    requires
        left@ == right@,
    ensures
        left.key@ == right.key@,
        left.kind@ == right.kind@,
        left.body@ == right.body@,
{
}

/// What is seen of an entry leaves out nothing of it.
pub proof fn entries_are_seen_whole(left: Entry, right: Entry)
    requires
        left@ == right@,
    ensures
        left.run_id@ == right.run_id@,
        left.session_id@ == right.session_id@,
        left.thread_id@ == right.thread_id@,
        left.seq == right.seq,
        left.key@ == right.key@,
        left.kind@ == right.kind@,
        left.vis == right.vis,
        left.body@ == right.body@,
        left.created_at == right.created_at,
        left.updated_at == right.updated_at,
{
}

/// What is seen of an entry to record leaves out nothing of it.
pub proof fn entry_writes_are_seen_whole(left: EntryWrite, right: EntryWrite)
    requires
        left@ == right@,
    ensures
        left.key@ == right.key@,
        left.kind@ == right.kind@,
        left.vis == right.vis,
        left.body@ == right.body@,
{
}

/// What is seen of a query leaves out nothing of it.
pub proof fn queries_are_seen_whole<'a>(left: EntryQuery<'a>, right: EntryQuery<'a>)
    requires
        left@ == right@,
    ensures
        left.scope@ == right.scope@,
        left.session_id@ == right.session_id@,
        opt(left.thread_id) == opt(right.thread_id),
        opt(left.kind) == opt(right.kind),
        left.vis == right.vis,
        left.after_seq == right.after_seq,
        left.limit == right.limit,
{
}

/// What is seen of a checkpoint leaves out nothing of it.
pub proof fn checkpoints_are_seen_whole(left: CheckpointRecord, right: CheckpointRecord)
    requires
        left@ == right@,
    ensures
        left.version == right.version,
        left.state@ == right.state@,
        opt(left.next_step) == opt(right.next_step),
        opt(left.interrupted_step) == opt(right.interrupted_step),
        opt(left.interrupt) == opt(right.interrupt),
        opt(left.run_id) == opt(right.run_id),
{
}

/// What is seen of a lease leaves out nothing of it.
pub proof fn leases_are_seen_whole(left: Lease, right: Lease)
    requires
        left@ == right@,
    ensures
        left.run@ == right.run@,
        left.owner@ == right.owner@,
        left.id@ == right.id@,
{
}

/// What is seen of a claim to a lease leaves out nothing of it.
pub proof fn claims_are_seen_whole(left: LeaseClaim, right: LeaseClaim)
    requires
        left@ == right@,
    ensures
        left.owner@ == right.owner@,
        left.id@ == right.id@,
        left.ttl == right.ttl,
{
}

/// What is seen of a run to start leaves out nothing of it.
pub proof fn starts_are_seen_whole(left: RunStart, right: RunStart)
    requires
        left@ == right@,
    ensures
        left.run_id@ == right.run_id@,
        left.session_id@ == right.session_id@,
        left.thread_id@ == right.thread_id@,
        left.agent_kind@ == right.agent_kind@,
        opt(left.model) == opt(right.model),
        opt(left.client_run_key) == opt(right.client_run_key),
        opt(left.parent_run_id) == opt(right.parent_run_id),
        opt(left.retry_of_run_id) == opt(right.retry_of_run_id),
        left.scope@ == right.scope@,
        left.metadata@ == right.metadata@,
        opt(left.input) == opt(right.input),
        views(left.entries@) == views(right.entries@),
        opt(left.lease) == opt(right.lease),
{
}

/// What is seen of the end of a run with its event leaves out nothing of it.
pub proof fn recorded_ends_are_seen_whole<E, D>(left: RunFinishRecord<E, D>, right: RunFinishRecord<E, D>)
    requires
        left@ == right@,
    ensures
        left.run_id@ == right.run_id@,
        left.session_id@ == right.session_id@,
        left.scope@ == right.scope@,
        left.status == right.status,
        left.finish_reason@ == right.finish_reason@,
        opt(left.error_code) == opt(right.error_code),
        views(left.entries@) == views(right.entries@),
        left.terminal_event == right.terminal_event,
        left.data == right.data,
{
}

/// What is seen of the end of a run leaves out nothing of it.
pub proof fn ends_are_seen_whole<D>(left: RunFinish<D>, right: RunFinish<D>)
    requires
        left@ == right@,
    ensures
        left.run_id@ == right.run_id@,
        left.session_id@ == right.session_id@,
        left.scope@ == right.scope@,
        left.status == right.status,
        left.finish_reason@ == right.finish_reason@,
        opt(left.error_code) == opt(right.error_code),
        views(left.entries@) == views(right.entries@),
        left.data == right.data,
{
}

/// What is seen of a checkpoint to write leaves out nothing of it.
pub proof fn checkpoint_writes_are_seen_whole(left: CheckpointWrite, right: CheckpointWrite)
    requires
        left@ == right@,
    ensures
        left.thread_id@ == right.thread_id@,
        left.record@ == right.record@,
{
}

/// What is seen of a commit leaves out nothing of it.
pub proof fn commits_are_seen_whole<E, D>(left: RunCommit<E, D>, right: RunCommit<E, D>)
    requires
        left@ == right@,
    ensures
        left.run_id@ == right.run_id@,
        left.session_id@ == right.session_id@,
        left.scope@ == right.scope@,
        opt(left.lease) == opt(right.lease),
        opt(left.checkpoint) == opt(right.checkpoint),
        left.events@ == right.events@,
        views(left.effects@) == views(right.effects@),
        views(left.items@) == views(right.items@),
        views(left.entries@) == views(right.entries@),
        opt(left.finish) == opt(right.finish),
{
}

/// What is seen of the plan of a commit leaves out nothing of it.
pub proof fn plans_are_seen_whole<D>(left: CommitPlan<D>, right: CommitPlan<D>)
    requires
        left@ == right@,
    ensures
        opt(left.lease) == opt(right.lease),
        opt(left.checkpoint) == opt(right.checkpoint),
        left.event_count == right.event_count,
        views(left.effects@) == views(right.effects@),
        views(left.items@) == views(right.items@),
        views(left.entries@) == views(right.entries@),
        opt(left.finish) == opt(right.finish),
{
}

/// What is seen of a lookup leaves out nothing of it.
pub proof fn lookups_are_seen_whole(left: RunLookup, right: RunLookup)
    requires
        left@ == right@,
    ensures
        left.run_id@ == right.run_id@,
        left.session_id@ == right.session_id@,
        left.thread_id@ == right.thread_id@,
        left.status == right.status,
        opt(left.finish_reason) == opt(right.finish_reason),
        left.cancel_requested == right.cancel_requested,
        opt(left.owner) == opt(right.owner),
{
}

/// What is seen of an ending leaves out nothing of it.
pub proof fn endings_are_seen_whole(left: Ending, right: Ending)
    requires
        left@ == right@,
    ensures
        left.status == right.status,
        left.reason@ == right.reason@,
        opt(left.code) == opt(right.code),
{
}

/// What is seen of the operations that wait leaves out none of them.
pub proof fn waiting_ops_are_seen_whole(left: PendingOps, right: PendingOps)
    requires
        left@ == right@,
    ensures
        views(left.effects@) == views(right.effects@),
        views(left.items@) == views(right.items@),
        views(left.entries@) == views(right.entries@),
{
}

/// What is seen of something to commit leaves out nothing of it.
pub proof fn tx_commits_are_seen_whole(left: TxCommit, right: TxCommit)
    requires
        left@ == right@,
    ensures
        views(left.payloads@) == views(right.payloads@),
        opt(left.checkpoint) == opt(right.checkpoint),
        left.with_ops == right.with_ops,
        opt(left.ending) == opt(right.ending),
{
}

/// What is seen of an error says which error it is, with all that it holds.
pub proof fn errors_are_seen_whole(error: MachineError)
    ensures
        error is CheckpointDb <==> error@ is CheckpointDb,
        error is CheckpointPool <==> error@ is CheckpointPool,
        error is StoreDb <==> error@ is StoreDb,
        error is Serialization <==> error@ is Serialization,
        error is Deserialization <==> error@ is Deserialization,
        error is MaxStepsExceeded <==> error@ is MaxStepsExceeded,
        error is CapacityExceeded <==> error@ is CapacityExceeded,
        error is RunAlreadyActive <==> error@ is RunAlreadyActive,
        error is LeaseLost <==> error@ is LeaseLost,
        error is NotOwner <==> error@ is NotOwner,
        error is ThreadBusy <==> error@ is ThreadBusy,
        error is RunNotFound <==> error@ is RunNotFound,
        error is InvalidRunEvent <==> error@ is InvalidRunEvent,
        error is StartConflict <==> error@ is StartConflict,
        error is EffectConflict <==> error@ is EffectConflict,
        error is EffectNotFound <==> error@ is EffectNotFound,
        error is EffectPending <==> error@ is EffectPending,
        error is ItemConflict <==> error@ is ItemConflict,
        error is EntryConflict <==> error@ is EntryConflict,
        error is InvalidPageLimit <==> error@ is InvalidPageLimit,
        error is RuntimeOpUnavailable <==> error@ is RuntimeOpUnavailable,
        error is Cancelled <==> error@ is Cancelled,
        error is StreamClosed <==> error@ is StreamClosed,
        error is NoCheckpointState <==> error@ is NoCheckpointState,
        error is NoPendingInterrupt <==> error@ is NoPendingInterrupt,
        error is NoInterruptedStep <==> error@ is NoInterruptedStep,
        error is InvalidInterrupt <==> error@ is InvalidInterrupt,
        error is InvalidStep <==> error@ is InvalidStep,
        error is Transition <==> error@ is Transition,
        error matches MachineError::CheckpointDb(text) ==> error@->CheckpointDb_0 == text@,
        error matches MachineError::CheckpointPool(text) ==> error@->CheckpointPool_0 == text@,
        error matches MachineError::StoreDb(text) ==> error@->StoreDb_0 == text@,
        error matches MachineError::Serialization(text) ==> error@->Serialization_0 == text@,
        error matches MachineError::Deserialization(text) ==> error@->Deserialization_0 == text@,
        error matches MachineError::MaxStepsExceeded { max }
            ==> error@->MaxStepsExceeded_max == max,
        error matches MachineError::NotOwner { owner } ==> error@->NotOwner_owner == opt(owner),
        error matches MachineError::ThreadBusy { owner, .. }
            ==> error@->ThreadBusy_owner == opt(owner),
        error matches MachineError::ThreadBusy { run, .. } ==> error@->ThreadBusy_run == opt(run),
        error matches MachineError::InvalidRunEvent { reason }
            ==> error@->InvalidRunEvent_reason == reason@,
        error matches MachineError::InvalidInterrupt { reason }
            ==> error@->InvalidInterrupt_reason == reason@,
        error matches MachineError::InvalidStep { reason }
            ==> error@->InvalidStep_reason == reason@,
        error matches MachineError::Transition(text) ==> error@->Transition_0 == text@,
{
}

} // verus!
