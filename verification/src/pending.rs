//! What a run has done but not committed yet.

use vstd::prelude::*;

use crate::checkpoint::{CheckpointRecord, CheckpointRecordView};
use crate::error::{failure, invalid, ErrorView, MachineError};
use crate::ids::{LeaseId, RunId, SessionId, ThreadId};
use crate::json::Json;
use crate::op::{
    EffectUpdate, EffectUpdateView, EntryWrite, EntryWriteView, ItemWrite, ItemWriteView,
};
use crate::store::{CheckpointWrite, CheckpointWriteView, RunCommit, RunCommitResult, RunCommitView};
use crate::table::Table;
use crate::text::{opt, views};

verus! {

#[derive(Debug)]
struct Queue {
    records: Vec<CheckpointRecord>,
}

impl View for Queue {
    type V = Seq<CheckpointRecordView>;

    closed spec fn view(&self) -> Seq<CheckpointRecordView> {
        views(self.records@)
    }
}

/// The checkpoints of threads that wait to be committed, each thread's in the order in which they
/// came.
#[derive(Debug)]
pub struct PendingCheckpoints {
    queues: Table<ThreadId, Queue>,
}

impl View for PendingCheckpoints {
    type V = Map<Seq<char>, Seq<CheckpointRecordView>>;

    closed spec fn view(&self) -> Map<Seq<char>, Seq<CheckpointRecordView>> {
        self.queues@
    }
}

/// The checkpoints of a thread that wait.
pub open spec fn waiting(
    queues: Map<Seq<char>, Seq<CheckpointRecordView>>,
    thread: Seq<char>,
) -> Seq<CheckpointRecordView> {
    if queues.contains_key(thread) {
        queues[thread]
    } else {
        Seq::empty()
    }
}

/// The checkpoints that wait once another was saved: behind those of the thread that wait already.
pub open spec fn saved_behind(
    queues: Map<Seq<char>, Seq<CheckpointRecordView>>,
    thread: Seq<char>,
    record: CheckpointRecordView,
) -> Map<Seq<char>, Seq<CheckpointRecordView>> {
    queues.insert(thread, waiting(queues, thread).push(record))
}

/// The checkpoint of a thread that is taken next.
pub open spec fn first_waiting(
    queues: Map<Seq<char>, Seq<CheckpointRecordView>>,
    thread: Seq<char>,
) -> Option<CheckpointWriteView> {
    let queue = waiting(queues, thread);
    if queue.len() > 0 {
        Some(CheckpointWriteView { thread_id: thread, record: queue[0] })
    } else {
        None
    }
}

/// The checkpoints that wait once the next of a thread was taken.
pub open spec fn taken_from(
    queues: Map<Seq<char>, Seq<CheckpointRecordView>>,
    thread: Seq<char>,
) -> Map<Seq<char>, Seq<CheckpointRecordView>> {
    let queue = waiting(queues, thread);
    if queue.len() > 1 {
        queues.insert(thread, queue.skip(1))
    } else {
        queues.remove(thread)
    }
}

/// The checkpoints that wait once those of a thread were dropped.
pub open spec fn dropped(
    queues: Map<Seq<char>, Seq<CheckpointRecordView>>,
    thread: Seq<char>,
) -> Map<Seq<char>, Seq<CheckpointRecordView>> {
    queues.remove(thread)
}

impl PendingCheckpoints {
    /// What holds of every collection: a thread for which nothing waits is not in it.
    pub closed spec fn wf(&self) -> bool {
        &&& self.queues.wf()
        &&& forall|thread: Seq<char>| #[trigger] self@.contains_key(thread) ==> self@[thread].len()
            > 0
    }

    /// Nothing waits.
    pub fn new() -> (pending: Self)
        ensures
            pending.wf(),
            pending@ == Map::<Seq<char>, Seq<CheckpointRecordView>>::empty(),
    {
        PendingCheckpoints { queues: Table::new() }
    }

    /// Lets a checkpoint wait, behind those of the thread that wait already.
    pub fn save(&mut self, thread_id: &ThreadId, record: CheckpointRecord)
        requires
            old(self).wf(),
        ensures
            final(self).wf(),
            final(self)@ == saved_behind(old(self)@, thread_id@, record@),
    {
        if self.queues.contains(thread_id) {
            let ghost before = self@[thread_id@];
            if let Some(queue) = self.queues.get_mut(thread_id) {
                queue.records.push(record);
                assert(queue@ =~= before.push(record@));
            }
        } else {
            let mut records: Vec<CheckpointRecord> = Vec::new();
            records.push(record);
            let queue = Queue { records };
            assert(queue@ =~= Seq::empty().push(record@));
            self.queues.insert(thread_id.clone(), queue);
        }
        assert(self@ == old(self)@.insert(
            thread_id@,
            waiting(old(self)@, thread_id@).push(record@),
        ));
    }

    /// Takes the first checkpoint of a thread that waits.
    pub fn take(&mut self, thread_id: &ThreadId) -> (write: Option<CheckpointWrite>)
        requires
            old(self).wf(),
        ensures
            final(self).wf(),
            opt(write) == first_waiting(old(self)@, thread_id@),
            final(self)@ == taken_from(old(self)@, thread_id@),
            match write {
                Some(write) => {
                    let queue = waiting(old(self)@, thread_id@);
                    &&& queue.len() > 0
                    &&& write@ == (CheckpointWriteView { thread_id: thread_id@, record: queue[0] })
                    &&& waiting(final(self)@, thread_id@) == queue.skip(1)
                    &&& final(self)@.remove(thread_id@) == old(self)@.remove(thread_id@)
                },
                None => waiting(old(self)@, thread_id@).len() == 0 && final(self)@ == old(self)@,
            },
    {
        if !self.queues.contains(thread_id) {
            assert(self@ =~= taken_from(old(self)@, thread_id@));
            assert(self@ =~= old(self)@);
            return None;
        }
        let ghost before = self@[thread_id@];
        let mut taken: Option<CheckpointRecord> = None;
        let mut empty = false;
        if let Some(queue) = self.queues.get_mut(thread_id) {
            if queue.records.len() > 0 {
                taken = Some(queue.records.remove(0));
                empty = queue.records.len() == 0;
                assert(queue@ =~= before.skip(1));
            }
        }
        if empty {
            self.queues.remove(thread_id);
        }
        proof {
            assert(self@ =~= taken_from(old(self)@, thread_id@));
            assert(self@.remove(thread_id@) =~= old(self)@.remove(thread_id@));
            assert(waiting(self@, thread_id@) =~= before.skip(1));
            assert forall|thread: Seq<char>| #[trigger] self@.contains_key(
                thread,
            ) implies self@[thread].len() > 0 by {
                if thread != thread_id@ {
                    assert(old(self)@.contains_key(thread));
                }
            }
        }
        match taken {
            Some(record) => Some(CheckpointWrite::new(thread_id.clone(), record)),
            None => None,
        }
    }

    /// Drops the checkpoints of a thread that wait.
    pub fn clear(&mut self, thread_id: &ThreadId)
        requires
            old(self).wf(),
        ensures
            final(self).wf(),
            final(self)@ == dropped(old(self)@, thread_id@),
    {
        self.queues.remove(thread_id);
        assert(self@ == old(self)@.remove(thread_id@));
    }
}

/// Effects, items and entries that wait to be committed with the next step.
#[derive(Debug)]
pub struct PendingOps {
    /// New statuses of effects.
    pub effects: Vec<EffectUpdate>,
    /// Items.
    pub items: Vec<ItemWrite>,
    /// Entries.
    pub entries: Vec<EntryWrite>,
}

/// The mathematical view of [`PendingOps`].
#[verifier::ext_equal]
pub struct PendingOpsView {
    pub effects: Seq<EffectUpdateView>,
    pub items: Seq<ItemWriteView>,
    pub entries: Seq<EntryWriteView>,
}

impl View for PendingOps {
    type V = PendingOpsView;

    open spec fn view(&self) -> PendingOpsView {
        PendingOpsView {
            effects: views(self.effects@),
            items: views(self.items@),
            entries: views(self.entries@),
        }
    }
}

impl PendingOpsView {
    /// Nothing waits.
    pub open spec fn empty() -> Self {
        PendingOpsView { effects: Seq::empty(), items: Seq::empty(), entries: Seq::empty() }
    }

    /// What waits has different keys.
    pub open spec fn distinct(self) -> bool {
        &&& forall|i: int, j: int|
            0 <= i < j < self.effects.len() ==> (#[trigger] self.effects[i]).key != (
            #[trigger] self.effects[j]).key
        &&& forall|i: int, j: int|
            0 <= i < j < self.items.len() ==> (#[trigger] self.items[i]).key != (
            #[trigger] self.items[j]).key
        &&& forall|i: int, j: int|
            0 <= i < j < self.entries.len() ==> (#[trigger] self.entries[i]).key != (
            #[trigger] self.entries[j]).key
    }

    /// Lets an update wait: once, and only one under a key.
    pub open spec fn push_effect(self, update: EffectUpdateView) -> (Self, Result<(), ErrorView>) {
        if self.effects.contains(update) {
            (self, Ok(()))
        } else if exists|i: int|
            0 <= i < self.effects.len() && (#[trigger] self.effects[i]).key == update.key {
            (self, Err(ErrorView::EffectConflict))
        } else {
            (PendingOpsView { effects: self.effects.push(update), ..self }, Ok(()))
        }
    }

    /// Lets an item wait: once, and only one under a key.
    pub open spec fn push_item(self, item: ItemWriteView) -> (Self, Result<(), ErrorView>) {
        if self.items.contains(item) {
            (self, Ok(()))
        } else if exists|i: int|
            0 <= i < self.items.len() && (#[trigger] self.items[i]).key == item.key {
            (self, Err(ErrorView::ItemConflict))
        } else {
            (PendingOpsView { items: self.items.push(item), ..self }, Ok(()))
        }
    }

    /// Lets an entry wait: once, and only one under a key.
    pub open spec fn push_entry(self, entry: EntryWriteView) -> (Self, Result<(), ErrorView>) {
        if self.entries.contains(entry) {
            (self, Ok(()))
        } else if exists|i: int|
            0 <= i < self.entries.len() && (#[trigger] self.entries[i]).key == entry.key {
            (self, Err(ErrorView::EntryConflict))
        } else {
            (PendingOpsView { entries: self.entries.push(entry), ..self }, Ok(()))
        }
    }
}

impl PendingOps {
    /// Nothing waits.
    pub fn new() -> (pending: Self)
        ensures
            pending@ == PendingOpsView::empty(),
            pending@.distinct(),
    {
        let pending = PendingOps { effects: Vec::new(), items: Vec::new(), entries: Vec::new() };
        assert(pending@ =~= PendingOpsView::empty());
        pending
    }

    /// Takes all that waits.
    pub fn take(&mut self) -> (taken: PendingOps)
        ensures
            taken@ == old(self)@,
            final(self)@ == PendingOpsView::empty(),
    {
        let mut taken = PendingOps {
            effects: Vec::new(),
            items: Vec::new(),
            entries: Vec::new(),
        };
        taken.effects.append(&mut self.effects);
        taken.items.append(&mut self.items);
        taken.entries.append(&mut self.entries);
        assert(taken@ =~= old(self)@);
        assert(self@ =~= PendingOpsView::empty());
        taken
    }

    /// Lets an update wait.
    pub fn push_effect(&mut self, update: EffectUpdate) -> (result: Result<(), MachineError>)
        requires
            old(self)@.distinct(),
        ensures
            final(self)@.distinct(),
            (final(self)@, crate::error::plain(result)) == old(self)@.push_effect(update@),
    {
        let mut i: usize = 0;
        while i < self.effects.len()
            invariant
                i <= self.effects@.len(),
                self@ == old(self)@,
                old(self)@.distinct(),
                forall|j: int|
                    0 <= j < i ==> (#[trigger] self@.effects[j]).key != update@.key,
            decreases self.effects@.len() - i,
        {
            if self.effects[i].key == update.key {
                if self.effects[i].same(&update) {
                    assert(self@.effects[i as int] == update@);
                    return Ok(());
                }
                proof {
                    assert(self@.effects[i as int].key == update@.key);
                    if self@.effects.contains(update@) {
                        let j = self@.effects.index_of(update@);
                        assert(self@.effects[j] == update@);
                    }
                }
                return Err(MachineError::EffectConflict);
            }
            i = i + 1;
        }
        proof {
            if self@.effects.contains(update@) {
                let j = self@.effects.index_of(update@);
                assert(self@.effects[j] == update@);
            }
        }
        let ghost before = self@;
        self.effects.push(update);
        assert(self@ =~= before.push_effect(update@).0);
        Ok(())
    }

    /// Lets an item wait.
    pub fn push_item(&mut self, item: ItemWrite) -> (result: Result<(), MachineError>)
        requires
            old(self)@.distinct(),
        ensures
            final(self)@.distinct(),
            (final(self)@, crate::error::plain(result)) == old(self)@.push_item(item@),
    {
        let mut i: usize = 0;
        while i < self.items.len()
            invariant
                i <= self.items@.len(),
                self@ == old(self)@,
                old(self)@.distinct(),
                forall|j: int| 0 <= j < i ==> (#[trigger] self@.items[j]).key != item@.key,
            decreases self.items@.len() - i,
        {
            if self.items[i].key == item.key {
                if self.items[i].same(&item) {
                    assert(self@.items[i as int] == item@);
                    return Ok(());
                }
                proof {
                    assert(self@.items[i as int].key == item@.key);
                    if self@.items.contains(item@) {
                        let j = self@.items.index_of(item@);
                        assert(self@.items[j] == item@);
                    }
                }
                return Err(MachineError::ItemConflict);
            }
            i = i + 1;
        }
        proof {
            if self@.items.contains(item@) {
                let j = self@.items.index_of(item@);
                assert(self@.items[j] == item@);
            }
        }
        let ghost before = self@;
        self.items.push(item);
        assert(self@ =~= before.push_item(item@).0);
        Ok(())
    }

    /// Lets an entry wait.
    pub fn push_entry(&mut self, entry: EntryWrite) -> (result: Result<(), MachineError>)
        requires
            old(self)@.distinct(),
        ensures
            final(self)@.distinct(),
            (final(self)@, crate::error::plain(result)) == old(self)@.push_entry(entry@),
    {
        let mut i: usize = 0;
        while i < self.entries.len()
            invariant
                i <= self.entries@.len(),
                self@ == old(self)@,
                old(self)@.distinct(),
                forall|j: int| 0 <= j < i ==> (#[trigger] self@.entries[j]).key != entry@.key,
            decreases self.entries@.len() - i,
        {
            if self.entries[i].key == entry.key {
                if self.entries[i].same(&entry) {
                    assert(self@.entries[i as int] == entry@);
                    return Ok(());
                }
                proof {
                    assert(self@.entries[i as int].key == entry@.key);
                    if self@.entries.contains(entry@) {
                        let j = self@.entries.index_of(entry@);
                        assert(self@.entries[j] == entry@);
                    }
                }
                return Err(MachineError::EntryConflict);
            }
            i = i + 1;
        }
        proof {
            if self@.entries.contains(entry@) {
                let j = self@.entries.index_of(entry@);
                assert(self@.entries[j] == entry@);
            }
        }
        let ghost before = self@;
        self.entries.push(entry);
        assert(self@ =~= before.push_entry(entry@).0);
        Ok(())
    }
}

/// An operation must be asked for by the run that it works for.
pub open spec fn run_refusal(own: Seq<char>, run: Seq<char>) -> Option<ErrorView> {
    if own == run {
        None
    } else {
        Some(invalid("runtime operation target does not match run"@))
    }
}

/// An operation must be asked for by the run that it works for.
pub fn check_run(own: &RunId, run_id: &RunId) -> (result: Result<(), MachineError>)
    ensures
        failure(result) == run_refusal(own@, run_id@),
{
    if *run_id == *own {
        return Ok(());
    }
    Err(MachineError::invalid_run_event("runtime operation target does not match run"))
}

/// The commit of one entry at once, outside a step.
pub open spec fn live_commit<E, D>(
    run: Seq<char>,
    session: Seq<char>,
    scope: Seq<char>,
    lease: Seq<char>,
    entry: EntryWriteView,
) -> RunCommitView<E, D> {
    RunCommitView {
        run_id: run,
        session_id: session,
        scope,
        lease: Some(lease),
        checkpoint: None,
        events: Seq::empty(),
        effects: Seq::empty(),
        items: Seq::empty(),
        entries: seq![entry],
        finish: None,
    }
}

/// The commit of one entry at once, outside a step.
pub fn live_entry_commit<E, D>(
    run_id: &RunId,
    session_id: &SessionId,
    scope: &Json,
    lease: &LeaseId,
    entry: EntryWrite,
) -> (commit: RunCommit<E, D>)
    ensures
        commit@ == live_commit::<E, D>(run_id@, session_id@, scope@, lease@, entry@),
{
    let mut entries: Vec<EntryWrite> = Vec::new();
    entries.push(entry);
    let commit = RunCommit {
        run_id: run_id.clone(),
        session_id: session_id.clone(),
        scope: scope.clone(),
        lease: Some(lease.clone()),
        checkpoint: None,
        events: Vec::new(),
        effects: Vec::new(),
        items: Vec::new(),
        entries,
        finish: None,
    };
    assert(commit@.events =~= Seq::empty());
    assert(commit@.effects =~= Seq::empty());
    assert(commit@.items =~= Seq::empty());
    assert(commit@.entries =~= seq![entry@]);
    commit
}

/// Why an entry that was committed at once was not recorded.
pub open spec fn live_refusal<E>(result: RunCommitResult<E>) -> Option<ErrorView> {
    match result {
        RunCommitResult::Recorded(_) => None,
        RunCommitResult::Skipped => Some(ErrorView::RunNotFound),
        RunCommitResult::Finished { .. } => Some(
            invalid("live entry commit produced a terminal result"@),
        ),
    }
}

/// What became of an entry that was committed at once.
pub fn live_entry_result<E>(result: RunCommitResult<E>) -> (settled: Result<(), MachineError>)
    ensures
        failure(settled) == live_refusal(result),
{
    match result {
        RunCommitResult::Recorded(_) => Ok(()),
        RunCommitResult::Skipped => Err(MachineError::RunNotFound),
        RunCommitResult::Finished { .. } => Err(
            MachineError::invalid_run_event("live entry commit produced a terminal result"),
        ),
    }
}

} // verus!
