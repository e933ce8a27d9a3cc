//! Checkpoints: the state in which a thread can be taken up again.

use vstd::prelude::*;

use crate::json::Json;
use crate::table::Table;
use crate::text::opt;

verus! {

/// The version of the record's layout.
pub open spec fn record_version() -> nat {
    1
}

/// The version of the record's layout.
pub fn checkpoint_version() -> (version: u32)
    ensures
        version == record_version(),
{
    1
}

/// What is saved of a thread after a step.
#[derive(Debug)]
pub struct CheckpointRecord {
    /// The version of the layout.
    pub version: u32,
    /// The machine's state.
    pub state: Json,
    /// The step to take next.
    pub next_step: Option<Json>,
    /// The step that was interrupted.
    pub interrupted_step: Option<Json>,
    /// What the step was interrupted with.
    pub interrupt: Option<Json>,
    /// The run that saved the record.
    pub run_id: Option<String>,
}

/// The mathematical view of [`CheckpointRecord`].
#[verifier::ext_equal]
pub struct CheckpointRecordView {
    pub version: nat,
    pub state: Seq<char>,
    pub next_step: Option<Seq<char>>,
    pub interrupted_step: Option<Seq<char>>,
    pub interrupt: Option<Seq<char>>,
    pub run_id: Option<Seq<char>>,
}

impl View for CheckpointRecord {
    type V = CheckpointRecordView;

    open spec fn view(&self) -> CheckpointRecordView {
        CheckpointRecordView {
            version: self.version as nat,
            state: self.state@,
            next_step: opt(self.next_step),
            interrupted_step: opt(self.interrupted_step),
            interrupt: opt(self.interrupt),
            run_id: opt(self.run_id),
        }
    }
}

impl Clone for CheckpointRecord {
    fn clone(&self) -> (copy: Self)
        ensures
            copy == *self,
    {
        CheckpointRecord {
            version: self.version,
            state: self.state.clone(),
            next_step: self.next_step.clone(),
            interrupted_step: self.interrupted_step.clone(),
            interrupt: self.interrupt.clone(),
            run_id: self.run_id.clone(),
        }
    }
}

impl CheckpointRecord {
    /// The record of a thread that goes on with a step, or has ended.
    pub fn running(state: Json, next_step: Option<Json>, run_id: String) -> (record: Self)
        ensures
            record@ == (CheckpointRecordView {
                version: record_version(),
                state: state@,
                next_step: opt(next_step),
                interrupted_step: None,
                interrupt: None,
                run_id: Some(run_id@),
            }),
    {
        CheckpointRecord {
            version: checkpoint_version(),
            state,
            next_step,
            interrupted_step: None,
            interrupt: None,
            run_id: Some(run_id),
        }
    }

    /// The record of a thread that waits to be resumed.
    pub fn interrupted(
        state: Json,
        interrupted_step: Json,
        interrupt: Json,
        run_id: String,
    ) -> (record: Self)
        ensures
            record@ == (CheckpointRecordView {
                version: record_version(),
                state: state@,
                next_step: None,
                interrupted_step: Some(interrupted_step@),
                interrupt: Some(interrupt@),
                run_id: Some(run_id@),
            }),
    {
        CheckpointRecord {
            version: checkpoint_version(),
            state,
            next_step: None,
            interrupted_step: Some(interrupted_step),
            interrupt: Some(interrupt),
            run_id: Some(run_id),
        }
    }
}

/// The last checkpoint of each thread, in memory.
#[derive(Debug)]
pub struct MemorySaver {
    checkpoints: Table<String, CheckpointRecord>,
}

impl View for MemorySaver {
    type V = Map<Seq<char>, CheckpointRecordView>;

    closed spec fn view(&self) -> Map<Seq<char>, CheckpointRecordView> {
        self.checkpoints@
    }
}

/// The last checkpoints of threads, once another was saved.
pub open spec fn saved_last(
    threads: Map<Seq<char>, CheckpointRecordView>,
    thread: Seq<char>,
    record: CheckpointRecordView,
) -> Map<Seq<char>, CheckpointRecordView> {
    threads.insert(thread, record)
}

/// The last checkpoint of a thread.
pub open spec fn last_saved(
    threads: Map<Seq<char>, CheckpointRecordView>,
    thread: Seq<char>,
) -> Option<CheckpointRecordView> {
    if threads.contains_key(thread) {
        Some(threads[thread])
    } else {
        None
    }
}

impl MemorySaver {
    /// What holds of every saver.
    pub closed spec fn wf(&self) -> bool {
        self.checkpoints.wf()
    }

    /// A saver without checkpoints.
    pub fn new() -> (saver: Self)
        ensures
            saver.wf(),
            saver@ == Map::<Seq<char>, CheckpointRecordView>::empty(),
    {
        MemorySaver { checkpoints: Table::new() }
    }

    /// Saves a checkpoint of a thread, in place of the one before.
    pub fn save(&mut self, thread_id: &str, checkpoint: &CheckpointRecord)
        requires
            old(self).wf(),
        ensures
            final(self).wf(),
            final(self)@ == saved_last(old(self)@, thread_id@, checkpoint@),
    {
        self.checkpoints.insert(thread_id.to_owned(), checkpoint.clone());
    }

    /// The checkpoint of a thread that was saved last.
    pub fn load(&self, thread_id: &str) -> (checkpoint: Option<CheckpointRecord>)
        requires
            self.wf(),
        ensures
            opt(checkpoint) == last_saved(self@, thread_id@),
    {
        match self.checkpoints.get(&thread_id.to_owned()) {
            Some(checkpoint) => Some(checkpoint.clone()),
            None => None,
        }
    }
}

impl Default for MemorySaver {
    /// A saver without checkpoints.
    fn default() -> (saver: Self)
        ensures
            saver.wf(),
            saver@ == Map::<Seq<char>, CheckpointRecordView>::empty(),
    {
        MemorySaver::new()
    }
}

} // verus!
