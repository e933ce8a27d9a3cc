//! What a commit writes to the rows of a database, one table after the other, inside of one
//! transaction.

use vstd::prelude::*;

use crate::error::ErrorView;
use crate::model::{
    commit_refusal, with_effects, with_entries, with_items, Clock, EntryOrigin, RunView,
};
use crate::row_laws::{read_from, rows_decide_as_memory};
use crate::rows::{gate, rows_refusal, sql_commit_refusal, CommitGate, CommitRow, CommitRows};
use crate::store::{FinishRunResult, RunCommit, RunCommitResultView, RunCommitView, RunEvent};
use crate::store_view::StoreView;

verus! {

/// What a commit writes to a table.
#[derive(Debug, Clone, Copy, PartialEq, Eq, Structural)]
pub enum RowWrite {
    /// The checkpoint of the thread.
    Checkpoint,
    /// The events.
    Events,
    /// The updates of effects.
    Effects,
    /// The items.
    Items,
    /// The entries.
    Entries,
    /// The end of the run, which gives its thread back.
    End,
}

/// What a commit writes, in order.
pub open spec fn writes_of<E, D>(commit: RunCommitView<E, D>) -> Seq<RowWrite> {
    let first = if commit.checkpoint is Some {
        seq![RowWrite::Checkpoint]
    } else {
        Seq::empty()
    };
    let last = if commit.finish is Some {
        seq![RowWrite::End]
    } else {
        Seq::empty()
    };
    first + seq![RowWrite::Events, RowWrite::Effects, RowWrite::Items, RowWrite::Entries] + last
}

/// What a commit writes, in order.
pub fn commit_writes<E, D>(commit: &RunCommit<E, D>) -> (writes: Vec<RowWrite>)
    ensures
        writes@ == writes_of(commit@),
{
    let mut writes: Vec<RowWrite> = Vec::new();
    if commit.checkpoint.is_some() {
        writes.push(RowWrite::Checkpoint);
    }
    writes.push(RowWrite::Events);
    writes.push(RowWrite::Effects);
    writes.push(RowWrite::Items);
    writes.push(RowWrite::Entries);
    if commit.finish.is_some() {
        writes.push(RowWrite::End);
    }
    assert(writes@ =~= writes_of(commit@));
    writes
}

impl<E: RunEvent, D> StoreView<E, D> {
    /// What is stored after one of the writes of a commit to a run.
    pub open spec fn after_write(
        self,
        commit: RunCommitView<E, D>,
        thread: Seq<char>,
        at: int,
        write: RowWrite,
    ) -> Self {
        let run = self.runs[commit.run_id];
        match write {
            RowWrite::Checkpoint => StoreView {
                checkpoints: self.checkpoints.insert(
                    commit.checkpoint->0.thread_id,
                    commit.checkpoint->0.record,
                ),
                ..self
            },
            RowWrite::Events => self.with_updated(
                commit.run_id,
                RunView { events: run.events + commit.events, ..run },
            ),
            RowWrite::Effects => StoreView {
                effects: with_effects(self.effects, commit.run_id, commit.effects, at),
                ..self
            },
            RowWrite::Items => StoreView {
                items: with_items(self.items, commit.run_id, commit.items, at),
                ..self
            },
            RowWrite::Entries => StoreView {
                entries: with_entries(
                    self.entries,
                    EntryOrigin {
                        scope: commit.scope,
                        run_id: commit.run_id,
                        session_id: commit.session_id,
                        thread_id: thread,
                        at,
                    },
                    commit.entries,
                ),
                ..self
            },
            RowWrite::End => StoreView {
                runs: self.runs.insert(
                    commit.run_id,
                    RunView {
                        status: commit.finish->0.status,
                        finish_reason: Some(commit.finish->0.finish_reason),
                        finish_data: Some(commit.finish->0.data),
                        terminal_event: Some(commit.events.last()),
                        lease: None,
                        ..run
                    },
                ),
                thread_leases: self.thread_leases.remove(thread),
                ..self
            },
        }
    }

    /// What is stored after some of the writes of a commit to a run.
    pub open spec fn after_writes(
        self,
        commit: RunCommitView<E, D>,
        thread: Seq<char>,
        at: int,
        writes: Seq<RowWrite>,
    ) -> Self
        decreases writes.len(),
    {
        if writes.len() == 0 {
            self
        } else {
            self.after_writes(commit, thread, at, writes.drop_last()).after_write(
                commit,
                thread,
                at,
                writes.last(),
            )
        }
    }

    /// What a commit makes of the rows of a database, and its answer: all its writes, or where it is
    /// refused or skipped, none of them.
    pub open spec fn commit_rows(
        self,
        row: CommitRow,
        rows: CommitRows,
        commit: RunCommitView<E, D>,
        clock: Clock,
    ) -> (Self, Result<RunCommitResultView<E>, ErrorView>) {
        match gate(Some(row), commit.session_id, commit.lease, commit.finish is Some) {
            Err(error) => (self, Err(error)),
            Ok(CommitGate::Skip) => (self, Ok(RunCommitResultView::Skipped)),
            Ok(CommitGate::AskTerminal) => (
                self,
                Ok(
                    match self.runs[commit.run_id].terminal_event {
                        Some(event) => RunCommitResultView::Finished {
                            events: seq![event],
                            result: FinishRunResult::AlreadyFinished(event),
                        },
                        None => RunCommitResultView::Skipped,
                    },
                ),
            ),
            Ok(CommitGate::Write) => match rows_refusal(row, rows, commit) {
                Some(error) => (self, Err(error)),
                None => (
                    self.after_writes(
                        commit,
                        row.thread_id@,
                        clock.wall_ms as int,
                        writes_of(commit),
                    ),
                    Ok(
                        if commit.finish is Some {
                            RunCommitResultView::Finished {
                                events: commit.events,
                                result: FinishRunResult::Finished(commit.events.last()),
                            }
                        } else {
                            RunCommitResultView::Recorded(commit.events)
                        },
                    ),
                ),
            },
        }
    }

    proof fn lemma_one_more(
        self,
        commit: RunCommitView<E, D>,
        thread: Seq<char>,
        at: int,
        writes: Seq<RowWrite>,
        write: RowWrite,
    )
        ensures
            self.after_writes(commit, thread, at, writes.push(write)) == self.after_writes(
                commit,
                thread,
                at,
                writes,
            ).after_write(commit, thread, at, write),
    {
        assert(writes.push(write).drop_last() =~= writes);
    }

    proof fn lemma_writes(self, commit: RunCommitView<E, D>, thread: Seq<char>, at: int)
        ensures
            ({
                let first = if commit.checkpoint is Some {
                    self.after_write(commit, thread, at, RowWrite::Checkpoint)
                } else {
                    self
                };
                let all = first.after_write(commit, thread, at, RowWrite::Events).after_write(
                    commit,
                    thread,
                    at,
                    RowWrite::Effects,
                ).after_write(commit, thread, at, RowWrite::Items).after_write(
                    commit,
                    thread,
                    at,
                    RowWrite::Entries,
                );
                self.after_writes(commit, thread, at, writes_of(commit)) == if commit.finish is Some {
                    all.after_write(commit, thread, at, RowWrite::End)
                } else {
                    all
                }
            }),
    {
        let first = if commit.checkpoint is Some {
            seq![RowWrite::Checkpoint]
        } else {
            Seq::empty()
        };
        let events = first.push(RowWrite::Events);
        let effects = events.push(RowWrite::Effects);
        let items = effects.push(RowWrite::Items);
        let entries = items.push(RowWrite::Entries);
        let ended = entries.push(RowWrite::End);
        let none: Seq<RowWrite> = Seq::empty();
        if commit.checkpoint is Some {
            assert(first =~= none.push(RowWrite::Checkpoint));
            self.lemma_one_more(commit, thread, at, none, RowWrite::Checkpoint);
        }
        self.lemma_one_more(commit, thread, at, first, RowWrite::Events);
        self.lemma_one_more(commit, thread, at, events, RowWrite::Effects);
        self.lemma_one_more(commit, thread, at, effects, RowWrite::Items);
        self.lemma_one_more(commit, thread, at, items, RowWrite::Entries);
        self.lemma_one_more(commit, thread, at, entries, RowWrite::End);
        assert(writes_of(commit) =~= if commit.finish is Some {
            ended
        } else {
            entries
        });
    }

    /// A commit to a store in a database is kept whole or not at all: where it is recorded or ends
    /// the run, its checkpoint, events, effects, items and entries, and the end of the run, are all
    /// stored, just as a store in memory stores them; where it is refused or skipped, or the run had
    /// ended before, nothing is.
    pub proof fn row_commits_are_whole(
        self,
        row: CommitRow,
        rows: CommitRows,
        commit: RunCommitView<E, D>,
        clock: Clock,
    )
        requires
            self.inv(),
            self.runs.contains_key(commit.run_id),
            self.runs[commit.run_id].start.scope == commit.scope,
            sql_commit_refusal(commit) is None,
            read_from(row, rows, self, self.runs[commit.run_id], commit, clock.now as nat),
        ensures
            ({
                let (after, answer) = self.commit_rows(row, rows, commit, clock);
                let (stored, told) = self.commit_run(commit, clock);
                &&& after == stored
                &&& answer is Ok <==> told is Ok
                &&& answer is Ok ==> answer == told
                &&& answer is Err ==> after == self
                &&& match answer {
                    Ok(RunCommitResultView::Skipped) => after == self,
                    Ok(RunCommitResultView::Finished { result, .. }) => result is AlreadyFinished
                        ==> after == self,
                    _ => true,
                }
            }),
    {
        let run = self.runs[commit.run_id];
        let at = clock.wall_ms as int;
        assert(commit_refusal(commit) is None);
        if run.start.session_id == commit.session_id {
            rows_decide_as_memory(row, rows, self, run, commit, clock.now as nat);
            self.lemma_writes(commit, row.thread_id@, at);
            assert(self.after_writes(commit, row.thread_id@, at, writes_of(commit))
                =~= self.written(run, commit, clock));
        }
    }
}

} // verus!
