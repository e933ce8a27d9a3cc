//! Runs as rows of a database: what is read from the rows, and what is decided on them.

use vstd::prelude::*;
use vstd::string::StringExecFns;

use crate::checkpoint::{CheckpointRecord, CheckpointRecordView};
use crate::entries::{validate_entries, ScopedEntry};
use crate::error::{failure, invalid, plain, seen, seen_opt, ErrorView, MachineError};
use crate::ids::{LeaseId, RunId, SessionId, ThreadId, WorkerId};
use crate::json::{json_value, same_optional_json, Json};
use crate::model::{
    commit_refusal, entries_refusal, first_failure, items_refusal, lemma_first_failure, Keyed,
};
use crate::op::{
    Effect, EffectStatus, EffectUpdate, EffectUpdateView, EffectView, Entry, EntryView, EntryWrite,
    EntryWriteView, Item, ItemView, Page, Vis,
};
use crate::store::{
    CheckpointWrite, CheckpointWriteView, FinishRunResult, Nanos, RunCommit, RunCommitResult,
    RunCommitResultView, RunCommitView, RunEvent, RunFinish, RunFinishRecord, RunFinishRecordView,
    RunFinishView, RunLookup, RunLookupView, RunStatus,
};
use crate::store_view::page_of;
use crate::table::Table;
use crate::text::{decimal, decimal_text, opt, same_text, views};
use crate::validate::{validate_commit, validate_items};

verus! {

/// A length of time in whole milliseconds, as far as they can be counted.
pub open spec fn millis(duration: Nanos) -> int {
    if duration / 1_000_000 <= i64::MAX {
        (duration / 1_000_000) as int
    } else {
        i64::MAX as int
    }
}

/// A length of time in whole milliseconds, as far as they can be counted.
pub fn duration_ms(duration: Nanos) -> (ms: i64)
    ensures
        ms == millis(duration),
{
    let ms: u128 = duration / 1_000_000;
    if ms <= i64::MAX as u128 {
        ms as i64
    } else {
        i64::MAX
    }
}

/// When a lease that is taken now runs out, in milliseconds.
pub open spec fn runs_out(now: int, ttl: Nanos) -> int {
    now + millis(ttl)
}

/// When a lease that is taken now runs out, in milliseconds.
pub fn lease_until(now: i64, ttl: Nanos) -> (until: i64)
    requires
        now + ttl / 1_000_000 <= i64::MAX,
        now >= 0,
    ensures
        until == now + ttl / 1_000_000,
        until == runs_out(now as int, ttl),
{
    now + duration_ms(ttl)
}

/// The error of a row that holds no status of a run.
pub open spec fn unknown_status(text: Seq<char>) -> ErrorView {
    invalid("invalid stored run status: "@ + text)
}

/// The error of a row that holds no status of an effect.
pub open spec fn unknown_effect_status(text: Seq<char>) -> ErrorView {
    invalid("invalid effect status: "@ + text)
}

/// The error of a row that holds no visibility.
pub open spec fn unknown_vis(text: Seq<char>) -> ErrorView {
    invalid("invalid entry visibility: "@ + text)
}

/// The status that a row holds as text.
pub fn row_status(text: &str) -> (result: Result<RunStatus, MachineError>)
    ensures
        match result {
            Ok(status) => status.text() == text@,
            Err(error) => (forall|status: RunStatus| #[trigger] status.text() != text@) && error@
                == unknown_status(text@),
        },
{
    match RunStatus::parse(text) {
        Some(status) => Ok(status),
        None => {
            let reason = "invalid stored run status: ".to_owned().concat(text);
            Err(MachineError::InvalidRunEvent { reason })
        },
    }
}

/// A row that tells of a run.
#[derive(Debug)]
pub struct LookupRow {
    pub run_id: String,
    pub session_id: String,
    pub thread_id: String,
    pub status: String,
    pub finish_reason: Option<String>,
    pub cancel_requested: bool,
    pub owner: Option<String>,
}

impl LookupRow {
    /// What the row tells, with the status that it holds.
    pub open spec fn told(self, status: RunStatus) -> RunLookupView {
        RunLookupView {
            run_id: self.run_id@,
            session_id: self.session_id@,
            thread_id: self.thread_id@,
            status,
            finish_reason: opt(self.finish_reason),
            cancel_requested: self.cancel_requested,
            owner: opt(self.owner),
        }
    }

    /// What the row tells.
    pub fn into_lookup(self) -> (result: Result<RunLookup, MachineError>)
        ensures
            match result {
                Ok(lookup) => lookup.status.text() == self.status@ && lookup@ == self.told(
                    lookup.status,
                ),
                Err(error) => (forall|status: RunStatus| #[trigger] status.text() != self.status@)
                    && error@ == unknown_status(self.status@),
            },
    {
        let status = match row_status(self.status.as_str()) {
            Ok(status) => status,
            Err(error) => {
                return Err(error);
            },
        };
        Ok(
            RunLookup {
                run_id: RunId(self.run_id),
                session_id: SessionId(self.session_id),
                thread_id: ThreadId(self.thread_id),
                status,
                finish_reason: self.finish_reason,
                cancel_requested: self.cancel_requested,
                owner: match self.owner {
                    Some(owner) => Some(WorkerId(owner)),
                    None => None,
                },
            },
        )
    }
}

/// What a text of a row that holds JSON is read as.
pub open spec fn read_as(text: Seq<char>) -> Result<Seq<char>, ErrorView> {
    match json_value(text) {
        Ok(value) => Ok(value),
        Err(message) => Err(ErrorView::Deserialization(message)),
    }
}

/// A text of a row that holds JSON.
pub fn row_json(text: &str) -> (result: Result<Json, MachineError>)
    ensures
        seen(result) == read_as(text@),
{
    match Json::parse(text) {
        Ok(json) => Ok(json),
        Err(message) => Err(MachineError::Deserialization(message)),
    }
}

/// What a text of a row that holds JSON is read as, where it is there.
pub open spec fn read_optional(text: Option<Seq<char>>) -> Result<Option<Seq<char>>, ErrorView> {
    match text {
        Some(text) => match read_as(text) {
            Ok(value) => Ok(Some(value)),
            Err(error) => Err(error),
        },
        None => Ok(None),
    }
}

/// A text of a row that holds JSON, where it is there.
pub fn row_optional_json(text: &Option<String>) -> (result: Result<Option<Json>, MachineError>)
    ensures
        seen_opt(result) == read_optional(opt(*text)),
{
    match text {
        Some(text) => match row_json(text.as_str()) {
            Ok(json) => Ok(Some(json)),
            Err(error) => Err(error),
        },
        None => Ok(None),
    }
}

/// A row that holds a checkpoint.
#[derive(Debug)]
pub struct CheckpointRow {
    pub version: u32,
    pub state: String,
    pub next_step: Option<String>,
    pub interrupted_step: Option<String>,
    pub interrupt: Option<String>,
    pub run_id: Option<String>,
}

/// The checkpoint that a row holds, or the error of the first of its texts that cannot be read.
pub open spec fn checkpoint_of(row: CheckpointRow) -> Result<CheckpointRecordView, ErrorView> {
    let state = read_as(row.state@);
    let next_step = read_optional(opt(row.next_step));
    let interrupted_step = read_optional(opt(row.interrupted_step));
    let interrupt = read_optional(opt(row.interrupt));
    if state is Err {
        Err(state->Err_0)
    } else if next_step is Err {
        Err(next_step->Err_0)
    } else if interrupted_step is Err {
        Err(interrupted_step->Err_0)
    } else if interrupt is Err {
        Err(interrupt->Err_0)
    } else {
        Ok(
            CheckpointRecordView {
                version: row.version as nat,
                state: state->Ok_0,
                next_step: next_step->Ok_0,
                interrupted_step: interrupted_step->Ok_0,
                interrupt: interrupt->Ok_0,
                run_id: opt(row.run_id),
            },
        )
    }
}

/// The checkpoint that a row holds.
pub fn decode_checkpoint(row: CheckpointRow) -> (result: Result<CheckpointRecord, MachineError>)
    ensures
        seen(result) == checkpoint_of(row),
{
    let state = match row_json(row.state.as_str()) {
        Ok(state) => state,
        Err(error) => {
            return Err(error);
        },
    };
    let next_step = match row_optional_json(&row.next_step) {
        Ok(step) => step,
        Err(error) => {
            return Err(error);
        },
    };
    let interrupted_step = match row_optional_json(&row.interrupted_step) {
        Ok(step) => step,
        Err(error) => {
            return Err(error);
        },
    };
    let interrupt = match row_optional_json(&row.interrupt) {
        Ok(interrupt) => interrupt,
        Err(error) => {
            return Err(error);
        },
    };
    Ok(
        CheckpointRecord {
            version: row.version,
            state,
            next_step,
            interrupted_step,
            interrupt,
            run_id: row.run_id,
        },
    )
}

/// A row that holds an effect of a run.
#[derive(Debug)]
pub struct EffectRow {
    pub key: String,
    pub kind: String,
    pub status: String,
    pub request: String,
    pub result: Option<String>,
    pub error_code: Option<String>,
    pub error_message: Option<String>,
    pub created_at: i64,
    pub updated_at: i64,
}

impl EffectRow {
    /// The effect that the row holds, with the status, the request and the result that were read.
    pub open spec fn holds(
        self,
        run: Seq<char>,
        status: EffectStatus,
        request: Seq<char>,
        result: Option<Seq<char>>,
    ) -> EffectView {
        EffectView {
            run_id: run,
            key: self.key@,
            kind: self.kind@,
            status,
            request,
            result,
            error_code: opt(self.error_code),
            error_message: opt(self.error_message),
            created_at: self.created_at as int,
            updated_at: self.updated_at as int,
        }
    }

    /// The effect that the row holds.
    pub fn into_effect(self, run_id: &RunId) -> (result: Result<Effect, MachineError>)
        ensures
            match result {
                Ok(effect) => {
                    &&& effect.status.text() == self.status@
                    &&& read_as(self.request@) == Ok::<Seq<char>, ErrorView>(effect@.request)
                    &&& read_optional(opt(self.result)) == Ok::<Option<Seq<char>>, ErrorView>(
                        effect@.result,
                    )
                    &&& effect@ == self.holds(
                        run_id@,
                        effect.status,
                        effect@.request,
                        effect@.result,
                    )
                },
                Err(error) => {
                    let unknown = forall|status: EffectStatus| #[trigger]
                        status.text() != self.status@;
                    let request = read_as(self.request@);
                    if unknown {
                        error@ == unknown_effect_status(self.status@)
                    } else if request is Err {
                        error@ == request->Err_0
                    } else {
                        read_optional(opt(self.result)) == Err::<Option<Seq<char>>, ErrorView>(
                            error@,
                        )
                    }
                },
            },
    {
        let status = match EffectStatus::parse(self.status.as_str()) {
            Some(status) => status,
            None => {
                let reason = "invalid effect status: ".to_owned().concat(self.status.as_str());
                return Err(MachineError::InvalidRunEvent { reason });
            },
        };
        assert(status.text() == self.status@);
        let request = match row_json(self.request.as_str()) {
            Ok(request) => request,
            Err(error) => {
                return Err(error);
            },
        };
        let result = match row_optional_json(&self.result) {
            Ok(result) => result,
            Err(error) => {
                return Err(error);
            },
        };
        Ok(
            Effect {
                run_id: run_id.clone(),
                key: self.key,
                kind: self.kind,
                status,
                request,
                result,
                error_code: self.error_code,
                error_message: self.error_message,
                created_at: self.created_at,
                updated_at: self.updated_at,
            },
        )
    }
}

/// A row that holds an item of a run.
#[derive(Debug)]
pub struct ItemRow {
    pub key: String,
    pub kind: String,
    pub body: String,
    pub created_at: i64,
    pub updated_at: i64,
}

impl ItemRow {
    /// The item that the row holds, with the body that was read.
    pub open spec fn holds(self, run: Seq<char>, body: Seq<char>) -> ItemView {
        ItemView {
            run_id: run,
            key: self.key@,
            kind: self.kind@,
            body,
            created_at: self.created_at as int,
            updated_at: self.updated_at as int,
        }
    }

    /// The item that the row holds.
    pub fn into_item(self, run_id: &RunId) -> (result: Result<Item, MachineError>)
        ensures
            seen(result) == match read_as(self.body@) {
                Ok(body) => Ok(self.holds(run_id@, body)),
                Err(error) => Err(error),
            },
    {
        match row_json(self.body.as_str()) {
            Ok(body) => Ok(
                Item {
                    run_id: run_id.clone(),
                    key: self.key,
                    kind: self.kind,
                    body,
                    created_at: self.created_at,
                    updated_at: self.updated_at,
                },
            ),
            Err(error) => Err(error),
        }
    }
}

/// A row that holds an entry of a session.
#[derive(Debug)]
pub struct EntryRow {
    pub run_id: String,
    pub thread_id: String,
    pub seq: i64,
    pub key: String,
    pub kind: String,
    pub vis: String,
    pub body: String,
    pub created_at: i64,
    pub updated_at: i64,
}

impl EntryRow {
    /// The entry that the row holds, with the visibility and the body that were read.
    pub open spec fn holds(self, session: Seq<char>, vis: Vis, body: Seq<char>) -> EntryView {
        EntryView {
            run_id: self.run_id@,
            session_id: session,
            thread_id: self.thread_id@,
            seq: self.seq as int,
            key: self.key@,
            kind: self.kind@,
            vis,
            body,
            created_at: self.created_at as int,
            updated_at: self.updated_at as int,
        }
    }

    /// The entry that the row holds.
    pub fn into_entry(self, session_id: &SessionId) -> (result: Result<Entry, MachineError>)
        ensures
            match result {
                Ok(entry) => {
                    &&& entry.vis.text() == self.vis@
                    &&& read_as(self.body@) == Ok::<Seq<char>, ErrorView>(entry@.body)
                    &&& entry@ == self.holds(session_id@, entry.vis, entry@.body)
                },
                Err(error) => {
                    let unknown = forall|vis: Vis| #[trigger] vis.text() != self.vis@;
                    &&& unknown ==> error@ == unknown_vis(self.vis@)
                    &&& !unknown ==> read_as(self.body@) == Err::<Seq<char>, ErrorView>(error@)
                },
            },
    {
        let vis = match Vis::parse(self.vis.as_str()) {
            Some(vis) => vis,
            None => {
                let reason = "invalid entry visibility: ".to_owned().concat(self.vis.as_str());
                return Err(MachineError::InvalidRunEvent { reason });
            },
        };
        assert(vis.text() == self.vis@);
        match row_json(self.body.as_str()) {
            Ok(body) => Ok(
                Entry {
                    run_id: RunId(self.run_id),
                    session_id: session_id.clone(),
                    thread_id: ThreadId(self.thread_id),
                    seq: self.seq,
                    key: self.key,
                    kind: self.kind,
                    vis,
                    body,
                    created_at: self.created_at,
                    updated_at: self.updated_at,
                },
            ),
            Err(error) => Err(error),
        }
    }
}

/// A row that tells what a commit to a run must heed.
#[derive(Debug)]
pub struct CommitRow {
    pub session_id: SessionId,
    pub thread_id: ThreadId,
    pub status: RunStatus,
    pub lease_id: Option<LeaseId>,
    pub lease_expired: bool,
}

/// Whether a run whose row holds a lease may be written under a lease.
pub open spec fn row_held(
    stored: Option<Seq<char>>,
    expired: bool,
    lease: Option<Seq<char>>,
) -> bool {
    stored matches Some(stored) ==> lease == Some(stored) && !expired
}

/// A run may be written under its lease alone, and in time.
pub fn check_row_lease(stored: &Option<LeaseId>, expired: bool, lease: Option<&LeaseId>) -> (result:
    Result<(), MachineError>)
    ensures
        failure(result) == if row_held(opt(*stored), expired, opt(lease)) {
            None
        } else {
            Some(ErrorView::LeaseLost)
        },
{
    let stored = match stored {
        Some(stored) => stored,
        None => {
            return Ok(());
        },
    };
    let same = match lease {
        Some(lease) => *lease == *stored,
        None => false,
    };
    if !same || expired {
        return Err(MachineError::LeaseLost);
    }
    Ok(())
}

/// Why a run may not work on its effects and entries: it does not go on, or not under the lease.
pub open spec fn op_row_refusal(row: Option<CommitRow>, lease: Option<Seq<char>>) -> Option<
    ErrorView,
> {
    match row {
        None => Some(ErrorView::RunNotFound),
        Some(row) => if row.status.terminal() {
            Some(ErrorView::RunNotFound)
        } else if !row_held(opt(row.lease_id), row.lease_expired, lease) {
            Some(ErrorView::LeaseLost)
        } else {
            None
        },
    }
}

/// A run may work on its effects and entries while it goes on, under its lease.
pub fn check_op_row(row: Option<&CommitRow>, lease: Option<&LeaseId>) -> (result: Result<
    (),
    MachineError,
>)
    ensures
        failure(result) == op_row_refusal(
            match row {
                Some(row) => Some(*row),
                None => None,
            },
            opt(lease),
        ),
{
    match row {
        None => Err(MachineError::RunNotFound),
        Some(row) => {
            if row.status.is_terminal() {
                return Err(MachineError::RunNotFound);
            }
            check_row_lease(&row.lease_id, row.lease_expired, lease)
        },
    }
}

/// How a commit goes on once the row of its run was read.
#[derive(Debug, Clone, Copy, PartialEq, Eq, Structural)]
pub enum CommitGate {
    /// It is skipped.
    Skip,
    /// The run has ended: the event that ended it is asked for.
    AskTerminal,
    /// It is checked against what is stored, and written.
    Write,
}

/// How a commit goes on once the row of its run was read.
pub open spec fn gate(
    row: Option<CommitRow>,
    session: Seq<char>,
    lease: Option<Seq<char>>,
    finishes: bool,
) -> Result<CommitGate, ErrorView> {
    match row {
        None => Ok(CommitGate::Skip),
        Some(row) => if row.session_id@ != session {
            Err(invalid("event session_id does not match target run"@))
        } else if row.status.terminal() {
            if finishes {
                Ok(CommitGate::AskTerminal)
            } else {
                Ok(CommitGate::Skip)
            }
        } else if !row_held(opt(row.lease_id), row.lease_expired, lease) {
            Err(ErrorView::LeaseLost)
        } else {
            Ok(CommitGate::Write)
        },
    }
}

/// How a commit goes on once the row of its run was read.
pub fn commit_gate<E, D>(row: &Option<CommitRow>, commit: &RunCommit<E, D>) -> (result: Result<
    CommitGate,
    MachineError,
>)
    ensures
        plain(result) == gate(*row, commit@.session_id, commit@.lease, commit@.finish is Some),
{
    let row = match row {
        Some(row) => row,
        None => {
            return Ok(CommitGate::Skip);
        },
    };
    if row.session_id != commit.session_id {
        return Err(MachineError::invalid_run_event("event session_id does not match target run"));
    }
    if row.status.is_terminal() {
        if commit.finish.is_some() {
            return Ok(CommitGate::AskTerminal);
        }
        return Ok(CommitGate::Skip);
    }
    match check_row_lease(&row.lease_id, row.lease_expired, commit.lease.as_ref()) {
        Err(error) => Err(error),
        Ok(()) => Ok(CommitGate::Write),
    }
}

/// The answer to a commit that would end a run that has ended.
pub open spec fn ended_answer<E>(event: Option<E>) -> RunCommitResultView<E> {
    match event {
        Some(event) => RunCommitResultView::Finished {
            events: seq![event],
            result: FinishRunResult::AlreadyFinished(event),
        },
        None => RunCommitResultView::Skipped,
    }
}

/// The answer to a commit that would end a run that has ended.
pub fn already_finished<E: RunEvent>(event: Option<E>) -> (result: RunCommitResult<E>)
    ensures
        result@ == ended_answer(event),
{
    match event {
        Some(event) => {
            let mut events: Vec<E> = Vec::new();
            events.push(event.copy());
            assert(events@ =~= seq![event]);
            RunCommitResult::Finished { events, result: FinishRunResult::AlreadyFinished(event) }
        },
        None => RunCommitResult::Skipped,
    }
}

/// The answer to a commit that was written.
pub open spec fn written_answer<E>(events: Seq<E>, finishes: bool) -> RunCommitResultView<E> {
    if finishes {
        RunCommitResultView::Finished { events, result: FinishRunResult::Finished(events.last()) }
    } else {
        RunCommitResultView::Recorded(events)
    }
}

/// The answer to a commit that was written.
pub fn written<E: RunEvent>(events: Vec<E>, finishes: bool) -> (result: RunCommitResult<E>)
    requires
        finishes ==> events@.len() > 0,
    ensures
        result@ == written_answer(events@, finishes),
{
    if finishes {
        let last = events[events.len() - 1].copy();
        RunCommitResult::Finished { events, result: FinishRunResult::Finished(last) }
    } else {
        RunCommitResult::Recorded(events)
    }
}

/// Who has a thread.
#[derive(Debug)]
pub struct BusyThread {
    pub owner: Option<WorkerId>,
    pub run: Option<RunId>,
}

impl BusyThread {
    /// The error of one who wants the thread too.
    pub open spec fn refusal(self) -> ErrorView {
        ErrorView::ThreadBusy { owner: opt(self.owner), run: opt(self.run) }
    }

    /// The error of one who wants the thread too.
    pub fn into_error(self) -> (error: MachineError)
        ensures
            error@ == self.refusal(),
    {
        MachineError::ThreadBusy { owner: self.owner, run: self.run }
    }
}

/// What rows tell of a thread.
#[derive(Debug)]
pub struct ThreadRows {
    /// Another run that goes on on it.
    pub other_run: Option<BusyThread>,
    /// A claim to it that has not run out.
    pub claim: Option<BusyThread>,
    /// Whether the run has claimed it under the lease of the commit, and in time.
    pub held: bool,
}

/// Why a checkpoint cannot be written.
pub open spec fn row_thread_refusal(
    row: CommitRow,
    rows: ThreadRows,
    checkpoint: CheckpointWriteView,
    lease: Option<Seq<char>>,
) -> Option<ErrorView> {
    if checkpoint.thread_id != row.thread_id@ {
        Some(invalid("checkpoint thread_id does not match target run"@))
    } else if rows.other_run is Some {
        Some(rows.other_run->0.refusal())
    } else {
        match row.lease_id {
            None => match rows.claim {
                Some(claim) => Some(claim.refusal()),
                None => None,
            },
            Some(stored) => if lease == Some(stored@) && rows.held {
                None
            } else {
                Some(ErrorView::LeaseLost)
            },
        }
    }
}

/// A checkpoint must be of the run's thread, and the run must have the thread.
pub fn check_row_thread(
    row: &CommitRow,
    rows: ThreadRows,
    checkpoint: &CheckpointWrite,
    lease: Option<&LeaseId>,
) -> (result: Result<(), MachineError>)
    ensures
        failure(result) == row_thread_refusal(*row, rows, checkpoint@, opt(lease)),
{
    if checkpoint.thread_id != row.thread_id {
        return Err(
            MachineError::invalid_run_event("checkpoint thread_id does not match target run"),
        );
    }
    if let Some(other) = rows.other_run {
        return Err(other.into_error());
    }
    let stored = match &row.lease_id {
        Some(stored) => stored,
        None => {
            return match rows.claim {
                Some(claim) => Err(claim.into_error()),
                None => Ok(()),
            };
        },
    };
    let same = match lease {
        Some(lease) => *lease == *stored,
        None => false,
    };
    if !same || !rows.held {
        return Err(MachineError::LeaseLost);
    }
    Ok(())
}

/// Why the update at a place of a list cannot be made to stored effects.
pub open spec fn row_effect_refusal(
    effects: Keyed<EffectView>,
    run: Seq<char>,
    updates: Seq<EffectUpdateView>,
    i: int,
) -> Option<ErrorView> {
    let update = updates[i];
    if exists|j: int| 0 <= j < i && (#[trigger] updates[j]).key == update.key {
        Some(ErrorView::EffectConflict)
    } else if update.status is Reserved || update.status is Started {
        Some(invalid("effect commit requires a terminal or unknown status"@))
    } else if !effects.contains_key((run, update.key)) {
        Some(ErrorView::EffectNotFound)
    } else if effects[(run, update.key)].status is Done && (!(update.status is Done)
        || effects[(run, update.key)].result != update.result) {
        Some(ErrorView::EffectConflict)
    } else {
        None
    }
}

/// Why updates cannot be made to stored effects.
pub open spec fn row_effects_refusal(
    effects: Keyed<EffectView>,
    run: Seq<char>,
    updates: Seq<EffectUpdateView>,
) -> Option<ErrorView> {
    first_failure(updates.len(), |i: int| row_effect_refusal(effects, run, updates, i))
}

/// Updates must be of effects that were announced, each once, and must not undo a result.
pub fn validate_row_effects(
    effects: &Table<(RunId, String), Effect>,
    run_id: &RunId,
    updates: &Vec<EffectUpdate>,
) -> (result: Result<(), MachineError>)
    requires
        effects.wf(),
    ensures
        failure(result) == row_effects_refusal(effects@, run_id@, views(updates@)),
{
    let ghost check = |i: int| row_effect_refusal(effects@, run_id@, views(updates@), i);
    let mut i: usize = 0;
    while i < updates.len()
        invariant
            effects.wf(),
            i <= updates.len(),
            check == |i: int| row_effect_refusal(effects@, run_id@, views(updates@), i),
            first_failure(i as nat, check) is None,
        decreases updates.len() - i,
    {
        match validate_row_effect(effects, run_id, updates, i) {
            Err(error) => {
                proof {
                    lemma_first_failure(updates@.len(), check, i as nat);
                }
                return Err(error);
            },
            Ok(()) => {},
        }
        i = i + 1;
    }
    Ok(())
}

fn validate_row_effect(
    effects: &Table<(RunId, String), Effect>,
    run_id: &RunId,
    updates: &Vec<EffectUpdate>,
    i: usize,
) -> (result: Result<(), MachineError>)
    requires
        effects.wf(),
        i < updates.len(),
    ensures
        failure(result) == row_effect_refusal(effects@, run_id@, views(updates@), i as int),
{
    let update = &updates[i];
    let mut j: usize = 0;
    while j < i
        invariant
            j <= i,
            i < updates.len(),
            *update == updates@[i as int],
            forall|k: int| 0 <= k < j ==> (#[trigger] views(updates@)[k]).key != update.key@,
        decreases i - j,
    {
        if updates[j].key == update.key {
            assert(views(updates@)[j as int].key == update.key@);
            return Err(MachineError::EffectConflict);
        }
        j = j + 1;
    }
    if matches!(update.status, EffectStatus::Reserved | EffectStatus::Started) {
        return Err(
            MachineError::invalid_run_event("effect commit requires a terminal or unknown status"),
        );
    }
    let key = (run_id.clone(), update.key.clone());
    let effect = match effects.get(&key) {
        Some(effect) => effect,
        None => {
            return Err(MachineError::EffectNotFound);
        },
    };
    if effect.status == EffectStatus::Done && (update.status != EffectStatus::Done
        || !same_optional_json(&effect.result, &update.result)) {
        return Err(MachineError::EffectConflict);
    }
    Ok(())
}

/// Why the event at a place of a list cannot follow the one before it, or a stored place.
pub open spec fn follow_refusal<E: RunEvent>(last: int, events: Seq<E>, i: int) -> Option<ErrorView> {
    let before = if i == 0 {
        last
    } else {
        events[i - 1].place()
    };
    if events[i].place() <= before {
        Some(invalid("event seq must increase monotonically"@))
    } else {
        None
    }
}

/// Why events cannot follow a stored place.
pub open spec fn after_refusal<E: RunEvent>(last: int, events: Seq<E>) -> Option<ErrorView> {
    first_failure(events.len(), |i: int| follow_refusal(last, events, i))
}

/// Events must come after the last that is stored, each after the one before.
pub fn validate_events_after<E: RunEvent>(last: i64, events: &Vec<E>) -> (result: Result<
    (),
    MachineError,
>)
    ensures
        failure(result) == after_refusal(last as int, events@),
{
    let ghost check = |i: int| follow_refusal(last as int, events@, i);
    let mut before: i64 = last;
    let mut i: usize = 0;
    while i < events.len()
        invariant
            i <= events@.len(),
            check == |i: int| follow_refusal(last as int, events@, i),
            first_failure(i as nat, check) is None,
            before == if i == 0 {
                last as int
            } else {
                events@[i - 1].place()
            },
        decreases events@.len() - i,
    {
        let seq: i64 = events[i].seq();
        if seq <= before {
            proof {
                lemma_first_failure(events@.len(), check, i as nat);
            }
            return Err(MachineError::invalid_run_event("event seq must increase monotonically"));
        }
        before = seq;
        i = i + 1;
    }
    Ok(())
}

/// What is stored that a commit must fit.
pub struct CommitRows {
    /// The thread.
    pub thread: ThreadRows,
    /// The effects that the commit updates, as far as they are there.
    pub effects: Table<(RunId, String), Effect>,
    /// The items that the commit records, as far as they are there.
    pub items: Table<(RunId, String), Item>,
    /// The entries that the commit records, as far as they are there.
    pub entries: Vec<ScopedEntry>,
    /// The place of the run's last event, or zero.
    pub last_seq: i64,
}

/// Why a commit to a run that goes on cannot be written.
pub open spec fn rows_refusal<E: RunEvent, D>(
    row: CommitRow,
    rows: CommitRows,
    commit: RunCommitView<E, D>,
) -> Option<ErrorView> {
    if commit.checkpoint is Some && row_thread_refusal(
        row,
        rows.thread,
        commit.checkpoint->0,
        commit.lease,
    ) is Some {
        row_thread_refusal(row, rows.thread, commit.checkpoint->0, commit.lease)
    } else if row_effects_refusal(rows.effects@, commit.run_id, commit.effects) is Some {
        row_effects_refusal(rows.effects@, commit.run_id, commit.effects)
    } else if items_refusal(rows.items@, commit.run_id, commit.items) is Some {
        items_refusal(rows.items@, commit.run_id, commit.items)
    } else if entries_refusal(
        views(rows.entries@),
        commit.scope,
        commit.session_id,
        commit.entries,
    ) is Some {
        entries_refusal(views(rows.entries@), commit.scope, commit.session_id, commit.entries)
    } else {
        after_refusal(rows.last_seq as int, commit.events)
    }
}

/// A commit to a run that goes on must fit what is stored.
pub fn check_rows<E: RunEvent, D>(
    row: &CommitRow,
    rows: CommitRows,
    commit: &RunCommit<E, D>,
) -> (result: Result<(), MachineError>)
    requires
        rows.effects.wf(),
        rows.items.wf(),
    ensures
        failure(result) == rows_refusal(*row, rows, commit@),
{
    if let Some(checkpoint) = &commit.checkpoint {
        match check_row_thread(row, rows.thread, checkpoint, commit.lease.as_ref()) {
            Err(error) => {
                return Err(error);
            },
            Ok(()) => {},
        }
    }
    match validate_row_effects(&rows.effects, &commit.run_id, &commit.effects) {
        Err(error) => {
            return Err(error);
        },
        Ok(()) => {},
    }
    match validate_items(&rows.items, &commit.run_id, &commit.items) {
        Err(error) => {
            return Err(error);
        },
        Ok(()) => {},
    }
    match validate_entries(&rows.entries, &commit.scope, &commit.session_id, &commit.entries) {
        Err(error) => {
            return Err(error);
        },
        Ok(()) => {},
    }
    validate_events_after(rows.last_seq, &commit.events)
}

/// The end of a run as a commit without a lease.
pub open spec fn finish_as_commit<E, D>(finish: RunFinishRecordView<E, D>) -> RunCommitView<E, D> {
    RunCommitView {
        run_id: finish.run_id,
        session_id: finish.session_id,
        scope: finish.scope,
        lease: None,
        checkpoint: None,
        events: seq![finish.terminal_event],
        effects: Seq::empty(),
        items: Seq::empty(),
        entries: finish.entries,
        finish: Some(
            RunFinishView {
                run_id: finish.run_id,
                session_id: finish.session_id,
                scope: finish.scope,
                status: finish.status,
                finish_reason: finish.finish_reason,
                error_code: finish.error_code,
                entries: Seq::empty(),
                data: finish.data,
            },
        ),
    }
}

/// The end of a run as a commit without a lease.
pub fn finish_commit<E: RunEvent, D>(finish: RunFinishRecord<E, D>) -> (commit: RunCommit<E, D>)
    ensures
        commit@ == finish_as_commit(finish@),
{
    let mut events: Vec<E> = Vec::new();
    events.push(finish.terminal_event);
    let commit = RunCommit {
        run_id: finish.run_id.clone(),
        session_id: finish.session_id.clone(),
        scope: finish.scope.clone(),
        lease: None,
        checkpoint: None,
        events,
        effects: Vec::new(),
        items: Vec::new(),
        entries: finish.entries,
        finish: Some(
            RunFinish {
                run_id: finish.run_id,
                session_id: finish.session_id,
                scope: finish.scope,
                status: finish.status,
                finish_reason: finish.finish_reason,
                error_code: finish.error_code,
                entries: Vec::new(),
                data: finish.data,
            },
        ),
    };
    assert(commit@.events =~= seq![finish@.terminal_event]);
    assert(commit@.effects =~= Seq::empty());
    assert(commit@.items =~= Seq::empty());
    assert(commit@.finish->0.entries =~= Seq::empty());
    commit
}

/// The answer to a finish that was made as a commit.
pub open spec fn finish_answered<E>(result: RunCommitResult<E>) -> Result<
    FinishRunResult<E>,
    ErrorView,
> {
    match result {
        RunCommitResult::Finished { result, .. } => Ok(result),
        RunCommitResult::Skipped => Err(ErrorView::RunNotFound),
        RunCommitResult::Recorded(_) => Err(
            invalid("finish_run did not produce a terminal result"@),
        ),
    }
}

/// The answer to a finish that was made as a commit.
pub fn finish_answer<E>(result: RunCommitResult<E>) -> (answer: Result<
    FinishRunResult<E>,
    MachineError,
>)
    ensures
        plain(answer) == finish_answered(result),
{
    match result {
        RunCommitResult::Finished { result, .. } => Ok(result),
        RunCommitResult::Skipped => Err(MachineError::RunNotFound),
        RunCommitResult::Recorded(_) => Err(
            MachineError::invalid_run_event("finish_run did not produce a terminal result"),
        ),
    }
}

/// An event of a run as a commit without a lease.
pub open spec fn event_as_commit<E: RunEvent, D>(
    run: Seq<char>,
    scope: Seq<char>,
    event: E,
) -> RunCommitView<E, D> {
    RunCommitView {
        run_id: run,
        session_id: event.session(),
        scope,
        lease: None,
        checkpoint: None,
        events: seq![event],
        effects: Seq::empty(),
        items: Seq::empty(),
        entries: Seq::empty(),
        finish: None,
    }
}

/// An event of a run as a commit without a lease.
pub fn event_commit<E: RunEvent, D>(run_id: &RunId, scope: &Json, event: &E) -> (commit: RunCommit<
    E,
    D,
>)
    ensures
        commit@ == event_as_commit::<E, D>(run_id@, scope@, *event),
{
    let mut events: Vec<E> = Vec::new();
    events.push(event.copy());
    let commit = RunCommit {
        run_id: run_id.clone(),
        session_id: event.session_id().clone(),
        scope: scope.clone(),
        lease: None,
        checkpoint: None,
        events,
        effects: Vec::new(),
        items: Vec::new(),
        entries: Vec::new(),
        finish: None,
    };
    assert(commit@.events =~= seq![*event]);
    assert(commit@.effects =~= Seq::empty());
    assert(commit@.items =~= Seq::empty());
    assert(commit@.entries =~= Seq::empty());
    commit
}

/// The answer to an event that was recorded as a commit: whether it was recorded.
pub open spec fn event_answered<E>(result: RunCommitResult<E>) -> Result<bool, ErrorView> {
    match result {
        RunCommitResult::Recorded(_) => Ok(true),
        RunCommitResult::Skipped => Ok(false),
        RunCommitResult::Finished { .. } => Err(
            invalid("record_event produced a terminal result"@),
        ),
    }
}

/// The answer to an event that was recorded as a commit: whether it was recorded.
pub fn event_answer<E>(result: RunCommitResult<E>) -> (answer: Result<bool, MachineError>)
    ensures
        plain(answer) == event_answered(result),
{
    match result {
        RunCommitResult::Recorded(_) => Ok(true),
        RunCommitResult::Skipped => Ok(false),
        RunCommitResult::Finished { .. } => Err(
            MachineError::invalid_run_event("record_event produced a terminal result"),
        ),
    }
}

/// Why a commit is refused by a store in a database, whatever the store holds: entries alone are no
/// commit there, and for the rest the reasons are those of any store.
pub open spec fn sql_commit_refusal<E: RunEvent, D>(commit: RunCommitView<E, D>) -> Option<
    ErrorView,
> {
    if commit.events.len() == 0 && commit.effects.len() == 0 && commit.items.len() == 0 {
        Some(invalid("commit requires an event, effect, or item"@))
    } else {
        commit_refusal(commit)
    }
}

/// A commit to a store in a database must hold together, whatever the store holds.
pub fn validate_sql_commit<E: RunEvent, D>(commit: &RunCommit<E, D>) -> (result: Result<
    (),
    MachineError,
>)
    ensures
        failure(result) == sql_commit_refusal(commit@),
{
    if commit.events.len() == 0 && commit.effects.len() == 0 && commit.items.len() == 0 {
        return Err(MachineError::invalid_run_event("commit requires an event, effect, or item"));
    }
    validate_commit(commit)
}

/// Why a commit is refused by a store in SQLite, whatever the store holds: for the same reasons as by
/// any store in a database, of which it words one in another way.
pub open spec fn sqlite_commit_refusal<E: RunEvent, D>(commit: RunCommitView<E, D>) -> Option<
    ErrorView,
> {
    match sql_commit_refusal(commit) {
        Some(error) => if error == invalid("finish_run requires a terminal event"@) {
            Some(invalid("finish commit requires a terminal event"@))
        } else {
            Some(error)
        },
        None => None,
    }
}

/// A commit to a store in SQLite must hold together, whatever the store holds.
pub fn validate_sqlite_commit<E: RunEvent, D>(commit: &RunCommit<E, D>) -> (result: Result<
    (),
    MachineError,
>)
    ensures
        failure(result) == sqlite_commit_refusal(commit@),
{
    match validate_sql_commit(commit) {
        Err(MachineError::InvalidRunEvent { reason }) => {
            if same_text(reason.as_str(), "finish_run requires a terminal event") {
                Err(MachineError::invalid_run_event("finish commit requires a terminal event"))
            } else {
                Err(MachineError::InvalidRunEvent { reason })
            }
        },
        result => result,
    }
}

/// A run that is stored, and what it was started with.
#[derive(Debug)]
pub struct StartedRow {
    pub lookup: RunLookup,
    pub start_sig: String,
}

/// How the start of a run goes on once its rows were read.
#[derive(Debug)]
pub enum StartGate {
    /// The run is there.
    Existing(RunLookup),
    /// The run is to be stored.
    Insert,
}

/// The mathematical view of [`StartGate`].
pub enum StartGateView {
    Existing(RunLookupView),
    Insert,
}

impl View for StartGate {
    type V = StartGateView;

    open spec fn view(&self) -> StartGateView {
        match *self {
            StartGate::Existing(lookup) => StartGateView::Existing(lookup@),
            StartGate::Insert => StartGateView::Insert,
        }
    }
}

impl View for StartedRow {
    type V = (RunLookupView, Seq<char>);

    open spec fn view(&self) -> (RunLookupView, Seq<char>) {
        (self.lookup@, self.start_sig@)
    }
}

/// How the start of a run goes on: a run that is there under its name, or under the client's key,
/// must have been started in the same way, and the thread of another must be free.
pub open spec fn start_decision(
    named: Option<(RunLookupView, Seq<char>)>,
    keyed: Option<(RunLookupView, Seq<char>)>,
    start_sig: Seq<char>,
    busy: Option<ErrorView>,
) -> Result<StartGateView, ErrorView> {
    let known = if named is Some {
        named
    } else {
        keyed
    };
    match known {
        Some((lookup, known_sig)) => if known_sig == start_sig {
            Ok(StartGateView::Existing(lookup))
        } else {
            Err(ErrorView::StartConflict)
        },
        None => match busy {
            Some(error) => Err(error),
            None => Ok(StartGateView::Insert),
        },
    }
}

/// How the start of a run goes on once its rows were read: the run under its name, the run under
/// the client's key, and another run that goes on on its thread.
pub fn start_gate(
    named: Option<StartedRow>,
    keyed: Option<StartedRow>,
    start_sig: &String,
    busy: Option<BusyThread>,
) -> (result: Result<StartGate, MachineError>)
    ensures
        seen(result) == start_decision(
            opt(named),
            opt(keyed),
            start_sig@,
            match busy {
                Some(busy) => Some(busy.refusal()),
                None => None,
            },
        ),
{
    let known = match named {
        Some(row) => Some(row),
        None => keyed,
    };
    if let Some(row) = known {
        if row.start_sig != *start_sig {
            return Err(MachineError::StartConflict);
        }
        return Ok(StartGate::Existing(row.lookup));
    }
    match busy {
        Some(busy) => Err(busy.into_error()),
        None => Ok(StartGate::Insert),
    }
}

/// A text behind its length, so that it can be told from what follows it.
pub open spec fn measured(text: Seq<char>) -> Seq<char> {
    decimal(text.len()) + ":"@ + text
}

/// The input that a run is started with, as one text.
pub open spec fn input_text(input: Option<Seq<char>>) -> Seq<char> {
    match input {
        Some(input) => "+"@ + measured(input),
        None => "-"@,
    }
}

/// An entry to record, as one text.
pub open spec fn write_text(write: EntryWriteView) -> Seq<char> {
    measured(write.key) + measured(write.kind) + measured(write.vis.text()) + measured(write.body)
}

/// Entries to record, as one text.
pub open spec fn writes_text(writes: Seq<EntryWriteView>) -> Seq<char>
    decreases writes.len(),
{
    if writes.len() == 0 {
        Seq::empty()
    } else {
        writes_text(writes.drop_last()) + write_text(writes.last())
    }
}

/// What a run is started with, as one text.
pub open spec fn sig_text(input: Option<Seq<char>>, entries: Seq<EntryWriteView>) -> Seq<char> {
    input_text(input) + writes_text(entries)
}

fn append_measured(text: &mut String, part: &str)
    ensures
        final(text)@ == old(text)@ + measured(part@),
{
    let length = decimal_text(part.unicode_len() as u64);
    let ghost before = text@;
    text.append(length.as_str());
    text.append(":");
    text.append(part);
    assert(text@ =~= before + measured(part@));
}

/// What a run is started with, as one text.
pub fn start_sig(input: &Option<Json>, entries: &Vec<EntryWrite>) -> (sig: String)
    ensures
        sig@ == sig_text(opt(*input), views(entries@)),
{
    let mut sig = match input {
        Some(_) => "+".to_owned(),
        None => "-".to_owned(),
    };
    if let Some(input) = input {
        append_measured(&mut sig, input.value_str());
    }
    let ghost first = sig@;
    let mut i: usize = 0;
    proof {
        assert(first =~= input_text(opt(*input)));
        assert(first + writes_text(views(entries@).take(0)) =~= first);
    }
    while i < entries.len()
        invariant
            i <= entries@.len(),
            sig@ == first + writes_text(views(entries@).take(i as int)),
        decreases entries@.len() - i,
    {
        let entry = &entries[i];
        let ghost before = sig@;
        append_measured(&mut sig, entry.key.as_str());
        append_measured(&mut sig, entry.kind.as_str());
        append_measured(&mut sig, entry.vis.as_str());
        append_measured(&mut sig, entry.body.value_str());
        proof {
            assert(sig@ =~= before + write_text(entry@));
            let next = views(entries@).take(i + 1);
            assert(next.drop_last() =~= views(entries@).take(i as int));
            assert(next.last() == entry@);
            assert(first + writes_text(next) =~= before + write_text(entry@));
        }
        i = i + 1;
    }
    assert(views(entries@).take(entries@.len() as int) =~= views(entries@));
    sig
}

/// Why an event does not end the run that it was built for, under the number after its last.
pub open spec fn reap_event_refusal<E: RunEvent>(
    run: RunLookupView,
    seq: int,
    event: E,
) -> Option<ErrorView> {
    if event.run() != run.run_id || event.session() != run.session_id {
        Some(invalid("reap event target does not match run"@))
    } else if event.place() != seq || !event.terminal() {
        Some(invalid("reap requires the next terminal event"@))
    } else {
        None
    }
}

/// An event must end the run that it was built for, under the number after its last.
pub fn check_reap_event<E: RunEvent>(run: &RunLookup, seq: i64, event: &E) -> (result: Result<
    (),
    MachineError,
>)
    ensures
        failure(result) == reap_event_refusal(run@, seq as int, *event),
{
    if *event.run_id() != run.run_id || *event.session_id() != run.session_id {
        return Err(MachineError::invalid_run_event("reap event target does not match run"));
    }
    if event.seq() != seq || !event.is_terminal() {
        return Err(MachineError::invalid_run_event("reap requires the next terminal event"));
    }
    Ok(())
}

/// What is told of a run once it was ended because its lease had run out.
pub open spec fn reaped_lookup(run: RunLookupView) -> RunLookupView {
    RunLookupView {
        status: RunStatus::Error,
        finish_reason: Some("lease_expired"@),
        owner: None,
        ..run
    }
}

/// What is told of a run once it was ended because its lease had run out.
pub fn reaped(run: RunLookup) -> (lookup: RunLookup)
    ensures
        lookup@ == reaped_lookup(run@),
{
    RunLookup {
        run_id: run.run_id,
        session_id: run.session_id,
        thread_id: run.thread_id,
        status: RunStatus::Error,
        finish_reason: Some("lease_expired".to_owned()),
        cancel_requested: run.cancel_requested,
        owner: None,
    }
}

/// The answer to the reservation of an effect, once the effect under its key was read.
pub open spec fn reservation(effect: Option<Effect>, kind: Seq<char>, request: Seq<char>) -> Result<
    Effect,
    ErrorView,
> {
    match effect {
        None => Err(ErrorView::EffectNotFound),
        Some(effect) => if effect.kind@ != kind || effect.request@ != request {
            Err(ErrorView::EffectConflict)
        } else {
            Ok(effect)
        },
    }
}

/// The answer to the reservation of an effect, once the effect under its key was read.
pub fn reserved_effect(effect: Option<Effect>, kind: &str, request: &Json) -> (result: Result<
    Effect,
    MachineError,
>)
    ensures
        plain(result) == reservation(effect, kind@, request@),
{
    match effect {
        None => Err(MachineError::EffectNotFound),
        Some(effect) => {
            if !same_text(effect.kind.as_str(), kind) || effect.request != *request {
                return Err(MachineError::EffectConflict);
            }
            Ok(effect)
        },
    }
}

/// How the start of an effect goes on once the effect was read.
#[derive(Debug)]
pub enum EffectGate {
    /// The effect is done, and stays so.
    Known(Effect),
    /// The effect is to be started.
    Start,
}

/// How the start of an effect goes on once the effect was read.
pub open spec fn effect_decision(effect: Option<Effect>) -> Result<EffectGate, ErrorView> {
    match effect {
        None => Err(ErrorView::EffectNotFound),
        Some(effect) => if effect.status.blocking() {
            Err(ErrorView::EffectPending)
        } else if effect.status is Done {
            Ok(EffectGate::Known(effect))
        } else {
            Ok(EffectGate::Start)
        },
    }
}

/// How the start of an effect goes on once the effect was read.
pub fn effect_gate(effect: Option<Effect>) -> (result: Result<EffectGate, MachineError>)
    ensures
        plain(result) == effect_decision(effect),
{
    match effect {
        None => Err(MachineError::EffectNotFound),
        Some(effect) => {
            if effect.status.is_blocking() {
                return Err(MachineError::EffectPending);
            }
            if effect.status == EffectStatus::Done {
                return Ok(EffectGate::Known(effect));
            }
            Ok(EffectGate::Start)
        },
    }
}

/// How many rows are read of a list, as far as they can be counted.
pub open spec fn rows_listed(limit: usize) -> int {
    if limit < i64::MAX {
        limit as int
    } else {
        i64::MAX as int
    }
}

/// How many rows are read for a page: one more than it holds, to see whether there are more.
pub open spec fn rows_fetched(limit: usize) -> int {
    if limit < i64::MAX {
        limit + 1
    } else {
        i64::MAX as int
    }
}

/// How many rows are read of a list, as far as they can be counted.
pub fn row_limit(limit: usize) -> (rows: i64)
    ensures
        rows == rows_listed(limit),
{
    if (limit as u64) < i64::MAX as u64 {
        limit as i64
    } else {
        i64::MAX
    }
}

/// How many rows are read for a page: one more than it holds, to see whether there are more.
pub fn fetch_limit(limit: usize) -> (fetch: i64)
    ensures
        fetch == rows_fetched(limit),
{
    if (limit as u64) < i64::MAX as u64 {
        limit as i64 + 1
    } else {
        i64::MAX
    }
}

/// The page of the events that were read for it.
pub fn event_page<E: RunEvent>(events: Vec<E>, limit: usize) -> (page: Page<E>)
    requires
        limit > 0,
    ensures
        page@ == page_of(events@, limit as nat, |event: E| event.place()),
{
    let mut events = events;
    if events.len() > limit {
        let next: i64 = events[limit - 1].seq();
        events.truncate(limit);
        return Page::new(events, Some(next));
    }
    Page::new(events, None)
}

/// The page of the entries that were read for it.
pub fn entry_page(entries: Vec<Entry>, limit: usize) -> (page: Page<Entry>)
    requires
        limit > 0,
    ensures
        page@ == page_of(entries@, limit as nat, |entry: Entry| entry.seq as int),
{
    let mut entries = entries;
    if entries.len() > limit {
        let next: i64 = entries[limit - 1].seq;
        entries.truncate(limit);
        return Page::new(entries, Some(next));
    }
    Page::new(entries, None)
}

} // verus!
