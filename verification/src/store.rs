//! Runs as a store keeps them: events, starts, finishes, commits and leases.

use vstd::prelude::*;

use crate::checkpoint::{CheckpointRecord, CheckpointRecordView};
use crate::ids::{LeaseId, RunId, SessionId, ThreadId, WorkerId};
use crate::json::{same_optional_json, Json};
use crate::op::{
    EffectUpdate, EffectUpdateView, EntryWrite, EntryWriteView, ItemWrite, ItemWriteView,
};
use crate::text::{opt, same_text, views};

verus! {

/// A length of time, or a point in time counted from a fixed one, in nanoseconds.
pub type Nanos = u128;

/// An event of a run.
pub trait RunEvent: Clone {
    /// The run that the event belongs to.
    closed spec fn run(&self) -> Seq<char> {
        arbitrary()
    }

    /// The session that the event belongs to.
    closed spec fn session(&self) -> Seq<char> {
        arbitrary()
    }

    /// The place of the event in its run.
    closed spec fn place(&self) -> int {
        arbitrary()
    }

    /// Whether the event ends its run.
    closed spec fn terminal(&self) -> bool {
        arbitrary()
    }

    fn run_id(&self) -> (id: &RunId)
        ensures
            id@ == self.run(),
    ;

    fn session_id(&self) -> (id: &SessionId)
        ensures
            id@ == self.session(),
    ;

    fn seq(&self) -> (seq: i64)
        ensures
            seq == self.place(),
    ;

    fn is_terminal(&self) -> (terminal: bool)
        ensures
            terminal == self.terminal(),
    ;

    /// The same event once more.
    fn copy(&self) -> (copy: Self)
        ensures
            copy == *self,
    ;
}

/// What an event in an envelope says.
pub trait RunEventPayload: Clone {
    /// Whether the event ends its run.
    closed spec fn terminal(&self) -> bool {
        arbitrary()
    }

    fn is_terminal(&self) -> (terminal: bool)
        ensures
            terminal == self.terminal(),
    ;

    /// The same payload once more.
    fn copy(&self) -> (copy: Self)
        ensures
            copy == *self,
    ;
}

/// An event: a payload with its address.
#[derive(Debug, PartialEq)]
pub struct RunEventEnvelope<P> {
    /// The run.
    pub run_id: RunId,
    /// The session.
    pub session_id: SessionId,
    /// The place of the event in its run.
    pub seq: i64,
    /// What the event says.
    pub payload: P,
}

impl<P> RunEventEnvelope<P> {
    /// An event.
    pub fn new(run_id: RunId, session_id: SessionId, seq: i64, payload: P) -> (event: Self)
        ensures
            event == (RunEventEnvelope { run_id, session_id, seq, payload }),
    {
        RunEventEnvelope { run_id, session_id, seq, payload }
    }

    /// What the event says.
    pub fn into_payload(self) -> (payload: P)
        ensures
            payload == self.payload,
    {
        self.payload
    }
}

impl<P: Clone> Clone for RunEventEnvelope<P> {
    fn clone(&self) -> (copy: Self)
        ensures
            copy.run_id == self.run_id,
            copy.session_id == self.session_id,
            copy.seq == self.seq,
            cloned(self.payload, copy.payload),
    {
        RunEventEnvelope {
            run_id: self.run_id.clone(),
            session_id: self.session_id.clone(),
            seq: self.seq,
            payload: self.payload.clone(),
        }
    }
}

impl<P: RunEventPayload> RunEvent for RunEventEnvelope<P> {
    open spec fn run(&self) -> Seq<char> {
        self.run_id@
    }

    open spec fn session(&self) -> Seq<char> {
        self.session_id@
    }

    open spec fn place(&self) -> int {
        self.seq as int
    }

    open spec fn terminal(&self) -> bool {
        self.payload.terminal()
    }

    fn run_id(&self) -> (id: &RunId) {
        &self.run_id
    }

    fn session_id(&self) -> (id: &SessionId) {
        &self.session_id
    }

    fn seq(&self) -> (seq: i64) {
        self.seq
    }

    fn is_terminal(&self) -> (terminal: bool) {
        self.payload.is_terminal()
    }

    fn copy(&self) -> (copy: Self) {
        RunEventEnvelope {
            run_id: self.run_id.clone(),
            session_id: self.session_id.clone(),
            seq: self.seq,
            payload: self.payload.copy(),
        }
    }
}

/// The same events once more.
pub fn copy_events<E: RunEvent>(events: &Vec<E>) -> (copy: Vec<E>)
    ensures
        copy@ == events@,
{
    let mut copy: Vec<E> = Vec::new();
    let mut i: usize = 0;
    while i < events.len()
        invariant
            i <= events.len(),
            copy@ == events@.take(i as int),
        decreases events.len() - i,
    {
        copy.push(events[i].copy());
        assert(events@.take(i + 1) =~= events@.take(i as int).push(events@[i as int]));
        i = i + 1;
    }
    assert(events@.take(events@.len() as int) =~= events@);
    copy
}

/// The place of the last event of a sequence.
pub open spec fn last_place<E: RunEvent>(events: Seq<E>) -> Option<int> {
    if events.len() == 0 {
        None
    } else {
        Some(events.last().place())
    }
}

/// The place of the last event of a sequence.
pub fn last_seq<E: RunEvent>(events: &Vec<E>) -> (last: Option<i64>)
    ensures
        match last {
            Some(seq) => last_place(events@) == Some(seq as int),
            None => last_place(events@) is None,
        },
{
    if events.len() == 0 {
        None
    } else {
        Some(events[events.len() - 1].seq())
    }
}

/// How far a run has come.
#[derive(Debug, Clone, Copy, PartialEq, Eq, Structural)]
pub enum RunStatus {
    /// The run goes on.
    Running,
    /// The run ended with an output.
    Completed,
    /// The run waits to be resumed.
    Interrupted,
    /// The run was cancelled.
    Cancelled,
    /// The run failed.
    Error,
}

impl RunStatus {
    /// The name under which a value is recorded.
    pub open spec fn text(self) -> Seq<char> {
        match self {
            RunStatus::Running => "running"@,
            RunStatus::Completed => "completed"@,
            RunStatus::Interrupted => "interrupted"@,
            RunStatus::Cancelled => "cancelled"@,
            RunStatus::Error => "error"@,
        }
    }

    /// The name under which a value is recorded.
    pub fn as_str(&self) -> (text: &'static str)
        ensures
            text@ == self.text(),
    {
        match self {
            RunStatus::Running => "running",
            RunStatus::Completed => "completed",
            RunStatus::Interrupted => "interrupted",
            RunStatus::Cancelled => "cancelled",
            RunStatus::Error => "error",
        }
    }

    /// The value recorded under a name.
    pub fn parse(value: &str) -> (parsed: Option<Self>)
        ensures
            match parsed {
                Some(parsed) => parsed.text() == value@,
                None => forall|other: Self| #[trigger] other.text() != value@,
            },
    {
        if same_text(value, "running") {
            Some(RunStatus::Running)
        } else if same_text(value, "completed") {
            Some(RunStatus::Completed)
        } else if same_text(value, "interrupted") {
            Some(RunStatus::Interrupted)
        } else if same_text(value, "cancelled") {
            Some(RunStatus::Cancelled)
        } else if same_text(value, "error") {
            Some(RunStatus::Error)
        } else {
            None
        }
    }

    /// Different values are recorded under different names, so that reading the name of a value gives
    /// the value back.
    pub proof fn text_injective(left: Self, right: Self)
        requires
            left.text() == right.text(),
        ensures
            left == right,
    {
        reveal_strlit("running");
        reveal_strlit("completed");
        reveal_strlit("interrupted");
        reveal_strlit("cancelled");
        reveal_strlit("error");
        assert("running"@.len() == 7 && "running"@[0] == 'r' && "running"@[1]
            == 'u');
        assert("completed"@.len() == 9 && "completed"@[0] == 'c' && "completed"@[1]
            == 'o');
        assert("interrupted"@.len() == 11 && "interrupted"@[0] == 'i' && "interrupted"@[1]
            == 'n');
        assert("cancelled"@.len() == 9 && "cancelled"@[0] == 'c' && "cancelled"@[1]
            == 'a');
        assert("error"@.len() == 5 && "error"@[0] == 'e' && "error"@[1]
            == 'r');
    }
}

impl RunStatus {
    /// Whether the run has ended.
    pub open spec fn terminal(self) -> bool {
        !(self is Running)
    }

    /// Whether the run has ended.
    pub fn is_terminal(self) -> (terminal: bool)
        ensures
            terminal == self.terminal(),
    {
        !matches!(self, RunStatus::Running)
    }
}

/// A claimed lease: who may write a run.
#[derive(Debug)]
pub struct Lease {
    /// The run.
    pub run: RunId,
    /// The worker that holds it.
    pub owner: WorkerId,
    /// The claim.
    pub id: LeaseId,
}

/// The mathematical view of [`Lease`].
#[verifier::ext_equal]
pub struct LeaseView {
    pub run: Seq<char>,
    pub owner: Seq<char>,
    pub id: Seq<char>,
}

impl View for Lease {
    type V = LeaseView;

    open spec fn view(&self) -> LeaseView {
        LeaseView {
            run: self.run@,
            owner: self.owner@,
            id: self.id@,
        }
    }
}

impl Clone for Lease {
    fn clone(&self) -> (copy: Self)
        ensures
            copy == *self,
    {
        Lease {
            run: self.run.clone(),
            owner: self.owner.clone(),
            id: self.id.clone(),
        }
    }
}

impl Lease {
    /// A claimed lease.
    pub fn new(run: RunId, owner: WorkerId, id: LeaseId) -> (lease: Self)
        ensures
            lease == (Lease { run, owner, id }),
    {
        Lease { run, owner, id }
    }
}

/// A claim to a lease, made when a run starts.
#[derive(Debug)]
pub struct LeaseClaim {
    /// The worker that claims.
    pub owner: WorkerId,
    /// The claim.
    pub id: LeaseId,
    /// How long the lease holds without being renewed.
    pub ttl: Nanos,
}

/// The mathematical view of [`LeaseClaim`].
#[verifier::ext_equal]
pub struct LeaseClaimView {
    pub owner: Seq<char>,
    pub id: Seq<char>,
    pub ttl: nat,
}

impl View for LeaseClaim {
    type V = LeaseClaimView;

    open spec fn view(&self) -> LeaseClaimView {
        LeaseClaimView {
            owner: self.owner@,
            id: self.id@,
            ttl: self.ttl as nat,
        }
    }
}

impl Clone for LeaseClaim {
    fn clone(&self) -> (copy: Self)
        ensures
            copy == *self,
    {
        LeaseClaim {
            owner: self.owner.clone(),
            id: self.id.clone(),
            ttl: self.ttl,
        }
    }
}

impl LeaseClaim {
    /// A claim to a lease.
    pub fn new(owner: WorkerId, id: LeaseId, ttl: Nanos) -> (claim: Self)
        ensures
            claim == (LeaseClaim { owner, id, ttl }),
    {
        LeaseClaim { owner, id, ttl }
    }
}

/// A run to start.
#[derive(Debug)]
pub struct RunStart {
    /// The run.
    pub run_id: RunId,
    /// Its session.
    pub session_id: SessionId,
    /// The thread that it continues.
    pub thread_id: ThreadId,
    /// What sort of agent runs.
    pub agent_kind: String,
    /// The model that the agent uses.
    pub model: Option<String>,
    /// A key of the client's, under which the start happens once.
    pub client_run_key: Option<String>,
    /// The run that started this one.
    pub parent_run_id: Option<RunId>,
    /// The run that this one repeats.
    pub retry_of_run_id: Option<RunId>,
    /// The scope in which the run is visible.
    pub scope: Json,
    /// Whatever the client adds.
    pub metadata: Json,
    /// The input of the run.
    pub input: Option<Json>,
    /// Entries to record with the start.
    pub entries: Vec<EntryWrite>,
    /// A claim to the run's lease.
    pub lease: Option<LeaseClaim>,
}

/// The mathematical view of [`RunStart`].
#[verifier::ext_equal]
pub struct RunStartView {
    pub run_id: Seq<char>,
    pub session_id: Seq<char>,
    pub thread_id: Seq<char>,
    pub agent_kind: Seq<char>,
    pub model: Option<Seq<char>>,
    pub client_run_key: Option<Seq<char>>,
    pub parent_run_id: Option<Seq<char>>,
    pub retry_of_run_id: Option<Seq<char>>,
    pub scope: Seq<char>,
    pub metadata: Seq<char>,
    pub input: Option<Seq<char>>,
    pub entries: Seq<EntryWriteView>,
    pub lease: Option<LeaseClaimView>,
}

impl View for RunStart {
    type V = RunStartView;

    open spec fn view(&self) -> RunStartView {
        RunStartView {
            run_id: self.run_id@,
            session_id: self.session_id@,
            thread_id: self.thread_id@,
            agent_kind: self.agent_kind@,
            model: opt(self.model),
            client_run_key: opt(self.client_run_key),
            parent_run_id: opt(self.parent_run_id),
            retry_of_run_id: opt(self.retry_of_run_id),
            scope: self.scope@,
            metadata: self.metadata@,
            input: opt(self.input),
            entries: views(self.entries@),
            lease: opt(self.lease),
        }
    }
}

impl Clone for RunStart {
    fn clone(&self) -> (copy: Self)
        ensures
            copy@ == self@,
    {
        let copy = RunStart {
            run_id: self.run_id.clone(),
            session_id: self.session_id.clone(),
            thread_id: self.thread_id.clone(),
            agent_kind: self.agent_kind.clone(),
            model: self.model.clone(),
            client_run_key: self.client_run_key.clone(),
            parent_run_id: self.parent_run_id.clone(),
            retry_of_run_id: self.retry_of_run_id.clone(),
            scope: self.scope.clone(),
            metadata: self.metadata.clone(),
            input: self.input.clone(),
            entries: self.entries.clone(),
            lease: self.lease.clone(),
        };
        assert(copy.entries@ =~= self.entries@);
        copy
    }
}

/// The end of a run, with the event that ends it.
#[derive(Debug)]
pub struct RunFinishRecord<E, D> {
    /// The run.
    pub run_id: RunId,
    /// Its session.
    pub session_id: SessionId,
    /// Its scope.
    pub scope: Json,
    /// How it ended.
    pub status: RunStatus,
    /// Why it ended.
    pub finish_reason: String,
    /// The code of its failure.
    pub error_code: Option<String>,
    /// Entries to record with the end.
    pub entries: Vec<EntryWrite>,
    /// The event that ends it.
    pub terminal_event: E,
    /// Whatever the client adds.
    pub data: D,
}

/// The mathematical view of [`RunFinishRecord`].
#[verifier::ext_equal]
pub struct RunFinishRecordView<E, D> {
    pub run_id: Seq<char>,
    pub session_id: Seq<char>,
    pub scope: Seq<char>,
    pub status: RunStatus,
    pub finish_reason: Seq<char>,
    pub error_code: Option<Seq<char>>,
    pub entries: Seq<EntryWriteView>,
    pub terminal_event: E,
    pub data: D,
}

impl<E, D> View for RunFinishRecord<E, D> {
    type V = RunFinishRecordView<E, D>;

    open spec fn view(&self) -> RunFinishRecordView<E, D> {
        RunFinishRecordView {
            run_id: self.run_id@,
            session_id: self.session_id@,
            scope: self.scope@,
            status: self.status,
            finish_reason: self.finish_reason@,
            error_code: opt(self.error_code),
            entries: views(self.entries@),
            terminal_event: self.terminal_event,
            data: self.data,
        }
    }
}

/// The end of a run.
#[derive(Debug)]
pub struct RunFinish<D> {
    /// The run.
    pub run_id: RunId,
    /// Its session.
    pub session_id: SessionId,
    /// Its scope.
    pub scope: Json,
    /// How it ended.
    pub status: RunStatus,
    /// Why it ended.
    pub finish_reason: String,
    /// The code of its failure.
    pub error_code: Option<String>,
    /// Entries to record with the end.
    pub entries: Vec<EntryWrite>,
    /// Whatever the client adds.
    pub data: D,
}

/// The mathematical view of [`RunFinish`].
#[verifier::ext_equal]
pub struct RunFinishView<D> {
    pub run_id: Seq<char>,
    pub session_id: Seq<char>,
    pub scope: Seq<char>,
    pub status: RunStatus,
    pub finish_reason: Seq<char>,
    pub error_code: Option<Seq<char>>,
    pub entries: Seq<EntryWriteView>,
    pub data: D,
}

impl<D> View for RunFinish<D> {
    type V = RunFinishView<D>;

    open spec fn view(&self) -> RunFinishView<D> {
        RunFinishView {
            run_id: self.run_id@,
            session_id: self.session_id@,
            scope: self.scope@,
            status: self.status,
            finish_reason: self.finish_reason@,
            error_code: opt(self.error_code),
            entries: views(self.entries@),
            data: self.data,
        }
    }
}

impl<D> RunFinish<D> {
    /// The end of the run with the event that ends it.
    pub fn into_record<E>(self, terminal_event: E) -> (record: RunFinishRecord<E, D>)
        ensures
            record@ == self@.record(terminal_event),
    {
        RunFinishRecord {
            run_id: self.run_id,
            session_id: self.session_id,
            scope: self.scope,
            status: self.status,
            finish_reason: self.finish_reason,
            error_code: self.error_code,
            entries: self.entries,
            terminal_event,
            data: self.data,
        }
    }
}

impl<D> RunFinishView<D> {
    /// The end of the run with the event that ends it.
    pub open spec fn record<E>(self, terminal_event: E) -> RunFinishRecordView<E, D> {
        RunFinishRecordView {
            run_id: self.run_id,
            session_id: self.session_id,
            scope: self.scope,
            status: self.status,
            finish_reason: self.finish_reason,
            error_code: self.error_code,
            entries: self.entries,
            terminal_event,
            data: self.data,
        }
    }
}

/// A checkpoint to save.
#[derive(Debug)]
pub struct CheckpointWrite {
    /// The thread.
    pub thread_id: ThreadId,
    /// What to save of it.
    pub record: CheckpointRecord,
}

/// The mathematical view of [`CheckpointWrite`].
#[verifier::ext_equal]
pub struct CheckpointWriteView {
    pub thread_id: Seq<char>,
    pub record: CheckpointRecordView,
}

impl View for CheckpointWrite {
    type V = CheckpointWriteView;

    open spec fn view(&self) -> CheckpointWriteView {
        CheckpointWriteView {
            thread_id: self.thread_id@,
            record: self.record@,
        }
    }
}

impl Clone for CheckpointWrite {
    fn clone(&self) -> (copy: Self)
        ensures
            copy == *self,
    {
        CheckpointWrite {
            thread_id: self.thread_id.clone(),
            record: self.record.clone(),
        }
    }
}

impl CheckpointWrite {
    /// A checkpoint to save.
    pub fn new(thread_id: ThreadId, record: CheckpointRecord) -> (write: Self)
        ensures
            write == (CheckpointWrite { thread_id, record }),
    {
        CheckpointWrite { thread_id, record }
    }
}

/// What a run writes in one step: all of it, or nothing.
#[derive(Debug)]
pub struct RunCommit<E, D> {
    /// The run.
    pub run_id: RunId,
    /// Its session.
    pub session_id: SessionId,
    /// Its scope.
    pub scope: Json,
    /// The lease under which it writes.
    pub lease: Option<LeaseId>,
    /// The checkpoint of its thread.
    pub checkpoint: Option<CheckpointWrite>,
    /// Events, in order.
    pub events: Vec<E>,
    /// New statuses of effects.
    pub effects: Vec<EffectUpdate>,
    /// Items.
    pub items: Vec<ItemWrite>,
    /// Entries of the session.
    pub entries: Vec<EntryWrite>,
    /// The end of the run.
    pub finish: Option<RunFinish<D>>,
}

/// The mathematical view of [`RunCommit`].
#[verifier::ext_equal]
pub struct RunCommitView<E, D> {
    pub run_id: Seq<char>,
    pub session_id: Seq<char>,
    pub scope: Seq<char>,
    pub lease: Option<Seq<char>>,
    pub checkpoint: Option<CheckpointWriteView>,
    pub events: Seq<E>,
    pub effects: Seq<EffectUpdateView>,
    pub items: Seq<ItemWriteView>,
    pub entries: Seq<EntryWriteView>,
    pub finish: Option<RunFinishView<D>>,
}

impl<E, D> View for RunCommit<E, D> {
    type V = RunCommitView<E, D>;

    open spec fn view(&self) -> RunCommitView<E, D> {
        RunCommitView {
            run_id: self.run_id@,
            session_id: self.session_id@,
            scope: self.scope@,
            lease: opt(self.lease),
            checkpoint: opt(self.checkpoint),
            events: self.events@,
            effects: views(self.effects@),
            items: views(self.items@),
            entries: views(self.entries@),
            finish: opt(self.finish),
        }
    }
}

/// A commit whose events are still to be built.
#[derive(Debug)]
pub struct CommitPlan<D> {
    /// The lease under which the run writes.
    pub lease: Option<LeaseId>,
    /// The checkpoint of its thread.
    pub checkpoint: Option<CheckpointWrite>,
    /// How many events to build.
    pub event_count: usize,
    /// New statuses of effects.
    pub effects: Vec<EffectUpdate>,
    /// Items.
    pub items: Vec<ItemWrite>,
    /// Entries of the session.
    pub entries: Vec<EntryWrite>,
    /// The end of the run.
    pub finish: Option<RunFinish<D>>,
}

/// The mathematical view of [`CommitPlan`].
#[verifier::ext_equal]
pub struct CommitPlanView<D> {
    pub lease: Option<Seq<char>>,
    pub checkpoint: Option<CheckpointWriteView>,
    pub event_count: nat,
    pub effects: Seq<EffectUpdateView>,
    pub items: Seq<ItemWriteView>,
    pub entries: Seq<EntryWriteView>,
    pub finish: Option<RunFinishView<D>>,
}

impl<D> View for CommitPlan<D> {
    type V = CommitPlanView<D>;

    open spec fn view(&self) -> CommitPlanView<D> {
        CommitPlanView {
            lease: opt(self.lease),
            checkpoint: opt(self.checkpoint),
            event_count: self.event_count as nat,
            effects: views(self.effects@),
            items: views(self.items@),
            entries: views(self.entries@),
            finish: opt(self.finish),
        }
    }
}

/// What a store tells of a run.
#[derive(Debug)]
pub struct RunLookup {
    /// The run.
    pub run_id: RunId,
    /// Its session.
    pub session_id: SessionId,
    /// Its thread.
    pub thread_id: ThreadId,
    /// How far it has come.
    pub status: RunStatus,
    /// Why it ended.
    pub finish_reason: Option<String>,
    /// Whether it was asked to stop.
    pub cancel_requested: bool,
    /// The worker that holds its lease.
    pub owner: Option<WorkerId>,
}

/// The mathematical view of [`RunLookup`].
#[verifier::ext_equal]
pub struct RunLookupView {
    pub run_id: Seq<char>,
    pub session_id: Seq<char>,
    pub thread_id: Seq<char>,
    pub status: RunStatus,
    pub finish_reason: Option<Seq<char>>,
    pub cancel_requested: bool,
    pub owner: Option<Seq<char>>,
}

impl View for RunLookup {
    type V = RunLookupView;

    open spec fn view(&self) -> RunLookupView {
        RunLookupView {
            run_id: self.run_id@,
            session_id: self.session_id@,
            thread_id: self.thread_id@,
            status: self.status,
            finish_reason: opt(self.finish_reason),
            cancel_requested: self.cancel_requested,
            owner: opt(self.owner),
        }
    }
}

impl Clone for RunLookup {
    fn clone(&self) -> (copy: Self)
        ensures
            copy == *self,
    {
        RunLookup {
            run_id: self.run_id.clone(),
            session_id: self.session_id.clone(),
            thread_id: self.thread_id.clone(),
            status: self.status,
            finish_reason: self.finish_reason.clone(),
            cancel_requested: self.cancel_requested,
            owner: self.owner.clone(),
        }
    }
}

/// How a finish ended.
#[derive(Debug)]
pub enum FinishRunResult<E> {
    /// The run ended with this event.
    Finished(E),
    /// The run had ended before, with this event.
    AlreadyFinished(E),
}

impl<E> FinishRunResult<E> {
    /// The event that ended the run.
    pub open spec fn event(self) -> E {
        match self {
            FinishRunResult::Finished(event) => event,
            FinishRunResult::AlreadyFinished(event) => event,
        }
    }

    /// Whether the run ended now.
    pub fn is_finished(&self) -> (finished: bool)
        ensures
            finished == (self is Finished),
    {
        matches!(self, FinishRunResult::Finished(_))
    }

    /// Whether the run had ended before.
    pub fn is_already_finished(&self) -> (finished: bool)
        ensures
            finished == (self is AlreadyFinished),
    {
        matches!(self, FinishRunResult::AlreadyFinished(_))
    }

    /// The event that ended the run.
    pub fn terminal_event(&self) -> (event: &E)
        ensures
            *event == self.event(),
    {
        match self {
            FinishRunResult::Finished(event) => event,
            FinishRunResult::AlreadyFinished(event) => event,
        }
    }

    /// The event that ended the run.
    pub fn into_terminal_event(self) -> (event: E)
        ensures
            event == self.event(),
    {
        match self {
            FinishRunResult::Finished(event) => event,
            FinishRunResult::AlreadyFinished(event) => event,
        }
    }
}

/// How a commit ended.
#[derive(Debug)]
pub enum RunCommitResult<E> {
    /// The events were recorded.
    Recorded(Vec<E>),
    /// The run has ended.
    Finished { events: Vec<E>, result: FinishRunResult<E> },
    /// Nothing was written.
    Skipped,
}

/// The mathematical view of [`RunCommitResult`].
#[verifier::ext_equal]
pub enum RunCommitResultView<E> {
    Recorded(Seq<E>),
    Finished { events: Seq<E>, result: FinishRunResult<E> },
    Skipped,
}

impl<E> View for RunCommitResult<E> {
    type V = RunCommitResultView<E>;

    open spec fn view(&self) -> RunCommitResultView<E> {
        match *self {
            RunCommitResult::Recorded(events) => RunCommitResultView::Recorded(events@),
            RunCommitResult::Finished { events, result } => RunCommitResultView::Finished {
                events: events@,
                result,
            },
            RunCommitResult::Skipped => RunCommitResultView::Skipped,
        }
    }
}

impl<E> RunCommitResultView<E> {
    /// The events of the commit.
    pub open spec fn events(self) -> Seq<E> {
        match self {
            RunCommitResultView::Recorded(events) => events,
            RunCommitResultView::Finished { events, .. } => events,
            RunCommitResultView::Skipped => Seq::empty(),
        }
    }
}

impl<E> RunCommitResult<E> {
    /// How the finish ended, where the run has ended.
    pub open spec fn outcome(self) -> Option<FinishRunResult<E>> {
        match self {
            RunCommitResult::Finished { result, .. } => Some(result),
            _ => None,
        }
    }

    /// Whether nothing was written.
    pub fn is_skipped(&self) -> (skipped: bool)
        ensures
            skipped == (self is Skipped),
    {
        matches!(self, RunCommitResult::Skipped)
    }

    /// The events of the commit.
    pub fn events(&self) -> (events: &[E])
        ensures
            events@ == self@.events(),
    {
        match self {
            RunCommitResult::Recorded(events) => events.as_slice(),
            RunCommitResult::Finished { events, .. } => events.as_slice(),
            RunCommitResult::Skipped => {
                let none: &[E] = &[];
                assert(none@ =~= Seq::empty());
                none
            },
        }
    }

    /// How the finish ended, where the run has ended.
    pub fn finish_result(&self) -> (result: Option<&FinishRunResult<E>>)
        ensures
            match result {
                Some(finished) => self.outcome() == Some(*finished),
                None => self.outcome() is None,
            },
    {
        match self {
            RunCommitResult::Finished { result, .. } => Some(result),
            _ => None,
        }
    }
}

/// How a start ended.
#[derive(Debug)]
pub enum StoreStartResult {
    /// The run was started.
    Created,
    /// The run had been started before.
    Existing(RunLookup),
}

/// The mathematical view of [`StoreStartResult`].
pub enum StoreStartResultView {
    Created,
    Existing(RunLookupView),
}

impl View for StoreStartResult {
    type V = StoreStartResultView;

    open spec fn view(&self) -> StoreStartResultView {
        match *self {
            StoreStartResult::Created => StoreStartResultView::Created,
            StoreStartResult::Existing(lookup) => StoreStartResultView::Existing(lookup@),
        }
    }
}

/// Whether two runs were started with the same input and the same entries.
pub fn same_start(
    input: &Option<Json>,
    entries: &Vec<EntryWrite>,
    other_input: &Option<Json>,
    other_entries: &Vec<EntryWrite>,
) -> (same: bool)
    ensures
        same == (opt(*input) == opt(*other_input) && views(entries@) == views(other_entries@)),
{
    if !same_optional_json(input, other_input) {
        return false;
    }
    if entries.len() != other_entries.len() {
        assert(views(entries@).len() != views(other_entries@).len());
        return false;
    }
    let mut i: usize = 0;
    while i < entries.len()
        invariant
            i <= entries.len(),
            entries.len() == other_entries.len(),
            forall|j: int| 0 <= j < i ==> views(entries@)[j] == views(other_entries@)[j],
        decreases entries.len() - i,
    {
        if !entries[i].same(&other_entries[i]) {
            assert(views(entries@)[i as int] != views(other_entries@)[i as int]);
            return false;
        }
        i = i + 1;
    }
    assert(views(entries@) =~= views(other_entries@));
    true
}

} // verus!
