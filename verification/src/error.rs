//! What can go wrong.

use vstd::prelude::*;
use vstd::string::StringExecFns;

use crate::ids::{RunId, WorkerId};
use crate::text::{decimal, decimal_text, opt, views};

verus! {

/// Why an operation failed.
#[derive(Debug)]
pub enum MachineError {
    /// The checkpoint database failed.
    CheckpointDb(String),
    /// No connection to the checkpoint database was free.
    CheckpointPool(String),
    /// The run store's database failed.
    StoreDb(String),
    /// A value could not be written as JSON.
    Serialization(String),
    /// A JSON value could not be read.
    Deserialization(String),
    /// A turn took more steps than it may.
    MaxStepsExceeded { max: u32 },
    /// As many runs as may be are in flight.
    CapacityExceeded,
    /// The run is active here already.
    RunAlreadyActive,
    /// The lease that a write needs is not held.
    LeaseLost,
    /// The run is active on another worker.
    NotOwner { owner: Option<WorkerId> },
    /// Another run holds the thread.
    ThreadBusy { owner: Option<WorkerId>, run: Option<RunId> },
    /// There is no such run in the scope.
    RunNotFound,
    /// An event or a commit breaks the rules of its run.
    InvalidRunEvent { reason: String },
    /// A run was started before with another input.
    StartConflict,
    /// An effect was recorded before with other contents.
    EffectConflict,
    /// There is no such effect.
    EffectNotFound,
    /// An effect is under way, or its outcome is unknown.
    EffectPending,
    /// An item was recorded before with other contents.
    ItemConflict,
    /// An entry was recorded before with other contents.
    EntryConflict,
    /// A page must hold at least one item.
    InvalidPageLimit,
    /// The run has no runtime operations.
    RuntimeOpUnavailable,
    /// The run was cancelled.
    Cancelled,
    /// Nobody receives the stream any more.
    StreamClosed,
    /// A checkpoint with an interrupt has no state.
    NoCheckpointState,
    /// There is no interrupt to resume from.
    NoPendingInterrupt,
    /// A checkpoint with an interrupt names no step.
    NoInterruptedStep,
    /// The interrupt of a checkpoint cannot be read.
    InvalidInterrupt { reason: String },
    /// The step of a checkpoint cannot be read.
    InvalidStep { reason: String },
    /// A transition of the machine failed.
    Transition(String),
}

/// The mathematical view of an error.
pub enum ErrorView {
    CheckpointDb(Seq<char>),
    CheckpointPool(Seq<char>),
    StoreDb(Seq<char>),
    Serialization(Seq<char>),
    Deserialization(Seq<char>),
    MaxStepsExceeded { max: u32 },
    CapacityExceeded,
    RunAlreadyActive,
    LeaseLost,
    NotOwner { owner: Option<Seq<char>> },
    ThreadBusy { owner: Option<Seq<char>>, run: Option<Seq<char>> },
    RunNotFound,
    InvalidRunEvent { reason: Seq<char> },
    StartConflict,
    EffectConflict,
    EffectNotFound,
    EffectPending,
    ItemConflict,
    EntryConflict,
    InvalidPageLimit,
    RuntimeOpUnavailable,
    Cancelled,
    StreamClosed,
    NoCheckpointState,
    NoPendingInterrupt,
    NoInterruptedStep,
    InvalidInterrupt { reason: Seq<char> },
    InvalidStep { reason: Seq<char> },
    Transition(Seq<char>),
}

impl View for MachineError {
    type V = ErrorView;

    open spec fn view(&self) -> ErrorView {
        match *self {
            MachineError::CheckpointDb(text) => ErrorView::CheckpointDb(text@),
            MachineError::CheckpointPool(text) => ErrorView::CheckpointPool(text@),
            MachineError::StoreDb(text) => ErrorView::StoreDb(text@),
            MachineError::Serialization(text) => ErrorView::Serialization(text@),
            MachineError::Deserialization(text) => ErrorView::Deserialization(text@),
            MachineError::MaxStepsExceeded { max } => ErrorView::MaxStepsExceeded { max },
            MachineError::CapacityExceeded => ErrorView::CapacityExceeded,
            MachineError::RunAlreadyActive => ErrorView::RunAlreadyActive,
            MachineError::LeaseLost => ErrorView::LeaseLost,
            MachineError::NotOwner { owner } => ErrorView::NotOwner { owner: opt(owner) },
            MachineError::ThreadBusy { owner, run } => {
                ErrorView::ThreadBusy { owner: opt(owner), run: opt(run) }
            },
            MachineError::RunNotFound => ErrorView::RunNotFound,
            MachineError::InvalidRunEvent { reason } => {
                ErrorView::InvalidRunEvent { reason: reason@ }
            },
            MachineError::StartConflict => ErrorView::StartConflict,
            MachineError::EffectConflict => ErrorView::EffectConflict,
            MachineError::EffectNotFound => ErrorView::EffectNotFound,
            MachineError::EffectPending => ErrorView::EffectPending,
            MachineError::ItemConflict => ErrorView::ItemConflict,
            MachineError::EntryConflict => ErrorView::EntryConflict,
            MachineError::InvalidPageLimit => ErrorView::InvalidPageLimit,
            MachineError::RuntimeOpUnavailable => ErrorView::RuntimeOpUnavailable,
            MachineError::Cancelled => ErrorView::Cancelled,
            MachineError::StreamClosed => ErrorView::StreamClosed,
            MachineError::NoCheckpointState => ErrorView::NoCheckpointState,
            MachineError::NoPendingInterrupt => ErrorView::NoPendingInterrupt,
            MachineError::NoInterruptedStep => ErrorView::NoInterruptedStep,
            MachineError::InvalidInterrupt { reason } => {
                ErrorView::InvalidInterrupt { reason: reason@ }
            },
            MachineError::InvalidStep { reason } => ErrorView::InvalidStep { reason: reason@ },
            MachineError::Transition(text) => ErrorView::Transition(text@),
        }
    }
}

impl ErrorView {
    /// The message of an error.
    pub open spec fn message(self) -> Seq<char> {
        match self {
            ErrorView::CheckpointDb(text) => "checkpoint database error: "@ + text,
            ErrorView::CheckpointPool(text) => "checkpoint pool exhausted: "@ + text,
            ErrorView::StoreDb(text) => "store database error: "@ + text,
            ErrorView::Serialization(text) => "serialization failed: "@ + text,
            ErrorView::Deserialization(text) => "deserialization failed: "@ + text,
            ErrorView::MaxStepsExceeded { max } => {
                "max steps exceeded ("@ + decimal(max as nat) + ")"@
            },
            ErrorView::CapacityExceeded => "too many in-flight runs"@,
            ErrorView::RunAlreadyActive => "run is already active"@,
            ErrorView::LeaseLost => "run lease lost"@,
            ErrorView::NotOwner { .. } => "run is owned by another worker"@,
            ErrorView::ThreadBusy { .. } => "thread is busy"@,
            ErrorView::RunNotFound => "run not found"@,
            ErrorView::InvalidRunEvent { reason } => "invalid run event: "@ + reason,
            ErrorView::StartConflict => "run start conflicts with an existing run"@,
            ErrorView::EffectConflict => "effect conflicts with a recorded effect"@,
            ErrorView::EffectNotFound => "effect not found"@,
            ErrorView::EffectPending => "effect is pending"@,
            ErrorView::ItemConflict => "item conflicts with a recorded item"@,
            ErrorView::EntryConflict => "entry conflicts with a recorded entry"@,
            ErrorView::InvalidPageLimit => "page limit must be positive"@,
            ErrorView::RuntimeOpUnavailable => "runtime operation unavailable"@,
            ErrorView::Cancelled => "run cancelled"@,
            ErrorView::StreamClosed => "stream receiver closed"@,
            ErrorView::NoCheckpointState => "checkpoint has pending interrupt but no state"@,
            ErrorView::NoPendingInterrupt => {
                "resume requested but checkpoint has no pending interrupt"@
            },
            ErrorView::NoInterruptedStep => {
                "checkpoint has pending interrupt but no interrupted step"@
            },
            ErrorView::InvalidInterrupt { reason } => {
                "checkpoint has invalid interrupt payload: "@ + reason
            },
            ErrorView::InvalidStep { reason } => "checkpoint has invalid step payload: "@ + reason,
            ErrorView::Transition(text) => "machine transition failed: "@ + text,
        }
    }

    /// The code under which an error is recorded.
    pub open spec fn code(self) -> Seq<char> {
        match self {
            ErrorView::CheckpointDb(_) => "checkpoint_db"@,
            ErrorView::CheckpointPool(_) => "checkpoint_pool"@,
            ErrorView::StoreDb(_) => "store_db"@,
            ErrorView::Serialization(_) => "serialization"@,
            ErrorView::Deserialization(_) => "deserialization"@,
            ErrorView::MaxStepsExceeded { .. } => "max_steps_exceeded"@,
            ErrorView::CapacityExceeded => "capacity_exceeded"@,
            ErrorView::RunAlreadyActive => "run_already_active"@,
            ErrorView::LeaseLost => "lease_lost"@,
            ErrorView::NotOwner { .. } => "not_owner"@,
            ErrorView::ThreadBusy { .. } => "thread_busy"@,
            ErrorView::RunNotFound => "run_not_found"@,
            ErrorView::InvalidRunEvent { .. } => "invalid_run_event"@,
            ErrorView::StartConflict => "start_conflict"@,
            ErrorView::EffectConflict => "effect_conflict"@,
            ErrorView::EffectNotFound => "effect_not_found"@,
            ErrorView::EffectPending => "effect_pending"@,
            ErrorView::ItemConflict => "item_conflict"@,
            ErrorView::EntryConflict => "entry_conflict"@,
            ErrorView::InvalidPageLimit => "invalid_page_limit"@,
            ErrorView::RuntimeOpUnavailable => "runtime_op_unavailable"@,
            ErrorView::Cancelled => "cancelled"@,
            ErrorView::StreamClosed => "stream_closed"@,
            ErrorView::NoCheckpointState => "no_checkpoint_state"@,
            ErrorView::NoPendingInterrupt => "no_pending_interrupt"@,
            ErrorView::NoInterruptedStep => "no_interrupted_step"@,
            ErrorView::InvalidInterrupt { .. } => "invalid_interrupt"@,
            ErrorView::InvalidStep { .. } => "invalid_step"@,
            ErrorView::Transition(_) => "transition"@,
        }
    }
}

impl MachineError {
    /// A failed transition, with the message of its cause.
    pub fn transition(source: String) -> (error: MachineError)
        ensures
            error@ == ErrorView::Transition(source@),
    {
        MachineError::Transition(source)
    }

    /// An event or a commit that breaks a rule.
    pub fn invalid_run_event(reason: &str) -> (error: MachineError)
        ensures
            error@ == (ErrorView::InvalidRunEvent { reason: reason@ }),
    {
        MachineError::InvalidRunEvent { reason: reason.to_owned() }
    }

    /// The message for a reader.
    pub fn message(&self) -> (text: String)
        ensures
            text@ == self@.message(),
    {
        match self {
            MachineError::CheckpointDb(text) => {
                "checkpoint database error: ".to_owned().concat(text.as_str())
            },
            MachineError::CheckpointPool(text) => {
                "checkpoint pool exhausted: ".to_owned().concat(text.as_str())
            },
            MachineError::StoreDb(text) => {
                "store database error: ".to_owned().concat(text.as_str())
            },
            MachineError::Serialization(text) => {
                "serialization failed: ".to_owned().concat(text.as_str())
            },
            MachineError::Deserialization(text) => {
                "deserialization failed: ".to_owned().concat(text.as_str())
            },
            MachineError::MaxStepsExceeded { max } => {
                "max steps exceeded (".to_owned()
                    .concat(decimal_text(*max as u64).as_str())
                    .concat(")")
            },
            MachineError::CapacityExceeded => "too many in-flight runs".to_owned(),
            MachineError::RunAlreadyActive => "run is already active".to_owned(),
            MachineError::LeaseLost => "run lease lost".to_owned(),
            MachineError::NotOwner { .. } => "run is owned by another worker".to_owned(),
            MachineError::ThreadBusy { .. } => "thread is busy".to_owned(),
            MachineError::RunNotFound => "run not found".to_owned(),
            MachineError::InvalidRunEvent { reason } => {
                "invalid run event: ".to_owned().concat(reason.as_str())
            },
            MachineError::StartConflict => "run start conflicts with an existing run".to_owned(),
            MachineError::EffectConflict => "effect conflicts with a recorded effect".to_owned(),
            MachineError::EffectNotFound => "effect not found".to_owned(),
            MachineError::EffectPending => "effect is pending".to_owned(),
            MachineError::ItemConflict => "item conflicts with a recorded item".to_owned(),
            MachineError::EntryConflict => "entry conflicts with a recorded entry".to_owned(),
            MachineError::InvalidPageLimit => "page limit must be positive".to_owned(),
            MachineError::RuntimeOpUnavailable => "runtime operation unavailable".to_owned(),
            MachineError::Cancelled => "run cancelled".to_owned(),
            MachineError::StreamClosed => "stream receiver closed".to_owned(),
            MachineError::NoCheckpointState => {
                "checkpoint has pending interrupt but no state".to_owned()
            },
            MachineError::NoPendingInterrupt => {
                "resume requested but checkpoint has no pending interrupt".to_owned()
            },
            MachineError::NoInterruptedStep => {
                "checkpoint has pending interrupt but no interrupted step".to_owned()
            },
            MachineError::InvalidInterrupt { reason } => {
                "checkpoint has invalid interrupt payload: ".to_owned().concat(reason.as_str())
            },
            MachineError::InvalidStep { reason } => {
                "checkpoint has invalid step payload: ".to_owned().concat(reason.as_str())
            },
            MachineError::Transition(text) => {
                "machine transition failed: ".to_owned().concat(text.as_str())
            },
        }
    }
}

/// The code under which an error is recorded.
pub fn error_code(error: &MachineError) -> (code: &'static str)
    ensures
        code@ == error@.code(),
{
    match error {
        MachineError::CheckpointDb(_) => "checkpoint_db",
        MachineError::CheckpointPool(_) => "checkpoint_pool",
        MachineError::StoreDb(_) => "store_db",
        MachineError::Serialization(_) => "serialization",
        MachineError::Deserialization(_) => "deserialization",
        MachineError::MaxStepsExceeded { .. } => "max_steps_exceeded",
        MachineError::CapacityExceeded => "capacity_exceeded",
        MachineError::RunAlreadyActive => "run_already_active",
        MachineError::LeaseLost => "lease_lost",
        MachineError::NotOwner { .. } => "not_owner",
        MachineError::ThreadBusy { .. } => "thread_busy",
        MachineError::RunNotFound => "run_not_found",
        MachineError::InvalidRunEvent { .. } => "invalid_run_event",
        MachineError::StartConflict => "start_conflict",
        MachineError::EffectConflict => "effect_conflict",
        MachineError::EffectNotFound => "effect_not_found",
        MachineError::EffectPending => "effect_pending",
        MachineError::ItemConflict => "item_conflict",
        MachineError::EntryConflict => "entry_conflict",
        MachineError::InvalidPageLimit => "invalid_page_limit",
        MachineError::RuntimeOpUnavailable => "runtime_op_unavailable",
        MachineError::Cancelled => "cancelled",
        MachineError::StreamClosed => "stream_closed",
        MachineError::NoCheckpointState => "no_checkpoint_state",
        MachineError::NoPendingInterrupt => "no_pending_interrupt",
        MachineError::NoInterruptedStep => "no_interrupted_step",
        MachineError::InvalidInterrupt { .. } => "invalid_interrupt",
        MachineError::InvalidStep { .. } => "invalid_step",
        MachineError::Transition(_) => "transition",
    }
}

/// The view of the error of a result, where there is one.
pub open spec fn failure<T>(result: Result<T, MachineError>) -> Option<ErrorView> {
    match result {
        Ok(_) => None,
        Err(error) => Some(error@),
    }
}

/// A result with the view of its error.
pub open spec fn plain<T>(result: Result<T, MachineError>) -> Result<T, ErrorView> {
    match result {
        Ok(value) => Ok(value),
        Err(error) => Err(error@),
    }
}

/// A result with the view of its value or of its error.
pub open spec fn seen<T: View>(result: Result<T, MachineError>) -> Result<T::V, ErrorView> {
    match result {
        Ok(value) => Ok(value@),
        Err(error) => Err(error@),
    }
}

/// A result with the view of its value, where it has one, or of its error.
pub open spec fn seen_opt<T: View>(result: Result<Option<T>, MachineError>) -> Result<
    Option<T::V>,
    ErrorView,
> {
    match result {
        Ok(value) => Ok(opt(value)),
        Err(error) => Err(error@),
    }
}

/// A result with the views of its values or of its error.
pub open spec fn seen_all<T: View>(result: Result<Vec<T>, MachineError>) -> Result<
    Seq<T::V>,
    ErrorView,
> {
    match result {
        Ok(values) => Ok(views(values@)),
        Err(error) => Err(error@),
    }
}

/// The error of an event or a commit that breaks a rule.
pub open spec fn invalid(reason: Seq<char>) -> ErrorView {
    ErrorView::InvalidRunEvent { reason }
}

} // verus!
