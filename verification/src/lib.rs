//! A typed state-machine runtime: runs, checkpoints, leases and their stores.

pub mod text;
pub mod ids;
pub mod zero;
pub mod json;
pub mod json_laws;
pub mod error;
pub mod table;
pub mod op;
pub mod checkpoint;
pub mod store;
pub mod model;
pub mod listing;
pub mod validate;
pub mod entries;
pub mod store_view;
pub mod store_laws;
pub mod laws;
pub mod fit;
pub mod write_laws;
pub mod commit_laws;
pub mod start_laws;
pub mod op_laws;
pub mod lease_laws;
pub mod read_laws;
pub mod text_laws;
pub mod memory;
pub mod reap_laws;
pub mod channel;
pub mod flag;
pub mod registry;
pub mod life_view;
pub mod flow;
pub mod lifecycle;
pub mod run;
pub mod machine;
pub mod runner;
pub mod cancel;
pub mod payload;
pub mod pending;
pub mod runtime;
pub mod tx;
pub mod bridge;
pub mod rows;
pub mod listen_laws;
pub mod life_laws;
pub mod turn_laws;
pub mod step_laws;
pub mod tx_laws;
pub mod refusal_laws;
pub mod accept_laws;
pub mod pending_laws;
pub mod view_laws;
pub mod stream_laws;
pub mod row_laws;
pub mod writes;
pub mod db_laws;

pub use checkpoint::{CheckpointRecord, MemorySaver};
pub use error::MachineError;
pub use flow::StartRunResult;
pub use ids::{LeaseId, RunId, SessionId, ThreadId, WorkerId};
pub use json::Json;
pub use life_view::{AppendEventResult, StartRunRejection};
pub use lifecycle::{RunCursor, RunLifecycle, RunSubscription, RunTail};
pub use machine::{ResumeAction, Transition};
pub use memory::MemoryRunStore;
pub use payload::{Event, Payload};
pub use registry::{RunHandle, RunRegistry};
pub use run::{
    RunCommand, RunOutput, RunRequest, RunStreamEvent, RuntimeLimits, StepResult, StreamConfig,
};
pub use runtime::{LeaseCfg, Start, StartResult};
pub use store::{
    CheckpointWrite, CommitPlan, FinishRunResult, Lease, LeaseClaim, RunCommit, RunCommitResult,
    RunEvent, RunEventEnvelope, RunEventPayload, RunFinish, RunFinishRecord, RunLookup, RunStart,
    RunStatus, StoreStartResult,
};
