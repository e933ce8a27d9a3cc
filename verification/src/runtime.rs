//! Starting runs for a runtime, and the leases that it takes.

use vstd::prelude::*;

use crate::error::MachineError;
use crate::flow::StartRunResult;
use crate::ids::{LeaseId, RunId, SessionId, ThreadId, WorkerId};
use crate::json::Json;
use crate::life_view::StartRunRejection;
use crate::op::EntryWrite;
use crate::payload::{Event, Payload};
use crate::store::{
    Lease, LeaseClaim, LeaseClaimView, Nanos, RunEventEnvelope, RunLookup, RunStart, RunStartView,
};
use crate::text::{opt, views};

verus! {

/// How a runtime holds its leases.
#[derive(Debug)]
pub struct LeaseCfg {
    /// The worker that holds them.
    pub owner: WorkerId,
    /// How long a lease holds without being renewed.
    pub ttl: Nanos,
    /// After how long a lease is renewed.
    pub renew: Nanos,
}

impl LeaseCfg {
    /// Leases of thirty seconds, renewed every ten.
    pub open spec fn standard(owner: WorkerId) -> Self {
        LeaseCfg { owner, ttl: 30_000_000_000, renew: 10_000_000_000 }
    }

    /// Leases of thirty seconds, renewed every ten.
    pub fn new(owner: WorkerId) -> (cfg: Self)
        ensures
            cfg == LeaseCfg::standard(owner),
    {
        LeaseCfg { owner, ttl: 30_000_000_000, renew: 10_000_000_000 }
    }

    /// After how long a lease is renewed: a millisecond at least.
    pub open spec fn interval(&self) -> Nanos {
        if self.renew < 1_000_000 {
            1_000_000
        } else {
            self.renew
        }
    }

    /// After how long a lease is renewed: a millisecond at least.
    pub fn renew_interval(&self) -> (interval: Nanos)
        ensures
            interval == self.interval(),
    {
        if self.renew < 1_000_000 {
            1_000_000
        } else {
            self.renew
        }
    }

    /// The claim to the lease of a run, and the lease once it is claimed.
    pub fn claim(&self, run_id: &RunId, id: LeaseId) -> (claimed: (LeaseClaim, Lease))
        ensures
            claimed.0 == (LeaseClaim { owner: self.owner, id, ttl: self.ttl }),
            claimed.1 == (Lease { run: *run_id, owner: self.owner, id }),
    {
        (
            LeaseClaim::new(self.owner.clone(), id.clone(), self.ttl),
            Lease::new(run_id.clone(), self.owner.clone(), id),
        )
    }
}

impl Clone for LeaseCfg {
    fn clone(&self) -> (copy: Self)
        ensures
            copy == *self,
    {
        LeaseCfg { owner: self.owner.clone(), ttl: self.ttl, renew: self.renew }
    }
}

/// Whether a worker goes on renewing its lease after it tried: it does while the lease holds.
pub open spec fn still_held(renewed: Result<bool, MachineError>) -> bool {
    renewed matches Ok(held) && held
}

/// Whether a worker goes on renewing its lease after it tried: it does while the lease holds.
pub fn keeps_lease(renewed: &Result<bool, MachineError>) -> (keeps: bool)
    ensures
        keeps == still_held(*renewed),
{
    match renewed {
        Ok(held) => *held,
        Err(_) => false,
    }
}

/// What a client says of a run to start.
#[derive(Debug)]
pub struct Start {
    /// The scope in which the run is visible.
    pub scope: Json,
    /// What sort of agent runs.
    pub kind: String,
    /// The model that the agent uses.
    pub model: Option<String>,
    /// A key of the client's, under which the start happens once.
    pub key: Option<String>,
    /// The run that started this one.
    pub parent: Option<RunId>,
    /// The run that this one repeats.
    pub retry_of: Option<RunId>,
    /// Whatever the client adds.
    pub meta: Json,
    /// The token of the run's handle.
    pub token: Option<String>,
    /// Entries to record with the start.
    pub entries: Vec<EntryWrite>,
}

impl Start {
    /// A run of a sort of agent in a scope.
    pub fn new(scope: Json, kind: String) -> (start: Self)
        ensures
            start.scope == scope,
            start.kind == kind,
            start.model is None,
            start.key is None,
            start.parent is None,
            start.retry_of is None,
            start.meta@ == "{}"@,
            start.token is None,
            start.entries@.len() == 0,
    {
        Start {
            scope,
            kind,
            model: None,
            key: None,
            parent: None,
            retry_of: None,
            meta: Json::empty_object(),
            token: None,
            entries: Vec::new(),
        }
    }

    /// The run to start.
    pub open spec fn run(
        &self,
        run: Seq<char>,
        session: Seq<char>,
        thread: Seq<char>,
        input: Option<Seq<char>>,
        lease: Option<LeaseClaimView>,
    ) -> RunStartView {
        RunStartView {
            run_id: run,
            session_id: session,
            thread_id: thread,
            agent_kind: self.kind@,
            model: opt(self.model),
            client_run_key: opt(self.key),
            parent_run_id: opt(self.parent),
            retry_of_run_id: opt(self.retry_of),
            scope: self.scope@,
            metadata: self.meta@,
            input,
            entries: views(self.entries@),
            lease,
        }
    }

    /// The token of the handle of a run: the run's own name where none is given.
    pub open spec fn handle_token(&self, run: Seq<char>) -> Seq<char> {
        match self.token {
            Some(token) => token@,
            None => run,
        }
    }

    /// The run to start, and the token of its handle.
    pub fn into_run(
        self,
        run_id: &RunId,
        session_id: &SessionId,
        thread_id: &ThreadId,
        input: Option<Json>,
        lease: Option<LeaseClaim>,
    ) -> (run: (RunStart, String))
        ensures
            run.0@ == self.run(run_id@, session_id@, thread_id@, opt(input), opt(lease)),
            run.1@ == self.handle_token(run_id@),
    {
        let token = match self.token {
            Some(token) => token,
            None => run_id.as_str().to_owned(),
        };
        let run = RunStart {
            run_id: run_id.clone(),
            session_id: session_id.clone(),
            thread_id: thread_id.clone(),
            agent_kind: self.kind,
            model: self.model,
            client_run_key: self.key,
            parent_run_id: self.parent,
            retry_of_run_id: self.retry_of,
            scope: self.scope,
            metadata: self.meta,
            input,
            entries: self.entries,
            lease,
        };
        (run, token)
    }
}

/// How the start of a run for a client ended.
#[derive(Debug)]
pub enum StartResult<T> {
    /// The run was started, with what the client gets of it.
    Started(T),
    /// The run had been started before.
    Existing(RunLookup),
    /// The run was not started here.
    Rejected(StartRunRejection),
}

impl<T> StartResult<T> {
    /// The same with something else for the client.
    pub fn map_started<U, F: FnOnce(T) -> U>(self, f: F) -> (result: StartResult<U>)
        requires
            self matches StartResult::Started(value) ==> call_requires(f, (value,)),
        ensures
            match self {
                StartResult::Started(value) => result matches StartResult::Started(mapped)
                    && call_ensures(f, (value,), mapped),
                StartResult::Existing(existing) => result == StartResult::<U>::Existing(existing),
                StartResult::Rejected(rejection) => result == StartResult::<U>::Rejected(rejection),
            },
    {
        match self {
            StartResult::Started(value) => StartResult::Started(f(value)),
            StartResult::Existing(existing) => StartResult::Existing(existing),
            StartResult::Rejected(rejection) => StartResult::Rejected(rejection),
        }
    }
}

/// What a client is answered whose run was not started.
pub open spec fn answered<T>(result: StartRunResult) -> Option<StartResult<T>> {
    match result {
        StartRunResult::Started => None,
        StartRunResult::Existing(existing) => Some(StartResult::<T>::Existing(existing)),
        StartRunResult::NotRegistered(rejection) => Some(StartResult::Rejected(rejection)),
    }
}

/// What a client is answered whose run was not started.
pub fn not_started<T>(result: StartRunResult) -> (answer: Option<StartResult<T>>)
    ensures
        answer == answered::<T>(result),
{
    match result {
        StartRunResult::Started => None,
        StartRunResult::Existing(existing) => Some(StartResult::Existing(existing)),
        StartRunResult::NotRegistered(rejection) => Some(StartResult::Rejected(rejection)),
    }
}

/// Whether an event is the one with which a run ends whose lease has run out.
pub open spec fn expires(event: Event, run: RunLookup, seq: int) -> bool {
    &&& event.run_id == run.run_id
    &&& event.session_id == run.session_id
    &&& event.seq == seq
    &&& event.payload matches Payload::Fail { error } && error@ == "lease expired"@
}

/// The event with which a run ends whose lease has run out.
pub fn expiry_event(run: &RunLookup, seq: i64) -> (event: Event)
    ensures
        expires(event, *run, seq as int),
{
    RunEventEnvelope::new(
        run.run_id.clone(),
        run.session_id.clone(),
        seq,
        Payload::Fail { error: "lease expired".to_owned() },
    )
}

} // verus!
