use typemach::bridge::{append_answer, BridgeAction, BridgeEvent, BridgeState};
use typemach::cancel::CancelBook;
use typemach::checkpoint::{CheckpointRecord, MemorySaver};
use typemach::error::MachineError;
use typemach::ids::{LeaseId, RunId, SessionId, ThreadId, WorkerId};
use typemach::json::Json;
use typemach::life_view::StartRunRejection;
use typemach::lifecycle::{RunCursor, RunLifecycle, RunSubscription};
use typemach::machine::Transition;
use typemach::memory::MemoryRunStore;
use typemach::model::Clock;
use typemach::op::{EffectStatus, EffectUpdate, Entry, EntryQuery, EntryWrite, ItemWrite, Vis};
use typemach::payload::{event_record, Ending, Event, JsonStreamEvent, Payload};
use typemach::pending::{
    check_run, live_entry_commit, live_entry_result, PendingCheckpoints, PendingOps,
};
use typemach::registry::RunRegistry;
use typemach::run::{
    closing_event, output_of, RunOutput, RunStreamEvent, StepResult, StreamTerminal,
};
use typemach::runner::{step_record, Moved, Turn, TurnAction, TurnEvent};
use typemach::runtime::{expiry_event, not_started, LeaseCfg, Start, StartResult};
use typemach::store::{LeaseClaim, RunFinish, RunStart, RunStatus};
use typemach::tx::{answer_of, TxAction, TxCommit, TxEvent, TxState, TxTarget};

const MILLI: u128 = 1_000_000;
const SECOND: u128 = 1_000_000_000;

type Life = RunLifecycle<Event, ()>;

#[derive(Debug, Clone, Copy, PartialEq, Eq)]
enum Step {
    Start,
    Done,
    Loop,
    Slow,
}

impl Step {
    fn json(self) -> Json {
        Json::string(&format!("{self:?}"))
    }
}

#[derive(Debug, Clone, Copy, PartialEq, Eq)]
enum Mode {
    Complete,
    Interrupt,
    Loop,
    Slow,
    Ops,
    Progress,
    LiveSlow,
    LiveFail,
}

#[derive(Debug, Clone)]
struct Request {
    run_id: RunId,
    session_id: SessionId,
    thread_id: ThreadId,
    mode: Mode,
    max_steps: u32,
}

fn request(run_id: &str, mode: Mode) -> Request {
    Request {
        run_id: RunId::from(run_id),
        session_id: SessionId::from("session-1"),
        thread_id: ThreadId::from(format!("thread-{run_id}")),
        mode,
        max_steps: 5,
    }
}

impl Request {
    fn input(&self) -> Json {
        json(&format!("{{\"mode\": \"{:?}\"}}", self.mode))
    }
}

fn json(text: &str) -> Json {
    Json::parse(text).expect("json")
}

fn scope() -> Json {
    json("{\"tenant\": \"demo\"}")
}

fn start(key: Option<&str>) -> Start {
    let mut start = Start::new(scope(), "test".to_string());
    start.key = key.map(str::to_string);
    start
}

fn now() -> Clock {
    Clock { now: SECOND, wall_ms: 1_000 }
}

fn entry_write(key: &str, body: &str) -> EntryWrite {
    EntryWrite {
        key: key.to_string(),
        kind: "progress".to_string(),
        vis: Vis::Public,
        body: json(body),
    }
}

/// What a step can do besides leading somewhere.
trait Ops {
    fn reserve(&mut self, key: &str, kind: &str, request: Json) -> Result<(), MachineError>;
    fn begin(&mut self, key: &str) -> Result<(), MachineError>;
    fn done(&mut self, key: &str, result: Json) -> Result<(), MachineError>;
    fn item(&mut self, key: &str, kind: &str, body: Json) -> Result<(), MachineError>;
    fn live_entry(&mut self, entry: EntryWrite) -> Result<(), MachineError>;
}

struct NoOps;

impl Ops for NoOps {
    fn reserve(&mut self, _: &str, _: &str, _: Json) -> Result<(), MachineError> {
        Err(MachineError::RuntimeOpUnavailable)
    }

    fn begin(&mut self, _: &str) -> Result<(), MachineError> {
        Err(MachineError::RuntimeOpUnavailable)
    }

    fn done(&mut self, _: &str, _: Json) -> Result<(), MachineError> {
        Err(MachineError::RuntimeOpUnavailable)
    }

    fn item(&mut self, _: &str, _: &str, _: Json) -> Result<(), MachineError> {
        Err(MachineError::RuntimeOpUnavailable)
    }

    fn live_entry(&mut self, _: EntryWrite) -> Result<(), MachineError> {
        Err(MachineError::RuntimeOpUnavailable)
    }
}

struct TxOps<'a> {
    life: &'a mut Life,
    pending: &'a mut PendingOps,
    target: &'a TxTarget,
}

impl Ops for TxOps<'_> {
    fn reserve(&mut self, key: &str, kind: &str, request: Json) -> Result<(), MachineError> {
        self.life
            .store_mut()
            .reserve_effect(
                &self.target.run_id,
                &self.target.scope,
                Some(&self.target.lease),
                key,
                kind,
                request,
                now(),
            )
            .map(|_| ())
    }

    fn begin(&mut self, key: &str) -> Result<(), MachineError> {
        self.life
            .store_mut()
            .start_effect(
                &self.target.run_id,
                &self.target.scope,
                Some(&self.target.lease),
                key,
                now(),
            )
            .map(|_| ())
    }

    fn done(&mut self, key: &str, result: Json) -> Result<(), MachineError> {
        self.pending.push_effect(EffectUpdate::done(key.to_string(), result))
    }

    fn item(&mut self, key: &str, kind: &str, body: Json) -> Result<(), MachineError> {
        self.pending.push_item(ItemWrite {
            key: key.to_string(),
            kind: kind.to_string(),
            body,
        })
    }

    fn live_entry(&mut self, entry: EntryWrite) -> Result<(), MachineError> {
        let commit = live_entry_commit(
            &self.target.run_id,
            &self.target.session_id,
            &self.target.scope,
            &self.target.lease,
            entry,
        );
        live_entry_result(self.life.store_mut().commit_run(commit, now())?)
    }
}

type Led = Transition<Step, String, String>;

/// Where a step leads, or nothing while it goes on.
fn transition(
    mode: Mode,
    step: Step,
    value: &mut u32,
    signals: &mut Vec<String>,
    ops: &mut dyn Ops,
) -> Option<Result<Led, MachineError>> {
    match (mode, step) {
        (Mode::Complete, Step::Start) => {
            signals.push("signal-1".to_string());
            *value += 1;
            Some(Ok(Transition::Next(Step::Done)))
        }
        (Mode::Complete, Step::Done) => {
            Some(Ok(Transition::Complete(format!("value={value}"))))
        }
        (Mode::Interrupt, Step::Start) => {
            Some(Ok(Transition::Interrupt("answer?".to_string())))
        }
        (Mode::Loop, Step::Start) | (Mode::Loop, Step::Loop) => {
            Some(Ok(Transition::Next(Step::Loop)))
        }
        (Mode::Slow, Step::Start) => Some(Ok(Transition::Next(Step::Slow))),
        (Mode::Slow, Step::Slow) => None,
        (Mode::Ops, Step::Start) => {
            ops.reserve("effect-a", "tool", json("{\"arg\": 1}")).expect("reserve");
            ops.begin("effect-a").expect("begin");
            ops.done("effect-a", json("{\"ok\": true}")).expect("done");
            ops.item("item-a", "artifact", json("{\"value\": 7}")).expect("item");
            Some(Ok(Transition::Next(Step::Done)))
        }
        (Mode::Ops, Step::Done) => Some(Ok(Transition::Complete("ops".to_string()))),
        (Mode::Progress, Step::Start) => {
            ops.live_entry(entry_write("progress-1", "{\"stage\": \"started\"}"))
                .expect("entry");
            None
        }
        (Mode::LiveSlow, Step::Start) => {
            ops.live_entry(entry_write("progress:slow:1", "{\"phase\": \"started\"}"))
                .expect("entry");
            None
        }
        (Mode::LiveFail, Step::Start) => {
            ops.live_entry(entry_write("progress:fail:1", "{\"phase\": \"started\"}"))
                .expect("entry");
            Some(Err(MachineError::invalid_run_event("step failed")))
        }
        _ => Some(Ok(Transition::Complete("done".to_string()))),
    }
}

/// A streamed turn that can be left while a step goes on.
struct Running {
    req: Request,
    turn: Turn,
    step: Step,
    value: u32,
    led: Option<Led>,
}

impl Running {
    fn new(req: Request) -> Self {
        Running {
            turn: Turn::new(req.max_steps, true),
            req,
            step: Step::Start,
            value: 0,
            led: None,
        }
    }

    fn started(&self) -> JsonStreamEvent {
        RunStreamEvent::Started {
            run_id: self.req.run_id.clone(),
            session_id: self.req.session_id.clone(),
            thread_id: self.req.thread_id.clone(),
        }
    }

    fn state(&self) -> Json {
        json(&format!("{{\"value\": {}}}", self.value))
    }

    /// Goes on after an event, until a step keeps the turn waiting or the turn ends.
    fn go_on(
        &mut self,
        mut event: TurnEvent,
        save: &mut dyn FnMut(CheckpointRecord),
        ops: &mut dyn Ops,
        told: &mut Vec<JsonStreamEvent>,
    ) {
        loop {
            event = match self.turn.step(event) {
                TurnAction::Announce(step_count) => {
                    told.push(RunStreamEvent::StepStarted { step: self.step.json(), step_count });
                    TurnEvent::Told(true)
                }
                TurnAction::Move => {
                    let mut signals = Vec::new();
                    let led =
                        transition(self.req.mode, self.step, &mut self.value, &mut signals, ops);
                    for signal in signals {
                        told.push(RunStreamEvent::Signal { signal: Json::string(&signal) });
                    }
                    match led {
                        None => return,
                        Some(Err(error)) => TurnEvent::Moved(Moved::Failed(error)),
                        Some(Ok(led)) => {
                            let result = match led {
                                Transition::Next(_) => StepResult::Next,
                                Transition::Interrupt(_) => StepResult::Interrupt,
                                Transition::Complete(_) => StepResult::Complete,
                            };
                            self.led = Some(led);
                            TurnEvent::Moved(Moved::To(result))
                        }
                    }
                }
                TurnAction::Save(_) => {
                    let led = match self.led.as_ref().expect("a step that led somewhere") {
                        Transition::Next(next) => Transition::Next(next.json()),
                        Transition::Interrupt(text) => {
                            Transition::Interrupt((self.step.json(), Json::string(text)))
                        }
                        Transition::Complete(_) => Transition::Complete(()),
                    };
                    save(step_record(led, self.state(), &self.req.run_id));
                    TurnEvent::Saved(Ok(()), format!("{:?}", self.step))
                }
                TurnAction::Report(result) => {
                    told.push(RunStreamEvent::StepFinished { step: self.step.json(), result });
                    TurnEvent::Told(true)
                }
                TurnAction::Advance => {
                    if let Some(Transition::Next(next)) = self.led {
                        self.step = next;
                    }
                    TurnEvent::Go
                }
                TurnAction::End(_) => {
                    let snapshot = self.state();
                    let turn = std::mem::replace(&mut self.turn, Turn::new(0, true));
                    let terminal = match self.led.take() {
                        Some(Transition::Interrupt(interrupt)) => StreamTerminal::Interrupted {
                            interrupt: Json::string(&interrupt),
                            snapshot,
                        },
                        Some(Transition::Complete(output)) => StreamTerminal::Completed {
                            trace: turn.into_trace(),
                            output: Json::string(&output),
                            snapshot,
                        },
                        _ => unreachable!(),
                    };
                    told.extend(closing_event(Ok(terminal)));
                    return;
                }
                TurnAction::Cancelled => {
                    told.extend(closing_event(Ok(StreamTerminal::Cancelled)));
                    return;
                }
                TurnAction::Closed => return,
                TurnAction::Fail(error) => {
                    told.extend(closing_event(Err(error)));
                    return;
                }
            };
        }
    }
}

/// Who receives what a run tells.
struct Client {
    open: bool,
    got: Vec<JsonStreamEvent>,
}

impl Client {
    fn new() -> Self {
        Client { open: true, got: Vec::new() }
    }

    fn send(&mut self, event: JsonStreamEvent) -> bool {
        if self.open {
            self.got.push(event);
        }
        self.open
    }

    fn output(self) -> Result<RunOutput<Json, Json>, MachineError> {
        for event in self.got {
            if let Some(output) = output_of(Some(event)) {
                return output;
            }
        }
        output_of::<Json, Json, Json, Json>(None).expect("a closed stream ends the wait")
    }

    fn cancelled(&self) -> bool {
        self.got.iter().any(|event| matches!(event, RunStreamEvent::Cancelled))
    }
}

fn finish(req: &Request, ending: Ending) -> RunFinish<()> {
    RunFinish {
        run_id: req.run_id.clone(),
        session_id: req.session_id.clone(),
        scope: scope(),
        status: ending.status,
        finish_reason: ending.reason.to_string(),
        error_code: ending.code,
        entries: Vec::new(),
        data: (),
    }
}

struct Runtime {
    life: Life,
    saver: MemorySaver,
    book: CancelBook<()>,
}

struct Run {
    running: Running,
    state: BridgeState<JsonStreamEvent>,
    client: Client,
}

fn runtime(max: usize) -> Runtime {
    Runtime {
        life: RunLifecycle::new(RunRegistry::new(), MemoryRunStore::new(), max),
        saver: MemorySaver::new(),
        book: CancelBook::new(),
    }
}

impl Runtime {
    fn start(&mut self, req: Request, start: Start) -> Result<StartResult<Run>, MachineError> {
        self.life.ensure_session(Some(req.session_id.clone()), &start.scope);
        let (run, token) = start.into_run(
            &req.run_id,
            &req.session_id,
            &req.thread_id,
            Some(req.input()),
            None,
        );
        let handle = self.life.issue(token);
        let result = self.life.start_run(run, handle, None, now())?;
        if let Some(answer) = not_started(result) {
            return Ok(answer);
        }
        self.book.register_active(&req.run_id, ());
        Ok(StartResult::Started(Run {
            running: Running::new(req),
            state: BridgeState::Idle,
            client: Client::new(),
        }))
    }

    fn step(&mut self, run: &mut Run, mut event: BridgeEvent<JsonStreamEvent>) {
        let req = run.running.req.clone();
        loop {
            let state = std::mem::replace(&mut run.state, BridgeState::Over);
            let (state, action) = state.step(event);
            run.state = state;
            event = match action {
                BridgeAction::Wait | BridgeAction::Stop => return,
                BridgeAction::Append(payload) => {
                    BridgeEvent::Recorded(append_answer(self.life.append_event(
                        &req.run_id,
                        &req.session_id,
                        &scope(),
                        payload,
                    )))
                }
                BridgeAction::Finish(payload, ending) => BridgeEvent::Recorded(
                    self.life.finish_run(finish(&req, ending), payload, now()).map(|_| ()),
                ),
                BridgeAction::Send(told) => BridgeEvent::Sent(run.client.send(told)),
                BridgeAction::Abort(error, payload, ending) => {
                    self.book.cancel_run(&req.run_id);
                    let _ = self.life.finish_run(finish(&req, ending), payload, now());
                    run.client.send(RunStreamEvent::Failed { error });
                    return;
                }
                BridgeAction::Cancel(payload, ending) => {
                    let _ = self.life.request_cancel(&req.run_id, &scope());
                    self.book.cancel_run(&req.run_id);
                    let _ = self.life.finish_run(finish(&req, ending), payload, now());
                    return;
                }
            };
        }
    }

    fn record(&mut self, run: &mut Run, told: Vec<JsonStreamEvent>) {
        for event in told {
            if matches!(run.state, BridgeState::Over) {
                return;
            }
            let record = event_record(&event);
            self.step(run, BridgeEvent::Told(Ok(record), event));
        }
    }

    /// Runs the turn until a step keeps it waiting or it ends.
    fn go(&mut self, run: &mut Run) {
        let mut told = vec![run.running.started()];
        if self.book.is_cancelled(&run.running.req.run_id) {
            told.extend(closing_event(Ok(StreamTerminal::Cancelled)));
        } else {
            let thread_id = run.running.req.thread_id.clone();
            let saver = &mut self.saver;
            run.running.go_on(
                TurnEvent::Go,
                &mut |record| saver.save(thread_id.as_str(), &record),
                &mut NoOps,
                &mut told,
            );
        }
        self.record(run, told);
    }

    fn cancel(&mut self, run_id: &RunId) -> Result<bool, MachineError> {
        let active = self.life.request_cancel(run_id, &scope())?.is_some();
        self.book.cancel_run(run_id);
        Ok(active)
    }

    fn invoke(
        &mut self,
        req: Request,
        start: Start,
    ) -> Result<StartResult<RunOutput<Json, Json>>, MachineError> {
        let mut run = match self.start(req, start)? {
            StartResult::Started(run) => run,
            other => return Ok(other.map_started(|_: Run| unreachable!())),
        };
        self.go(&mut run);
        Ok(StartResult::Started(run.client.output()?))
    }

    fn status(&self, run_id: &RunId) -> RunStatus {
        self.life.store().lookup_run(run_id, &scope()).expect("run").status
    }

    fn events(&self, run_id: &RunId) -> Vec<Event> {
        self.life
            .store()
            .list_events(run_id, &scope(), 0, usize::MAX)
            .expect("events")
            .items
    }
}

struct TxRuntime {
    life: Life,
    saver: PendingCheckpoints,
    book: CancelBook<()>,
    lease: LeaseCfg,
}

struct TxRun {
    running: Running,
    state: TxState<JsonStreamEvent>,
    client: Client,
    target: TxTarget,
    ops: PendingOps,
}

fn tx_runtime(max: usize) -> TxRuntime {
    TxRuntime {
        life: RunLifecycle::new(RunRegistry::new(), MemoryRunStore::new(), max),
        saver: PendingCheckpoints::new(),
        book: CancelBook::new(),
        lease: LeaseCfg::new(WorkerId::from("worker-test")),
    }
}

impl TxRuntime {
    fn start(&mut self, req: Request, start: Start) -> Result<StartResult<TxRun>, MachineError> {
        self.life.ensure_session(Some(req.session_id.clone()), &start.scope);
        let begun = self.lease.begin(
            start,
            &req.run_id,
            &req.session_id,
            &req.thread_id,
            Some(req.input()),
            LeaseId::from("lease-test"),
        );
        let handle = self.life.issue(begun.token);
        let result = self.life.start_run(begun.run, handle, None, now())?;
        if let Some(answer) = not_started(result) {
            return Ok(answer);
        }
        self.book.register_active(&req.run_id, ());
        Ok(StartResult::Started(TxRun {
            target: begun.target,
            running: Running::new(req),
            state: TxState::Idle { pending: None },
            client: Client::new(),
            ops: PendingOps::new(),
        }))
    }

    fn commit(
        &mut self,
        run: &mut TxRun,
        commit: TxCommit,
    ) -> Result<typemach::store::RunCommitResult<Event>, MachineError> {
        let ops = if commit.with_ops { run.ops.take() } else { PendingOps::new() };
        let (plan, payloads) = run.target.plan(commit, ops, ());
        self.life.commit_events(
            &run.target.run_id,
            &run.target.session_id,
            &run.target.scope,
            plan,
            payloads,
            now(),
        )
    }

    fn step(&mut self, run: &mut TxRun, mut event: TxEvent<JsonStreamEvent>) {
        let run_id = run.target.run_id.clone();
        let thread_id = run.running.req.thread_id.clone();
        loop {
            let state = std::mem::replace(&mut run.state, TxState::Over);
            let (state, action) = state.step(event);
            run.state = state;
            event = match action {
                TxAction::Wait | TxAction::Stop => return,
                TxAction::TakeCheckpoint => TxEvent::Checkpoint(self.saver.take(&thread_id)),
                TxAction::Commit(commit) => {
                    TxEvent::Committed(answer_of(self.commit(run, commit)))
                }
                TxAction::Send(told) | TxAction::SendLast(told) => {
                    TxEvent::Sent(run.client.send(told))
                }
                TxAction::Abort(error, commit) => {
                    self.book.cancel_run(&run_id);
                    let _ = self.commit(run, commit);
                    run.client.send(RunStreamEvent::Failed { error });
                    return;
                }
                TxAction::Cancel(commit) => {
                    let _ = self.life.request_cancel(&run_id, &scope());
                    self.book.cancel_run(&run_id);
                    let _ = self.commit(run, commit);
                    self.saver.clear(&thread_id);
                    return;
                }
            };
        }
    }

    fn record(&mut self, run: &mut TxRun, told: Vec<JsonStreamEvent>) {
        for event in told {
            if matches!(run.state, TxState::Over) {
                return;
            }
            let record = event_record(&event);
            self.step(run, TxEvent::Told(Ok(record), event));
        }
    }

    fn go_on(&mut self, run: &mut TxRun, event: TurnEvent, mut told: Vec<JsonStreamEvent>) {
        let thread_id = run.running.req.thread_id.clone();
        let saver = &mut self.saver;
        let mut ops = TxOps {
            life: &mut self.life,
            pending: &mut run.ops,
            target: &run.target,
        };
        run.running.go_on(
            event,
            &mut |record| saver.save(&thread_id, record),
            &mut ops,
            &mut told,
        );
        self.record(run, told);
    }

    fn go(&mut self, run: &mut TxRun) {
        let told = vec![run.running.started()];
        self.go_on(run, TurnEvent::Go, told);
    }

    fn cancel(&mut self, run: &mut TxRun) -> Result<bool, MachineError> {
        let run_id = run.target.run_id.clone();
        let active = self.life.request_cancel(&run_id, &scope())?.is_some();
        self.book.cancel_run(&run_id);
        self.go_on(run, TurnEvent::Moved(Moved::Cancelled), Vec::new());
        Ok(active)
    }

    fn invoke(
        &mut self,
        req: Request,
        start: Start,
    ) -> Result<StartResult<RunOutput<Json, Json>>, MachineError> {
        let mut run = match self.start(req, start)? {
            StartResult::Started(run) => run,
            other => return Ok(other.map_started(|_: TxRun| unreachable!())),
        };
        self.go(&mut run);
        Ok(StartResult::Started(run.client.output()?))
    }

    fn status(&self, run_id: &RunId) -> RunStatus {
        self.life.store().lookup_run(run_id, &scope()).expect("run").status
    }

    fn events(&self, run_id: &RunId) -> Vec<Event> {
        self.life
            .store()
            .list_events(run_id, &scope(), 0, usize::MAX)
            .expect("events")
            .items
    }

    fn progress(&self, run_id: &RunId, key: &str) -> Entry {
        let session_id = SessionId::from("session-1");
        let thread_id = ThreadId::from(format!("thread-{}", run_id.as_str()));
        let scope = scope();
        self.life
            .store()
            .list_entries(
                EntryQuery::new(&scope, &session_id, 8)
                    .thread(&thread_id)
                    .kind("progress")
                    .vis(Vis::Public),
            )
            .expect("entries")
            .items
            .into_iter()
            .find(|entry| entry.key == key)
            .expect("progress entry")
    }
}

fn started<T>(result: StartResult<T>) -> T {
    match result {
        StartResult::Started(value) => value,
        _ => panic!("expected started"),
    }
}

fn check_stream_persists_and_forwards_completed_events() {
    let mut rt = runtime(8);
    let run_id = RunId::from("run-stream");
    let mut run = started(
        rt.start(request(run_id.as_str(), Mode::Complete), start(None)).expect("stream"),
    );
    rt.go(&mut run);

    let mut completed = None;
    for event in &run.client.got {
        if let RunStreamEvent::Completed { output, .. } = event {
            completed = Some(output.as_str());
        }
    }
    assert_eq!(completed, Some("\"value=1\""));
    let events = rt.events(&run_id);
    assert!(matches!(
        events.first().map(|event| &event.payload),
        Some(Payload::Start { .. })
    ));
    assert!(matches!(
        events.last().map(|event| &event.payload),
        Some(Payload::Done { output, .. }) if output.as_str() == "\"value=1\""
    ));
    assert_eq!(rt.status(&run_id), RunStatus::Completed);
}

#[test]
fn runtime_stream_persists_and_forwards_completed_events() {
    check_stream_persists_and_forwards_completed_events();
}

#[test]
fn stream_stream_persists_and_forwards_completed_events() {
    check_stream_persists_and_forwards_completed_events();
}

fn check_invoke_returns_output_and_records_events() {
    let mut rt = runtime(8);
    let run_id = RunId::from("run-invoke");
    let output = started(
        rt.invoke(request(run_id.as_str(), Mode::Complete), start(None)).expect("invoke"),
    );
    match output {
        RunOutput::Completed { output, .. } => assert_eq!(output.as_str(), "\"value=1\""),
        RunOutput::Interrupted { .. } => panic!("expected completed"),
    }
    assert!(rt
        .events(&run_id)
        .iter()
        .any(|event| matches!(event.payload, Payload::Signal { .. })));
}

#[test]
fn runtime_invoke_returns_output_and_records_events() {
    check_invoke_returns_output_and_records_events();
}

#[test]
fn stream_invoke_returns_output_and_records_events() {
    check_invoke_returns_output_and_records_events();
}

fn check_tx_runtime_commits_final_checkpoint_with_terminal_events() {
    let mut rt = tx_runtime(8);
    let run_id = RunId::from("run-tx-complete");
    let result = rt
        .invoke(request(run_id.as_str(), Mode::Complete), start(None))
        .expect("invoke");
    assert!(matches!(
        result,
        StartResult::Started(RunOutput::Completed { .. })
    ));

    let events = rt.events(&run_id);
    let step_done = events
        .iter()
        .position(|event| {
            matches!(
                event.payload,
                Payload::StepDone { result: StepResult::Complete, .. }
            )
        })
        .expect("final step event");
    assert!(matches!(
        events.get(step_done + 1).map(|event| &event.payload),
        Some(Payload::Done { .. })
    ));

    let checkpoint = rt
        .life
        .store()
        .load_checkpoint(&ThreadId::from("thread-run-tx-complete"))
        .expect("checkpoint");
    assert_eq!(checkpoint.run_id.as_deref(), Some(run_id.as_str()));
    assert!(checkpoint.next_step.is_none());
    assert_eq!(rt.status(&run_id), RunStatus::Completed);
}

#[test]
fn runtime_tx_runtime_commits_final_checkpoint_with_terminal_events() {
    check_tx_runtime_commits_final_checkpoint_with_terminal_events();
}

#[test]
fn stream_tx_runtime_commits_final_checkpoint_with_terminal_events() {
    check_tx_runtime_commits_final_checkpoint_with_terminal_events();
}

#[test]
fn tx_runtime_commits_context_ops_with_step_event() {
    let mut rt = tx_runtime(8);
    let run_id = RunId::from("run-tx-ops");
    let result = rt
        .invoke(request(run_id.as_str(), Mode::Ops), start(None))
        .expect("invoke");
    assert!(matches!(
        result,
        StartResult::Started(RunOutput::Completed { .. })
    ));

    let effects = rt.life.store().list_effects(&run_id, &scope(), 8).expect("effects");
    assert_eq!(effects.len(), 1);
    assert_eq!(effects[0].status, EffectStatus::Done);
    assert_eq!(effects[0].result, Some(json("{\"ok\": true}")));
    let items = rt.life.store().list_items(&run_id, &scope(), 8).expect("items");
    assert_eq!(items.len(), 1);
    assert_eq!(items[0].kind, "artifact");
}

#[test]
fn tx_runtime_progress_is_readable_before_step_finishes_and_survives_cancel() {
    let mut rt = tx_runtime(8);
    let run_id = RunId::from("run-tx-live-cancel");
    let mut run = started(
        rt.start(request(run_id.as_str(), Mode::LiveSlow), start(None)).expect("stream"),
    );
    rt.go(&mut run);

    let progress = rt.progress(&run_id, "progress:slow:1");
    assert_eq!(progress.body, json("{\"phase\": \"started\"}"));

    assert!(!rt.events(&run_id).iter().any(|event| matches!(
        event.payload,
        Payload::StepDone { .. } | Payload::Done { .. } | Payload::Cancel
    )));
    assert_eq!(rt.status(&run_id), RunStatus::Running);

    assert!(rt.cancel(&mut run).expect("cancel"));
    assert!(run.client.cancelled());
    assert_eq!(rt.status(&run_id), RunStatus::Cancelled);
    let progress = rt.progress(&run_id, "progress:slow:1");
    assert_eq!(progress.body, json("{\"phase\": \"started\"}"));
}

#[test]
fn tx_runtime_progress_survives_failed_step() {
    let mut rt = tx_runtime(8);
    let run_id = RunId::from("run-tx-live-fail");
    let err = rt
        .invoke(request(run_id.as_str(), Mode::LiveFail), start(None))
        .expect_err("invoke should fail");
    assert!(matches!(err, MachineError::InvalidRunEvent { .. }));

    assert_eq!(rt.status(&run_id), RunStatus::Error);
    let terminal = rt
        .life
        .store()
        .terminal_event(&run_id, &scope())
        .expect("terminal event");
    assert!(matches!(terminal.payload, Payload::Fail { .. }));
    let progress = rt.progress(&run_id, "progress:fail:1");
    assert_eq!(progress.body, json("{\"phase\": \"started\"}"));
}

fn check_tx_runtime_commits_interrupt_checkpoint_with_terminal_events() {
    let mut rt = tx_runtime(8);
    let run_id = RunId::from("run-tx-interrupt");
    let result = rt
        .invoke(request(run_id.as_str(), Mode::Interrupt), start(None))
        .expect("invoke");
    assert!(matches!(
        result,
        StartResult::Started(RunOutput::Interrupted { .. })
    ));

    let events = rt.events(&run_id);
    let step_done = events
        .iter()
        .position(|event| {
            matches!(
                event.payload,
                Payload::StepDone { result: StepResult::Interrupt, .. }
            )
        })
        .expect("interrupt step event");
    assert!(matches!(
        events.get(step_done + 1).map(|event| &event.payload),
        Some(Payload::Interrupt { .. })
    ));

    let checkpoint = rt
        .life
        .store()
        .load_checkpoint(&ThreadId::from("thread-run-tx-interrupt"))
        .expect("checkpoint");
    assert_eq!(checkpoint.run_id.as_deref(), Some(run_id.as_str()));
    assert!(checkpoint.interrupt.is_some());
    assert!(checkpoint.interrupted_step.is_some());
    assert_eq!(rt.status(&run_id), RunStatus::Interrupted);
}

#[test]
fn runtime_tx_runtime_commits_interrupt_checkpoint_with_terminal_events() {
    check_tx_runtime_commits_interrupt_checkpoint_with_terminal_events();
}

#[test]
fn stream_tx_runtime_commits_interrupt_checkpoint_with_terminal_events() {
    check_tx_runtime_commits_interrupt_checkpoint_with_terminal_events();
}

fn leased(run: &str, lease: &str, ttl: u128) -> RunStart {
    RunStart {
        run_id: RunId::from(format!("run-{run}")),
        session_id: SessionId::from(format!("session-{run}")),
        thread_id: ThreadId::from(format!("thread-{run}")),
        agent_kind: "test".to_string(),
        model: None,
        client_run_key: None,
        parent_run_id: None,
        retry_of_run_id: None,
        scope: scope(),
        metadata: json("{}"),
        input: None,
        entries: Vec::new(),
        lease: Some(LeaseClaim::new(
            WorkerId::from(format!("worker-{run}")),
            LeaseId::from(lease),
            ttl,
        )),
    }
}

fn check_tx_runtime_reaps_stale_leased_runs() {
    let mut rt = tx_runtime(8);
    let run_id = RunId::from("run-stale");
    rt.life
        .store_mut()
        .start_run(&leased("stale", "lease-stale", MILLI), now())
        .expect("start");

    let owner = rt.lease.owner.clone();
    let reaped = rt
        .life
        .store_mut()
        .reap_stale(&owner, 8, expiry_event, now().now + 5 * MILLI)
        .expect("reap");
    assert_eq!(reaped.len(), 1);
    assert_eq!(reaped[0].run_id, run_id);
    assert_eq!(reaped[0].status, RunStatus::Error);

    assert!(matches!(
        rt.events(&run_id).last().map(|event| &event.payload),
        Some(Payload::Fail { .. })
    ));
}

#[test]
fn runtime_tx_runtime_reaps_stale_leased_runs() {
    check_tx_runtime_reaps_stale_leased_runs();
}

#[test]
fn stream_tx_runtime_reaps_stale_leased_runs() {
    check_tx_runtime_reaps_stale_leased_runs();
}

fn check_interrupted_run_gets_interrupted_status() {
    let mut rt = runtime(8);
    let run_id = RunId::from("run-interrupt");
    let output = started(
        rt.invoke(request(run_id.as_str(), Mode::Interrupt), start(None)).expect("invoke"),
    );
    match output {
        RunOutput::Interrupted { interrupt, .. } => assert_eq!(interrupt.as_str(), "\"answer?\""),
        RunOutput::Completed { .. } => panic!("expected interrupt"),
    }
    assert_eq!(rt.status(&run_id), RunStatus::Interrupted);
}

#[test]
fn runtime_interrupted_run_gets_interrupted_status() {
    check_interrupted_run_gets_interrupted_status();
}

#[test]
fn stream_interrupted_run_gets_interrupted_status() {
    check_interrupted_run_gets_interrupted_status();
}

fn check_failed_run_records_error_terminal() {
    let mut rt = runtime(8);
    let run_id = RunId::from("run-fail");
    let mut req = request(run_id.as_str(), Mode::Loop);
    req.max_steps = 1;
    let err = rt.invoke(req, start(None)).expect_err("invoke should fail");
    assert!(matches!(err, MachineError::MaxStepsExceeded { max: 1 }));

    assert_eq!(rt.status(&run_id), RunStatus::Error);
    let terminal = rt
        .life
        .store()
        .terminal_event(&run_id, &scope())
        .expect("terminal event");
    assert!(matches!(
        terminal.payload,
        Payload::Fail { error } if error == "max steps exceeded (1)"
    ));
}

#[test]
fn runtime_failed_run_records_error_terminal() {
    check_failed_run_records_error_terminal();
}

#[test]
fn stream_failed_run_records_error_terminal() {
    check_failed_run_records_error_terminal();
}

fn check_cancel_stops_active_run_and_records_cancelled() {
    let mut rt = runtime(8);
    let run_id = RunId::from("run-cancel");
    let mut run = started(
        rt.start(request(run_id.as_str(), Mode::Slow), start(None)).expect("stream"),
    );

    assert!(rt.cancel(&run_id).expect("cancel"));
    rt.go(&mut run);
    assert!(run.client.cancelled());
    assert_eq!(rt.status(&run_id), RunStatus::Cancelled);
}

#[test]
fn runtime_cancel_stops_active_run_and_records_cancelled() {
    check_cancel_stops_active_run_and_records_cancelled();
}

#[test]
fn control_cancel_stops_active_run_and_records_cancelled() {
    check_cancel_stops_active_run_and_records_cancelled();
}

fn check_dropped_receiver_cancels_and_finishes_run() {
    let mut rt = runtime(8);
    let run_id = RunId::from("run-drop");
    let mut run = started(
        rt.start(request(run_id.as_str(), Mode::Slow), start(None)).expect("stream"),
    );
    run.client.open = false;
    rt.go(&mut run);
    assert_eq!(rt.status(&run_id), RunStatus::Cancelled);
}

#[test]
fn runtime_dropped_receiver_cancels_and_finishes_run() {
    check_dropped_receiver_cancels_and_finishes_run();
}

#[test]
fn control_dropped_receiver_cancels_and_finishes_run() {
    check_dropped_receiver_cancels_and_finishes_run();
}

fn check_dropped_receiver_cancels_quiet_transition_without_waiting_for_heartbeat() {
    let mut rt = runtime(8);
    let run_id = RunId::from("run-drop-quiet");
    let mut run = started(
        rt.start(request(run_id.as_str(), Mode::Slow), start(None)).expect("stream"),
    );
    rt.go(&mut run);
    assert!(matches!(
        run.client.got.last(),
        Some(RunStreamEvent::StepStarted { step, .. }) if step.as_str() == "\"Slow\""
    ));
    assert_eq!(rt.status(&run_id), RunStatus::Running);

    rt.step(&mut run, BridgeEvent::ReceiverClosed);
    assert_eq!(rt.status(&run_id), RunStatus::Cancelled);
}

#[test]
fn runtime_dropped_receiver_cancels_quiet_transition_without_waiting_for_heartbeat() {
    check_dropped_receiver_cancels_quiet_transition_without_waiting_for_heartbeat();
}

#[test]
fn control_dropped_receiver_cancels_quiet_transition_without_waiting_for_heartbeat() {
    check_dropped_receiver_cancels_quiet_transition_without_waiting_for_heartbeat();
}

fn check_idempotent_key_returns_existing_run(second: Request) {
    let mut rt = runtime(8);
    let first_id = RunId::from("run-idem-1");
    let result = rt
        .invoke(request(first_id.as_str(), Mode::Complete), start(Some("key-1")))
        .expect("first invoke");
    assert!(matches!(result, StartResult::Started(_)));

    let result = rt.invoke(second, start(Some("key-1"))).expect("second invoke");
    let StartResult::Existing(existing) = result else {
        panic!("expected existing");
    };
    assert_eq!(existing.run_id, first_id);
}

#[test]
fn runtime_idempotent_key_returns_existing_run() {
    check_idempotent_key_returns_existing_run(request("run-idem-2", Mode::Complete));
}

#[test]
fn control_idempotent_key_returns_existing_run() {
    let mut req = request("run-idem-2", Mode::Complete);
    req.thread_id = ThreadId::from("thread-run-idem-1");
    check_idempotent_key_returns_existing_run(req);
}

#[test]
fn idempotent_key_rejects_different_request_input() {
    let mut rt = runtime(8);
    let result = rt
        .invoke(
            request("run-idem-input-1", Mode::Complete),
            start(Some("key-input")),
        )
        .expect("first invoke");
    assert!(matches!(result, StartResult::Started(_)));

    let mut req = request("run-idem-input-2", Mode::Slow);
    req.thread_id = ThreadId::from("thread-run-idem-input-1");
    let result = rt.invoke(req, start(Some("key-input")));
    assert!(matches!(result, Err(MachineError::StartConflict)));
}

#[test]
fn tx_runtime_idempotent_key_rejects_different_request_input() {
    let mut rt = tx_runtime(8);
    let result = rt
        .invoke(
            request("run-tx-idem-input-1", Mode::Complete),
            start(Some("tx-key-input")),
        )
        .expect("first invoke");
    assert!(matches!(result, StartResult::Started(_)));

    let mut req = request("run-tx-idem-input-2", Mode::Slow);
    req.thread_id = ThreadId::from("thread-run-tx-idem-input-1");
    let result = rt.invoke(req, start(Some("tx-key-input")));
    assert!(matches!(result, Err(MachineError::StartConflict)));
}

fn check_capacity_rejection_does_not_persist_or_poison_key() {
    let mut rt = runtime(1);
    let blocker_id = RunId::from("run-capacity-blocker");
    let mut blocker = started(
        rt.start(request(blocker_id.as_str(), Mode::Slow), start(None)).expect("stream"),
    );

    let rejected_id = RunId::from("run-capacity-rejected");
    let result = rt
        .start(
            request(rejected_id.as_str(), Mode::Complete),
            start(Some("capacity-key")),
        )
        .expect("stream");
    assert!(matches!(
        result,
        StartResult::Rejected(StartRunRejection::CapacityExceeded)
    ));
    assert!(rt.life.store().lookup_run(&rejected_id, &scope()).is_none());

    assert!(rt.cancel(&blocker_id).expect("cancel"));
    rt.go(&mut blocker);
    assert!(blocker.client.cancelled());

    let retry_id = RunId::from("run-capacity-retry");
    let result = rt
        .invoke(
            request(retry_id.as_str(), Mode::Complete),
            start(Some("capacity-key")),
        )
        .expect("retry");
    assert!(matches!(result, StartResult::Started(_)));
}

#[test]
fn runtime_capacity_rejection_does_not_persist_or_poison_key() {
    check_capacity_rejection_does_not_persist_or_poison_key();
}

#[test]
fn control_capacity_rejection_does_not_persist_or_poison_key() {
    check_capacity_rejection_does_not_persist_or_poison_key();
}

fn check_subscribe_respects_scope() {
    let mut rt = runtime(8);
    let run_id = RunId::from("run-scope");
    let result = rt
        .invoke(request(run_id.as_str(), Mode::Complete), start(None))
        .expect("invoke");
    assert!(matches!(result, StartResult::Started(_)));

    let wrong_scope = json("{\"tenant\": \"other\"}");
    let sub = rt
        .life
        .subscribe(&run_id, &wrong_scope, RunCursor::from(0))
        .ok()
        .expect("subscribe");
    assert!(matches!(sub, RunSubscription::Missing));
}

#[test]
fn runtime_subscribe_respects_scope() {
    check_subscribe_respects_scope();
}

#[test]
fn control_subscribe_respects_scope() {
    check_subscribe_respects_scope();
}

#[test]
fn tx_runtime_records_entry_before_step_finishes() {
    let mut rt = tx_runtime(8);
    let run_id = RunId::from("run-tx-progress");
    let mut run = started(
        rt.start(request(run_id.as_str(), Mode::Progress), start(None)).expect("stream"),
    );
    rt.go(&mut run);
    assert!(run.client.got.iter().any(|event| matches!(
        event,
        RunStreamEvent::StepStarted { step, .. } if step.as_str() == "\"Start\""
    )));

    let entry = rt.progress(&run_id, "progress-1");
    assert_eq!(entry.key, "progress-1");
    assert_eq!(entry.body, json("{\"stage\": \"started\"}"));

    assert!(rt.cancel(&mut run).expect("cancel"));
    assert!(run.client.cancelled());
}

#[test]
fn record_entry_checks_lease_and_conflicts() {
    let mut store: MemoryRunStore<Event, ()> = MemoryRunStore::new();
    let run_id = RunId::from("run-record-entry");
    let lease_id = LeaseId::from("lease-record-entry");
    store
        .start_run(&leased("record-entry", "lease-record-entry", 30 * SECOND), now())
        .expect("start");

    let wrong_lease = store
        .record_entry(
            &run_id,
            &scope(),
            Some(&LeaseId::from("wrong-lease")),
            entry_write("progress-store", "{\"n\": 1}"),
            now(),
        )
        .expect_err("wrong lease");
    assert!(matches!(wrong_lease, MachineError::LeaseLost));

    let first = store
        .record_entry(
            &run_id,
            &scope(),
            Some(&lease_id),
            entry_write("progress-store", "{\"n\": 1}"),
            now(),
        )
        .expect("record");
    assert_eq!(first.seq, 1);

    let duplicate = store
        .record_entry(
            &run_id,
            &scope(),
            Some(&lease_id),
            entry_write("progress-store", "{\"n\": 1}"),
            now(),
        )
        .expect("duplicate");
    assert_eq!(duplicate.seq, first.seq);

    let conflict = store
        .record_entry(
            &run_id,
            &scope(),
            Some(&lease_id),
            entry_write("progress-store", "{\"n\": 2}"),
            now(),
        )
        .expect_err("conflict");
    assert!(matches!(conflict, MachineError::EntryConflict));
}

#[test]
fn record_entry_rejects_terminal_run() {
    let mut rt = tx_runtime(8);
    let run_id = RunId::from("run-record-terminal");
    let result = rt
        .invoke(request(run_id.as_str(), Mode::Complete), start(None))
        .expect("invoke");
    assert!(matches!(
        result,
        StartResult::Started(RunOutput::Completed { .. })
    ));

    let error = rt
        .life
        .store_mut()
        .record_entry(
            &run_id,
            &scope(),
            None,
            entry_write("progress-late", "{\"n\": 1}"),
            now(),
        )
        .expect_err("terminal run");
    assert!(matches!(error, MachineError::RunNotFound));
}

#[test]
fn lost_lease_fails_the_run_that_goes_on() {
    let mut rt = tx_runtime(8);
    let run_id = RunId::from("run-lost");
    let mut run = started(
        rt.start(request(run_id.as_str(), Mode::Complete), start(None)).expect("stream"),
    );
    run.target.lease = LeaseId::from("another");
    rt.go(&mut run);
    assert!(matches!(
        run.client.output(),
        Err(MachineError::LeaseLost)
    ));
    assert_eq!(rt.status(&run_id), RunStatus::Running);
}

#[test]
fn operations_belong_to_their_run() {
    let own = RunId::from("own");
    assert!(check_run(&own, &own).is_ok());
    assert!(matches!(
        check_run(&own, &RunId::from("other")),
        Err(MachineError::InvalidRunEvent { reason })
            if reason == "runtime operation target does not match run"
    ));
}

#[test]
fn waiting_twice_is_waiting_once() {
    let mut pending = PendingOps::new();
    let item = |body: &str| ItemWrite {
        key: "item".to_string(),
        kind: "artifact".to_string(),
        body: json(body),
    };
    pending.push_item(item("1")).expect("first");
    pending.push_item(item("1")).expect("again");
    assert!(matches!(pending.push_item(item("2")), Err(MachineError::ItemConflict)));
    pending
        .push_effect(EffectUpdate::unknown("effect".to_string(), "lost".to_string()))
        .expect("effect");
    assert!(matches!(
        pending.push_effect(EffectUpdate::done("effect".to_string(), json("1"))),
        Err(MachineError::EffectConflict)
    ));
    pending.push_entry(entry_write("entry", "1")).expect("entry");
    assert!(matches!(
        pending.push_entry(entry_write("entry", "2")),
        Err(MachineError::EntryConflict)
    ));
    let taken = pending.take();
    assert_eq!((taken.effects.len(), taken.items.len(), taken.entries.len()), (1, 1, 1));
    assert!(pending.take().items.is_empty());
}

#[test]
fn checkpoints_wait_in_line() {
    let mut pending = PendingCheckpoints::new();
    let thread = ThreadId::from("thread");
    let record = |n: u32| {
        CheckpointRecord::running(json(&n.to_string()), None, "run".to_string())
    };
    assert!(pending.take(&thread).is_none());
    pending.save(&thread, record(1));
    pending.save(&thread, record(2));
    pending.save(&ThreadId::from("other"), record(3));
    assert_eq!(pending.take(&thread).expect("first").record.state.as_str(), "1");
    assert_eq!(pending.take(&thread).expect("second").record.state.as_str(), "2");
    assert!(pending.take(&thread).is_none());
    pending.clear(&ThreadId::from("other"));
    assert!(pending.take(&ThreadId::from("other")).is_none());
}

#[test]
fn steps_without_a_checkpoint_fail_the_run() {
    let mut rt = tx_runtime(8);
    let run_id = RunId::from("run-no-checkpoint");
    let mut run = started(
        rt.start(request(run_id.as_str(), Mode::Complete), start(None)).expect("stream"),
    );
    let event = RunStreamEvent::StepFinished {
        step: Step::Start.json(),
        result: StepResult::Next,
    };
    rt.record(&mut run, vec![event]);
    assert!(matches!(
        run.client.output(),
        Err(MachineError::InvalidRunEvent { reason }) if reason == "missing checkpoint for step event"
    ));
    assert_eq!(rt.status(&run_id), RunStatus::Error);
}

#[test]
fn leases_are_renewed_a_millisecond_apart_at_least() {
    let mut cfg = LeaseCfg::new(WorkerId::from("worker"));
    assert_eq!(cfg.ttl, 30 * SECOND);
    assert_eq!(cfg.renew_interval(), 10 * SECOND);
    cfg.renew = 0;
    assert_eq!(cfg.renew_interval(), MILLI);
}

#[test]
fn runs_and_their_commits_carry_one_lease() {
    let cfg = LeaseCfg::new(WorkerId::from("worker"));
    let begun = cfg.begin(
        Start::new(scope(), "test".to_string()),
        &RunId::from("run"),
        &SessionId::from("session"),
        &ThreadId::from("thread"),
        None,
        LeaseId::from("lease"),
    );
    let claim = begun.run.lease.as_ref().expect("claim");
    assert_eq!(claim.owner, WorkerId::from("worker"));
    assert_eq!(claim.id, LeaseId::from("lease"));
    assert_eq!(claim.ttl, cfg.ttl);
    assert_eq!(begun.token, "run");
    assert_eq!(begun.lease.run, RunId::from("run"));
    assert_eq!(begun.lease.id, LeaseId::from("lease"));
    let commit = TxCommit {
        payloads: vec![Payload::Cancel],
        checkpoint: None,
        with_ops: false,
        ending: None,
    };
    let (plan, payloads) = begun.target.plan(commit, PendingOps::new(), ());
    assert_eq!(plan.lease, Some(LeaseId::from("lease")));
    assert_eq!(payloads.len(), 1);
}
