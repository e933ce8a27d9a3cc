use typemach::cancel::CancelBook;
use typemach::checkpoint::{CheckpointRecord, MemorySaver};
use typemach::error::MachineError;
use typemach::ids::{RunId, SessionId, ThreadId};
use typemach::json::Json;
use typemach::machine::{ResumeAction, Transition};
use typemach::run::{
    closing_event, RunCommand, RunOutput, RunRequest, RunStreamEvent, RuntimeLimits, StepResult,
    StreamTerminal,
};
use typemach::runner::{
    restore_or_start, resume_step, step_record, Moved, Restore, ResumeStep, Turn, TurnAction,
    TurnEvent,
};

#[derive(Debug, Clone, Copy, PartialEq, Eq)]
enum Step {
    Start,
    Finish,
    Loop,
    Resume,
}

impl Step {
    fn json(self) -> Json {
        Json::string(&format!("{self:?}"))
    }

    fn read(json: &Json) -> Step {
        match json.as_str() {
            "\"Start\"" => Step::Start,
            "\"Finish\"" => Step::Finish,
            "\"Loop\"" => Step::Loop,
            "\"Resume\"" => Step::Resume,
            other => panic!("unknown step {other}"),
        }
    }
}

#[derive(Debug, Clone)]
struct TestState {
    value: u32,
    answer: Option<String>,
}

impl TestState {
    fn json(&self) -> Json {
        let answer = match &self.answer {
            Some(answer) => Json::string(answer),
            None => Json::null(),
        };
        Json::pair(
            "answer",
            &answer,
            "value",
            &Json::parse(&self.value.to_string()).expect("number"),
        )
    }

    fn read(json: &Json) -> TestState {
        let value = fields(json);
        TestState {
            value: value["value"].as_u64().expect("value") as u32,
            answer: value["answer"].as_str().map(str::to_string),
        }
    }
}

fn fields(json: &Json) -> serde_json::Value {
    serde_json::from_str(json.as_str()).expect("json")
}

#[derive(Debug, Clone)]
struct TestInput {
    value: u32,
    answer: Option<String>,
    mode: TestMode,
}

#[derive(Debug, Clone)]
enum TestMode {
    Complete,
    Loop,
    Interrupt,
    Emit,
}

fn new_state(input: &TestInput, previous: Option<&TestState>) -> TestState {
    TestState {
        value: previous.map(|state| state.value).unwrap_or(0) + input.value,
        answer: None,
    }
}

fn transition(
    step: Step,
    state: &mut TestState,
    mode: &TestMode,
    signals: &mut Vec<String>,
) -> Transition<Step, String, String> {
    match (step, mode) {
        (Step::Start, TestMode::Complete) => {
            state.value += 1;
            Transition::Next(Step::Finish)
        }
        (Step::Finish, TestMode::Complete) => {
            Transition::Complete(format!("value={}", state.value))
        }
        (Step::Start, TestMode::Loop) | (Step::Loop, TestMode::Loop) => {
            Transition::Next(Step::Loop)
        }
        (Step::Start, TestMode::Interrupt) => Transition::Interrupt("answer?".to_string()),
        (Step::Start, TestMode::Emit) => {
            signals.push("signal-1".to_string());
            Transition::Complete("done".to_string())
        }
        (Step::Resume, _) => Transition::Complete(state.answer.clone().unwrap_or_default()),
        _ => Transition::Complete("done".to_string()),
    }
}

type Told = RunStreamEvent<Step, String, String, String>;

struct Runner {
    saver: MemorySaver,
    book: CancelBook<()>,
}

impl Runner {
    fn new() -> Self {
        Runner { saver: MemorySaver::new(), book: CancelBook::new() }
    }

    fn restore(&self, request: &RunRequest<TestInput>) -> Result<(TestState, Step), MachineError> {
        let checkpoint = self.saver.load(request.thread_id.as_str());
        let previous = checkpoint.as_ref().map(|record| TestState::read(&record.state));
        Ok(match restore_or_start(request.command, &request.run_id, checkpoint)? {
            Restore::Fresh => (new_state(&request.input, None), Step::Start),
            Restore::Restart => (new_state(&request.input, previous.as_ref()), Step::Start),
            Restore::Resume { interrupted_step, .. } => {
                let mut state = previous.expect("state");
                state.answer = request.input.answer.clone();
                match resume_step(ResumeAction::JumpTo(Step::Resume), interrupted_step)? {
                    ResumeStep::Named(step) => (state, step),
                    ResumeStep::Saved(step) => (state, Step::read(&step)),
                }
            }
            Restore::Continue { step } => (
                new_state(&request.input, previous.as_ref()),
                step.map(|step| Step::read(&step)).unwrap_or(Step::Start),
            ),
        })
    }

    fn turn(
        &mut self,
        request: &RunRequest<TestInput>,
        streaming: bool,
        told: &mut Vec<Told>,
    ) -> Result<StreamTerminal<String, String>, MachineError> {
        if self.book.is_cancelled(&request.run_id) {
            return Err(MachineError::Cancelled);
        }
        let (mut state, mut step) = self.restore(request)?;
        let mut turn = Turn::new(request.runtime_limits.max_steps, streaming);
        let mut led = Transition::Next(step);
        let mut event = TurnEvent::Go;
        loop {
            event = match turn.step(event) {
                TurnAction::Announce(step_count) => {
                    told.push(RunStreamEvent::StepStarted { step, step_count });
                    TurnEvent::Told(true)
                }
                TurnAction::Move => {
                    let mut signals = Vec::new();
                    led = transition(step, &mut state, &request.input.mode, &mut signals);
                    for signal in signals {
                        told.push(RunStreamEvent::Signal { signal });
                    }
                    TurnEvent::Moved(Moved::To(match led {
                        Transition::Next(_) => StepResult::Next,
                        Transition::Interrupt(_) => StepResult::Interrupt,
                        Transition::Complete(_) => StepResult::Complete,
                    }))
                }
                TurnAction::Save(_) => {
                    let saved = match &led {
                        Transition::Next(next) => Transition::Next(next.json()),
                        Transition::Interrupt(text) => {
                            Transition::Interrupt((step.json(), Json::string(text)))
                        }
                        Transition::Complete(_) => Transition::Complete(()),
                    };
                    let record = step_record(saved, state.json(), &request.run_id);
                    self.saver.save(request.thread_id.as_str(), &record);
                    TurnEvent::Saved(Ok(()), format!("{step:?}"))
                }
                TurnAction::Report(result) => {
                    told.push(RunStreamEvent::StepFinished { step, result });
                    TurnEvent::Told(true)
                }
                TurnAction::Advance => {
                    if let Transition::Next(next) = led {
                        step = next;
                    }
                    TurnEvent::Go
                }
                TurnAction::End(_) => {
                    let snapshot = state.json();
                    return Ok(match led {
                        Transition::Interrupt(interrupt) => {
                            StreamTerminal::Interrupted { interrupt, snapshot }
                        }
                        Transition::Complete(output) => StreamTerminal::Completed {
                            trace: turn.into_trace(),
                            output,
                            snapshot,
                        },
                        Transition::Next(_) => unreachable!(),
                    });
                }
                TurnAction::Cancelled => return Ok(StreamTerminal::Cancelled),
                TurnAction::Closed => return Ok(StreamTerminal::ReceiverClosed),
                TurnAction::Fail(error) => return Err(error),
            };
        }
    }

    fn invoke(
        &mut self,
        request: RunRequest<TestInput>,
    ) -> Result<RunOutput<String, String>, MachineError> {
        self.book.register_active(&request.run_id, ());
        let result = self.turn(&request, false, &mut Vec::new());
        self.book.unregister_active(&request.run_id);
        Ok(match result? {
            StreamTerminal::Completed { trace, output, snapshot } => {
                RunOutput::Completed { trace, output, snapshot }
            }
            StreamTerminal::Interrupted { interrupt, snapshot } => {
                RunOutput::Interrupted { interrupt, snapshot }
            }
            _ => panic!("expected an output"),
        })
    }

    fn stream(&mut self, request: RunRequest<TestInput>) -> Vec<Told> {
        let mut told = vec![RunStreamEvent::Started {
            run_id: request.run_id.clone(),
            session_id: request.session_id.clone(),
            thread_id: request.thread_id.clone(),
        }];
        self.book.register_active(&request.run_id, ());
        let result = self.turn(&request, true, &mut told);
        self.book.unregister_active(&request.run_id);
        told.extend(closing_event(result));
        told
    }
}

fn request(mode: TestMode) -> RunRequest<TestInput> {
    RunRequest {
        run_id: RunId::from("run-1"),
        session_id: SessionId::from("session-1"),
        thread_id: ThreadId::from("thread-1"),
        command: RunCommand::Start,
        input: TestInput { value: 1, answer: None, mode },
        snapshot: None,
        runtime_limits: RuntimeLimits::new(5),
    }
}

#[test]
fn typed_step_execution_completes() {
    let mut runner = Runner::new();
    let output = runner
        .invoke(request(TestMode::Complete))
        .expect("run should complete");

    match output {
        RunOutput::Completed { output, snapshot, .. } => {
            assert_eq!(output, "value=2");
            assert_eq!(fields(&snapshot)["value"], 2);
        }
        RunOutput::Interrupted { .. } => panic!("expected completed"),
    }
}

#[test]
fn max_steps_are_enforced() {
    let mut runner = Runner::new();
    let mut req = request(TestMode::Loop);
    req.runtime_limits.max_steps = 2;
    let err = runner.invoke(req).expect_err("run should fail");
    assert!(matches!(err, MachineError::MaxStepsExceeded { max: 2 }));
}

#[test]
fn cancelled_run_stops_before_execution() {
    let mut runner = Runner::new();
    let req = request(TestMode::Complete);
    assert!(runner.book.cancel_run(&req.run_id).is_none());
    let err = runner.invoke(req).expect_err("run should cancel");
    assert!(matches!(err, MachineError::Cancelled));
}

#[test]
fn cancelled_run_marker_is_cleared_after_run_exits() {
    let mut runner = Runner::new();
    let req = request(TestMode::Complete);
    assert!(runner.book.cancel_run(&req.run_id).is_none());
    let err = runner.invoke(req).expect_err("run should cancel");
    assert!(matches!(err, MachineError::Cancelled));
    assert_eq!(runner.book.cancelled_run_count(), 0);
}

#[test]
fn interrupt_checkpoint_resumes_to_completion() {
    let mut runner = Runner::new();

    let first = runner
        .invoke(request(TestMode::Interrupt))
        .expect("run should interrupt");
    match first {
        RunOutput::Interrupted { interrupt, snapshot } => {
            assert_eq!(interrupt, "answer?");
            assert_eq!(fields(&snapshot)["value"], 1);
        }
        RunOutput::Completed { .. } => panic!("expected interrupt"),
    }

    let mut second = request(TestMode::Complete);
    second.command = RunCommand::Resume;
    second.input.answer = Some("resumed".to_string());
    let output = runner.invoke(second).expect("resume should complete");
    match output {
        RunOutput::Completed { output, snapshot, .. } => {
            assert_eq!(output, "resumed");
            assert_eq!(fields(&snapshot)["answer"], "resumed");
        }
        RunOutput::Interrupted { .. } => panic!("expected completed"),
    }
}

#[test]
fn checkpoint_scope_uses_explicit_thread_id() {
    let mut runner = Runner::new();
    let mut first = request(TestMode::Complete);
    first.session_id = SessionId::from("same-session");
    first.thread_id = ThreadId::from("thread-a");
    let mut second = request(TestMode::Complete);
    second.session_id = SessionId::from("same-session");
    second.thread_id = ThreadId::from("thread-b");

    let out_a = runner.invoke(first).expect("thread a");
    let out_b = runner.invoke(second).expect("thread b");
    match (out_a, out_b) {
        (RunOutput::Completed { snapshot: a, .. }, RunOutput::Completed { snapshot: b, .. }) => {
            assert_eq!(fields(&a)["value"], 2);
            assert_eq!(fields(&b)["value"], 2);
        }
        _ => panic!("expected completed outputs"),
    }
}

#[test]
fn new_run_starts_at_start_step_when_thread_has_previous_running_checkpoint() {
    let mut runner = Runner::new();
    runner.saver.save(
        "thread-a",
        &CheckpointRecord::running(
            TestState { value: 100, answer: None }.json(),
            Some(Step::Finish.json()),
            "old-run".to_string(),
        ),
    );

    let mut req = request(TestMode::Complete);
    req.run_id = RunId::from("new-run");
    req.thread_id = ThreadId::from("thread-a");
    let output = runner.invoke(req).expect("new run should complete");
    match output {
        RunOutput::Completed { output, .. } => assert_eq!(output, "value=102"),
        RunOutput::Interrupted { .. } => panic!("expected completed"),
    }
}

#[test]
fn resume_requires_pending_interrupt() {
    let mut runner = Runner::new();
    let mut req = request(TestMode::Complete);
    req.command = RunCommand::Resume;
    let err = runner.invoke(req).expect_err("resume should fail");
    assert!(matches!(err, MachineError::NoPendingInterrupt));
}

#[test]
fn stream_signal_is_ordered_before_terminal() {
    let mut runner = Runner::new();
    let mut saw_signal = false;
    let mut saw_end = false;
    for event in runner.stream(request(TestMode::Emit)) {
        match event {
            RunStreamEvent::Signal { signal } => {
                assert_eq!(signal, "signal-1");
                saw_signal = true;
            }
            RunStreamEvent::Completed { output, .. } => {
                assert!(saw_signal, "signal must arrive before terminal");
                assert_eq!(output, "done");
                saw_end = true;
            }
            _ => {}
        }
    }
    assert!(saw_end);
}

#[test]
fn stream_interrupt_can_resume_with_invoke_checkpoint() {
    let mut runner = Runner::new();
    let told = runner.stream(request(TestMode::Interrupt));
    let interrupted = told.iter().any(|event| {
        matches!(event, RunStreamEvent::Interrupted { interrupt, .. } if interrupt == "answer?")
    });
    assert!(interrupted);

    let mut second = request(TestMode::Complete);
    second.command = RunCommand::Resume;
    second.input.answer = Some("resumed-from-stream".to_string());
    let output = runner.invoke(second).expect("resume should complete");
    match output {
        RunOutput::Completed { output, .. } => assert_eq!(output, "resumed-from-stream"),
        RunOutput::Interrupted { .. } => panic!("expected completed"),
    }
}

#[test]
fn traces_name_each_step_and_its_result() {
    let mut runner = Runner::new();
    let output = runner.invoke(request(TestMode::Complete)).expect("output");
    let RunOutput::Completed { trace, .. } = output else {
        panic!("expected completed");
    };
    assert_eq!(
        trace.iter().map(|step| step.as_str()).collect::<Vec<_>>(),
        vec![
            r#"{"result":"next","step":"Start"}"#,
            r#"{"result":"complete","step":"Finish"}"#,
        ]
    );
}

#[test]
fn streamed_steps_are_counted() {
    let mut runner = Runner::new();
    let counts: Vec<u32> = runner
        .stream(request(TestMode::Loop))
        .iter()
        .filter_map(|event| match event {
            RunStreamEvent::StepStarted { step_count, .. } => Some(*step_count),
            _ => None,
        })
        .collect();
    assert_eq!(counts, vec![1, 2, 3, 4, 5]);
}

#[test]
fn same_run_goes_on_where_it_stopped() {
    let mut runner = Runner::new();
    runner.saver.save(
        "thread-1",
        &step_record(
            Transition::Next(Step::Finish.json()),
            TestState { value: 100, answer: None }.json(),
            &RunId::from("run-1"),
        ),
    );
    let output = runner.invoke(request(TestMode::Complete)).expect("output");
    let RunOutput::Completed { output, .. } = output else {
        panic!("expected completed");
    };
    assert_eq!(output, "value=101");
}

#[test]
fn interrupted_step_must_be_named_to_be_reentered() {
    assert!(matches!(
        resume_step::<Step>(ResumeAction::ReenterInterruptedStep, None),
        Err(MachineError::NoInterruptedStep)
    ));
    assert!(matches!(
        resume_step::<Step>(ResumeAction::ReenterInterruptedStep, Some(Step::Start.json())),
        Ok(ResumeStep::Saved(step)) if Step::read(&step) == Step::Start
    ));
}

#[test]
fn turns_end_when_nobody_listens_or_the_run_is_cancelled() {
    let mut turn = Turn::new(5, true);
    assert!(matches!(turn.step(TurnEvent::Go), TurnAction::Announce(1)));
    assert!(matches!(turn.step(TurnEvent::Told(false)), TurnAction::Closed));

    let mut turn = Turn::new(5, true);
    turn.step(TurnEvent::Go);
    assert!(matches!(turn.step(TurnEvent::Told(true)), TurnAction::Move));
    assert!(matches!(
        turn.step(TurnEvent::Moved(Moved::Cancelled)),
        TurnAction::Cancelled
    ));

    let mut turn = Turn::new(5, false);
    assert!(matches!(turn.step(TurnEvent::Go), TurnAction::Move));
    assert!(matches!(
        turn.step(TurnEvent::Moved(Moved::Cancelled)),
        TurnAction::Fail(MachineError::Cancelled)
    ));
}

#[test]
fn cancelling_reaches_the_control_of_an_active_run() {
    let mut book = CancelBook::new();
    let run_id = RunId::from("run-1");
    assert!(!book.register_active(&run_id, 7));
    assert_eq!(book.active_run_count(), 1);
    assert_eq!(book.cancel_run(&run_id), Some(&7));
    assert!(book.is_cancelled(&run_id));
    book.unregister_active(&run_id);
    assert_eq!(book.active_run_count(), 0);
    assert!(!book.is_cancelled(&run_id));
}
