use std::cell::Cell;

use tokio::sync::mpsc;
use typemach::error::MachineError;
use typemach::flow::{numbers_left, StartRunResult};
use typemach::ids::{LeaseId, RunId, SessionId, ThreadId, WorkerId};
use typemach::json::Json;
use typemach::life_view::{AppendEventResult, StartRunRejection};
use typemach::lifecycle::{RunCursor, RunLifecycle, RunSubscription, RunTail, REPLAY_LIMIT};
use typemach::memory::MemoryRunStore;
use typemach::model::Clock;
use typemach::registry::{RunHandle, RunRegistry};
use typemach::store::{
    CommitPlan, FinishRunResult, LeaseClaim, RunCommitResult, RunEvent, RunEventEnvelope,
    RunEventPayload, RunFinish, RunStart, RunStatus,
};

#[derive(Debug, Clone, PartialEq, Eq)]
struct TestPayload {
    terminal: bool,
    name: &'static str,
}

impl RunEventPayload for TestPayload {
    fn is_terminal(&self) -> bool {
        self.terminal
    }

    fn copy(&self) -> Self {
        self.clone()
    }
}

type TestEvent = RunEventEnvelope<TestPayload>;
type Lifecycle = RunLifecycle<TestEvent, ()>;
type Store = MemoryRunStore<TestEvent, ()>;

fn now() -> Clock {
    Clock { now: 0, wall_ms: 0 }
}

fn lifecycle() -> Lifecycle {
    RunLifecycle::new(RunRegistry::new(), Store::new(), 8)
}

fn run_start(run_id: &str, key: Option<&str>) -> RunStart {
    RunStart {
        run_id: RunId::from(run_id),
        session_id: SessionId::from("session-a"),
        thread_id: ThreadId::from(format!("thread-{run_id}")),
        agent_kind: "test".to_string(),
        model: None,
        client_run_key: key.map(str::to_string),
        parent_run_id: None,
        retry_of_run_id: None,
        scope: scope(),
        metadata: Json::empty_object(),
        input: None,
        entries: Vec::new(),
        lease: None,
    }
}

fn leased_run_start(run_id: &str, owner: &str) -> RunStart {
    let mut run = run_start(run_id, None);
    run.lease = Some(LeaseClaim::new(
        WorkerId::from(owner),
        LeaseId::from("lease-a"),
        30_000_000_000,
    ));
    run
}

fn scope() -> Json {
    Json::parse(r#"{"tenant": "demo"}"#).expect("scope")
}

fn other_scope() -> Json {
    Json::parse(r#"{"tenant": "other"}"#).expect("scope")
}

fn payload(terminal: bool) -> TestPayload {
    TestPayload {
        terminal,
        name: if terminal { "terminal" } else { "event" },
    }
}

fn event(run_id: &str, seq: i64, terminal: bool) -> TestEvent {
    RunEventEnvelope::new(
        RunId::from(run_id),
        SessionId::from("session-a"),
        seq,
        payload(terminal),
    )
}

fn finish_request(run_id: &str, status: RunStatus) -> RunFinish<()> {
    RunFinish {
        run_id: RunId::from(run_id),
        session_id: SessionId::from("session-a"),
        scope: scope(),
        status,
        finish_reason: "stop".to_string(),
        error_code: None,
        entries: Vec::new(),
        data: (),
    }
}

fn token(lifecycle: &mut Lifecycle) -> RunHandle {
    lifecycle.issue("token".to_string())
}

fn started(run_id: &str) -> Lifecycle {
    let mut lifecycle = lifecycle();
    let handle = token(&mut lifecycle);
    lifecycle
        .start_run(run_start(run_id, None), handle, None, now())
        .expect("start");
    lifecycle
}

fn append(lifecycle: &mut Lifecycle, run_id: &str) -> Result<AppendEventResult<TestEvent>, MachineError> {
    lifecycle.append_event(
        &RunId::from(run_id),
        &SessionId::from("session-a"),
        &scope(),
        payload(false),
    )
}

fn next_event(tail: &mut RunTail<TestEvent>) -> Option<TestEvent> {
    while let Ok(event) = tail.receiver.try_recv() {
        if tail.accept(&event) {
            return Some(event);
        }
    }
    None
}

#[test]
fn lifecycle_subscribe_returns_terminal_replay_when_inactive() {
    let mut lifecycle = started("run-a");
    lifecycle
        .finish_run(finish_request("run-a", RunStatus::Completed), payload(true), now())
        .expect("finish");

    let RunSubscription::Inactive { status, replay } = lifecycle
        .subscribe(&RunId::from("run-a"), &scope(), RunCursor::from(0))
        .ok()
        .expect("subscribe")
    else {
        panic!("expected inactive subscription");
    };
    assert_eq!(status, RunStatus::Completed);
    assert_eq!(replay.len(), 1);
    assert!(replay[0].is_terminal());
}

#[test]
fn lifecycle_subscribe_reports_missing_run() {
    let mut lifecycle = lifecycle();
    assert!(matches!(
        lifecycle
            .subscribe(&RunId::from("missing"), &scope(), RunCursor::from(0))
            .ok()
            .expect("subscribe"),
        RunSubscription::Missing
    ));
}

#[test]
fn lifecycle_subscribe_quick_fails_remote_running_run() {
    let mut store = Store::new();
    store
        .start_run(&leased_run_start("run-a", "worker-a"), now())
        .expect("start");
    let mut peer = RunLifecycle::new(RunRegistry::new(), store, 8);

    let err = peer
        .subscribe(&RunId::from("run-a"), &scope(), RunCursor::from(0))
        .err()
        .expect("remote live subscribe must fail");
    assert!(matches!(
        err,
        MachineError::NotOwner {
            owner: Some(owner),
        } if owner == WorkerId::from("worker-a")
    ));
}

#[test]
fn lifecycle_request_cancel_marks_registry_and_store() {
    let mut lifecycle = started("run-a");
    let handle = lifecycle
        .request_cancel(&RunId::from("run-a"), &scope())
        .expect("cancel")
        .expect("active handle");
    assert!(handle.is_cancelled(lifecycle.flags()));
    assert!(
        lifecycle
            .store()
            .lookup_run(&RunId::from("run-a"), &scope())
            .expect("run")
            .cancel_requested
    );
}

#[test]
fn lifecycle_request_cancel_rejects_wrong_scope_without_cancelling_handle() {
    let mut lifecycle = lifecycle();
    let handle = token(&mut lifecycle);
    lifecycle
        .start_run(run_start("run-a", None), handle.clone(), None, now())
        .expect("start");

    let err = lifecycle
        .request_cancel(&RunId::from("run-a"), &other_scope())
        .expect_err("wrong scope must not cancel");
    assert!(matches!(err, MachineError::RunNotFound));
    assert!(!handle.is_cancelled(lifecycle.flags()));
    assert!(
        !lifecycle
            .store()
            .lookup_run(&RunId::from("run-a"), &scope())
            .expect("run")
            .cancel_requested
    );
}

#[test]
fn lifecycle_request_cancel_quick_fails_remote_running_run() {
    let mut owner = lifecycle();
    let handle = token(&mut owner);
    owner
        .start_run(leased_run_start("run-a", "worker-a"), handle.clone(), None, now())
        .expect("start");
    let (registry, store) = owner.into_parts();
    let mut peer = RunLifecycle::new(RunRegistry::new(), store, 8);

    let err = peer
        .request_cancel(&RunId::from("run-a"), &scope())
        .expect_err("remote cancel must fail");
    assert!(matches!(
        err,
        MachineError::NotOwner {
            owner: Some(owner),
        } if owner == WorkerId::from("worker-a")
    ));
    assert!(!handle.is_cancelled(registry.flags()));
    assert!(
        !peer
            .store()
            .lookup_run(&RunId::from("run-a"), &scope())
            .expect("run")
            .cancel_requested
    );
}

#[test]
fn lifecycle_start_run_returns_idempotent_existing_without_registry_insert() {
    let mut lifecycle = RunLifecycle::new(RunRegistry::new(), Store::new(), 1);
    let handle = lifecycle.issue("token-a".to_string());
    assert!(matches!(
        lifecycle
            .start_run(
                run_start("run-a", Some("client-key")),
                handle,
                None,
                now(),
            )
            .expect("first"),
        StartRunResult::Started
    ));
    let mut retry = run_start("run-b", Some("client-key"));
    retry.thread_id = ThreadId::from("thread-run-a");
    let handle = lifecycle.issue("token-b".to_string());
    match lifecycle
        .start_run(retry, handle, None, now())
        .expect("second")
    {
        StartRunResult::Existing(existing) => {
            assert_eq!(existing.run_id, RunId::from("run-a"));
        }
        StartRunResult::Started | StartRunResult::NotRegistered(_) => {
            panic!("expected idempotent existing run")
        }
    }
    assert_eq!(lifecycle.registry().len(), 1);
}

#[test]
fn lifecycle_start_run_does_not_persist_when_registry_is_full() {
    let mut lifecycle = RunLifecycle::new(RunRegistry::new(), Store::new(), 0);

    let handle = token(&mut lifecycle);
    assert!(matches!(
        lifecycle
            .start_run(run_start("run-a", None), handle, None, now())
            .expect("start"),
        StartRunResult::NotRegistered(StartRunRejection::CapacityExceeded)
    ));

    let lookup = lifecycle.store().lookup_run(&RunId::from("run-a"), &scope());
    assert!(lookup.is_none());
    assert_eq!(lifecycle.registry().len(), 0);
}

#[test]
fn lifecycle_finish_detached_completes_stored_unregistered_run() {
    let mut lifecycle = RunLifecycle::new(RunRegistry::new(), Store::new(), 0);
    lifecycle
        .store_mut()
        .start_run(&run_start("run-a", None), now())
        .expect("start");

    let result = lifecycle
        .finish_detached(finish_request("run-a", RunStatus::Error), payload(true), now())
        .expect("detached finish");
    assert!(matches!(result, FinishRunResult::Finished(_)));
    assert_eq!(result.terminal_event().seq, 1);

    let lookup = lifecycle
        .store()
        .lookup_run(&RunId::from("run-a"), &scope())
        .expect("stored run");
    assert_eq!(lookup.status, RunStatus::Error);
}

#[test]
fn lifecycle_finish_detached_uses_last_stored_event_seq() {
    let mut lifecycle = RunLifecycle::new(RunRegistry::new(), Store::new(), 0);
    lifecycle
        .store_mut()
        .start_run(&run_start("run-a", None), now())
        .expect("start");
    lifecycle
        .store_mut()
        .record_event(&RunId::from("run-a"), &scope(), &event("run-a", 1, false))
        .expect("record");

    let result = lifecycle
        .finish_detached(finish_request("run-a", RunStatus::Completed), payload(true), now())
        .expect("detached finish");
    assert_eq!(result.terminal_event().seq, 2);
}

#[test]
fn lifecycle_finish_detached_rejects_wrong_scope_before_active_check() {
    let mut lifecycle = started("run-a");
    let mut finish = finish_request("run-a", RunStatus::Completed);
    finish.scope = other_scope();
    let err = lifecycle
        .finish_detached(finish, payload(true), now())
        .expect_err("wrong scope must be hidden");
    assert!(matches!(err, MachineError::RunNotFound));
}

#[test]
fn lifecycle_finish_detached_rejects_active_run() {
    let mut lifecycle = started("run-a");
    let err = lifecycle
        .finish_detached(finish_request("run-a", RunStatus::Completed), payload(true), now())
        .expect_err("active run must use registry finish");
    assert!(matches!(err, MachineError::RunAlreadyActive));
}

#[test]
fn lifecycle_appends_persists_and_publishes_event() {
    let mut lifecycle = lifecycle();
    let (sender, mut receiver) = mpsc::unbounded_channel();
    let handle = token(&mut lifecycle);
    lifecycle
        .start_run(run_start("run-a", None), handle, Some(sender), now())
        .expect("start");

    let result = append(&mut lifecycle, "run-a").expect("append");
    assert!(matches!(result, AppendEventResult::Recorded(_)));
    assert_eq!(receiver.try_recv().expect("published").seq, 1);

    let events = lifecycle
        .store()
        .list_events(&RunId::from("run-a"), &scope(), 0, usize::MAX)
        .expect("events");
    assert_eq!(events.len(), 1);
    assert_eq!(events[0].seq, 1);
}

#[test]
fn lifecycle_finishes_once_and_blocks_later_appends() {
    let mut lifecycle = started("run-a");
    let terminal = lifecycle
        .finish_run(finish_request("run-a", RunStatus::Completed), payload(true), now())
        .expect("finish");
    assert!(terminal.is_finished());
    assert_eq!(terminal.terminal_event().seq, 1);
    assert_eq!(lifecycle.registry().len(), 0);
    assert!(matches!(
        append(&mut lifecycle, "run-a"),
        Err(MachineError::RunNotFound)
    ));
}

#[test]
fn lifecycle_terminal_seq_follows_last_appended_event() {
    let mut lifecycle = started("run-a");
    append(&mut lifecycle, "run-a").expect("append");

    let terminal = lifecycle
        .finish_run(finish_request("run-a", RunStatus::Completed), payload(true), now())
        .expect("finish");
    assert_eq!(terminal.terminal_event().seq, 2);
}

#[test]
fn lifecycle_terminal_releases_capacity() {
    let mut lifecycle = RunLifecycle::new(RunRegistry::new(), Store::new(), 1);
    let handle = lifecycle.issue("token-a".to_string());
    lifecycle
        .start_run(
            run_start("run-a", None),
            handle,
            None,
            now(),
        )
        .expect("start first");
    lifecycle
        .finish_run(finish_request("run-a", RunStatus::Completed), payload(true), now())
        .expect("finish");

    let handle = lifecycle.issue("token-b".to_string());
    assert!(matches!(
        lifecycle
            .start_run(
                run_start("run-b", None),
                handle,
                None,
                now(),
            )
            .expect("start second"),
        StartRunResult::Started
    ));
}

#[test]
fn lifecycle_repeated_finish_after_registry_cleanup_returns_existing_terminal() {
    let mut lifecycle = started("run-a");
    let first = lifecycle
        .finish_run(finish_request("run-a", RunStatus::Completed), payload(true), now())
        .expect("first finish");
    let called = Cell::new(false);

    let second = lifecycle
        .finish_with(
            finish_request("run-a", RunStatus::Error),
            |seq| {
                called.set(true);
                event("run-a", seq, true)
            },
            now(),
        )
        .expect("second finish");

    assert!(matches!(second, FinishRunResult::AlreadyFinished(_)));
    assert_eq!(second.terminal_event(), first.terminal_event());
    assert!(!called.get());
}

#[test]
fn lifecycle_invalid_finish_keeps_active_lock_and_rewinds_seq() {
    let mut lifecycle = started("run-a");
    let err = lifecycle
        .finish_with(
            finish_request("run-a", RunStatus::Completed),
            |seq| {
                RunEventEnvelope::new(
                    RunId::from("run-a"),
                    SessionId::from("wrong-session"),
                    seq,
                    payload(true),
                )
            },
            now(),
        )
        .expect_err("invalid terminal event should fail");
    assert!(matches!(err, MachineError::InvalidRunEvent { .. }));
    assert!(
        lifecycle.registry().handle(&RunId::from("run-a")).is_some(),
        "active run should remain registered after validation failure"
    );

    let terminal = lifecycle
        .finish_run(finish_request("run-a", RunStatus::Completed), payload(true), now())
        .expect("finish");
    assert_eq!(terminal.terminal_event().seq, 1);
}

#[test]
fn lifecycle_subscribe_replays_then_tails_active_run() {
    let mut lifecycle = started("run-a");
    append(&mut lifecycle, "run-a").expect("append");

    let RunSubscription::Active { replay, mut tail } = lifecycle
        .subscribe(&RunId::from("run-a"), &scope(), RunCursor::from(0))
        .ok()
        .expect("subscribe")
    else {
        panic!("expected active subscription");
    };
    assert_eq!(replay.len(), 1);
    assert_eq!(tail.cursor(), RunCursor::new(1));

    append(&mut lifecycle, "run-a").expect("append live");
    assert_eq!(next_event(&mut tail).expect("live").seq, 2);
}

#[test]
fn lifecycle_subscribe_returns_replay_page_before_live_tail() {
    let mut lifecycle = started("run-replay");
    for _ in 0..=REPLAY_LIMIT {
        append(&mut lifecycle, "run-replay").expect("append");
    }

    let RunSubscription::Replay { page } = lifecycle
        .subscribe(&RunId::from("run-replay"), &scope(), RunCursor::from(0))
        .ok()
        .expect("subscribe")
    else {
        panic!("expected replay page");
    };
    assert_eq!(page.len(), REPLAY_LIMIT);
    assert_eq!(page.cursor(), RunCursor::new(REPLAY_LIMIT as i64));

    let RunSubscription::Active { replay, tail } = lifecycle
        .subscribe(&RunId::from("run-replay"), &scope(), page.cursor())
        .ok()
        .expect("subscribe")
    else {
        panic!("expected active");
    };
    assert_eq!(replay.len(), 1);
    assert_eq!(tail.cursor(), RunCursor::new(REPLAY_LIMIT as i64 + 1));
}

#[test]
fn run_tail_filters_events_at_or_before_cursor() {
    let (sender, receiver) = mpsc::unbounded_channel();
    let mut tail = RunTail::new(receiver, RunCursor::new(1));
    sender.send(event("run-a", 1, false)).expect("send dup");
    sender.send(event("run-a", 2, false)).expect("send fresh");

    assert_eq!(next_event(&mut tail).expect("fresh").seq, 2);
    assert_eq!(tail.cursor(), RunCursor::new(2));
}

fn plan(event_count: usize, finish: Option<RunFinish<()>>) -> CommitPlan<()> {
    CommitPlan {
        lease: None,
        checkpoint: None,
        event_count,
        effects: Vec::new(),
        items: Vec::new(),
        entries: Vec::new(),
        finish,
    }
}

#[test]
fn commits_number_their_events_in_a_row() {
    let mut lifecycle = started("run-a");
    append(&mut lifecycle, "run-a").expect("append");
    let result = lifecycle
        .commit_events(
            &RunId::from("run-a"),
            &SessionId::from("session-a"),
            &scope(),
            plan(2, Some(finish_request("run-a", RunStatus::Completed))),
            vec![payload(false), payload(true)],
            now(),
        )
        .expect("commit");
    let RunCommitResult::Finished { events, result } = result else {
        panic!("expected the end");
    };
    assert_eq!(events.iter().map(|event| event.seq).collect::<Vec<_>>(), vec![2, 3]);
    assert!(result.is_finished());
    assert!(lifecycle.registry().is_empty());
}

#[test]
fn refused_commit_gives_its_numbers_back() {
    let mut lifecycle = started("run-a");
    let err = lifecycle
        .commit_events(
            &RunId::from("run-a"),
            &SessionId::from("session-a"),
            &scope(),
            plan(2, None),
            vec![payload(false), payload(true)],
            now(),
        )
        .expect_err("an end without a finish");
    assert!(matches!(err, MachineError::InvalidRunEvent { .. }));
    let AppendEventResult::Recorded(event) = append(&mut lifecycle, "run-a").expect("append") else {
        panic!("expected the event");
    };
    assert_eq!(event.seq, 1);
}

#[test]
fn sessions_get_names_of_their_own() {
    let mut lifecycle = lifecycle();
    let first = lifecycle.ensure_session(None, &scope());
    let second = lifecycle.ensure_session(None, &scope());
    let given = lifecycle.ensure_session(Some(SessionId::from("mine")), &scope());
    assert_eq!(first.as_str(), "session-1");
    assert_eq!(second.as_str(), "session-2");
    assert_eq!(given.as_str(), "mine");
}

#[test]
fn first_listener_hears_all_that_is_recorded() {
    let mut lifecycle = lifecycle();
    let (sender, mut receiver) = mpsc::unbounded_channel();
    let handle = token(&mut lifecycle);
    lifecycle
        .start_run(run_start("run-a", None), handle, Some(sender), now())
        .expect("start");
    append(&mut lifecycle, "run-a").expect("append");
    let refused = lifecycle.append_event(
        &RunId::from("run-a"),
        &SessionId::from("session-a"),
        &scope(),
        payload(true),
    );
    assert!(refused.is_err());
    lifecycle
        .commit_events(
            &RunId::from("run-a"),
            &SessionId::from("session-a"),
            &scope(),
            plan(2, None),
            vec![payload(false), payload(false)],
            now(),
        )
        .expect("commit");
    lifecycle
        .finish_run(finish_request("run-a", RunStatus::Completed), payload(true), now())
        .expect("finish");
    let mut heard = Vec::new();
    while let Ok(event) = receiver.try_recv() {
        heard.push((event.seq, event.is_terminal()));
    }
    assert_eq!(heard, vec![(1, false), (2, false), (3, false), (4, true)]);
}

#[test]
fn who_joins_later_gets_the_rest_on_their_own_channel() {
    let mut lifecycle = started("run-a");
    append(&mut lifecycle, "run-a").expect("append");
    append(&mut lifecycle, "run-a").expect("append");
    let RunSubscription::Active { replay, mut tail } = lifecycle
        .subscribe(&RunId::from("run-a"), &scope(), RunCursor::from(1))
        .ok()
        .expect("subscribe")
    else {
        panic!("expected active subscription");
    };
    append(&mut lifecycle, "run-a").expect("append");
    lifecycle
        .commit_events(
            &RunId::from("run-a"),
            &SessionId::from("session-a"),
            &scope(),
            plan(2, Some(finish_request("run-a", RunStatus::Completed))),
            vec![payload(false), payload(true)],
            now(),
        )
        .expect("commit");
    let mut all: Vec<i64> = replay.iter().map(|event| event.seq).collect();
    while let Some(event) = next_event(&mut tail) {
        all.push(event.seq);
    }
    assert_eq!(all, vec![2, 3, 4, 5]);
}

#[test]
fn tails_let_nothing_through_twice() {
    let (_sender, receiver) = mpsc::unbounded_channel();
    let mut tail = RunTail::new(receiver, RunCursor::new(2));
    let mut passed = Vec::new();
    for seq in [1, 3, 2, 3, 5, 4, 5, 6] {
        if tail.accept(&event("run-a", seq, false)) {
            passed.push(seq);
        }
    }
    assert_eq!(passed, vec![3, 5, 6]);
    assert_eq!(tail.cursor().as_i64(), 6);
}

#[test]
fn cursors_compare_by_their_places() {
    for (a, b) in [(-3, -2), (0, 0), (7, 1), (i64::MIN, i64::MAX)] {
        let (left, right) = (RunCursor::new(a), RunCursor::from(b));
        assert_eq!(left < right, a < b);
        assert_eq!(left > right, a > b);
        assert_eq!(left == right, a == b);
        assert_eq!(left.partial_cmp(&right), Some(left.cmp(&right)));
        assert_eq!(i64::from(left), a);
    }
    assert_eq!(RunCursor::default(), RunCursor::start());
    assert_eq!(RunCursor::start(), RunCursor::new(0));
}

#[test]
fn runs_with_numbers_left_can_go_on() {
    let lifecycle = started("run-a");
    let registry = lifecycle.registry();
    assert!(numbers_left(registry, &RunId::from("run-a"), 3));
    assert!(numbers_left(registry, &RunId::from("run-a"), i64::MAX as usize));
    assert!(!numbers_left(registry, &RunId::from("run-a"), usize::MAX));
    assert!(numbers_left(registry, &RunId::from("missing"), usize::MAX));
}
