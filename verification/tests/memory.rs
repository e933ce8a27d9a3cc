use typemach::checkpoint::{CheckpointRecord, MemorySaver};
use typemach::error::MachineError;
use typemach::ids::{LeaseId, RunId, SessionId, ThreadId, WorkerId};
use typemach::json::Json;
use typemach::memory::MemoryRunStore;
use typemach::model::Clock;
use typemach::op::{EffectStatus, EffectUpdate, EntryQuery, EntryWrite, ItemWrite, Vis};
use typemach::store::{
    CheckpointWrite, FinishRunResult, Lease, LeaseClaim, RunCommit, RunCommitResult, RunEvent,
    RunEventEnvelope, RunEventPayload, RunFinish, RunFinishRecord, RunStart, RunStatus,
    StoreStartResult,
};

const MILLI: u128 = 1_000_000;
const SECOND: u128 = 1_000_000_000;

#[derive(Debug, Clone, PartialEq, Eq)]
struct TestEvent {
    run_id: RunId,
    session_id: SessionId,
    seq: i64,
    terminal: bool,
    name: &'static str,
}

impl RunEvent for TestEvent {
    fn run_id(&self) -> &RunId {
        &self.run_id
    }

    fn session_id(&self) -> &SessionId {
        &self.session_id
    }

    fn seq(&self) -> i64 {
        self.seq
    }

    fn is_terminal(&self) -> bool {
        self.terminal
    }

    fn copy(&self) -> Self {
        self.clone()
    }
}

fn at(now: u128) -> Clock {
    Clock { now, wall_ms: (now / MILLI) as i64 }
}

fn json(text: &str) -> Json {
    Json::parse(text).expect("json")
}

fn demo() -> Json {
    json(r#"{"tenant": "demo"}"#)
}

fn run_start(run_id: &str, session_id: &str, key: Option<&str>) -> RunStart {
    RunStart {
        run_id: RunId::from(run_id),
        session_id: SessionId::from(session_id),
        thread_id: ThreadId::from(format!("thread-{run_id}")),
        agent_kind: "test".to_string(),
        model: None,
        client_run_key: key.map(str::to_string),
        parent_run_id: None,
        retry_of_run_id: None,
        scope: demo(),
        metadata: json("{}"),
        input: None,
        entries: Vec::new(),
        lease: None,
    }
}

fn event(run_id: &str, session_id: &str, seq: i64, terminal: bool) -> TestEvent {
    TestEvent {
        run_id: RunId::from(run_id),
        session_id: SessionId::from(session_id),
        seq,
        terminal,
        name: if terminal { "terminal" } else { "event" },
    }
}

fn finish_of<D>(start: &RunStart, terminal_event: TestEvent, data: D) -> RunFinishRecord<TestEvent, D> {
    RunFinishRecord {
        run_id: RunId::from("run-a"),
        session_id: SessionId::from("session-a"),
        scope: start.scope.clone(),
        status: RunStatus::Completed,
        finish_reason: "stop".to_string(),
        error_code: None,
        terminal_event,
        entries: Vec::new(),
        data,
    }
}

fn store() -> MemoryRunStore<TestEvent, ()> {
    MemoryRunStore::new()
}

#[test]
fn memory_store_idempotent_start_returns_existing_run() {
    let mut store = store();
    let first = run_start("run-a", "session-a", Some("client-key"));
    let mut second = run_start("run-b", "session-a", Some("client-key"));
    second.thread_id = first.thread_id.clone();
    assert!(matches!(
        store.start_run(&first, at(0)).expect("start"),
        StoreStartResult::Created
    ));
    match store.start_run(&second, at(0)).expect("idempotent") {
        StoreStartResult::Existing(existing) => {
            assert_eq!(existing.run_id, RunId::from("run-a"));
            assert_eq!(existing.status, RunStatus::Running);
            assert!(!existing.cancel_requested);
        }
        StoreStartResult::Created => panic!("expected existing run"),
    }
}

#[test]
fn memory_store_records_running_events_and_skips_after_terminal() {
    let mut store = store();
    let start = run_start("run-a", "session-a", None);
    store.start_run(&start, at(0)).expect("start");

    assert!(store
        .record_event(
            &RunId::from("run-a"),
            &start.scope,
            &event("run-a", "session-a", 1, false)
        )
        .expect("record"));
    let terminal = event("run-a", "session-a", 2, true);
    let finish = finish_of(&start, terminal.clone(), ());
    let result = store.finish_run(finish, at(0)).expect("finish");
    assert!(matches!(result, FinishRunResult::Finished(_)));
    assert_eq!(
        store.terminal_event(&RunId::from("run-a"), &start.scope),
        Some(terminal.clone())
    );
    assert!(!store
        .record_event(
            &RunId::from("run-a"),
            &start.scope,
            &event("run-a", "session-a", 3, false)
        )
        .expect("post-terminal record"));

    let events = store
        .list_events(&RunId::from("run-a"), &start.scope, 0, usize::MAX)
        .expect("events");
    assert_eq!(events.len(), 2);
    assert_eq!(events[0].seq, 1);
    assert_eq!(events[1], terminal);
}

#[test]
fn memory_store_terminal_competes_once() {
    let mut store = store();
    let start = run_start("run-a", "session-a", None);
    store.start_run(&start, at(0)).expect("start");
    let first_terminal = event("run-a", "session-a", 1, true);
    let second_terminal = event("run-a", "session-a", 2, true);
    let first = finish_of(&start, first_terminal.clone(), ());
    let mut second = finish_of(&start, second_terminal, ());
    second.status = RunStatus::Error;
    second.finish_reason = "runtime_failed".to_string();

    assert!(matches!(
        store.finish_run(first, at(0)).expect("first"),
        FinishRunResult::Finished(_)
    ));
    let result = store.finish_run(second, at(0)).expect("second");
    assert!(matches!(result, FinishRunResult::AlreadyFinished(_)));
    assert_eq!(result.into_terminal_event(), first_terminal);
}

#[test]
fn memory_store_marks_cancel_requested() {
    let mut store = store();
    let start = run_start("run-a", "session-a", None);
    store.start_run(&start, at(0)).expect("start");

    store
        .mark_cancelled(&RunId::from("run-a"), &start.scope)
        .expect("cancel");

    let lookup = store
        .lookup_run(&RunId::from("run-a"), &start.scope)
        .expect("run");
    assert!(lookup.cancel_requested);
    assert_eq!(lookup.status, RunStatus::Running);
}

#[test]
fn memory_store_scopes_terminal_event_cancel_and_record_paths() {
    let mut store = store();
    let start = run_start("run-a", "session-a", None);
    let wrong_scope = json(r#"{"tenant": "other"}"#);
    store.start_run(&start, at(0)).expect("start");

    assert!(matches!(
        store.record_event(
            &RunId::from("run-a"),
            &wrong_scope,
            &event("run-a", "session-a", 1, false),
        ),
        Err(MachineError::RunNotFound)
    ));
    assert!(matches!(
        store.mark_cancelled(&RunId::from("run-a"), &wrong_scope),
        Err(MachineError::RunNotFound)
    ));

    let terminal = event("run-a", "session-a", 1, true);
    let finish = finish_of(&start, terminal.clone(), ());
    store.finish_run(finish, at(0)).expect("finish");

    assert_eq!(
        store.terminal_event(&RunId::from("run-a"), &wrong_scope),
        None
    );
    assert_eq!(
        store.terminal_event(&RunId::from("run-a"), &start.scope),
        Some(terminal)
    );
}

#[test]
fn memory_store_uses_typed_scope_for_lookup_and_idempotency() {
    let mut store = store();
    let alpha = json(r#"{"tenant": "alpha"}"#);
    let beta = json(r#"{"tenant": "beta"}"#);
    let mut start = run_start("run-a", "session-a", Some("client-key"));
    start.thread_id = ThreadId::from("thread-a");
    start.scope = alpha.clone();

    assert!(matches!(
        store.start_run(&start, at(0)).expect("start"),
        StoreStartResult::Created
    ));
    assert!(store.lookup_run(&RunId::from("run-a"), &beta).is_none());
    assert!(store.lookup_run(&RunId::from("run-a"), &alpha).is_some());

    let mut retry = run_start("run-b", "session-a", Some("client-key"));
    retry.thread_id = ThreadId::from("thread-b");
    retry.scope = beta;
    assert!(matches!(
        store.start_run(&retry, at(0)).expect("cross-scope start"),
        StoreStartResult::Created
    ));
}

#[derive(Debug, Clone, PartialEq, Eq)]
struct TestFinishData {
    snapshot: &'static str,
}

#[test]
fn memory_store_persists_typed_finish_data() {
    let mut store: MemoryRunStore<TestEvent, TestFinishData> = MemoryRunStore::default();
    let start = run_start("run-a", "session-a", None);
    let data = TestFinishData { snapshot: "final-state" };
    store.start_run(&start, at(0)).expect("start");

    let finish = finish_of(&start, event("run-a", "session-a", 1, true), data.clone());

    store.finish_run(finish, at(0)).expect("finish");
    assert_eq!(store.finish_data(&RunId::from("run-a")), Some(&data));
}

#[test]
fn memory_store_rejects_non_increasing_event_seq() {
    let mut store = store();
    let start = run_start("run-a", "session-a", None);
    store.start_run(&start, at(0)).expect("start");
    store
        .record_event(
            &RunId::from("run-a"),
            &start.scope,
            &event("run-a", "session-a", 1, false),
        )
        .expect("record first");

    let err = store
        .record_event(
            &RunId::from("run-a"),
            &start.scope,
            &event("run-a", "session-a", 1, false),
        )
        .expect_err("duplicate seq should fail");
    assert!(matches!(err, MachineError::InvalidRunEvent { .. }));
}

#[test]
fn memory_store_lists_events_after_cursor() {
    let mut store = store();
    let start = run_start("run-a", "session-a", None);
    store.start_run(&start, at(0)).expect("start");
    for seq in 1..=3 {
        store
            .record_event(
                &RunId::from("run-a"),
                &start.scope,
                &event("run-a", "session-a", seq, false),
            )
            .expect("record");
    }
    let events = store
        .list_events(&RunId::from("run-a"), &start.scope, 1, usize::MAX)
        .expect("events");
    assert_eq!(
        events.iter().map(|event| event.seq).collect::<Vec<_>>(),
        vec![2, 3]
    );
}

fn commit_of(
    start: &RunStart,
    lease: Option<&str>,
    events: Vec<TestEvent>,
    finish: Option<RunFinish<()>>,
) -> RunCommit<TestEvent, ()> {
    RunCommit {
        run_id: RunId::from("run-a"),
        session_id: SessionId::from("session-a"),
        scope: start.scope.clone(),
        lease: lease.map(LeaseId::from),
        checkpoint: None,
        events,
        effects: Vec::new(),
        items: Vec::new(),
        entries: Vec::new(),
        finish,
    }
}

#[test]
fn memory_store_fences_leased_commits() {
    let mut store = store();
    let mut start = run_start("run-a", "session-a", None);
    start.lease = Some(LeaseClaim::new(
        WorkerId::from("worker-a"),
        LeaseId::from("lease-a"),
        30 * SECOND,
    ));
    store.start_run(&start, at(0)).expect("start");

    let events = || vec![event("run-a", "session-a", 1, false)];
    assert!(matches!(
        store.commit_run(commit_of(&start, None, events(), None), at(0)),
        Err(MachineError::LeaseLost)
    ));
    assert!(matches!(
        store.commit_run(commit_of(&start, Some("lease-b"), events(), None), at(0)),
        Err(MachineError::LeaseLost)
    ));
    assert!(matches!(
        store
            .commit_run(commit_of(&start, Some("lease-a"), events(), None), at(0))
            .expect("commit"),
        RunCommitResult::Recorded(_)
    ));

    let finish = RunFinish {
        run_id: RunId::from("run-a"),
        session_id: SessionId::from("session-a"),
        scope: start.scope.clone(),
        status: RunStatus::Completed,
        finish_reason: "done".to_string(),
        error_code: None,
        entries: Vec::new(),
        data: (),
    };
    let done = commit_of(
        &start,
        Some("lease-a"),
        vec![event("run-a", "session-a", 2, true)],
        Some(finish),
    );
    assert!(matches!(
        store.commit_run(done, at(0)).expect("finish"),
        RunCommitResult::Finished { .. }
    ));
}

#[test]
fn memory_store_reaps_stale_leases_once() {
    let mut store = store();
    let mut start = run_start("run-a", "session-a", None);
    start.lease = Some(LeaseClaim::new(
        WorkerId::from("worker-a"),
        LeaseId::from("lease-a"),
        MILLI,
    ));
    store.start_run(&start, at(0)).expect("start");
    let later = 5 * MILLI;

    let reaped = store
        .reap_stale(
            &WorkerId::from("reaper"),
            8,
            |run, seq| event(run.run_id.as_str(), run.session_id.as_str(), seq, true),
            later,
        )
        .expect("reap");
    assert_eq!(reaped.len(), 1);
    assert_eq!(reaped[0].status, RunStatus::Error);
    assert_eq!(reaped[0].finish_reason.as_deref(), Some("lease_expired"));

    let lookup = store
        .lookup_run(&RunId::from("run-a"), &start.scope)
        .expect("run");
    assert_eq!(lookup.status, RunStatus::Error);
    assert_eq!(
        store
            .reap_stale(
                &WorkerId::from("reaper"),
                8,
                |run, seq| event(run.run_id.as_str(), run.session_id.as_str(), seq, true),
                later,
            )
            .expect("second reap")
            .len(),
        0
    );
}

fn leased(run_id: &str, ttl: u128) -> RunStart {
    let mut start = run_start(run_id, "session-a", None);
    start.lease = Some(LeaseClaim::new(
        WorkerId::from("worker-a"),
        LeaseId::from("lease-a"),
        ttl,
    ));
    start
}

fn lease_of(run_id: &str) -> Lease {
    Lease::new(
        RunId::from(run_id),
        WorkerId::from("worker-a"),
        LeaseId::from("lease-a"),
    )
}

fn reason<T: std::fmt::Debug>(result: Result<T, MachineError>) -> String {
    match result {
        Err(MachineError::InvalidRunEvent { reason }) => reason,
        other => panic!("expected an invalid event, got {other:?}"),
    }
}

#[test]
fn effects_go_from_reserved_to_done() {
    let mut store = store();
    let start = run_start("run-a", "session-a", None);
    let run_id = RunId::from("run-a");
    store.start_run(&start, at(0)).expect("start");

    let reserve = |store: &mut MemoryRunStore<TestEvent, ()>, request: &str| {
        store.reserve_effect(
            &RunId::from("run-a"),
            &demo(),
            None,
            "effect",
            "tool",
            json(request),
            at(MILLI),
        )
    };
    assert!(matches!(
        store.start_effect(&run_id, &demo(), None, "effect", at(0)),
        Err(MachineError::EffectNotFound)
    ));
    let reserved = reserve(&mut store, "{}").expect("reserve");
    assert_eq!(reserved.status, EffectStatus::Reserved);
    assert_eq!((reserved.created_at, reserved.updated_at), (1, 1));
    assert_eq!(reserve(&mut store, "{}").expect("again"), reserved);
    assert!(matches!(reserve(&mut store, "1"), Err(MachineError::EffectConflict)));

    let begun = store
        .start_effect(&run_id, &demo(), None, "effect", at(2 * MILLI))
        .expect("begin");
    assert_eq!(begun.status, EffectStatus::Started);
    assert_eq!((begun.created_at, begun.updated_at), (1, 2));
    assert!(matches!(
        store.start_effect(&run_id, &demo(), None, "effect", at(3 * MILLI)),
        Err(MachineError::EffectPending)
    ));

    let done = RunCommit {
        effects: vec![EffectUpdate::done("effect".to_string(), json("7"))],
        ..commit_of(&start, None, Vec::new(), None)
    };
    assert!(matches!(
        store.commit_run(done, at(4 * MILLI)),
        Ok(RunCommitResult::Recorded(events)) if events.is_empty()
    ));
    let again = store
        .start_effect(&run_id, &demo(), None, "effect", at(5 * MILLI))
        .expect("done effects stay done");
    assert_eq!(again.status, EffectStatus::Done);
    assert_eq!(again.result, Some(json("7")));

    let undo = RunCommit {
        effects: vec![EffectUpdate::failed(
            "effect".to_string(),
            "code".to_string(),
            "message".to_string(),
        )],
        ..commit_of(&start, None, Vec::new(), None)
    };
    assert!(matches!(
        store.commit_run(undo, at(0)),
        Err(MachineError::EffectConflict)
    ));
    assert!(matches!(
        store.list_effects(&run_id, &demo(), 0),
        Err(MachineError::InvalidPageLimit)
    ));
    assert_eq!(store.list_effects(&run_id, &demo(), 1).expect("effects").len(), 1);
}

#[test]
fn items_are_listed_by_key() {
    let mut store = store();
    let start = run_start("run-a", "session-a", None);
    let run_id = RunId::from("run-a");
    store.start_run(&start, at(0)).expect("start");
    let item = |key: &str, body: &str| ItemWrite {
        key: key.to_string(),
        kind: "artifact".to_string(),
        body: json(body),
    };
    let write = |items: Vec<ItemWrite>| RunCommit {
        items,
        ..commit_of(&start, None, Vec::new(), None)
    };
    store
        .commit_run(write(vec![item("b", "1"), item("a", "2"), item("ä", "3")]), at(0))
        .expect("items");
    let keys = |limit: usize| -> Vec<String> {
        store
            .list_items(&run_id, &demo(), limit)
            .expect("items")
            .into_iter()
            .map(|item| item.key)
            .collect()
    };
    assert_eq!(keys(8), vec!["a", "b", "ä"]);
    assert_eq!(keys(2), vec!["a", "b"]);
    assert!(matches!(
        store.commit_run(write(vec![item("a", "9")]), at(0)),
        Err(MachineError::ItemConflict)
    ));
    store.commit_run(write(vec![item("a", "2")]), at(0)).expect("same again");
}

#[test]
fn entries_come_in_pages() {
    let mut store = store();
    let start = run_start("run-a", "session-a", None);
    let session = SessionId::from("session-a");
    let scope = demo();
    store.start_run(&start, at(0)).expect("start");
    for n in 1..=3 {
        let entry = EntryWrite::new(
            format!("key-{n}"),
            "msg".to_string(),
            Vis::Public,
            json(&n.to_string()),
        );
        let recorded = store
            .record_entry(&RunId::from("run-a"), &scope, None, entry, at(0))
            .expect("entry");
        assert_eq!(recorded.seq, n);
    }
    let first = store.list_entries(EntryQuery::new(&scope, &session, 2)).expect("first");
    assert_eq!(first.iter().map(|entry| entry.seq).collect::<Vec<_>>(), vec![1, 2]);
    assert_eq!(first.next, Some(2));
    let second = store
        .list_entries(EntryQuery::new(&scope, &session, 2).after(2))
        .expect("second");
    assert_eq!(second.iter().map(|entry| entry.seq).collect::<Vec<_>>(), vec![3]);
    assert_eq!(second.next, None);
    assert!(matches!(
        store.list_entries(EntryQuery::new(&scope, &session, 0)),
        Err(MachineError::InvalidPageLimit)
    ));
    assert!(store
        .latest_entry(&scope, &session, None, "msg", Some(Vis::Internal))
        .is_none());
    assert_eq!(
        store.latest_entry(&scope, &session, None, "msg", None).expect("latest").seq,
        3
    );
}

#[test]
fn events_come_in_pages() {
    let mut store = store();
    let start = run_start("run-a", "session-a", None);
    store.start_run(&start, at(0)).expect("start");
    let events = (1..=3).map(|seq| event("run-a", "session-a", seq, false)).collect();
    store.commit_run(commit_of(&start, None, events, None), at(0)).expect("commit");
    let page = store
        .list_events(&RunId::from("run-a"), &demo(), 0, 2)
        .expect("page");
    assert_eq!((page.len(), page.next), (2, Some(2)));
    let rest = store
        .list_events(&RunId::from("run-a"), &demo(), 2, 2)
        .expect("rest");
    assert_eq!((rest.len(), rest.next), (1, None));
    assert!(matches!(
        store.list_events(&RunId::from("run-a"), &demo(), 0, 0),
        Err(MachineError::InvalidPageLimit)
    ));
}

#[test]
fn leases_are_renewed_and_released_by_their_holder() {
    let mut store = store();
    let start = leased("run-a", 10);
    store.start_run(&start, at(0)).expect("start");
    let stranger = Lease::new(
        RunId::from("run-a"),
        WorkerId::from("worker-a"),
        LeaseId::from("lease-b"),
    );
    assert!(!store.renew(&stranger, 10, 5));
    assert!(store.renew(&lease_of("run-a"), 10, 5));
    assert!(store.renew(&lease_of("run-a"), 10, 14));
    assert!(!store.renew(&lease_of("run-a"), 10, 24));

    let events = || vec![event("run-a", "session-a", 1, false)];
    assert!(matches!(
        store.commit_run(commit_of(&start, Some("lease-a"), events(), None), at(24)),
        Err(MachineError::LeaseLost)
    ));
    store.release(&stranger);
    assert!(store
        .lookup_run(&RunId::from("run-a"), &demo())
        .expect("run")
        .owner
        .is_some());
    store.release(&lease_of("run-a"));
    assert!(store
        .lookup_run(&RunId::from("run-a"), &demo())
        .expect("run")
        .owner
        .is_none());
    assert!(store
        .commit_run(commit_of(&start, None, events(), None), at(24))
        .is_ok());
}

#[test]
fn leased_runs_are_written_by_commits_alone() {
    let mut store = store();
    let start = leased("run-a", 10);
    store.start_run(&start, at(0)).expect("start");
    assert!(matches!(
        store.record_event(
            &RunId::from("run-a"),
            &demo(),
            &event("run-a", "session-a", 1, false)
        ),
        Err(MachineError::LeaseLost)
    ));
    assert!(matches!(
        store.finish_run(finish_of(&start, event("run-a", "session-a", 1, true), ()), at(0)),
        Err(MachineError::LeaseLost)
    ));
}

#[test]
fn busy_threads_say_who_has_them() {
    let mut store = store();
    store.start_run(&leased("run-a", 10), at(0)).expect("start");
    let mut other = run_start("run-b", "session-a", None);
    other.thread_id = ThreadId::from("thread-run-a");
    match store.start_run(&other, at(0)) {
        Err(MachineError::ThreadBusy { owner, run }) => {
            assert_eq!(owner, Some(WorkerId::from("worker-a")));
            assert_eq!(run, Some(RunId::from("run-a")));
        }
        other => panic!("expected a busy thread, got {other:?}"),
    }
}

#[test]
fn commits_are_refused_for_what_they_hold() {
    let mut store = store();
    let start = run_start("run-a", "session-a", None);
    store.start_run(&start, at(0)).expect("start");
    let finish = |status: RunStatus| RunFinish {
        run_id: RunId::from("run-a"),
        session_id: SessionId::from("session-a"),
        scope: demo(),
        status,
        finish_reason: "done".to_string(),
        error_code: None,
        entries: Vec::new(),
        data: (),
    };
    let one = |seq: i64, terminal: bool| event("run-a", "session-a", seq, terminal);
    let mut refused = |events: Vec<TestEvent>, finish: Option<RunFinish<()>>| {
        reason(store.commit_run(commit_of(&start, None, events, finish), at(0)))
    };
    assert_eq!(
        refused(Vec::new(), None),
        "commit requires an event, effect, item, or entry"
    );
    assert_eq!(
        refused(vec![event("run-b", "session-a", 1, false)], None),
        "event run_id does not match target run"
    );
    assert_eq!(
        refused(vec![event("run-a", "session-b", 1, false)], None),
        "event session_id does not match target run"
    );
    assert_eq!(refused(vec![one(0, false)], None), "event seq must be positive");
    assert_eq!(
        refused(vec![one(2, false), one(2, false)], None),
        "event seq must increase monotonically"
    );
    assert_eq!(
        refused(vec![one(1, true)], None),
        "record_event does not accept terminal events"
    );
    assert_eq!(
        refused(vec![one(1, true)], Some(finish(RunStatus::Running))),
        "finish_run requires a terminal status"
    );
    assert_eq!(
        refused(vec![one(1, false)], Some(finish(RunStatus::Completed))),
        "finish_run requires a terminal event"
    );
    assert_eq!(
        refused(vec![one(1, true), one(2, true)], Some(finish(RunStatus::Completed))),
        "only the last commit event may be terminal"
    );
    let mut elsewhere = finish(RunStatus::Completed);
    elsewhere.run_id = RunId::from("run-b");
    assert_eq!(
        refused(vec![one(1, true)], Some(elsewhere)),
        "finish target does not match committed run"
    );
    let nothing = store
        .list_events(&RunId::from("run-a"), &demo(), 0, 8)
        .expect("events");
    assert!(nothing.is_empty());
}

#[test]
fn refused_commit_leaves_nothing_behind() {
    let mut store = store();
    let start = run_start("run-a", "session-a", None);
    store.start_run(&start, at(0)).expect("start");
    let record = CheckpointRecord::running(json("1"), None, "run-a".to_string());
    let bad = RunCommit {
        checkpoint: Some(CheckpointWrite::new(ThreadId::from("thread-run-a"), record)),
        items: vec![ItemWrite {
            key: "item".to_string(),
            kind: "artifact".to_string(),
            body: json("1"),
        }],
        effects: vec![EffectUpdate::done("missing".to_string(), json("1"))],
        ..commit_of(&start, None, vec![event("run-a", "session-a", 1, false)], None)
    };
    assert!(matches!(
        store.commit_run(bad, at(0)),
        Err(MachineError::EffectNotFound)
    ));
    assert!(store.load_checkpoint(&ThreadId::from("thread-run-a")).is_none());
    assert!(store
        .list_items(&RunId::from("run-a"), &demo(), 8)
        .expect("items")
        .is_empty());
    assert!(store
        .list_events(&RunId::from("run-a"), &demo(), 0, 8)
        .expect("events")
        .is_empty());
}

#[test]
fn commits_to_unknown_runs_are_skipped() {
    let mut store = store();
    let start = run_start("run-a", "session-a", None);
    let events = || vec![event("run-a", "session-a", 1, false)];
    assert!(store
        .commit_run(commit_of(&start, None, events(), None), at(0))
        .expect("commit")
        .is_skipped());
    store.start_run(&start, at(0)).expect("start");
    let mut elsewhere = run_start("run-a", "session-a", None);
    elsewhere.scope = json("{\"tenant\": \"other\"}");
    assert!(matches!(
        store.commit_run(commit_of(&elsewhere, None, events(), None), at(0)),
        Err(MachineError::RunNotFound)
    ));
    let result = store
        .commit_run(commit_of(&start, None, events(), None), at(0))
        .expect("commit");
    assert_eq!(result.events().len(), 1);
    assert!(result.finish_result().is_none());
}

#[test]
fn saved_checkpoints_are_loaded_per_thread() {
    let mut saver = MemorySaver::default();
    assert!(saver.load("thread-a").is_none());
    let record = |n: u32| CheckpointRecord::running(json(&n.to_string()), None, "run".to_string());
    saver.save("thread-a", &record(1));
    saver.save("thread-b", &record(2));
    saver.save("thread-a", &record(3));
    assert_eq!(saver.load("thread-a").expect("a").state.as_str(), "3");
    assert_eq!(saver.load("thread-b").expect("b").state.as_str(), "2");
}

#[derive(Debug, Clone, PartialEq)]
struct Note(bool);

impl RunEventPayload for Note {
    fn is_terminal(&self) -> bool {
        self.0
    }

    fn copy(&self) -> Self {
        self.clone()
    }
}

#[test]
fn envelopes_carry_their_payload() {
    let event = RunEventEnvelope::new(RunId::from("run"), SessionId::from("session"), 7, Note(true));
    assert_eq!(event.seq(), 7);
    assert!(event.is_terminal());
    assert_eq!(event.copy(), event);
    assert_eq!(event.into_payload(), Note(true));
}

#[test]
fn reaping_ends_at_most_as_many_runs_as_asked_for() {
    let mut store = store();
    for run in ["run-a", "run-b", "run-c"] {
        let mut start = leased(run, 10);
        start.thread_id = ThreadId::from(format!("thread-{run}"));
        store.start_run(&start, at(0)).expect("start");
    }
    let build = |run: &typemach::store::RunLookup, seq: i64| {
        event(run.run_id.as_str(), run.session_id.as_str(), seq, true)
    };
    let reaped = store
        .reap_stale(&WorkerId::from("reaper"), 2, build, 10)
        .expect("reap");
    assert_eq!(
        reaped.iter().map(|run| run.run_id.as_str()).collect::<Vec<_>>(),
        vec!["run-a", "run-b"]
    );
    let wrong = store.reap_stale(
        &WorkerId::from("reaper"),
        2,
        |run, seq| event(run.run_id.as_str(), run.session_id.as_str(), seq + 1, true),
        10,
    );
    assert_eq!(reason(wrong), "reap requires the next terminal event");
}

#[test]
fn runs_without_a_number_left_cannot_be_reaped() {
    let mut store = store();
    let start = leased("run-a", 10);
    store.start_run(&start, at(0)).expect("start");
    assert!(store.reapable(10));
    let mut commit = commit_of(&start, None, vec![event("run-a", "session-a", i64::MAX, false)], None);
    commit.lease = start.lease.as_ref().map(|claim| claim.id.clone());
    store.commit_run(commit, at(5)).expect("commit");
    assert!(store.reapable(9));
    assert!(!store.reapable(10));
}
