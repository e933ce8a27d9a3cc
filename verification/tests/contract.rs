use typemach::checkpoint::CheckpointRecord;
use typemach::error::MachineError;
use typemach::ids::{LeaseId, RunId, SessionId, ThreadId, WorkerId};
use typemach::json::Json;
use typemach::memory::MemoryRunStore;
use typemach::model::Clock;
use typemach::op::{EntryQuery, EntryWrite, Vis};
use typemach::store::{
    CheckpointWrite, FinishRunResult, Lease, LeaseClaim, RunCommit, RunCommitResult,
    RunEventEnvelope, RunEventPayload, RunFinish, RunStart, RunStatus, StoreStartResult,
};

const MILLI: u128 = 1_000_000;
const SECOND: u128 = 1_000_000_000;

#[derive(Debug, Clone, PartialEq, Eq)]
struct TestPayload {
    terminal: bool,
    name: String,
}

impl RunEventPayload for TestPayload {
    fn is_terminal(&self) -> bool {
        self.terminal
    }

    fn copy(&self) -> Self {
        self.clone()
    }
}

type TestEvent = RunEventEnvelope<TestPayload>;
type Store = MemoryRunStore<TestEvent, ()>;

fn now() -> Clock {
    Clock { now: SECOND, wall_ms: 1_000 }
}

fn json(text: &str) -> Json {
    Json::parse(text).expect("json")
}

fn scope(name: &str) -> Json {
    json(&format!("{{\"tenant\": \"{name}\"}}"))
}

fn run_start(run_id: &str, session_id: &str, thread_id: &str, scope: Json) -> RunStart {
    RunStart {
        run_id: RunId::from(run_id),
        session_id: SessionId::from(session_id),
        thread_id: ThreadId::from(thread_id),
        agent_kind: "contract".to_string(),
        model: None,
        client_run_key: None,
        parent_run_id: None,
        retry_of_run_id: None,
        scope,
        metadata: json("{}"),
        input: None,
        entries: Vec::new(),
        lease: None,
    }
}

fn with_key(mut start: RunStart, key: &str) -> RunStart {
    start.client_run_key = Some(key.to_string());
    start
}

fn event(run_id: &RunId, session_id: &SessionId, seq: i64, terminal: bool) -> TestEvent {
    RunEventEnvelope::new(
        run_id.clone(),
        session_id.clone(),
        seq,
        TestPayload {
            terminal,
            name: if terminal { "terminal" } else { "event" }.to_string(),
        },
    )
}

fn commit(start: &RunStart, seq: i64) -> RunCommit<TestEvent, ()> {
    RunCommit {
        run_id: start.run_id.clone(),
        session_id: start.session_id.clone(),
        scope: start.scope.clone(),
        lease: None,
        checkpoint: None,
        events: vec![event(&start.run_id, &start.session_id, seq, false)],
        effects: Vec::new(),
        items: Vec::new(),
        entries: Vec::new(),
        finish: None,
    }
}

fn done(start: &RunStart, seq: i64, entries: Vec<EntryWrite>) -> RunCommit<TestEvent, ()> {
    RunCommit {
        events: vec![event(&start.run_id, &start.session_id, seq, true)],
        entries,
        finish: Some(RunFinish {
            run_id: start.run_id.clone(),
            session_id: start.session_id.clone(),
            scope: start.scope.clone(),
            status: RunStatus::Completed,
            finish_reason: "done".to_string(),
            error_code: None,
            entries: Vec::new(),
            data: (),
        }),
        ..commit(start, seq)
    }
}

fn entry(key: &str, kind: &str, vis: Vis, body: &str) -> EntryWrite {
    EntryWrite {
        key: key.to_string(),
        kind: kind.to_string(),
        vis,
        body: json(body),
    }
}

fn claim(owner: &str, id: &str, ttl: u128) -> Option<LeaseClaim> {
    Some(LeaseClaim::new(WorkerId::from(owner), LeaseId::from(id), ttl))
}

fn idempotent_start_and_scope(store: &mut Store) {
    let alpha = scope("alpha");
    let first = run_start(
        "contract-idem-a",
        "contract-session-idem",
        "contract-thread-idem",
        alpha.clone(),
    );
    assert!(matches!(
        store.start_run(&with_key(first, "idem-key"), now()),
        Ok(StoreStartResult::Created)
    ));

    let second = run_start(
        "contract-idem-b",
        "contract-session-idem",
        "contract-thread-idem-b",
        alpha,
    );
    let existing = store
        .start_run(&with_key(second, "idem-key"), now())
        .expect("second start");
    let StoreStartResult::Existing(existing) = existing else {
        panic!("same scope/session/key must return existing run");
    };
    assert_eq!(existing.run_id, RunId::from("contract-idem-a"));

    let other = run_start(
        "contract-idem-c",
        "contract-session-idem",
        "contract-thread-idem-c",
        scope("beta"),
    );
    assert!(matches!(
        store.start_run(&with_key(other, "idem-key"), now()),
        Ok(StoreStartResult::Created)
    ));
}

fn event_checkpoint_and_terminal(store: &mut Store) {
    let start = run_start(
        "contract-events-run",
        "contract-events-session",
        "contract-events-thread",
        scope("events"),
    );
    assert!(matches!(
        store.start_run(&start, now()),
        Ok(StoreStartResult::Created)
    ));

    let checkpoint = CheckpointRecord::running(
        json("{\"step\": 1}"),
        Some(json("\"next\"")),
        start.run_id.as_str().to_string(),
    );
    let write = || Some(CheckpointWrite::new(start.thread_id.clone(), checkpoint.clone()));
    let first = RunCommit { checkpoint: write(), ..commit(&start, 1) };
    assert!(matches!(
        store.commit_run(first, now()),
        Ok(RunCommitResult::Recorded(_))
    ));
    assert!(store.load_checkpoint(&start.thread_id).is_some());

    let duplicate = RunCommit { checkpoint: write(), ..commit(&start, 1) };
    assert!(matches!(
        store.commit_run(duplicate, now()),
        Err(MachineError::InvalidRunEvent { .. })
    ));

    assert!(matches!(
        store.commit_run(done(&start, 2, Vec::new()), now()),
        Ok(RunCommitResult::Finished {
            result: FinishRunResult::Finished(_),
            ..
        })
    ));
    assert!(matches!(
        store.commit_run(done(&start, 2, Vec::new()), now()),
        Ok(RunCommitResult::Finished {
            result: FinishRunResult::AlreadyFinished(_),
            ..
        })
    ));
}

fn rejected_commits_do_not_advance(store: &mut Store) {
    let start = run_start(
        "contract-reject-run",
        "contract-reject-session",
        "contract-reject-thread",
        scope("reject"),
    );
    assert!(matches!(
        store.start_run(&start, now()),
        Ok(StoreStartResult::Created)
    ));

    assert!(matches!(
        store.record_event(
            &start.run_id,
            &start.scope,
            &event(&start.run_id, &start.session_id, 1, true),
        ),
        Err(MachineError::InvalidRunEvent { .. })
    ));
    assert!(store.terminal_event(&start.run_id, &start.scope).is_none());

    let first_checkpoint = CheckpointRecord::running(
        json("{\"step\": 1}"),
        Some(json("\"next\"")),
        start.run_id.as_str().to_string(),
    );
    let first = RunCommit {
        checkpoint: Some(CheckpointWrite::new(
            start.thread_id.clone(),
            first_checkpoint.clone(),
        )),
        ..commit(&start, 1)
    };
    assert!(matches!(
        store.commit_run(first, now()),
        Ok(RunCommitResult::Recorded(_))
    ));

    let bad_checkpoint = CheckpointRecord::running(
        json("{\"step\": 999}"),
        Some(json("\"bad\"")),
        start.run_id.as_str().to_string(),
    );
    let bad = RunCommit {
        checkpoint: Some(CheckpointWrite::new(start.thread_id.clone(), bad_checkpoint)),
        ..commit(&start, 1)
    };
    assert!(matches!(
        store.commit_run(bad, now()),
        Err(MachineError::InvalidRunEvent { .. })
    ));
    let loaded = store.load_checkpoint(&start.thread_id).expect("checkpoint");
    assert_eq!(loaded.state, first_checkpoint.state);
    assert_eq!(loaded.next_step, first_checkpoint.next_step);
}

fn running_thread_is_exclusive(store: &mut Store) {
    let start = run_start(
        "contract-thread-run",
        "contract-thread-session",
        "contract-thread-exclusive",
        scope("thread"),
    );
    assert!(matches!(
        store.start_run(&start, now()),
        Ok(StoreStartResult::Created)
    ));

    let mut blocked = run_start(
        "contract-thread-run-blocked",
        "contract-thread-session",
        "contract-thread-exclusive",
        scope("thread"),
    );
    blocked.lease = claim("contract-thread-worker", "contract-thread-lease", 30 * SECOND);
    assert!(matches!(
        store.start_run(&blocked, now()),
        Err(MachineError::ThreadBusy { .. })
    ));
}

fn lease_and_thread_fencing(store: &mut Store) {
    let lease_id = LeaseId::from("contract-lease-a");
    let mut start = run_start(
        "contract-lease-run",
        "contract-lease-session",
        "contract-lease-thread",
        scope("lease"),
    );
    start.lease = claim("contract-worker-a", "contract-lease-a", 30 * SECOND);
    assert!(matches!(
        store.start_run(&start, now()),
        Ok(StoreStartResult::Created)
    ));

    let mut blocked = run_start(
        "contract-lease-run-blocked",
        "contract-lease-session",
        "contract-lease-thread",
        scope("lease"),
    );
    blocked.lease = claim("contract-worker-b", "contract-lease-b", 30 * SECOND);
    assert!(matches!(
        store.start_run(&blocked, now()),
        Err(MachineError::ThreadBusy { .. })
    ));
    let blocked_unleased = run_start(
        "contract-lease-run-unleased",
        "contract-lease-session",
        "contract-lease-thread",
        scope("lease"),
    );
    assert!(matches!(
        store.start_run(&blocked_unleased, now()),
        Err(MachineError::ThreadBusy { .. })
    ));

    assert!(matches!(
        store.commit_run(commit(&start, 1), now()),
        Err(MachineError::LeaseLost)
    ));

    let wrong_thread = RunCommit {
        lease: Some(lease_id.clone()),
        checkpoint: Some(CheckpointWrite::new(
            ThreadId::from("contract-wrong-thread"),
            CheckpointRecord::running(
                json("{\"bad\": true}"),
                None,
                start.run_id.as_str().to_string(),
            ),
        )),
        ..commit(&start, 1)
    };
    assert!(matches!(
        store.commit_run(wrong_thread, now()),
        Err(MachineError::InvalidRunEvent { .. })
    ));

    assert!(store.renew(
        &Lease::new(
            start.run_id.clone(),
            WorkerId::from("contract-worker-a"),
            lease_id.clone()
        ),
        30 * SECOND,
        now().now,
    ));
    let checkpoint = CheckpointRecord::running(
        json("{\"leased\": true}"),
        None,
        start.run_id.as_str().to_string(),
    );
    let ok = RunCommit {
        lease: Some(lease_id),
        checkpoint: Some(CheckpointWrite::new(start.thread_id.clone(), checkpoint)),
        ..commit(&start, 1)
    };
    assert!(matches!(
        store.commit_run(ok, now()),
        Ok(RunCommitResult::Recorded(_))
    ));
    assert!(store.load_checkpoint(&start.thread_id).is_some());
}

fn stale_reap_releases_thread(store: &mut Store) {
    let mut stale = run_start(
        "contract-stale-run",
        "contract-stale-session",
        "contract-stale-thread",
        scope("reap"),
    );
    stale.lease = claim("contract-stale-worker", "contract-stale-lease", MILLI);
    assert!(matches!(
        store.start_run(&stale, now()),
        Ok(StoreStartResult::Created)
    ));
    let later = Clock { now: now().now + 5 * MILLI, wall_ms: now().wall_ms + 5 };
    let reaped = store
        .reap_stale(
            &WorkerId::from("contract-reaper"),
            8,
            |run, seq| event(&run.run_id, &run.session_id, seq, true),
            later.now,
        )
        .expect("reap");
    assert_eq!(reaped.len(), 1);
    assert_eq!(reaped[0].status, RunStatus::Error);
    assert!(reaped[0].owner.is_none());

    let mut next = run_start(
        "contract-stale-next",
        "contract-stale-session",
        "contract-stale-thread",
        scope("reap"),
    );
    next.lease = claim("contract-next-worker", "contract-next-lease", 30 * SECOND);
    assert!(matches!(
        store.start_run(&next, later),
        Ok(StoreStartResult::Created)
    ));
}

#[test]
fn memory_store_matches_contract() {
    let mut store = Store::new();
    idempotent_start_and_scope(&mut store);
    event_checkpoint_and_terminal(&mut store);
    rejected_commits_do_not_advance(&mut store);
    running_thread_is_exclusive(&mut store);
    lease_and_thread_fencing(&mut store);
    stale_reap_releases_thread(&mut store);
}

#[test]
fn idempotent_start_checks_input() {
    let mut store = Store::new();
    let mut first = run_start(
        "contract-input-a",
        "contract-input-session",
        "contract-input-thread-a",
        scope("input"),
    );
    first.client_run_key = Some("input-key".to_string());
    first.input = Some(json("{\"message\": \"same\"}"));
    first.entries = vec![entry("msg:user:1", "msg", Vis::Public, "{\"text\": \"same\"}")];
    assert!(matches!(
        store.start_run(&first, now()),
        Ok(StoreStartResult::Created)
    ));

    let same = || {
        let mut same = run_start(
            "contract-input-b",
            "contract-input-session",
            "contract-input-thread-b",
            scope("input"),
        );
        same.client_run_key = Some("input-key".to_string());
        same.input = Some(json("{\"message\": \"same\"}"));
        same.entries = vec![entry("msg:user:1", "msg", Vis::Public, "{\"text\": \"same\"}")];
        same
    };
    let existing = store.start_run(&same(), now()).expect("same start");
    let StoreStartResult::Existing(existing) = existing else {
        panic!("same idempotent input must return existing run");
    };
    assert_eq!(existing.run_id, first.run_id);

    let mut conflicting_entry = same();
    conflicting_entry.run_id = RunId::from("contract-input-entry-conflict");
    conflicting_entry.entries =
        vec![entry("msg:user:1", "msg", Vis::Public, "{\"text\": \"changed\"}")];
    assert!(matches!(
        store.start_run(&conflicting_entry, now()),
        Err(MachineError::StartConflict)
    ));

    let mut different = same();
    different.run_id = RunId::from("contract-input-c");
    different.input = Some(json("{\"message\": \"different\"}"));
    assert!(matches!(
        store.start_run(&different, now()),
        Err(MachineError::StartConflict)
    ));
}

#[test]
fn entries_are_session_scoped_and_private() {
    let mut store = Store::new();
    let other = scope("entries-other");
    let mut start = run_start(
        "contract-entry-run",
        "contract-entry-session",
        "contract-entry-thread",
        scope("entries"),
    );
    start.entries = vec![entry(
        "msg:user:1",
        "msg",
        Vis::Public,
        "{\"role\": \"user\", \"text\": \"hello\"}",
    )];
    assert!(matches!(
        store.start_run(&start, now()),
        Ok(StoreStartResult::Created)
    ));

    let public = store
        .list_entries(
            EntryQuery::new(&start.scope, &start.session_id, 8)
                .thread(&start.thread_id)
                .kind("msg")
                .vis(Vis::Public),
        )
        .expect("entries");
    assert_eq!(public.len(), 1);
    assert_eq!(public[0].seq, 1);
    assert_eq!(public[0].body.as_str(), "{\"role\":\"user\",\"text\":\"hello\"}");
    assert!(store
        .latest_entry(
            &other,
            &start.session_id,
            Some(&start.thread_id),
            "msg",
            Some(Vis::Public),
        )
        .is_none());

    let private = RunCommit {
        entries: vec![entry("trace:1", "trace", Vis::Internal, "{\"private\": true}")],
        ..commit(&start, 1)
    };
    assert!(matches!(
        store.commit_run(private, now()),
        Ok(RunCommitResult::Recorded(_))
    ));
    assert_eq!(
        store
            .list_entries(EntryQuery::new(&start.scope, &start.session_id, 8).vis(Vis::Public))
            .expect("public entries")
            .len(),
        1
    );
    let latest_private = store
        .latest_entry(
            &start.scope,
            &start.session_id,
            Some(&start.thread_id),
            "trace",
            Some(Vis::Internal),
        )
        .expect("internal trace");
    assert_eq!(latest_private.seq, 2);

    let bad = RunCommit {
        entries: vec![entry("trace:1", "trace", Vis::Internal, "{\"private\": false}")],
        ..commit(&start, 2)
    };
    assert!(matches!(
        store.commit_run(bad, now()),
        Err(MachineError::EntryConflict)
    ));
    assert_eq!(
        store
            .list_events(&start.run_id, &start.scope, 0, 8)
            .expect("events")
            .len(),
        1
    );

    let last_entries = || {
        vec![
            entry(
                "msg:assistant:1",
                "msg",
                Vis::Public,
                "{\"role\": \"assistant\", \"text\": \"done\"}",
            ),
            entry(
                "snapshot:1",
                "semantic_snapshot",
                Vis::Internal,
                "{\"durable_context\": {\"last_turn\": \"done\"}}",
            ),
        ]
    };
    assert!(matches!(
        store.commit_run(done(&start, 2, last_entries()), now()),
        Ok(RunCommitResult::Finished { .. })
    ));
    assert!(matches!(
        store.commit_run(done(&start, 2, last_entries()), now()),
        Ok(RunCommitResult::Finished {
            result: FinishRunResult::AlreadyFinished(_),
            ..
        })
    ));
    assert_eq!(
        store
            .list_entries(
                EntryQuery::new(&start.scope, &start.session_id, 8)
                    .kind("msg")
                    .vis(Vis::Public),
            )
            .expect("messages")
            .len(),
        2
    );
    let snapshot = store
        .latest_entry(
            &start.scope,
            &start.session_id,
            Some(&start.thread_id),
            "semantic_snapshot",
            Some(Vis::Internal),
        )
        .expect("snapshot");
    assert_eq!(snapshot.seq, 4);
    assert_eq!(
        store
            .list_events(&start.run_id, &start.scope, 0, 8)
            .expect("events")
            .len(),
        2
    );
}
