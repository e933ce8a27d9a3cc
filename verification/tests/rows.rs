use typemach::checkpoint::CheckpointRecord;
use typemach::entries::ScopedEntry;
use typemach::error::MachineError;
use typemach::ids::{LeaseId, RunId, SessionId, ThreadId, WorkerId};
use typemach::json::Json;
use typemach::memory::MemoryRunStore;
use typemach::model::Clock;
use typemach::op::{Effect, EffectStatus, Entry, EntryWrite, Vis};
use typemach::rows::{
    already_finished, check_op_row, check_reap_event, check_row_thread, check_rows, commit_gate,
    decode_checkpoint, duration_ms, effect_gate, entry_page, event_answer, event_commit,
    event_page, fetch_limit, finish_answer, finish_commit, lease_until, reaped, reserved_effect,
    row_json, row_limit, row_status, start_gate, start_sig, validate_sql_commit, validate_sqlite_commit, written,
    BusyThread,
    CheckpointRow,
    CommitGate, CommitRow, CommitRows, EffectGate, EffectRow, EntryRow, ItemRow, LookupRow,
    StartGate, StartedRow, ThreadRows,
};
use typemach::store::{
    CheckpointWrite, FinishRunResult, RunCommit, RunCommitResult, RunEventEnvelope,
    RunEventPayload, RunFinishRecord, RunLookup, RunStart, RunStatus,
};
use typemach::table::Table;
use typemach::validate::validate_commit;
use typemach::writes::{commit_writes, RowWrite};

#[derive(Debug, Clone, PartialEq)]
struct Note(bool);

impl RunEventPayload for Note {
    fn is_terminal(&self) -> bool {
        self.0
    }

    fn copy(&self) -> Self {
        self.clone()
    }
}

type NoteEvent = RunEventEnvelope<Note>;

fn event(seq: i64, terminal: bool) -> NoteEvent {
    RunEventEnvelope::new(RunId::from("run"), SessionId::from("session"), seq, Note(terminal))
}

fn json(text: &str) -> Json {
    Json::parse(text).expect("json")
}

fn finish() -> RunFinishRecord<NoteEvent, ()> {
    RunFinishRecord {
        run_id: RunId::from("run"),
        session_id: SessionId::from("session"),
        scope: json("{}"),
        status: RunStatus::Completed,
        finish_reason: "done".to_string(),
        error_code: None,
        terminal_event: event(2, true),
        entries: vec![EntryWrite::new(
            "key".to_string(),
            "msg".to_string(),
            Vis::Public,
            json("1"),
        )],
        data: (),
    }
}

fn commit(events: Vec<NoteEvent>, lease: Option<&str>) -> RunCommit<NoteEvent, ()> {
    RunCommit {
        events,
        lease: lease.map(LeaseId::from),
        ..event_commit(&RunId::from("run"), &json("{}"), &event(1, false))
    }
}

fn row(status: RunStatus, lease: Option<&str>, lease_expired: bool) -> CommitRow {
    CommitRow {
        session_id: SessionId::from("session"),
        thread_id: ThreadId::from("thread"),
        status,
        lease_id: lease.map(LeaseId::from),
        lease_expired,
    }
}

fn lookup() -> RunLookup {
    LookupRow {
        run_id: "run".to_string(),
        session_id: "session".to_string(),
        thread_id: "thread".to_string(),
        status: "running".to_string(),
        finish_reason: None,
        cancel_requested: true,
        owner: Some("worker".to_string()),
    }
    .into_lookup()
    .expect("lookup")
}

#[test]
fn times_are_counted_in_milliseconds() {
    assert_eq!(duration_ms(1_999_999), 1);
    assert_eq!(duration_ms(30_000_000_000), 30_000);
    assert_eq!(duration_ms(u128::MAX), i64::MAX);
    assert_eq!(lease_until(5, 2_000_000), 7);
}

#[test]
fn rows_are_read() {
    assert!(matches!(row_status("error"), Ok(RunStatus::Error)));
    assert!(matches!(
        row_status("nothing"),
        Err(MachineError::InvalidRunEvent { reason }) if reason == "invalid stored run status: nothing"
    ));
    let lookup = lookup();
    assert_eq!(lookup.owner, Some(WorkerId::from("worker")));
    assert!(lookup.cancel_requested);
    assert!(matches!(row_json("{"), Err(MachineError::Deserialization(_))));
    assert_eq!(row_json("[1, 2]").expect("json").as_str(), "[1,2]");

    let record = decode_checkpoint(CheckpointRow {
        version: 1,
        state: "{\"b\":1, \"a\":2}".to_string(),
        next_step: Some("\"next\"".to_string()),
        interrupted_step: None,
        interrupt: None,
        run_id: Some("run".to_string()),
    })
    .expect("record");
    assert_eq!(record.state.as_str(), "{\"a\":2,\"b\":1}");
    assert_eq!(record.next_step, Some(json("\"next\"")));

    let effect = EffectRow {
        key: "key".to_string(),
        kind: "tool".to_string(),
        status: "unknown".to_string(),
        request: "{}".to_string(),
        result: None,
        error_code: None,
        error_message: Some("lost".to_string()),
        created_at: 1,
        updated_at: 2,
    }
    .into_effect(&RunId::from("run"))
    .expect("effect");
    assert_eq!(effect.status, EffectStatus::Unknown);
    let item = ItemRow {
        key: "key".to_string(),
        kind: "artifact".to_string(),
        body: "7".to_string(),
        created_at: 1,
        updated_at: 1,
    }
    .into_item(&RunId::from("run"))
    .expect("item");
    assert_eq!(item.body, json("7"));
    let entry = EntryRow {
        run_id: "run".to_string(),
        thread_id: "thread".to_string(),
        seq: 3,
        key: "key".to_string(),
        kind: "msg".to_string(),
        vis: "internal".to_string(),
        body: "7".to_string(),
        created_at: 1,
        updated_at: 1,
    }
    .into_entry(&SessionId::from("session"))
    .expect("entry");
    assert_eq!(entry.vis, Vis::Internal);
    assert_eq!(entry.seq, 3);
}

#[test]
fn commits_pass_the_gate_of_their_run() {
    let gate = |row: Option<CommitRow>, lease: Option<&str>| {
        commit_gate(&row, &commit(vec![event(1, false)], lease))
    };
    assert!(matches!(gate(None, None), Ok(CommitGate::Skip)));
    assert!(matches!(
        gate(Some(row(RunStatus::Running, None, false)), None),
        Ok(CommitGate::Write)
    ));
    assert!(matches!(
        gate(Some(row(RunStatus::Error, None, false)), None),
        Ok(CommitGate::Skip)
    ));
    assert!(matches!(
        gate(Some(row(RunStatus::Running, Some("lease"), false)), Some("lease")),
        Ok(CommitGate::Write)
    ));
    assert!(matches!(
        gate(Some(row(RunStatus::Running, Some("lease"), true)), Some("lease")),
        Err(MachineError::LeaseLost)
    ));
    assert!(matches!(
        gate(Some(row(RunStatus::Running, Some("lease"), false)), None),
        Err(MachineError::LeaseLost)
    ));
    let mut elsewhere = row(RunStatus::Running, None, false);
    elsewhere.session_id = SessionId::from("other");
    assert!(matches!(
        gate(Some(elsewhere), None),
        Err(MachineError::InvalidRunEvent { .. })
    ));
    assert!(matches!(
        commit_gate(
            &Some(row(RunStatus::Completed, None, false)),
            &finish_commit(finish())
        ),
        Ok(CommitGate::AskTerminal)
    ));
    assert!(matches!(check_op_row(None, None), Err(MachineError::RunNotFound)));
    assert!(matches!(
        check_op_row(Some(&row(RunStatus::Completed, None, false)), None),
        Err(MachineError::RunNotFound)
    ));
    assert!(check_op_row(Some(&row(RunStatus::Running, None, false)), None).is_ok());
}

fn free() -> ThreadRows {
    ThreadRows { other_run: None, claim: None, held: false }
}

fn checkpoint(thread: &str) -> CheckpointWrite {
    CheckpointWrite::new(
        ThreadId::from(thread),
        CheckpointRecord::running(json("1"), None, "run".to_string()),
    )
}

fn busy() -> BusyThread {
    BusyThread { owner: None, run: Some(RunId::from("other")) }
}

#[test]
fn checkpoints_need_their_thread() {
    let plain = row(RunStatus::Running, None, false);
    assert!(check_row_thread(&plain, free(), &checkpoint("thread"), None).is_ok());
    assert!(matches!(
        check_row_thread(&plain, free(), &checkpoint("elsewhere"), None),
        Err(MachineError::InvalidRunEvent { .. })
    ));
    assert!(matches!(
        check_row_thread(
            &plain,
            ThreadRows { other_run: Some(busy()), ..free() },
            &checkpoint("thread"),
            None
        ),
        Err(MachineError::ThreadBusy { .. })
    ));
    assert!(matches!(
        check_row_thread(
            &plain,
            ThreadRows { claim: Some(busy()), ..free() },
            &checkpoint("thread"),
            None
        ),
        Err(MachineError::ThreadBusy { .. })
    ));
    let leased = row(RunStatus::Running, Some("lease"), false);
    let lease = LeaseId::from("lease");
    assert!(matches!(
        check_row_thread(&leased, free(), &checkpoint("thread"), Some(&lease)),
        Err(MachineError::LeaseLost)
    ));
    assert!(check_row_thread(
        &leased,
        ThreadRows { held: true, ..free() },
        &checkpoint("thread"),
        Some(&lease)
    )
    .is_ok());
}

#[test]
fn events_must_follow_the_stored_ones() {
    let rows = |last_seq: i64| CommitRows {
        thread: free(),
        effects: Table::new(),
        items: Table::new(),
        entries: Vec::<ScopedEntry>::new(),
        last_seq,
    };
    let running = row(RunStatus::Running, None, false);
    let two = || commit(vec![event(4, false), event(5, false)], None);
    assert!(check_rows(&running, rows(3), &two()).is_ok());
    assert!(matches!(
        check_rows(&running, rows(4), &two()),
        Err(MachineError::InvalidRunEvent { reason })
            if reason == "event seq must increase monotonically"
    ));
}

#[test]
fn finishes_and_events_are_commits() {
    let commit = finish_commit(finish());
    assert_eq!(commit.events, vec![event(2, true)]);
    assert_eq!(commit.entries.len(), 1);
    assert!(commit.finish.is_some());
    assert!(matches!(
        finish_answer(written(vec![event(2, true)], true)),
        Ok(FinishRunResult::Finished(last)) if last == event(2, true)
    ));
    assert!(matches!(
        finish_answer(already_finished(Some(event(2, true)))),
        Ok(FinishRunResult::AlreadyFinished(_))
    ));
    assert!(matches!(
        finish_answer(RunCommitResult::<NoteEvent>::Skipped),
        Err(MachineError::RunNotFound)
    ));
    assert!(matches!(
        finish_answer(RunCommitResult::Recorded(vec![event(1, false)])),
        Err(MachineError::InvalidRunEvent { .. })
    ));
    assert!(matches!(event_answer(written(vec![event(1, false)], false)), Ok(true)));
    assert!(matches!(event_answer(RunCommitResult::<NoteEvent>::Skipped), Ok(false)));
    assert!(event_answer(written(vec![event(1, true)], true)).is_err());
    assert!(already_finished::<NoteEvent>(None).is_skipped());
}

#[test]
fn starts_are_known_by_their_signature() {
    let entry = EntryWrite::new("k".to_string(), "msg".to_string(), Vis::Public, json("1"));
    let sig = start_sig(&Some(json("{\"a\": 1}")), &vec![entry]);
    assert_eq!(sig, r#"+7:{"a":1}1:k3:msg6:public1:1"#);
    let none = start_sig(&None, &Vec::new());
    assert_eq!(none, "-");
    assert_eq!(start_sig(&Some(json("null")), &Vec::new()), "+4:null");

    let known = |start_sig: &str| {
        Some(StartedRow { lookup: lookup(), start_sig: start_sig.to_string() })
    };
    assert!(matches!(
        start_gate(known("-"), None, &none, Some(busy())),
        Ok(StartGate::Existing(found)) if found.run_id == RunId::from("run")
    ));
    assert!(matches!(
        start_gate(None, known("other"), &none, None),
        Err(MachineError::StartConflict)
    ));
    assert!(matches!(
        start_gate(None, None, &none, Some(busy())),
        Err(MachineError::ThreadBusy { .. })
    ));
    assert!(matches!(start_gate(None, None, &none, None), Ok(StartGate::Insert)));
}

#[test]
fn reaped_runs_have_ended() {
    assert!(check_reap_event(&lookup(), 3, &event(3, true)).is_ok());
    assert!(check_reap_event(&lookup(), 3, &event(3, false)).is_err());
    assert!(check_reap_event(&lookup(), 2, &event(3, true)).is_err());
    let ended = reaped(lookup());
    assert_eq!(ended.status, RunStatus::Error);
    assert_eq!(ended.finish_reason.as_deref(), Some("lease_expired"));
    assert!(ended.owner.is_none());
    assert!(ended.cancel_requested);
}

#[test]
fn one_row_more_shows_that_a_page_is_full() {
    assert_eq!(fetch_limit(2), 3);
    assert_eq!(fetch_limit(usize::MAX), i64::MAX);
    let page = event_page(vec![event(1, false), event(2, false), event(3, false)], 2);
    assert_eq!((page.len(), page.next), (2, Some(2)));
    let page = event_page(vec![event(1, false), event(2, false)], 2);
    assert_eq!((page.len(), page.next), (2, None));
}

#[test]
fn rows_decide_as_the_store_in_memory_does() {
    let clock = Clock { now: 0, wall_ms: 0 };
    let start = RunStart {
        run_id: RunId::from("run"),
        session_id: SessionId::from("session"),
        thread_id: ThreadId::from("thread"),
        agent_kind: "test".to_string(),
        model: None,
        client_run_key: None,
        parent_run_id: None,
        retry_of_run_id: None,
        scope: json("{}"),
        metadata: json("{}"),
        input: None,
        entries: Vec::new(),
        lease: None,
    };
    let running = row(RunStatus::Running, None, false);
    for (seq, thread) in [(3, "thread"), (4, "thread"), (4, "elsewhere"), (2, "elsewhere")] {
        let mut store: MemoryRunStore<NoteEvent, ()> = MemoryRunStore::new();
        store.start_run(&start, clock).expect("start");
        store
            .commit_run(commit(vec![event(3, false)], None), clock)
            .expect("first commit");
        let next = || RunCommit {
            checkpoint: Some(checkpoint(thread)),
            ..commit(vec![event(seq, false)], None)
        };
        let rows = CommitRows {
            thread: free(),
            effects: Table::new(),
            items: Table::new(),
            entries: Vec::new(),
            last_seq: 3,
        };
        let decided = check_rows(&running, rows, &next()).is_ok();
        assert_eq!(decided, store.commit_run(next(), clock).is_ok());
        assert_eq!(decided, (seq, thread) == (4, "thread"));
    }
}

fn effect(status: EffectStatus) -> Option<Effect> {
    EffectRow {
        key: "key".to_string(),
        kind: "tool".to_string(),
        status: status.as_str().to_string(),
        request: "{}".to_string(),
        result: None,
        error_code: None,
        error_message: None,
        created_at: 1,
        updated_at: 1,
    }
    .into_effect(&RunId::from("run"))
    .ok()
}

#[test]
fn stored_effects_decide_what_becomes_of_them() {
    let stored = || effect(EffectStatus::Reserved);
    assert!(reserved_effect(stored(), "tool", &json("{}")).is_ok());
    assert!(matches!(
        reserved_effect(stored(), "other", &json("{}")),
        Err(MachineError::EffectConflict)
    ));
    assert!(matches!(
        reserved_effect(stored(), "tool", &json("1")),
        Err(MachineError::EffectConflict)
    ));
    assert!(matches!(
        reserved_effect(None, "tool", &json("{}")),
        Err(MachineError::EffectNotFound)
    ));
    assert!(matches!(effect_gate(stored()), Ok(EffectGate::Start)));
    assert!(matches!(effect_gate(effect(EffectStatus::Failed)), Ok(EffectGate::Start)));
    assert!(matches!(effect_gate(effect(EffectStatus::Done)), Ok(EffectGate::Known(_))));
    assert!(matches!(
        effect_gate(effect(EffectStatus::Started)),
        Err(MachineError::EffectPending)
    ));
    assert!(matches!(effect_gate(None), Err(MachineError::EffectNotFound)));
    assert_eq!(row_limit(7), 7);
    assert_eq!(row_limit(usize::MAX), i64::MAX);
}

#[test]
fn entries_fill_pages_too() {
    let entry = |seq: i64| -> Entry {
        EntryRow {
            run_id: "run".to_string(),
            thread_id: "thread".to_string(),
            seq,
            key: format!("key-{seq}"),
            kind: "msg".to_string(),
            vis: "public".to_string(),
            body: "1".to_string(),
            created_at: 1,
            updated_at: 1,
        }
        .into_entry(&SessionId::from("session"))
        .expect("entry")
    };
    let page = entry_page(vec![entry(4), entry(6), entry(9)], 2);
    assert_eq!((page.len(), page.next), (2, Some(6)));
    let page = entry_page(vec![entry(4)], 2);
    assert_eq!((page.len(), page.next), (1, None));
}

#[test]
fn signatures_tell_starts_apart() {
    let entry = |key: &str, kind: &str, body: &str| {
        EntryWrite::new(key.to_string(), kind.to_string(), Vis::Public, json(body))
    };
    let sig = start_sig(&None, &vec![entry("a", "bc", "1"), entry("d", "e", "2")]);
    assert_eq!(sig, "-1:a2:bc6:public1:11:d1:e6:public1:2");
    assert_ne!(sig, start_sig(&None, &vec![entry("ab", "c", "1"), entry("d", "e", "2")]));
    assert_ne!(sig, start_sig(&None, &vec![entry("d", "e", "2"), entry("a", "bc", "1")]));
    assert_ne!(sig, start_sig(&Some(json("1")), &vec![entry("d", "e", "2")]));
    assert_eq!(sig, start_sig(&None, &vec![entry("a", "bc", " 1 "), entry("d", "e", "2")]));
}

#[test]
fn sqlite_words_one_refusal_in_its_own_way() {
    let reason = |result: Result<(), MachineError>| match result {
        Err(MachineError::InvalidRunEvent { reason }) => reason,
        _ => panic!("expected a refusal"),
    };
    let mut open = finish_commit(finish());
    open.events = vec![event(2, false)];
    assert_eq!(
        reason(validate_sqlite_commit(&open)),
        "finish commit requires a terminal event"
    );
    assert_eq!(reason(validate_commit(&open)), "finish_run requires a terminal event");
    let ended = commit(vec![event(1, true)], None);
    assert_eq!(
        reason(validate_sqlite_commit(&ended)),
        "record_event does not accept terminal events"
    );
    assert!(validate_sqlite_commit(&finish_commit(finish())).is_ok());

    let mut entries = commit(Vec::new(), None);
    entries.entries = finish().entries;
    assert!(validate_commit(&entries).is_ok());
    let refusal = "commit requires an event, effect, or item";
    assert_eq!(reason(validate_sql_commit(&entries)), refusal);
    assert_eq!(reason(validate_sqlite_commit(&entries)), refusal);
    assert!(validate_sql_commit(&finish_commit(finish())).is_ok());
    assert_eq!(
        commit_writes(&finish_commit(finish())),
        vec![
            RowWrite::Events,
            RowWrite::Effects,
            RowWrite::Items,
            RowWrite::Entries,
            RowWrite::End,
        ]
    );
}
