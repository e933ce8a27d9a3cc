use std::collections::HashMap;

use typemach::error::{error_code, MachineError};
use typemach::ids::{RunId, WorkerId};
use typemach::json::Json;
use typemach::lifecycle::RunCursor;
use typemach::op::{EffectStatus, EffectUpdate, ItemWrite, NoopRunOps, Page, Vis};
use typemach::run::{RuntimeLimits, StepResult, StreamConfig};
use typemach::store::RunStatus;

fn scope_key(scope: &HashMap<&str, &str>) -> Json {
    Json::parse(&serde_json::to_string(scope).expect("text")).expect("json")
}

#[test]
fn scope_key_is_stable_for_unordered_maps() {
    let mut left = HashMap::new();
    left.insert("tenant", "demo");
    left.insert("shop", "north");
    let mut right = HashMap::new();
    right.insert("shop", "north");
    right.insert("tenant", "demo");

    assert_eq!(scope_key(&left), scope_key(&right));
    assert_eq!(scope_key(&left).as_str(), r#"{"shop":"north","tenant":"demo"}"#);
}

#[test]
fn json_texts_are_compact_and_quoted() {
    assert_eq!(Json::parse(" [1, {\"b\" : 2, \"a\":null}]").expect("json").as_str(), r#"[1,{"a":null,"b":2}]"#);
    assert!(Json::parse("{").expect_err("not json").contains("EOF"));
    assert_eq!(Json::string("a\"b\n").as_str(), r#""a\"b\n""#);
    assert_eq!(Json::null().as_str(), "null");
    assert_eq!(Json::empty_object().as_str(), "{}");
    assert_eq!(Json::array(&Vec::new()).as_str(), "[]");
    assert_eq!(Json::array(&vec![Json::null(), Json::string("x")]).as_str(), r#"[null,"x"]"#);
    assert_eq!(
        Json::pair("a", &Json::null(), "b", &Json::string("x")).as_str(),
        r#"{"a":null,"b":"x"}"#
    );
}

#[test]
fn statuses_are_read_as_they_are_written() {
    for status in [
        RunStatus::Running,
        RunStatus::Completed,
        RunStatus::Interrupted,
        RunStatus::Cancelled,
        RunStatus::Error,
    ] {
        assert_eq!(RunStatus::parse(status.as_str()), Some(status));
        assert_eq!(status.is_terminal(), status != RunStatus::Running);
    }
    assert_eq!(RunStatus::Error.as_str(), "error");
    assert_eq!(RunStatus::parse("Error"), None);

    for status in [
        EffectStatus::Reserved,
        EffectStatus::Started,
        EffectStatus::Done,
        EffectStatus::Failed,
        EffectStatus::Unknown,
    ] {
        assert_eq!(EffectStatus::parse(status.as_str()), Some(status));
    }
    assert!(EffectStatus::Started.is_blocking());
    assert!(EffectStatus::Unknown.is_blocking());
    assert!(!EffectStatus::Failed.is_blocking());
    assert_eq!(EffectStatus::parse(""), None);

    for vis in [Vis::Public, Vis::Internal] {
        assert_eq!(Vis::parse(vis.as_str()), Some(vis));
    }
    assert_eq!(Vis::parse("private"), None);
}

#[test]
fn updates_say_how_an_effect_ended() {
    let done = EffectUpdate::done("key".to_string(), Json::null());
    assert_eq!(done.status, EffectStatus::Done);
    assert_eq!(done.result, Some(Json::null()));
    let failed = EffectUpdate::failed("key".to_string(), "code".to_string(), "text".to_string());
    assert_eq!(failed.status, EffectStatus::Failed);
    assert_eq!(failed.error_code.as_deref(), Some("code"));
    assert_eq!(failed.error_message.as_deref(), Some("text"));
    let unknown = EffectUpdate::unknown("key".to_string(), "text".to_string());
    assert_eq!(unknown.status, EffectStatus::Unknown);
    assert_eq!(unknown.error_code, None);
    assert_eq!(unknown.error_message.as_deref(), Some("text"));
    assert!(done.same(&EffectUpdate::done("key".to_string(), Json::null())));
    assert!(!done.same(&failed));
}

#[test]
fn errors_have_messages_and_codes() {
    let cases = [
        (MachineError::StoreDb("gone".to_string()), "store database error: gone", "store_db"),
        (MachineError::MaxStepsExceeded { max: 120 }, "max steps exceeded (120)", "max_steps_exceeded"),
        (MachineError::CapacityExceeded, "too many in-flight runs", "capacity_exceeded"),
        (MachineError::Cancelled, "run cancelled", "cancelled"),
        (MachineError::StreamClosed, "stream receiver closed", "stream_closed"),
        (
            MachineError::NoPendingInterrupt,
            "resume requested but checkpoint has no pending interrupt",
            "no_pending_interrupt",
        ),
        (
            MachineError::InvalidStep { reason: "what".to_string() },
            "checkpoint has invalid step payload: what",
            "invalid_step",
        ),
        (
            MachineError::transition("boom".to_string()),
            "machine transition failed: boom",
            "transition",
        ),
    ];
    for (error, message, code) in cases {
        assert_eq!(error.message(), message);
        assert_eq!(error_code(&error), code);
    }
    assert_eq!(
        error_code(&MachineError::NotOwner { owner: Some(WorkerId::from("w")) }),
        "not_owner"
    );
    assert_eq!(
        error_code(&MachineError::ThreadBusy { owner: None, run: Some(RunId::from("r")) }),
        "thread_busy"
    );
}

#[test]
fn streams_have_room_and_patience() {
    let config = StreamConfig::default();
    assert_eq!(config.heartbeat_interval(), 15_000_000_000);
    assert_eq!(config.channel_capacity(), 32);
    let none = StreamConfig { heartbeat_interval: 0, channel_capacity: 0 };
    assert_eq!(none.heartbeat_interval(), 1_000_000);
    assert_eq!(none.channel_capacity(), 1);
    let limits = RuntimeLimits::new(3);
    assert_eq!(limits.max_steps, 3);
    assert!(limits.allow_clarification);
    assert_eq!(limits.step_timeout, None);
    assert_eq!(StepResult::Interrupt.as_str(), "interrupt");
}

#[test]
fn cursors_are_numbers() {
    assert_eq!(RunCursor::default(), RunCursor::start());
    assert_eq!(RunCursor::from(7).as_i64(), 7);
    assert_eq!(i64::from(RunCursor::new(9)), 9);
    assert!(RunCursor::new(1) < RunCursor::new(2));
}

#[test]
fn pages_hold_their_items() {
    let page = Page::new(vec![1, 2], Some(2));
    assert_eq!(page.len(), 2);
    assert_eq!(page[1], 2);
    let empty: Page<i32> = Page::empty();
    assert!(empty.is_empty());
    assert_eq!(empty.next, None);
}

#[test]
fn nothing_is_recorded_without_a_store() {
    let run_id = RunId::from("run");
    let ops = NoopRunOps;
    assert!(matches!(
        ops.reserve(&run_id, "key", "tool", Json::null()),
        Err(MachineError::RuntimeOpUnavailable)
    ));
    assert!(matches!(
        ops.start(&run_id, "key"),
        Err(MachineError::RuntimeOpUnavailable)
    ));
    assert!(matches!(
        ops.push_effect(&run_id, EffectUpdate::done("key".to_string(), Json::null())),
        Err(MachineError::RuntimeOpUnavailable)
    ));
    let item = ItemWrite { key: "key".to_string(), kind: "tool".to_string(), body: Json::null() };
    assert!(matches!(
        ops.push_item(&run_id, item),
        Err(MachineError::RuntimeOpUnavailable)
    ));
}

#[test]
fn strings_are_escaped_as_they_must_be() {
    let text = "\"\\/\u{8}\t\n\u{c}\r\u{0}\u{1f}\u{7f}\u{e9}\u{1f600}";
    let mut expected = String::from("\"\\\"\\\\/\\b\\t\\n\\f\\r\\u0000\\u001f");
    expected.push_str("\u{7f}\u{e9}\u{1f600}\"");
    assert_eq!(Json::string(text).as_str(), expected);
    assert_eq!(Json::parse(&expected).expect("json"), Json::string(text));
}

#[test]
fn zeros_are_the_same_whatever_their_sign() {
    let json = |text: &str| Json::parse(text).expect("json");
    assert_eq!(json("-0.0"), json("0.0"));
    assert_eq!(json("-0.0").as_str(), "-0.0");
    assert_eq!(json("-0.0").value_str(), "0.0");
    assert_eq!(json(r#"{"a": [-0.0, 1, -0e3], "-0.0": "-0.0 \" -0.0"}"#).value_str(),
        r#"{"-0.0":"-0.0 \" -0.0","a":[0.0,1,0.0]}"#);
    assert_eq!(json(r#"{"a": [-0.0]}"#), json(r#"{"a": [0.0]}"#));
    assert_ne!(json("-0.05"), json("0.05"));
    assert_eq!(json("-0.05").value_str(), "-0.05");
    assert_ne!(json("0"), json("0.0"));
    assert_ne!(json("\"-0.0\""), json("\"0.0\""));
    assert_eq!(json("1e-7").value_str(), json("1e-7").as_str());
    let zeros = Json::array(&vec![json("-0.0"), json("0.0")]);
    assert_eq!(zeros.as_str(), "[-0.0,0.0]");
    assert_eq!(zeros.value_str(), "[0.0,0.0]");
    assert_eq!(zeros, json("[0.0,-0.0]"));
    let pair = Json::pair("a", &json("-0.0"), "b", &Json::null());
    assert_eq!(pair.as_str(), r#"{"a":-0.0,"b":null}"#);
    assert_eq!(pair, json(r#"{"b":null,"a":0.0}"#));
}

#[test]
fn unreadable_texts_are_answered_with_a_message() {
    let message = serde_json::from_str::<serde_json::Value>("[1,").expect_err("not json").to_string();
    assert_eq!(Json::parse("[1,").expect_err("not json"), message);
}
