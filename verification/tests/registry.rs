use tokio::sync::mpsc;
use typemach::error::MachineError;
use typemach::flag::Flags;
use typemach::ids::RunId;
use typemach::registry::{RunHandle, RunRegistry};

fn test_run_id(id: &str) -> RunId {
    RunId::from(id)
}

fn test_handle<E>(registry: &mut RunRegistry<E>) -> RunHandle {
    registry.issue("token".to_string())
}

#[test]
fn rejects_when_full() {
    let mut registry = RunRegistry::<i64>::new();
    let handle = test_handle(&mut registry);
    registry
        .try_insert(test_run_id("run-a"), handle, None, 1)
        .expect("first run should fit");
    let handle = test_handle(&mut registry);
    assert!(registry
        .try_insert(test_run_id("run-b"), handle, None, 1)
        .is_err());
    assert_eq!(registry.len(), 1);
}

#[test]
fn rejects_duplicate_run_without_replacing_existing() {
    let mut registry = RunRegistry::<i64>::new();
    let (first_sender, mut first_receiver) = mpsc::unbounded_channel();
    let handle = test_handle(&mut registry);
    registry
        .try_insert(test_run_id("run-a"), handle, Some(first_sender), 1)
        .expect("first run should fit");

    let (second_sender, mut second_receiver) = mpsc::unbounded_channel();
    let handle = registry.issue("replacement".to_string());
    let err = registry
        .try_insert(
            test_run_id("run-a"),
            handle,
            Some(second_sender),
            1,
        )
        .expect_err("duplicate run should be rejected");

    assert!(matches!(err, MachineError::RunAlreadyActive));
    assert!(registry
        .resolve(&test_run_id("run-a"), "replacement")
        .is_none());

    registry.publish(&test_run_id("run-a"), 1);
    assert_eq!(first_receiver.try_recv(), Ok(1));
    assert!(second_receiver.try_recv().is_err());
}

#[test]
fn sequences_events_per_run() {
    let mut registry = RunRegistry::<i64>::new();
    let handle = test_handle(&mut registry);
    registry
        .try_insert(test_run_id("run-a"), handle, None, 1)
        .expect("run should fit");
    assert_eq!(registry.next_seq(&test_run_id("run-a")), Some(1));
    assert_eq!(registry.next_seq(&test_run_id("run-a")), Some(2));
    assert_eq!(registry.next_seq(&test_run_id("missing")), None);
}

#[test]
fn marks_cancellation() {
    let mut registry = RunRegistry::<i64>::new();
    let handle = test_handle(&mut registry);
    registry
        .try_insert(test_run_id("run-a"), handle, None, 1)
        .expect("run should fit");
    let cancelled = registry
        .request_cancel(&test_run_id("run-a"))
        .expect("active run");
    assert!(cancelled.is_cancelled(registry.flags()));
    assert!(registry
        .resolve(&test_run_id("run-a"), "token")
        .expect("context")
        .is_cancelled(registry.flags()));
}

#[test]
fn publish_terminal_returns_false_when_already_terminal() {
    let mut registry = RunRegistry::<i64>::new();
    let (sender, mut receiver) = mpsc::unbounded_channel();
    let handle = test_handle(&mut registry);
    registry
        .try_insert(test_run_id("run-a"), handle, Some(sender), 1)
        .expect("run should fit");

    assert!(registry.publish_terminal(&test_run_id("run-a"), 1));
    assert!(!registry.publish_terminal(&test_run_id("run-a"), 2));

    assert_eq!(receiver.try_recv(), Ok(1));
    assert!(receiver.try_recv().is_err());
}

#[test]
fn terminal_run_rejects_late_subscribers_and_publish() {
    let mut registry = RunRegistry::<i64>::new();
    let (sender, mut receiver) = mpsc::unbounded_channel();
    let handle = test_handle(&mut registry);
    registry
        .try_insert(test_run_id("run-a"), handle, Some(sender), 1)
        .expect("run should fit");

    assert!(registry.publish_terminal(&test_run_id("run-a"), 1));
    assert!(registry.subscribe(&test_run_id("run-a")).is_none());
    registry.publish(&test_run_id("run-a"), 2);

    assert_eq!(receiver.try_recv(), Ok(1));
    assert!(receiver.try_recv().is_err());
}

#[derive(Debug)]
struct NonClone;

#[test]
fn registry_accepts_non_clone_event_for_lifecycle_operations() {
    let mut registry = RunRegistry::<NonClone>::new();
    let handle = test_handle(&mut registry);
    registry
        .try_insert(test_run_id("run-a"), handle, None, 1)
        .expect("run should fit");
    assert_eq!(registry.next_seq(&test_run_id("run-a")), Some(1));
    assert!(registry.subscribe(&test_run_id("run-a")).is_some());
    assert!(registry.request_cancel(&test_run_id("run-a")).is_some());
}

#[test]
fn publish_always_accepts() {
    let mut registry = RunRegistry::<i64>::new();
    let (sender, mut receiver) = mpsc::unbounded_channel();
    let handle = test_handle(&mut registry);
    registry
        .try_insert(test_run_id("run-a"), handle, Some(sender), 1)
        .expect("run should fit");

    registry.publish(&test_run_id("run-a"), 1);
    registry.publish(&test_run_id("run-a"), 2);

    assert_eq!(receiver.try_recv(), Ok(1));
    assert_eq!(receiver.try_recv(), Ok(2));
}

#[test]
fn numbers_can_be_taken_back_in_turn_only() {
    let mut registry = RunRegistry::<i64>::default();
    let handle = test_handle(&mut registry);
    registry
        .try_insert(test_run_id("run-a"), handle, None, 1)
        .expect("run should fit");
    assert_eq!(registry.next_seq(&test_run_id("run-a")), Some(1));
    assert_eq!(registry.next_seq(&test_run_id("run-a")), Some(2));
    assert!(!registry.rewind_seq(&test_run_id("run-a"), 1));
    assert!(registry.rewind_seq(&test_run_id("run-a"), 2));
    assert_eq!(registry.next_seq(&test_run_id("run-a")), Some(2));
    assert!(!registry.rewind_seq(&test_run_id("missing"), 2));
}

#[test]
fn subscribers_of_one_run_all_hear() {
    let mut registry = RunRegistry::<i64>::new();
    let handle = test_handle(&mut registry);
    registry
        .try_insert(test_run_id("run-a"), handle, None, 2)
        .expect("run should fit");
    let handle = test_handle(&mut registry);
    registry
        .try_insert(test_run_id("run-b"), handle, None, 2)
        .expect("run should fit");
    let mut first = registry.subscribe(&test_run_id("run-a")).expect("first");
    let mut second = registry.subscribe(&test_run_id("run-a")).expect("second");
    let mut other = registry.subscribe(&test_run_id("run-b")).expect("other");
    registry.publish(&test_run_id("run-a"), 7);
    assert_eq!(first.try_recv(), Ok(7));
    assert_eq!(second.try_recv(), Ok(7));
    assert!(other.try_recv().is_err());

    drop(first);
    registry.publish(&test_run_id("run-a"), 8);
    assert_eq!(second.try_recv(), Ok(8));
}

#[test]
fn removed_runs_are_gone() {
    let mut registry = RunRegistry::<i64>::new();
    let handle = test_handle(&mut registry);
    registry
        .try_insert(test_run_id("run-a"), handle, None, 1)
        .expect("run should fit");
    assert!(!registry.is_empty());
    registry.remove(&test_run_id("run-a"));
    assert!(registry.is_empty());
    assert!(registry.handle(&test_run_id("run-a")).is_none());
    assert!(registry.request_cancel(&test_run_id("run-a")).is_none());
    assert!(!registry.publish_terminal(&test_run_id("run-a"), 1));
    let handle = test_handle(&mut registry);
    let err = registry
        .try_insert(test_run_id("run-b"), handle, None, 0)
        .expect_err("no run fits");
    assert!(matches!(err, MachineError::CapacityExceeded));
}

#[test]
fn copies_of_a_handle_share_its_flag() {
    let mut flags = Flags::new();
    let handle = RunHandle::new("token".to_string(), &mut flags);
    let before = handle.clone();
    let other = RunHandle::new("token".to_string(), &mut flags);
    assert!(!handle.is_cancelled(&flags) && !other.is_cancelled(&flags));
    handle.cancel(&mut flags);
    let after = handle.clone();
    assert!(handle.is_cancelled(&flags));
    assert!(before.is_cancelled(&flags) && after.is_cancelled(&flags));
    assert!(!other.is_cancelled(&flags));
    handle.cancel(&mut flags);
    assert!(before.is_cancelled(&flags) && !other.is_cancelled(&flags));
    let fresh = RunHandle::new("fresh".to_string(), &mut flags);
    assert!(!fresh.is_cancelled(&flags) && handle.is_cancelled(&flags));
    assert_eq!(handle.token, "token");
}

#[test]
fn any_number_can_be_taken_back_if_it_is_the_last() {
    let mut registry = RunRegistry::<i64>::new();
    let run = test_run_id("run-a");
    let handle = test_handle(&mut registry);
    registry
        .try_insert(run.clone(), handle, None, 1)
        .expect("run should fit");
    assert_eq!(registry.last_seq(&run), Some(0));
    assert!(!registry.rewind_seq(&run, -1));
    assert!(registry.rewind_seq(&run, 0));
    assert_eq!(registry.last_seq(&run), Some(-1));
    assert_eq!(registry.next_seq(&run), Some(0));
    assert_eq!(registry.last_seq(&test_run_id("missing")), None);
}

#[test]
fn listeners_leave_when_their_channel_is_closed() {
    let mut registry = RunRegistry::<i64>::new();
    let run = test_run_id("run-a");
    let (first_sender, first) = mpsc::unbounded_channel();
    let handle = test_handle(&mut registry);
    registry
        .try_insert(run.clone(), handle, Some(first_sender), 1)
        .expect("run should fit");
    let mut second = registry.subscribe(&run).expect("second");
    registry.publish(&run, 1);
    drop(first);
    registry.publish(&run, 2);
    let mut third = registry.subscribe(&run).expect("third");
    assert!(registry.publish_terminal(&run, 3));
    registry.publish(&run, 4);
    assert_eq!(second.try_recv(), Ok(1));
    assert_eq!(second.try_recv(), Ok(2));
    assert_eq!(second.try_recv(), Ok(3));
    assert!(second.try_recv().is_err());
    assert_eq!(third.try_recv(), Ok(3));
    assert!(third.try_recv().is_err());
}
