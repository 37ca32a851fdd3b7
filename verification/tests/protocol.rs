use taskclaim::claim::process_tasks;
use taskclaim::executor::{handler_kind, run_task, HandlerKind};
use taskclaim::store::TaskStore;
use taskclaim::supervisor::Supervisor;
use taskclaim::task::{Task, TaskState, Timestamp, NIL_PROCESSOR};

fn ready_task(id: u128, task_type: &str, send_millis: i64) -> Task {
    Task {
        id,
        task_type: task_type.to_owned(),
        state: TaskState::Ready,
        send_ts: Timestamp::from_millis(send_millis),
        processor: NIL_PROCESSOR,
    }
}

#[test]
fn single_supervisor_claims_and_completes() {
    let mut store = TaskStore::new();
    store.create_task(ready_task(1, "foo", 0));
    let mut sup = Supervisor::new(1, 1);
    let now = Timestamp::from_millis(1000);

    let claimed = sup.supervise_cycle(&mut store, now);
    assert_eq!(claimed.len(), 1);
    assert_eq!(claimed[0].id, 1);
    assert_eq!(claimed[0].state, TaskState::Processing);
    assert_eq!(claimed[0].processor, sup.id);
    assert_eq!(sup.in_flight, 1);

    let stored = store.get_task(1).unwrap();
    assert_eq!(stored.state, TaskState::Processing);
    assert_eq!(stored.processor, sup.id);

    let kind = run_task(&mut store, &claimed[0], false);
    assert_eq!(kind, HandlerKind::Foo);
    let done = store.get_task(1).unwrap();
    assert_eq!(done.state, TaskState::Complete);
}

#[test]
fn race_last_assign_wins_and_loser_confirms_nothing() {
    let mut store = TaskStore::new();
    store.create_task(ready_task(7, "bar", 0));
    let now = Timestamp::from_millis(500);
    let p1: u128 = 100;
    let p2: u128 = 200;

    // both supervisors propose the same candidate
    let c1 = store.list_ready(50, now);
    let c2 = store.list_ready(50, now);
    assert_eq!(c1, vec![7]);
    assert_eq!(c2, vec![7]);

    // both assign; the later write wins
    store.assign(p1, &c1);
    store.assign(p2, &c2);

    // only the winner's confirm returns the task
    let r1 = store.fetch_claimed(&c1, p1);
    let r2 = store.fetch_claimed(&c2, p2);
    assert!(r1.is_empty());
    assert_eq!(r2.len(), 1);
    assert_eq!(r2[0].id, 7);
    assert_eq!(r2[0].processor, p2);
    assert_eq!(r2[0].state, TaskState::Processing);
}

#[test]
fn three_way_race_has_one_winner() {
    let mut store = TaskStore::new();
    store.create_task(ready_task(7, "foo", 0));
    let now = Timestamp::from_millis(500);

    let c1 = store.list_ready(50, now);
    let c2 = store.list_ready(50, now);
    let c3 = store.list_ready(50, now);
    store.assign(100, &c1);
    store.assign(200, &c2);
    store.assign(300, &c3);

    let r1 = store.fetch_claimed(&c1, 100);
    let r2 = store.fetch_claimed(&c2, 200);
    let r3 = store.fetch_claimed(&c3, 300);
    assert!(r1.is_empty());
    assert!(r2.is_empty());
    assert_eq!(r3.len(), 1);
    assert_eq!(r3[0].processor, 300);
}

#[test]
fn partial_overlap_splits_without_loss() {
    let mut store = TaskStore::new();
    store.create_task(ready_task(1, "foo", 0));
    store.create_task(ready_task(2, "foo", 0));
    let now = Timestamp::from_millis(500);

    // p1 proposed both tasks, p2 only the contended one
    let c1 = store.list_ready(50, now);
    let c2 = vec![2u128];
    store.assign(100, &c1);
    store.assign(200, &c2);

    let r1 = store.fetch_claimed(&c1, 100);
    let r2 = store.fetch_claimed(&c2, 200);
    assert_eq!(r1.len(), 1);
    assert_eq!(r1[0].id, 1);
    assert_eq!(r2.len(), 1);
    assert_eq!(r2[0].id, 2);
}

#[test]
fn empty_store_poll_is_idempotent() {
    let mut store = TaskStore::new();
    let ids = store.list_ready(50, Timestamp::from_millis(0));
    assert!(ids.is_empty());

    let mut sup = Supervisor::new(250, 50);
    for _ in 0..3 {
        let claimed = sup.supervise_cycle(&mut store, Timestamp::from_millis(0));
        assert!(claimed.is_empty());
        assert_eq!(sup.in_flight, 0);
    }
}

#[test]
fn admission_denied_without_full_batch_headroom() {
    let sup = Supervisor {
        id: 9,
        in_flight: 220,
        concurrency_ceiling: 250,
        batch_size: 50,
    };
    assert!(!sup.admission_allows());

    let mut sup = sup;
    let mut store = TaskStore::new();
    store.create_task(ready_task(3, "foo", 0));
    let claimed = sup.supervise_cycle(&mut store, Timestamp::from_millis(10));
    assert!(claimed.is_empty());
    assert_eq!(sup.in_flight, 220);
    // the due task was not touched
    let t = store.get_task(3).unwrap();
    assert_eq!(t.state, TaskState::Ready);
    assert_eq!(t.processor, NIL_PROCESSOR);
}

#[test]
fn admission_allowed_at_exact_headroom() {
    let sup = Supervisor {
        id: 9,
        in_flight: 200,
        concurrency_ceiling: 250,
        batch_size: 50,
    };
    assert!(sup.admission_allows());
}

#[test]
fn unregistered_type_completes_without_handler() {
    let mut store = TaskStore::new();
    store.create_task(ready_task(4, "qux", 0));
    let task = store.get_task(4).unwrap();
    let kind = run_task(&mut store, &task, false);
    assert_eq!(kind, HandlerKind::Unregistered);
    assert_eq!(store.get_task(4).unwrap().state, TaskState::Complete);
}

#[test]
fn handler_dispatch_by_type_tag() {
    assert_eq!(handler_kind(&"foo".to_owned()), HandlerKind::Foo);
    assert_eq!(handler_kind(&"bar".to_owned()), HandlerKind::Bar);
    assert_eq!(handler_kind(&"baz".to_owned()), HandlerKind::Baz);
    assert_eq!(handler_kind(&"qux".to_owned()), HandlerKind::Unregistered);
    assert_eq!(handler_kind(&"".to_owned()), HandlerKind::Unregistered);
}

#[test]
fn handler_failure_still_completes() {
    let mut store = TaskStore::new();
    store.create_task(ready_task(5, "baz", 0));
    let task = store.get_task(5).unwrap();
    let kind = run_task(&mut store, &task, true);
    assert_eq!(kind, HandlerKind::Baz);
    assert_eq!(store.get_task(5).unwrap().state, TaskState::Complete);
}

#[test]
fn batch_claims_everything_that_fits() {
    let mut store = TaskStore::new();
    store.create_task(ready_task(1, "foo", 0));
    store.create_task(ready_task(2, "bar", 0));
    store.create_task(ready_task(3, "baz", 0));
    let now = Timestamp::from_millis(100);

    let claimed = process_tasks(&mut store, 42, 50, now);
    assert_eq!(claimed.len(), 3);
    let mut ids: Vec<u128> = claimed.iter().map(|t| t.id).collect();
    ids.sort_unstable();
    assert_eq!(ids, vec![1, 2, 3]);

    // a second cycle finds nothing: the tasks are already processing
    let again = process_tasks(&mut store, 42, 50, now);
    assert!(again.is_empty());
}

#[test]
fn batch_size_bounds_claims() {
    let mut store = TaskStore::new();
    for id in 1..=5u128 {
        store.create_task(ready_task(id, "foo", 0));
    }
    let claimed = process_tasks(&mut store, 42, 2, Timestamp::from_millis(1));
    assert_eq!(claimed.len(), 2);
}

#[test]
fn future_tasks_are_not_due() {
    let mut store = TaskStore::new();
    store.create_task(ready_task(1, "foo", 2000));
    let ids = store.list_ready(50, Timestamp::from_millis(1000));
    assert!(ids.is_empty());
    let ids = store.list_ready(50, Timestamp::from_millis(2000));
    assert_eq!(ids, vec![1]);
}

#[test]
fn drain_notifications_lowers_in_flight() {
    let mut sup = Supervisor {
        id: 9,
        in_flight: 5,
        concurrency_ceiling: 250,
        batch_size: 50,
    };
    sup.drain_notifications(3);
    assert_eq!(sup.in_flight, 2);
    sup.drain_notifications(2);
    assert_eq!(sup.in_flight, 0);
}

#[test]
fn fresh_supervisors_have_distinct_real_identities() {
    let a = Supervisor::new(250, 50);
    let b = Supervisor::new(250, 50);
    assert_ne!(a.id, NIL_PROCESSOR);
    assert_ne!(b.id, NIL_PROCESSOR);
    assert_ne!(a.id, b.id);
    assert_eq!(a.in_flight, 0);
}
