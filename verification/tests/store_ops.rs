use taskclaim::connection::ScyllaConnection;
use taskclaim::store::{state_tag_of, TaskFilters, TaskStore};
use taskclaim::task::{Task, TaskError, TaskState, Timestamp, NIL_PROCESSOR};

fn task_in(id: u128, task_type: &str, state: TaskState) -> Task {
    let processor = match state {
        TaskState::Ready => NIL_PROCESSOR,
        _ => 77,
    };
    Task {
        id,
        task_type: task_type.to_owned(),
        state,
        send_ts: Timestamp::from_millis(0),
        processor,
    }
}

#[test]
fn create_then_get_roundtrip() {
    let mut store = TaskStore::new();
    let id = store.create_task(task_in(11, "foo", TaskState::Ready));
    assert_eq!(id, 11);
    let got = store.get_task(11).unwrap();
    assert_eq!(got.id, 11);
    assert_eq!(got.task_type, "foo");
    assert_eq!(got.state, TaskState::Ready);
    assert_eq!(got.send_ts, Timestamp::from_millis(0));
    assert_eq!(got.processor, NIL_PROCESSOR);
}

#[test]
fn get_missing_task_is_typed_error() {
    let store = TaskStore::new();
    assert_eq!(store.get_task(99).unwrap_err(), TaskError::TypedError);
}

#[test]
fn create_existing_id_overwrites() {
    let mut store = TaskStore::new();
    store.create_task(task_in(1, "foo", TaskState::Ready));
    store.create_task(task_in(1, "bar", TaskState::Ready));
    let got = store.get_task(1).unwrap();
    assert_eq!(got.task_type, "bar");
    let all = store.get_tasks(&TaskFilters { state: None, task_type: None });
    assert_eq!(all.len(), 1);
}

#[test]
fn delete_removes_the_record() {
    let mut store = TaskStore::new();
    store.create_task(task_in(1, "foo", TaskState::Ready));
    store.create_task(task_in(2, "bar", TaskState::Ready));
    store.delete_task(1);
    assert!(store.get_task(1).is_err());
    assert!(store.get_task(2).is_ok());
    // deleting an absent id is a no-op
    store.delete_task(1);
    assert!(store.get_task(2).is_ok());
}

#[test]
fn filters_select_by_state_and_type() {
    let mut store = TaskStore::new();
    store.create_task(task_in(1, "foo", TaskState::Ready));
    store.create_task(task_in(2, "foo", TaskState::Processing));
    store.create_task(task_in(3, "bar", TaskState::Complete));

    let all = store.get_tasks(&TaskFilters { state: None, task_type: None });
    assert_eq!(all.len(), 3);

    let ready = store.get_tasks(&TaskFilters {
        state: Some("READY".to_owned()),
        task_type: None,
    });
    assert_eq!(ready.len(), 1);
    assert_eq!(ready[0].id, 1);

    let foos = store.get_tasks(&TaskFilters {
        state: None,
        task_type: Some("foo".to_owned()),
    });
    assert_eq!(foos.len(), 2);

    let processing_foo = store.get_tasks(&TaskFilters {
        state: Some("PROCESSING".to_owned()),
        task_type: Some("foo".to_owned()),
    });
    assert_eq!(processing_foo.len(), 1);
    assert_eq!(processing_foo[0].id, 2);

    let none = store.get_tasks(&TaskFilters {
        state: Some("COMPLETE".to_owned()),
        task_type: Some("foo".to_owned()),
    });
    assert!(none.is_empty());
}

#[test]
fn state_tags_render_as_stored() {
    assert_eq!(state_tag_of(TaskState::Ready), "READY");
    assert_eq!(state_tag_of(TaskState::Processing), "PROCESSING");
    assert_eq!(state_tag_of(TaskState::Complete), "COMPLETE");
}

#[test]
fn list_ready_skips_claimed_and_complete() {
    let mut store = TaskStore::new();
    store.create_task(task_in(1, "foo", TaskState::Ready));
    store.create_task(task_in(2, "foo", TaskState::Processing));
    store.create_task(task_in(3, "foo", TaskState::Complete));
    let ids = store.list_ready(50, Timestamp::from_millis(10));
    assert_eq!(ids, vec![1]);
}

#[test]
fn fetch_claimed_requires_matching_processor() {
    let mut store = TaskStore::new();
    store.create_task(task_in(1, "foo", TaskState::Ready));
    let ids = vec![1u128];
    store.assign(55, &ids);
    assert!(store.fetch_claimed(&ids, 66).is_empty());
    let mine = store.fetch_claimed(&ids, 55);
    assert_eq!(mine.len(), 1);
    assert_eq!(mine[0].processor, 55);
}

#[test]
fn complete_is_unconditional_and_targeted() {
    let mut store = TaskStore::new();
    store.create_task(task_in(1, "foo", TaskState::Processing));
    store.create_task(task_in(2, "foo", TaskState::Processing));
    store.complete_task(1);
    assert_eq!(store.get_task(1).unwrap().state, TaskState::Complete);
    assert_eq!(store.get_task(2).unwrap().state, TaskState::Processing);
}

#[test]
fn new_tasks_are_ready_and_unclaimed() {
    let t = Task::new("foo".to_owned(), Timestamp::from_millis(123));
    assert_eq!(t.state, TaskState::Ready);
    assert_eq!(t.processor, NIL_PROCESSOR);
    assert_eq!(t.send_ts, Timestamp::from_millis(123));
    assert_ne!(t.id, 0);
}

#[test]
fn timestamps_order_by_millis() {
    let early = Timestamp::from_millis(5);
    let late = Timestamp::from_millis(6);
    assert!(early.is_due_by(&late));
    assert!(early.is_due_by(&early));
    assert!(!late.is_due_by(&early));
}

#[test]
fn connection_defaults() {
    let conn = ScyllaConnection::new();
    assert_eq!(conn.uri, "scylla:9042");
    assert_eq!(conn.user, "cassandra");
    assert_eq!(conn.password, "cassandra");
}
