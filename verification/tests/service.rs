use grpc_service::store::TaskStore;
use grpc_service::types::{
    CreateTaskRequest, DeleteTaskRequest, ErrorCode, EventType, Operation, TaskError,
    TaskOperation, TaskStatus,
};

fn create_req(title: &str, description: &str) -> CreateTaskRequest {
    CreateTaskRequest { title: title.to_string(), description: description.to_string() }
}

fn create_op(title: &str, description: &str) -> TaskOperation {
    TaskOperation { operation: Some(Operation::Create(create_req(title, description))) }
}

fn delete_op(id: &str) -> TaskOperation {
    TaskOperation { operation: Some(Operation::Delete(DeleteTaskRequest { id: id.to_string() })) }
}

/// Creating a task returns it with the correct title and a generated id.
#[test]
fn test_create_and_get_task() {
    let mut store = TaskStore::new();
    let (created, _event) = store.create_task(create_req("test task", "some description")).unwrap();

    assert_eq!(created.title, "test task");
    assert!(!created.id.is_empty());

    let fetched = store.get_task(&created.id).unwrap();

    assert_eq!(fetched.id, created.id);
    assert_eq!(fetched.title, "test task");
    assert_eq!(fetched.description, "some description");
}

/// Creating a task with an empty title returns InvalidArgument.
#[test]
fn test_create_requires_title() {
    let mut store = TaskStore::new();
    let result = store.create_task(create_req("", "no title"));

    assert!(result.is_err());
    assert_eq!(result.unwrap_err().code(), ErrorCode::InvalidArgument);
}

/// Getting a non-existent task returns NotFound.
#[test]
fn test_get_nonexistent_task() {
    let store = TaskStore::new();
    let result = store.get_task("does-not-exist");

    assert!(result.is_err());
    assert_eq!(result.unwrap_err().code(), ErrorCode::NotFound);
}

/// ListTasks returns all created tasks.
#[test]
fn test_list_tasks() {
    let mut store = TaskStore::new();
    for i in 0..3 {
        store.create_task(create_req(&format!("task-{}", i), "")).unwrap();
    }

    let list = store.list_tasks();

    assert_eq!(list.len(), 3);
}

/// Deleting a task removes it — subsequent get returns NotFound.
#[test]
fn test_delete_task() {
    let mut store = TaskStore::new();
    let (task, _) = store.create_task(create_req("to delete", "")).unwrap();

    store.delete_task(&task.id).unwrap();

    let result = store.get_task(&task.id);

    assert!(result.is_err());
    assert_eq!(result.unwrap_err().code(), ErrorCode::NotFound);
}

/// Deleting a non-existent task returns NotFound.
#[test]
fn test_delete_nonexistent_task() {
    let mut store = TaskStore::new();
    let result = store.delete_task("ghost");

    assert!(result.is_err());
    assert_eq!(result.unwrap_err().code(), ErrorCode::NotFound);
}

/// BatchTasks creates two tasks and returns a success result for each.
#[test]
fn test_batch_create_tasks() {
    let mut store = TaskStore::new();
    let ops = vec![create_op("batch-1", ""), create_op("batch-2", "")];

    let mut count = 0;
    for op in ops {
        let (r, _event) = store.apply_operation(op);
        assert!(r.success);
        assert!(r.task.is_some());
        count += 1;
    }
    assert_eq!(count, 2);
}

/// BatchTasks with an empty title returns a failure result (not an error).
#[test]
fn test_batch_create_empty_title_returns_failure() {
    let mut store = TaskStore::new();
    let (r, _event) = store.apply_operation(create_op("", ""));
    assert!(!r.success);
    assert!(r.task.is_none());
}

/// WatchTasks receives a CREATED event when a task is created.
#[test]
fn test_watch_receives_created_event() {
    let mut store = TaskStore::new();
    let (_task, event) = store.create_task(create_req("watched", "")).unwrap();

    assert_eq!(event.event_type, EventType::Created);
    assert_eq!(event.task.unwrap().title, "watched");
}

#[test]
fn ids_count_up_from_one() {
    let mut store = TaskStore::new();
    assert_eq!(store.next_id(), 1);
    let (a, _) = store.create_task(create_req("a", "")).unwrap();
    let (b, _) = store.create_task(create_req("b", "")).unwrap();
    assert_eq!(a.id, "task-1");
    assert_eq!(b.id, "task-2");
    assert_eq!(a.status, TaskStatus::Pending);
    assert_eq!(store.next_id(), 3);
}

#[test]
fn refused_create_consumes_no_id() {
    let mut store = TaskStore::new();
    assert!(store.create_task(create_req("", "x")).is_err());
    assert_eq!(store.next_id(), 1);
    assert!(store.list_tasks().is_empty());
    let (a, _) = store.create_task(create_req("a", "")).unwrap();
    assert_eq!(a.id, "task-1");
}

#[test]
fn deleted_ids_are_not_reused() {
    let mut store = TaskStore::new();
    let (a, _) = store.create_task(create_req("a", "")).unwrap();
    store.delete_task(&a.id).unwrap();
    let (b, _) = store.create_task(create_req("b", "")).unwrap();
    assert_eq!(b.id, "task-2");
    assert!(store.get_task("task-1").is_err());
    assert_eq!(store.get_task("task-2").unwrap().title, "b");
}

#[test]
fn get_needs_the_exact_id() {
    let mut store = TaskStore::new();
    store.create_task(create_req("a", "")).unwrap();
    assert!(store.get_task("task-1").is_ok());
    for other in ["task-01", "task-1 ", "Task-1", "task1", "task-", "", "task-+1", "task-١"] {
        let err = store.get_task(other).unwrap_err();
        assert_eq!(err.code(), ErrorCode::NotFound);
        assert_eq!(err.message(), format!("task {} not found", other));
    }
}

#[test]
fn list_holds_each_task_once() {
    let mut store = TaskStore::new();
    for t in ["x", "y", "z"] {
        store.create_task(create_req(t, "d")).unwrap();
    }
    store.delete_task("task-2").unwrap();
    let mut ids: Vec<String> = store.list_tasks().into_iter().map(|t| t.id).collect();
    ids.sort();
    assert_eq!(ids, vec!["task-1".to_string(), "task-3".to_string()]);
}

#[test]
fn unary_delete_event_carries_only_the_id() {
    let mut store = TaskStore::new();
    let (a, _) = store.create_task(create_req("a", "desc")).unwrap();
    let event = store.delete_task(&a.id).unwrap();
    assert_eq!(event.event_type, EventType::Deleted);
    let t = event.task.unwrap();
    assert_eq!(t.id, "task-1");
    assert_eq!(t.title, "");
    assert_eq!(t.description, "");
    assert_eq!(t.status, TaskStatus::Pending);
}

#[test]
fn error_messages() {
    let mut store = TaskStore::new();
    let err = store.create_task(create_req("", "")).unwrap_err();
    assert!(matches!(err, TaskError::EmptyTitle));
    assert_eq!(err.message(), "Title cannot be empty");
    let err = store.delete_task("ghost").unwrap_err();
    assert_eq!(err.message(), "task ghost not found");
}

#[test]
fn batch_delete_reports_the_whole_task() {
    let mut store = TaskStore::new();
    let (r, e) = store.apply_operation(create_op("keep", "d"));
    assert_eq!(r.message, "created");
    assert_eq!(e.unwrap().event_type, EventType::Created);
    let (r, e) = store.apply_operation(delete_op("task-1"));
    assert!(r.success);
    assert_eq!(r.message, "deleted task-1");
    assert_eq!(r.task.unwrap().title, "keep");
    let e = e.unwrap();
    assert_eq!(e.event_type, EventType::Deleted);
    assert_eq!(e.task.unwrap().description, "d");
    assert!(store.list_tasks().is_empty());
}

#[test]
fn batch_failures() {
    let mut store = TaskStore::new();
    let (r, e) = store.apply_operation(delete_op("task-9"));
    assert!(!r.success);
    assert_eq!(r.message, "task task-9 not found");
    assert!(r.task.is_none());
    assert!(e.is_none());
    let (r, e) = store.apply_operation(TaskOperation { operation: None });
    assert!(!r.success);
    assert_eq!(r.message, "empty operation");
    assert!(e.is_none());
    let (r, e) = store.apply_operation(create_op("", "x"));
    assert_eq!(r.message, "title is required");
    assert!(e.is_none());
    assert_eq!(store.next_id(), 1);
}

#[test]
fn batch_and_unary_share_the_counter() {
    let mut store = TaskStore::new();
    store.apply_operation(create_op("a", ""));
    let (t, _) = store.create_task(create_req("b", "")).unwrap();
    assert_eq!(t.id, "task-2");
    let (r, _) = store.apply_operation(create_op("c", ""));
    assert_eq!(r.task.unwrap().id, "task-3");
}

#[test]
fn duplicate_copies_every_field() {
    let mut store = TaskStore::new();
    let (t, _) = store.create_task(create_req("a", "b")).unwrap();
    let d = t.duplicate();
    assert_eq!(d.id, t.id);
    assert_eq!(d.title, t.title);
    assert_eq!(d.description, t.description);
    assert_eq!(d.status, t.status);
}

#[test]
fn deleted_id_stays_absent_after_later_changes() {
    let mut store = TaskStore::new();
    let (a, _) = store.create_task(create_req("a", "")).unwrap();
    store.delete_task(&a.id).unwrap();
    store.create_task(create_req("b", "")).unwrap();
    store.apply_operation(create_op("c", ""));
    store.apply_operation(delete_op("task-2"));
    let err = store.delete_task(&a.id).unwrap_err();
    assert_eq!(err.code(), ErrorCode::NotFound);
    assert!(store.get_task(&a.id).is_err());
    assert_eq!(store.next_id(), 4);
}

#[test]
fn created_task_survives_other_changes() {
    let mut store = TaskStore::new();
    let (keep, _) = store.create_task(create_req("keep", "k")).unwrap();
    for i in 0..5 {
        let (t, _) = store.create_task(create_req(&format!("t{}", i), "")).unwrap();
        assert_ne!(t.id, keep.id);
        store.delete_task(&t.id).unwrap();
    }
    store.apply_operation(delete_op("task-99"));
    store.apply_operation(TaskOperation { operation: None });
    let got = store.get_task(&keep.id).unwrap();
    assert_eq!(got.title, "keep");
    assert_eq!(got.description, "k");
}

#[test]
fn batch_success_matches_task_and_event() {
    let mut store = TaskStore::new();
    for op in [create_op("a", ""), create_op("", ""), delete_op("task-1"), delete_op("task-1")] {
        let (r, e) = store.apply_operation(op);
        assert_eq!(r.success, r.task.is_some());
        assert_eq!(r.success, e.is_some());
    }
}
