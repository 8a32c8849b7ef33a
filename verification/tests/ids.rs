use grpc_service::cli::{event_label, role_from_arg, Role};
use grpc_service::task_id::{format_task_id, parse_task_id};
use grpc_service::types::{not_found_text, EventType, TaskStatus};

#[test]
fn format_ids() {
    assert_eq!(format_task_id(0), "task-0");
    assert_eq!(format_task_id(7), "task-7");
    assert_eq!(format_task_id(10), "task-10");
    assert_eq!(format_task_id(1234567890), "task-1234567890");
    assert_eq!(format_task_id(u64::MAX), "task-18446744073709551615");
}

#[test]
fn parse_ids() {
    assert_eq!(parse_task_id("task-0"), Some(0));
    assert_eq!(parse_task_id("task-42"), Some(42));
    assert_eq!(parse_task_id("task-18446744073709551615"), Some(u64::MAX));
    assert_eq!(parse_task_id("task-18446744073709551616"), None);
    assert_eq!(parse_task_id("task-99999999999999999999"), None);
    assert_eq!(parse_task_id("task-00"), None);
    assert_eq!(parse_task_id("task-07"), None);
    assert_eq!(parse_task_id("task-"), None);
    assert_eq!(parse_task_id("task-4a"), None);
    assert_eq!(parse_task_id("tusk-4"), None);
    assert_eq!(parse_task_id("task-٤"), None);
    assert_eq!(parse_task_id(""), None);
}

#[test]
fn parse_inverts_format() {
    for n in [0u64, 1, 9, 10, 99, 100, 65535, u64::MAX - 1, u64::MAX] {
        assert_eq!(parse_task_id(&format_task_id(n)), Some(n));
    }
}

#[test]
fn wire_codes() {
    assert_eq!(TaskStatus::Pending.code(), 0);
    assert_eq!(TaskStatus::InProgress.code(), 1);
    assert_eq!(TaskStatus::Completed.code(), 2);
    assert_eq!(TaskStatus::from_code(2), Some(TaskStatus::Completed));
    assert_eq!(TaskStatus::from_code(3), None);
    assert_eq!(EventType::Created.code(), 0);
    assert_eq!(EventType::Deleted.code(), 1);
    assert_eq!(EventType::from_code(1), Some(EventType::Deleted));
    assert_eq!(EventType::from_code(-1), None);
}

#[test]
fn roles() {
    assert_eq!(role_from_arg(None), Role::Server);
    assert_eq!(role_from_arg(Some("server")), Role::Server);
    assert_eq!(role_from_arg(Some("client")), Role::Client);
    assert_eq!(role_from_arg(Some("Client")), Role::Unknown);
    assert_eq!(role_from_arg(Some("")), Role::Unknown);
}

#[test]
fn event_labels() {
    assert_eq!(event_label(0), "Created");
    assert_eq!(event_label(1), "Deleted");
    assert_eq!(event_label(5), "Deleted");
}

#[test]
fn not_found_messages() {
    assert_eq!(not_found_text("x"), "task x not found");
    assert_eq!(not_found_text(""), "task  not found");
}
