//! The messages of the task service and their mathematical views.
use vstd::prelude::*;
use vstd::string::StringExecFns;

verus! {

/// Lifecycle state of a task.
#[derive(Clone, Copy, Debug, PartialEq, Eq, Structural)]
pub enum TaskStatus {
    Pending,
    InProgress,
    Completed,
}

impl TaskStatus {
    /// The number that stands for the status on the wire.
    pub fn code(&self) -> (r: i32)
        ensures
            r == match *self {
                TaskStatus::Pending => 0i32,
                TaskStatus::InProgress => 1i32,
                TaskStatus::Completed => 2i32,
            },
    {
        match self {
            TaskStatus::Pending => 0,
            TaskStatus::InProgress => 1,
            TaskStatus::Completed => 2,
        }
    }

    /// The status that a wire number stands for, if any.
    pub fn from_code(code: i32) -> (r: Option<TaskStatus>)
        ensures
            r == (if code == 0 {
                Some(TaskStatus::Pending)
            } else if code == 1 {
                Some(TaskStatus::InProgress)
            } else if code == 2 {
                Some(TaskStatus::Completed)
            } else {
                None
            }),
    {
        if code == 0 {
            Some(TaskStatus::Pending)
        } else if code == 1 {
            Some(TaskStatus::InProgress)
        } else if code == 2 {
            Some(TaskStatus::Completed)
        } else {
            None
        }
    }
}

/// What happened to a task, as told to watchers.
#[derive(Clone, Copy, Debug, PartialEq, Eq, Structural)]
pub enum EventType {
    Created,
    Deleted,
}

impl EventType {
    /// The number that stands for the event type on the wire.
    pub fn code(&self) -> (r: i32)
        ensures
            r == match *self {
                EventType::Created => 0i32,
                EventType::Deleted => 1i32,
            },
    {
        match self {
            EventType::Created => 0,
            EventType::Deleted => 1,
        }
    }

    /// The event type that a wire number stands for, if any.
    pub fn from_code(code: i32) -> (r: Option<EventType>)
        ensures
            r == (if code == 0 {
                Some(EventType::Created)
            } else if code == 1 {
                Some(EventType::Deleted)
            } else {
                None
            }),
    {
        if code == 0 {
            Some(EventType::Created)
        } else if code == 1 {
            Some(EventType::Deleted)
        } else {
            None
        }
    }
}

/// A task as the service stores and returns it.
#[derive(Debug)]
pub struct Task {
    pub id: String,
    pub title: String,
    pub description: String,
    pub status: TaskStatus,
}

/// The mathematical value of a task.
pub struct TaskView {
    pub id: Seq<char>,
    pub title: Seq<char>,
    pub description: Seq<char>,
    pub status: TaskStatus,
}

impl View for Task {
    type V = TaskView;

    open spec fn view(&self) -> TaskView {
        TaskView {
            id: self.id@,
            title: self.title@,
            description: self.description@,
            status: self.status,
        }
    }
}

impl Task {
    /// A copy of the task, field for field.
    pub fn duplicate(&self) -> (r: Task)
        ensures
            r == *self,
            r@ == self@,
    {
        Task {
            id: self.id.clone(),
            title: self.title.clone(),
            description: self.description.clone(),
            status: self.status,
        }
    }
}

/// The view of an optional task.
pub open spec fn opt_task_view(t: Option<Task>) -> Option<TaskView> {
    match t {
        Some(t) => Some(t@),
        None => None,
    }
}

/// A change to the store, as sent to watchers.
#[derive(Debug)]
pub struct TaskEvent {
    pub event_type: EventType,
    pub task: Option<Task>,
}

/// The mathematical value of an event.
pub struct TaskEventView {
    pub event_type: EventType,
    pub task: Option<TaskView>,
}

impl View for TaskEvent {
    type V = TaskEventView;

    open spec fn view(&self) -> TaskEventView {
        TaskEventView { event_type: self.event_type, task: opt_task_view(self.task) }
    }
}

/// The task that a deletion by id reports: the id, and every other field empty.
pub open spec fn id_only_task(id: Seq<char>) -> TaskView {
    TaskView {
        id,
        title: Seq::empty(),
        description: Seq::empty(),
        status: TaskStatus::Pending,
    }
}

/// The task reported for a deletion by id keeps the id exactly as given and
/// leaves every other field empty or at its default.
pub proof fn law_id_only_task_keeps_id(id: Seq<char>)
    ensures
        id_only_task(id).id == id,
        id_only_task(id).title.len() == 0,
        id_only_task(id).description.len() == 0,
        id_only_task(id).status == TaskStatus::Pending,
{
}

/// The event that tells watchers of a created task.
pub fn created_event(task: &Task) -> (e: TaskEvent)
    ensures
        e@ == (TaskEventView { event_type: EventType::Created, task: Some(task@) }),
{
    TaskEvent { event_type: EventType::Created, task: Some(task.duplicate()) }
}

/// The event that tells watchers of a deleted task.
pub fn deleted_event(task: Task) -> (e: TaskEvent)
    ensures
        e@ == (TaskEventView { event_type: EventType::Deleted, task: Some(task@) }),
{
    TaskEvent { event_type: EventType::Deleted, task: Some(task) }
}

/// The event that tells watchers of a deletion known only by the task's id.
pub fn deleted_id_event(id: &str) -> (e: TaskEvent)
    ensures
        e@ == (TaskEventView { event_type: EventType::Deleted, task: Some(id_only_task(id@)) }),
        e.event_type == EventType::Deleted,
        e.task matches Some(t) && t@.id == id@ && t@.title.len() == 0 && t@.description.len()
            == 0 && t@.status == TaskStatus::Pending,
{
    let task = Task {
        id: String::from_str(id),
        title: String::new(),
        description: String::new(),
        status: TaskStatus::Pending,
    };
    deleted_event(task)
}

/// A request to create a task.
#[derive(Debug)]
pub struct CreateTaskRequest {
    pub title: String,
    pub description: String,
}

/// A request to delete a task.
#[derive(Debug)]
pub struct DeleteTaskRequest {
    pub id: String,
}

/// One operation of a batch.
#[derive(Debug)]
pub enum Operation {
    Create(CreateTaskRequest),
    Delete(DeleteTaskRequest),
}

/// One message of a batch: an operation, or nothing.
#[derive(Debug)]
pub struct TaskOperation {
    pub operation: Option<Operation>,
}

/// What a batch answers for one operation.
#[derive(Debug)]
pub struct TaskResult {
    pub success: bool,
    pub message: String,
    pub task: Option<Task>,
}

/// The mathematical value of a batch result.
pub struct TaskResultView {
    pub success: bool,
    pub message: Seq<char>,
    pub task: Option<TaskView>,
}

impl View for TaskResult {
    type V = TaskResultView;

    open spec fn view(&self) -> TaskResultView {
        TaskResultView { success: self.success, message: self.message@, task: opt_task_view(self.task) }
    }
}

/// The class of a refused request, as a gRPC status code.
#[derive(Clone, Copy, Debug, PartialEq, Eq, Structural)]
pub enum ErrorCode {
    InvalidArgument,
    NotFound,
}

/// Why a request was refused.
#[derive(Debug)]
pub enum TaskError {
    /// A task was to be created with an empty title.
    EmptyTitle,
    /// No task has the requested id.
    NotFound { id: String },
}

/// The message of a refusal for an unknown id.
pub open spec fn not_found_message(id: Seq<char>) -> Seq<char> {
    "task "@ + id + " not found"@
}

impl TaskError {
    /// The status code that the refusal is answered with.
    pub fn code(&self) -> (r: ErrorCode)
        ensures
            r == match *self {
                TaskError::EmptyTitle => ErrorCode::InvalidArgument,
                TaskError::NotFound { .. } => ErrorCode::NotFound,
            },
    {
        match self {
            TaskError::EmptyTitle => ErrorCode::InvalidArgument,
            TaskError::NotFound { .. } => ErrorCode::NotFound,
        }
    }

    /// The message that the refusal is answered with.
    pub fn message(&self) -> (r: String)
        ensures
            r@ == match *self {
                TaskError::EmptyTitle => "Title cannot be empty"@,
                TaskError::NotFound { id } => not_found_message(id@),
            },
    {
        match self {
            TaskError::EmptyTitle => String::from_str("Title cannot be empty"),
            TaskError::NotFound { id } => not_found_text(id.as_str()),
        }
    }
}

/// `task <id> not found`.
pub fn not_found_text(id: &str) -> (r: String)
    ensures
        r@ == not_found_message(id@),
{
    let mut s = String::from_str("task ");
    s.append(id);
    s.append(" not found");
    s
}

} // verus!
