//! The in-memory task store: the tasks under their ids, and the counter from
//! which new ids are made.
use std::collections::HashMap;
use vstd::prelude::*;
use vstd::std_specs::iter::IteratorSpec;
use vstd::string::StringExecFns;
use crate::task_id::{
    format_task_id, lemma_task_id_injective, parse_task_id, task_id,
};
use crate::types::{
    created_event, deleted_event, deleted_id_event, id_only_task, not_found_message,
    not_found_text, CreateTaskRequest, EventType, Operation, Task, TaskError, TaskEvent,
    TaskEventView, TaskOperation, TaskResult, TaskResultView, TaskStatus, TaskView,
};

verus! {

broadcast use vstd::std_specs::hash::group_hash_axioms;

/// The mathematical state of a store: each task under its id, and the counter
/// value that the next created task takes its id from.
#[verifier::ext_equal]
pub struct TaskStoreView {
    pub tasks: Map<Seq<char>, TaskView>,
    pub next_id: nat,
}

impl TaskStoreView {
    /// What every reachable state satisfies: each task is stored under its own
    /// id, and each id was made from a counter value below `next_id`.
    /// Every task also has a non-empty title and is pending.
    pub open spec fn valid(self) -> bool {
        &&& self.next_id >= 1
        &&& self.tasks.dom().finite()
        &&& forall|id: Seq<char>| #[trigger]
            self.tasks.contains_key(id) ==> {
                &&& self.tasks[id].id == id
                &&& self.tasks[id].title.len() > 0
                &&& self.tasks[id].status == TaskStatus::Pending
                &&& exists|n: nat| n < self.next_id && id == #[trigger] task_id(n)
            }
    }

    /// The state after one change: a create (refused when the title is
    /// empty), a delete (without effect when the id is not stored), or an
    /// operation that changes nothing.
    pub open spec fn step(self, op: StoreOp) -> TaskStoreView {
        match op {
            StoreOp::Create { title, description } => if title.len() == 0 {
                self
            } else {
                let t = new_task(self.next_id, title, description);
                TaskStoreView { tasks: self.tasks.insert(t.id, t), next_id: self.next_id + 1 }
            },
            StoreOp::Delete { id } => if self.tasks.contains_key(id) {
                TaskStoreView { tasks: self.tasks.remove(id), next_id: self.next_id }
            } else {
                self
            },
            StoreOp::Skip => self,
        }
    }
}

/// A change to a store, as the unary and batch calls make it.
pub enum StoreOp {
    Create { title: Seq<char>, description: Seq<char> },
    Delete { id: Seq<char> },
    Skip,
}

/// The change that a batch operation makes.
pub open spec fn op_of(op: TaskOperation) -> StoreOp {
    match op.operation {
        Some(Operation::Create(req)) => StoreOp::Create {
            title: req.title@,
            description: req.description@,
        },
        Some(Operation::Delete(req)) => StoreOp::Delete { id: req.id@ },
        None => StoreOp::Skip,
    }
}

/// The task that a successful create makes from counter value `n`.
pub open spec fn new_task(n: nat, title: Seq<char>, description: Seq<char>) -> TaskView {
    TaskView { id: task_id(n), title, description, status: TaskStatus::Pending }
}

/// The tasks of a map keyed by counter value, each under its id.
pub closed spec fn tasks_by_id(m: Map<u64, Task>) -> Map<Seq<char>, TaskView> {
    Map::new(
        |id: Seq<char>| exists|n: u64| #[trigger] m.contains_key(n) && task_id(n as nat) == id,
        |id: Seq<char>| m[choose|n: u64| #[trigger] m.contains_key(n) && task_id(n as nat) == id]@,
    )
}

/// How `tasks_by_id` sees the entry of counter value `n`.
proof fn lemma_by_id_at(m: Map<u64, Task>, n: u64)
    ensures
        m.contains_key(n) ==> tasks_by_id(m).contains_key(task_id(n as nat)) && tasks_by_id(
            m,
        )[task_id(n as nat)] == m[n]@,
        !m.contains_key(n) ==> !tasks_by_id(m).contains_key(task_id(n as nat)),
{
    let id = task_id(n as nat);
    if m.contains_key(n) {
        assert(m.contains_key(n) && task_id(n as nat) == id);
        let k = choose|k: u64| #[trigger] m.contains_key(k) && task_id(k as nat) == id;
        lemma_task_id_injective(k as nat, n as nat);
    } else if tasks_by_id(m).contains_key(id) {
        let k = choose|k: u64| #[trigger] m.contains_key(k) && task_id(k as nat) == id;
        lemma_task_id_injective(k as nat, n as nat);
    }
}

/// Every id that `tasks_by_id` holds is the id of a key of the map.
proof fn lemma_by_id_key(m: Map<u64, Task>, id: Seq<char>) -> (n: u64)
    requires
        tasks_by_id(m).contains_key(id),
    ensures
        m.contains_key(n),
        id == task_id(n as nat),
{
    choose|k: u64| #[trigger] m.contains_key(k) && task_id(k as nat) == id
}

proof fn lemma_by_id_insert(m: Map<u64, Task>, n: u64, t: Task)
    ensures
        tasks_by_id(m.insert(n, t)) == tasks_by_id(m).insert(task_id(n as nat), t@),
{
    let m2 = m.insert(n, t);
    let a = tasks_by_id(m2);
    let b = tasks_by_id(m).insert(task_id(n as nat), t@);
    assert forall|id: Seq<char>| a.contains_key(id) <==> b.contains_key(id) by {
        if a.contains_key(id) {
            let k = lemma_by_id_key(m2, id);
            if k != n {
                lemma_by_id_at(m, k);
            }
        }
        if b.contains_key(id) {
            if id == task_id(n as nat) {
                lemma_by_id_at(m2, n);
            } else {
                let k = lemma_by_id_key(m, id);
                lemma_by_id_at(m2, k);
            }
        }
    }
    assert forall|id: Seq<char>| a.contains_key(id) implies a[id] == b[id] by {
        let k = lemma_by_id_key(m2, id);
        lemma_by_id_at(m2, k);
        if k != n {
            lemma_task_id_injective(k as nat, n as nat);
            lemma_by_id_at(m, k);
        }
    }
    assert(a =~= b);
}

proof fn lemma_by_id_remove(m: Map<u64, Task>, n: u64)
    ensures
        tasks_by_id(m.remove(n)) == tasks_by_id(m).remove(task_id(n as nat)),
{
    let m2 = m.remove(n);
    let a = tasks_by_id(m2);
    let b = tasks_by_id(m).remove(task_id(n as nat));
    assert forall|id: Seq<char>| a.contains_key(id) <==> b.contains_key(id) by {
        if a.contains_key(id) {
            let k = lemma_by_id_key(m2, id);
            lemma_task_id_injective(k as nat, n as nat);
            lemma_by_id_at(m, k);
        }
        if b.contains_key(id) {
            let k = lemma_by_id_key(m, id);
            lemma_by_id_at(m2, k);
        }
    }
    assert forall|id: Seq<char>| a.contains_key(id) implies a[id] == b[id] by {
        let k = lemma_by_id_key(m2, id);
        lemma_by_id_at(m2, k);
        lemma_by_id_at(m, k);
    }
    assert(a =~= b);
}

proof fn lemma_by_id_len(m: Map<u64, Task>)
    requires
        m.dom().finite(),
    ensures
        tasks_by_id(m).dom().finite(),
        tasks_by_id(m).dom().len() == m.dom().len(),
{
    let f = |n: u64| task_id(n as nat);
    assert(tasks_by_id(m).dom() =~= m.dom().map(f)) by {
        assert forall|id: Seq<char>| #[trigger]
            tasks_by_id(m).dom().contains(id) implies m.dom().map(f).contains(id) by {
            let k = lemma_by_id_key(m, id);
            assert(f(k) == id);
        }
        assert forall|id: Seq<char>| #[trigger]
            m.dom().map(f).contains(id) implies tasks_by_id(m).dom().contains(id) by {
            let k = choose|k: u64| m.dom().contains(k) && f(k) == id;
            lemma_by_id_at(m, k);
        }
    }
    assert(vstd::relations::injective_on(f, m.dom())) by {
        assert forall|a: u64, b: u64|
            m.dom().contains(a) && m.dom().contains(b) && #[trigger] f(a) == #[trigger] f(b) implies a
            == b by {
            lemma_task_id_injective(a as nat, b as nat);
        }
    }
    vstd::set_lib::lemma_map_size(m.dom(), tasks_by_id(m).dom(), f);
}

/// The store of tasks: a hash map from counter values to tasks, and the
/// counter that names the next task.
pub struct TaskStore {
    tasks: HashMap<u64, Task>,
    next_id: u64,
}

impl View for TaskStore {
    type V = TaskStoreView;

    closed spec fn view(&self) -> TaskStoreView {
        TaskStoreView { tasks: tasks_by_id(self.tasks@), next_id: self.next_id as nat }
    }
}

impl TaskStore {
    /// The store's representation is consistent: each entry holds a pending
    /// task with a non-empty title whose id is made from its key, and every
    /// key is below the counter.
    #[verifier::type_invariant]
    spec fn inv(self) -> bool {
        &&& self.next_id >= 1
        &&& forall|n: u64| #[trigger]
            self.tasks@.contains_key(n) ==> {
                &&& n < self.next_id
                &&& self.tasks@[n].id@ == task_id(n as nat)
                &&& self.tasks@[n].title@.len() > 0
                &&& self.tasks@[n].status == TaskStatus::Pending
            }
    }

    /// A consistent store has a valid view.
    proof fn lemma_inv_valid(self)
        requires
            self.inv(),
        ensures
            self@.valid(),
    {
        let m = self.tasks@;
        lemma_by_id_len(m);
        assert forall|id: Seq<char>| #[trigger] self@.tasks.contains_key(id) implies {
            &&& self@.tasks[id].id == id
            &&& self@.tasks[id].title.len() > 0
            &&& self@.tasks[id].status == TaskStatus::Pending
            &&& exists|n: nat| n < self@.next_id && id == #[trigger] task_id(n)
        } by {
            let k = lemma_by_id_key(m, id);
            lemma_by_id_at(m, k);
            assert(k < self.next_id && id == task_id(k as nat));
        }
    }

    /// An empty store whose first task will be `task-1`.
    pub fn new() -> (s: TaskStore)
        ensures
            s@.valid(),
            s@.tasks == Map::<Seq<char>, TaskView>::empty(),
            s@.next_id == 1,
    {
        let s = TaskStore { tasks: HashMap::new(), next_id: 1 };
        assert(tasks_by_id(s.tasks@) =~= Map::<Seq<char>, TaskView>::empty());
        proof {
            s.lemma_inv_valid();
        }
        s
    }

    /// The counter value that the next created task takes its id from.
    pub fn next_id(&self) -> (n: u64)
        ensures
            n == self@.next_id,
            self@.valid(),
    {
        proof {
            use_type_invariant(self);
            self.lemma_inv_valid();
        }
        self.next_id
    }

    /// Creates a task from `req`, or refuses an empty title. A created task is
    /// pending, takes its id from the counter, and is announced by a `Created`
    /// event.
    pub fn create_task(&mut self, req: CreateTaskRequest) -> (r: Result<(Task, TaskEvent), TaskError>)
        requires
            req.title@.len() > 0 ==> old(self)@.next_id < u64::MAX,
        ensures
            final(self)@.valid(),
            final(self)@ == old(self)@.step(
                StoreOp::Create { title: req.title@, description: req.description@ },
            ),
            r is Ok <==> req.title@.len() > 0,
            match r {
                Ok((task, event)) => {
                    &&& task@ == new_task(old(self)@.next_id, req.title@, req.description@)
                    &&& task@.id == task_id(old(self)@.next_id)
                    &&& task@.title == req.title@
                    &&& task@.description == req.description@
                    &&& task@.status == TaskStatus::Pending
                    &&& final(self)@.tasks.contains_key(task@.id)
                    &&& final(self)@.tasks[task@.id].title == req.title@
                    &&& final(self)@.tasks[task@.id].description == req.description@
                    &&& event@ == (TaskEventView {
                        event_type: EventType::Created,
                        task: Some(task@),
                    })
                    &&& final(self)@.tasks == old(self)@.tasks.insert(task@.id, task@)
                    &&& final(self)@.next_id == old(self)@.next_id + 1
                },
                Err(e) => e is EmptyTitle && final(self)@ == old(self)@,
            },
    {
        proof {
            use_type_invariant(&*self);
            self.lemma_inv_valid();
        }
        if req.title.as_str().is_empty() {
            return Err(TaskError::EmptyTitle);
        }
        let task = self.insert_new(req.title, req.description);
        let event = created_event(&task);
        Ok((task, event))
    }

    /// Makes a pending task with the next id and stores it.
    fn insert_new(&mut self, title: String, description: String) -> (task: Task)
        requires
            old(self)@.next_id < u64::MAX,
            title@.len() > 0,
        ensures
            final(self)@.valid(),
            task@ == new_task(old(self)@.next_id, title@, description@),
            task@.id == task_id(old(self)@.next_id),
            task@.title == title@,
            task@.description == description@,
            task@.status == TaskStatus::Pending,
            final(self)@.tasks == old(self)@.tasks.insert(task@.id, task@),
            final(self)@.next_id == old(self)@.next_id + 1,
    {
        proof {
            use_type_invariant(&*self);
        }
        let n = self.next_id;
        let id = format_task_id(n);
        let task = Task { id, title, description, status: TaskStatus::Pending };
        let mut tasks: HashMap<u64, Task> = HashMap::new();
        std::mem::swap(&mut tasks, &mut self.tasks);
        let ghost old_map = tasks@;
        tasks.insert(n, task.duplicate());
        self.next_id = n + 1;
        self.tasks = tasks;
        proof {
            lemma_by_id_insert(old_map, n, task);
            use_type_invariant(&*self);
            self.lemma_inv_valid();
        }
        task
    }

    /// The task stored under `id`, or `NotFound`.
    pub fn get_task(&self, id: &str) -> (r: Result<Task, TaskError>)
        ensures
            self@.valid(),
            r is Ok <==> self@.tasks.contains_key(id@),
            match r {
                Ok(task) => task@ == self@.tasks[id@],
                Err(e) => e matches TaskError::NotFound { id: missing } && missing@ == id@,
            },
    {
        proof {
            use_type_invariant(self);
            self.lemma_inv_valid();
        }
        match self.key_of(id) {
            Some(n) => {
                let found = self.tasks.get(&n);
                match found {
                    Some(task) => Ok(task.duplicate()),
                    None => Err(TaskError::NotFound { id: String::from_str(id) }),
                }
            },
            None => Err(TaskError::NotFound { id: String::from_str(id) }),
        }
    }

    /// The key under which `id` would be stored, where that key is present.
    fn key_of(&self, id: &str) -> (r: Option<u64>)
        ensures
            match r {
                Some(n) => id@ == task_id(n as nat) && self@.tasks.contains_key(id@)
                    && self.tasks@.contains_key(n) && self@.tasks[id@] == self.tasks@[n]@,
                None => !self@.tasks.contains_key(id@),
            },
    {
        proof {
            use_type_invariant(self);
        }
        let parsed = parse_task_id(id);
        match parsed {
            Some(n) => {
                proof {
                    lemma_by_id_at(self.tasks@, n);
                }
                if self.tasks.contains_key(&n) {
                    Some(n)
                } else {
                    None
                }
            },
            None => {
                proof {
                    if self@.tasks.contains_key(id@) {
                        let k = lemma_by_id_key(self.tasks@, id@);
                        assert(id@ == task_id(k as nat));
                    }
                }
                None
            },
        }
    }

    /// Every stored task, each once, in the order the hash map yields them.
    pub fn list_tasks(&self) -> (r: Vec<Task>)
        ensures
            self@.valid(),
            r@.len() == self@.tasks.len(),
            forall|i: int|
                0 <= i < r@.len() ==> self@.tasks.contains_key(#[trigger] r@[i]@.id)
                    && self@.tasks[r@[i]@.id] == r@[i]@,
            forall|i: int, j: int|
                0 <= i < j < r@.len() ==> (#[trigger] r@[i])@.id != (#[trigger] r@[j])@.id,
            forall|id: Seq<char>| #[trigger]
                self@.tasks.contains_key(id) ==> exists|i: int|
                    0 <= i < r@.len() && (#[trigger] r@[i])@.id == id,
    {
        proof {
            use_type_invariant(self);
            self.lemma_inv_valid();
        }
        let ghost m = self.tasks@;
        let mut out: Vec<Task> = Vec::new();
        for entry in it: self.tasks.iter()
            invariant
                m == self.tasks@,
                it.seq() == vstd::std_specs::hash::spec_hash_map_iter(&self.tasks).remaining(),
                out@.len() == it.index(),
                forall|i: int| 0 <= i < out@.len() ==> out@[i] == *it.seq()[i].1,
        {
            out.push(entry.1.duplicate());
        }
        proof {
            use_type_invariant(self);
            let v = vstd::std_specs::hash::spec_hash_map_iter(&self.tasks).remaining();
            lemma_by_id_len(m);
            assert forall|i: int| 0 <= i < out@.len() implies self@.tasks.contains_key(
                #[trigger] out@[i]@.id,
            ) && self@.tasks[out@[i]@.id] == out@[i]@ by {
                let k = *v[i].0;
                assert(m.contains_key(k) && m[k] == *v[i].1);
                lemma_by_id_at(m, k);
            }
            assert forall|i: int, j: int|
                0 <= i < j < out@.len() implies (#[trigger] out@[i])@.id != (#[trigger] out@[j])@.id by {
                let ki = *v[i].0;
                let kj = *v[j].0;
                assert(m.contains_key(ki) && m[ki] == *v[i].1);
                assert(m.contains_key(kj) && m[kj] == *v[j].1);
                lemma_task_id_injective(ki as nat, kj as nat);
                if ki == kj {
                    assert(v[i] == v[j]);
                }
            }
            assert forall|id: Seq<char>| #[trigger] self@.tasks.contains_key(id) implies exists|i: int|
                0 <= i < out@.len() && (#[trigger] out@[i])@.id == id by {
                let k = lemma_by_id_key(m, id);
                assert(v.contains((&k, &m[k])));
                let i = choose|i: int| 0 <= i < v.len() && v[i] == (&k, &m[k]);
                assert(out@[i] == m[k]);
            }
        }
        out
    }

    /// Deletes the task stored under `id`, or answers `NotFound`. A deletion is
    /// announced by a `Deleted` event that carries the id alone.
    pub fn delete_task(&mut self, id: &str) -> (r: Result<TaskEvent, TaskError>)
        ensures
            final(self)@.valid(),
            final(self)@ == old(self)@.step(StoreOp::Delete { id: id@ }),
            r is Ok <==> old(self)@.tasks.contains_key(id@),
            match r {
                Ok(event) => {
                    &&& event@ == (TaskEventView {
                        event_type: EventType::Deleted,
                        task: Some(id_only_task(id@)),
                    })
                    &&& event.event_type == EventType::Deleted
                    &&& event.task matches Some(t) && t@.id == id@ && t@.title.len() == 0
                        && t@.description.len() == 0 && t@.status == TaskStatus::Pending
                    &&& final(self)@.tasks == old(self)@.tasks.remove(id@)
                    &&& final(self)@.next_id == old(self)@.next_id
                },
                Err(e) => {
                    &&& e matches TaskError::NotFound { id: missing } && missing@ == id@
                    &&& final(self)@ == old(self)@
                },
            },
    {
        match self.remove_entry(id) {
            Some(_) => Ok(deleted_id_event(id)),
            None => Err(TaskError::NotFound { id: String::from_str(id) }),
        }
    }

    /// Carries out one operation of a batch. Unlike the single requests, a
    /// batch answers every operation with a result rather than an error; a
    /// deletion's event carries the whole deleted task.
    pub fn apply_operation(&mut self, op: TaskOperation) -> (r: (TaskResult, Option<TaskEvent>))
        requires
            op.operation matches Some(Operation::Create(req)) && req.title@.len() > 0
                ==> old(self)@.next_id < u64::MAX,
        ensures
            final(self)@.valid(),
            final(self)@ == old(self)@.step(op_of(op)),
            r.0.success <==> r.0.task is Some,
            r.0.success <==> r.1 is Some,
            !r.0.success ==> final(self)@ == old(self)@,
            match op.operation {
                None => {
                    &&& r.0@ == (TaskResultView {
                        success: false,
                        message: "empty operation"@,
                        task: None,
                    })
                    &&& r.1 is None
                    &&& final(self)@ == old(self)@
                },
                Some(Operation::Create(req)) => if req.title@.len() == 0 {
                    &&& r.0@ == (TaskResultView {
                        success: false,
                        message: "title is required"@,
                        task: None,
                    })
                    &&& r.1 is None
                    &&& final(self)@ == old(self)@
                } else {
                    let task = new_task(old(self)@.next_id, req.title@, req.description@);
                    &&& r.0@ == (TaskResultView {
                        success: true,
                        message: "created"@,
                        task: Some(task),
                    })
                    &&& r.1 matches Some(e) && e@ == (TaskEventView {
                        event_type: EventType::Created,
                        task: Some(task),
                    })
                    &&& final(self)@.tasks == old(self)@.tasks.insert(task.id, task)
                    &&& final(self)@.next_id == old(self)@.next_id + 1
                    &&& r.0.task matches Some(t) && t@.id == task_id(old(self)@.next_id)
                        && t@.title == req.title@ && t@.description == req.description@
                        && t@.status == TaskStatus::Pending
                    &&& final(self)@.tasks.contains_key(task_id(old(self)@.next_id))
                    &&& final(self)@.tasks[task_id(old(self)@.next_id)].title == req.title@
                    &&& final(self)@.tasks[task_id(old(self)@.next_id)].description
                        == req.description@
                },
                Some(Operation::Delete(req)) => if old(self)@.tasks.contains_key(req.id@) {
                    let task = old(self)@.tasks[req.id@];
                    &&& r.0@ == (TaskResultView {
                        success: true,
                        message: "deleted "@ + req.id@,
                        task: Some(task),
                    })
                    &&& r.1 matches Some(e) && e@ == (TaskEventView {
                        event_type: EventType::Deleted,
                        task: Some(task),
                    })
                    &&& final(self)@.tasks == old(self)@.tasks.remove(req.id@)
                    &&& final(self)@.next_id == old(self)@.next_id
                } else {
                    &&& r.0@ == (TaskResultView {
                        success: false,
                        message: not_found_message(req.id@),
                        task: None,
                    })
                    &&& r.1 is None
                    &&& final(self)@ == old(self)@
                },
            },
    {
        proof {
            use_type_invariant(&*self);
            self.lemma_inv_valid();
        }
        match op.operation {
            None => (
                TaskResult {
                    success: false,
                    message: String::from_str("empty operation"),
                    task: None,
                },
                None,
            ),
            Some(Operation::Create(req)) => {
                if req.title.as_str().is_empty() {
                    (
                        TaskResult {
                            success: false,
                            message: String::from_str("title is required"),
                            task: None,
                        },
                        None,
                    )
                } else {
                    let task = self.insert_new(req.title, req.description);
                    let event = created_event(&task);
                    (
                        TaskResult {
                            success: true,
                            message: String::from_str("created"),
                            task: Some(task),
                        },
                        Some(event),
                    )
                }
            },
            Some(Operation::Delete(req)) => {
                match self.remove_entry(req.id.as_str()) {
                    Some(task) => {
                        let event = deleted_event(task.duplicate());
                        let mut message = String::from_str("deleted ");
                        message.append(req.id.as_str());
                        (TaskResult { success: true, message, task: Some(task) }, Some(event))
                    },
                    None => (
                        TaskResult {
                            success: false,
                            message: not_found_text(req.id.as_str()),
                            task: None,
                        },
                        None,
                    ),
                }
            },
        }
    }

    /// Removes and returns the task stored under `id`, if there is one.
    fn remove_entry(&mut self, id: &str) -> (r: Option<Task>)
        ensures
            final(self)@.valid(),
            r is Some <==> old(self)@.tasks.contains_key(id@),
            final(self)@.next_id == old(self)@.next_id,
            match r {
                Some(task) => {
                    &&& task@ == old(self)@.tasks[id@]
                    &&& final(self)@.tasks == old(self)@.tasks.remove(id@)
                },
                None => final(self)@ == old(self)@,
            },
    {
        proof {
            use_type_invariant(&*self);
            self.lemma_inv_valid();
        }
        match self.key_of(id) {
            Some(n) => {
                let mut tasks: HashMap<u64, Task> = HashMap::new();
                std::mem::swap(&mut tasks, &mut self.tasks);
                let ghost old_map = tasks@;
                let removed = tasks.remove(&n);
                self.tasks = tasks;
                proof {
                    lemma_by_id_remove(old_map, n);
                    use_type_invariant(&*self);
                    self.lemma_inv_valid();
                }
                removed
            },
            None => None,
        }
    }
}

} // verus!
