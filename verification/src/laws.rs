//! What holds of the store across operations.
use vstd::prelude::*;
use crate::store::{new_task, StoreOp, TaskStoreView};
use crate::task_id::{lemma_parsed_id_of_task_id, lemma_task_id_injective, parsed_id, task_id};
use crate::types::{TaskStatus, TaskView};

verus! {

/// A created task keeps the requested title and description exactly, is
/// pending, and takes the id of the counter value it was made from.
pub proof fn law_new_task_fields(n: nat, title: Seq<char>, description: Seq<char>)
    ensures
        new_task(n, title, description).id == task_id(n),
        new_task(n, title, description).title == title,
        new_task(n, title, description).description == description,
        new_task(n, title, description).status == TaskStatus::Pending,
{
}

/// The id that the next create gives out is held by no stored task, and differs
/// from the id of every task created before, deleted or not.
pub proof fn law_next_id_is_fresh(s: TaskStoreView)
    requires
        s.valid(),
    ensures
        !s.tasks.contains_key(task_id(s.next_id)),
        forall|n: nat| n < s.next_id ==> #[trigger] task_id(n) != task_id(s.next_id),
{
    if s.tasks.contains_key(task_id(s.next_id)) {
        let id = task_id(s.next_id);
        let n = choose|n: nat| n < s.next_id && id == #[trigger] task_id(n);
        lemma_task_id_injective(n, s.next_id);
    }
    assert forall|n: nat| n < s.next_id implies #[trigger] task_id(n) != task_id(s.next_id) by {
        lemma_task_id_injective(n, s.next_id);
    }
}

/// A create keeps the state valid, adds exactly one task, and a get of the new
/// id then finds the created task; every other task is untouched.
pub proof fn law_create_then_get(s: TaskStoreView, title: Seq<char>, description: Seq<char>)
    requires
        s.valid(),
        title.len() > 0,
    ensures
        ({
            let t = new_task(s.next_id, title, description);
            let after = TaskStoreView { tasks: s.tasks.insert(t.id, t), next_id: s.next_id + 1 };
            &&& after.valid()
            &&& after.tasks.contains_key(t.id)
            &&& after.tasks[t.id] == t
            &&& after.tasks.len() == s.tasks.len() + 1
            &&& forall|id: Seq<char>|
                id != t.id ==> (#[trigger] after.tasks.contains_key(id) == s.tasks.contains_key(id)
                    && (s.tasks.contains_key(id) ==> after.tasks[id] == s.tasks[id]))
        }),
{
    let t = new_task(s.next_id, title, description);
    let after = TaskStoreView { tasks: s.tasks.insert(t.id, t), next_id: s.next_id + 1 };
    law_next_id_is_fresh(s);
    assert forall|id: Seq<char>| #[trigger] after.tasks.contains_key(id) implies {
        &&& after.tasks[id].id == id
        &&& exists|n: nat| n < after.next_id && id == #[trigger] task_id(n)
    } by {
        if id == t.id {
            assert(s.next_id < after.next_id && id == task_id(s.next_id));
        } else {
            let n = choose|n: nat| n < s.next_id && id == #[trigger] task_id(n);
            assert(n < after.next_id && id == task_id(n));
        }
    }
}

/// A delete of a stored id keeps the state valid and removes exactly that
/// task: a get of the id then answers that it is not found.
pub proof fn law_delete_then_get(s: TaskStoreView, id: Seq<char>)
    requires
        s.valid(),
        s.tasks.contains_key(id),
    ensures
        ({
            let after = TaskStoreView { tasks: s.tasks.remove(id), next_id: s.next_id };
            &&& after.valid()
            &&& !after.tasks.contains_key(id)
            &&& after.tasks.len() == s.tasks.len() - 1
            &&& forall|other: Seq<char>|
                other != id ==> (#[trigger] after.tasks.contains_key(other)
                    == s.tasks.contains_key(other) && (s.tasks.contains_key(other)
                    ==> after.tasks[other] == s.tasks[other]))
        }),
{
    let after = TaskStoreView { tasks: s.tasks.remove(id), next_id: s.next_id };
    assert forall|other: Seq<char>| #[trigger] after.tasks.contains_key(other) implies {
        &&& after.tasks[other].id == other
        &&& exists|n: nat| n < after.next_id && other == #[trigger] task_id(n)
    } by {
        let n = choose|n: nat| n < s.next_id && other == #[trigger] task_id(n);
        assert(n < after.next_id && other == task_id(n));
    }
}

/// Two creates in a row give distinct ids, and both tasks are then stored.
pub proof fn law_two_creates_distinct(
    s: TaskStoreView,
    title1: Seq<char>,
    description1: Seq<char>,
    title2: Seq<char>,
    description2: Seq<char>,
)
    requires
        s.valid(),
        title1.len() > 0,
        title2.len() > 0,
    ensures
        ({
            let t1 = new_task(s.next_id, title1, description1);
            let mid = TaskStoreView { tasks: s.tasks.insert(t1.id, t1), next_id: s.next_id + 1 };
            let t2 = new_task(mid.next_id, title2, description2);
            let after = TaskStoreView {
                tasks: mid.tasks.insert(t2.id, t2),
                next_id: mid.next_id + 1,
            };
            &&& t1.id != t2.id
            &&& after.valid()
            &&& after.tasks[t1.id] == t1
            &&& after.tasks[t2.id] == t2
            &&& after.tasks.len() == s.tasks.len() + 2
        }),
{
    let t1 = new_task(s.next_id, title1, description1);
    let mid = TaskStoreView { tasks: s.tasks.insert(t1.id, t1), next_id: s.next_id + 1 };
    law_create_then_get(s, title1, description1);
    law_create_then_get(mid, title2, description2);
    lemma_task_id_injective(s.next_id, mid.next_id);
}

/// Reading back the id of counter value `n` gives `n`: ids identify tasks.
pub proof fn law_id_round_trip(n: u64)
    ensures
        parsed_id(task_id(n as nat)) == Some(n),
{
    lemma_parsed_id_of_task_id(n);
}

/// The state after a sequence of changes, applied in order.
pub open spec fn run(s: TaskStoreView, ops: Seq<StoreOp>) -> TaskStoreView
    decreases ops.len(),
{
    if ops.len() == 0 {
        s
    } else {
        run(s, ops.drop_last()).step(ops.last())
    }
}

/// The change creates a task: a create with a non-empty title.
pub open spec fn creates(op: StoreOp) -> bool {
    op matches StoreOp::Create { title, .. } && title.len() > 0
}

/// The change is a delete of `id`.
pub open spec fn deletes(op: StoreOp, id: Seq<char>) -> bool {
    op matches StoreOp::Delete { id: d } && d == id
}

/// One change keeps the state valid; only a create moves the counter, by one.
pub proof fn law_step_valid(s: TaskStoreView, op: StoreOp)
    requires
        s.valid(),
    ensures
        s.step(op).valid(),
        creates(op) ==> s.step(op).next_id == s.next_id + 1,
        !creates(op) ==> s.step(op).next_id == s.next_id,
{
    match op {
        StoreOp::Create { title, description } => {
            if title.len() > 0 {
                law_create_then_get(s, title, description);
            }
        },
        StoreOp::Delete { id } => {
            if s.tasks.contains_key(id) {
                law_delete_then_get(s, id);
            }
        },
        StoreOp::Skip => {},
    }
}

/// Any sequence of changes keeps the state valid and never moves the counter back.
pub proof fn law_run_valid(s: TaskStoreView, ops: Seq<StoreOp>)
    requires
        s.valid(),
    ensures
        run(s, ops).valid(),
        run(s, ops).next_id >= s.next_id,
    decreases ops.len(),
{
    if ops.len() > 0 {
        law_run_valid(s, ops.drop_last());
        law_step_valid(run(s, ops.drop_last()), ops.last());
    }
}

proof fn lemma_run_take(s: TaskStoreView, ops: Seq<StoreOp>, i: int)
    requires
        0 <= i < ops.len(),
    ensures
        run(s, ops.take(i + 1)) == run(s, ops.take(i)).step(ops[i]),
{
    assert(ops.take(i + 1).drop_last() =~= ops.take(i));
}

proof fn lemma_run_take_monotone(s: TaskStoreView, ops: Seq<StoreOp>, i: int, j: int)
    requires
        s.valid(),
        0 <= i <= j <= ops.len(),
    ensures
        run(s, ops.take(i)).next_id <= run(s, ops.take(j)).next_id,
    decreases j - i,
{
    if i < j {
        lemma_run_take_monotone(s, ops, i, j - 1);
        lemma_run_take(s, ops, j - 1);
        law_run_valid(s, ops.take(j - 1));
        law_step_valid(run(s, ops.take(j - 1)), ops[j - 1]);
    }
}

/// The id that the create at position `i` of a sequence gives out.
pub open spec fn id_created_at(s: TaskStoreView, ops: Seq<StoreOp>, i: int) -> Seq<char> {
    task_id(run(s, ops.take(i)).next_id)
}

/// Over any sequence of changes, every create gives out an id that no task
/// held before it, stores its new task under that id, and no two creates give
/// out the same id.
pub proof fn law_created_ids_distinct(s: TaskStoreView, ops: Seq<StoreOp>, i: int, j: int)
    requires
        s.valid(),
        0 <= i < j < ops.len(),
        creates(ops[i]),
        creates(ops[j]),
    ensures
        id_created_at(s, ops, i) != id_created_at(s, ops, j),
        !s.tasks.contains_key(id_created_at(s, ops, i)),
        !run(s, ops.take(i)).tasks.contains_key(id_created_at(s, ops, i)),
        run(s, ops.take(i + 1)).tasks[id_created_at(s, ops, i)] == new_task(
            run(s, ops.take(i)).next_id,
            ops[i]->title,
            ops[i]->description,
        ),
{
    let before = run(s, ops.take(i));
    law_run_valid(s, ops.take(i));
    lemma_run_take(s, ops, i);
    law_step_valid(before, ops[i]);
    lemma_run_take_monotone(s, ops, i + 1, j);
    lemma_task_id_injective(before.next_id, run(s, ops.take(j)).next_id);
    law_next_id_is_fresh(before);
    assert(ops.take(0) =~= Seq::<StoreOp>::empty());
    lemma_run_take_monotone(s, ops, 0, i);
    law_next_id_is_fresh(s);
    assert(!s.tasks.contains_key(task_id(before.next_id))) by {
        if before.next_id > s.next_id {
            if s.tasks.contains_key(task_id(before.next_id)) {
                let id = task_id(before.next_id);
                let n = choose|n: nat| n < s.next_id && id == #[trigger] task_id(n);
                lemma_task_id_injective(n, before.next_id);
            }
        }
    }
}

/// A stored task stays stored, unchanged, through any sequence of changes that
/// does not delete its id.
pub proof fn law_task_persists(s: TaskStoreView, ops: Seq<StoreOp>, id: Seq<char>)
    requires
        s.valid(),
        s.tasks.contains_key(id),
        forall|k: int| 0 <= k < ops.len() ==> !deletes(#[trigger] ops[k], id),
    ensures
        run(s, ops).tasks.contains_key(id),
        run(s, ops).tasks[id] == s.tasks[id],
    decreases ops.len(),
{
    if ops.len() > 0 {
        let prev = ops.drop_last();
        assert forall|k: int| 0 <= k < prev.len() implies !deletes(#[trigger] prev[k], id) by {
            assert(prev[k] == ops[k]);
        }
        law_task_persists(s, prev, id);
        law_run_valid(s, prev);
        let mid = run(s, prev);
        assert(!deletes(ops[ops.len() - 1], id));
        law_next_id_is_fresh(mid);
    }
}

/// A get of a created task's id finds that task after any later changes that
/// do not delete it.
pub proof fn law_created_task_persists(
    s: TaskStoreView,
    title: Seq<char>,
    description: Seq<char>,
    later: Seq<StoreOp>,
)
    requires
        s.valid(),
        title.len() > 0,
        forall|k: int| 0 <= k < later.len() ==> !deletes(#[trigger] later[k], task_id(s.next_id)),
    ensures
        ({
            let after = run(s.step(StoreOp::Create { title, description }), later);
            &&& after.tasks.contains_key(task_id(s.next_id))
            &&& after.tasks[task_id(s.next_id)] == new_task(s.next_id, title, description)
        }),
{
    let first = s.step(StoreOp::Create { title, description });
    law_create_then_get(s, title, description);
    law_task_persists(first, later, task_id(s.next_id));
}

/// An id that is not stored and that the counter will never give out again
/// stays absent through any sequence of changes.
pub proof fn law_absent_stays_absent(s: TaskStoreView, ops: Seq<StoreOp>, id: Seq<char>)
    requires
        s.valid(),
        !s.tasks.contains_key(id),
        forall|m: nat| m >= s.next_id ==> id != #[trigger] task_id(m),
    ensures
        !run(s, ops).tasks.contains_key(id),
    decreases ops.len(),
{
    if ops.len() > 0 {
        let prev = ops.drop_last();
        law_absent_stays_absent(s, prev, id);
        law_run_valid(s, prev);
        let mid = run(s, prev);
        assert(id != task_id(mid.next_id));
    }
}

/// Once deleted, an id never comes back: after the delete and any later
/// changes, no task is stored under it.
pub proof fn law_deleted_id_stays_absent(s: TaskStoreView, id: Seq<char>, later: Seq<StoreOp>)
    requires
        s.valid(),
        s.tasks.contains_key(id),
    ensures
        !run(s.step(StoreOp::Delete { id }), later).tasks.contains_key(id),
{
    let after = s.step(StoreOp::Delete { id });
    law_delete_then_get(s, id);
    let n = choose|n: nat| n < s.next_id && id == #[trigger] task_id(n);
    assert forall|m: nat| m >= after.next_id implies id != #[trigger] task_id(m) by {
        lemma_task_id_injective(n, m);
    }
    law_absent_stays_absent(after, later, id);
}

/// A run of creates, each with a non-empty title, takes consecutive counter
/// values: the `j`-th gets id `task_id(next_id + j)`, all are stored, every
/// earlier task is kept, and the count grows by the number of creates.
pub proof fn law_creates_consecutive(s: TaskStoreView, ops: Seq<StoreOp>)
    requires
        s.valid(),
        forall|k: int| 0 <= k < ops.len() ==> creates(#[trigger] ops[k]),
    ensures
        run(s, ops).next_id == s.next_id + ops.len(),
        run(s, ops).tasks.len() == s.tasks.len() + ops.len(),
        forall|j: int|
            0 <= j < ops.len() ==> run(s, ops).tasks.contains_key(
                #[trigger] task_id((s.next_id + j) as nat),
            ) && run(s, ops).tasks[task_id((s.next_id + j) as nat)] == new_task(
                (s.next_id + j) as nat,
                ops[j]->title,
                ops[j]->description,
            ),
        forall|id: Seq<char>| #[trigger]
            s.tasks.contains_key(id) ==> run(s, ops).tasks.contains_key(id) && run(
                s,
                ops,
            ).tasks[id] == s.tasks[id],
    decreases ops.len(),
{
    if ops.len() > 0 {
        let prev = ops.drop_last();
        assert forall|k: int| 0 <= k < prev.len() implies creates(#[trigger] prev[k]) by {
            assert(prev[k] == ops[k]);
        }
        law_creates_consecutive(s, prev);
        law_run_valid(s, prev);
        let mid = run(s, prev);
        let last = ops.last();
        assert(creates(ops[ops.len() - 1]));
        law_create_then_get(mid, last->title, last->description);
        law_next_id_is_fresh(mid);
        let after = run(s, ops);
        assert forall|j: int|
            0 <= j < ops.len() implies after.tasks.contains_key(
            #[trigger] task_id((s.next_id + j) as nat),
        ) && after.tasks[task_id((s.next_id + j) as nat)] == new_task(
            (s.next_id + j) as nat,
            ops[j]->title,
            ops[j]->description,
        ) by {
            if j < prev.len() {
                assert(prev[j] == ops[j]);
                lemma_task_id_injective((s.next_id + j) as nat, mid.next_id);
            }
        }
        assert forall|id: Seq<char>| #[trigger] s.tasks.contains_key(id) implies after.tasks.contains_key(
            id,
        ) && after.tasks[id] == s.tasks[id] by {
            assert(mid.tasks.contains_key(id));
        }
    }
}

} // verus!
