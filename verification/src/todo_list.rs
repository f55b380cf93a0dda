use vstd::prelude::*;
use crate::task::{Task, TaskV, Priority, overdue_at_spec};
use crate::error::{TodoError, TodoResult};
use crate::clock::{now_epoch, ts_ok, opt_ts_ok, TS_MIN, TS_MAX};

verus! {

/// The owner of all tasks of one user: the single authority for
/// identifier assignment and for storage order.
#[derive(Debug)]
pub struct TodoList {
    tasks: Vec<Task>,
    next_id: u32,
}

/// The mathematical value of a collection.
#[verifier::ext_equal]
pub struct TodoListV {
    pub tasks: Seq<TaskV>,
    pub next_id: u32,
}

impl View for TodoList {
    type V = TodoListV;

    closed spec fn view(&self) -> TodoListV {
        TodoListV { tasks: self.tasks.deep_view(), next_id: self.next_id }
    }
}

/// The collection's invariant: tasks are storable, identifiers strictly
/// increase along insertion order (hence are unique), and `next_id` lies
/// strictly above every identifier ever issued.
pub open spec fn tasks_wf(ts: Seq<TaskV>, next_id: u32) -> bool {
    &&& forall|i: int| 0 <= i < ts.len() ==> Task::task_wf(#[trigger] ts[i])
    &&& forall|i: int, j: int| 0 <= i < j < ts.len() ==> ts[i].id < ts[j].id
    &&& forall|i: int| 0 <= i < ts.len() ==> (#[trigger] ts[i]).id < next_id
    &&& next_id >= 1
}

pub open spec fn list_wf(lv: TodoListV) -> bool {
    tasks_wf(lv.tasks, lv.next_id)
}

/// Whether some task in `ts` carries the identifier `id`.
pub open spec fn contains_id(ts: Seq<TaskV>, id: u32) -> bool {
    exists|i: int| 0 <= i < ts.len() && (#[trigger] ts[i]).id == id
}

/// The first task in `ts` carrying `id`, if any.
pub open spec fn find_in(ts: Seq<TaskV>, id: u32) -> Option<TaskV>
    decreases ts.len(),
{
    if ts.len() == 0 {
        None
    } else if ts[0].id == id {
        Some(ts[0])
    } else {
        find_in(ts.drop_first(), id)
    }
}

/// `ts` with the task carrying `id`, if any, marked completed.
pub open spec fn complete_in(ts: Seq<TaskV>, id: u32) -> Seq<TaskV> {
    ts.map_values(
        |t: TaskV|
            if t.id == id {
                TaskV { completed: true, ..t }
            } else {
                t
            },
    )
}

/// `ts` without the tasks carrying `id`; under the invariant there is at
/// most one.
pub open spec fn remove_id(ts: Seq<TaskV>, id: u32) -> Seq<TaskV> {
    ts.filter(|t: TaskV| t.id != id)
}

pub open spec fn pending_of(ts: Seq<TaskV>) -> Seq<TaskV> {
    ts.filter(|t: TaskV| !t.completed)
}

pub open spec fn completed_of(ts: Seq<TaskV>) -> Seq<TaskV> {
    ts.filter(|t: TaskV| t.completed)
}

pub open spec fn overdue_of(ts: Seq<TaskV>, now: i64) -> Seq<TaskV> {
    ts.filter(|t: TaskV| overdue_at_spec(t, now))
}

pub open spec fn rank_of(ts: Seq<TaskV>, k: int) -> Seq<TaskV> {
    ts.filter(|t: TaskV| t.priority.rank_spec() == k)
}

/// The stable priority ordering: every High task in insertion order,
/// then every Medium one, then every Low one.
pub open spec fn by_priority_of(ts: Seq<TaskV>) -> Seq<TaskV> {
    rank_of(ts, 0) + rank_of(ts, 1) + rank_of(ts, 2)
}

/// How one `add` changes a collection: the new task goes to the end,
/// carries the old `next_id` — which is what the add returns — and
/// `next_id` moves up by one.
pub open spec fn add_post(pre: TodoListV, post: TodoListV, id: u32) -> bool {
    &&& id == pre.next_id
    &&& post.next_id == pre.next_id + 1
    &&& post.tasks.len() == pre.tasks.len() + 1
    &&& post.tasks == pre.tasks.push(post.tasks.last())
    &&& post.tasks.last().id == id
}

// ---------------------------------------------------------------------------
// Lemmas about the spec-level operations
// ---------------------------------------------------------------------------

/// `find_in` succeeds exactly on contained identifiers, and what it
/// finds is an element of the sequence carrying that identifier.
pub proof fn lemma_find_in(ts: Seq<TaskV>, id: u32)
    ensures
        (find_in(ts, id) is None) <==> !contains_id(ts, id),
        find_in(ts, id) matches Some(t) ==> t.id == id && exists|i: int|
            0 <= i < ts.len() && ts[i] == t,
    decreases ts.len(),
{
    if ts.len() > 0 && ts[0].id != id {
        lemma_find_in(ts.drop_first(), id);
        assert(forall|i: int|
            0 <= i < ts.drop_first().len() ==> #[trigger] ts.drop_first()[i] == ts[i + 1]);
        if contains_id(ts, id) {
            let i = choose|i: int| 0 <= i < ts.len() && (#[trigger] ts[i]).id == id;
            assert(ts.drop_first()[i - 1].id == id);
            assert(contains_id(ts.drop_first(), id));
        }
    }
}

/// When the first match sits at position `i`, that is what `find_in`
/// returns.
pub proof fn lemma_find_in_at(ts: Seq<TaskV>, id: u32, i: int)
    requires
        0 <= i < ts.len(),
        ts[i].id == id,
        forall|j: int| 0 <= j < i ==> (#[trigger] ts[j]).id != id,
    ensures
        find_in(ts, id) == Some(ts[i]),
    decreases i,
{
    if i > 0 {
        lemma_find_in_at(ts.drop_first(), id, i - 1);
    }
}

/// A sequence all of whose tasks keep their identifier off `id` filters
/// to itself.
proof fn lemma_filter_keep_all(ts: Seq<TaskV>, id: u32)
    requires
        forall|j: int| 0 <= j < ts.len() ==> (#[trigger] ts[j]).id != id,
    ensures
        remove_id(ts, id) == ts,
    decreases ts.len(),
{
    reveal(Seq::filter);
    if ts.len() > 0 {
        lemma_filter_keep_all(ts.drop_last(), id);
        assert(remove_id(ts, id) =~= ts);
    } else {
        assert(remove_id(ts, id) =~= ts);
    }
}

/// Under unique identifiers, removing the task at the position where
/// `id` sits is the same as filtering `id` out.
pub proof fn lemma_remove_is_filter(ts: Seq<TaskV>, id: u32, i: int)
    requires
        0 <= i < ts.len(),
        ts[i].id == id,
        forall|p: int, q: int| 0 <= p < q < ts.len() ==> ts[p].id < ts[q].id,
    ensures
        remove_id(ts, id) == ts.remove(i),
    decreases ts.len(),
{
    reveal(Seq::filter);
    if i == ts.len() - 1 {
        assert(ts.drop_last() =~= ts.remove(i));
        assert(forall|j: int| 0 <= j < ts.drop_last().len() ==> (#[trigger] ts.drop_last()[j]).id
            != id);
        lemma_filter_keep_all(ts.drop_last(), id);
    } else {
        lemma_remove_is_filter(ts.drop_last(), id, i);
        assert(ts.drop_last().remove(i) =~= ts.remove(i).drop_last());
        assert(ts.remove(i).last() == ts.last());
        assert(remove_id(ts, id) == remove_id(ts.drop_last(), id).push(ts.last()));
        assert(remove_id(ts, id) =~= ts.remove(i));
    }
}

/// Filtering keeps the invariant: the kept tasks are tasks of the
/// original, in the original order.
pub proof fn lemma_filter_wf(ts: Seq<TaskV>, pred: spec_fn(TaskV) -> bool, next_id: u32)
    requires
        tasks_wf(ts, next_id),
    ensures
        tasks_wf(ts.filter(pred), next_id),
        forall|k: int| 0 <= k < ts.filter(pred).len() ==> exists|j: int|
            0 <= j < ts.len() && ts[j] == #[trigger] ts.filter(pred)[k],
    decreases ts.len(),
{
    reveal(Seq::filter);
    if ts.len() > 0 {
        let prefix = ts.drop_last();
        assert(tasks_wf(prefix, next_id));
        lemma_filter_wf(prefix, pred, next_id);
        let f = ts.filter(pred);
        let fp = prefix.filter(pred);
        if pred(ts.last()) {
            assert(f == fp.push(ts.last()));
            assert forall|k: int| 0 <= k < f.len() implies exists|j: int|
                0 <= j < ts.len() && ts[j] == #[trigger] f[k] by {
                if k < fp.len() {
                    let j = choose|j: int| 0 <= j < prefix.len() && prefix[j] == fp[k];
                    assert(ts[j] == f[k]);
                } else {
                    assert(ts[ts.len() - 1] == f[k]);
                }
            }
            assert forall|p: int, q: int| 0 <= p < q < f.len() implies f[p].id < f[q].id by {
                if q < fp.len() {
                } else {
                    let j = choose|j: int| 0 <= j < prefix.len() && prefix[j] == fp[p];
                    assert(ts[j].id < ts[ts.len() - 1].id);
                }
            }
        } else {
            assert(f == fp);
        }
    }
}

/// Whether one task's own fields are storable and its identifier lies
/// under `next_id`.
fn task_fields_ok(t: &Task, next_id: u32) -> (r: bool)
    ensures
        r == (Task::task_wf(t@) && t@.id < next_id),
{
    let created_ok = TS_MIN <= t.created_at && t.created_at <= TS_MAX;
    let due_ok = match t.due_date {
        Some(d) => TS_MIN <= d && d <= TS_MAX,
        None => true,
    };
    t.id >= 1 && created_ok && due_ok && t.id < next_id
}

/// Whether the parts form a well-formed collection, exactly.
#[verifier::rlimit(100)]
#[verifier::spinoff_prover]
pub fn check_tasks_wf(tasks: &Vec<Task>, next_id: u32) -> (r: bool)
    ensures
        r == tasks_wf(tasks.deep_view(), next_id),
{
    let ghost ts = tasks.deep_view();
    if next_id < 1 {
        return false;
    }
    let mut k: usize = 0;
    let mut prev: u32 = 0;
    while k < tasks.len()
        invariant
            ts == tasks.deep_view(),
            next_id >= 1,
            k <= ts.len(),
            forall|j: int| 0 <= j < k ==> Task::task_wf(#[trigger] ts[j]) && ts[j].id < next_id,
            forall|p: int, q: int| 0 <= p < q < k ==> ts[p].id < ts[q].id,
            forall|j: int| 0 <= j < k ==> (#[trigger] ts[j]).id <= prev,
            k > 0 ==> prev == ts[k - 1].id,
        decreases ts.len() - k,
    {
        let t = &tasks[k];
        proof {
            assert(t@ == ts[k as int]);
        }
        if !task_fields_ok(t, next_id) {
            proof {
                assert(!(Task::task_wf(ts[k as int]) && ts[k as int].id < next_id));
            }
            return false;
        }
        if k > 0 && prev >= t.id {
            proof {
                assert(ts[k - 1].id >= ts[k as int].id);
            }
            return false;
        }
        prev = t.id;
        k = k + 1;
    }
    true
}

// ---------------------------------------------------------------------------
// The collection itself
// ---------------------------------------------------------------------------

impl TodoList {
    pub open spec fn wf(&self) -> bool {
        list_wf(self@)
    }

    /// An empty collection; the first identifier it will issue is 1.
    pub fn new() -> (r: TodoList)
        ensures
            r@.tasks.len() == 0,
            r@.next_id == 1,
            r.wf(),
    {
        let r = TodoList { tasks: Vec::new(), next_id: 1 };
        proof {
            assert(r@.tasks =~= Seq::<TaskV>::empty());
        }
        r
    }

    /// Rebuilds a collection from parts; used when decoding a persisted
    /// document whose parts have already been checked.
    pub fn from_parts(tasks: Vec<Task>, next_id: u32) -> (r: TodoList)
        requires
            tasks_wf(tasks.deep_view(), next_id),
        ensures
            r@.tasks == tasks.deep_view(),
            r@.next_id == next_id,
            r.wf(),
    {
        TodoList { tasks, next_id }
    }

    /// The identifier the next add will return.
    pub fn next_id_value(&self) -> (r: u32)
        ensures
            r == self@.next_id,
    {
        self.next_id
    }

    /// How many tasks the collection holds.
    pub fn len(&self) -> (r: usize)
        ensures
            r == self@.tasks.len(),
    {
        self.tasks.len()
    }

    pub fn is_empty(&self) -> (r: bool)
        ensures
            r == (self@.tasks.len() == 0),
    {
        self.tasks.is_empty()
    }

    /// Appends a fresh task, hands it the next identifier, and returns
    /// that identifier.  Never reuses an identifier: the one returned is
    /// strictly above every identifier the collection ever issued.
    pub fn add_task(&mut self, title: String, priority: Priority, due_date: Option<i64>) -> (id:
        u32)
        requires
            old(self).wf(),
            old(self)@.next_id < u32::MAX,
            opt_ts_ok(due_date),
        ensures
            id == old(self)@.next_id,
            final(self)@.next_id == old(self)@.next_id + 1,
            final(self)@.tasks.len() == old(self)@.tasks.len() + 1,
            final(self)@.tasks == old(self)@.tasks.push(final(self)@.tasks.last()),
            final(self)@.tasks.last().id == id,
            final(self)@.tasks.last().title == title@,
            final(self)@.tasks.last().completed == false,
            final(self)@.tasks.last().priority == priority,
            final(self)@.tasks.last().due_date == due_date,
            !contains_id(old(self)@.tasks, id),
            add_post(old(self)@, final(self)@, id),
            final(self).wf(),
    {
        let id = self.next_id;
        let t = Task::new(id, title, priority, due_date);
        self.tasks.push(t);
        self.next_id = self.next_id + 1;
        proof {
            assert(self@.tasks =~= old(self)@.tasks.push(self@.tasks.last()));
        }
        id
    }

    /// The task carrying `id`, if any.
    pub fn find_task(&self, id: u32) -> (r: Option<&Task>)
        ensures
            match r {
                Some(t) => find_in(self@.tasks, id) == Some(t@),
                None => !contains_id(self@.tasks, id) && find_in(self@.tasks, id) is None,
            },
    {
        let ghost ts = self@.tasks;
        let mut i: usize = 0;
        while i < self.tasks.len()
            invariant
                ts == self@.tasks,
                i <= ts.len(),
                forall|j: int| 0 <= j < i ==> (#[trigger] ts[j]).id != id,
            decreases ts.len() - i,
        {
            if self.tasks[i].id == id {
                proof {
                    lemma_find_in_at(ts, id, i as int);
                }
                return Some(&self.tasks[i]);
            }
            i = i + 1;
        }
        proof {
            lemma_find_in(ts, id);
        }
        None
    }

    /// Marks the task carrying `id` completed.  Succeeds exactly when
    /// some task carries `id` — also when it was already completed — and
    /// otherwise fails with `TaskNotFound` carrying that identifier.
    pub fn complete_task(&mut self, id: u32) -> (r: TodoResult<()>)
        requires
            old(self).wf(),
        ensures
            final(self)@.next_id == old(self)@.next_id,
            final(self).wf(),
            contains_id(old(self)@.tasks, id) ==> r is Ok && final(self)@.tasks == complete_in(
                old(self)@.tasks,
                id,
            ),
            !contains_id(old(self)@.tasks, id) ==> final(self)@.tasks == old(self)@.tasks && (
            r matches Err(TodoError::TaskNotFound(e)) && e == id),
    {
        let ghost ts = old(self)@.tasks;
        let mut i: usize = 0;
        while i < self.tasks.len()
            invariant
                self == old(self),
                ts == self@.tasks,
                tasks_wf(ts, old(self)@.next_id),
                i <= ts.len(),
                forall|j: int| 0 <= j < i ==> (#[trigger] ts[j]).id != id,
            decreases ts.len() - i,
        {
            if self.tasks[i].id == id {
                proof {
                    assert(ts[i as int].id == id);
                    assert(contains_id(ts, id));
                }
                let t = &mut self.tasks[i];
                t.complete();
                proof {
                    assert forall|k: int| 0 <= k < ts.len() implies self@.tasks[k]
                        == complete_in(ts, id)[k] by {
                        if k == i {
                            assert(self@.tasks[k] =~= TaskV { completed: true, ..ts[k] });
                        } else {
                            assert(ts[k].id != id) by {
                                if k > i {
                                    assert(ts[i as int].id < ts[k].id);
                                } else {
                                    assert(ts[k].id < ts[i as int].id);
                                }
                            }
                        }
                    }
                    assert(self@.tasks =~= complete_in(ts, id));
                    assert forall|k: int| 0 <= k < self@.tasks.len() implies Task::task_wf(
                        #[trigger] self@.tasks[k],
                    ) && self@.tasks[k].id == ts[k].id by {
                        assert(self@.tasks[k] == complete_in(ts, id)[k]);
                    }
                }
                return Ok(());
            }
            i = i + 1;
        }
        proof {
            assert(!contains_id(ts, id));
        }
        Err(TodoError::TaskNotFound(id))
    }

    /// Removes the task carrying `id`; every other task, and `next_id`,
    /// stay untouched.  Succeeds exactly when some task carries `id`,
    /// and otherwise fails with `TaskNotFound` carrying that identifier.
    pub fn delete_task(&mut self, id: u32) -> (r: TodoResult<()>)
        requires
            old(self).wf(),
        ensures
            final(self)@.next_id == old(self)@.next_id,
            final(self).wf(),
            contains_id(old(self)@.tasks, id) ==> r is Ok && final(self)@.tasks == remove_id(
                old(self)@.tasks,
                id,
            ),
            !contains_id(old(self)@.tasks, id) ==> final(self)@.tasks == old(self)@.tasks && (
            r matches Err(TodoError::TaskNotFound(e)) && e == id),
    {
        let ghost ts = old(self)@.tasks;
        let mut i: usize = 0;
        while i < self.tasks.len()
            invariant
                self == old(self),
                ts == self@.tasks,
                tasks_wf(ts, old(self)@.next_id),
                i <= ts.len(),
                forall|j: int| 0 <= j < i ==> (#[trigger] ts[j]).id != id,
            decreases ts.len() - i,
        {
            if self.tasks[i].id == id {
                proof {
                    assert(ts[i as int].id == id);
                    assert(contains_id(ts, id));
                }
                self.tasks.remove(i);
                proof {
                    assert(self@.tasks =~= ts.remove(i as int));
                    lemma_remove_is_filter(ts, id, i as int);
                    assert forall|k: int| 0 <= k < self@.tasks.len() implies self@.tasks[k] == (
                    if k < i {
                        ts[k]
                    } else {
                        ts[k + 1]
                    }) by {
                        assert(self@.tasks[k] == ts.remove(i as int)[k]);
                    }
                }
                return Ok(());
            }
            i = i + 1;
        }
        Err(TodoError::TaskNotFound(id))
    }

    /// Every task, in insertion order.
    pub fn list_tasks(&self) -> (r: &Vec<Task>)
        ensures
            r.deep_view() == self@.tasks,
    {
        &self.tasks
    }

    /// The tasks not yet completed, in insertion order.
    pub fn list_pending_tasks(&self) -> (r: Vec<&Task>)
        ensures
            r.deep_view() == pending_of(self@.tasks),
    {
        broadcast use vstd::seq_lib::group_filter_ensures;

        let ghost ts = self@.tasks;
        let mut r: Vec<&Task> = Vec::new();
        let mut i: usize = 0;
        while i < self.tasks.len()
            invariant
                ts == self@.tasks,
                i <= ts.len(),
                r.deep_view() == pending_of(ts.take(i as int)),
            decreases ts.len() - i,
        {
            proof {
                assert(ts.take(i + 1 as int) =~= ts.take(i as int).push(ts[i as int]));
                ts.take(i as int).lemma_filter_push(ts[i as int], |t: TaskV| !t.completed);
            }
            if !self.tasks[i].completed {
                r.push(&self.tasks[i]);
            }
            proof {
                assert(r.deep_view() =~= pending_of(ts.take(i + 1 as int)));
            }
            i = i + 1;
        }
        proof {
            assert(ts.take(ts.len() as int) =~= ts);
        }
        r
    }

    /// The tasks already completed, in insertion order.
    pub fn list_completed_tasks(&self) -> (r: Vec<&Task>)
        ensures
            r.deep_view() == completed_of(self@.tasks),
    {
        broadcast use vstd::seq_lib::group_filter_ensures;

        let ghost ts = self@.tasks;
        let mut r: Vec<&Task> = Vec::new();
        let mut i: usize = 0;
        while i < self.tasks.len()
            invariant
                ts == self@.tasks,
                i <= ts.len(),
                r.deep_view() == completed_of(ts.take(i as int)),
            decreases ts.len() - i,
        {
            proof {
                assert(ts.take(i + 1 as int) =~= ts.take(i as int).push(ts[i as int]));
                ts.take(i as int).lemma_filter_push(ts[i as int], |t: TaskV| t.completed);
            }
            if self.tasks[i].completed {
                r.push(&self.tasks[i]);
            }
            proof {
                assert(r.deep_view() =~= completed_of(ts.take(i + 1 as int)));
            }
            i = i + 1;
        }
        proof {
            assert(ts.take(ts.len() as int) =~= ts);
        }
        r
    }

    /// The tasks overdue at the instant `now`, in insertion order.
    pub fn overdue_tasks_at(&self, now: i64) -> (r: Vec<&Task>)
        ensures
            r.deep_view() == overdue_of(self@.tasks, now),
    {
        broadcast use vstd::seq_lib::group_filter_ensures;

        let ghost ts = self@.tasks;
        let mut r: Vec<&Task> = Vec::new();
        let mut i: usize = 0;
        while i < self.tasks.len()
            invariant
                ts == self@.tasks,
                i <= ts.len(),
                r.deep_view() == overdue_of(ts.take(i as int), now),
            decreases ts.len() - i,
        {
            proof {
                assert(ts.take(i + 1 as int) =~= ts.take(i as int).push(ts[i as int]));
                ts.take(i as int).lemma_filter_push(
                    ts[i as int],
                    |t: TaskV| overdue_at_spec(t, now),
                );
            }
            if self.tasks[i].is_overdue_at(now) {
                r.push(&self.tasks[i]);
            }
            proof {
                assert(r.deep_view() =~= overdue_of(ts.take(i + 1 as int), now));
            }
            i = i + 1;
        }
        proof {
            assert(ts.take(ts.len() as int) =~= ts);
        }
        r
    }

    /// The tasks overdue right now, by the system clock, in insertion
    /// order.  Whatever the clock says, a task without a due date is
    /// never among them, nor is a completed one.
    pub fn overdue_tasks(&self) -> (r: Vec<&Task>)
        ensures
            exists|now: i64| ts_ok(now) && r.deep_view() == overdue_of(self@.tasks, now),
    {
        let now = now_epoch();
        let r = self.overdue_tasks_at(now);
        proof {
            assert(ts_ok(now) && r.deep_view() == overdue_of(self@.tasks, now));
        }
        r
    }

    /// The tasks of one priority rank, in insertion order.
    fn tasks_with_rank(&self, k: u8) -> (r: Vec<&Task>)
        ensures
            r.deep_view() == rank_of(self@.tasks, k as int),
    {
        broadcast use vstd::seq_lib::group_filter_ensures;

        let ghost ts = self@.tasks;
        let mut r: Vec<&Task> = Vec::new();
        let mut i: usize = 0;
        while i < self.tasks.len()
            invariant
                ts == self@.tasks,
                i <= ts.len(),
                r.deep_view() == rank_of(ts.take(i as int), k as int),
            decreases ts.len() - i,
        {
            proof {
                assert(ts.take(i + 1 as int) =~= ts.take(i as int).push(ts[i as int]));
                ts.take(i as int).lemma_filter_push(
                    ts[i as int],
                    |t: TaskV| t.priority.rank_spec() == k as int,
                );
            }
            if self.tasks[i].priority.rank() == k {
                r.push(&self.tasks[i]);
            }
            proof {
                assert(r.deep_view() =~= rank_of(ts.take(i + 1 as int), k as int));
            }
            i = i + 1;
        }
        proof {
            assert(ts.take(ts.len() as int) =~= ts);
        }
        r
    }

    /// Every task ordered by priority, High before Medium before Low,
    /// and, within one priority, in insertion order: a stable sort.
    pub fn tasks_by_priority(&self) -> (r: Vec<&Task>)
        ensures
            r.deep_view() == by_priority_of(self@.tasks),
    {
        let mut r = self.tasks_with_rank(0);
        let mut mid = self.tasks_with_rank(1);
        let mut low = self.tasks_with_rank(2);
        r.append(&mut mid);
        r.append(&mut low);
        proof {
            assert(r.deep_view() =~= by_priority_of(self@.tasks));
        }
        r
    }

    /// Removes every completed task and reports how many went; pending
    /// tasks keep their order, and `next_id` stays untouched.
    pub fn clear_completed(&mut self) -> (n: usize)
        requires
            old(self).wf(),
        ensures
            final(self)@.tasks == pending_of(old(self)@.tasks),
            final(self)@.next_id == old(self)@.next_id,
            final(self).wf(),
            n == old(self)@.tasks.len() - final(self)@.tasks.len(),
    {
        broadcast use vstd::seq_lib::group_filter_ensures;

        let ghost ts = old(self)@.tasks;
        let original_len = self.tasks.len();
        let mut i: usize = 0;
        let ghost mut j: int = 0;
        while i < self.tasks.len()
            invariant
                0 <= j <= ts.len(),
                i == pending_of(ts.take(j)).len(),
                self@.tasks == pending_of(ts.take(j)) + ts.skip(j),
                self@.next_id == old(self)@.next_id,
                ts == old(self)@.tasks,
                tasks_wf(ts, old(self)@.next_id),
                self@.tasks.len() == i + ts.len() - j,
            decreases ts.len() - j,
        {
            proof {
                assert(j < ts.len()) by {
                    if j == ts.len() {
                        assert(ts.skip(j) =~= Seq::<TaskV>::empty());
                        assert(ts.take(j) =~= ts);
                        ts.lemma_filter_len(|t: TaskV| !t.completed);
                    }
                }
                assert(ts.take(j + 1) =~= ts.take(j).push(ts[j]));
                ts.take(j).lemma_filter_push(ts[j], |t: TaskV| !t.completed);
                assert(ts.skip(j)[0] == ts[j]);
                assert(self@.tasks[i as int] == ts[j]);
            }
            if self.tasks[i].completed {
                let ghost prev = self@.tasks;
                self.tasks.remove(i);
                proof {
                    assert(pending_of(ts.take(j + 1)) == pending_of(ts.take(j)));
                    assert(self@.tasks.len() == prev.len() - 1);
                    assert forall|k: int| 0 <= k < self@.tasks.len() implies #[trigger] self@
                        .tasks[k] == (if k < i {
                        prev[k]
                    } else {
                        prev[k + 1]
                    }) by {}
                    assert(self@.tasks =~= pending_of(ts.take(j + 1)) + ts.skip(j + 1));
                    j = j + 1;
                }
            } else {
                proof {
                    assert(pending_of(ts.take(j + 1)) =~= pending_of(ts.take(j)).push(ts[j]));
                    assert(self@.tasks =~= pending_of(ts.take(j + 1)) + ts.skip(j + 1));
                    j = j + 1;
                }
                i = i + 1;
            }
        }
        proof {
            assert(j == ts.len());
            assert(ts.take(ts.len() as int) =~= ts);
            assert(ts.skip(ts.len() as int) =~= Seq::<TaskV>::empty());
            assert(self@.tasks =~= pending_of(ts));
            lemma_filter_wf(ts, |t: TaskV| !t.completed, old(self)@.next_id);
        }
        original_len - self.tasks.len()
    }
}

impl Default for TodoList {
    fn default() -> (r: Self)
        ensures
            r@.tasks.len() == 0,
            r@.next_id == 1,
            r.wf(),
    {
        TodoList::new()
    }
}

} // verus!
