//! The ready queue of the stride scheduler.

use crate::search::{first_index, is_first_index, lemma_first_index, lemma_first_index_unique};
use std::collections::VecDeque;
use vstd::prelude::*;

verus! {

/// A task that waits for the processor: its pid and the stride it had when
/// it was put into the ready queue.
#[derive(Clone, Copy, Debug, PartialEq, Eq, Structural)]
pub struct ReadyTask {
    pub pid: usize,
    pub stride: usize,
}

/// Whether the strides in `q` never decrease from front to back.
pub open spec fn sorted_by_stride(q: Seq<ReadyTask>) -> bool {
    forall|i: int, j: int| 0 <= i <= j < q.len() ==> q[i].stride <= q[j].stride
}

/// Where a task of the given stride goes into `q`: the place of the first
/// task whose stride is greater, or the end where there is none.
pub open spec fn insert_position(q: Seq<ReadyTask>, stride: usize) -> int {
    first_index(q, |t: ReadyTask| t.stride > stride)
}

/// The queue `q` after `task` was added to it.
pub open spec fn enqueue(q: Seq<ReadyTask>, task: ReadyTask) -> Seq<ReadyTask> {
    q.insert(insert_position(q, task.stride), task)
}

/// The queue that results from adding `tasks` one by one, in order, to an
/// empty queue.
pub open spec fn enqueue_all(tasks: Seq<ReadyTask>) -> Seq<ReadyTask>
    decreases tasks.len(),
{
    if tasks.len() == 0 {
        Seq::empty()
    } else {
        enqueue(enqueue_all(tasks.drop_last()), tasks.last())
    }
}

/// The insert position lies in the queue, nothing before it has a greater
/// stride, and the task at it, if any, has a greater stride.
pub proof fn lemma_insert_position(q: Seq<ReadyTask>, stride: usize)
    ensures
        0 <= insert_position(q, stride) <= q.len(),
        forall|j: int| 0 <= j < insert_position(q, stride) ==> (#[trigger] q[j]).stride <= stride,
        insert_position(q, stride) < q.len() ==> q[insert_position(q, stride)].stride > stride,
{
    lemma_first_index(q, |t: ReadyTask| t.stride > stride);
}

/// Adding a task leaves a sorted queue sorted.
pub proof fn lemma_enqueue_sorted(q: Seq<ReadyTask>, task: ReadyTask)
    requires
        sorted_by_stride(q),
    ensures
        sorted_by_stride(enqueue(q, task)),
{
    lemma_insert_position(q, task.stride);
    let p = insert_position(q, task.stride);
    let r = enqueue(q, task);
    assert forall|i: int, j: int| 0 <= i <= j < r.len() implies r[i].stride <= r[j].stride by {
        if i < p {
            assert(r[i] == q[i]);
        }
        if i > p {
            assert(r[i] == q[i - 1]);
        }
        if j < p {
            assert(r[j] == q[j]);
        }
        if j > p {
            assert(r[j] == q[j - 1]);
            assert(q[p].stride <= q[j - 1].stride);
        }
    }
}

/// Adding a task keeps every task that was queued, and adds exactly the new
/// one.
pub proof fn lemma_enqueue_contents(q: Seq<ReadyTask>, task: ReadyTask)
    ensures
        enqueue(q, task).len() == q.len() + 1,
        enqueue(q, task).to_multiset() == q.to_multiset().insert(task),
{
    lemma_insert_position(q, task.stride);
    vstd::seq_lib::to_multiset_insert(q, insert_position(q, task.stride), task);
}

/// Tasks of equal stride leave in the order in which they came: a new task
/// goes behind every queued task whose stride is not greater than its own.
pub proof fn lemma_enqueue_behind_equal(q: Seq<ReadyTask>, task: ReadyTask, j: int)
    requires
        sorted_by_stride(q),
        0 <= j < q.len(),
        q[j].stride <= task.stride,
    ensures
        j < insert_position(q, task.stride),
        enqueue(q, task)[j] == q[j],
{
    lemma_insert_position(q, task.stride);
}

/// Whatever tasks are added to an empty queue, in whatever order, the queue
/// is sorted by stride.
pub proof fn lemma_enqueue_all_sorted(tasks: Seq<ReadyTask>)
    ensures
        sorted_by_stride(enqueue_all(tasks)),
        enqueue_all(tasks).len() == tasks.len(),
        enqueue_all(tasks).to_multiset() == tasks.to_multiset(),
    decreases tasks.len(),
{
    if tasks.len() == 0 {
        assert(tasks =~= Seq::empty());
    } else {
        let init = tasks.drop_last();
        lemma_enqueue_all_sorted(init);
        lemma_enqueue_sorted(enqueue_all(init), tasks.last());
        lemma_enqueue_contents(enqueue_all(init), tasks.last());
        assert(init.push(tasks.last()) =~= tasks);
        vstd::seq_lib::to_multiset_build(init, tasks.last());
    }
}

/// The front of a sorted queue has the least stride in it.
pub proof fn lemma_front_is_minimum(q: Seq<ReadyTask>, j: int)
    requires
        sorted_by_stride(q),
        0 <= j < q.len(),
    ensures
        q[0].stride <= q[j].stride,
{
}

/// Whether the task `pid` is in the queue.
pub open spec fn queued_in(q: Seq<ReadyTask>, pid: usize) -> bool {
    exists|i: int| 0 <= i < q.len() && (#[trigger] q[i]).pid == pid
}

/// Whether no task is in the queue twice.
pub open spec fn distinct_pids(q: Seq<ReadyTask>) -> bool {
    forall|i: int, j: int| 0 <= i < j < q.len() ==> (#[trigger] q[i]).pid != (#[trigger] q[j]).pid
}

/// After a task was added, the queue holds the tasks that it held and the
/// new one, and no task twice if it held none twice and not the new one.
pub proof fn lemma_enqueue_members(q: Seq<ReadyTask>, task: ReadyTask)
    ensures
        forall|pid: usize| #[trigger]
            queued_in(enqueue(q, task), pid) <==> queued_in(q, pid) || pid == task.pid,
        forall|i: int|
            0 <= i < enqueue(q, task).len() ==> (#[trigger] enqueue(q, task)[i]) == task
                || q.contains(enqueue(q, task)[i]),
        distinct_pids(q) && !queued_in(q, task.pid) ==> distinct_pids(enqueue(q, task)),
{
    lemma_insert_position(q, task.stride);
    let p = insert_position(q, task.stride);
    let r = enqueue(q, task);
    assert forall|pid: usize| #[trigger]
        queued_in(r, pid) <==> queued_in(q, pid) || pid == task.pid by {
        if queued_in(r, pid) {
            let i = choose|i: int| 0 <= i < r.len() && (#[trigger] r[i]).pid == pid;
            if i < p {
                assert(q[i].pid == pid);
            } else if i > p {
                assert(q[i - 1].pid == pid);
            }
        }
        if queued_in(q, pid) {
            let i = choose|i: int| 0 <= i < q.len() && (#[trigger] q[i]).pid == pid;
            if i < p {
                assert(r[i].pid == pid);
            } else {
                assert(r[i + 1].pid == pid);
            }
        }
        if pid == task.pid {
            assert(r[p].pid == pid);
        }
    }
    assert forall|i: int| 0 <= i < r.len() implies (#[trigger] r[i]) == task || q.contains(
        r[i],
    ) by {
        if i < p {
            assert(q[i] == r[i]);
        } else if i > p {
            assert(q[i - 1] == r[i]);
        }
    }
    if distinct_pids(q) && !queued_in(q, task.pid) {
        assert forall|i: int, j: int| 0 <= i < j < r.len() implies (#[trigger] r[i]).pid != (
        #[trigger] r[j]).pid by {
            let i0 = if i < p { i } else { i - 1 };
            let j0 = if j < p { j } else { j - 1 };
            if i != p && j != p {
                assert(q[i0].pid != q[j0].pid);
            } else if i == p {
                assert(q[j0].pid != task.pid);
            } else {
                assert(q[i0].pid != task.pid);
            }
        }
    }
}

/// After the front task left, the queue holds the tasks that it held but
/// that one, is still sorted, and holds no task twice if it held none twice.
pub proof fn lemma_drop_first_members(q: Seq<ReadyTask>)
    requires
        q.len() > 0,
    ensures
        sorted_by_stride(q) ==> sorted_by_stride(q.drop_first()),
        distinct_pids(q) ==> distinct_pids(q.drop_first()),
        distinct_pids(q) ==> forall|pid: usize| #[trigger]
            queued_in(q.drop_first(), pid) <==> queued_in(q, pid) && pid != q[0].pid,
{
    let r = q.drop_first();
    if sorted_by_stride(q) {
        assert forall|i: int, j: int| 0 <= i <= j < r.len() implies r[i].stride
            <= r[j].stride by {
            assert(q[i + 1].stride <= q[j + 1].stride);
        }
    }
    if distinct_pids(q) {
        assert forall|i: int, j: int| 0 <= i < j < r.len() implies (#[trigger] r[i]).pid != (
        #[trigger] r[j]).pid by {
            assert(q[i + 1].pid != q[j + 1].pid);
        }
        assert forall|pid: usize| #[trigger]
            queued_in(r, pid) <==> queued_in(q, pid) && pid != q[0].pid by {
            if queued_in(r, pid) {
                let i = choose|i: int| 0 <= i < r.len() && (#[trigger] r[i]).pid == pid;
                assert(q[i + 1].pid == pid);
                assert(q[0].pid != q[i + 1].pid);
            }
            if queued_in(q, pid) && pid != q[0].pid {
                let i = choose|i: int| 0 <= i < q.len() && (#[trigger] q[i]).pid == pid;
                assert(r[i - 1].pid == pid);
            }
        }
    }
}

/// The tasks that are ready to run, in the order in which they will run.
pub struct TaskManager {
    ready_queue: VecDeque<ReadyTask>,
}

impl View for TaskManager {
    type V = Seq<ReadyTask>;

    closed spec fn view(&self) -> Seq<ReadyTask> {
        self.ready_queue@
    }
}

impl TaskManager {
    /// Creates an empty ready queue.
    pub fn new() -> (manager: Self)
        ensures
            manager@ == Seq::<ReadyTask>::empty(),
    {
        Self { ready_queue: VecDeque::new() }
    }

    /// Number of tasks in the queue.
    pub fn len(&self) -> (n: usize)
        ensures
            n == self@.len(),
    {
        self.ready_queue.len()
    }

    /// The task at place `i` of the queue, counted from the front.
    pub fn get(&self, i: usize) -> (task: ReadyTask)
        requires
            i < self@.len(),
        ensures
            task == self@[i as int],
    {
        self.ready_queue[i]
    }

    /// Puts a task into the queue, in front of the first task whose stride
    /// is greater than its own, or at the back where there is none.
    pub fn add(&mut self, task: ReadyTask)
        ensures
            final(self)@ == enqueue(old(self)@, task),
            sorted_by_stride(old(self)@) ==> sorted_by_stride(final(self)@),
    {
        let n = self.ready_queue.len();
        let mut i: usize = 0;
        while i < n && self.ready_queue[i].stride <= task.stride
            invariant
                n == self.ready_queue@.len(),
                self.ready_queue@ == old(self).ready_queue@,
                0 <= i <= n,
                forall|j: int|
                    0 <= j < i ==> (#[trigger] self.ready_queue@[j]).stride <= task.stride,
            decreases n - i,
        {
            i = i + 1;
        }
        proof {
            let p = |t: ReadyTask| t.stride > task.stride;
            assert(is_first_index(self.ready_queue@, p, i as int));
            lemma_first_index_unique(self.ready_queue@, p, i as int);
            if sorted_by_stride(self.ready_queue@) {
                lemma_enqueue_sorted(self.ready_queue@, task);
            }
        }
        self.ready_queue.insert(i, task);
    }

    /// Takes the task at the front out of the queue. In a sorted queue that
    /// is a task of the least stride.
    pub fn fetch(&mut self) -> (task: Option<ReadyTask>)
        ensures
            old(self)@.len() == 0 ==> task is None && final(self)@ == old(self)@,
            old(self)@.len() > 0 ==> task == Some(old(self)@[0]),
            old(self)@.len() > 0 ==> final(self)@ == old(self)@.drop_first(),
            sorted_by_stride(old(self)@) ==> sorted_by_stride(final(self)@),
            sorted_by_stride(old(self)@) ==> forall|j: int|
                0 <= j < old(self)@.len() ==> task->0.stride <= (#[trigger] old(self)@[j]).stride,
    {
        let task = self.ready_queue.pop_front();
        proof {
            if old(self)@.len() > 0 {
                assert(self.ready_queue@ =~= old(self)@.drop_first());
            }
        }
        task
    }
}

/// Puts a task into the ready queue of `manager`.
pub fn add_task(manager: &mut TaskManager, task: ReadyTask)
    ensures
        final(manager)@ == enqueue(old(manager)@, task),
        sorted_by_stride(old(manager)@) ==> sorted_by_stride(final(manager)@),
{
    manager.add(task);
}

/// Takes the task at the front out of the ready queue of `manager`.
pub fn fetch_task(manager: &mut TaskManager) -> (task: Option<ReadyTask>)
    ensures
        old(manager)@.len() == 0 ==> task is None && final(manager)@ == old(manager)@,
        old(manager)@.len() > 0 ==> task == Some(old(manager)@[0]),
        old(manager)@.len() > 0 ==> final(manager)@ == old(manager)@.drop_first(),
        sorted_by_stride(old(manager)@) ==> sorted_by_stride(final(manager)@),
        sorted_by_stride(old(manager)@) ==> forall|j: int|
            0 <= j < old(manager)@.len() ==> task->0.stride
                <= (#[trigger] old(manager)@[j]).stride,
{
    manager.fetch()
}

} // verus!
