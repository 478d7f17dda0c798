//! What exit and waitpid do to parents and children.

use crate::search::{is_first_index, lemma_first_index, lemma_first_index_unique};
use crate::task::control_block::TaskStatus;
use crate::task::model::{pid_matches, KernelView, ROOT_PID};
use crate::task::preserve::{
    lemma_exit_children, lemma_exit_task, lemma_exited_wf, lemma_reaped_wf, lemma_run_next_wf,
};
use vstd::prelude::*;

verus! {

/// The step to the next ready task changes nothing about a task but, for the
/// task that gets the processor, its status from ready to running.
pub proof fn lemma_run_next_keeps_family(k: KernelView, pid: int)
    requires
        k.wf(),
        k.current is None,
        k.live(pid),
    ensures
        k.run_next().live(pid),
        k.run_next().task(pid).parent == k.task(pid).parent,
        k.run_next().task(pid).children == k.task(pid).children,
        k.run_next().task(pid).exit_code == k.task(pid).exit_code,
        k.run_next().task(pid).memory == k.task(pid).memory,
        k.task(pid).status == TaskStatus::Zombie <==> k.run_next().task(pid).status
            == TaskStatus::Zombie,
{
    if k.ready.len() > 0 {
        assert(k.entry_ok(0));
    }
}

/// After a task has exited, it is a zombie that holds the exit code, has no
/// address space left, is not the current task and is not in the ready
/// queue: it never runs again.
pub proof fn lemma_exit_makes_zombie(k: KernelView, code: i32)
    requires
        k.running(),
    ensures
        k.exited(code).run_next().wf(),
        k.exited(code).run_next().live(k.current->0 as int),
        k.exited(code).run_next().task(k.current->0 as int).status == TaskStatus::Zombie,
        k.exited(code).run_next().task(k.current->0 as int).exit_code == code,
        k.exited(code).run_next().task(k.current->0 as int).memory.areas.len() == 0,
        k.exited(code).run_next().current != k.current,
        !k.exited(code).run_next().queued(k.current->0),
{
    let c = k.current->0 as int;
    let k1 = k.exited(code);
    lemma_exited_wf(k, code);
    assert(k.live(c));
    lemma_exit_task(k, code, c);
    lemma_run_next_wf(k1);
    lemma_run_next_keeps_family(k1, c);
    let k2 = k1.run_next();
    assert(k2.live(c));
    assert(k2.task_ok(c));
}

/// A zombie is neither the current task nor in the ready queue, and the
/// next task to get the processor is not a zombie.
pub proof fn lemma_zombie_never_runs(k: KernelView, pid: int)
    requires
        k.wf(),
        k.live(pid),
        k.task(pid).status == TaskStatus::Zombie,
    ensures
        k.current != Some(pid as usize),
        !k.queued(pid as usize),
        k.ready.len() > 0 ==> k.ready[0].pid != pid,
{
    assert(k.task_ok(pid));
    if k.ready.len() > 0 && k.ready[0].pid == pid {
        assert(k.entry_ok(0));
    }
}

/// When a task other than the first exits before its children, each child
/// becomes a child of the first task: the first task lists it, it names the
/// first task as its parent, and it keeps its exit code and whether it is a
/// zombie.
pub proof fn lemma_exit_hands_children_to_root(k: KernelView, code: i32, child: usize)
    requires
        k.running(),
        k.current->0 != ROOT_PID,
        k.cur().children.contains(child),
    ensures
        k.exited(code).run_next().wf(),
        k.exited(code).run_next().live(child as int),
        k.exited(code).run_next().task(child as int).parent == Some(ROOT_PID),
        k.exited(code).run_next().task(ROOT_PID as int).children.contains(child),
        k.exited(code).run_next().task(child as int).exit_code == k.task(child as int).exit_code,
        k.task(child as int).status == TaskStatus::Zombie <==> k.exited(code).run_next().task(
            child as int,
        ).status == TaskStatus::Zombie,
{
    let k1 = k.exited(code);
    lemma_exit_children(k);
    assert(k.live(child as int));
    lemma_exited_wf(k, code);
    lemma_exit_task(k, code, child as int);
    assert(crate::task::preserve::is_orphan(k, child as int));
    assert(k1.live(child as int));
    assert(k1.task_ok(child as int));
    lemma_run_next_wf(k1);
    lemma_run_next_keeps_family(k1, child as int);
    assert(k1.live(ROOT_PID as int));
    lemma_run_next_keeps_family(k1, ROOT_PID as int);
}

/// A child of the current task that is a zombie can be fetched: waitpid
/// with its pid returns its pid, and waitpid for any child returns the pid
/// of a zombie.
pub proof fn lemma_zombie_child_reapable(k: KernelView, child: usize)
    requires
        k.running(),
        k.cur().children.contains(child),
        k.task(child as int).status == TaskStatus::Zombie,
    ensures
        k.wait_result(child as isize) == child,
        k.wait_result(-1isize) >= 0,
        k.task(k.wait_result(-1isize)).status == TaskStatus::Zombie,
{
    let c = k.current->0 as int;
    let kids = k.cur().children;
    assert(k.live(c));
    assert(k.task_ok(c));
    let w = choose|w: int| 0 <= w < kids.len() && kids[w] == child;
    assert(k.live(kids[w] as int));
    assert(child < isize::MAX);
    let pid = child as isize;
    assert(pid_matches(pid, kids[w]));
    assert(pid_matches(-1isize, kids[w]));
    let wanted = |x: usize| pid_matches(pid, x) && k.task(x as int).status == TaskStatus::Zombie;
    assert forall|j: int| 0 <= j < w implies !wanted(#[trigger] kids[j]) by {
        assert(kids[j] != kids[w]);
    }
    assert(is_first_index(kids, wanted, w));
    lemma_first_index_unique(kids, wanted, w);
    let any = |x: usize| pid_matches(-1isize, x) && k.task(x as int).status == TaskStatus::Zombie;
    lemma_first_index(kids, any);
    let a = k.zombie_child_index(-1isize);
    if a >= kids.len() {
        assert(!any(kids[w]));
    }
}

/// Once a zombie child was fetched, it is gone: the task does not exist any
/// more, and waitpid with its pid returns -1.
pub proof fn lemma_reaped_child_is_gone(k: KernelView, pid: isize, ptr: usize)
    requires
        k.running(),
        pid >= 0,
        k.wait_result(pid) >= 0,
    ensures
        k.reaped(k.zombie_child_index(pid), ptr).wf(),
        !k.reaped(k.zombie_child_index(pid), ptr).live(pid as int),
        k.reaped(k.zombie_child_index(pid), ptr).wait_result(pid) == -1,
{
    let c = k.current->0 as int;
    let kids = k.cur().children;
    let wanted = |x: usize| pid_matches(pid, x) && k.task(x as int).status == TaskStatus::Zombie;
    lemma_first_index(kids, wanted);
    let idx = k.zombie_child_index(pid);
    assert(wanted(kids[idx]));
    assert(kids[idx] == pid);
    assert(k.live(c));
    assert(k.task_ok(c));
    lemma_reaped_wf(k, idx, ptr);
    let k2 = k.reaped(idx, ptr);
    let kids2 = k2.cur().children;
    assert(kids2 == kids.remove(idx));
    if k2.has_child_matching(pid) {
        let j = choose|j: int| 0 <= j < kids2.len() && pid_matches(pid, #[trigger] kids2[j]);
        let j0 = if j < idx {
            j
        } else {
            j + 1
        };
        assert(kids[j0] == kids[idx]);
    }
}

/// If a task with a child exits, the child runs next and exits in its turn,
/// and then the first task runs, the first task can fetch the child: waitpid
/// with the child's pid returns that pid.
pub proof fn lemma_orphan_reaped_by_root(k: KernelView, code: i32, child: usize, code2: i32)
    requires
        k.running(),
        k.current->0 != ROOT_PID,
        k.cur().children.contains(child),
        k.exited(code).run_next().current == Some(child),
        k.exited(code).run_next().exited(code2).run_next().current == Some(ROOT_PID),
    ensures
        k.exited(code).run_next().exited(code2).run_next().running(),
        k.exited(code).run_next().exited(code2).run_next().wait_result(child as isize) == child,
{
    let k2 = k.exited(code).run_next();
    lemma_exit_hands_children_to_root(k, code, child);
    assert(k2.running());
    assert(child != ROOT_PID);
    let k3 = k2.exited(code2);
    let k4 = k3.run_next();
    lemma_exited_wf(k2, code2);
    lemma_exit_makes_zombie(k2, code2);
    assert(k2.live(ROOT_PID as int));
    lemma_exit_task(k2, code2, ROOT_PID as int);
    assert(k2.task_ok(child as int));
    let merged = k2.task(ROOT_PID as int).children + k2.task(child as int).children;
    let w = choose|w: int|
        0 <= w < k2.task(ROOT_PID as int).children.len() && k2.task(ROOT_PID as int).children[w]
            == child;
    assert(merged[w] == child);
    assert(k3.task(ROOT_PID as int).children.contains(child));
    lemma_run_next_wf(k3);
    lemma_run_next_keeps_family(k3, ROOT_PID as int);
    lemma_zombie_child_reapable(k4, child);
}

/// Nothing refers to a task that does not exist: it is not the current task
/// and not in the ready queue, and no task names it as its parent or lists
/// it as a child. So a pid that is given to a new task, or that a zombie had
/// before it was fetched, is known to nobody.
pub proof fn lemma_no_dangling_reference(k: KernelView, pid: usize, other: int)
    requires
        k.wf(),
        !k.live(pid as int),
        k.live(other),
    ensures
        k.current != Some(pid),
        !k.queued(pid),
        k.task(other).parent != Some(pid),
        !k.task(other).children.contains(pid),
{
    assert(k.task_ok(other));
    if k.queued(pid) {
        let q = choose|q: int| 0 <= q < k.ready.len() && (#[trigger] k.ready[q]).pid == pid;
        assert(k.entry_ok(q));
    }
    if k.task(other).children.contains(pid) {
        let w = choose|w: int|
            0 <= w < k.task(other).children.len() && k.task(other).children[w] == pid;
        assert(k.live(k.task(other).children[w] as int));
    }
}

/// The pid of a new task was never given to a task that still exists, and
/// every task that exists has a smaller pid.
pub proof fn lemma_next_pid_is_fresh(k: KernelView, other: int)
    requires
        k.wf(),
        k.live(other),
    ensures
        !k.live(k.next_pid() as int),
        other < k.next_pid(),
{
}

} // verus!
