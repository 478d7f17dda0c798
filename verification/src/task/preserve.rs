//! Proofs that every step of the kernel keeps its invariant.

use crate::mm::memory_set::MemoryView;
use crate::task::control_block::{TaskStatus, TaskView, TrapContextView};
use crate::task::manager::{
    insert_position, lemma_drop_first_members, lemma_enqueue_members, lemma_enqueue_sorted,
    lemma_insert_position, ReadyTask,
};
use crate::task::model::{KernelView, ROOT_PID};
use vstd::prelude::*;

verus! {

/// Whether `b` is the task `a` with, at most, another address space, other
/// registers, another priority and pass, another exit code and other counts
/// of system calls.
pub open spec fn same_place(a: TaskView, b: TaskView) -> bool {
    &&& a.pid == b.pid
    &&& a.status == b.status
    &&& a.parent == b.parent
    &&& a.children == b.children
    &&& a.stride == b.stride
}

/// Replacing the current task by one that is in order by itself and has the
/// same place in its family and in the schedule keeps the invariant.
pub proof fn lemma_with_task_wf(k: KernelView, t: TaskView)
    requires
        k.running(),
        same_place(k.cur(), t),
        t.wf(),
    ensures
        k.with_task(k.current->0, t).wf(),
        k.with_task(k.current->0, t).current == k.current,
{
    let c = k.current->0 as int;
    let k2 = k.with_task(k.current->0, t);
    assert(k.live(c));
    assert(k.task_ok(c));
    assert forall|pid: int| #[trigger] k2.live(pid) implies k2.task_ok(pid) by {
        assert(k.live(pid));
        assert(k.task_ok(pid));
        let t1 = k.task(pid);
        let t2 = k2.task(pid);
        assert(same_place(t1, t2));
        if pid != ROOT_PID {
            let p = t1.parent->0 as int;
            assert(k.live(p));
            assert(k.task_ok(p));
            assert(same_place(k.task(p), k2.task(p)));
        }
        assert forall|j: int| 0 <= j < t2.children.len() implies k2.live(
            #[trigger] t2.children[j] as int,
        ) && k2.task(t2.children[j] as int).parent == Some(pid as usize) by {
            let ch = t1.children[j] as int;
            assert(k.live(ch));
            assert(k.task_ok(ch));
            assert(same_place(k.task(ch), k2.task(ch)));
        }
    }
    assert forall|q: int| 0 <= q < k2.ready.len() implies #[trigger] k2.entry_ok(q) by {
        assert(k.entry_ok(q));
        let pid = k.ready[q].pid as int;
        assert(k.live(pid));
        assert(same_place(k.task(pid), k2.task(pid)));
    }
}

/// Giving the processor to the task at the front of the ready queue keeps
/// the invariant.
pub proof fn lemma_run_next_wf(k: KernelView)
    requires
        k.wf(),
        k.current is None,
    ensures
        k.run_next().wf(),
        k.ready.len() > 0 ==> k.run_next().current == Some(k.ready[0].pid),
        k.ready.len() == 0 ==> k.run_next() == k,
{
    if k.ready.len() > 0 {
        let e = k.ready[0];
        let n = e.pid as int;
        let k2 = k.run_next();
        assert(k.entry_ok(0));
        lemma_drop_first_members(k.ready);
        assert forall|pid: int| #[trigger] k2.live(pid) implies k2.task_ok(pid) by {
            assert(k.live(pid));
            assert(k.task_ok(pid));
            let t1 = k.task(pid);
            let t2 = k2.task(pid);
            if pid != ROOT_PID {
                let p = t1.parent->0 as int;
                assert(k.live(p));
            }
            assert forall|j: int| 0 <= j < t2.children.len() implies k2.live(
                #[trigger] t2.children[j] as int,
            ) && k2.task(t2.children[j] as int).parent == Some(pid as usize) by {
                let ch = t1.children[j] as int;
                assert(k.live(ch));
            }
            assert(k2.queued(pid as usize) <==> k.queued(pid as usize) && pid != n);
            if pid != n {
                assert(t1.status != TaskStatus::Running);
            }
        }
        assert forall|q: int| 0 <= q < k2.ready.len() implies #[trigger] k2.entry_ok(q) by {
            assert(k.entry_ok(q + 1));
            assert(k.ready[q + 1].pid != k.ready[0].pid);
        }
    }
}

/// Taking the processor from the current task at the end of a quantum keeps
/// the invariant, and leaves a task in the ready queue.
pub proof fn lemma_suspended_wf(k: KernelView)
    requires
        k.running(),
    ensures
        k.suspended().wf(),
        k.suspended().current is None,
        k.suspended().ready.len() > 0,
{
    let c = k.current->0 as int;
    let t = k.cur();
    let k2 = k.suspended();
    let e = ReadyTask { pid: k.current->0, stride: k2.task(c).stride };
    assert(k.live(c));
    assert(k.task_ok(c));
    assert(!k.queued(c as usize));
    lemma_enqueue_members(k.ready, e);
    lemma_enqueue_sorted(k.ready, e);
    lemma_insert_position(k.ready, e.stride);
    let p = insert_position(k.ready, e.stride);
    assert forall|pid: int| #[trigger] k2.live(pid) implies k2.task_ok(pid) by {
        assert(k.live(pid));
        assert(k.task_ok(pid));
        let t1 = k.task(pid);
        let t2 = k2.task(pid);
        if pid != ROOT_PID {
            let p = t1.parent->0 as int;
            assert(k.live(p));
        }
        assert forall|j: int| 0 <= j < t2.children.len() implies k2.live(
            #[trigger] t2.children[j] as int,
        ) && k2.task(t2.children[j] as int).parent == Some(pid as usize) by {
            let ch = t1.children[j] as int;
            assert(k.live(ch));
        }
        assert(k2.queued(pid as usize) <==> k.queued(pid as usize) || pid == c);
    }
    assert forall|q: int| 0 <= q < k2.ready.len() implies #[trigger] k2.entry_ok(q) by {
        if q < p {
            assert(k.entry_ok(q));
            assert(k.queued(k.ready[q].pid));
        } else if q > p {
            assert(k.entry_ok(q - 1));
            assert(k.queued(k.ready[q - 1].pid));
        }
    }
}

/// Creating a child of the current task keeps the invariant.
pub proof fn lemma_with_child_wf(k: KernelView, memory: MemoryView, trap_cx: TrapContextView)
    requires
        k.running(),
        k.has_free_pid(),
        memory.wf(),
        memory.loaded(),
        trap_cx.x.len() == 32,
    ensures
        k.with_child(memory, trap_cx).wf(),
        k.with_child(memory, trap_cx).current == k.current,
        k.with_child(memory, trap_cx).live(k.next_pid() as int),
{
    let c = k.current->0 as int;
    let t = k.cur();
    let n = k.tasks.len() as int;
    let k2 = k.with_child(memory, trap_cx);
    let e = ReadyTask { pid: n as usize, stride: t.stride };
    assert(k.live(c));
    assert(k.task_ok(c));
    assert(!k.queued(n as usize)) by {
        if k.queued(n as usize) {
            let q = choose|q: int| 0 <= q < k.ready.len() && (#[trigger] k.ready[q]).pid == n;
            assert(k.entry_ok(q));
        }
    }
    lemma_enqueue_members(k.ready, e);
    lemma_enqueue_sorted(k.ready, e);
    lemma_insert_position(k.ready, e.stride);
    let p = insert_position(k.ready, e.stride);
    let kids = t.children.push(n as usize);
    assert(kids[t.children.len() as int] == n);
    assert(kids.no_duplicates()) by {
        assert forall|i: int, j: int| 0 <= i < kids.len() && 0 <= j < kids.len() && i
            != j implies kids[i] != kids[j] by {
            if i < t.children.len() {
                assert(k.live(t.children[i] as int));
            }
            if j < t.children.len() {
                assert(k.live(t.children[j] as int));
            }
        }
    }
    assert forall|pid: int| #[trigger] k2.live(pid) implies k2.task_ok(pid) by {
        if pid == n {
            assert(k2.task(n).wf());
            assert(k2.task(c).children.contains(n as usize));
            assert(k2.queued(n as usize));
        } else {
            assert(k.live(pid));
            assert(k.task_ok(pid));
            let t1 = k.task(pid);
            let t2 = k2.task(pid);
            if pid != ROOT_PID {
                let pp = t1.parent->0 as int;
                assert(k.live(pp));
                if pp == c {
                    let w = choose|w: int| 0 <= w < t.children.len() && t.children[w] == pid;
                    assert(kids[w] == pid);
                }
            }
            assert forall|j: int| 0 <= j < t2.children.len() implies k2.live(
                #[trigger] t2.children[j] as int,
            ) && k2.task(t2.children[j] as int).parent == Some(pid as usize) by {
                if j < t1.children.len() {
                    let ch = t1.children[j] as int;
                    assert(k.live(ch));
                }
            }
            assert(k2.queued(pid as usize) <==> k.queued(pid as usize));
        }
    }
    assert forall|q: int| 0 <= q < k2.ready.len() implies #[trigger] k2.entry_ok(q) by {
        if q < p {
            assert(k.entry_ok(q));
        } else if q > p {
            assert(k.entry_ok(q - 1));
        }
    }
}

/// Whether the task `pid` is one whose parent changes when the current
/// task exits.
pub open spec fn is_orphan(k: KernelView, pid: int) -> bool {
    k.current->0 != ROOT_PID && pid != k.current->0 && pid != ROOT_PID && k.cur().children.contains(
        pid as usize,
    )
}

/// The children of the current task are neither that task nor the first
/// task, and none of them is a child of the first task unless the current
/// task is the first task.
pub proof fn lemma_exit_children(k: KernelView)
    requires
        k.running(),
    ensures
        !k.cur().children.contains(k.current->0),
        !k.cur().children.contains(ROOT_PID),
        k.current->0 != ROOT_PID ==> (k.task(ROOT_PID as int).children
            + k.cur().children).no_duplicates(),
        forall|pid: int| #[trigger]
            k.cur().children.contains(pid as usize) && 0 <= pid <= usize::MAX ==> k.live(pid)
                && k.task(pid).parent == Some(k.current->0),
{
    let c = k.current->0 as int;
    let t = k.cur();
    let root = k.task(ROOT_PID as int);
    assert(k.live(c));
    assert(k.task_ok(c));
    assert(k.live(ROOT_PID as int));
    assert(k.task_ok(ROOT_PID as int));
    assert forall|pid: int| #[trigger]
        t.children.contains(pid as usize) && 0 <= pid <= usize::MAX implies k.live(pid) && k.task(
        pid,
    ).parent == Some(k.current->0) by {
        let w = choose|w: int| 0 <= w < t.children.len() && t.children[w] == pid as usize;
        assert(k.live(t.children[w] as int));
    }
    assert(t.children.contains(c as usize) ==> k.task(c).parent == Some(k.current->0));
    assert(t.children.contains(ROOT_PID) ==> k.task(ROOT_PID as int).parent == Some(
        k.current->0,
    ));
    let merged = root.children + t.children;
    if c != ROOT_PID {
        assert forall|i: int, j: int| 0 <= i < merged.len() && 0 <= j < merged.len() && i
            != j implies merged[i] != merged[j] by {
            let n = root.children.len() as int;
            if i < n {
                assert(k.task(root.children[i] as int).parent == Some(ROOT_PID));
            } else {
                assert(k.task(t.children[i - n] as int).parent == Some(c as usize));
            }
            if j < n {
                assert(k.task(root.children[j] as int).parent == Some(ROOT_PID));
            } else {
                assert(k.task(t.children[j - n] as int).parent == Some(c as usize));
            }
        }
    }
}

/// What the exit of the current task makes of the task `pid`.
pub proof fn lemma_exit_task(k: KernelView, code: i32, pid: int)
    requires
        k.running(),
        k.live(pid),
    ensures
        k.exited(code).live(pid),
        pid == k.current->0 ==> k.exited(code).task(pid) == (TaskView {
            status: TaskStatus::Zombie,
            exit_code: code,
            children: if k.current->0 == ROOT_PID {
                k.cur().children
            } else {
                Seq::empty()
            },
            memory: k.cur().memory.released(),
            ..k.cur()
        }),
        pid == ROOT_PID && pid != k.current->0 ==> k.exited(code).task(pid) == (TaskView {
            children: k.task(ROOT_PID as int).children + k.cur().children,
            ..k.task(ROOT_PID as int)
        }),
        is_orphan(k, pid) ==> k.exited(code).task(pid) == (TaskView {
            parent: Some(ROOT_PID),
            ..k.task(pid)
        }),
        pid != k.current->0 && pid != ROOT_PID && !is_orphan(k, pid) ==> k.exited(code).task(pid)
            == k.task(pid),
        pid != k.current->0 && k.current->0 == ROOT_PID ==> k.exited(code).task(pid) == k.task(
            pid,
        ),
{
    lemma_exit_children(k);
    if pid != k.current->0 && k.current->0 == ROOT_PID && k.cur().children.contains(
        pid as usize,
    ) {
        assert(k.task_ok(pid));
    }
}

/// After the exit of the current task, the task `pid` has kept its place in
/// the schedule.
proof fn lemma_exit_schedule(k: KernelView, code: i32, pid: int)
    requires
        k.running(),
        k.live(pid),
    ensures
        k.exited(code).schedule_ok(pid),
        k.exited(code).task(pid).pid == pid,
        k.exited(code).task(pid).wf(),
{
    lemma_exit_task(k, code, pid);
    lemma_exit_children(k);
    assert(k.task_ok(pid));
    assert(k.live(k.current->0 as int));
    assert(k.task_ok(k.current->0 as int));
    assert(k.exited(code).queued(pid as usize) == k.queued(pid as usize));
}

/// After the exit of the current task, the task `pid` has a parent that
/// lists it.
proof fn lemma_exit_parent(k: KernelView, code: i32, pid: int)
    requires
        k.running(),
        k.live(pid),
        pid != ROOT_PID,
    ensures
        k.exited(code).task(pid).parent is Some,
        k.exited(code).task(pid).parent->0 < pid,
        k.exited(code).live(k.exited(code).task(pid).parent->0 as int),
        k.exited(code).task(k.exited(code).task(pid).parent->0 as int).children.contains(
            pid as usize,
        ),
{
    let c = k.current->0 as int;
    let t = k.cur();
    let root = k.task(ROOT_PID as int);
    let k2 = k.exited(code);
    let merged = root.children + t.children;
    lemma_exit_children(k);
    lemma_exit_task(k, code, pid);
    assert(k.task_ok(pid));
    assert(k.live(c));
    assert(k.task_ok(c));
    lemma_exit_task(k, code, ROOT_PID as int);
    let pp = k2.task(pid).parent->0 as int;
    if is_orphan(k, pid) {
        let w = choose|w: int| 0 <= w < t.children.len() && t.children[w] == pid as usize;
        assert(merged[root.children.len() + w] == pid);
    } else {
        let old_parent = k.task(pid).parent->0 as int;
        assert(k2.task(pid).parent == k.task(pid).parent);
        assert(k.live(old_parent));
        lemma_exit_task(k, code, old_parent);
        let w = choose|w: int|
            0 <= w < k.task(old_parent).children.len() && k.task(old_parent).children[w] == pid as usize;
        if old_parent == c {
            assert(c == ROOT_PID || pid == c);
        } else if old_parent == ROOT_PID {
            assert(merged[w] == pid);
        } else {
            if is_orphan(k, old_parent) {
            }
            assert(k2.task(old_parent).children == k.task(old_parent).children);
        }
    }
}

/// After the exit of the current task, each child that the task `pid` lists
/// exists and has it as its parent.
proof fn lemma_exit_kids(k: KernelView, code: i32, pid: int)
    requires
        k.running(),
        k.live(pid),
    ensures
        forall|j: int|
            0 <= j < k.exited(code).task(pid).children.len() ==> k.exited(code).live(
                #[trigger] k.exited(code).task(pid).children[j] as int,
            ) && k.exited(code).task(k.exited(code).task(pid).children[j] as int).parent == Some(
                pid as usize,
            ),
        k.exited(code).task(pid).status == TaskStatus::Zombie && pid != ROOT_PID ==> k.exited(
            code,
        ).task(pid).children.len() == 0,
{
    let c = k.current->0 as int;
    let t = k.cur();
    let root = k.task(ROOT_PID as int);
    let k2 = k.exited(code);
    lemma_exit_children(k);
    lemma_exit_task(k, code, pid);
    assert(k.task_ok(pid));
    assert(k.live(c));
    assert(k.task_ok(c));
    let t2 = k2.task(pid);
    assert forall|j: int| 0 <= j < t2.children.len() implies k2.live(
        #[trigger] t2.children[j] as int,
    ) && k2.task(t2.children[j] as int).parent == Some(pid as usize) by {
        let ch = t2.children[j] as int;
        if pid == ROOT_PID && c != ROOT_PID {
            let n = root.children.len() as int;
            if j < n {
                assert(k.live(root.children[j] as int));
                assert(k.task(root.children[j] as int).parent == Some(ROOT_PID));
                lemma_exit_task(k, code, ch);
            } else {
                assert(k.live(t.children[j - n] as int));
                assert(t.children.contains(ch as usize));
                lemma_exit_task(k, code, ch);
            }
        } else {
            assert(k.live(k.task(pid).children[j] as int));
            assert(k.task(k.task(pid).children[j] as int).parent == Some(pid as usize));
            lemma_exit_task(k, code, ch);
        }
    }
}

/// The exit of the current task keeps the invariant.
pub proof fn lemma_exited_wf(k: KernelView, code: i32)
    requires
        k.running(),
    ensures
        k.exited(code).wf(),
        k.exited(code).current is None,
{
    let k2 = k.exited(code);
    assert(k.live(ROOT_PID as int));
    assert forall|pid: int| #[trigger] k2.live(pid) implies k2.task_ok(pid) by {
        assert(k.live(pid));
        lemma_exit_task(k, code, pid);
        lemma_exit_schedule(k, code, pid);
        lemma_exit_kids(k, code, pid);
        if pid != ROOT_PID {
            lemma_exit_parent(k, code, pid);
        } else {
            assert(k.task_ok(pid));
        }
    }
    assert forall|q: int| 0 <= q < k2.ready.len() implies #[trigger] k2.entry_ok(q) by {
        assert(k.entry_ok(q));
        let pid = k.ready[q].pid as int;
        assert(k.live(pid));
        assert(k.task_ok(pid));
        assert(k.queued(pid as usize));
        assert(k.live(k.current->0 as int));
        lemma_exit_task(k, code, pid);
    }
}

/// Removing a zombie child of the current task, and storing its exit code
/// in the memory of the current task, keeps the invariant.
pub proof fn lemma_reaped_wf(k: KernelView, idx: int, ptr: usize)
    requires
        k.running(),
        0 <= idx < k.cur().children.len(),
        k.task(k.cur().children[idx] as int).status == TaskStatus::Zombie,
    ensures
        k.reaped(idx, ptr).wf(),
        k.reaped(idx, ptr).current == k.current,
        !k.reaped(idx, ptr).live(k.cur().children[idx] as int),
{
    let c = k.current->0 as int;
    let t = k.cur();
    let child = t.children[idx] as int;
    let k2 = k.reaped(idx, ptr);
    assert(k.live(c));
    assert(k.task_ok(c));
    assert(k.live(child));
    assert(k.task_ok(child));
    assert(k.task(child).parent == Some(c as usize));
    assert(child != c && child != ROOT_PID);
    assert(k.task(child).children.len() == 0);
    let kids = t.children.remove(idx);
    assert forall|i: int| 0 <= i < kids.len() implies kids[i] == t.children[if i < idx {
        i
    } else {
        i + 1
    }] by {}
    assert(kids.no_duplicates());
    assert(!kids.contains(child as usize)) by {
        if kids.contains(child as usize) {
            let w = choose|w: int| 0 <= w < kids.len() && kids[w] == child;
            let w0 = if w < idx { w } else { w + 1 };
            assert(t.children[w0] == t.children[idx]);
        }
    }
    crate::mm::memory_set::lemma_write_keeps_layout(
        t.memory,
        ptr as int,
        crate::encoding::exit_code_bytes(k.task(child).exit_code),
    );
    assert forall|pid: int| #[trigger] k2.live(pid) implies k2.task_ok(pid) by {
        assert(k.live(pid));
        assert(k.task_ok(pid));
        assert(pid != child);
        let t1 = k.task(pid);
        let t2 = k2.task(pid);
        assert(k2.queued(pid as usize) == k.queued(pid as usize));
        if pid != ROOT_PID {
            let pp = t1.parent->0 as int;
            assert(k.live(pp));
            assert(k.task_ok(pp));
            assert(pp != child);
            if pp == c {
                let w = choose|w: int| 0 <= w < t.children.len() && t.children[w] == pid;
                let w1 = if w < idx { w } else { w - 1 };
                assert(kids[w1] == pid);
            }
            assert(k2.task(pp).children.contains(pid as usize));
        }
        assert forall|j: int| 0 <= j < t2.children.len() implies k2.live(
            #[trigger] t2.children[j] as int,
        ) && k2.task(t2.children[j] as int).parent == Some(pid as usize) by {
            let j0 = if pid == c && j >= idx { j + 1 } else { j };
            let ch = t1.children[j0] as int;
            assert(t2.children[j] == t1.children[j0]);
            assert(k.live(ch));
            assert(k.task(ch).parent == Some(pid as usize));
            if pid == c {
                assert(kids.contains(ch as usize));
            }
        }
    }
    assert forall|q: int| 0 <= q < k2.ready.len() implies #[trigger] k2.entry_ok(q) by {
        assert(k.entry_ok(q));
    }
}

/// At most one task is running at a time: two tasks that are running are
/// the same task.
pub proof fn lemma_one_running(k: KernelView, a: int, b: int)
    requires
        k.wf(),
        k.live(a),
        k.live(b),
        k.task(a).status == TaskStatus::Running,
        k.task(b).status == TaskStatus::Running,
    ensures
        a == b,
{
    assert(k.task_ok(a));
    assert(k.task_ok(b));
}

/// A task is in exactly one place: in the ready queue, on the processor, or
/// among the zombies.
pub proof fn lemma_one_place(k: KernelView, pid: int)
    requires
        k.wf(),
        k.live(pid),
    ensures
        k.queued(pid as usize) <==> k.task(pid).status == TaskStatus::Ready,
        k.current == Some(pid as usize) <==> k.task(pid).status == TaskStatus::Running,
        !k.queued(pid as usize) && k.current != Some(pid as usize) <==> k.task(pid).status
            == TaskStatus::Zombie,
{
    assert(k.task_ok(pid));
}

} // verus!
