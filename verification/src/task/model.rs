//! The state of all tasks as a value, and what each step of the kernel does
//! to it.

use crate::encoding::exit_code_bytes;
use crate::loader::ProgramView;
use crate::mm::memory_set::MemoryView;
use crate::search::first_index;
use crate::task::control_block::{advanced, TaskStatus, TaskView, TrapContextView, REG_A0};
use crate::task::manager::{distinct_pids, enqueue, queued_in, sorted_by_stride, ReadyTask};
use vstd::prelude::*;

verus! {

/// The pid of the first task, which takes over the children of tasks that
/// exit.
pub const ROOT_PID: usize = 0;

/// Whether a call of `waitpid` with the argument `pid` asks for the child
/// `child`: -1 asks for any child.
pub open spec fn pid_matches(pid: isize, child: usize) -> bool {
    pid == -1 || pid == child
}

/// The state of all tasks as a value: the tasks by pid (none where a task
/// was waited for and is gone), the ready queue, the task that runs, and the
/// programs that can be loaded.
pub struct KernelView {
    pub tasks: Seq<Option<TaskView>>,
    pub ready: Seq<ReadyTask>,
    pub current: Option<usize>,
    pub programs: Seq<ProgramView>,
}

impl KernelView {
    /// Whether there is a task `pid`.
    pub open spec fn live(self, pid: int) -> bool {
        0 <= pid < self.tasks.len() && self.tasks[pid] is Some
    }

    /// The task `pid`.
    pub open spec fn task(self, pid: int) -> TaskView {
        self.tasks[pid]->0
    }

    /// The task that runs.
    pub open spec fn cur(self) -> TaskView {
        self.task(self.current->0 as int)
    }

    /// Whether the task `pid` is in the ready queue.
    pub open spec fn queued(self, pid: usize) -> bool {
        queued_in(self.ready, pid)
    }

    /// A task other than the first has a parent, which is older than it and
    /// lists it as a child; each child that a task lists exists and has it
    /// as its parent; a zombie other than the first task has no children.
    pub open spec fn family_ok(self, pid: int) -> bool {
        let t = self.task(pid);
        &&& pid == ROOT_PID ==> t.parent is None
        &&& pid != ROOT_PID ==> {
            &&& t.parent is Some
            &&& t.parent->0 < pid
            &&& self.live(t.parent->0 as int)
            &&& self.task(t.parent->0 as int).children.contains(pid as usize)
        }
        &&& forall|k: int|
            0 <= k < t.children.len() ==> self.live(#[trigger] t.children[k] as int) && self.task(
                t.children[k] as int,
            ).parent == Some(pid as usize)
        &&& t.status == TaskStatus::Zombie && pid != ROOT_PID ==> t.children.len() == 0
    }

    /// A task is running exactly if it is the current task, and ready
    /// exactly if it is in the ready queue.
    pub open spec fn schedule_ok(self, pid: int) -> bool {
        let t = self.task(pid);
        &&& t.status == TaskStatus::Running <==> self.current == Some(pid as usize)
        &&& t.status == TaskStatus::Ready <==> self.queued(pid as usize)
    }

    /// What holds of the task `pid`.
    pub open spec fn task_ok(self, pid: int) -> bool {
        &&& self.task(pid).pid == pid
        &&& self.task(pid).wf()
        &&& self.family_ok(pid)
        &&& self.schedule_ok(pid)
    }

    /// The task at place `q` of the ready queue exists, is ready, and has
    /// the stride with which it was queued.
    pub open spec fn entry_ok(self, q: int) -> bool {
        let e = self.ready[q];
        &&& self.live(e.pid as int)
        &&& self.task(e.pid as int).status == TaskStatus::Ready
        &&& self.task(e.pid as int).stride == e.stride
    }

    /// The invariant of the kernel: the first task exists; every task is in
    /// order by itself, in its family and in its schedule; the ready queue
    /// is sorted by stride and holds ready tasks, none of them twice; the
    /// current task, if any, exists.
    pub open spec fn wf(self) -> bool {
        &&& 1 <= self.tasks.len() <= isize::MAX
        &&& self.live(ROOT_PID as int)
        &&& forall|pid: int| #[trigger] self.live(pid) ==> self.task_ok(pid)
        &&& sorted_by_stride(self.ready)
        &&& distinct_pids(self.ready)
        &&& forall|q: int| 0 <= q < self.ready.len() ==> #[trigger] self.entry_ok(q)
        &&& self.current is Some ==> self.live(self.current->0 as int)
    }

    /// Whether a task runs and the kernel is in order.
    pub open spec fn running(self) -> bool {
        self.wf() && self.current is Some
    }

    /// The state with `t` in place of the task `pid`.
    pub open spec fn with_task(self, pid: usize, t: TaskView) -> KernelView {
        KernelView { tasks: self.tasks.update(pid as int, Some(t)), ..self }
    }

    /// The state with `memory` as the address space of the current task.
    pub open spec fn with_cur_memory(self, memory: MemoryView) -> KernelView {
        self.with_task(self.current->0, TaskView { memory, ..self.cur() })
    }

    /// The state after the processor was given to the task at the front of
    /// the ready queue; the same state where no task is ready.
    pub open spec fn run_next(self) -> KernelView {
        if self.ready.len() == 0 {
            self
        } else {
            let e = self.ready[0];
            KernelView {
                tasks: self.tasks.update(
                    e.pid as int,
                    Some(TaskView { status: TaskStatus::Running, ..self.task(e.pid as int) }),
                ),
                ready: self.ready.drop_first(),
                current: Some(e.pid),
                ..self
            }
        }
    }

    /// The state after the current task gave up the processor at the end of
    /// a quantum: its stride is advanced by its pass and it waits in the
    /// ready queue.
    pub open spec fn suspended(self) -> KernelView {
        let c = self.current->0;
        let t = self.cur();
        let stride = advanced(t.stride, t.pass);
        KernelView {
            tasks: self.tasks.update(
                c as int,
                Some(TaskView { status: TaskStatus::Ready, stride, ..t }),
            ),
            ready: enqueue(self.ready, ReadyTask { pid: c, stride }),
            current: None,
            ..self
        }
    }

    /// The state after the current task exited with `code`: it is a zombie
    /// without address space, and its children, unless it is the first task,
    /// are children of the first task, behind those that it had.
    pub open spec fn exited(self, code: i32) -> KernelView {
        let c = self.current->0;
        let t = self.cur();
        let root = self.task(ROOT_PID as int);
        KernelView {
            tasks: Seq::new(
                self.tasks.len(),
                |i: int|
                    if i == c {
                        Some(
                            TaskView {
                                status: TaskStatus::Zombie,
                                exit_code: code,
                                children: if c == ROOT_PID {
                                    t.children
                                } else {
                                    Seq::empty()
                                },
                                memory: t.memory.released(),
                                ..t
                            },
                        )
                    } else if i == ROOT_PID {
                        Some(TaskView { children: root.children + t.children, ..root })
                    } else if t.children.contains(i as usize) {
                        Some(TaskView { parent: Some(ROOT_PID), ..self.task(i) })
                    } else {
                        self.tasks[i]
                    },
            ),
            current: None,
            ..self
        }
    }

    /// The pid that the next new task gets.
    pub open spec fn next_pid(self) -> usize {
        self.tasks.len() as usize
    }

    /// Whether there is a pid left for a new task.
    pub open spec fn has_free_pid(self) -> bool {
        self.tasks.len() < isize::MAX
    }

    /// The state with a new child of the current task, which has the
    /// address space `memory` and the registers `trap_cx`, the priority and
    /// the stride of its parent, and waits in the ready queue.
    pub open spec fn with_child(self, memory: MemoryView, trap_cx: TrapContextView) -> KernelView {
        let c = self.current->0;
        let t = self.cur();
        let pid = self.next_pid();
        KernelView {
            tasks: self.tasks.update(
                c as int,
                Some(TaskView { children: t.children.push(pid), ..t }),
            ).push(Some(TaskView::fresh(pid, Some(c), memory, trap_cx, t.priority, t.stride))),
            ready: enqueue(self.ready, ReadyTask { pid, stride: t.stride }),
            ..self
        }
    }

    /// The state after the current task forked: the child has a copy of the
    /// address space and of the registers, but for the result register,
    /// which holds 0.
    pub open spec fn forked(self) -> KernelView {
        self.with_child(self.cur().memory, self.cur().trap_cx.with_reg(REG_A0 as int, 0))
    }

    /// The state after the current task spawned the program `image`: the
    /// child has a freshly loaded address space.
    pub open spec fn spawned(self, image: Seq<u8>) -> KernelView {
        let memory = MemoryView::of_image(image);
        self.with_child(memory, TrapContextView::initial(0, memory.heap_bottom))
    }

    /// The state after the current task replaced its program by `image`:
    /// same pid, same parent and children, a freshly loaded address space
    /// and fresh registers.
    pub open spec fn execed(self, image: Seq<u8>) -> KernelView {
        let memory = MemoryView::of_image(image);
        self.with_task(
            self.current->0,
            TaskView {
                memory,
                trap_cx: TrapContextView::initial(0, memory.heap_bottom),
                ..self.cur()
            },
        )
    }

    /// Whether the current task has a child that `pid` asks for.
    pub open spec fn has_child_matching(self, pid: isize) -> bool {
        exists|k: int|
            0 <= k < self.cur().children.len() && pid_matches(
                pid,
                #[trigger] self.cur().children[k],
            )
    }

    /// Place, among the children of the current task, of the first zombie
    /// that `pid` asks for; the number of children where there is none.
    pub open spec fn zombie_child_index(self, pid: isize) -> int {
        first_index(
            self.cur().children,
            |c: usize| pid_matches(pid, c) && self.task(c as int).status == TaskStatus::Zombie,
        )
    }

    /// What `waitpid` returns: -1 where the current task has no child that
    /// `pid` asks for, -2 where it has one but none that is a zombie, else
    /// the pid of the first such zombie.
    pub open spec fn wait_result(self, pid: isize) -> int {
        if !self.has_child_matching(pid) {
            -1
        } else if self.zombie_child_index(pid) >= self.cur().children.len() {
            -2
        } else {
            self.cur().children[self.zombie_child_index(pid)] as int
        }
    }

    /// The state after the current task fetched the exit code of its child
    /// at place `idx`: the child is gone, and its exit code stands at `ptr`
    /// in the memory of the current task.
    pub open spec fn reaped(self, idx: int, ptr: usize) -> KernelView {
        let c = self.current->0;
        let t = self.cur();
        let child = t.children[idx];
        let code = self.task(child as int).exit_code;
        KernelView {
            tasks: self.tasks.update(
                c as int,
                Some(
                    TaskView {
                        children: t.children.remove(idx),
                        memory: t.memory.write(ptr as int, exit_code_bytes(code)),
                        ..t
                    },
                ),
            ).update(child as int, None),
            ..self
        }
    }
}

} // verus!
