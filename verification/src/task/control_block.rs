//! The record that the kernel keeps of one task.

use crate::config::{BIG_STRIDE, MAX_SYSCALL_NUM};
use crate::mm::memory_set::{MemorySet, MemoryView};
use vstd::prelude::*;

verus! {

/// Where a task is in its life.
#[derive(Clone, Copy, Debug, PartialEq, Eq, Structural)]
pub enum TaskStatus {
    /// Waits in the ready queue for the processor.
    Ready,
    /// Has the processor.
    Running,
    /// Has exited and waits for its parent to fetch the exit code.
    Zombie,
}

/// Number of the register that holds the stack pointer.
pub const REG_SP: usize = 2;

/// Number of the register that holds the first argument of a call and its
/// result.
pub const REG_A0: usize = 10;

/// The user registers of a task as they were saved when it last entered the
/// kernel.
#[derive(Clone, Copy, Debug)]
pub struct TrapContext {
    /// The general registers.
    pub x: [usize; 32],
    /// Address of the instruction at which the task goes on.
    pub sepc: usize,
}

/// A trap context as a value.
pub struct TrapContextView {
    pub x: Seq<usize>,
    pub sepc: usize,
}

impl TrapContextView {
    /// The context of a task that starts at `entry` with its stack pointer
    /// at `sp` and zero in every other register.
    pub open spec fn initial(entry: usize, sp: usize) -> TrapContextView {
        TrapContextView {
            x: Seq::new(
                32,
                |i: int|
                    if i == REG_SP {
                        sp
                    } else {
                        0usize
                    },
            ),
            sepc: entry,
        }
    }

    /// The context with `value` in register `reg`.
    pub open spec fn with_reg(self, reg: int, value: usize) -> TrapContextView {
        TrapContextView { x: self.x.update(reg, value), ..self }
    }
}

impl View for TrapContext {
    type V = TrapContextView;

    open spec fn view(&self) -> TrapContextView {
        TrapContextView { x: self.x@, sepc: self.sepc }
    }
}

impl TrapContext {
    /// The context of a task that starts at `entry` with its stack pointer
    /// at `sp`.
    pub fn app_init_context(entry: usize, sp: usize) -> (cx: Self)
        ensures
            cx@ == TrapContextView::initial(entry, sp),
    {
        let mut x = [0usize;32];
        x[REG_SP] = sp;
        let cx = TrapContext { x, sepc: entry };
        assert(cx@.x =~= TrapContextView::initial(entry, sp).x);
        cx
    }
}

/// The stride of a task after it ran for one quantum: larger by its pass,
/// and the largest number there is where that would not fit.
pub open spec fn advanced(stride: usize, pass: usize) -> usize {
    if stride + pass > usize::MAX {
        usize::MAX
    } else {
        (stride + pass) as usize
    }
}

/// Computes `advanced`.
pub fn advance_stride(stride: usize, pass: usize) -> (next: usize)
    ensures
        next == advanced(stride, pass),
        next >= stride,
{
    if usize::MAX - stride < pass {
        usize::MAX
    } else {
        stride + pass
    }
}

/// A task as a value.
pub struct TaskView {
    pub pid: usize,
    pub status: TaskStatus,
    pub parent: Option<usize>,
    pub children: Seq<usize>,
    pub memory: MemoryView,
    pub trap_cx: TrapContextView,
    pub exit_code: i32,
    pub priority: usize,
    pub pass: usize,
    pub stride: usize,
    pub syscall_times: Seq<u32>,
}

impl TaskView {
    /// What holds of every task by itself: its priority is 2 or more and its
    /// pass is `BIG_STRIDE` divided by it; its address space is well formed,
    /// that of a loaded program while the task is ready or running, and
    /// without regions once it is a zombie; it counts every kind of system
    /// call; none of its children is listed twice.
    pub open spec fn wf(self) -> bool {
        &&& self.priority >= 2
        &&& self.pass == BIG_STRIDE / self.priority
        &&& self.memory.wf()
        &&& self.status != TaskStatus::Zombie ==> self.memory.loaded()
        &&& self.status == TaskStatus::Zombie ==> self.memory.areas.len() == 0
        &&& self.trap_cx.x.len() == 32
        &&& self.syscall_times.len() == MAX_SYSCALL_NUM
        &&& self.children.no_duplicates()
    }

    /// A new task that is ready to run: it has no children, has made no
    /// system call, and starts at `entry` with its stack pointer at `sp`.
    pub open spec fn fresh(
        pid: usize,
        parent: Option<usize>,
        memory: MemoryView,
        trap_cx: TrapContextView,
        priority: usize,
        stride: usize,
    ) -> TaskView {
        TaskView {
            pid,
            status: TaskStatus::Ready,
            parent,
            children: Seq::empty(),
            memory,
            trap_cx,
            exit_code: 0,
            priority,
            pass: BIG_STRIDE / priority,
            stride,
            syscall_times: Seq::new(MAX_SYSCALL_NUM as nat, |i: int| 0u32),
        }
    }
}

/// The record that the kernel keeps of one task.
pub struct TaskControlBlock {
    /// Number by which the task is known.
    pub pid: usize,
    /// Where the task is in its life.
    pub status: TaskStatus,
    /// The task that created this one; none for the first task.
    pub parent: Option<usize>,
    /// The tasks that this one created and has not waited for, oldest first.
    pub children: Vec<usize>,
    /// The address space of the task.
    pub memory_set: MemorySet,
    /// The saved user registers.
    pub trap_cx: TrapContext,
    /// What the task handed to `exit`.
    pub exit_code: i32,
    /// The share of the processor that the task asked for.
    pub priority: usize,
    /// By how much a quantum advances the task's stride.
    pub pass: usize,
    /// The task's virtual time: the ready task with the least stride runs
    /// next.
    pub stride: usize,
    /// How often the task made each system call.
    pub syscall_times: Vec<u32>,
}

impl View for TaskControlBlock {
    type V = TaskView;

    open spec fn view(&self) -> TaskView {
        TaskView {
            pid: self.pid,
            status: self.status,
            parent: self.parent,
            children: self.children@,
            memory: self.memory_set@,
            trap_cx: self.trap_cx@,
            exit_code: self.exit_code,
            priority: self.priority,
            pass: self.pass,
            stride: self.stride,
            syscall_times: self.syscall_times@,
        }
    }
}

impl TaskControlBlock {
    /// Creates the record of a new task that is ready to run.
    pub fn new(
        pid: usize,
        parent: Option<usize>,
        memory_set: MemorySet,
        trap_cx: TrapContext,
        priority: usize,
        stride: usize,
    ) -> (task: Self)
        requires
            priority >= 2,
        ensures
            task@ == TaskView::fresh(pid, parent, memory_set@, trap_cx@, priority, stride),
    {
        let syscall_times = vec![0u32; MAX_SYSCALL_NUM];
        assert(syscall_times@ =~= Seq::new(MAX_SYSCALL_NUM as nat, |i: int| 0u32));
        let children: Vec<usize> = Vec::new();
        assert(children@ =~= Seq::empty());
        TaskControlBlock {
            pid,
            status: TaskStatus::Ready,
            parent,
            children,
            memory_set,
            trap_cx,
            exit_code: 0,
            priority,
            pass: BIG_STRIDE / priority,
            stride,
            syscall_times,
        }
    }

    /// The pid of the task.
    pub fn getpid(&self) -> (pid: usize)
        ensures
            pid == self@.pid,
    {
        self.pid
    }

    /// Whether the task has exited.
    pub fn is_zombie(&self) -> (zombie: bool)
        ensures
            zombie == (self@.status == TaskStatus::Zombie),
    {
        self.status == TaskStatus::Zombie
    }
}

} // verus!
