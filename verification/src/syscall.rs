//! The system calls: what a task can ask of the kernel, and the one place
//! through which every request goes.

pub mod process;

use crate::config::MAX_SYSCALL_NUM;
use crate::mm::user::{has_str, is_range_writable, is_user_str};
use crate::syscall::process::{
    sys_exec, sys_exit, sys_fork, sys_get_time, sys_getpid, sys_mmap, sys_munmap, sys_sbrk,
    sys_set_priority, sys_spawn, sys_task_info, sys_waitpid, sys_yield, TaskInfoView, TimeVal,
    TASK_INFO_SIZE, TIME_VAL_SIZE,
};
use crate::task::control_block::{TaskStatus, TaskView};
use crate::task::kernel::Kernel;
use crate::task::model::KernelView;
use crate::task::preserve::lemma_with_task_wf;
use vstd::prelude::*;

verus! {

/// Number of the system call to exit.
pub const SYSCALL_EXIT: usize = 93;

/// Number of the system call to give up the processor.
pub const SYSCALL_YIELD: usize = 124;

/// Number of the system call to set the priority of the task.
pub const SYSCALL_SET_PRIORITY: usize = 140;

/// Number of the system call to get the time of day.
pub const SYSCALL_GET_TIME: usize = 169;

/// Number of the system call to get the pid of the task.
pub const SYSCALL_GETPID: usize = 172;

/// Number of the system call to move the end of the heap.
pub const SYSCALL_SBRK: usize = 214;

/// Number of the system call to unmap memory.
pub const SYSCALL_MUNMAP: usize = 215;

/// Number of the system call to fork.
pub const SYSCALL_FORK: usize = 220;

/// Number of the system call to run another program in the task.
pub const SYSCALL_EXEC: usize = 221;

/// Number of the system call to map memory.
pub const SYSCALL_MMAP: usize = 222;

/// Number of the system call to wait for a child.
pub const SYSCALL_WAITPID: usize = 260;

/// Number of the system call to run a program in a new task.
pub const SYSCALL_SPAWN: usize = 400;

/// Number of the system call to learn about the task itself.
pub const SYSCALL_TASK_INFO: usize = 410;

/// A request of a task to the kernel, with its arguments.
#[derive(Clone, Copy, Debug)]
pub enum Syscall {
    /// End the task with an exit code.
    Exit { exit_code: i32 },
    /// Give up the processor for the rest of the quantum.
    Yield,
    /// Tell the pid of the task.
    GetPid,
    /// Create a copy of the task as its child.
    Fork,
    /// Run the program whose name stands at `path` in place of the task's.
    Exec { path: usize },
    /// Fetch the exit code of a child that has exited, and store it at
    /// `exit_code_ptr`.
    WaitPid { pid: isize, exit_code_ptr: usize },
    /// Store the time of day at `ts`.
    GetTime { ts: usize, tz: usize },
    /// Store at `ti` what the task may learn about itself.
    TaskInfo { ti: usize },
    /// Map `len` bytes from `start` on with the permission bits `port`.
    Mmap { start: usize, len: usize, port: usize },
    /// Unmap `len` bytes from `start` on.
    Munmap { start: usize, len: usize },
    /// Move the end of the heap by `size` bytes.
    Sbrk { size: i32 },
    /// Run the program whose name stands at `path` in a new child.
    Spawn { path: usize },
    /// Set the priority of the task.
    SetPriority { prio: isize },
}

impl Syscall {
    /// The number of the system call.
    pub open spec fn id(self) -> usize {
        match self {
            Syscall::Exit { .. } => SYSCALL_EXIT,
            Syscall::Yield => SYSCALL_YIELD,
            Syscall::GetPid => SYSCALL_GETPID,
            Syscall::Fork => SYSCALL_FORK,
            Syscall::Exec { .. } => SYSCALL_EXEC,
            Syscall::WaitPid { .. } => SYSCALL_WAITPID,
            Syscall::GetTime { .. } => SYSCALL_GET_TIME,
            Syscall::TaskInfo { .. } => SYSCALL_TASK_INFO,
            Syscall::Mmap { .. } => SYSCALL_MMAP,
            Syscall::Munmap { .. } => SYSCALL_MUNMAP,
            Syscall::Sbrk { .. } => SYSCALL_SBRK,
            Syscall::Spawn { .. } => SYSCALL_SPAWN,
            Syscall::SetPriority { .. } => SYSCALL_SET_PRIORITY,
        }
    }

    /// Computes `id`.
    pub fn number(&self) -> (id: usize)
        ensures
            id == self.id(),
            id < MAX_SYSCALL_NUM,
    {
        match self {
            Syscall::Exit { .. } => SYSCALL_EXIT,
            Syscall::Yield => SYSCALL_YIELD,
            Syscall::GetPid => SYSCALL_GETPID,
            Syscall::Fork => SYSCALL_FORK,
            Syscall::Exec { .. } => SYSCALL_EXEC,
            Syscall::WaitPid { .. } => SYSCALL_WAITPID,
            Syscall::GetTime { .. } => SYSCALL_GET_TIME,
            Syscall::TaskInfo { .. } => SYSCALL_TASK_INFO,
            Syscall::Mmap { .. } => SYSCALL_MMAP,
            Syscall::Munmap { .. } => SYSCALL_MUNMAP,
            Syscall::Sbrk { .. } => SYSCALL_SBRK,
            Syscall::Spawn { .. } => SYSCALL_SPAWN,
            Syscall::SetPriority { .. } => SYSCALL_SET_PRIORITY,
        }
    }

    /// The request that the number `id` and the argument registers stand
    /// for; none where no system call has the number `id`.
    pub open spec fn of_registers(id: usize, a0: usize, a1: usize, a2: usize) -> Option<
        Syscall,
    > {
        if id == SYSCALL_EXIT {
            Some(Syscall::Exit { exit_code: a0 as i32 })
        } else if id == SYSCALL_YIELD {
            Some(Syscall::Yield)
        } else if id == SYSCALL_GETPID {
            Some(Syscall::GetPid)
        } else if id == SYSCALL_FORK {
            Some(Syscall::Fork)
        } else if id == SYSCALL_EXEC {
            Some(Syscall::Exec { path: a0 })
        } else if id == SYSCALL_WAITPID {
            Some(Syscall::WaitPid { pid: a0 as isize, exit_code_ptr: a1 })
        } else if id == SYSCALL_GET_TIME {
            Some(Syscall::GetTime { ts: a0, tz: a1 })
        } else if id == SYSCALL_TASK_INFO {
            Some(Syscall::TaskInfo { ti: a0 })
        } else if id == SYSCALL_MMAP {
            Some(Syscall::Mmap { start: a0, len: a1, port: a2 })
        } else if id == SYSCALL_MUNMAP {
            Some(Syscall::Munmap { start: a0, len: a1 })
        } else if id == SYSCALL_SBRK {
            Some(Syscall::Sbrk { size: a0 as i32 })
        } else if id == SYSCALL_SPAWN {
            Some(Syscall::Spawn { path: a0 })
        } else if id == SYSCALL_SET_PRIORITY {
            Some(Syscall::SetPriority { prio: a0 as isize })
        } else {
            None
        }
    }

    /// Computes `of_registers`.
    pub fn decode(id: usize, args: [usize; 3]) -> (call: Option<Syscall>)
        ensures
            call == Self::of_registers(id, args[0], args[1], args[2]),
    {
        if id == SYSCALL_EXIT {
            Some(Syscall::Exit { exit_code: args[0] as i32 })
        } else if id == SYSCALL_YIELD {
            Some(Syscall::Yield)
        } else if id == SYSCALL_GETPID {
            Some(Syscall::GetPid)
        } else if id == SYSCALL_FORK {
            Some(Syscall::Fork)
        } else if id == SYSCALL_EXEC {
            Some(Syscall::Exec { path: args[0] })
        } else if id == SYSCALL_WAITPID {
            Some(Syscall::WaitPid { pid: args[0] as isize, exit_code_ptr: args[1] })
        } else if id == SYSCALL_GET_TIME {
            Some(Syscall::GetTime { ts: args[0], tz: args[1] })
        } else if id == SYSCALL_TASK_INFO {
            Some(Syscall::TaskInfo { ti: args[0] })
        } else if id == SYSCALL_MMAP {
            Some(Syscall::Mmap { start: args[0], len: args[1], port: args[2] })
        } else if id == SYSCALL_MUNMAP {
            Some(Syscall::Munmap { start: args[0], len: args[1] })
        } else if id == SYSCALL_SBRK {
            Some(Syscall::Sbrk { size: args[0] as i32 })
        } else if id == SYSCALL_SPAWN {
            Some(Syscall::Spawn { path: args[0] })
        } else if id == SYSCALL_SET_PRIORITY {
            Some(Syscall::SetPriority { prio: args[0] as isize })
        } else {
            None
        }
    }
}

/// A counter after one more call: larger by one, unless it holds the
/// largest number there is.
pub open spec fn bumped(count: u32) -> u32 {
    if count == u32::MAX {
        count
    } else {
        (count + 1) as u32
    }
}

impl KernelView {
    /// The state after the current task was charged with one more call of
    /// the system call number `id`.
    pub open spec fn counted(self, id: usize) -> KernelView {
        self.with_task(
            self.current->0,
            TaskView {
                syscall_times: self.cur().syscall_times.update(
                    id as int,
                    bumped(self.cur().syscall_times[id as int]),
                ),
                ..self.cur()
            },
        )
    }

    /// Whether the kernel can serve the request `call` of the current task:
    /// the addresses that the request hands over are ones that the task may
    /// use, and a request for a new task finds a pid left.
    pub open spec fn accepts(self, call: Syscall) -> bool {
        match call {
            Syscall::Fork => self.has_free_pid(),
            Syscall::Exec { path } => has_str(self.cur().memory, path as int),
            Syscall::Spawn { path } => self.has_free_pid() && has_str(
                self.cur().memory,
                path as int,
            ),
            Syscall::WaitPid { pid, exit_code_ptr } => self.wait_result(pid) >= 0
                ==> self.cur().memory.range_writable(exit_code_ptr as int, 4),
            Syscall::GetTime { ts, .. } => self.cur().memory.range_writable(
                ts as int,
                TIME_VAL_SIZE as int,
            ),
            Syscall::TaskInfo { ti } => self.cur().memory.range_writable(
                ti as int,
                TASK_INFO_SIZE as int,
            ),
            _ => true,
        }
    }

    /// What the current task gets back from the request `call`; nothing
    /// from the request to exit, which does not return.
    pub open spec fn answer(self, call: Syscall) -> Option<int> {
        let memory = self.cur().memory;
        match call {
            Syscall::Exit { .. } => None,
            Syscall::Yield => Some(0),
            Syscall::GetPid => Some(self.current->0 as int),
            Syscall::Fork => Some(self.next_pid() as int),
            Syscall::Exec { path } => Some(
                if self.program_at(path as int) is Some {
                    0
                } else {
                    -1
                },
            ),
            Syscall::WaitPid { pid, .. } => Some(self.wait_result(pid)),
            Syscall::GetTime { .. } => Some(0),
            Syscall::TaskInfo { .. } => Some(0),
            Syscall::Mmap { start, len, port } => Some(
                if memory.mmap_ok(start as int, len as int, port) {
                    0
                } else {
                    -1
                },
            ),
            Syscall::Munmap { start, len } => Some(
                if memory.munmap_ok(start as int, len as int) {
                    0
                } else {
                    -1
                },
            ),
            Syscall::Sbrk { size } => Some(
                if memory.brk_ok(size as int) {
                    (memory.program_brk as isize) as int
                } else {
                    -1
                },
            ),
            Syscall::Spawn { path } => Some(
                if self.program_at(path as int) is Some {
                    self.next_pid() as int
                } else {
                    -1
                },
            ),
            Syscall::SetPriority { prio } => Some(
                if prio <= 1 {
                    -1
                } else {
                    prio as int
                },
            ),
        }
    }

    /// The state after the kernel served the request `call` of the current
    /// task at the time `now_us`, given in microseconds. A request that is
    /// refused changes nothing.
    pub open spec fn served(self, call: Syscall, now_us: usize) -> KernelView {
        let memory = self.cur().memory;
        match call {
            Syscall::Exit { exit_code } => self.exited(exit_code).run_next(),
            Syscall::Yield => self.suspended().run_next(),
            Syscall::GetPid => self,
            Syscall::Fork => self.forked(),
            Syscall::Exec { path } => match self.program_at(path as int) {
                Some(image) => self.execed(image),
                None => self,
            },
            Syscall::WaitPid { pid, exit_code_ptr } => if self.wait_result(pid) >= 0 {
                self.reaped(self.zombie_child_index(pid), exit_code_ptr)
            } else {
                self
            },
            Syscall::GetTime { ts, .. } => self.with_cur_memory(
                memory.write(ts as int, TimeVal::of_us(now_us).bytes()),
            ),
            Syscall::TaskInfo { ti } => self.with_cur_memory(
                memory.write(
                    ti as int,
                    (TaskInfoView {
                        status: TaskStatus::Running,
                        syscall_times: self.cur().syscall_times,
                        time: now_us / 1000,
                    }).bytes(),
                ),
            ),
            Syscall::Mmap { start, len, port } => if memory.mmap_ok(
                start as int,
                len as int,
                port,
            ) {
                self.with_cur_memory(memory.mmap(start as int, len as int, port))
            } else {
                self
            },
            Syscall::Munmap { start, len } => if memory.munmap_ok(start as int, len as int) {
                self.with_cur_memory(memory.munmap(start as int, len as int))
            } else {
                self
            },
            Syscall::Sbrk { size } => if memory.brk_ok(size as int) {
                self.with_cur_memory(memory.moved_brk(size as int))
            } else {
                self
            },
            Syscall::Spawn { path } => match self.program_at(path as int) {
                Some(image) => self.spawned(image),
                None => self,
            },
            Syscall::SetPriority { prio } => if prio <= 1 {
                self
            } else {
                self.with_priority(prio as usize)
            },
        }
    }
}

/// Charging the current task with a system call keeps the invariant, and
/// changes nothing that decides whether and how a request is served.
pub proof fn lemma_counted(k: KernelView, id: usize)
    requires
        k.running(),
        id < MAX_SYSCALL_NUM,
    ensures
        k.counted(id).running(),
        k.counted(id).current == k.current,
        k.counted(id).cur().memory == k.cur().memory,
        k.counted(id).cur().children == k.cur().children,
        k.counted(id).programs == k.programs,
        k.counted(id).has_free_pid() == k.has_free_pid(),
        forall|call: Syscall| #[trigger] k.accepts(call) ==> k.counted(id).accepts(call),
{
    let c = k.current->0 as int;
    assert(k.live(c));
    assert(k.task_ok(c));
    let t = TaskView {
        syscall_times: k.cur().syscall_times.update(
            id as int,
            bumped(k.cur().syscall_times[id as int]),
        ),
        ..k.cur()
    };
    lemma_with_task_wf(k, t);
    let k2 = k.counted(id);
    assert forall|pid: isize| #[trigger] k2.wait_result(pid) == k.wait_result(pid) by {
        let kids = k.cur().children;
        let w1 = |x: usize|
            crate::task::model::pid_matches(pid, x) && k.task(x as int).status
                == TaskStatus::Zombie;
        let w2 = |x: usize|
            crate::task::model::pid_matches(pid, x) && k2.task(x as int).status
                == TaskStatus::Zombie;
        crate::search::lemma_first_index(kids, w1);
        let r = k.zombie_child_index(pid);
        assert forall|j: int| 0 <= j < kids.len() implies w1(kids[j]) == w2(kids[j]) by {
            assert(k.live(kids[j] as int));
        }
        assert(crate::search::is_first_index(kids, w2, r));
        crate::search::lemma_first_index_unique(kids, w2, r);
        assert(k2.has_child_matching(pid) == k.has_child_matching(pid));
    }
    assert forall|call: Syscall| #[trigger] k.accepts(call) implies k2.accepts(call) by {
        match call {
            Syscall::WaitPid { pid, exit_code_ptr } => {
                assert(k2.wait_result(pid) == k.wait_result(pid));
            },
            _ => {},
        }
    }
}

/// Whatever a task asks of the kernel, serving the request keeps the
/// invariant of the kernel; and a task runs afterwards, unless the request
/// was to exit.
pub proof fn lemma_served_wf(k: KernelView, call: Syscall, now_us: usize)
    requires
        k.running(),
        k.accepts(call),
    ensures
        k.counted(call.id()).served(call, now_us).wf(),
        call !is Exit ==> k.counted(call.id()).served(call, now_us).current is Some,
{
    let id = call.id();
    assert(id < MAX_SYSCALL_NUM);
    lemma_counted(k, id);
    let k1 = k.counted(id);
    let c = k1.current->0 as int;
    assert(k1.live(c));
    assert(k1.task_ok(c));
    let t = k1.cur();
    let memory = t.memory;
    match call {
        Syscall::Exit { exit_code } => {
            crate::task::preserve::lemma_exited_wf(k1, exit_code);
            crate::task::preserve::lemma_run_next_wf(k1.exited(exit_code));
        },
        Syscall::Yield => {
            crate::task::preserve::lemma_suspended_wf(k1);
            crate::task::preserve::lemma_run_next_wf(k1.suspended());
        },
        Syscall::GetPid => {},
        Syscall::Fork => {
            crate::task::preserve::lemma_with_child_wf(
                k1,
                memory,
                t.trap_cx.with_reg(crate::task::control_block::REG_A0 as int, 0),
            );
        },
        Syscall::Exec { path } => {
            match k1.program_at(path as int) {
                Some(image) => {
                    crate::mm::memory_set::lemma_of_image_wf(image);
                    let m = crate::mm::memory_set::MemoryView::of_image(image);
                    lemma_with_task_wf(
                        k1,
                        TaskView {
                            memory: m,
                            trap_cx: crate::task::control_block::TrapContextView::initial(
                                0,
                                m.heap_bottom,
                            ),
                            ..t
                        },
                    );
                },
                None => {},
            }
        },
        Syscall::WaitPid { pid, exit_code_ptr } => {
            if k1.wait_result(pid) >= 0 {
                let wanted = |x: usize|
                    crate::task::model::pid_matches(pid, x) && k1.task(x as int).status
                        == TaskStatus::Zombie;
                crate::search::lemma_first_index(t.children, wanted);
                let idx = k1.zombie_child_index(pid);
                assert(wanted(t.children[idx]));
                crate::task::preserve::lemma_reaped_wf(k1, idx, exit_code_ptr);
            }
        },
        Syscall::GetTime { ts, .. } => {
            let bytes = TimeVal::of_us(now_us).bytes();
            crate::mm::memory_set::lemma_write_keeps_layout(memory, ts as int, bytes);
            crate::syscall::process::lemma_with_cur_memory_wf(k1, memory.write(ts as int, bytes));
        },
        Syscall::TaskInfo { ti } => {
            let bytes = (TaskInfoView {
                status: TaskStatus::Running,
                syscall_times: t.syscall_times,
                time: now_us / 1000,
            }).bytes();
            crate::mm::memory_set::lemma_write_keeps_layout(memory, ti as int, bytes);
            crate::syscall::process::lemma_with_cur_memory_wf(k1, memory.write(ti as int, bytes));
        },
        Syscall::Mmap { start, len, port } => {
            if memory.mmap_ok(start as int, len as int, port) {
                crate::mm::memory_set::lemma_mmap_wf(memory, start as int, len as int, port);
                crate::syscall::process::lemma_with_cur_memory_wf(
                    k1,
                    memory.mmap(start as int, len as int, port),
                );
            }
        },
        Syscall::Munmap { start, len } => {
            if memory.munmap_ok(start as int, len as int) {
                crate::mm::memory_set::lemma_munmap_wf(memory, start as int, len as int);
                crate::syscall::process::lemma_with_cur_memory_wf(
                    k1,
                    memory.munmap(start as int, len as int),
                );
            }
        },
        Syscall::Sbrk { size } => {
            if memory.brk_ok(size as int) {
                crate::mm::memory_set::lemma_moved_brk_wf(memory, size as int);
                crate::syscall::process::lemma_with_cur_memory_wf(
                    k1,
                    memory.moved_brk(size as int),
                );
            }
        },
        Syscall::Spawn { path } => {
            match k1.program_at(path as int) {
                Some(image) => {
                    crate::mm::memory_set::lemma_of_image_wf(image);
                    let m = crate::mm::memory_set::MemoryView::of_image(image);
                    crate::task::preserve::lemma_with_child_wf(
                        k1,
                        m,
                        crate::task::control_block::TrapContextView::initial(0, m.heap_bottom),
                    );
                },
                None => {},
            }
        },
        Syscall::SetPriority { prio } => {
            if prio >= 2 {
                lemma_with_task_wf(
                    k1,
                    TaskView {
                        priority: prio as usize,
                        pass: crate::config::BIG_STRIDE / (prio as usize),
                        ..t
                    },
                );
            }
        },
    }
}

/// Charges the current task with one more call of the system call number
/// `id`.
pub fn count_syscall(k: &mut Kernel, id: usize)
    requires
        old(k)@.running(),
        id < MAX_SYSCALL_NUM,
    ensures
        final(k)@ == old(k)@.counted(id),
        final(k)@.running(),
{
    let cur = k.current_pid();
    proof {
        assert(k@.task_ok(cur as int));
        lemma_counted(k@, id);
    }
    match &mut k.tasks[cur] {
        Some(task) => {
            let count = task.syscall_times[id];
            if count < u32::MAX {
                task.syscall_times[id] = count + 1;
            }
        },
        None => {},
    }
    proof {
        let times = old(k)@.cur().syscall_times;
        assert(k@.cur().syscall_times =~= times.update(id as int, bumped(times[id as int])));
        assert(k@.tasks =~= old(k)@.counted(id).tasks);
    }
}

/// Serves the request `call` of the current task at the time `now_us`,
/// given in microseconds: charges the task with the call and does what the
/// call asks for. Returns what the task gets back; nothing for the request
/// to exit, from which the task does not return.
pub fn syscall(k: &mut Kernel, call: Syscall, now_us: usize) -> (result: Option<isize>)
    requires
        old(k)@.running(),
        old(k)@.accepts(call),
    ensures
        final(k)@ == old(k)@.counted(call.id()).served(call, now_us),
        final(k)@.wf(),
        call !is Exit ==> final(k)@.running(),
        match result {
            Some(value) => old(k)@.counted(call.id()).answer(call) == Some(value as int),
            None => old(k)@.counted(call.id()).answer(call) is None,
        },
{
    let id = call.number();
    proof {
        lemma_counted(k@, id);
    }
    count_syscall(k, id);
    match call {
        Syscall::Exit { exit_code } => {
            sys_exit(k, exit_code);
            None
        },
        Syscall::Yield => Some(sys_yield(k)),
        Syscall::GetPid => Some(sys_getpid(k)),
        Syscall::Fork => Some(sys_fork(k)),
        Syscall::Exec { path } => Some(sys_exec(k, path)),
        Syscall::WaitPid { pid, exit_code_ptr } => Some(sys_waitpid(k, pid, exit_code_ptr)),
        Syscall::GetTime { ts, tz } => Some(sys_get_time(k, ts, tz, now_us)),
        Syscall::TaskInfo { ti } => Some(sys_task_info(k, ti, now_us / 1000)),
        Syscall::Mmap { start, len, port } => Some(sys_mmap(k, start, len, port)),
        Syscall::Munmap { start, len } => Some(sys_munmap(k, start, len)),
        Syscall::Sbrk { size } => Some(sys_sbrk(k, size)),
        Syscall::Spawn { path } => Some(sys_spawn(k, path)),
        Syscall::SetPriority { prio } => Some(sys_set_priority(k, prio)),
    }
}

/// Why the kernel cannot serve a request.
#[derive(Clone, Copy, Debug, PartialEq, Eq, Structural)]
pub enum Fault {
    /// No task runs.
    NoCurrentTask,
    /// The request hands over an address that the task may not use.
    BadAddress,
    /// The request asks for a new task, and no pid is left.
    OutOfPids,
}

impl KernelView {
    /// Why the kernel cannot serve the request `call`; nothing where it can.
    pub open spec fn fault(self, call: Syscall) -> Option<Fault> {
        if self.current is None {
            Some(Fault::NoCurrentTask)
        } else if (call is Fork || call is Spawn) && !self.has_free_pid() {
            Some(Fault::OutOfPids)
        } else if !self.accepts(call) {
            Some(Fault::BadAddress)
        } else {
            None
        }
    }
}

/// Finds out whether the kernel can serve the request `call`, and why not
/// where it cannot.
pub fn check_call(k: &Kernel, call: Syscall) -> (fault: Option<Fault>)
    requires
        k@.wf(),
    ensures
        fault == k@.fault(call),
        fault is None <==> k@.running() && k@.accepts(call),
{
    if k.current.is_none() {
        return Some(Fault::NoCurrentTask);
    }
    assert(k@.task_ok(k@.current->0 as int));
    let has_pid = k.tasks.len() < isize::MAX as usize;
    let memory_set = &k.current_task().memory_set;
    let ok = match call {
        Syscall::Fork => {
            if !has_pid {
                return Some(Fault::OutOfPids);
            }
            true
        },
        Syscall::Spawn { path } => {
            if !has_pid {
                return Some(Fault::OutOfPids);
            }
            is_user_str(memory_set, path)
        },
        Syscall::Exec { path } => is_user_str(memory_set, path),
        Syscall::WaitPid { pid, exit_code_ptr } => match k.find_zombie_child(pid) {
            Ok(_) => is_range_writable(memory_set, exit_code_ptr, 4),
            Err(_) => true,
        },
        Syscall::GetTime { ts, .. } => is_range_writable(memory_set, ts, TIME_VAL_SIZE),
        Syscall::TaskInfo { ti } => is_range_writable(memory_set, ti, TASK_INFO_SIZE),
        _ => true,
    };
    if ok {
        None
    } else {
        Some(Fault::BadAddress)
    }
}

/// Serves the request `call` like `syscall` where the kernel can serve it;
/// else changes nothing and says why it cannot.
pub fn try_syscall(k: &mut Kernel, call: Syscall, now_us: usize) -> (result: Result<
    Option<isize>,
    Fault,
>)
    requires
        old(k)@.wf(),
    ensures
        final(k)@.wf(),
        match result {
            Ok(answer) => {
                &&& old(k)@.fault(call) is None
                &&& final(k)@ == old(k)@.counted(call.id()).served(call, now_us)
                &&& match answer {
                    Some(value) => old(k)@.counted(call.id()).answer(call) == Some(value as int),
                    None => old(k)@.counted(call.id()).answer(call) is None,
                }
            },
            Err(fault) => old(k)@.fault(call) == Some(fault) && final(k)@ == old(k)@,
        },
{
    match check_call(k, call) {
        Some(fault) => Err(fault),
        None => Ok(syscall(k, call, now_us)),
    }
}

} // verus!
