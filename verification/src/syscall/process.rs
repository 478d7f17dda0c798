//! The system calls that manage tasks and their memory.

use crate::config::{page_of, BIG_STRIDE, PAGE_SIZE};
use crate::encoding::{le_bytes, lemma_le_bytes_len, to_le_bytes};
use crate::loader::program_index;
use crate::mm::area::{AreaKind, AreaView, MapPermission};
use crate::mm::memory_set::{lemma_write_keeps_layout, MemoryView};
use crate::mm::user::{copy_to_user, has_str, str_at, translated_str};
use crate::task::control_block::{TaskStatus, TaskView};
use crate::task::kernel::Kernel;
use crate::task::model::KernelView;
use crate::task::preserve::lemma_with_task_wf;
use vstd::prelude::*;

verus! {

/// A time of day, as `sys_get_time` hands it to a task.
#[derive(Debug)]
pub struct TimeVal {
    /// Whole seconds.
    pub sec: usize,
    /// The microseconds beyond them.
    pub usec: usize,
}

/// Number of bytes that a `TimeVal` takes in the memory of a task.
pub const TIME_VAL_SIZE: usize = 16;

impl TimeVal {
    /// The time of day that is `us` microseconds.
    pub open spec fn of_us(us: usize) -> TimeVal {
        TimeVal { sec: us / 1_000_000, usec: us % 1_000_000 }
    }

    /// The bytes of the value in the memory of a task: the seconds and then
    /// the microseconds, each in eight bytes, lowest byte first.
    pub open spec fn bytes(self) -> Seq<u8> {
        le_bytes(self.sec as nat, 8) + le_bytes(self.usec as nat, 8)
    }

    /// Computes `of_us`.
    pub fn from_us(us: usize) -> (tv: TimeVal)
        ensures
            tv == Self::of_us(us),
    {
        TimeVal { sec: us / 1_000_000, usec: us % 1_000_000 }
    }

    /// Computes `bytes`.
    pub fn to_bytes(&self) -> (bytes: Vec<u8>)
        ensures
            bytes@ == self.bytes(),
            bytes@.len() == TIME_VAL_SIZE,
    {
        let mut bytes = to_le_bytes(self.sec as u64, 8);
        let mut usec = to_le_bytes(self.usec as u64, 8);
        proof {
            lemma_le_bytes_len(self.sec as nat, 8);
            lemma_le_bytes_len(self.usec as nat, 8);
        }
        bytes.append(&mut usec);
        bytes
    }
}

/// The number that stands for a status in the memory of a task.
pub open spec fn status_code(status: TaskStatus) -> u8 {
    match status {
        TaskStatus::Ready => 0,
        TaskStatus::Running => 1,
        TaskStatus::Zombie => 2,
    }
}

/// The bytes of counters in the memory of a task: four bytes each, lowest
/// byte first.
pub open spec fn counts_bytes(counts: Seq<u32>) -> Seq<u8>
    decreases counts.len(),
{
    if counts.len() == 0 {
        Seq::empty()
    } else {
        counts_bytes(counts.drop_last()) + le_bytes(counts.last() as nat, 4)
    }
}

/// Counters take four bytes each.
pub proof fn lemma_counts_bytes_len(counts: Seq<u32>)
    ensures
        counts_bytes(counts).len() == 4 * counts.len(),
    decreases counts.len(),
{
    if counts.len() > 0 {
        lemma_counts_bytes_len(counts.drop_last());
        lemma_le_bytes_len(counts.last() as nat, 4);
    }
}

/// Number of bytes that a `TaskInfo` takes in the memory of a task.
pub const TASK_INFO_SIZE: usize = 2016;

/// What a task learns about itself from `sys_task_info`.
pub struct TaskInfo {
    /// Where the task is in its life.
    status: TaskStatus,
    /// How often the task made each system call.
    syscall_times: Vec<u32>,
    /// The time of the call, in milliseconds.
    time: usize,
}

/// A `TaskInfo` as a value.
pub struct TaskInfoView {
    pub status: TaskStatus,
    pub syscall_times: Seq<u32>,
    pub time: usize,
}

impl TaskInfoView {
    /// The bytes of the value in the memory of a task: the status in one
    /// byte and three bytes of padding, the counters, four bytes of padding,
    /// and the time in eight bytes, lowest byte first.
    pub open spec fn bytes(self) -> Seq<u8> {
        seq![status_code(self.status), 0u8, 0u8, 0u8] + counts_bytes(self.syscall_times)
            + seq![0u8, 0u8, 0u8, 0u8] + le_bytes(self.time as nat, 8)
    }
}

impl View for TaskInfo {
    type V = TaskInfoView;

    closed spec fn view(&self) -> TaskInfoView {
        TaskInfoView {
            status: self.status,
            syscall_times: self.syscall_times@,
            time: self.time,
        }
    }
}

impl TaskInfo {
    /// Puts together what a task learns about itself.
    pub fn new(status: TaskStatus, syscall_times: Vec<u32>, time: usize) -> (info: Self)
        ensures
            info@ == (TaskInfoView { status, syscall_times: syscall_times@, time }),
    {
        TaskInfo { status, syscall_times, time }
    }

    /// Computes the bytes of the value in the memory of a task.
    pub fn to_bytes(&self) -> (bytes: Vec<u8>)
        ensures
            bytes@ == self@.bytes(),
            bytes@.len() == 16 + 4 * self@.syscall_times.len(),
    {
        let code: u8 = match self.status {
            TaskStatus::Ready => 0,
            TaskStatus::Running => 1,
            TaskStatus::Zombie => 2,
        };
        let mut bytes: Vec<u8> = Vec::new();
        bytes.push(code);
        bytes.push(0);
        bytes.push(0);
        bytes.push(0);
        assert(bytes@ =~= seq![status_code(self.status), 0u8, 0u8, 0u8]);
        let n = self.syscall_times.len();
        let mut i: usize = 0;
        assert(self.syscall_times@.take(0) =~= Seq::empty());
        while i < n
            invariant
                n == self.syscall_times@.len(),
                0 <= i <= n,
                bytes@ == seq![status_code(self.status), 0u8, 0u8, 0u8] + counts_bytes(
                    self.syscall_times@.take(i as int),
                ),
            decreases n - i,
        {
            let mut count = to_le_bytes(self.syscall_times[i] as u64, 4);
            proof {
                let next = self.syscall_times@.take(i + 1);
                assert(next.drop_last() =~= self.syscall_times@.take(i as int));
                assert(next.last() == self.syscall_times@[i as int]);
                assert((seq![status_code(self.status), 0u8, 0u8, 0u8] + counts_bytes(
                    self.syscall_times@.take(i as int),
                )) + count@ =~= seq![status_code(self.status), 0u8, 0u8, 0u8] + counts_bytes(
                    next,
                ));
            }
            bytes.append(&mut count);
            i = i + 1;
        }
        assert(self.syscall_times@.take(n as int) =~= self.syscall_times@);
        let ghost head = bytes@;
        bytes.push(0);
        bytes.push(0);
        bytes.push(0);
        bytes.push(0);
        assert(bytes@ =~= head + seq![0u8, 0u8, 0u8, 0u8]);
        let mut time = to_le_bytes(self.time as u64, 8);
        bytes.append(&mut time);
        proof {
            lemma_counts_bytes_len(self.syscall_times@);
            lemma_le_bytes_len(self.time as nat, 8);
        }
        bytes
    }
}

impl KernelView {
    /// The image of the program whose name stands at `path` in the memory of
    /// the current task; none where there is no program of that name or its
    /// image is too large to load.
    pub open spec fn program_at(self, path: int) -> Option<Seq<u8>> {
        let i = program_index(self.programs, str_at(self.cur().memory, path));
        if i < self.programs.len() && MemoryView::image_fits(self.programs[i].image.len() as int) {
            Some(self.programs[i].image)
        } else {
            None
        }
    }

    /// The state with `priority` as the priority of the current task, and
    /// the pass that goes with it. The stride stays.
    pub open spec fn with_priority(self, priority: usize) -> KernelView {
        self.with_task(
            self.current->0,
            TaskView { priority, pass: BIG_STRIDE / priority, ..self.cur() },
        )
    }
}

/// Giving the current task another address space of a loaded program keeps
/// the invariant.
pub proof fn lemma_with_cur_memory_wf(k: KernelView, memory: MemoryView)
    requires
        k.running(),
        memory.wf(),
        memory.loaded(),
    ensures
        k.with_cur_memory(memory).running(),
{
    assert(k.task_ok(k.current->0 as int));
    lemma_with_task_wf(k, TaskView { memory, ..k.cur() });
}

/// Ends the current task with `exit_code` and gives the processor to the
/// next ready task. The task that called is a zombie from then on: it is
/// never given the processor again.
pub fn sys_exit(k: &mut Kernel, exit_code: i32)
    requires
        old(k)@.running(),
    ensures
        final(k)@ == old(k)@.exited(exit_code).run_next(),
        final(k)@.wf(),
{
    k.exit_current_and_run_next(exit_code);
}

/// The current task gives up the processor for the rest of its quantum.
/// Returns 0.
pub fn sys_yield(k: &mut Kernel) -> (result: isize)
    requires
        old(k)@.running(),
    ensures
        result == 0,
        final(k)@ == old(k)@.suspended().run_next(),
        final(k)@.running(),
{
    k.suspend_current_and_run_next();
    0
}

/// Returns the pid of the current task.
pub fn sys_getpid(k: &Kernel) -> (result: isize)
    requires
        k@.running(),
    ensures
        result == k@.current->0,
{
    assert(k@.task_ok(k@.current->0 as int));
    k.current_task().getpid() as isize
}

/// Creates a copy of the current task as its child. Returns the child's pid;
/// the child finds 0 in its result register when it first runs.
pub fn sys_fork(k: &mut Kernel) -> (result: isize)
    requires
        old(k)@.running(),
        old(k)@.has_free_pid(),
    ensures
        result == old(k)@.next_pid(),
        final(k)@ == old(k)@.forked(),
        final(k)@.running(),
{
    let new_pid = k.fork();
    new_pid as isize
}

/// Replaces the program of the current task by the program whose name
/// stands at `path` in its memory. Returns 0, or -1 with nothing changed
/// where there is no such program or its image is too large to load.
pub fn sys_exec(k: &mut Kernel, path: usize) -> (result: isize)
    requires
        old(k)@.running(),
        has_str(old(k)@.cur().memory, path as int),
    ensures
        match old(k)@.program_at(path as int) {
            Some(image) => result == 0 && final(k)@ == old(k)@.execed(image),
            None => result == -1 && final(k)@ == old(k)@,
        },
        final(k)@.running(),
{
    assert(k@.task_ok(k@.current->0 as int));
    let name = translated_str(&k.current_task().memory_set, path);
    let image = match k.loader.get_app_data_by_name(&name) {
        Some(data) => Some(data.clone()),
        None => None,
    };
    match image {
        Some(data) => {
            if k.exec(&data) {
                0
            } else {
                -1
            }
        },
        None => -1,
    }
}

/// Looks for a zombie among the children of the current task: the child
/// `pid`, or any child where `pid` is -1. Returns -1 where the current task
/// has no such child and -2 where none of them is a zombie yet. Else the
/// first such zombie is removed, its exit code is stored at `exit_code_ptr`
/// in the memory of the current task, and its pid is returned.
pub fn sys_waitpid(k: &mut Kernel, pid: isize, exit_code_ptr: usize) -> (result: isize)
    requires
        old(k)@.running(),
        old(k)@.wait_result(pid) >= 0 ==> old(k)@.cur().memory.range_writable(
            exit_code_ptr as int,
            4,
        ),
    ensures
        result == old(k)@.wait_result(pid),
        result < 0 ==> final(k)@ == old(k)@,
        result >= 0 ==> final(k)@ == old(k)@.reaped(
            old(k)@.zombie_child_index(pid),
            exit_code_ptr,
        ),
        final(k)@.running(),
{
    k.waitpid(pid, exit_code_ptr)
}

/// Stores `bytes` at `ptr` in the memory of the current task.
fn write_to_current(k: &mut Kernel, ptr: usize, bytes: &Vec<u8>)
    requires
        old(k)@.running(),
        old(k)@.cur().memory.range_writable(ptr as int, bytes@.len() as int),
    ensures
        final(k)@ == old(k)@.with_cur_memory(old(k)@.cur().memory.write(ptr as int, bytes@)),
        final(k)@.running(),
{
    let cur = k.current_pid();
    proof {
        assert(k@.task_ok(cur as int));
        lemma_write_keeps_layout(k@.cur().memory, ptr as int, bytes@);
        lemma_with_cur_memory_wf(k@, k@.cur().memory.write(ptr as int, bytes@));
    }
    match &mut k.tasks[cur] {
        Some(task) => {
            copy_to_user(&mut task.memory_set, ptr, bytes);
        },
        None => {},
    }
    assert(k@.tasks =~= old(k)@.with_cur_memory(
        old(k)@.cur().memory.write(ptr as int, bytes@),
    ).tasks);
}

/// Stores the time of day `now_us`, given in microseconds, as a `TimeVal`
/// at `ts` in the memory of the current task. Returns 0.
pub fn sys_get_time(k: &mut Kernel, ts: usize, _tz: usize, now_us: usize) -> (result: isize)
    requires
        old(k)@.running(),
        old(k)@.cur().memory.range_writable(ts as int, TIME_VAL_SIZE as int),
    ensures
        result == 0,
        final(k)@ == old(k)@.with_cur_memory(
            old(k)@.cur().memory.write(ts as int, TimeVal::of_us(now_us).bytes()),
        ),
        final(k)@.running(),
{
    let tv = TimeVal::from_us(now_us);
    let bytes = tv.to_bytes();
    write_to_current(k, ts, &bytes);
    0
}

/// Stores what the current task may learn about itself as a `TaskInfo` at
/// `ti` in its memory: that it is running, how often it made each system
/// call, and the time `now_ms`, given in milliseconds. Returns 0.
pub fn sys_task_info(k: &mut Kernel, ti: usize, now_ms: usize) -> (result: isize)
    requires
        old(k)@.running(),
        old(k)@.cur().memory.range_writable(ti as int, TASK_INFO_SIZE as int),
    ensures
        result == 0,
        final(k)@ == old(k)@.with_cur_memory(
            old(k)@.cur().memory.write(
                ti as int,
                (TaskInfoView {
                    status: TaskStatus::Running,
                    syscall_times: old(k)@.cur().syscall_times,
                    time: now_ms,
                }).bytes(),
            ),
        ),
        final(k)@.running(),
{
    assert(k@.task_ok(k@.current->0 as int));
    let counts = k.current_task().syscall_times.clone();
    assert(counts@ =~= k@.cur().syscall_times);
    let info = TaskInfo::new(TaskStatus::Running, counts, now_ms);
    let bytes = info.to_bytes();
    write_to_current(k, ti, &bytes);
    0
}

/// Maps the `len` bytes from `start` on into the address space of the
/// current task, filled with zeros, with the access that the low three bits
/// of `port` name (bit 0 read, bit 1 write, bit 2 execute). Returns 0, or
/// -1 with nothing changed where `start` or `start + len` is not a page
/// boundary, where `port` names no access or sets another bit, or where a
/// page of the range belongs to a region already.
pub fn sys_mmap(k: &mut Kernel, start: usize, len: usize, port: usize) -> (result: isize)
    requires
        old(k)@.running(),
    ensures
        old(k)@.cur().memory.mmap_ok(start as int, len as int, port) ==> result == 0 && final(k)@
            == old(k)@.with_cur_memory(old(k)@.cur().memory.mmap(start as int, len as int, port)),
        !old(k)@.cur().memory.mmap_ok(start as int, len as int, port) ==> result == -1
            && final(k)@ == old(k)@,
        final(k)@.running(),
{
    let end = match start.checked_add(len) {
        Some(end) => end,
        None => {
            return -1;
        },
    };
    let cur = k.current_pid();
    assert(k@.task_ok(cur as int));
    if !k.current_task().memory_set.mmap_check(start, end, true) {
        return -1;
    }
    if !MapPermission::is_port_valid(port) {
        return -1;
    }
    let perm = MapPermission::from_port(port);
    let ghost memory = k@.cur().memory.mmap(start as int, len as int, port);
    match &mut k.tasks[cur] {
        Some(task) => {
            task.memory_set.insert_framed_area(start / PAGE_SIZE, end / PAGE_SIZE, perm);
            assert(task.memory_set@.areas =~= memory.areas);
        },
        None => {},
    }
    proof {
        assert(memory.areas[2] == old(k)@.cur().memory.areas[2]);
        assert(!memory.is_mapped_kind(2));
        lemma_with_cur_memory_wf(old(k)@, memory);
        assert(k@.tasks =~= old(k)@.with_cur_memory(memory).tasks);
    }
    0
}

/// Unmaps the `len` bytes from `start` on from the address space of the
/// current task. Returns 0, or -1 with nothing changed where they are not
/// exactly the bytes of a region that the task mapped.
pub fn sys_munmap(k: &mut Kernel, start: usize, len: usize) -> (result: isize)
    requires
        old(k)@.running(),
    ensures
        old(k)@.cur().memory.munmap_ok(start as int, len as int) ==> result == 0 && final(k)@
            == old(k)@.with_cur_memory(old(k)@.cur().memory.munmap(start as int, len as int)),
        !old(k)@.cur().memory.munmap_ok(start as int, len as int) ==> result == -1 && final(k)@
            == old(k)@,
        final(k)@.running(),
{
    let end = match start.checked_add(len) {
        Some(end) => end,
        None => {
            return -1;
        },
    };
    let cur = k.current_pid();
    assert(k@.task_ok(cur as int));
    if !k.current_task().memory_set.mmap_check(start, end, false) {
        return -1;
    }
    let found = k.current_task().memory_set.find_mapping(start / PAGE_SIZE, end / PAGE_SIZE);
    let ghost memory = k@.cur().memory.munmap(start as int, len as int);
    match found {
        Some(i) => {
            proof {
                crate::search::lemma_first_index(
                    k@.cur().memory.areas,
                    |a: AreaView| a.is_mapping_of(page_of(start as int), page_of(end as int)),
                );
            }
            match &mut k.tasks[cur] {
                Some(task) => {
                    task.memory_set.remove_area(i);
                },
                None => {},
            }
            proof {
                assert(i >= 5);
                assert(memory.areas[2] == old(k)@.cur().memory.areas[2]);
                assert(!memory.is_mapped_kind(2));
                lemma_with_cur_memory_wf(old(k)@, memory);
                assert(k@.tasks =~= old(k)@.with_cur_memory(memory).tasks);
            }
            0
        },
        None => -1,
    }
}

/// Moves the end of the heap of the current task by `size` bytes. Returns
/// the address at which the heap ended before, or -1 with nothing changed
/// where the heap would end before its start or run into another region.
pub fn sys_sbrk(k: &mut Kernel, size: i32) -> (result: isize)
    requires
        old(k)@.running(),
    ensures
        old(k)@.cur().memory.brk_ok(size as int) ==> result == old(k)@.cur().memory.program_brk
            as isize && final(k)@ == old(k)@.with_cur_memory(
            old(k)@.cur().memory.moved_brk(size as int),
        ),
        !old(k)@.cur().memory.brk_ok(size as int) ==> result == -1 && final(k)@ == old(k)@,
        final(k)@.running(),
{
    let cur = k.current_pid();
    assert(k@.task_ok(cur as int));
    let ghost memory = k@.cur().memory.moved_brk(size as int);
    let mut moved: Option<usize> = None;
    match &mut k.tasks[cur] {
        Some(task) => {
            moved = task.memory_set.change_program_brk(size);
        },
        None => {},
    }
    if let Some(old_brk) = moved {
        proof {
            assert(memory.areas[2].kind == AreaKind::Heap);
            assert(!memory.is_mapped_kind(2));
            lemma_with_cur_memory_wf(old(k)@, memory);
            assert(k@.tasks =~= old(k)@.with_cur_memory(memory).tasks);
        }
        old_brk as isize
    } else {
        assert(k@.tasks =~= old(k)@.tasks);
        -1
    }
}

/// Creates a child of the current task that runs the program whose name
/// stands at `path` in the memory of the current task. Returns the child's
/// pid, or -1 with nothing changed where there is no such program or its
/// image is too large to load.
pub fn sys_spawn(k: &mut Kernel, path: usize) -> (result: isize)
    requires
        old(k)@.running(),
        old(k)@.has_free_pid(),
        has_str(old(k)@.cur().memory, path as int),
    ensures
        match old(k)@.program_at(path as int) {
            Some(image) => result == old(k)@.next_pid() && final(k)@ == old(k)@.spawned(image),
            None => result == -1 && final(k)@ == old(k)@,
        },
        final(k)@.running(),
{
    assert(k@.task_ok(k@.current->0 as int));
    let path = translated_str(&k.current_task().memory_set, path);
    let image = match k.loader.get_app_data_by_name(&path) {
        Some(data) => Some(data.clone()),
        None => None,
    };
    if let Some(elf_data) = image {
        if let Some(pid) = k.spawn(&elf_data) {
            return pid as isize;
        }
    }
    -1
}

/// Sets the priority of the current task to `prio` and its pass to
/// `BIG_STRIDE / prio`; the stride that the task has run up stays. Returns
/// `prio`, or -1 with nothing changed where `prio` is 1 or less.
pub fn sys_set_priority(k: &mut Kernel, prio: isize) -> (result: isize)
    requires
        old(k)@.running(),
    ensures
        prio <= 1 ==> result == -1 && final(k)@ == old(k)@,
        prio >= 2 ==> result == prio && final(k)@ == old(k)@.with_priority(prio as usize),
        final(k)@.running(),
{
    if prio <= 1 {
        return -1;
    }
    let cur = k.current_pid();
    proof {
        assert(k@.task_ok(cur as int));
        lemma_with_task_wf(
            k@,
            TaskView {
                priority: prio as usize,
                pass: BIG_STRIDE / (prio as usize),
                ..k@.cur()
            },
        );
    }
    match &mut k.tasks[cur] {
        Some(task) => {
            task.priority = prio as usize;
            task.pass = BIG_STRIDE / (prio as usize);
        },
        None => {},
    }
    assert(k@.tasks =~= old(k)@.with_priority(prio as usize).tasks);
    prio
}

} // verus!
