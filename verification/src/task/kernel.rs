//! The tasks of the machine, the ready queue and the current task, and the
//! steps that move tasks between them.

use crate::config::DEFAULT_PRIORITY;
use crate::encoding::exit_code_to_bytes;
use crate::loader::{Loader, ProgramView};
use crate::mm::memory_set::{MemorySet, MemoryView};
use crate::mm::user::copy_to_user;
use crate::search::{is_first_index, lemma_first_index_unique};
use crate::task::control_block::{
    advance_stride, TaskControlBlock, TaskStatus, TaskView, TrapContext, TrapContextView,
    REG_A0,
};
use crate::task::manager::{add_task, fetch_task, ReadyTask, TaskManager};
use crate::task::model::{pid_matches, KernelView, ROOT_PID};
use crate::task::preserve::{
    lemma_exit_children, lemma_exited_wf, lemma_reaped_wf, lemma_run_next_wf,
    lemma_suspended_wf, lemma_with_child_wf, lemma_with_task_wf,
};
use vstd::prelude::*;

verus! {

/// The view of a place in the table of tasks.
pub open spec fn slot_view(slot: Option<TaskControlBlock>) -> Option<TaskView> {
    match slot {
        Some(t) => Some(t@),
        None => None,
    }
}

/// The state in which the kernel starts: the first task, loaded from
/// `image`, waits in the ready queue, and no task runs.
pub open spec fn boot_view(programs: Seq<ProgramView>, image: Seq<u8>) -> KernelView {
    let memory = MemoryView::of_image(image);
    KernelView {
        tasks: seq![
            Some(
                TaskView::fresh(
                    ROOT_PID,
                    None,
                    memory,
                    TrapContextView::initial(0, memory.heap_bottom),
                    DEFAULT_PRIORITY,
                    0,
                ),
            ),
        ],
        ready: seq![ReadyTask { pid: ROOT_PID, stride: 0 }],
        current: None,
        programs,
    }
}

/// The state in which the kernel starts satisfies the invariant.
pub proof fn lemma_boot_wf(programs: Seq<ProgramView>, image: Seq<u8>)
    requires
        MemoryView::image_fits(image.len() as int),
    ensures
        boot_view(programs, image).wf(),
{
    let k = boot_view(programs, image);
    crate::mm::memory_set::lemma_of_image_wf(image);
    assert(k.ready[0].pid == ROOT_PID);
    assert forall|pid: int| #[trigger] k.live(pid) implies k.task_ok(pid) by {
        assert(pid == 0);
        assert(k.queued(ROOT_PID));
    }
    assert forall|q: int| 0 <= q < k.ready.len() implies #[trigger] k.entry_ok(q) by {}
}

/// The tasks while the current task exits, after the first `n` of its
/// children were handed to the first task.
spec fn exit_progress(k: KernelView, code: i32, n: int) -> Seq<Option<TaskView>> {
    let c = k.current->0;
    let t = k.cur();
    let root = k.task(ROOT_PID as int);
    let moved = if c == ROOT_PID {
        Seq::empty()
    } else {
        t.children.take(n)
    };
    Seq::new(
        k.tasks.len(),
        |i: int|
            if i == c {
                Some(
                    TaskView {
                        status: TaskStatus::Zombie,
                        exit_code: code,
                        children: if c == ROOT_PID {
                            t.children
                        } else {
                            Seq::empty()
                        },
                        memory: t.memory.released(),
                        ..t
                    },
                )
            } else if i == ROOT_PID {
                Some(TaskView { children: root.children + moved, ..root })
            } else if moved.contains(i as usize) {
                Some(TaskView { parent: Some(ROOT_PID), ..k.task(i) })
            } else {
                k.tasks[i]
            },
    )
}

/// The tasks of the machine by pid, the ready queue, the current task, and
/// the programs that can be loaded.
pub struct Kernel {
    /// The tasks, each at the place of its pid; a task that was waited for
    /// leaves its place empty.
    pub tasks: Vec<Option<TaskControlBlock>>,
    /// The ready queue.
    pub manager: TaskManager,
    /// The pid of the task that runs.
    pub current: Option<usize>,
    /// The programs that can be loaded.
    pub loader: Loader,
}

impl View for Kernel {
    type V = KernelView;

    open spec fn view(&self) -> KernelView {
        KernelView {
            tasks: self.tasks@.map_values(|slot: Option<TaskControlBlock>| slot_view(slot)),
            ready: self.manager@,
            current: self.current,
            programs: self.loader@,
        }
    }
}

impl Kernel {
    /// Starts the kernel: loads the program called `init_name` as the first
    /// task and puts it into the ready queue. Returns `None` where there is
    /// no such program or its image is too large to load.
    pub fn new(loader: Loader, init_name: &Vec<u8>) -> (kernel: Option<Self>)
        ensures
            kernel is Some <==> {
                &&& crate::loader::program_index(loader@, init_name@) < loader@.len()
                &&& MemoryView::image_fits(
                    loader@[crate::loader::program_index(loader@, init_name@)].image.len() as int,
                )
            },
            kernel is Some ==> kernel->0@ == boot_view(
                loader@,
                loader@[crate::loader::program_index(loader@, init_name@)].image,
            ) && kernel->0@.wf(),
    {
        let found = match loader.get_app_data_by_name(init_name) {
            Some(image) => MemorySet::from_image(image),
            None => None,
        };
        match found {
            Some(memory_set) => {
                let ghost image = loader@[crate::loader::program_index(
                    loader@,
                    init_name@,
                )].image;
                let trap_cx = TrapContext::app_init_context(0, memory_set.heap_bottom());
                let task = TaskControlBlock::new(
                    ROOT_PID,
                    None,
                    memory_set,
                    trap_cx,
                    DEFAULT_PRIORITY,
                    0,
                );
                let mut tasks: Vec<Option<TaskControlBlock>> = Vec::new();
                tasks.push(Some(task));
                let mut manager = TaskManager::new();
                add_task(&mut manager, ReadyTask { pid: ROOT_PID, stride: 0 });
                let kernel = Kernel { tasks, manager, current: None, loader };
                proof {
                    crate::task::manager::lemma_insert_position(Seq::empty(), 0);
                    assert(kernel@.ready =~= seq![ReadyTask { pid: ROOT_PID, stride: 0 }]);
                    assert(kernel@.tasks =~= boot_view(kernel@.programs, image).tasks);
                    lemma_boot_wf(kernel@.programs, image);
                }
                Some(kernel)
            },
            None => None,
        }
    }

    /// The pid of the task that runs.
    pub fn current_pid(&self) -> (pid: usize)
        requires
            self@.running(),
        ensures
            Some(pid) == self@.current,
            self@.live(pid as int),
    {
        match self.current {
            Some(pid) => pid,
            None => 0,
        }
    }

    /// The task that runs.
    pub fn current_task(&self) -> (task: &TaskControlBlock)
        requires
            self@.running(),
        ensures
            task@ == self@.cur(),
    {
        let pid = self.current_pid();
        self.tasks[pid].as_ref().unwrap()
    }

    /// The task `pid`, if there is one.
    pub fn task(&self, pid: usize) -> (task: Option<&TaskControlBlock>)
        ensures
            task is Some <==> self@.live(pid as int),
            task is Some ==> task->0@ == self@.task(pid as int),
    {
        if pid < self.tasks.len() {
            self.tasks[pid].as_ref()
        } else {
            None
        }
    }

    /// Gives the processor to the task at the front of the ready queue and
    /// returns its pid; `None` where no task is ready.
    pub fn run_next(&mut self) -> (next: Option<usize>)
        requires
            old(self)@.wf(),
            old(self)@.current is None,
        ensures
            final(self)@ == old(self)@.run_next(),
            final(self)@.wf(),
            next == final(self)@.current,
            next is Some <==> old(self)@.ready.len() > 0,
    {
        proof {
            lemma_run_next_wf(self@);
        }
        match fetch_task(&mut self.manager) {
            Some(entry) => {
                assert(old(self)@.entry_ok(0));
                match &mut self.tasks[entry.pid] {
                    Some(task) => {
                        task.status = TaskStatus::Running;
                    },
                    None => {},
                }
                self.current = Some(entry.pid);
                assert(self@.tasks =~= old(self)@.run_next().tasks);
                Some(entry.pid)
            },
            None => None,
        }
    }

    /// Ends the quantum of the current task: advances its stride by its
    /// pass, puts it into the ready queue, and gives the processor to the
    /// task that is then at the front of the queue.
    pub fn suspend_current_and_run_next(&mut self)
        requires
            old(self)@.running(),
        ensures
            final(self)@ == old(self)@.suspended().run_next(),
            final(self)@.running(),
    {
        let pid = self.current_pid();
        let mut stride: usize = 0;
        match &mut self.tasks[pid] {
            Some(task) => {
                task.stride = advance_stride(task.stride, task.pass);
                task.status = TaskStatus::Ready;
                stride = task.stride;
            },
            None => {},
        }
        add_task(&mut self.manager, ReadyTask { pid, stride });
        self.current = None;
        proof {
            assert(self@.tasks =~= old(self)@.suspended().tasks);
            lemma_suspended_wf(old(self)@);
        }
        self.run_next();
    }

    /// Creates a child of the current task with the given address space and
    /// registers, and puts it into the ready queue. Returns its pid.
    fn add_child(&mut self, memory_set: MemorySet, trap_cx: TrapContext) -> (pid: usize)
        requires
            old(self)@.running(),
            old(self)@.has_free_pid(),
            memory_set.wf(),
            memory_set@.loaded(),
        ensures
            final(self)@ == old(self)@.with_child(memory_set@, trap_cx@),
            final(self)@.running(),
            pid == old(self)@.next_pid(),
    {
        let cur = self.current_pid();
        let pid = self.tasks.len();
        let parent = self.current_task();
        let priority = parent.priority;
        let stride = parent.stride;
        proof {
            assert(self@.task_ok(cur as int));
            lemma_with_child_wf(self@, memory_set@, trap_cx@);
        }
        let child = TaskControlBlock::new(pid, Some(cur), memory_set, trap_cx, priority, stride);
        match &mut self.tasks[cur] {
            Some(task) => {
                task.children.push(pid);
            },
            None => {},
        }
        self.tasks.push(Some(child));
        add_task(&mut self.manager, ReadyTask { pid, stride });
        assert(self@.tasks =~= old(self)@.with_child(memory_set@, trap_cx@).tasks);
        pid
    }

    /// Creates a child of the current task that has a copy of its address
    /// space and of its registers, but for the result register, which holds
    /// 0, and puts the child into the ready queue. Returns the child's pid.
    pub fn fork(&mut self) -> (pid: usize)
        requires
            old(self)@.running(),
            old(self)@.has_free_pid(),
        ensures
            final(self)@ == old(self)@.forked(),
            final(self)@.running(),
            pid == old(self)@.next_pid(),
    {
        let cur = self.current_pid();
        let parent = self.current_task();
        assert(self@.task_ok(cur as int));
        let memory_set = parent.memory_set.duplicate();
        let mut trap_cx = parent.trap_cx;
        trap_cx.x[REG_A0] = 0;
        self.add_child(memory_set, trap_cx)
    }

    /// Creates a child of the current task that runs the program `image`
    /// from its start, and puts the child into the ready queue. Returns the
    /// child's pid; `None`, with nothing changed, where the image is too
    /// large to load.
    pub fn spawn(&mut self, image: &Vec<u8>) -> (pid: Option<usize>)
        requires
            old(self)@.running(),
            old(self)@.has_free_pid(),
        ensures
            pid is Some <==> MemoryView::image_fits(image@.len() as int),
            pid is Some ==> final(self)@ == old(self)@.spawned(image@),
            pid is Some ==> pid->0 == old(self)@.next_pid(),
            pid is None ==> final(self)@ == old(self)@,
            final(self)@.running(),
    {
        match MemorySet::from_image(image) {
            Some(memory_set) => {
                let trap_cx = TrapContext::app_init_context(0, memory_set.heap_bottom());
                Some(self.add_child(memory_set, trap_cx))
            },
            None => None,
        }
    }

    /// Replaces the program of the current task by `image`: the task keeps
    /// its pid, its parent and its children, and gets a freshly loaded
    /// address space and fresh registers. Returns whether that was done;
    /// nothing changes where the image is too large to load.
    pub fn exec(&mut self, image: &Vec<u8>) -> (done: bool)
        requires
            old(self)@.running(),
        ensures
            done == MemoryView::image_fits(image@.len() as int),
            done ==> final(self)@ == old(self)@.execed(image@),
            !done ==> final(self)@ == old(self)@,
            final(self)@.running(),
    {
        let cur = self.current_pid();
        match MemorySet::from_image(image) {
            Some(memory_set) => {
                let trap_cx = TrapContext::app_init_context(0, memory_set.heap_bottom());
                proof {
                    assert(self@.task_ok(cur as int));
                    lemma_with_task_wf(
                        self@,
                        TaskView { memory: memory_set@, trap_cx: trap_cx@, ..self@.cur() },
                    );
                }
                match &mut self.tasks[cur] {
                    Some(task) => {
                        task.memory_set = memory_set;
                        task.trap_cx = trap_cx;
                    },
                    None => {},
                }
                assert(self@.tasks =~= old(self)@.execed(image@).tasks);
                true
            },
            None => false,
        }
    }

    /// Ends the current task with `exit_code`: it becomes a zombie, gives up
    /// its address space, and hands its children to the first task (unless
    /// it is the first task itself). The processor goes to the task at the
    /// front of the ready queue, if there is one. The task that exited never
    /// runs again.
    pub fn exit_current_and_run_next(&mut self, exit_code: i32)
        requires
            old(self)@.running(),
        ensures
            final(self)@ == old(self)@.exited(exit_code).run_next(),
            final(self)@.wf(),
    {
        let cur = self.current_pid();
        let mut orphans: Vec<usize> = Vec::new();
        proof {
            assert(self@.task_ok(cur as int));
            assert(self@.live(ROOT_PID as int));
            lemma_exit_children(self@);
        }
        match &mut self.tasks[cur] {
            Some(task) => {
                task.status = TaskStatus::Zombie;
                task.exit_code = exit_code;
                task.memory_set.recycle_data_pages();
                if cur != ROOT_PID {
                    std::mem::swap(&mut orphans, &mut task.children);
                }
            },
            None => {},
        }
        proof {
            if cur != ROOT_PID {
                assert(old(self)@.cur().children.take(0) =~= Seq::empty());
                assert(old(self)@.task(ROOT_PID as int).children + Seq::<usize>::empty()
                    =~= old(self)@.task(ROOT_PID as int).children);
            }
            assert(self@.tasks =~= exit_progress(old(self)@, exit_code, 0));
        }
        let n = orphans.len();
        let mut i: usize = 0;
        while i < n
            invariant
                old(self)@.running(),
                cur == old(self)@.current->0,
                n == orphans@.len(),
                0 <= i <= n,
                cur != ROOT_PID ==> orphans@ == old(self)@.cur().children,
                cur == ROOT_PID ==> n == 0,
                self.tasks@.len() == old(self)@.tasks.len(),
                self@.tasks == exit_progress(old(self)@, exit_code, i as int),
                self@.ready == old(self)@.ready,
                self@.current == old(self)@.current,
                self@.programs == old(self)@.programs,
            decreases n - i,
        {
            let child = orphans[i];
            proof {
                let k = old(self)@;
                lemma_exit_children(k);
                assert(k.live(cur as int));
                assert(k.task_ok(cur as int));
                assert(k.live(ROOT_PID as int));
                assert(k.cur().children.contains(child));
                assert(k.live(child as int));
                assert(!k.cur().children.take(i as int).contains(child)) by {
                    if k.cur().children.take(i as int).contains(child) {
                        let w = choose|w: int|
                            0 <= w < i && k.cur().children.take(i as int)[w] == child;
                        assert(k.cur().children[w] == k.cur().children[i as int]);
                    }
                }
            }
            let ghost mid = self@;
            match &mut self.tasks[child] {
                Some(task) => {
                    task.parent = Some(ROOT_PID);
                },
                None => {},
            }
            let ghost mid2 = self@;
            proof {
                assert(mid.tasks[child as int] == Some(old(self)@.task(child as int)));
                assert(mid2.tasks =~= mid.tasks.update(
                    child as int,
                    Some(TaskView { parent: Some(ROOT_PID), ..mid.task(child as int) }),
                ));
            }
            match &mut self.tasks[ROOT_PID] {
                Some(root) => {
                    root.children.push(child);
                },
                None => {},
            }
            proof {
                assert(self@.tasks =~= mid2.tasks.update(
                    ROOT_PID as int,
                    Some(
                        TaskView {
                            children: mid2.task(ROOT_PID as int).children.push(child),
                            ..mid2.task(ROOT_PID as int)
                        },
                    ),
                ));
            }
            proof {
                let k = old(self)@;
                let before = k.cur().children.take(i as int);
                let after = k.cur().children.take(i + 1);
                assert(after =~= before.push(child));
                assert(k.task(ROOT_PID as int).children + after =~= (k.task(
                    ROOT_PID as int,
                ).children + before).push(child));
                assert forall|j: usize| #[trigger]
                    after.contains(j) <==> before.contains(j) || j == child by {
                    if before.contains(j) {
                        let w = choose|w: int| 0 <= w < before.len() && before[w] == j;
                        assert(after[w] == j);
                    }
                    if j == child {
                        assert(after[i as int] == child);
                    }
                    if after.contains(j) {
                        let w = choose|w: int| 0 <= w < after.len() && after[w] == j;
                        if w < i {
                            assert(before[w] == j);
                        }
                    }
                }
                let want = exit_progress(k, exit_code, i + 1);
                assert forall|j: int| 0 <= j < want.len() implies self@.tasks[j] == want[j] by {
                    if j == cur {
                    } else if j == ROOT_PID {
                    } else if j == child {
                        assert(after.contains(j as usize));
                    } else {
                        assert(after.contains(j as usize) <==> before.contains(j as usize));
                    }
                }
                assert(self@.tasks =~= want);
            }
            i = i + 1;
        }
        self.current = None;
        proof {
            let k = old(self)@;
            if cur != ROOT_PID {
                assert(k.cur().children.take(n as int) =~= k.cur().children);
            } else {
                assert(k.task(ROOT_PID as int).children + Seq::<usize>::empty() =~= k.task(
                    ROOT_PID as int,
                ).children);
            }
            assert(self@.tasks =~= k.exited(exit_code).tasks);
            assert(self@ == k.exited(exit_code));
            lemma_exited_wf(k, exit_code);
        }
        self.run_next();
    }

    /// Looks among the children of the current task for the first zombie
    /// that `pid` asks for (-1 asks for any child). Returns its place among
    /// the children, or else what waitpid returns: -1 where no child is
    /// asked for, -2 where one is but none of them is a zombie yet.
    pub fn find_zombie_child(&self, pid: isize) -> (found: Result<usize, isize>)
        requires
            self@.running(),
        ensures
            match found {
                Ok(idx) => self@.wait_result(pid) >= 0 && idx == self@.zombie_child_index(pid)
                    && idx < self@.cur().children.len() && self@.task(
                    self@.cur().children[idx as int] as int,
                ).status == TaskStatus::Zombie && self@.wait_result(pid)
                    == self@.cur().children[idx as int],
                Err(code) => code < 0 && code == self@.wait_result(pid),
            },
    {
        let cur = self.current_pid();
        let task = self.current_task();
        let n = task.children.len();
        let ghost k = self@;
        proof {
            assert(k.task_ok(cur as int));
        }
        let mut asked = false;
        let mut i: usize = 0;
        while i < n
            invariant
                k == self@,
                k.running(),
                cur == k.current->0,
                task@ == k.cur(),
                k.task_ok(cur as int),
                n == k.cur().children.len(),
                0 <= i <= n,
                asked <==> exists|j: int|
                    0 <= j < i && pid_matches(pid, #[trigger] k.cur().children[j]),
                forall|j: int|
                    0 <= j < i ==> !(pid_matches(pid, #[trigger] k.cur().children[j]) && k.task(
                        k.cur().children[j] as int,
                    ).status == TaskStatus::Zombie),
            decreases n - i,
        {
            let child = task.children[i];
            assert(k.live(k.cur().children[i as int] as int));
            if pid == -1 || (pid >= 0 && pid as usize == child) {
                asked = true;
                let zombie = match &self.tasks[child] {
                    Some(t) => t.is_zombie(),
                    None => false,
                };
                if zombie {
                    proof {
                        let wanted = |c: usize|
                            pid_matches(pid, c) && k.task(c as int).status == TaskStatus::Zombie;
                        assert(is_first_index(k.cur().children, wanted, i as int));
                        lemma_first_index_unique(k.cur().children, wanted, i as int);
                        assert(pid_matches(pid, k.cur().children[i as int]));
                        assert(k.has_child_matching(pid));
                    }
                    return Ok(i);
                }
            }
            i = i + 1;
        }
        proof {
            let wanted = |c: usize|
                pid_matches(pid, c) && k.task(c as int).status == TaskStatus::Zombie;
            assert(is_first_index(k.cur().children, wanted, n as int));
            lemma_first_index_unique(k.cur().children, wanted, n as int);
        }
        if asked {
            Err(-2)
        } else {
            Err(-1)
        }
    }

    /// Looks among the children of the current task for a zombie that `pid`
    /// asks for (-1 asks for any child). Returns -1 where no child is asked
    /// for, -2 where one is but none of them is a zombie yet; nothing
    /// changes then. Else the first such zombie is removed for good, its
    /// exit code is stored at `exit_code_ptr` in the memory of the current
    /// task, and its pid is returned.
    pub fn waitpid(&mut self, pid: isize, exit_code_ptr: usize) -> (result: isize)
        requires
            old(self)@.running(),
            old(self)@.wait_result(pid) >= 0 ==> old(self)@.cur().memory.range_writable(
                exit_code_ptr as int,
                4,
            ),
        ensures
            result == old(self)@.wait_result(pid),
            result < 0 ==> final(self)@ == old(self)@,
            result >= 0 ==> final(self)@ == old(self)@.reaped(
                old(self)@.zombie_child_index(pid),
                exit_code_ptr,
            ),
            final(self)@.running(),
    {
        let cur = self.current_pid();
        let ghost k = self@;
        match self.find_zombie_child(pid) {
            Err(code) => code,
            Ok(idx) => {
                proof {
                    assert(k.task_ok(cur as int));
                    assert(k.live(k.cur().children[idx as int] as int));
                    lemma_reaped_wf(k, idx as int, exit_code_ptr);
                }
                let child = self.current_task().children[idx];
                let code = match &self.tasks[child] {
                    Some(t) => t.exit_code,
                    None => 0,
                };
                let bytes = exit_code_to_bytes(code);
                match &mut self.tasks[cur] {
                    Some(t) => {
                        t.children.remove(idx);
                        copy_to_user(&mut t.memory_set, exit_code_ptr, &bytes);
                    },
                    None => {},
                }
                self.tasks[child] = None;
                assert(self@.tasks =~= k.reaped(idx as int, exit_code_ptr).tasks);
                child as isize
            },
        }
    }
}

} // verus!
