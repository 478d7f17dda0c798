use proc_core::config::{BIG_STRIDE, DEFAULT_PRIORITY, MAX_SYSCALL_NUM, PAGE_SIZE};
use proc_core::loader::Loader;
use proc_core::mm::area::{AreaKind, MapPermission};
use proc_core::mm::user::{copy_from_user, copy_to_user};
use proc_core::task::control_block::{
    advance_stride, TaskControlBlock, TaskStatus, TrapContext, REG_A0, REG_SP,
};
use proc_core::encoding::{exit_code_to_bytes, to_le_bytes};
use proc_core::task::kernel::Kernel;
use proc_core::task::manager::ReadyTask;
use proc_core::syscall::{try_syscall, Fault, Syscall};
use proc_core::task::model::ROOT_PID;

const INIT_IMAGE: &[u8] = b"child\0missing\0";
const CHILD_IMAGE: &[u8] = &[0xC1, 0xC2, 0xC3];
const SCRATCH: usize = 0x9000;

fn loader() -> Loader {
    let mut loader = Loader::new();
    loader.add(b"initproc".to_vec(), INIT_IMAGE.to_vec());
    loader.add(b"child".to_vec(), CHILD_IMAGE.to_vec());
    loader
}

fn boot() -> Kernel {
    let mut k = Kernel::new(loader(), &b"initproc".to_vec()).unwrap();
    assert_eq!(k.run_next(), Some(0));
    k
}

fn task(k: &Kernel, pid: usize) -> &TaskControlBlock {
    k.task(pid).unwrap()
}

fn queue(k: &Kernel) -> Vec<ReadyTask> {
    (0..k.manager.len()).map(|i| k.manager.get(i)).collect()
}

fn read_i32(k: &Kernel, pid: usize, ptr: usize) -> i32 {
    let b = copy_from_user(&task(k, pid).memory_set, ptr, 4);
    i32::from_le_bytes([b[0], b[1], b[2], b[3]])
}

/// What must hold of the kernel in every state.
fn check_invariant(k: &Kernel) {
    assert!(k.task(ROOT_PID).is_some());
    let q = queue(k);
    for w in q.windows(2) {
        assert!(w[0].stride <= w[1].stride);
    }
    for (i, e) in q.iter().enumerate() {
        let t = task(k, e.pid);
        assert_eq!(t.status, TaskStatus::Ready);
        assert_eq!(t.stride, e.stride);
        assert!(q.iter().skip(i + 1).all(|o| o.pid != e.pid));
    }
    let mut running = 0;
    for pid in 0..k.tasks.len() {
        let Some(t) = k.task(pid) else { continue };
        assert_eq!(t.pid, pid);
        assert!(t.priority >= 2);
        assert_eq!(t.pass, BIG_STRIDE / t.priority);
        assert_eq!(t.syscall_times.len(), MAX_SYSCALL_NUM);
        match t.status {
            TaskStatus::Running => {
                running += 1;
                assert_eq!(k.current, Some(pid));
            }
            TaskStatus::Ready => assert!(q.iter().any(|e| e.pid == pid)),
            TaskStatus::Zombie => {
                assert_eq!(t.memory_set.area_count(), 0);
                assert!(pid == ROOT_PID || t.children.is_empty());
            }
        }
        if t.status != TaskStatus::Zombie {
            assert!(t.memory_set.area_count() >= 5);
            assert_eq!(t.memory_set.area(2).kind(), AreaKind::Heap);
        }
        if pid == ROOT_PID {
            assert_eq!(t.parent, None);
        } else {
            let parent = t.parent.unwrap();
            assert!(parent < pid);
            assert!(task(k, parent).children.contains(&pid));
        }
        for (i, c) in t.children.iter().enumerate() {
            assert_eq!(task(k, *c).parent, Some(pid));
            assert!(t.children.iter().skip(i + 1).all(|o| o != c));
        }
    }
    assert!(running <= 1);
    assert_eq!(running == 1, k.current.is_some());
}

#[test]
fn le_bytes_are_lowest_first() {
    assert_eq!(to_le_bytes(0x0102_0304_0506_0708, 8), vec![8, 7, 6, 5, 4, 3, 2, 1]);
    assert_eq!(to_le_bytes(0x0102_0304_0506_0708, 4), vec![8, 7, 6, 5]);
    assert_eq!(to_le_bytes(258, 3), vec![2, 1, 0]);
    assert_eq!(to_le_bytes(u64::MAX, 0), Vec::<u8>::new());
    assert_eq!(to_le_bytes(u64::MAX, 8), vec![255; 8]);
}

#[test]
fn exit_code_bytes_are_twos_complement() {
    for code in [0, 1, 7, 255, 256, -1, -2, -256, i32::MAX, i32::MIN] {
        assert_eq!(exit_code_to_bytes(code), code.to_le_bytes().to_vec());
    }
}

#[test]
fn stride_advances_by_pass_without_wrapping() {
    assert_eq!(advance_stride(0, 5), 5);
    assert_eq!(advance_stride(100, BIG_STRIDE / 2), 100 + BIG_STRIDE / 2);
    assert_eq!(advance_stride(usize::MAX - 5, 5), usize::MAX);
    assert_eq!(advance_stride(usize::MAX - 5, 6), usize::MAX);
    assert_eq!(advance_stride(usize::MAX, usize::MAX), usize::MAX);
}

#[test]
fn trap_context_of_a_new_program() {
    let cx = TrapContext::app_init_context(0x1234, 0xA000);
    assert_eq!(cx.sepc, 0x1234);
    for (i, x) in cx.x.iter().enumerate() {
        assert_eq!(*x, if i == REG_SP { 0xA000 } else { 0 });
    }
}

#[test]
fn kernel_needs_the_first_program() {
    assert!(Kernel::new(loader(), &b"nothing".to_vec()).is_none());
    assert!(Kernel::new(Loader::new(), &b"initproc".to_vec()).is_none());
}

#[test]
fn kernel_starts_with_first_task_ready() {
    let k = Kernel::new(loader(), &b"initproc".to_vec()).unwrap();
    assert_eq!(k.current, None);
    assert_eq!(k.tasks.len(), 1);
    assert_eq!(queue(&k), vec![ReadyTask { pid: 0, stride: 0 }]);
    let root = task(&k, 0);
    assert_eq!(root.pid, 0);
    assert_eq!(root.status, TaskStatus::Ready);
    assert_eq!(root.parent, None);
    assert!(root.children.is_empty());
    assert_eq!(root.priority, DEFAULT_PRIORITY);
    assert_eq!(root.pass, BIG_STRIDE / 16);
    assert_eq!(root.stride, 0);
    assert_eq!(root.exit_code, 0);
    assert_eq!(root.syscall_times, vec![0u32; MAX_SYSCALL_NUM]);
    assert_eq!(root.trap_cx.sepc, 0);
    assert_eq!(root.trap_cx.x[REG_SP], root.memory_set.heap_bottom());
    assert_eq!(copy_from_user(&root.memory_set, 0, INIT_IMAGE.len()), INIT_IMAGE.to_vec());
    check_invariant(&k);
}

#[test]
fn run_next_gives_processor_to_front_of_queue() {
    let mut k = Kernel::new(loader(), &b"initproc".to_vec()).unwrap();
    assert_eq!(k.run_next(), Some(0));
    assert_eq!(k.current, Some(0));
    assert_eq!(k.current_pid(), 0);
    assert_eq!(k.current_task().status, TaskStatus::Running);
    assert!(queue(&k).is_empty());
    check_invariant(&k);
}

#[test]
fn run_next_with_empty_queue_leaves_processor_idle() {
    let mut k = boot();
    k.exit_current_and_run_next(0);
    assert_eq!(k.current, None);
    assert_eq!(k.run_next(), None);
    assert_eq!(k.current, None);
    check_invariant(&k);
}

#[test]
fn suspend_advances_stride_and_requeues() {
    let mut k = boot();
    k.suspend_current_and_run_next();
    // The only task gets the processor back at once.
    assert_eq!(k.current, Some(0));
    assert_eq!(task(&k, 0).stride, BIG_STRIDE / 16);
    assert_eq!(task(&k, 0).status, TaskStatus::Running);
    k.suspend_current_and_run_next();
    assert_eq!(task(&k, 0).stride, 2 * (BIG_STRIDE / 16));
    check_invariant(&k);
}

#[test]
fn fork_creates_ready_child_with_copy_of_parent() {
    let mut k = boot();
    k.suspend_current_and_run_next();
    let parent_stride = task(&k, 0).stride;
    copy_to_user(&mut k.tasks[0].as_mut().unwrap().memory_set, SCRATCH, &vec![1, 2, 3]);
    k.tasks[0].as_mut().unwrap().trap_cx.x[REG_A0] = 99;
    k.tasks[0].as_mut().unwrap().trap_cx.x[5] = 55;
    k.tasks[0].as_mut().unwrap().trap_cx.sepc = 0x40;
    assert_eq!(k.fork(), 1);
    assert_eq!(k.current, Some(0));
    let child = task(&k, 1);
    assert_eq!(child.pid, 1);
    assert_eq!(child.status, TaskStatus::Ready);
    assert_eq!(child.parent, Some(0));
    assert!(child.children.is_empty());
    assert_eq!(child.priority, DEFAULT_PRIORITY);
    assert_eq!(child.pass, BIG_STRIDE / 16);
    assert_eq!(child.stride, parent_stride);
    assert_eq!(child.trap_cx.x[REG_A0], 0);
    assert_eq!(child.trap_cx.x[5], 55);
    assert_eq!(child.trap_cx.sepc, 0x40);
    assert_eq!(child.trap_cx.x[REG_SP], task(&k, 0).trap_cx.x[REG_SP]);
    assert_eq!(child.syscall_times, vec![0u32; MAX_SYSCALL_NUM]);
    assert_eq!(copy_from_user(&child.memory_set, SCRATCH, 3), vec![1, 2, 3]);
    assert_eq!(copy_from_user(&child.memory_set, 0, INIT_IMAGE.len()), INIT_IMAGE.to_vec());
    assert_eq!(task(&k, 0).children, vec![1]);
    assert_eq!(task(&k, 0).trap_cx.x[REG_A0], 99);
    assert_eq!(queue(&k), vec![ReadyTask { pid: 1, stride: parent_stride }]);
    check_invariant(&k);
}

#[test]
fn forked_memory_is_a_copy_not_shared() {
    let mut k = boot();
    k.fork();
    copy_to_user(&mut k.tasks[0].as_mut().unwrap().memory_set, SCRATCH, &vec![9]);
    assert_eq!(copy_from_user(&task(&k, 1).memory_set, SCRATCH, 1), vec![0]);
    copy_to_user(&mut k.tasks[1].as_mut().unwrap().memory_set, SCRATCH + 1, &vec![8]);
    assert_eq!(copy_from_user(&task(&k, 0).memory_set, SCRATCH, 2), vec![9, 0]);
}

#[test]
fn pids_count_up() {
    let mut k = boot();
    assert_eq!(k.fork(), 1);
    assert_eq!(k.fork(), 2);
    assert_eq!(k.spawn(&CHILD_IMAGE.to_vec()), Some(3));
    assert_eq!(task(&k, 0).children, vec![1, 2, 3]);
    assert_eq!(queue(&k).iter().map(|e| e.pid).collect::<Vec<_>>(), vec![1, 2, 3]);
    check_invariant(&k);
}

#[test]
fn spawn_loads_fresh_address_space() {
    let mut k = boot();
    copy_to_user(&mut k.tasks[0].as_mut().unwrap().memory_set, SCRATCH, &vec![1, 2, 3]);
    k.tasks[0].as_mut().unwrap().trap_cx.x[5] = 55;
    assert_eq!(k.spawn(&CHILD_IMAGE.to_vec()), Some(1));
    let child = task(&k, 1);
    assert_eq!(child.parent, Some(0));
    assert_eq!(child.status, TaskStatus::Ready);
    assert_eq!(copy_from_user(&child.memory_set, 0, 4), vec![0xC1, 0xC2, 0xC3, 0]);
    // Nothing of the parent's memory is in the child.
    assert_eq!(copy_from_user(&child.memory_set, SCRATCH, 3), vec![0, 0, 0]);
    assert_eq!(child.memory_set.area_count(), 5);
    assert_eq!(child.trap_cx.x[5], 0);
    assert_eq!(child.trap_cx.sepc, 0);
    assert_eq!(child.trap_cx.x[REG_SP], child.memory_set.heap_bottom());
    assert_eq!(child.stride, task(&k, 0).stride);
    assert_eq!(child.priority, task(&k, 0).priority);
    assert_eq!(copy_from_user(&task(&k, 0).memory_set, SCRATCH, 3), vec![1, 2, 3]);
    check_invariant(&k);
}

#[test]
fn exec_replaces_program_and_keeps_identity() {
    let mut k = boot();
    k.fork();
    k.suspend_current_and_run_next();
    assert_eq!(k.current, Some(1));
    k.fork();
    let before = task(&k, 1);
    let (parent, children, stride, priority) =
        (before.parent, before.children.clone(), before.stride, before.priority);
    copy_to_user(&mut k.tasks[1].as_mut().unwrap().memory_set, SCRATCH, &vec![1, 2, 3]);
    let perm = MapPermission::user_data();
    k.tasks[1].as_mut().unwrap().memory_set.insert_framed_area(0x100, 0x101, perm);
    assert_eq!(k.tasks[1].as_mut().unwrap().memory_set.change_program_brk(100), Some(0xA000));
    assert!(k.exec(&CHILD_IMAGE.to_vec()));
    let after = task(&k, 1);
    assert_eq!(after.pid, 1);
    assert_eq!(after.status, TaskStatus::Running);
    assert_eq!(after.parent, parent);
    assert_eq!(after.children, children);
    assert_eq!(after.children, vec![2]);
    assert_eq!(after.stride, stride);
    assert_eq!(after.priority, priority);
    assert_eq!(after.memory_set.area_count(), 5);
    assert_eq!(after.memory_set.program_brk(), after.memory_set.heap_bottom());
    assert_eq!(copy_from_user(&after.memory_set, 0, 4), vec![0xC1, 0xC2, 0xC3, 0]);
    assert_eq!(copy_from_user(&after.memory_set, SCRATCH, 3), vec![0, 0, 0]);
    assert_eq!(after.memory_set.translate(0x100), None);
    assert_eq!(after.trap_cx.sepc, 0);
    assert_eq!(after.trap_cx.x[REG_SP], after.memory_set.heap_bottom());
    check_invariant(&k);
}

#[test]
fn exit_makes_zombie_and_runs_next() {
    let mut k = boot();
    k.fork();
    k.suspend_current_and_run_next();
    assert_eq!(k.current, Some(1));
    k.exit_current_and_run_next(-9);
    assert_eq!(k.current, Some(0));
    let child = task(&k, 1);
    assert_eq!(child.status, TaskStatus::Zombie);
    assert_eq!(child.exit_code, -9);
    assert_eq!(child.memory_set.area_count(), 0);
    assert_eq!(child.parent, Some(0));
    assert!(queue(&k).is_empty());
    check_invariant(&k);
    // The zombie never runs again.
    for _ in 0..10 {
        k.suspend_current_and_run_next();
        assert_eq!(k.current, Some(0));
    }
}

#[test]
fn exit_of_first_task_keeps_its_children() {
    let mut k = boot();
    k.fork();
    k.fork();
    k.exit_current_and_run_next(1);
    assert_eq!(task(&k, 0).status, TaskStatus::Zombie);
    assert_eq!(task(&k, 0).children, vec![1, 2]);
    assert_eq!(task(&k, 1).parent, Some(0));
    assert_eq!(k.current, Some(1));
    check_invariant(&k);
}

#[test]
fn waitpid_fetches_zombie_and_stores_exit_code() {
    let mut k = boot();
    k.fork();
    k.suspend_current_and_run_next();
    k.exit_current_and_run_next(7);
    assert_eq!(k.waitpid(1, SCRATCH), 1);
    assert_eq!(read_i32(&k, 0, SCRATCH), 7);
    assert!(k.task(1).is_none());
    assert!(task(&k, 0).children.is_empty());
    assert_eq!(k.waitpid(1, SCRATCH), -1);
    assert_eq!(k.waitpid(-1, SCRATCH), -1);
    check_invariant(&k);
}

#[test]
fn waitpid_takes_first_zombie_in_order_of_children() {
    let mut k = boot();
    k.fork();
    k.fork();
    k.fork();
    // Children 1, 2 and 3 run in turn behind the first task; 3 and 2 exit.
    k.suspend_current_and_run_next();
    assert_eq!(k.current, Some(1));
    k.suspend_current_and_run_next();
    assert_eq!(k.current, Some(2));
    k.exit_current_and_run_next(22);
    assert_eq!(k.current, Some(3));
    k.exit_current_and_run_next(33);
    assert_eq!(k.current, Some(0));
    assert_eq!(k.waitpid(1, SCRATCH), -2);
    assert_eq!(k.waitpid(-1, SCRATCH), 2);
    assert_eq!(read_i32(&k, 0, SCRATCH), 22);
    assert_eq!(task(&k, 0).children, vec![1, 3]);
    assert_eq!(k.waitpid(-1, SCRATCH), 3);
    assert_eq!(read_i32(&k, 0, SCRATCH), 33);
    assert_eq!(k.waitpid(-1, SCRATCH), -2);
    assert_eq!(task(&k, 0).children, vec![1]);
    check_invariant(&k);
}

/// A small generator of numbers that look random.
struct Dice(u64);

impl Dice {
    fn roll(&mut self, sides: usize) -> usize {
        self.0 = self.0.wrapping_mul(6364136223846793005).wrapping_add(1442695040888963407);
        ((self.0 >> 33) as usize) % sides
    }
}

#[test]
fn random_requests_keep_the_kernel_in_order() {
    for seed in 1..=5u64 {
        let mut dice = Dice(seed);
        let mut k = boot();
        let mut served = 0;
        for _ in 0..1500 {
            if k.current.is_none() && k.run_next().is_none() {
                break;
            }
            let page = 0x100 + dice.roll(6);
            let call = match dice.roll(14) {
                0 | 1 if k.tasks.len() < 40 => Syscall::Fork,
                2 if k.tasks.len() < 40 => Syscall::Spawn { path: 0 },
                3 => Syscall::Exec { path: 0 },
                // The first task stays, to wait for the others.
                4 if k.current != Some(ROOT_PID) => {
                    Syscall::Exit { exit_code: dice.roll(100) as i32 - 50 }
                }
                5 | 6 => Syscall::WaitPid { pid: dice.roll(12) as isize - 1, exit_code_ptr: SCRATCH },
                7 => Syscall::Mmap {
                    start: page * PAGE_SIZE,
                    len: dice.roll(3) * PAGE_SIZE,
                    port: dice.roll(9),
                },
                8 => Syscall::Munmap { start: page * PAGE_SIZE, len: dice.roll(3) * PAGE_SIZE },
                9 => Syscall::Sbrk { size: dice.roll(3 * PAGE_SIZE) as i32 - PAGE_SIZE as i32 },
                10 => Syscall::SetPriority { prio: dice.roll(20) as isize - 2 },
                11 => Syscall::GetTime { ts: SCRATCH - 8, tz: 0 },
                12 => Syscall::GetPid,
                _ => Syscall::Yield,
            };
            let before: Vec<usize> = (0..k.tasks.len())
                .filter(|p| k.task(*p).is_some_and(|t| t.status != TaskStatus::Zombie))
                .collect();
            match try_syscall(&mut k, call, 1_000_000) {
                Ok(_) => served += 1,
                // The program that was loaded by exec or spawn has no name at address 0.
                Err(fault) => assert_eq!(fault, Fault::BadAddress),
            }
            check_invariant(&k);
            // Strides of tasks that run or wait stay close together.
            let strides: Vec<usize> = before
                .iter()
                .filter_map(|p| k.task(*p))
                .filter(|t| t.status != TaskStatus::Zombie)
                .map(|t| t.stride)
                .collect();
            if let (Some(max), Some(min)) = (strides.iter().max(), strides.iter().min()) {
                assert!(max - min <= BIG_STRIDE / 2);
            }
        }
        assert!(served > 100);
    }
}
