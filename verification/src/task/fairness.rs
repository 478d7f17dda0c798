//! The bound that stride scheduling keeps on how far the virtual times of
//! the tasks drift apart.

use crate::config::{BIG_STRIDE, MAX_SYSCALL_NUM};
use crate::loader::ProgramView;
use crate::mm::memory_set::MemoryView;
use crate::search::lemma_first_index;
use crate::syscall::Syscall;
use crate::task::control_block::{advanced, TaskStatus, TaskView, TrapContextView};
use crate::task::manager::{insert_position, lemma_insert_position, ReadyTask};
use crate::task::kernel::boot_view;
use crate::task::model::{pid_matches, KernelView};
use crate::task::preserve::same_place;
use vstd::prelude::*;

verus! {

/// The largest pass that a task can have: that of priority 2.
pub open spec fn max_pass() -> int {
    (BIG_STRIDE / 2) as int
}

/// No task has a pass above `max_pass`.
pub proof fn lemma_pass_bound(priority: usize)
    requires
        priority >= 2,
    ensures
        0 <= BIG_STRIDE / priority <= max_pass(),
{
    vstd::arithmetic::div_mod::lemma_div_is_ordered_by_denominator(
        BIG_STRIDE as int,
        2,
        priority as int,
    );
    vstd::arithmetic::div_mod::lemma_div_pos_is_pos(BIG_STRIDE as int, priority as int);
}

/// Whether the strides of the tasks that run or wait lie close together:
/// while a task runs, no ready task has a stride below its stride or more
/// than `max_pass` above it; while none runs, no two ready tasks have
/// strides more than `max_pass` apart.
pub open spec fn fair(k: KernelView) -> bool {
    if k.current is Some {
        forall|q: int|
            0 <= q < k.ready.len() ==> k.cur().stride <= (#[trigger] k.ready[q]).stride
                <= k.cur().stride + max_pass()
    } else {
        forall|i: int, j: int|
            0 <= i < k.ready.len() && 0 <= j < k.ready.len() ==> (#[trigger] k.ready[j]).stride - (
            #[trigger] k.ready[i]).stride <= max_pass()
    }
}

/// In a fair state, the strides of any two tasks that run or wait are at
/// most `max_pass` apart. As a task's stride grows by its pass with each
/// quantum that it gets, the number of quanta of each task, multiplied by
/// its pass, stays within `max_pass` of that of every other, so over a long
/// run the tasks get the processor in proportion to their priorities.
pub proof fn lemma_fair_spread(k: KernelView, a: int, b: int)
    requires
        k.wf(),
        fair(k),
        k.live(a),
        k.live(b),
        k.task(a).status != TaskStatus::Zombie,
        k.task(b).status != TaskStatus::Zombie,
    ensures
        k.task(a).stride - k.task(b).stride <= max_pass(),
{
    assert(k.task_ok(a));
    assert(k.task_ok(b));
    if k.task(a).status == TaskStatus::Ready {
        let qa = choose|q: int| 0 <= q < k.ready.len() && (#[trigger] k.ready[q]).pid == a;
        assert(k.entry_ok(qa));
        if k.task(b).status == TaskStatus::Ready {
            let qb = choose|q: int| 0 <= q < k.ready.len() && (#[trigger] k.ready[q]).pid == b;
            assert(k.entry_ok(qb));
            if k.current is Some {
                assert(k.ready[qa].stride <= k.cur().stride + max_pass());
                assert(k.cur().stride <= k.ready[qb].stride);
            }
        }
    } else if k.task(b).status == TaskStatus::Ready {
        let qb = choose|q: int| 0 <= q < k.ready.len() && (#[trigger] k.ready[q]).pid == b;
        assert(k.entry_ok(qb));
    }
}

/// The step to the next ready task keeps a fair state fair.
pub proof fn lemma_run_next_fair(k: KernelView)
    requires
        k.wf(),
        k.current is None,
        fair(k),
    ensures
        fair(k.run_next()),
{
    if k.ready.len() > 0 {
        let k2 = k.run_next();
        assert(k.entry_ok(0));
        assert(k2.cur().stride == k.ready[0].stride);
        assert forall|q: int| 0 <= q < k2.ready.len() implies k2.cur().stride <= (
        #[trigger] k2.ready[q]).stride <= k2.cur().stride + max_pass() by {
            assert(k2.ready[q] == k.ready[q + 1]);
            assert(k.ready[0].stride <= k.ready[q + 1].stride);
        }
    }
}

/// The end of a quantum keeps a fair state fair.
pub proof fn lemma_suspended_fair(k: KernelView)
    requires
        k.running(),
        fair(k),
    ensures
        fair(k.suspended()),
{
    let c = k.current->0 as int;
    let t = k.cur();
    let k2 = k.suspended();
    assert(k.live(c));
    assert(k.task_ok(c));
    lemma_pass_bound(t.priority);
    let stride = advanced(t.stride, t.pass);
    let e = ReadyTask { pid: k.current->0, stride };
    lemma_insert_position(k.ready, stride);
    let p = insert_position(k.ready, stride);
    assert forall|i: int| 0 <= i < k2.ready.len() implies t.stride <= (
    #[trigger] k2.ready[i]).stride <= t.stride + max_pass() by {
        if i < p {
            assert(k2.ready[i] == k.ready[i]);
        } else if i > p {
            assert(k2.ready[i] == k.ready[i - 1]);
        }
    }
}

/// A quantum that ends with a yield keeps a fair state fair.
pub proof fn lemma_yield_fair(k: KernelView)
    requires
        k.running(),
        fair(k),
    ensures
        fair(k.suspended().run_next()),
{
    lemma_suspended_fair(k);
    crate::task::preserve::lemma_suspended_wf(k);
    lemma_run_next_fair(k.suspended());
}

/// The exit of the current task keeps a fair state fair.
pub proof fn lemma_exit_fair(k: KernelView, code: i32)
    requires
        k.running(),
        fair(k),
    ensures
        fair(k.exited(code)),
        fair(k.exited(code).run_next()),
{
    crate::task::preserve::lemma_exited_wf(k, code);
    lemma_run_next_fair(k.exited(code));
}

/// A new child, which starts with the stride of its parent, keeps a fair
/// state fair.
pub proof fn lemma_with_child_fair(k: KernelView, memory: MemoryView, trap_cx: TrapContextView)
    requires
        k.running(),
        fair(k),
    ensures
        fair(k.with_child(memory, trap_cx)),
{
    let c = k.current->0 as int;
    let t = k.cur();
    let k2 = k.with_child(memory, trap_cx);
    assert(k.live(c));
    lemma_insert_position(k.ready, t.stride);
    let p = insert_position(k.ready, t.stride);
    assert(k2.cur().stride == t.stride);
    assert forall|i: int| 0 <= i < k2.ready.len() implies t.stride <= (
    #[trigger] k2.ready[i]).stride <= t.stride + max_pass() by {
        if i < p {
            assert(k2.ready[i] == k.ready[i]);
        } else if i > p {
            assert(k2.ready[i] == k.ready[i - 1]);
        }
    }
}

/// A change to the current task that leaves its stride alone keeps a fair
/// state fair.
pub proof fn lemma_with_task_fair(k: KernelView, t: TaskView)
    requires
        k.running(),
        fair(k),
        same_place(k.cur(), t),
    ensures
        fair(k.with_task(k.current->0, t)),
{
    assert(k.live(k.current->0 as int));
}

/// Fetching a zombie child keeps a fair state fair.
pub proof fn lemma_reaped_fair(k: KernelView, idx: int, ptr: usize)
    requires
        k.running(),
        fair(k),
        0 <= idx < k.cur().children.len(),
        k.task(k.cur().children[idx] as int).status == TaskStatus::Zombie,
    ensures
        fair(k.reaped(idx, ptr)),
{
    let c = k.current->0 as int;
    assert(k.live(c));
    assert(k.task_ok(c));
    assert(k.live(k.cur().children[idx] as int));
    assert(k.task_ok(k.cur().children[idx] as int));
}

/// The state in which the kernel starts is fair.
pub proof fn lemma_boot_fair(programs: Seq<ProgramView>, image: Seq<u8>)
    ensures
        fair(boot_view(programs, image)),
{
}

/// Whatever a task asks of the kernel, serving the request keeps a fair
/// state fair: from the start of the kernel on, the strides of the tasks
/// that run or wait never drift more than `max_pass` apart.
pub proof fn lemma_served_fair(k: KernelView, call: Syscall, now_us: usize)
    requires
        k.running(),
        fair(k),
        k.accepts(call),
    ensures
        fair(k.counted(call.id()).served(call, now_us)),
{
    let id = call.id();
    assert(id < MAX_SYSCALL_NUM);
    crate::syscall::lemma_counted(k, id);
    let k1 = k.counted(id);
    assert(k.live(k.current->0 as int));
    lemma_with_task_fair(k, k1.cur());
    assert(k1 == k.with_task(k.current->0, k1.cur()));
    assert(fair(k1));
    let c = k1.current->0 as int;
    assert(k1.live(c));
    assert(k1.task_ok(c));
    let memory = k1.cur().memory;
    match call {
        Syscall::Exit { exit_code } => {
            lemma_exit_fair(k1, exit_code);
        },
        Syscall::Yield => {
            lemma_yield_fair(k1);
        },
        Syscall::GetPid => {},
        Syscall::Fork => {
            lemma_with_child_fair(
                k1,
                memory,
                k1.cur().trap_cx.with_reg(crate::task::control_block::REG_A0 as int, 0),
            );
        },
        Syscall::Exec { path } => {
            match k1.program_at(path as int) {
                Some(image) => {
                    let m = MemoryView::of_image(image);
                    lemma_with_task_fair(
                        k1,
                        TaskView {
                            memory: m,
                            trap_cx: TrapContextView::initial(0, m.heap_bottom),
                            ..k1.cur()
                        },
                    );
                },
                None => {},
            }
        },
        Syscall::WaitPid { pid, exit_code_ptr } => {
            if k1.wait_result(pid) >= 0 {
                let wanted = |x: usize|
                    pid_matches(pid, x) && k1.task(x as int).status == TaskStatus::Zombie;
                lemma_first_index(k1.cur().children, wanted);
                let idx = k1.zombie_child_index(pid);
                assert(wanted(k1.cur().children[idx]));
                lemma_reaped_fair(k1, idx, exit_code_ptr);
            }
        },
        Syscall::GetTime { ts, .. } => {
            lemma_with_task_fair(
                k1,
                k1.served(call, now_us).cur(),
            );
            assert(k1.served(call, now_us) == k1.with_task(
                k1.current->0,
                k1.served(call, now_us).cur(),
            ));
        },
        Syscall::TaskInfo { ti } => {
            lemma_with_task_fair(
                k1,
                k1.served(call, now_us).cur(),
            );
            assert(k1.served(call, now_us) == k1.with_task(
                k1.current->0,
                k1.served(call, now_us).cur(),
            ));
        },
        Syscall::Mmap { start, len, port } => {
            if memory.mmap_ok(start as int, len as int, port) {
                lemma_with_task_fair(
                    k1,
                    TaskView { memory: memory.mmap(start as int, len as int, port), ..k1.cur() },
                );
            }
        },
        Syscall::Munmap { start, len } => {
            if memory.munmap_ok(start as int, len as int) {
                lemma_with_task_fair(
                    k1,
                    TaskView { memory: memory.munmap(start as int, len as int), ..k1.cur() },
                );
            }
        },
        Syscall::Sbrk { size } => {
            if memory.brk_ok(size as int) {
                lemma_with_task_fair(
                    k1,
                    TaskView { memory: memory.moved_brk(size as int), ..k1.cur() },
                );
            }
        },
        Syscall::Spawn { path } => {
            match k1.program_at(path as int) {
                Some(image) => {
                    let m = MemoryView::of_image(image);
                    lemma_with_child_fair(k1, m, TrapContextView::initial(0, m.heap_bottom));
                },
                None => {},
            }
        },
        Syscall::SetPriority { prio } => {
            if prio >= 2 {
                lemma_with_task_fair(
                    k1,
                    TaskView {
                        priority: prio as usize,
                        pass: BIG_STRIDE / (prio as usize),
                        ..k1.cur()
                    },
                );
            }
        },
    }
}

/// The state after `n` quanta, each of which ended with the current task
/// giving up the processor.
pub open spec fn after_quanta(k: KernelView, n: nat) -> KernelView
    decreases n,
{
    if n == 0 {
        k
    } else {
        after_quanta(k, (n - 1) as nat).suspended().run_next()
    }
}

/// How many of the first `n` quanta the task `pid` got.
pub open spec fn turns(k: KernelView, n: nat, pid: usize) -> nat
    decreases n,
{
    if n == 0 {
        0
    } else {
        turns(k, (n - 1) as nat, pid) + if after_quanta(k, (n - 1) as nat).current == Some(pid) {
            1nat
        } else {
            0nat
        }
    }
}

/// Whether in each of the first `n` quanta the stride of the task that ran
/// could grow by its pass without reaching the largest number there is.
pub open spec fn strides_fit(k: KernelView, n: nat) -> bool
    decreases n,
{
    n == 0 || {
        let s = after_quanta(k, (n - 1) as nat);
        strides_fit(k, (n - 1) as nat) && s.cur().stride + s.cur().pass <= usize::MAX
    }
}

/// One quantum changes nothing about a task but its status and, for the
/// task that ran, its stride, which grows by its pass.
proof fn lemma_quantum(k: KernelView, pid: int)
    requires
        k.running(),
        k.live(pid),
    ensures
        k.suspended().run_next().running(),
        k.suspended().run_next().live(pid),
        k.suspended().run_next().task(pid).pass == k.task(pid).pass,
        k.suspended().run_next().task(pid).priority == k.task(pid).priority,
        k.suspended().run_next().task(pid).status == TaskStatus::Zombie <==> k.task(pid).status
            == TaskStatus::Zombie,
        k.suspended().run_next().task(pid).stride == if k.current == Some(pid as usize) {
            advanced(k.task(pid).stride, k.task(pid).pass)
        } else {
            k.task(pid).stride
        },
{
    let s = k.suspended();
    crate::task::preserve::lemma_suspended_wf(k);
    crate::task::preserve::lemma_run_next_wf(s);
    assert(k.live(k.current->0 as int));
    assert(s.live(pid));
    assert(s.entry_ok(0));
}

/// Over any number of quanta the kernel stays in order and fair, every task
/// stays, and, as long as no stride reaches the largest number there is,
/// the stride of each task has grown by its pass once for each quantum
/// that the task got.
pub proof fn lemma_quanta(k: KernelView, n: nat, pid: int)
    requires
        k.running(),
        fair(k),
        k.live(pid),
    ensures
        after_quanta(k, n).running(),
        fair(after_quanta(k, n)),
        after_quanta(k, n).live(pid),
        after_quanta(k, n).task(pid).pass == k.task(pid).pass,
        after_quanta(k, n).task(pid).status == TaskStatus::Zombie <==> k.task(pid).status
            == TaskStatus::Zombie,
        strides_fit(k, n) ==> after_quanta(k, n).task(pid).stride == k.task(pid).stride + turns(
            k,
            n,
            pid as usize,
        ) * k.task(pid).pass,
    decreases n,
{
    let p = k.task(pid).pass as int;
    if n > 0 {
        let m = (n - 1) as nat;
        let s = after_quanta(k, m);
        lemma_quanta(k, m, pid);
        lemma_quantum(s, pid);
        lemma_yield_fair(s);
        if strides_fit(k, n) {
            let t = turns(k, m, pid as usize) as int;
            let u = turns(k, n, pid as usize) as int;
            assert(strides_fit(k, m));
            assert(s.cur().stride + s.cur().pass <= usize::MAX);
            if s.current == Some(pid as usize) {
                assert(u == t + 1);
                assert(u * p == t * p + p) by (nonlinear_arith)
                    requires
                        u == t + 1,
                ;
            } else {
                assert(u == t);
            }
        }
    } else {
        let u = turns(k, n, pid as usize) as int;
        assert(u == 0);
        assert(u * p == 0) by (nonlinear_arith)
            requires
                u == 0,
        ;
    }
}

/// The fairness of stride scheduling: over any number of quanta in which no
/// stride reaches the largest number there is, the virtual times of two
/// tasks that run or wait (the stride that a task started with, plus its
/// pass for each quantum that it got) are at most `max_pass` apart. The
/// number of quanta that a task gets, multiplied by its pass, therefore
/// differs between two tasks by a bounded amount however long they run: in
/// the long run each task gets the processor in proportion to its priority.
pub proof fn lemma_turns_are_fair(k: KernelView, n: nat, a: int, b: int)
    requires
        k.running(),
        fair(k),
        strides_fit(k, n),
        k.live(a),
        k.live(b),
        k.task(a).status != TaskStatus::Zombie,
        k.task(b).status != TaskStatus::Zombie,
    ensures
        (k.task(a).stride + turns(k, n, a as usize) * k.task(a).pass) - (k.task(b).stride + turns(
            k,
            n,
            b as usize,
        ) * k.task(b).pass) <= max_pass(),
{
    lemma_quanta(k, n, a);
    lemma_quanta(k, n, b);
    lemma_fair_spread(after_quanta(k, n), a, b);
}

} // verus!
