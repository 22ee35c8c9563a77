use noctis::interrupt::check_and_schedule;
use noctis::memlayout::{Address, MSize, PhysAddr, VirtAddr};
use noctis::paging::{PageTable, PageTableArena, PageTableAttr};
use noctis::task::{push_stack, CpuContextBlock, KernelStack, TaskState, KERNEL_STACK_SIZE};

fn fresh_cpu() -> (CpuContextBlock, PageTableArena) {
    let mut arena = PageTableArena::new();
    let table = PageTable::new(&mut arena);
    let mut cpu = CpuContextBlock::new();
    cpu.init(table);
    (cpu, arena)
}

#[test]
fn init_installs_idle_task() {
    let (cpu, _arena) = fresh_cpu();
    assert_eq!(cpu.tasks().len(), 1);
    let idle = cpu.current_task();
    assert_eq!(idle.pid().to_u32(), 0);
    assert_eq!(idle.state(), TaskState::Runnable);
    assert!(idle.is_running());
}

#[test]
fn spawn_primes_context_and_appends() {
    let (mut cpu, mut arena) = fresh_cpu();
    let stack = KernelStack::new(0x10_0000);
    let pid = cpu.spawn(&mut arena, stack, 0xDEAD_BEE0);
    assert_eq!(pid.to_u32(), 1);
    assert_eq!(cpu.tasks().len(), 2);
    let t = &cpu.tasks()[1];
    assert_eq!(t.state(), TaskState::Runnable);
    assert!(!t.is_running());
    // The stack pointer sits just below the top of the fresh stack, with
    // the entry address pushed as the return address and interrupts
    // enabled in the saved flags.
    assert_eq!(t.context().rsp, 0x10_0000 + KERNEL_STACK_SIZE - 8);
    assert_eq!(t.context().rflags, 0x202);
    // The idle task is still current.
    assert_eq!(cpu.current_task().pid().to_u32(), 0);
}

#[test]
fn single_runnable_task_switch_is_noop() {
    // Scheduling with exactly one Runnable task performs no context
    // switch and leaves the running flag unchanged.
    let (mut cpu, _arena) = fresh_cpu();
    let r = cpu.switch();
    assert!(r.is_none());
    assert_eq!(cpu.current_task().pid().to_u32(), 0);
    assert!(cpu.current_task().is_running());
}

#[test]
fn round_robin_cycles_through_tasks() {
    // One idle task (pid 0), two more spawned (pid 1, pid 2): three
    // consecutive switches cycle 0 -> 1 -> 2 -> 0.
    let (mut cpu, mut arena) = fresh_cpu();
    cpu.spawn(&mut arena, KernelStack::new(0x10_0000), 0x1000);
    cpu.spawn(&mut arena, KernelStack::new(0x20_0000), 0x2000);
    assert_eq!(cpu.current_task().pid().to_u32(), 0);

    let r1 = cpu.switch().expect("switch to pid 1");
    assert_eq!(r1.to_u32(), 1);
    assert_eq!(cpu.current_task().pid().to_u32(), 1);
    assert!(cpu.current_task().is_running());
    assert!(!cpu.tasks()[0].is_running());

    let r2 = cpu.switch().expect("switch to pid 2");
    assert_eq!(r2.to_u32(), 2);
    assert_eq!(cpu.current_task().pid().to_u32(), 2);

    let r3 = cpu.switch().expect("switch back to pid 0");
    assert_eq!(r3.to_u32(), 0);
    assert_eq!(cpu.current_task().pid().to_u32(), 0);

    // Spawning a fourth task does not disturb the cycle positions of
    // 0, 1, 2; the new task is appended after pid 2 and before pid 0 in
    // scan order.
    let pid3 = cpu.spawn(&mut arena, KernelStack::new(0x30_0000), 0x3000);
    assert_eq!(pid3.to_u32(), 3);
    assert_eq!(cpu.switch().unwrap().to_u32(), 1);
    assert_eq!(cpu.switch().unwrap().to_u32(), 2);
    assert_eq!(cpu.switch().unwrap().to_u32(), 3);
    assert_eq!(cpu.switch().unwrap().to_u32(), 0);
}

#[test]
fn spawned_tasks_share_kernel_mappings() {
    let mut arena = PageTableArena::new();
    let table = PageTable::new(&mut arena);
    table
        .create_mapping(
            &mut arena,
            VirtAddr::new(0x4000_0000),
            PhysAddr::new(0x800_0000),
            MSize::new(0x1000),
            PageTableAttr::ReadWriteKernel,
        )
        .unwrap();
    let probe = table
        .walk(&arena, VirtAddr::new(0x4000_0000))
        .map(|(pa, at)| (pa.to_u64(), at));
    let mut cpu = CpuContextBlock::new();
    cpu.init(table);
    cpu.spawn(&mut arena, KernelStack::new(0x10_0000), 0x1000);
    assert_eq!(probe, Some((0x800_0000, 0x8000_0000_0000_0003)));
    // The spawned task's own table translates the kernel mapping the same
    // way, because the top-level entries are shared.
    let spawned_walk = cpu.tasks()[1]
        .page_table()
        .expect("spawned task has an address space")
        .walk(&arena, VirtAddr::new(0x4000_0000))
        .map(|(pa, at)| (pa.to_u64(), at));
    assert_eq!(spawned_walk, probe);
}

#[test]
fn tick_counts_and_quantum_preempts() {
    let (mut cpu, mut arena) = fresh_cpu();
    cpu.spawn(&mut arena, KernelStack::new(0x10_0000), 0x1000);
    // Below the quantum: no switch.
    cpu.tick();
    cpu.tick();
    assert_eq!(cpu.ticks(), 2);
    assert!(check_and_schedule(&mut cpu).is_none());
    assert_eq!(cpu.ticks(), 2);
    // Reaching the quantum: a switch happens and the counter resets.
    cpu.tick();
    let switched = check_and_schedule(&mut cpu);
    assert_eq!(switched.unwrap().to_u32(), 1);
    assert_eq!(cpu.ticks(), 0);
    assert_eq!(cpu.current_task().pid().to_u32(), 1);
}

#[test]
fn stack_push_records_words() {
    let mut stack = KernelStack::new(0x10_0000);
    assert_eq!(stack.top(), None);
    push_stack(&mut stack, 0x1234);
    assert_eq!(stack.top(), Some(0x1234));
    push_stack(&mut stack, 0x5678);
    assert_eq!(stack.top(), Some(0x5678));
}
