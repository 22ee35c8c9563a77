use noctis::allocator::{init_allocator, LinerAllocator};
use noctis::interrupt::{
    interrupt_handler, DispatchOutcome, InterruptContext, InterruptRegisters,
    InterruptStackFrame,
};
use noctis::log::print;
use noctis::memlayout::{
    phys_to_virt, virt_to_phys, Address, MSize, PhysAddr, VirtAddr, LINER_MAPPING_BASE_VADDR,
};
use noctis::qemu::QemuExitCode;
use noctis::task::CpuContextBlock;
use noctis::timer::{get_count, increment_count, init_timer, LocalApicTimer};
use noctis::uart::{Uart, IO_ADDR_COM1};

#[test]
fn address_index_extraction() {
    let va = VirtAddr::new(0xFFFF_8880_0000_0000);
    assert_eq!(va.pml4_index(), 0x111);
    assert_eq!(va.pdpt_index(), 0);
    assert_eq!(va.pd_index(), 0);
    assert_eq!(va.pt_index(), 0);
    let va2 = VirtAddr::new((1 << 39) | (2 << 30) | (3 << 21) | (4 << 12) | 0x123);
    assert_eq!(va2.pml4_index(), 1);
    assert_eq!(va2.pdpt_index(), 2);
    assert_eq!(va2.pd_index(), 3);
    assert_eq!(va2.pt_index(), 4);
}

#[test]
fn linear_mapping_round_trip() {
    let p = PhysAddr::new(0x1234_5000);
    let v = phys_to_virt(p);
    assert_eq!(v.to_u64(), LINER_MAPPING_BASE_VADDR + 0x1234_5000);
    assert_eq!(virt_to_phys(v).to_u64(), 0x1234_5000);
    // Kernel-image window addresses translate against the image base.
    let kv = VirtAddr::new(0xFFFF_FFFF_8000_2000);
    assert_eq!(virt_to_phys(kv).to_u64(), 0x2000);
}

#[test]
fn sizes_align_and_measure() {
    let s = MSize::new(0x1801);
    assert_eq!(s.page_align_up().to_u64(), 0x2000);
    assert_eq!(MSize::new(0x2000).page_align_up().to_u64(), 0x2000);
    let d = MSize::from_address(VirtAddr::new(0x1000), VirtAddr::new(0x4800));
    assert_eq!(d.to_u64(), 0x3800);
    assert_eq!(VirtAddr::new(0x1001).align_up(0x100).to_u64(), 0x1100);
}

#[test]
fn bump_allocator_hands_out_aligned_blocks() {
    let mut a: LinerAllocator = init_allocator(0x1000, 0x1000);
    let p1 = a.allocate(0x10, 8).unwrap();
    assert_eq!(p1, 0x1000);
    let p2 = a.allocate(0x10, 0x100).unwrap();
    assert_eq!(p2, 0x1100); // rounded up past the first block
    // Deallocation is a no-op; memory is never reused.
    a.dealloc(p1);
    let p3 = a.allocate(0x10, 8).unwrap();
    assert!(p3 > p2);
    // Exhaustion is reported, not fatal here.
    assert_eq!(a.allocate(0x1000, 8), None);
}

#[test]
fn timer_count_skips_zero_on_wrap() {
    let mut t = LocalApicTimer::new();
    assert_eq!(get_count(&t), 0);
    increment_count(&mut t);
    assert_eq!(get_count(&t), 1);
    t.count = u32::MAX;
    increment_count(&mut t);
    assert_eq!(get_count(&t), 1); // wraparound skips zero
}

#[test]
fn timer_programs_periodic_mode() {
    let t = LocalApicTimer::new();
    let writes = init_timer(&t);
    assert_eq!(
        writes,
        vec![
            (0xFEE0_03E0, 0b110),
            (0xFEE0_0380, 0x100_0000),
            (0xFEE0_0320, 0x2_002A),
        ]
    );
}

#[test]
fn uart_setup_and_output() {
    let u = Uart::new(IO_ADDR_COM1);
    let init = u.init();
    assert_eq!(
        init,
        vec![
            (0x3F9, 0x00),
            (0x3FB, 0x80),
            (0x3F8, 0x01),
            (0x3F9, 0x00),
            (0x3FB, 0x03),
            (0x3FA, 0xC7),
            (0x3FC, 0x0B),
        ]
    );
    assert!(Uart::transmit_ready(0x20));
    assert!(!Uart::transmit_ready(0x1F));
    assert_eq!(u.write(b'a'), (0x3F8, b'a'));
    let out = u.write_str("ok");
    assert_eq!(out, vec![(0x3F8, b'o'), (0x3F8, b'k')]);
    let line = print("hi");
    assert_eq!(line, vec![(0x3F8, b'h'), (0x3F8, b'i')]);
}

#[test]
fn qemu_exit_codes() {
    assert_eq!(QemuExitCode::Sucess.code(), 1);
    assert_eq!(QemuExitCode::Fail.code(), 2);
}

fn frame(vector: u64) -> InterruptStackFrame {
    InterruptStackFrame {
        registers: InterruptRegisters {
            rax: 0, rbx: 0, rcx: 0, rdx: 0, rsi: 0, rdi: 0, rbp: 0, rsp: 0,
            r8: 0, r9: 0, r10: 0, r11: 0, r12: 0, r13: 0, r14: 0, r15: 0,
        },
        vector,
        error_code: 0,
        context: InterruptContext { rip: 0x1000, cs: 8, rflags: 0x202, rsp: 0x2000, ss: 0x10 },
    }
}

#[test]
fn dispatch_classifies_vectors() {
    let mut timer = LocalApicTimer::new();
    let mut cpu = CpuContextBlock::new();
    // Breakpoint resumes.
    assert_eq!(
        interrupt_handler(&frame(3), &mut timer, &mut cpu),
        (DispatchOutcome::Resume, None)
    );
    // Faults halt.
    for v in [6, 13, 14, 99] {
        assert_eq!(
            interrupt_handler(&frame(v), &mut timer, &mut cpu),
            (DispatchOutcome::Halt, None)
        );
    }
    assert_eq!(get_count(&timer), 0);
    // The timer vector counts, acknowledges and ticks.
    let (outcome, eoi) = interrupt_handler(&frame(42), &mut timer, &mut cpu);
    assert_eq!(outcome, DispatchOutcome::Resume);
    assert_eq!(eoi, Some((0xFEE0_00B0, 0)));
    assert_eq!(get_count(&timer), 1);
    assert_eq!(cpu.ticks(), 1);
}
