use noctis::gdt::{
    init_gdt, GdtSegemntDescriptor, Tss64, TssDescriptor, KERNEL_CODE_SEGMENT,
    KERNEL_DATA_SEGMENT, TSS64_SEGMENT_SELECTOR,
};
use noctis::idt::{init_idt, Idt, IdtDescriptor, IdtHandlers, IDT_DPL_0, IDT_DPL_3,
    IDT_GATE_TYPE_INTGATE};

#[test]
fn selectors_are_table_indices() {
    assert_eq!(KERNEL_CODE_SEGMENT, 0x08);
    assert_eq!(KERNEL_DATA_SEGMENT, 0x10);
    assert_eq!(TSS64_SEGMENT_SELECTOR, 0x18);
}

#[test]
fn code_and_data_descriptors_pack_exactly() {
    // Kernel code: execute+read, ring 0, 4 KiB granularity, full 20-bit
    // limit; long bit set, db clear, avl set.
    let code = GdtSegemntDescriptor::create(true, false, true, 0, 0xFFFFF, 0, 1);
    assert_eq!(code.to_u64(), 0x00BF_9A00_0000_FFFF);
    // Kernel data: read+write, ring 0; db set, long clear.
    let data = GdtSegemntDescriptor::create(true, false, false, 0, 0xFFFFF, 0, 1);
    assert_eq!(data.to_u64(), 0x00DF_9200_0000_FFFF);
    assert_eq!(GdtSegemntDescriptor::null().to_u64(), 0);
}

#[test]
fn descriptor_field_offsets() {
    let base: u32 = 0x1234_5678;
    let limit: u32 = 0xABCDE;
    let d = GdtSegemntDescriptor::create(true, false, false, base, limit, 3, 0).to_u64();
    // limit bits 0..16 and 48..52
    assert_eq!(d & 0xFFFF, (limit & 0xFFFF) as u64);
    assert_eq!((d >> 48) & 0xF, ((limit >> 16) & 0xF) as u64);
    // base bits 16..40 and 56..64
    assert_eq!((d >> 16) & 0xFF_FFFF, (base & 0xFF_FFFF) as u64);
    assert_eq!((d >> 56) & 0xFF, (base >> 24) as u64);
    // dpl bits 45..47, present bit 47
    assert_eq!((d >> 45) & 0b11, 3);
    assert_eq!((d >> 47) & 1, 1);
}

#[test]
fn tss_descriptor_packs_exactly() {
    let base: u64 = 0x0000_7FFC_AB12_3000;
    let d = TssDescriptor::create(base).to_u128();
    // limit = TSS size (104 bytes)
    assert_eq!(d & 0xFFFF, 104);
    // base reassembles from bits 16..40 and 56..96
    let reassembled = ((d >> 16) & 0xFF_FFFF) as u64 | ((((d >> 56) & 0xFF_FFFF_FFFF) as u64) << 24);
    assert_eq!(reassembled, base);
    // type 0b1001 (64-bit TSS), system segment, ring 0, present
    assert_eq!((d >> 40) & 0xF, 0b1001);
    assert_eq!((d >> 44) & 1, 0);
    assert_eq!((d >> 45) & 0b11, 0);
    assert_eq!((d >> 47) & 1, 1);
    // long set, granularity set, reserved top word zero
    assert_eq!((d >> 53) & 1, 1);
    assert_eq!((d >> 55) & 1, 1);
    assert_eq!(d >> 96, 0);
}

#[test]
fn gdt_wrapper_built_around_tss() {
    let tss = Tss64::new(0xA000, vec![1, 2, 3, 4, 5, 6, 7], 0xB000);
    assert_eq!(tss.phys_addr(), 0xB000);
    assert_eq!(tss.rsp0(), 0xA000);
    assert_eq!(tss.ist_slot(3), 4);
    let gdt = init_gdt(tss);
    assert_eq!(gdt.inner.null_segment.to_u64(), 0);
    assert_eq!(
        gdt.inner.tss_segment.to_u128(),
        TssDescriptor::create(0xB000).to_u128()
    );
}

fn handlers() -> IdtHandlers {
    IdtHandlers {
        unimplemented: 0x1111_0000,
        breakpoint: 0x2222_0000,
        invalid_opcode: 0x3333_0000,
        general_protection_fault: 0x4444_0000,
        page_fault: 0x5555_0000,
        timer: 0x6666_0000,
    }
}

#[test]
fn idt_gate_packs_exactly() {
    let handler: u64 = 0xFFFF_8000_1234_5678;
    let d = IdtDescriptor::create(0x08, 1, IDT_GATE_TYPE_INTGATE, IDT_DPL_3, handler).to_u128();
    // offset reassembles from bits 0..16, 48..64, 64..96
    let offset =
        (d & 0xFFFF) as u64 | (((d >> 48) & 0xFFFF) as u64) << 16 | (((d >> 64) & 0xFFFF_FFFF) as u64) << 32;
    assert_eq!(offset, handler);
    assert_eq!((d >> 16) & 0xFFFF, 0x08); // selector
    assert_eq!((d >> 32) & 0b111, 1); // ist
    assert_eq!((d >> 40) & 0xF, 0b1110); // interrupt gate
    assert_eq!((d >> 45) & 0b11, 0b11); // dpl 3
    assert_eq!((d >> 47) & 1, 1); // present
    assert_eq!(d >> 96, 0); // reserved
}

#[test]
fn idt_wires_the_five_vectors() {
    let h = handlers();
    let idt: Idt = init_idt(h);
    assert_eq!(idt.len(), 256);
    let expect = |handler: u64, dpl: u8| {
        IdtDescriptor::create(KERNEL_CODE_SEGMENT, 1, IDT_GATE_TYPE_INTGATE, dpl, handler)
            .to_u128()
    };
    assert_eq!(idt.entry(3), expect(h.breakpoint, IDT_DPL_3));
    assert_eq!(idt.entry(6), expect(h.invalid_opcode, IDT_DPL_0));
    assert_eq!(idt.entry(13), expect(h.general_protection_fault, IDT_DPL_0));
    assert_eq!(idt.entry(14), expect(h.page_fault, IDT_DPL_0));
    assert_eq!(idt.entry(42), expect(h.timer, IDT_DPL_0));
    // Everything else points at the unimplemented handler with ring-0
    // access only.
    for v in [0usize, 1, 2, 4, 5, 7, 41, 43, 255] {
        assert_eq!(idt.entry(v), expect(h.unimplemented, IDT_DPL_0));
    }
}
