//! The Interrupt Descriptor Table: 256 bit-exact gate descriptors.  Every
//! vector defaults to the "unimplemented" handler; the breakpoint,
//! invalid-opcode, general-protection-fault, page-fault and local-timer
//! vectors get their own entry stubs.  Only the breakpoint gate is
//! callable from ring 3.  Activating the table (`lidt`, then enabling
//! interrupts) is the runtime's part, as are the handler stubs whose
//! addresses this module packs.

use crate::gdt::KERNEL_CODE_SEGMENT;
use vstd::prelude::*;

verus! {

pub const IDT_DPL_0: u8 = 0b00;

pub const IDT_DPL_3: u8 = 0b11;

pub const IDT_GATE_TYPE_INTGATE: u8 = 0b1110;

/// The packed 16-byte gate descriptor: handler offset split over bits
/// 0..16, 48..64 and 64..96; segment selector at 16..32; the
/// interrupt-stack-table index at 32..35; gate type at 40..44; privilege
/// level at 45..47; present at 47.
pub open spec fn idt_descriptor_bits(
    segment_selector: u16,
    ist_index: u8,
    gate_type: u8,
    dpl: u8,
    handler: u64,
) -> u128 {
    ((handler & 0xFFFF) as u128) | ((segment_selector as u128) << 16) | (((ist_index
        & 0b111) as u128) << 32) | (((gate_type & 0b1111) as u128) << 40) | (((dpl
        & 0b11) as u128) << 45) | (1u128 << 47) | ((((handler >> 16) & 0xFFFF) as u128) << 48) | ((((
    handler >> 32) & 0xFFFF_FFFF) as u128) << 64)
}

/// One 16-byte gate descriptor.
#[derive(Debug, Clone, Copy, PartialEq, Eq, Structural)]
pub struct IdtDescriptor {
    value: u128,
}

impl View for IdtDescriptor {
    type V = u128;

    closed spec fn view(&self) -> u128 {
        self.value
    }
}

impl IdtDescriptor {
    /// Pack a gate descriptor for the handler at address `handler`.
    pub fn create(
        segment_selector: u16,
        ist_index: u8,
        gate_type: u8,
        dpl: u8,
        handler: u64,
    ) -> (r: Self)
        ensures
            r@ == idt_descriptor_bits(segment_selector, ist_index, gate_type, dpl, handler),
    {
        let value = ((handler & 0xFFFF) as u128) | ((segment_selector as u128) << 16) | (((
        ist_index & 0b111) as u128) << 32) | (((gate_type & 0b1111) as u128) << 40) | (((dpl
            & 0b11) as u128) << 45) | (1u128 << 47) | ((((handler >> 16) & 0xFFFF) as u128) << 48)
            | ((((handler >> 32) & 0xFFFF_FFFF) as u128) << 64);
        IdtDescriptor { value }
    }

    pub fn to_u128(&self) -> (r: u128)
        ensures
            r == self@,
    {
        self.value
    }
}

/// Addresses of the interrupt entry stubs and of the default
/// handler; they come from the runtime, which owns the code.
#[derive(Debug, Clone, Copy, PartialEq, Eq, Structural)]
pub struct IdtHandlers {
    pub unimplemented: u64,
    pub breakpoint: u64,
    pub invalid_opcode: u64,
    pub general_protection_fault: u64,
    pub page_fault: u64,
    pub timer: u64,
}

/// The descriptor word required at a given interrupt vector.
pub open spec fn idt_entry_bits(segment_selector: u16, handlers: IdtHandlers, i: int) -> u128 {
    if i == 3 {
        idt_descriptor_bits(segment_selector, 1, IDT_GATE_TYPE_INTGATE, IDT_DPL_3, handlers.breakpoint)
    } else if i == 6 {
        idt_descriptor_bits(
            segment_selector,
            1,
            IDT_GATE_TYPE_INTGATE,
            IDT_DPL_0,
            handlers.invalid_opcode,
        )
    } else if i == 13 {
        idt_descriptor_bits(
            segment_selector,
            1,
            IDT_GATE_TYPE_INTGATE,
            IDT_DPL_0,
            handlers.general_protection_fault,
        )
    } else if i == 14 {
        idt_descriptor_bits(segment_selector, 1, IDT_GATE_TYPE_INTGATE, IDT_DPL_0, handlers.page_fault)
    } else if i == 42 {
        idt_descriptor_bits(segment_selector, 1, IDT_GATE_TYPE_INTGATE, IDT_DPL_0, handlers.timer)
    } else {
        idt_descriptor_bits(
            segment_selector,
            1,
            IDT_GATE_TYPE_INTGATE,
            IDT_DPL_0,
            handlers.unimplemented,
        )
    }
}

/// The whole table: 256 gate descriptors.
pub struct Idt {
    entries: Vec<IdtDescriptor>,
}

impl Idt {
    pub closed spec fn view_entries(&self) -> Seq<u128> {
        self.entries@.map_values(|d: IdtDescriptor| d@)
    }

    /// Build the table: every vector wired to the unimplemented handler,
    /// then the five implemented vectors overridden.
    pub fn new(segment_selector: u16, handlers: IdtHandlers) -> (r: Idt)
        ensures
            r.view_entries().len() == 256,
            forall|i: int|
                0 <= i < 256 ==> #[trigger] r.view_entries()[i] == idt_entry_bits(
                    segment_selector,
                    handlers,
                    i,
                ),
    {
        let mut entries: Vec<IdtDescriptor> = Vec::new();
        let default_entry = IdtDescriptor::create(
            segment_selector,
            1,
            IDT_GATE_TYPE_INTGATE,
            IDT_DPL_0,
            handlers.unimplemented,
        );
        let mut k: usize = 0;
        while k < 256
            invariant
                k == entries@.len(),
                k <= 256,
                default_entry@ == idt_descriptor_bits(
                    segment_selector,
                    1,
                    IDT_GATE_TYPE_INTGATE,
                    IDT_DPL_0,
                    handlers.unimplemented,
                ),
                forall|i: int|
                    0 <= i < k ==> (#[trigger] entries@[i])@ == idt_descriptor_bits(
                        segment_selector,
                        1,
                        IDT_GATE_TYPE_INTGATE,
                        IDT_DPL_0,
                        handlers.unimplemented,
                    ),
            decreases 256 - k,
        {
            entries.push(default_entry);
            proof {
                assert(entries@[k as int] == default_entry);
            }
            k = k + 1;
        }
        let e3 = &mut entries[3];
        *e3 = IdtDescriptor::create(
            segment_selector,
            1,
            IDT_GATE_TYPE_INTGATE,
            IDT_DPL_3,
            handlers.breakpoint,
        );
        let e6 = &mut entries[6];
        *e6 = IdtDescriptor::create(
            segment_selector,
            1,
            IDT_GATE_TYPE_INTGATE,
            IDT_DPL_0,
            handlers.invalid_opcode,
        );
        let e13 = &mut entries[13];
        *e13 = IdtDescriptor::create(
            segment_selector,
            1,
            IDT_GATE_TYPE_INTGATE,
            IDT_DPL_0,
            handlers.general_protection_fault,
        );
        let e14 = &mut entries[14];
        *e14 = IdtDescriptor::create(
            segment_selector,
            1,
            IDT_GATE_TYPE_INTGATE,
            IDT_DPL_0,
            handlers.page_fault,
        );
        let e42 = &mut entries[42];
        *e42 = IdtDescriptor::create(
            segment_selector,
            1,
            IDT_GATE_TYPE_INTGATE,
            IDT_DPL_0,
            handlers.timer,
        );
        let r = Idt { entries };
        proof {
            assert forall|i: int|
                0 <= i < 256 implies #[trigger] r.view_entries()[i] == idt_entry_bits(
                segment_selector,
                handlers,
                i,
            ) by {
                assert(r.view_entries()[i] == r.entries@[i]@);
            }
        }
        r
    }

    /// The descriptor for vector `i`.
    pub fn entry(&self, i: usize) -> (r: u128)
        requires
            (i as int) < self.view_entries().len(),
        ensures
            r == self.view_entries()[i as int],
    {
        self.entries[i].to_u128()
    }

    /// How many vectors the table holds.
    pub fn len(&self) -> (r: usize)
        ensures
            r as int == self.view_entries().len(),
    {
        self.entries.len()
    }
}

/// Build the boot IDT on the kernel code segment.
pub fn init_idt(handlers: IdtHandlers) -> (r: Idt)
    ensures
        r.view_entries().len() == 256,
        forall|i: int|
            0 <= i < 256 ==> #[trigger] r.view_entries()[i] == idt_entry_bits(
                KERNEL_CODE_SEGMENT,
                handlers,
                i,
            ),
{
    Idt::new(KERNEL_CODE_SEGMENT, handlers)
}

} // verus!
