//! The Global Descriptor Table: bit-exact hardware descriptor words for
//! the kernel code and data segments and the Task State Segment.  Each
//! field's width and position is fixed by the processor architecture, so
//! the words are packed explicitly.  Loading the table (`lgdt`, `ltr`,
//! segment register reloads) is a privileged side effect the surrounding
//! runtime performs; reloading the code segment register in particular
//! needs a control-transfer instruction.

use vstd::prelude::*;

verus! {

/// Segment selectors, in descriptor-table order.
pub const KERNEL_CODE_SEGMENT: u16 = 1 << 3;

pub const KERNEL_DATA_SEGMENT: u16 = 2 << 3;

pub const TSS64_SEGMENT_SELECTOR: u16 = 3 << 3;

/// Byte size of the 64-bit Task State Segment structure.
pub const TSS64_SIZE: u64 = 104;

/// The packed 8-byte code/data segment descriptor word: limit bits 0..16
/// and 48..52, base bits 16..40 and 56..64, access byte at 40..48 (with
/// accessed clear, the descriptor-type bit set and present set), and the
/// flags avl=1, long=executable, db=!executable at 52..56.
pub open spec fn gdt_descriptor_bits(
    rw: bool,
    dc: bool,
    executable: bool,
    base: u32,
    limit: u32,
    dpl: u8,
    granularity: u8,
) -> u64 {
    ((limit & 0xFFFF) as u64) | (((base & 0xFF_FFFF) as u64) << 16) | ((if rw {
        1u64
    } else {
        0u64
    }) << 41) | ((if dc {
        1u64
    } else {
        0u64
    }) << 42) | ((if executable {
        1u64
    } else {
        0u64
    }) << 43) | (1u64 << 44) | (((dpl & 0b11) as u64) << 45) | (1u64 << 47) | ((((limit >> 16)
        & 0xF) as u64) << 48) | (1u64 << 52) | ((if executable {
        1u64
    } else {
        0u64
    }) << 53) | ((if executable {
        0u64
    } else {
        1u64
    }) << 54) | (((granularity & 0b1) as u64) << 55) | (((base >> 24) as u64) << 56)
}

/// One 8-byte segment descriptor.
#[derive(Debug, Clone, Copy, PartialEq, Eq, Structural)]
pub struct GdtSegemntDescriptor {
    value: u64,
}

impl View for GdtSegemntDescriptor {
    type V = u64;

    closed spec fn view(&self) -> u64 {
        self.value
    }
}

impl GdtSegemntDescriptor {
    /// The mandatory all-zero null descriptor.
    pub fn null() -> (r: Self)
        ensures
            r@ == 0,
    {
        GdtSegemntDescriptor { value: 0 }
    }

    /// Pack a code or data segment descriptor.
    pub fn create(
        rw: bool,
        dc: bool,
        executable: bool,
        base: u32,
        limit: u32,
        dpl: u8,
        granularity: u8,
    ) -> (r: Self)
        ensures
            r@ == gdt_descriptor_bits(rw, dc, executable, base, limit, dpl, granularity),
    {
        let value = ((limit & 0xFFFF) as u64) | (((base & 0xFF_FFFF) as u64) << 16) | ((if rw {
            1u64
        } else {
            0u64
        }) << 41) | ((if dc {
            1u64
        } else {
            0u64
        }) << 42) | ((if executable {
            1u64
        } else {
            0u64
        }) << 43) | (1u64 << 44) | (((dpl & 0b11) as u64) << 45) | (1u64 << 47) | ((((limit >> 16)
            & 0xF) as u64) << 48) | (1u64 << 52) | ((if executable {
            1u64
        } else {
            0u64
        }) << 53) | ((if executable {
            0u64
        } else {
            1u64
        }) << 54) | (((granularity & 0b1) as u64) << 55) | (((base >> 24) as u64) << 56);
        GdtSegemntDescriptor { value }
    }

    pub fn to_u64(&self) -> (r: u64)
        ensures
            r == self@,
    {
        self.value
    }
}

/// The 64-bit Task State Segment contents: the privileged stack pointer
/// and the seven interrupt-stack-table slots, each pointing at a freshly
/// allocated, never-reclaimed stack region, plus the address the
/// structure itself lives at.  The allocations are made by the runtime;
/// this type holds the resulting addresses.
pub struct Tss64 {
    rsp0: u64,
    ist: Vec<u64>,
    base: u64,
}

impl Tss64 {
    pub closed spec fn spec_rsp0(&self) -> u64 {
        self.rsp0
    }

    pub closed spec fn spec_ist(&self) -> Seq<u64> {
        self.ist@
    }

    pub closed spec fn spec_base(&self) -> u64 {
        self.base
    }

    pub open spec fn wf(&self) -> bool {
        self.spec_ist().len() == 7
    }

    /// Assemble a TSS from the privileged stack top, the seven
    /// interrupt-stack tops and the address of the structure itself.
    pub fn new(rsp0: u64, ist: Vec<u64>, base: u64) -> (r: Self)
        requires
            ist@.len() == 7,
        ensures
            r.wf(),
            r.spec_rsp0() == rsp0,
            r.spec_ist() == ist@,
            r.spec_base() == base,
    {
        Tss64 { rsp0, ist, base }
    }

    /// Where the 104-byte structure lives; the TSS descriptor points here.
    pub fn phys_addr(&self) -> (r: u64)
        ensures
            r == self.spec_base(),
    {
        self.base
    }

    pub fn rsp0(&self) -> (r: u64)
        ensures
            r == self.spec_rsp0(),
    {
        self.rsp0
    }

    pub fn ist_slot(&self, i: usize) -> (r: u64)
        requires
            self.wf(),
            i < 7,
        ensures
            r == self.spec_ist()[i as int],
    {
        self.ist[i]
    }
}

/// The packed 16-byte TSS descriptor word for a TSS at `base`: limit =
/// the TSS size, type 0b1001 (available 64-bit TSS), system segment,
/// ring 0, present, long, 4 KiB granularity, base split over bits 16..40
/// and 56..96.
pub open spec fn tss_descriptor_bits(base: u64) -> u128 {
    (TSS64_SIZE as u128) | ((((base & 0xFF_FFFF) as u64) as u128) << 16) | (0b1001u128 << 40) | (
    1u128 << 47) | (1u128 << 53) | (1u128 << 55) | (((base >> 24) as u128) << 56)
}

/// The 16-byte system-segment descriptor for the TSS.
#[derive(Debug, Clone, Copy, PartialEq, Eq, Structural)]
pub struct TssDescriptor {
    value: u128,
}

impl View for TssDescriptor {
    type V = u128;

    closed spec fn view(&self) -> u128 {
        self.value
    }
}

impl TssDescriptor {
    /// Pack the descriptor for a TSS structure at `base`.
    pub fn create(base: u64) -> (r: Self)
        ensures
            r@ == tss_descriptor_bits(base),
    {
        let value = (TSS64_SIZE as u128) | ((((base & 0xFF_FFFF) as u64) as u128) << 16) | (
        0b1001u128 << 40) | (1u128 << 47) | (1u128 << 53) | (1u128 << 55) | (((base
            >> 24) as u128) << 56);
        TssDescriptor { value }
    }

    pub fn to_u128(&self) -> (r: u128)
        ensures
            r == self@,
    {
        self.value
    }
}

/// The in-memory table: a null descriptor, the kernel code segment
/// (execute and read, ring 0, 4 KiB granularity, full 20-bit limit), the
/// kernel data segment (read and write, ring 0), and the TSS descriptor.
pub struct Gdt {
    pub null_segment: GdtSegemntDescriptor,
    pub kernel_code_segment: GdtSegemntDescriptor,
    pub kernel_data_segment: GdtSegemntDescriptor,
    pub tss_segment: TssDescriptor,
}

/// The table together with the TSS it references; both must stay
/// allocated as long as the table is loaded.
pub struct GdtWrapper {
    pub inner: Gdt,
    pub tss64: Tss64,
}

impl GdtWrapper {
    /// Build the table for the given TSS.
    pub fn new(tss64: Tss64) -> (r: GdtWrapper)
        requires
            tss64.wf(),
        ensures
            r.inner.null_segment@ == 0,
            r.inner.kernel_code_segment@ == gdt_descriptor_bits(
                true,
                false,
                true,
                0,
                0xFFFFF,
                0,
                1,
            ),
            r.inner.kernel_data_segment@ == gdt_descriptor_bits(
                true,
                false,
                false,
                0,
                0xFFFFF,
                0,
                1,
            ),
            r.inner.tss_segment@ == tss_descriptor_bits(tss64.spec_base()),
            r.tss64.spec_base() == tss64.spec_base(),
            r.tss64.wf(),
    {
        let base = tss64.phys_addr();
        let gdt = Gdt {
            null_segment: GdtSegemntDescriptor::null(),
            kernel_code_segment: GdtSegemntDescriptor::create(true, false, true, 0, 0xFFFFF, 0, 1),
            kernel_data_segment: GdtSegemntDescriptor::create(
                true,
                false,
                false,
                0,
                0xFFFFF,
                0,
                1,
            ),
            tss_segment: TssDescriptor::create(base),
        };
        GdtWrapper { inner: gdt, tss64 }
    }
}

/// Build the boot GDT around a ready TSS.  The fixed loading sequence
/// (`lgdt`, then `ltr`, then the data segment reloads, then the far
/// return that reloads `cs`) is the runtime's part.
pub fn init_gdt(tss64: Tss64) -> (r: GdtWrapper)
    requires
        tss64.wf(),
    ensures
        r.inner.null_segment@ == 0,
        r.inner.kernel_code_segment@ == gdt_descriptor_bits(true, false, true, 0, 0xFFFFF, 0, 1),
        r.inner.kernel_data_segment@ == gdt_descriptor_bits(true, false, false, 0, 0xFFFFF, 0, 1),
        r.inner.tss_segment@ == tss_descriptor_bits(tss64.spec_base()),
{
    GdtWrapper::new(tss64)
}

} // verus!
