//! Typed address arithmetic: physical addresses, virtual addresses and byte
//! sizes as distinct wrappers over a machine word, plus the fixed layout of
//! the kernel's virtual address space (linear mapping of physical memory and
//! the kernel image window).

use vstd::prelude::*;

verus! {

/// Base virtual address of the kernel image (code and data sections).
pub const KERNEL_CODE_BASE_VADDR: u64 = 0xFFFF_FFFF_8000_0000;

/// Base virtual address of the linear mapping of all physical memory.
pub const LINER_MAPPING_BASE_VADDR: u64 = 0xFFFF_8880_0000_0000;

/// Extent of the linear mapping: 512 GiB.
pub const LINER_MAPPING_SIZE: u64 = 0x80_0000_0000;

/// Exclusive upper bound on physical addresses the layout supports (48 bits).
pub const MAX_PHYS_ADDR: u64 = 0xFFFF_FFFF_FFFF;

/// Physical base of the memory-mapped interrupt-controller registers.
pub const APIC_IO_START_ADDR: u64 = 0xFEE0_0000;

/// Size of the interrupt-controller register window.
pub const APIC_IO_SIZE: u64 = 0x1000;

/// `v` rounded up to the next multiple of `align`.
pub open spec fn round_up(v: int, align: int) -> int
    recommends
        align > 0,
{
    ((v + align - 1) / align) * align
}

/// The divisor that isolates the `level`-th page-table index of a virtual
/// address: level 1 is the page-table level (bits 12..21), level 4 the
/// top level (bits 39..48).
pub open spec fn level_divisor(level: int) -> int {
    if level == 1 {
        0x1000
    } else if level == 2 {
        0x20_0000
    } else if level == 3 {
        0x4000_0000
    } else {
        0x80_0000_0000
    }
}

/// The 9-bit page-table index of `va` at `level` (1 = leaf, 4 = top).
pub open spec fn level_index(va: u64, level: int) -> int {
    (va as int / level_divisor(level)) % 512
}

/// The four index fields of a virtual address, written with shifts and
/// masks, agree with their arithmetic definition.
pub proof fn lemma_index_extract(va: u64)
    by (bit_vector)
    ensures
        ((va >> 12) & 0x1FF) as int == (va as int / 0x1000) % 512,
        ((va >> 21) & 0x1FF) as int == (va as int / 0x20_0000) % 512,
        ((va >> 30) & 0x1FF) as int == (va as int / 0x4000_0000) % 512,
        ((va >> 39) & 0x1FF) as int == (va as int / 0x80_0000_0000) % 512,
        ((va >> 12) & 0x1FF) < 512,
        ((va >> 21) & 0x1FF) < 512,
        ((va >> 30) & 0x1FF) < 512,
        ((va >> 39) & 0x1FF) < 512,
{
}

/// Common interface of the typed address wrappers: a plain machine word
/// that can be read back, rebuilt from a word, and rounded up to an
/// alignment boundary.
pub trait Address: Sized + Copy {
    /// The wrapped machine word.
    spec fn addr(&self) -> u64;

    fn to_u64(&self) -> (r: u64)
        ensures
            r == self.addr(),
    ;

    fn from_u64(addr: u64) -> (r: Self)
        ensures
            r.addr() == addr,
    ;

    /// Round up to the next multiple of `align`.
    fn align_up(&self, align: u64) -> (r: Self)
        requires
            align > 0,
            round_up(self.addr() as int, align as int) <= u64::MAX,
        ensures
            r.addr() == round_up(self.addr() as int, align as int),
    ;
}

/// Rounding up never goes below the value, lands on a multiple, and can be
/// computed from the remainder alone.
pub proof fn lemma_round_up(v: int, align: int)
    requires
        align > 0,
        v >= 0,
    ensures
        round_up(v, align) == if v % align == 0 {
            v
        } else {
            v + align - v % align
        },
        round_up(v, align) >= v,
        round_up(v, align) < v + align,
        round_up(v, align) % align == 0,
{
    let q = v / align;
    let r = v % align;
    vstd::arithmetic::div_mod::lemma_fundamental_div_mod(v, align);
    vstd::arithmetic::div_mod::lemma_mod_bound(v, align);
    let s = v + align - 1;
    if r == 0 {
        assert(s == q * align + (align - 1)) by (nonlinear_arith)
            requires
                v == align * q + r,
                r == 0,
                s == v + align - 1,
        ;
        vstd::arithmetic::div_mod::lemma_fundamental_div_mod_converse_div(s, align, q, align - 1);
        assert(round_up(v, align) == (s / align) * align);
        assert(q * align == v) by (nonlinear_arith)
            requires
                v == align * q + r,
                r == 0,
        ;
        vstd::arithmetic::div_mod::lemma_mod_multiples_basic(q, align);
    } else {
        assert(s == (q + 1) * align + (r - 1)) by (nonlinear_arith)
            requires
                v == align * q + r,
                s == v + align - 1,
        ;
        vstd::arithmetic::div_mod::lemma_fundamental_div_mod_converse_div(s, align, q + 1, r - 1);
        assert((q + 1) * align == v + align - r) by (nonlinear_arith)
            requires
                v == align * q + r,
        ;
        vstd::arithmetic::div_mod::lemma_mod_multiples_basic(q + 1, align);
    }
}

/// Exact round-up computation used by the `align_up` implementations.
fn round_up_exec(v: u64, align: u64) -> (r: u64)
    requires
        align > 0,
        round_up(v as int, align as int) <= u64::MAX,
    ensures
        r as int == round_up(v as int, align as int),
{
    proof {
        lemma_round_up(v as int, align as int);
    }
    let rem = v % align;
    if rem == 0 {
        v
    } else {
        v + (align - rem)
    }
}

/// A physical memory address.
#[derive(Debug, Clone, Copy, PartialEq, Eq, Structural)]
pub struct PhysAddr(u64);

impl PhysAddr {
    pub closed spec fn spec_addr(&self) -> u64 {
        self.0
    }

    pub fn new(addr: u64) -> (r: Self)
        ensures
            r.addr() == addr,
    {
        PhysAddr(addr)
    }

    /// Advance by a byte count.
    pub fn add_size(self, rhs: MSize) -> (r: Self)
        requires
            self.addr() + rhs@ <= u64::MAX,
        ensures
            r.addr() == self.addr() + rhs@,
    {
        PhysAddr(self.0 + rhs.to_u64())
    }

    /// Step back by a byte count.
    pub fn sub_size(self, rhs: MSize) -> (r: Self)
        requires
            self.addr() >= rhs@,
        ensures
            r.addr() == self.addr() - rhs@,
    {
        PhysAddr(self.0 - rhs.to_u64())
    }
}

impl Address for PhysAddr {
    closed spec fn addr(&self) -> u64 {
        self.0
    }

    fn to_u64(&self) -> u64 {
        self.0
    }

    fn from_u64(addr: u64) -> Self {
        PhysAddr(addr)
    }

    fn align_up(&self, align: u64) -> Self {
        PhysAddr(round_up_exec(self.0, align))
    }
}

/// A virtual memory address.
#[derive(Debug, Clone, Copy, PartialEq, Eq, Structural)]
pub struct VirtAddr(u64);

impl VirtAddr {
    pub closed spec fn spec_addr(&self) -> u64 {
        self.0
    }

    pub fn new(addr: u64) -> (r: Self)
        ensures
            r.addr() == addr,
    {
        VirtAddr(addr)
    }

    /// The 9-bit page-table index of this address at `level`
    /// (1 = page table, 4 = top level).
    pub fn nth_level_table_index(&self, level: u64) -> (r: u64)
        requires
            1 <= level <= 4,
        ensures
            r as int == level_index(self.addr(), level as int),
            r < 512,
    {
        proof {
            lemma_index_extract(self.0);
        }
        (self.0 >> (12 + ((level - 1) * 9))) & 0x1FF
    }

    pub fn pml4_index(&self) -> (r: u64)
        ensures
            r as int == level_index(self.addr(), 4),
            r < 512,
    {
        self.nth_level_table_index(4)
    }

    pub fn pdpt_index(&self) -> (r: u64)
        ensures
            r as int == level_index(self.addr(), 3),
            r < 512,
    {
        self.nth_level_table_index(3)
    }

    pub fn pd_index(&self) -> (r: u64)
        ensures
            r as int == level_index(self.addr(), 2),
            r < 512,
    {
        self.nth_level_table_index(2)
    }

    pub fn pt_index(&self) -> (r: u64)
        ensures
            r as int == level_index(self.addr(), 1),
            r < 512,
    {
        self.nth_level_table_index(1)
    }

    /// Advance by a byte count.
    pub fn add_size(self, rhs: MSize) -> (r: Self)
        requires
            self.addr() + rhs@ <= u64::MAX,
        ensures
            r.addr() == self.addr() + rhs@,
    {
        VirtAddr(self.0 + rhs.to_u64())
    }

    /// Step back by a byte count.
    pub fn sub_size(self, rhs: MSize) -> (r: Self)
        requires
            self.addr() >= rhs@,
        ensures
            r.addr() == self.addr() - rhs@,
    {
        VirtAddr(self.0 - rhs.to_u64())
    }
}

impl Address for VirtAddr {
    closed spec fn addr(&self) -> u64 {
        self.0
    }

    fn to_u64(&self) -> u64 {
        self.0
    }

    fn from_u64(addr: u64) -> Self {
        VirtAddr(addr)
    }

    fn align_up(&self, align: u64) -> Self {
        VirtAddr(round_up_exec(self.0, align))
    }
}

/// A non-negative byte count.
#[derive(Debug, Clone, Copy, PartialEq, Eq, Structural)]
pub struct MSize(u64);

impl View for MSize {
    type V = u64;

    closed spec fn view(&self) -> u64 {
        self.0
    }
}

impl MSize {
    pub fn new(size: u64) -> (r: Self)
        ensures
            r@ == size,
    {
        MSize(size)
    }

    pub fn to_u64(&self) -> (r: u64)
        ensures
            r == self@,
    {
        self.0
    }

    /// The size as the platform word, where it fits.
    pub fn to_usize(&self) -> (r: usize)
        requires
            self@ <= usize::MAX,
        ensures
            r == self@,
    {
        self.0 as usize
    }

    /// The distance between two ordered addresses of the same kind.
    pub fn from_address<T: Address>(start_addr: T, end_addr: T) -> (r: Self)
        requires
            start_addr.addr() <= end_addr.addr(),
        ensures
            r@ == end_addr.addr() - start_addr.addr(),
    {
        MSize(end_addr.to_u64() - start_addr.to_u64())
    }

    /// This size rounded up to a whole number of 4 KiB pages.
    pub fn page_align_up(&self) -> (r: Self)
        requires
            round_up(self@ as int, 4096) <= u64::MAX,
        ensures
            r@ as int == round_up(self@ as int, 4096),
    {
        MSize(round_up_exec(self.0, 4096))
    }
}

/// Where physical memory appears in the kernel's linear mapping.
pub fn phys_to_virt(phys: PhysAddr) -> (r: VirtAddr)
    requires
        phys.addr() < MAX_PHYS_ADDR,
        phys.addr() + LINER_MAPPING_BASE_VADDR <= u64::MAX,
    ensures
        r.addr() == phys.addr() + LINER_MAPPING_BASE_VADDR,
{
    VirtAddr::new(phys.to_u64() + LINER_MAPPING_BASE_VADDR)
}

/// The physical address behind a kernel virtual address: either an offset
/// into the linear mapping or an offset into the kernel image window.
/// Addresses in neither region are outside this function's contract (the
/// kernel treats them as a fatal error).
pub fn virt_to_phys(virt: VirtAddr) -> (r: PhysAddr)
    requires
        (LINER_MAPPING_BASE_VADDR <= virt.addr() <= LINER_MAPPING_BASE_VADDR + LINER_MAPPING_SIZE)
            || virt.addr() >= KERNEL_CODE_BASE_VADDR,
    ensures
        virt.addr() <= LINER_MAPPING_BASE_VADDR + LINER_MAPPING_SIZE ==> r.addr() == virt.addr()
            - LINER_MAPPING_BASE_VADDR,
        virt.addr() > LINER_MAPPING_BASE_VADDR + LINER_MAPPING_SIZE ==> r.addr() == virt.addr()
            - KERNEL_CODE_BASE_VADDR,
{
    let v = virt.to_u64();
    if v >= LINER_MAPPING_BASE_VADDR && v <= LINER_MAPPING_BASE_VADDR + LINER_MAPPING_SIZE {
        PhysAddr::new(v - LINER_MAPPING_BASE_VADDR)
    } else {
        PhysAddr::new(v - KERNEL_CODE_BASE_VADDR)
    }
}

} // verus!
