//! Four-level page-table manager.
//!
//! Page-table nodes live in an arena and are addressed by index; an entry
//! that points at the next level stores that index in its physical-address
//! field (shifted into place, so the stored word keeps the hardware layout:
//! address bits 12..63, attribute bits 0..12 and 63).  A node is valid
//! exactly as long as the arena that holds it, which stands for the kernel
//! heap: nodes are never freed.

use crate::memlayout::{
    level_index, lemma_round_up, round_up, virt_to_phys, Address, MSize, PhysAddr, VirtAddr,
    APIC_IO_START_ADDR, KERNEL_CODE_BASE_VADDR, LINER_MAPPING_BASE_VADDR,
};
use vstd::prelude::*;
use vstd::string::StringExecFns;

verus! {

/// Size in bytes of one page.
pub const PAGE_SIZE: u64 = 4096;

/// Mask of the physical-address field of a page-table entry.
pub const PTE_ATTR_MASK: u64 = 0x7FFF_FFFF_FFFF_F000;

/// Attribute bits: the complement of the address field (bits 0..12 and 63).
pub const PTE_ATTR_BITS: u64 = 0x8000_0000_0000_0FFF;

/// The entry maps or links something.
pub open spec fn entry_present(v: u64) -> bool {
    v & 1 != 0
}

/// The entry maps a 1 GiB page directly (meaningful at the third level).
pub open spec fn entry_huge(v: u64) -> bool {
    v & 0x80 != 0
}

/// The physical-address field of an entry.
pub open spec fn entry_paddr(v: u64) -> u64 {
    v & PTE_ATTR_MASK
}

/// The attribute bits of an entry.
pub open spec fn entry_attrs(v: u64) -> u64 {
    v & PTE_ATTR_BITS
}

/// The arena index stored in an entry that links the next level.
pub open spec fn entry_child(v: u64) -> int {
    (entry_paddr(v) >> 12) as int
}

/// The entry word that links the next-level node `idx`
/// (present + writable + executable, as the kernel builds its
/// intermediate tables).
pub open spec fn link_value(idx: int) -> u64 {
    ((idx as u64) << 12) | 3
}

/// Facts about packing a page-aligned physical address with attribute bits
/// into one entry word.
proof fn lemma_entry_pack(pa: u64, attr: u64)
    by (bit_vector)
    requires
        pa & !0x7FFF_FFFF_FFFF_F000u64 == 0,
        attr & 0x7FFF_FFFF_FFFF_F000u64 == 0,
    ensures
        (pa | attr) & 0x7FFF_FFFF_FFFF_F000u64 == pa,
        (pa | attr) & 0x8000_0000_0000_0FFFu64 == attr,
        ((pa | attr) & 1 != 0) == (attr & 1 != 0),
        ((pa | attr) & 0x80 != 0) == (attr & 0x80 != 0),
{
}

/// The alignment test of `set_entry`, written with the mask, is exactly
/// "page-aligned and below 2^63".
proof fn lemma_aligned_mask(pa: u64)
    by (bit_vector)
    ensures
        (pa & !0x7FFF_FFFF_FFFF_F000u64 == 0) == (pa % 4096 == 0 && pa
            < 0x8000_0000_0000_0000u64),
{
}

/// Facts about the entry word that links node `idx`.
proof fn lemma_link_value(idx: u64)
    by (bit_vector)
    requires
        idx < 0x8_0000_0000_0000u64,
    ensures
        ((idx << 12) | 3) & 1 != 0,
        ((idx << 12) | 3) & 0x80 == 0,
        (((idx << 12) | 3) & 0x7FFF_FFFF_FFFF_F000u64) >> 12 == idx,
        ((idx << 12) | 3) & 0x8000_0000_0000_0FFFu64 == 3,
        (idx << 12) & !0x7FFF_FFFF_FFFF_F000u64 == 0,
{
}

/// Mapping attributes, combinations of the hardware bits
/// {present, writable, write-through, cache-disabled, huge, not-executable}.
#[derive(Debug, Clone, Copy, PartialEq, Eq, Structural)]
pub enum PageTableAttr {
    NotPresent,
    ReadExecuteKernel,
    ReadKernel,
    ReadWriteExecuteKernel,
    ReadWriteKernel,
    ReadWriteKernel1GiB,
    ReadWriteKernelIO,
}

/// The entry bits each attribute stands for.
pub open spec fn attr_bits(attr: PageTableAttr) -> u64 {
    match attr {
        PageTableAttr::NotPresent => 0,
        PageTableAttr::ReadExecuteKernel => 0x1,
        PageTableAttr::ReadKernel => 0x8000_0000_0000_0001,
        PageTableAttr::ReadWriteExecuteKernel => 0x3,
        PageTableAttr::ReadWriteKernel => 0x8000_0000_0000_0003,
        PageTableAttr::ReadWriteKernel1GiB => 0x8000_0000_0000_0083,
        PageTableAttr::ReadWriteKernelIO => 0x8000_0000_0000_001B,
    }
}

impl PageTableAttr {
    /// The raw entry bits of this attribute.
    pub fn bits(&self) -> (r: u64)
        ensures
            r == attr_bits(*self),
    {
        match self {
            PageTableAttr::NotPresent => 0,
            PageTableAttr::ReadExecuteKernel => 0x1,
            PageTableAttr::ReadKernel => 0x8000_0000_0000_0001,
            PageTableAttr::ReadWriteExecuteKernel => 0x3,
            PageTableAttr::ReadWriteKernel => 0x8000_0000_0000_0003,
            PageTableAttr::ReadWriteKernel1GiB => 0x8000_0000_0000_0083,
            PageTableAttr::ReadWriteKernelIO => 0x8000_0000_0000_001B,
        }
    }
}

/// Every attribute keeps its bits inside the attribute field.
proof fn lemma_attr_bits_in_range(attr: PageTableAttr)
    ensures
        attr_bits(attr) & PTE_ATTR_MASK == 0,
        (attr_bits(attr) & 1 != 0) == (attr != PageTableAttr::NotPresent),
        (attr_bits(attr) & 0x80 != 0) == (attr == PageTableAttr::ReadWriteKernel1GiB),
{
    assert(0u64 & 0x7FFF_FFFF_FFFF_F000u64 == 0 && 0u64 & 1 == 0 && 0u64 & 0x80 == 0)
        by (bit_vector);
    assert(0x1u64 & 0x7FFF_FFFF_FFFF_F000u64 == 0 && 0x1u64 & 1 != 0 && 0x1u64 & 0x80 == 0)
        by (bit_vector);
    assert(0x8000_0000_0000_0001u64 & 0x7FFF_FFFF_FFFF_F000u64 == 0 && 0x8000_0000_0000_0001u64 & 1
        != 0 && 0x8000_0000_0000_0001u64 & 0x80 == 0) by (bit_vector);
    assert(0x3u64 & 0x7FFF_FFFF_FFFF_F000u64 == 0 && 0x3u64 & 1 != 0 && 0x3u64 & 0x80 == 0)
        by (bit_vector);
    assert(0x8000_0000_0000_0003u64 & 0x7FFF_FFFF_FFFF_F000u64 == 0 && 0x8000_0000_0000_0003u64 & 1
        != 0 && 0x8000_0000_0000_0003u64 & 0x80 == 0) by (bit_vector);
    assert(0x8000_0000_0000_0083u64 & 0x7FFF_FFFF_FFFF_F000u64 == 0 && 0x8000_0000_0000_0083u64 & 1
        != 0 && 0x8000_0000_0000_0083u64 & 0x80 != 0) by (bit_vector);
    assert(0x8000_0000_0000_001Bu64 & 0x7FFF_FFFF_FFFF_F000u64 == 0 && 0x8000_0000_0000_001Bu64 & 1
        != 0 && 0x8000_0000_0000_001Bu64 & 0x80 == 0) by (bit_vector);
}

/// Errors of the mapping operations; each is a contract violation that the
/// caller treats as fatal at boot time.
#[derive(Debug, Clone, Copy, PartialEq, Eq, Structural)]
pub enum MapError {
    /// The virtual start address of a mapping was not page-aligned.
    UnalignedVirtualAddress,
    /// The physical address written into an entry was not page-aligned.
    UnalignedPhysicalAddress,
    /// An intermediate entry was already allocated in a conflicting way.
    TableAlreadyAllocated,
}

impl MapError {
    /// The diagnostic line the kernel logs for this error.
    pub fn message(&self) -> &'static str {
        match self {
            MapError::UnalignedVirtualAddress => "Virtual address must be page-aligned",
            MapError::UnalignedPhysicalAddress => "Physical address must be page-aligned",
            MapError::TableAlreadyAllocated => "Next level table is already allocated",
        }
    }
}

/// One 64-bit page-table entry.
#[derive(Debug, Clone, Copy, PartialEq, Eq, Structural)]
pub struct PageTableEntry {
    value: u64,
}

impl View for PageTableEntry {
    type V = u64;

    closed spec fn view(&self) -> u64 {
        self.value
    }
}

impl PageTableEntry {
    /// The zero (non-present) entry.
    pub fn empty() -> (r: Self)
        ensures
            r@ == 0,
    {
        PageTableEntry { value: 0 }
    }

    /// The raw word.
    pub fn to_u64(&self) -> (r: u64)
        ensures
            r == self@,
    {
        self.value
    }

    pub fn get_bit(&self, bit: u8) -> (r: bool)
        requires
            bit < 64,
        ensures
            r == (self@ & (1u64 << bit) != 0),
    {
        (self.value & (1u64 << bit)) != 0
    }

    pub fn set_bit(&mut self, bit: u8, value: bool)
        requires
            bit < 64,
        ensures
            final(self)@ == if value {
                old(self)@ | (1u64 << bit)
            } else {
                old(self)@ & !(1u64 << bit)
            },
    {
        if value {
            self.value = self.value | (1u64 << bit);
        } else {
            self.value = self.value & !(1u64 << bit);
        }
    }

    pub fn is_present(&self) -> (r: bool)
        ensures
            r == entry_present(self@),
    {
        proof {
            assert((self.value & (1u64 << 0)) == (self.value & 1)) by (bit_vector);
        }
        self.get_bit(0)
    }

    pub fn is_writable(&self) -> (r: bool)
        ensures
            r == (self@ & 2 != 0),
    {
        proof {
            assert((self.value & (1u64 << 1)) == (self.value & 2)) by (bit_vector);
        }
        self.get_bit(1)
    }

    pub fn is_user_accessible(&self) -> (r: bool)
        ensures
            r == (self@ & 4 != 0),
    {
        proof {
            assert((self.value & (1u64 << 2)) == (self.value & 4)) by (bit_vector);
        }
        self.get_bit(2)
    }

    pub fn is_huge(&self) -> (r: bool)
        ensures
            r == entry_huge(self@),
    {
        proof {
            assert((self.value & (1u64 << 7)) == (self.value & 0x80)) by (bit_vector);
        }
        self.get_bit(7)
    }

    pub fn is_executable(&self) -> (r: bool)
        ensures
            r == (self@ & 0x8000_0000_0000_0000 == 0),
    {
        proof {
            assert((self.value & (1u64 << 63)) == (self.value & 0x8000_0000_0000_0000))
                by (bit_vector);
        }
        !self.get_bit(63)
    }

    /// A readable description of the entry.
    pub fn format(&self) -> String {
        let mut s = String::new();
        s.append("PageEntry(present: ");
        s.append(if self.is_present() { "true" } else { "false" });
        s.append(", writable: ");
        s.append(if self.is_writable() { "true" } else { "false" });
        s.append(", user_accessible: ");
        s.append(if self.is_user_accessible() { "true" } else { "false" });
        s.append(", executable: ");
        s.append(if self.is_executable() { "true" } else { "false" });
        s.append(", huge: ");
        s.append(if self.is_huge() { "true" } else { "false" });
        s.append(")");
        s
    }

    /// The physical address carried by the entry.
    pub fn paddr(&self) -> (r: PhysAddr)
        ensures
            r.addr() == entry_paddr(self@),
    {
        PhysAddr::new(self.value & PTE_ATTR_MASK)
    }

    /// Store a page-aligned physical address together with attribute bits.
    /// A misaligned address is a reported error, never silently truncated.
    pub fn set_entry(&mut self, paddr: PhysAddr, attr: PageTableAttr) -> (r: Result<
        (),
        MapError,
    >)
        ensures
            r is Ok <==> (paddr.addr() % 4096 == 0 && paddr.addr() < 0x8000_0000_0000_0000),
            r is Ok ==> final(self)@ == paddr.addr() | attr_bits(attr),
            r is Err ==> final(self)@ == old(self)@ && r == Err::<(), MapError>(
                MapError::UnalignedPhysicalAddress,
            ),
    {
        let pa = paddr.to_u64();
        proof {
            lemma_aligned_mask(pa);
        }
        if pa & !PTE_ATTR_MASK != 0 {
            return Err(MapError::UnalignedPhysicalAddress);
        }
        self.value = pa | attr.bits();
        Ok(())
    }
}

/// One table node: 512 entries, one 4 KiB unit of the radix tree.
pub struct PageTableNode {
    entries: Vec<PageTableEntry>,
}

impl View for PageTableNode {
    type V = Seq<u64>;

    closed spec fn view(&self) -> Seq<u64> {
        self.entries@.map_values(|e: PageTableEntry| e.value)
    }
}

impl PageTableNode {
    /// A node is always exactly 512 entries.
    pub open spec fn wf(&self) -> bool {
        self@.len() == 512
    }

    /// A fresh, zeroed node.
    fn zeroed() -> (r: Self)
        ensures
            r.wf(),
            forall|i: int| 0 <= i < 512 ==> r@[i] == 0,
    {
        let mut entries: Vec<PageTableEntry> = Vec::new();
        let mut k: usize = 0;
        while k < 512
            invariant
                k == entries@.len(),
                k <= 512,
                forall|i: int| 0 <= i < k ==> (#[trigger] entries@[i]).value == 0,
            decreases 512 - k,
        {
            entries.push(PageTableEntry { value: 0 });
            k = k + 1;
        }
        let r = PageTableNode { entries };
        proof {
            assert forall|i: int| 0 <= i < 512 implies r@[i] == 0 by {
                assert(r@[i] == r.entries@[i].value);
            }
        }
        r
    }
}

/// Hard cap on arena size so that a node index always fits the address
/// field of an entry (bits 12..63).
pub const MAX_ARENA_NODES: u64 = 0x8_0000_0000_0000;

/// An all-zero (empty) table node, as a sequence of entry words.
pub open spec fn zero_node_seq() -> Seq<u64> {
    Seq::new(512, |i: int| 0u64)
}

/// `a` with the entry word at node `n`, slot `i` replaced by `v`.
pub open spec fn cell_update(a: Seq<Seq<u64>>, n: int, i: int, v: u64) -> Seq<Seq<u64>> {
    a.update(n, a[n].update(i, v))
}

/// The cell `(n, i)` links a next-level node: it sits in an intermediate
/// node, is present, and is not a huge mapping.
pub open spec fn entry_is_link(a: Seq<Seq<u64>>, lv: Seq<int>, n: int, i: int) -> bool {
    &&& 0 <= n < a.len()
    &&& 0 <= i < 512
    &&& 2 <= lv[n]
    &&& entry_present(a[n][i])
    &&& !entry_huge(a[n][i])
}

/// Well-formedness of the whole arena:
/// - every node has 512 entries and a level in 1..=4;
/// - every link points at an existing node one level down;
/// - huge mappings appear only at level 3;
/// - links are injective: below the top level globally, and within any
///   single node.  Only top-level nodes of different tables may share a
///   child, which is how address spaces share the kernel mappings.
pub open spec fn arena_wf(a: Seq<Seq<u64>>, lv: Seq<int>) -> bool {
    &&& a.len() == lv.len()
    &&& forall|n: int| 0 <= n < a.len() ==> (#[trigger] a[n]).len() == 512
    &&& forall|n: int| 0 <= n < a.len() ==> 1 <= #[trigger] lv[n] <= 4
    &&& forall|n: int, i: int|
        #[trigger] entry_is_link(a, lv, n, i) ==> 0 <= entry_child(a[n][i]) < a.len() && lv[entry_child(
            a[n][i],
        )] == lv[n] - 1
    &&& forall|n: int, i: int|
        0 <= n < a.len() && 0 <= i < 512 && lv[n] != 3 && lv[n] != 1 && entry_present(
            #[trigger] a[n][i],
        ) ==> !entry_huge(a[n][i])
    &&& forall|n1: int, i1: int, n2: int, i2: int|
        #[trigger] entry_is_link(a, lv, n1, i1) && #[trigger] entry_is_link(a, lv, n2, i2) && (n1
            == n2 || (lv[n1] <= 3 && lv[n2] <= 3)) && entry_child(a[n1][i1]) == entry_child(
            a[n2][i2],
        ) ==> n1 == n2 && i1 == i2
}

/// A table handle is a top-level node of a well-formed arena.
pub open spec fn table_wf(root: int, a: Seq<Seq<u64>>, lv: Seq<int>) -> bool {
    &&& arena_wf(a, lv)
    &&& 0 <= root < a.len()
    &&& lv[root] == 4
}

/// The page-granular address translation the hardware would perform,
/// walking from `node` (a node of level `level`) down to a leaf or a huge
/// mapping.  The result is the physical base of the page holding `va`
/// together with the attribute bits of the entry that mapped it.
pub open spec fn translate_at(a: Seq<Seq<u64>>, node: int, va: u64, level: int) -> Option<
    (int, u64),
>
    decreases level,
{
    if level < 1 {
        None
    } else {
        let e = a[node][level_index(va, level)];
        if !entry_present(e) {
            None
        } else if level == 1 {
            Some((entry_paddr(e) as int, entry_attrs(e)))
        } else if entry_huge(e) {
            if level == 3 {
                Some(
                    (
                        entry_paddr(e) + (level_index(va, 2) * 512 + level_index(va, 1)) * 4096,
                        entry_attrs(e),
                    ),
                )
            } else {
                None
            }
        } else {
            translate_at(a, entry_child(e), va, level - 1)
        }
    }
}

/// Translation through a whole table, from its top-level node.
pub open spec fn translate(a: Seq<Seq<u64>>, root: int, va: u64) -> Option<(int, u64)> {
    translate_at(a, root, va, 4)
}

/// The walk for `va` from `node` (level `level`) passes through `target`.
pub open spec fn visits(a: Seq<Seq<u64>>, node: int, va: u64, level: int, target: int) -> bool
    decreases level,
{
    if node == target {
        true
    } else if level < 2 {
        false
    } else {
        let e = a[node][level_index(va, level)];
        if entry_present(e) && !entry_huge(e) {
            visits(a, entry_child(e), va, level - 1, target)
        } else {
            false
        }
    }
}

/// The page number of `va` inside its 256 TiB translation window: the four
/// 9-bit table indices read as one 36-bit number.  Two addresses translate
/// alike exactly when their page numbers agree.
pub open spec fn vquad(va: u64) -> int {
    ((level_index(va, 4) * 512 + level_index(va, 3)) * 512 + level_index(va, 2)) * 512
        + level_index(va, 1)
}

/// Translation reads only the four table indices, so it is determined by
/// the page number.
pub proof fn lemma_translate_depends_on_quad(
    a: Seq<Seq<u64>>,
    node: int,
    va: u64,
    vb: u64,
    level: int,
)
    requires
        vquad(va) == vquad(vb),
        level <= 4,
    ensures
        translate_at(a, node, va, level) == translate_at(a, node, vb, level),
    decreases level,
{
    lemma_vquad_gives_indices(va, vb);
    if level >= 1 {
        let e = a[node][level_index(va, level)];
        if entry_present(e) && !entry_huge(e) && level >= 2 {
            lemma_translate_depends_on_quad(a, entry_child(e), va, vb, level - 1);
        }
    }
}

/// Equal page numbers mean equal table indices at every level.
proof fn lemma_vquad_gives_indices(va: u64, vb: u64)
    requires
        vquad(va) == vquad(vb),
    ensures
        level_index(va, 1) == level_index(vb, 1),
        level_index(va, 2) == level_index(vb, 2),
        level_index(va, 3) == level_index(vb, 3),
        level_index(va, 4) == level_index(vb, 4),
{
    lemma_vquad_bounds(va);
    lemma_vquad_bounds(vb);
    lemma_quad_digits(
        level_index(va, 4),
        level_index(va, 3),
        level_index(va, 2),
        level_index(va, 1),
        level_index(vb, 4),
        level_index(vb, 3),
        level_index(vb, 2),
        level_index(vb, 1),
    );
}

/// Each table index is a digit in 0..512.
proof fn lemma_vquad_bounds(va: u64)
    ensures
        0 <= level_index(va, 1) < 512,
        0 <= level_index(va, 2) < 512,
        0 <= level_index(va, 3) < 512,
        0 <= level_index(va, 4) < 512,
{
    vstd::arithmetic::div_mod::lemma_mod_bound(va as int / 0x1000, 512);
    vstd::arithmetic::div_mod::lemma_mod_bound(va as int / 0x20_0000, 512);
    vstd::arithmetic::div_mod::lemma_mod_bound(va as int / 0x4000_0000, 512);
    vstd::arithmetic::div_mod::lemma_mod_bound(va as int / 0x80_0000_0000, 512);
    vstd::arithmetic::div_mod::lemma_div_pos_is_pos(va as int, 0x1000);
    vstd::arithmetic::div_mod::lemma_div_pos_is_pos(va as int, 0x20_0000);
    vstd::arithmetic::div_mod::lemma_div_pos_is_pos(va as int, 0x4000_0000);
    vstd::arithmetic::div_mod::lemma_div_pos_is_pos(va as int, 0x80_0000_0000);
}

/// Base-512 digits are determined by the packed number.
proof fn lemma_quad_digits(
    a4: int,
    a3: int,
    a2: int,
    a1: int,
    b4: int,
    b3: int,
    b2: int,
    b1: int,
)
    requires
        0 <= a1 < 512,
        0 <= a2 < 512,
        0 <= a3 < 512,
        0 <= a4 < 512,
        0 <= b1 < 512,
        0 <= b2 < 512,
        0 <= b3 < 512,
        0 <= b4 < 512,
        ((a4 * 512 + a3) * 512 + a2) * 512 + a1 == ((b4 * 512 + b3) * 512 + b2) * 512 + b1,
    ensures
        a1 == b1 && a2 == b2 && a3 == b3 && a4 == b4,
{
    let qa = (a4 * 512 + a3) * 512 + a2;
    let qb = (b4 * 512 + b3) * 512 + b2;
    vstd::arithmetic::div_mod::lemma_fundamental_div_mod_converse_div(
        qa * 512 + a1,
        512,
        qa,
        a1,
    );
    vstd::arithmetic::div_mod::lemma_fundamental_div_mod_converse_div(
        qb * 512 + b1,
        512,
        qb,
        b1,
    );
    assert(qa == qb);
    assert(a1 == b1);
    let ra = a4 * 512 + a3;
    let rb = b4 * 512 + b3;
    vstd::arithmetic::div_mod::lemma_fundamental_div_mod_converse_div(
        ra * 512 + a2,
        512,
        ra,
        a2,
    );
    vstd::arithmetic::div_mod::lemma_fundamental_div_mod_converse_div(
        rb * 512 + b2,
        512,
        rb,
        b2,
    );
    assert(ra == rb);
    assert(a2 == b2);
    vstd::arithmetic::div_mod::lemma_fundamental_div_mod_converse_div(
        a4 * 512 + a3,
        512,
        a4,
        a3,
    );
    vstd::arithmetic::div_mod::lemma_fundamental_div_mod_converse_div(
        b4 * 512 + b3,
        512,
        b4,
        b3,
    );
}

/// A walk only ever reaches nodes at or below its own level, and inside
/// the arena.
proof fn lemma_visits_level(
    a: Seq<Seq<u64>>,
    lv: Seq<int>,
    node: int,
    va: u64,
    level: int,
    target: int,
)
    requires
        arena_wf(a, lv),
        0 <= node < a.len(),
        lv[node] == level,
        visits(a, node, va, level, target),
    ensures
        0 <= target < a.len(),
        lv[target] <= level,
    decreases level,
{
    if node != target {
        let i = level_index(va, level);
        lemma_vquad_bounds(va);
        let e = a[node][i];
        assert(entry_is_link(a, lv, node, i));
        lemma_visits_level(a, lv, entry_child(e), va, level - 1, target);
    }
}

/// Two distinct nodes below the top level have disjoint reachable sets:
/// a walk from one never meets what a walk from the other reaches.
proof fn lemma_subtree_disjoint(
    a: Seq<Seq<u64>>,
    lv: Seq<int>,
    c1: int,
    c2: int,
    va: u64,
    vb: u64,
    level: int,
    target: int,
)
    requires
        arena_wf(a, lv),
        0 <= c1 < a.len(),
        0 <= c2 < a.len(),
        c1 != c2,
        lv[c1] == level,
        lv[c2] == level,
        level <= 3,
        visits(a, c1, va, level, target),
    ensures
        !visits(a, c2, vb, level, target),
    decreases level,
{
    lemma_vquad_bounds(va);
    lemma_vquad_bounds(vb);
    if visits(a, c2, vb, level, target) {
        if c1 == target {
            assert(c2 != target);
            let i2 = level_index(vb, level);
            let e2 = a[c2][i2];
            assert(entry_is_link(a, lv, c2, i2));
            lemma_visits_level(a, lv, entry_child(e2), vb, level - 1, target);
            assert(false);
        } else {
            let i1 = level_index(va, level);
            let e1 = a[c1][i1];
            assert(entry_is_link(a, lv, c1, i1));
            let d1 = entry_child(e1);
            if c2 == target {
                lemma_visits_level(a, lv, d1, va, level - 1, target);
                assert(false);
            } else {
                let i2 = level_index(vb, level);
                let e2 = a[c2][i2];
                assert(entry_is_link(a, lv, c2, i2));
                let d2 = entry_child(e2);
                assert(d1 != d2);
                lemma_subtree_disjoint(a, lv, d1, d2, va, vb, level - 1, target);
                assert(false);
            }
        }
    }
}

/// Two walks from the same top node that reach the same node agree on all
/// the indices they used to get there.
proof fn lemma_same_path(
    a: Seq<Seq<u64>>,
    lv: Seq<int>,
    node: int,
    va: u64,
    vb: u64,
    level: int,
    target: int,
)
    requires
        arena_wf(a, lv),
        0 <= node < a.len(),
        lv[node] == level,
        visits(a, node, va, level, target),
        visits(a, node, vb, level, target),
    ensures
        forall|k: int|
            lv[target] < k <= level ==> #[trigger] level_index(va, k) == level_index(vb, k),
    decreases level,
{
    if node != target {
        let i1 = level_index(va, level);
        let i2 = level_index(vb, level);
        lemma_vquad_bounds(va);
        lemma_vquad_bounds(vb);
        let e1 = a[node][i1];
        let e2 = a[node][i2];
        assert(entry_is_link(a, lv, node, i1));
        assert(entry_is_link(a, lv, node, i2));
        lemma_visits_level(a, lv, entry_child(e1), va, level - 1, target);
        if i1 != i2 {
            assert(entry_child(e1) != entry_child(e2));
            lemma_subtree_disjoint(
                a,
                lv,
                entry_child(e1),
                entry_child(e2),
                va,
                vb,
                level - 1,
                target,
            );
            assert(false);
        }
        assert(i1 == i2);
        lemma_same_path(a, lv, entry_child(e1), va, vb, level - 1, target);
    }
}

/// Appending nodes to the arena changes no existing walk.
proof fn lemma_translate_append(
    a: Seq<Seq<u64>>,
    lv: Seq<int>,
    a2: Seq<Seq<u64>>,
    node: int,
    va: u64,
    level: int,
)
    requires
        arena_wf(a, lv),
        0 <= node < a.len(),
        lv[node] == level,
        a2.len() >= a.len(),
        forall|j: int| 0 <= j < a.len() ==> a2[j] == a[j],
    ensures
        translate_at(a2, node, va, level) == translate_at(a, node, va, level),
    decreases level,
{
    if level >= 1 {
        let i = level_index(va, level);
        lemma_vquad_bounds(va);
        let e = a[node][i];
        if entry_present(e) && !entry_huge(e) && level >= 2 {
            assert(entry_is_link(a, lv, node, i));
            lemma_translate_append(a, lv, a2, entry_child(e), va, level - 1);
        }
    }
}

/// The entry word zero is absent.
proof fn lemma_zero_absent()
    by (bit_vector)
    ensures
        0u64 & 1 == 0,
        0u64 & 0x80 == 0,
{
}

/// Installing a link to a fresh zeroed node under an absent entry changes
/// no translation: every walk that met the absent entry found nothing, and
/// finds nothing in the empty subtree either.
proof fn lemma_alloc_frame(
    a: Seq<Seq<u64>>,
    lv: Seq<int>,
    a2: Seq<Seq<u64>>,
    n: int,
    i: int,
    start: int,
    va: u64,
    level: int,
)
    requires
        arena_wf(a, lv),
        0 <= n < a.len(),
        0 <= i < 512,
        2 <= lv[n],
        !entry_present(a[n][i]),
        a.len() < MAX_ARENA_NODES,
        a2 == cell_update(a, n, i, link_value(a.len() as int)).push(zero_node_seq()),
        0 <= start < a.len(),
        lv[start] == level,
    ensures
        translate_at(a2, start, va, level) == translate_at(a, start, va, level),
    decreases level,
{
    lemma_vquad_bounds(va);
    lemma_link_value(a.len() as u64);
    lemma_zero_absent();
    let ix = level_index(va, level);
    if level >= 1 {
        if start == n && ix == i {
            assert(translate_at(a, start, va, level) is None);
            let e2 = a2[start][ix];
            assert(e2 == link_value(a.len() as int));
            assert(entry_child(e2) == a.len());
            assert(a2[a.len() as int] == zero_node_seq());
            assert(a2[a.len() as int][level_index(va, level - 1)] == 0);
            assert(translate_at(a2, a.len() as int, va, level - 1) is None);
            assert(translate_at(a2, start, va, level) is None);
        } else {
            assert(a2[start][ix] == a[start][ix]);
            let e = a[start][ix];
            if entry_present(e) && !entry_huge(e) && level >= 2 {
                assert(entry_is_link(a, lv, start, ix));
                lemma_alloc_frame(a, lv, a2, n, i, entry_child(e), va, level - 1);
            }
        }
    }
}

/// Installing the link also keeps the arena well-formed.
proof fn lemma_alloc_wf(a: Seq<Seq<u64>>, lv: Seq<int>, n: int, i: int)
    requires
        arena_wf(a, lv),
        0 <= n < a.len(),
        0 <= i < 512,
        2 <= lv[n],
        !entry_present(a[n][i]),
        a.len() < MAX_ARENA_NODES,
    ensures
        arena_wf(
            cell_update(a, n, i, link_value(a.len() as int)).push(zero_node_seq()),
            lv.push(lv[n] - 1),
        ),
{
    let a2 = cell_update(a, n, i, link_value(a.len() as int)).push(zero_node_seq());
    let lv2 = lv.push(lv[n] - 1);
    let fresh = a.len() as int;
    lemma_link_value(a.len() as u64);
    lemma_zero_absent();
    assert forall|m: int| 0 <= m < a2.len() implies (#[trigger] a2[m]).len() == 512 by {
        if m < a.len() {
            assert(a[m].len() == 512);
        }
    }
    assert forall|m: int, j: int| #[trigger]
        entry_is_link(a2, lv2, m, j) implies 0 <= entry_child(a2[m][j]) < a2.len() && lv2[entry_child(
        a2[m][j],
    )] == lv2[m] - 1 by {
        if m == fresh {
            assert(a2[m][j] == 0);
            assert(false);
        } else if m == n && j == i {
            assert(a2[m][j] == link_value(fresh));
            assert(entry_child(a2[m][j]) == fresh);
        } else {
            assert(a2[m][j] == a[m][j]);
            assert(entry_is_link(a, lv, m, j));
        }
    }
    assert forall|m: int, j: int|
        0 <= m < a2.len() && 0 <= j < 512 && lv2[m] != 3 && lv2[m] != 1 && entry_present(
            #[trigger] a2[m][j],
        ) implies !entry_huge(a2[m][j]) by {
        if m == fresh {
            assert(a2[m][j] == 0);
        } else if m == n && j == i {
        } else {
            assert(a2[m][j] == a[m][j]);
        }
    }
    assert forall|n1: int, i1: int, n2: int, i2: int|
        #[trigger] entry_is_link(a2, lv2, n1, i1) && #[trigger] entry_is_link(a2, lv2, n2, i2) && (
        n1 == n2 || (lv2[n1] <= 3 && lv2[n2] <= 3)) && entry_child(a2[n1][i1]) == entry_child(
            a2[n2][i2],
        ) implies n1 == n2 && i1 == i2 by {
        if n1 == fresh || n2 == fresh {
            assert(false);
        } else {
            let c = entry_child(a2[n1][i1]);
            if n1 == n && i1 == i {
                if !(n2 == n && i2 == i) {
                    assert(a2[n2][i2] == a[n2][i2]);
                    assert(entry_is_link(a, lv, n2, i2));
                    assert(entry_child(a[n2][i2]) < a.len());
                    assert(false);
                }
            } else if n2 == n && i2 == i {
                assert(a2[n1][i1] == a[n1][i1]);
                assert(entry_is_link(a, lv, n1, i1));
                assert(entry_child(a[n1][i1]) < a.len());
                assert(false);
            } else {
                assert(a2[n1][i1] == a[n1][i1]);
                assert(a2[n2][i2] == a[n2][i2]);
                assert(entry_is_link(a, lv, n1, i1));
                assert(entry_is_link(a, lv, n2, i2));
            }
        }
    }
}

/// Writing a leaf entry changes exactly the translations whose walk ends at
/// that slot, and nothing else.
proof fn lemma_leaf_frame(
    a: Seq<Seq<u64>>,
    lv: Seq<int>,
    a2: Seq<Seq<u64>>,
    n: int,
    i: int,
    v: u64,
    start: int,
    va: u64,
    level: int,
)
    requires
        arena_wf(a, lv),
        0 <= n < a.len(),
        0 <= i < 512,
        lv[n] == 1,
        a2 == cell_update(a, n, i, v),
        0 <= start < a.len(),
        lv[start] == level,
    ensures
        visits(a, start, va, level, n) && level_index(va, 1) == i ==> translate_at(
            a2,
            start,
            va,
            level,
        ) == if entry_present(v) {
            Some((entry_paddr(v) as int, entry_attrs(v)))
        } else {
            None
        },
        !(visits(a, start, va, level, n) && level_index(va, 1) == i) ==> translate_at(
            a2,
            start,
            va,
            level,
        ) == translate_at(a, start, va, level),
    decreases level,
{
    lemma_vquad_bounds(va);
    let ix = level_index(va, level);
    if level == 1 {
        if start == n && ix == i {
            assert(a2[start][ix] == v);
        } else {
            assert(a2[start][ix] == a[start][ix]);
        }
    } else if level >= 2 {
        assert(start != n);
        assert(a2[start][ix] == a[start][ix]);
        let e = a[start][ix];
        if entry_present(e) && !entry_huge(e) {
            assert(entry_is_link(a, lv, start, ix));
            lemma_leaf_frame(a, lv, a2, n, i, v, entry_child(e), va, level - 1);
        }
    }
}

/// Writing a huge (1 GiB) entry at a third-level slot changes exactly the
/// translations routed through that slot.
proof fn lemma_pdpt_frame(
    a: Seq<Seq<u64>>,
    lv: Seq<int>,
    a2: Seq<Seq<u64>>,
    n: int,
    i: int,
    v: u64,
    start: int,
    va: u64,
    level: int,
)
    requires
        arena_wf(a, lv),
        0 <= n < a.len(),
        0 <= i < 512,
        lv[n] == 3,
        !(entry_present(a[n][i]) && !entry_huge(a[n][i])),
        entry_present(v),
        entry_huge(v),
        a2 == cell_update(a, n, i, v),
        0 <= start < a.len(),
        lv[start] == level,
    ensures
        visits(a, start, va, level, n) && level_index(va, 3) == i ==> translate_at(
            a2,
            start,
            va,
            level,
        ) == Some(
            (
                entry_paddr(v) + (level_index(va, 2) * 512 + level_index(va, 1)) * 4096,
                entry_attrs(v),
            ),
        ),
        !(visits(a, start, va, level, n) && level_index(va, 3) == i) ==> translate_at(
            a2,
            start,
            va,
            level,
        ) == translate_at(a, start, va, level),
    decreases level,
{
    lemma_vquad_bounds(va);
    let ix = level_index(va, level);
    if level == 3 && start == n {
        if ix == i {
            assert(a2[start][ix] == v);
        } else {
            assert(a2[start][ix] == a[start][ix]);
            let e = a[start][ix];
            if entry_present(e) && !entry_huge(e) {
                assert(entry_is_link(a, lv, start, ix));
                lemma_pdpt_frame(a, lv, a2, n, i, v, entry_child(e), va, level - 1);
                assert(lv[entry_child(e)] == 2);
                if visits(a, entry_child(e), va, level - 1, n) {
                    lemma_visits_level(a, lv, entry_child(e), va, level - 1, n);
                    assert(false);
                }
            }
        }
    } else if level >= 2 {
        assert(start != n);
        assert(a2[start][ix] == a[start][ix]);
        let e = a[start][ix];
        if entry_present(e) && !entry_huge(e) {
            assert(entry_is_link(a, lv, start, ix));
            lemma_pdpt_frame(a, lv, a2, n, i, v, entry_child(e), va, level - 1);
        }
    } else {
        assert(start != n);
        assert(a2[start][ix] == a[start][ix]);
    }
}

/// Overwriting a slot with a value that is not a next-level link keeps the
/// arena well-formed, provided the slot did not hold a link either or sits
/// in a leaf node.
proof fn lemma_cell_write_wf(a: Seq<Seq<u64>>, lv: Seq<int>, n: int, i: int, v: u64)
    requires
        arena_wf(a, lv),
        0 <= n < a.len(),
        0 <= i < 512,
        lv[n] == 1 || (lv[n] == 3 && (entry_huge(v) || !entry_present(v))),
    ensures
        arena_wf(cell_update(a, n, i, v), lv),
{
    let a2 = cell_update(a, n, i, v);
    assert forall|m: int| 0 <= m < a2.len() implies (#[trigger] a2[m]).len() == 512 by {
        assert(a[m].len() == 512);
    }
    assert forall|m: int, j: int| #[trigger]
        entry_is_link(a2, lv, m, j) implies 0 <= entry_child(a2[m][j]) < a2.len() && lv[entry_child(
        a2[m][j],
    )] == lv[m] - 1 by {
        if m == n && j == i {
            assert(false);
        } else {
            assert(a2[m][j] == a[m][j]);
            assert(entry_is_link(a, lv, m, j));
        }
    }
    assert forall|m: int, j: int|
        0 <= m < a2.len() && 0 <= j < 512 && lv[m] != 3 && lv[m] != 1 && entry_present(
            #[trigger] a2[m][j],
        ) implies !entry_huge(a2[m][j]) by {
        assert(a2[m][j] == a[m][j]);
    }
    assert forall|n1: int, i1: int, n2: int, i2: int|
        #[trigger] entry_is_link(a2, lv, n1, i1) && #[trigger] entry_is_link(a2, lv, n2, i2) && (n1
            == n2 || (lv[n1] <= 3 && lv[n2] <= 3)) && entry_child(a2[n1][i1]) == entry_child(
            a2[n2][i2],
        ) implies n1 == n2 && i1 == i2 by {
        assert(!(n1 == n && i1 == i) && !(n2 == n && i2 == i));
        assert(a2[n1][i1] == a[n1][i1]);
        assert(a2[n2][i2] == a[n2][i2]);
        assert(entry_is_link(a, lv, n1, i1));
        assert(entry_is_link(a, lv, n2, i2));
    }
}


/// Installing a link to a fresh zeroed node never creates or removes a
/// conflicting huge entry on any walk.
proof fn lemma_alloc_conflict_frame(
    a: Seq<Seq<u64>>,
    lv: Seq<int>,
    a2: Seq<Seq<u64>>,
    n: int,
    i: int,
    root2: int,
    va2: u64,
)
    requires
        arena_wf(a, lv),
        0 <= n < a.len(),
        0 <= i < 512,
        2 <= lv[n],
        !entry_present(a[n][i]),
        a.len() < MAX_ARENA_NODES,
        a2 == cell_update(a, n, i, link_value(a.len() as int)).push(zero_node_seq()),
        0 <= root2 < a.len(),
        lv[root2] == 4,
    ensures
        path_conflict(a2, root2, va2) == path_conflict(a, root2, va2),
{
    lemma_vquad_bounds(va2);
    lemma_link_value(a.len() as u64);
    lemma_zero_absent();
    let fresh = a.len() as int;
    let j4 = level_index(va2, 4);
    let j3 = level_index(va2, 3);
    let j2 = level_index(va2, 2);
    if root2 == n && j4 == i {
        assert(a2[root2][j4] == link_value(fresh));
        assert(a2[fresh][j3] == 0);
    } else {
        assert(a2[root2][j4] == a[root2][j4]);
        let e4 = a[root2][j4];
        if entry_present(e4) && !entry_huge(e4) {
            assert(entry_is_link(a, lv, root2, j4));
            let c3 = entry_child(e4);
            if c3 == n && j3 == i {
                assert(a2[c3][j3] == link_value(fresh));
                assert(a2[fresh][j2] == 0);
            } else {
                assert(a2[c3][j3] == a[c3][j3]);
                let e3 = a[c3][j3];
                if entry_present(e3) && !entry_huge(e3) {
                    assert(entry_is_link(a, lv, c3, j3));
                    let c2 = entry_child(e3);
                    if c2 == n && j2 == i {
                        assert(a2[c2][j2] == link_value(fresh));
                    } else {
                        assert(a2[c2][j2] == a[c2][j2]);
                    }
                }
            }
        }
    }
}

/// Writing a leaf entry never touches the intermediate levels a conflict
/// check reads.
proof fn lemma_leaf_conflict_frame(
    a: Seq<Seq<u64>>,
    lv: Seq<int>,
    a2: Seq<Seq<u64>>,
    n: int,
    i: int,
    v: u64,
    root2: int,
    va2: u64,
)
    requires
        arena_wf(a, lv),
        0 <= n < a.len(),
        0 <= i < 512,
        lv[n] == 1,
        a2 == cell_update(a, n, i, v),
        0 <= root2 < a.len(),
        lv[root2] == 4,
    ensures
        path_conflict(a2, root2, va2) == path_conflict(a, root2, va2),
{
    lemma_vquad_bounds(va2);
    let j4 = level_index(va2, 4);
    let j3 = level_index(va2, 3);
    let j2 = level_index(va2, 2);
    assert(root2 != n);
    assert(a2[root2][j4] == a[root2][j4]);
    let e4 = a[root2][j4];
    if entry_present(e4) && !entry_huge(e4) {
        assert(entry_is_link(a, lv, root2, j4));
        let c3 = entry_child(e4);
        assert(c3 != n);
        assert(a2[c3][j3] == a[c3][j3]);
        let e3 = a[c3][j3];
        if entry_present(e3) && !entry_huge(e3) {
            assert(entry_is_link(a, lv, c3, j3));
            let c2 = entry_child(e3);
            assert(c2 != n);
            assert(a2[c2][j2] == a[c2][j2]);
        }
    }
}

/// All page-table nodes of the system, addressed by index.  This arena
/// stands for the kernel heap that table nodes are carved from; nodes
/// are never freed.  The ghost `levels` records each node's place in the
/// tree (4 = top).
pub struct PageTableArena {
    nodes: Vec<PageTableNode>,
    levels: Ghost<Seq<int>>,
}

impl View for PageTableArena {
    type V = Seq<Seq<u64>>;

    closed spec fn view(&self) -> Seq<Seq<u64>> {
        self.nodes@.map_values(|n: PageTableNode| n@)
    }
}

impl PageTableArena {
    /// The level (4 = top, 1 = leaf) of each node.
    pub closed spec fn levels(&self) -> Seq<int> {
        self.levels@
    }

    pub open spec fn wf(&self) -> bool {
        arena_wf(self@, self.levels())
    }

    /// An arena with no nodes yet.
    pub fn new() -> (r: Self)
        ensures
            r.wf(),
            r@.len() == 0,
    {
        let r = PageTableArena { nodes: Vec::new(), levels: Ghost(Seq::empty()) };
        proof {
            assert(r@.len() == 0);
        }
        r
    }

    /// How many nodes have been allocated so far.
    pub fn node_count(&self) -> (r: usize)
        ensures
            r == self@.len(),
    {
        self.nodes.len()
    }

    /// Append a fresh zeroed node of the given level.
    fn alloc_node(&mut self, level: Ghost<int>) -> (r: usize)
        requires
            1 <= level@ <= 4,
        ensures
            final(self)@ == old(self)@.push(zero_node_seq()),
            final(self).levels() == old(self).levels().push(level@),
            r == old(self)@.len(),
    {
        let idx = self.nodes.len();
        let node = PageTableNode::zeroed();
        self.nodes.push(node);
        self.levels = Ghost(self.levels@.push(level@));
        proof {
            assert(node@ =~= zero_node_seq());
            assert(self@ =~~= old(self)@.push(zero_node_seq()));
        }
        idx
    }

    /// Overwrite the entry word at node `n`, slot `i`.
    fn set_cell(&mut self, n: usize, i: usize, v: u64)
        requires
            (n as int) < old(self)@.len(),
            i < 512,
            old(self)@[n as int].len() == 512,
        ensures
            final(self)@ == cell_update(old(self)@, n as int, i as int, v),
            final(self).levels() == old(self).levels(),
    {
        let node_ref = &mut self.nodes[n];
        let entry_ref = &mut node_ref.entries[i];
        entry_ref.value = v;
        proof {
            assert(self@ =~~= cell_update(old(self)@, n as int, i as int, v));
        }
    }

    /// Read the entry word at node `n`, slot `i`.
    fn cell(&self, n: usize, i: usize) -> (r: u64)
        requires
            (n as int) < self@.len(),
            i < 512,
            self@[n as int].len() == 512,
        ensures
            r == self@[n as int][i as int],
    {
        let node_ref = &self.nodes[n];
        node_ref.entries[i].value
    }

    /// Follow the entry at `(node, index)` to the next-level table,
    /// allocating a fresh zeroed node on first reference to an absent
    /// entry.  An entry already holding a huge mapping is a conflicting
    /// allocation and is reported, not followed.
    fn get_or_alloc_next_level_table(&mut self, node: usize, index: usize, level: Ghost<int>)
        -> (r: Result<usize, MapError>)
        requires
            old(self).wf(),
            (node as int) < old(self)@.len(),
            index < 512,
            old(self).levels()[node as int] == level@,
            2 <= level@,
            old(self)@.len() < MAX_ARENA_NODES,
        ensures
            final(self).wf(),
            final(self)@.len() >= old(self)@.len(),
            final(self)@.len() <= old(self)@.len() + 1,
            final(self).levels().len() == final(self)@.len(),
            forall|m: int, j: int|
                0 <= m < old(self)@.len() && 0 <= j < 512 && !(m == node as int && j == index as int)
                    ==> final(self)@[m][j] == old(self)@[m][j],
            forall|m: int|
                0 <= m < old(self)@.len() ==> final(self).levels()[m] == old(self).levels()[m],
            forall|start: int, va: u64|
                0 <= start < old(self)@.len() && old(self).levels()[start] == 4 ==> translate(
                    final(self)@,
                    start,
                    va,
                ) == translate(old(self)@, start, va),
            forall|start: int, va: u64|
                0 <= start < old(self)@.len() && old(self).levels()[start] == 4 ==> path_conflict(
                    final(self)@,
                    start,
                    va,
                ) == path_conflict(old(self)@, start, va),
            match r {
                Ok(c) => {
                    &&& (c as int) < final(self)@.len()
                    &&& final(self).levels()[c as int] == level@ - 1
                    &&& entry_present(final(self)@[node as int][index as int])
                    &&& !entry_huge(final(self)@[node as int][index as int])
                    &&& entry_child(final(self)@[node as int][index as int]) == c as int
                    &&& (entry_present(old(self)@[node as int][index as int]) ==> final(self)@
                        == old(self)@ && final(self).levels() == old(self).levels()
                        && final(self)@.len() == old(self)@.len())
                    &&& (!entry_present(old(self)@[node as int][index as int]) ==> final(self)@.len()
                        == old(self)@.len() + 1 && c as int == old(self)@.len() && (forall|j: int|
                        0 <= j < 512 ==> final(self)@[c as int][j] == 0))
                },
                Err(e) => {
                    &&& e == MapError::TableAlreadyAllocated
                    &&& final(self)@ == old(self)@
                    &&& final(self).levels() == old(self).levels()
                    &&& entry_present(old(self)@[node as int][index as int])
                    &&& entry_huge(old(self)@[node as int][index as int])
                },
            },
    {
        let ghost a1 = self@;
        let ghost lv1 = self.levels@;
        let e = self.cell(node, index);
        proof {
            lemma_zero_absent();
        }
        if e & 1 != 0 {
            if e & 0x80 != 0 {
                return Err(MapError::TableAlreadyAllocated);
            }
            let c64 = (e & PTE_ATTR_MASK) >> 12;
            let len = self.nodes.len();
            proof {
                assert(entry_is_link(a1, lv1, node as int, index as int));
                assert(entry_child(e) < a1.len());
                assert((((e & 0x7FFF_FFFF_FFFF_F000u64) >> 12) as int) == entry_child(e));
                assert(a1.len() == len as int);
                assert(c64 as int == entry_child(e));
                assert((c64 as int) < (len as int));
            }
            let c = c64 as usize;
            proof {
                assert(c64 as int <= usize::MAX as int);
                assert(c as int == entry_child(e));
            }
            Ok(c)
        } else {
            let idx = self.alloc_node(Ghost(level@ - 1));
            let link = ((idx as u64) << 12) | 3;
            proof {
                lemma_link_value(idx as u64);
                assert(link == link_value(a1.len() as int));
            }
            self.set_cell(node, index, link);
            proof {
                let a2 = self@;
                assert(a2 =~~= cell_update(a1, node as int, index as int, link_value(
                    a1.len() as int,
                )).push(zero_node_seq()));
                assert(self.levels@ =~= lv1.push(level@ - 1));
                lemma_alloc_wf(a1, lv1, node as int, index as int);
                assert forall|start: int, va: u64|
                    0 <= start < a1.len() && lv1[start] == 4 implies translate(a2, start, va)
                    == translate(a1, start, va) by {
                    lemma_alloc_frame(a1, lv1, a2, node as int, index as int, start, va, 4);
                }
                assert forall|start: int, va: u64|
                    0 <= start < a1.len() && lv1[start] == 4 implies path_conflict(a2, start, va)
                    == path_conflict(a1, start, va) by {
                    lemma_alloc_conflict_frame(a1, lv1, a2, node as int, index as int, start, va);
                }
                assert(entry_present(a2[node as int][index as int]));
                assert(!entry_huge(a2[node as int][index as int]));
                assert(entry_child(a2[node as int][index as int]) == idx as int);
                assert(a2[idx as int] == zero_node_seq());
                assert(forall|j: int| 0 <= j < 512 ==> a2[idx as int][j] == 0);
            }
            Ok(idx)
        }
    }
}

/// The walk for `va` from `root` meets an intermediate entry that already
/// holds a huge mapping: the conflicting-allocation condition of a 4 KiB
/// mapping request.
pub open spec fn path_conflict(a: Seq<Seq<u64>>, root: int, va: u64) -> bool {
    let e4 = a[root][level_index(va, 4)];
    if !entry_present(e4) {
        false
    } else if entry_huge(e4) {
        true
    } else {
        let e3 = a[entry_child(e4)][level_index(va, 3)];
        if !entry_present(e3) {
            false
        } else if entry_huge(e3) {
            true
        } else {
            let e2 = a[entry_child(e3)][level_index(va, 2)];
            entry_present(e2) && entry_huge(e2)
        }
    }
}

/// How many intermediate nodes a 4 KiB mapping of `va` must allocate:
/// the number of absent links on the walk from `root` down to the leaf
/// level (meaningful when the walk has no conflicting huge entry).
pub open spec fn missing_links(a: Seq<Seq<u64>>, root: int, va: u64) -> int {
    let e4 = a[root][level_index(va, 4)];
    if !entry_present(e4) {
        3
    } else {
        let e3 = a[entry_child(e4)][level_index(va, 3)];
        if !entry_present(e3) {
            2
        } else {
            let e2 = a[entry_child(e3)][level_index(va, 2)];
            if !entry_present(e2) {
                1
            } else {
                0
            }
        }
    }
}

/// Map one 4 KiB page, walking and extending the tree from the top:
/// absent intermediate entries get a fresh zeroed node each, so the nodes
/// allocated are exactly the missing links of this page's path; an
/// intermediate huge entry is a conflicting allocation and is reported.
pub fn map_page(
    arena: &mut PageTableArena,
    root: usize,
    virt: VirtAddr,
    phys: PhysAddr,
    attr: PageTableAttr,
) -> (r: Result<(), MapError>)
    requires
        table_wf(root as int, old(arena)@, old(arena).levels()),
        phys.addr() % 4096 == 0,
        phys.addr() < 0x8000_0000_0000_0000,
        attr != PageTableAttr::NotPresent,
        old(arena)@.len() + 3 <= MAX_ARENA_NODES,
    ensures
        table_wf(root as int, final(arena)@, final(arena).levels()),
        old(arena)@.len() <= final(arena)@.len() <= old(arena)@.len() + 3,
        forall|m: int|
            0 <= m < old(arena)@.len() ==> final(arena).levels()[m] == old(arena).levels()[m],
        r is Ok <==> !path_conflict(old(arena)@, root as int, virt.addr()),
        r is Ok ==> final(arena)@.len() == old(arena)@.len() + missing_links(
            old(arena)@,
            root as int,
            virt.addr(),
        ),
        r is Ok ==> forall|va2: u64|
            #[trigger] translate(final(arena)@, root as int, va2) == if vquad(va2) == vquad(
                virt.addr(),
            ) {
                Some((phys.addr() as int, attr_bits(attr)))
            } else {
                translate(old(arena)@, root as int, va2)
            },
        r is Err ==> r == Err::<(), MapError>(MapError::TableAlreadyAllocated) && forall|va2: u64|
            #[trigger] translate(final(arena)@, root as int, va2) == translate(
                old(arena)@,
                root as int,
                va2,
            ),
        forall|va2: u64|
            #[trigger] path_conflict(final(arena)@, root as int, va2) == path_conflict(
                old(arena)@,
                root as int,
                va2,
            ),
{
    let ghost g0 = arena@;
    let ghost l0 = arena.levels();
    let ghost va = virt.addr();
    let i4 = virt.pml4_index() as usize;
    let i3 = virt.pdpt_index() as usize;
    let i2 = virt.pd_index() as usize;
    let i1 = virt.pt_index() as usize;
    proof {
        lemma_vquad_bounds(va);
        assert(i4 < 512 && i4 as int == level_index(va, 4));
        assert(i3 < 512 && i3 as int == level_index(va, 3));
        assert(i2 < 512 && i2 as int == level_index(va, 2));
        assert(i1 < 512 && i1 as int == level_index(va, 1));
    }

    // Level 4 -> 3.  A huge entry cannot sit at the top level of a
    // well-formed arena, so this step never reports a conflict.
    let ghost e4 = g0[root as int][i4 as int];
    proof {
        if entry_present(e4) {
            assert(!entry_huge(e4));
        }
    }
    let c3 = match arena.get_or_alloc_next_level_table(root, i4, Ghost(4)) {
        Ok(c) => c,
        Err(_) => {
            proof {
                assert(false);
            }
            return Err(MapError::TableAlreadyAllocated);
        },
    };
    let ghost g1 = arena@;
    let ghost l1 = arena.levels();

    // Level 3 -> 2.
    let ghost e3 = g1[c3 as int][i3 as int];
    let c2 = match arena.get_or_alloc_next_level_table(c3, i3, Ghost(3)) {
        Ok(c) => c,
        Err(e) => {
            proof {
                lemma_zero_absent();
                if !entry_present(e4) {
                    assert(e3 == 0);
                    assert(false);
                }
                assert(g1 == g0);
                assert(entry_child(e4) == c3 as int);
                assert(path_conflict(g0, root as int, va));
            }
            return Err(e);
        },
    };
    let ghost g2 = arena@;
    let ghost l2 = arena.levels();
    proof {
        assert(root as int != c3 as int);
        assert(g2[root as int][i4 as int] == g1[root as int][i4 as int]);
    }

    // Level 2 -> 1.
    let ghost e2 = g2[c2 as int][i2 as int];
    let c1 = match arena.get_or_alloc_next_level_table(c2, i2, Ghost(2)) {
        Ok(c) => c,
        Err(e) => {
            proof {
                lemma_zero_absent();
                if !entry_present(e4) {
                    assert(e3 == 0);
                    assert(false);
                }
                assert(g1 == g0);
                if !entry_present(e3) {
                    assert(e2 == 0);
                    assert(false);
                }
                assert(g2 == g1);
                assert(entry_child(e4) == c3 as int);
                assert(entry_child(e3) == c2 as int);
                assert(path_conflict(g0, root as int, va));
            }
            return Err(e);
        },
    };
    let ghost g3 = arena@;
    let ghost l3 = arena.levels();
    proof {
        assert(l2[root as int] == 4 && l2[c3 as int] == 3);
        assert(c2 as int != root as int && c2 as int != c3 as int);
        assert(g3[root as int][i4 as int] == g2[root as int][i4 as int]);
        assert(g3[c3 as int][i3 as int] == g2[c3 as int][i3 as int]);
    }

    // Leaf entry.
    let v = phys.to_u64() | attr.bits();
    proof {
        lemma_attr_bits_in_range(attr);
        lemma_aligned_mask(phys.addr());
        lemma_entry_pack(phys.addr(), attr_bits(attr));
        assert(l3[c1 as int] == 1);
        assert(l3[root as int] == 4 && l3[c3 as int] == 3 && l3[c2 as int] == 2);
        assert(c1 as int != root as int && c1 as int != c3 as int && c1 as int != c2 as int);
    }
    arena.set_cell(c1, i1, v);
    proof {
        let g4 = arena@;
        lemma_zero_absent();
        assert(g4 == cell_update(g3, c1 as int, i1 as int, v));
        lemma_cell_write_wf(g3, l3, c1 as int, i1 as int, v);

        // The three links of the walk for `va` are in place in g3.
        assert(entry_present(g3[root as int][i4 as int]) && !entry_huge(
            g3[root as int][i4 as int],
        ) && entry_child(g3[root as int][i4 as int]) == c3 as int);
        assert(entry_present(g3[c3 as int][i3 as int]) && !entry_huge(g3[c3 as int][i3 as int])
            && entry_child(g3[c3 as int][i3 as int]) == c2 as int);
        assert(entry_present(g3[c2 as int][i2 as int]) && !entry_huge(g3[c2 as int][i2 as int])
            && entry_child(g3[c2 as int][i2 as int]) == c1 as int);

        // No conflict was met.
        assert(!path_conflict(g0, root as int, va));

        // Node-count accounting.
        if entry_present(e4) {
            assert(g1 == g0 && entry_child(e4) == c3 as int);
            if entry_present(e3) {
                assert(g2 == g1 && entry_child(e3) == c2 as int);
                if entry_present(e2) {
                    assert(g3 == g2);
                    assert(missing_links(g0, root as int, va) == 0);
                } else {
                    assert(missing_links(g0, root as int, va) == 1);
                }
            } else {
                assert(!entry_present(g1[c3 as int][i3 as int]));
                assert(c2 as int == g1.len());
                assert(g2[c2 as int][i2 as int] == 0);
                assert(e2 == 0);
                assert(missing_links(g0, root as int, va) == 2);
            }
        } else {
            assert(e3 == 0);
            assert(e2 == 0);
            assert(missing_links(g0, root as int, va) == 3);
        }

        // Conflicts after the leaf write.
        assert forall|va2: u64| #[trigger]
            path_conflict(g4, root as int, va2) == path_conflict(g0, root as int, va2) by {
            lemma_leaf_conflict_frame(g3, l3, g4, c1 as int, i1 as int, v, root as int, va2);
        }

        // Translation after the leaf write.
        assert forall|va2: u64| #[trigger]
            translate(g4, root as int, va2) == if vquad(va2) == vquad(va) {
                Some((phys.addr() as int, attr_bits(attr)))
            } else {
                translate(g0, root as int, va2)
            } by {
            lemma_vquad_bounds(va2);
            lemma_leaf_frame(g3, l3, g4, c1 as int, i1 as int, v, root as int, va2, 4);
            lemma_leaf_conflict_frame(g3, l3, g4, c1 as int, i1 as int, v, root as int, va2);
            if vquad(va2) == vquad(va) {
                lemma_vquad_gives_indices(va2, va);
                assert(visits(g3, c1 as int, va2, 1, c1 as int));
                assert(visits(g3, c2 as int, va2, 2, c1 as int));
                assert(visits(g3, c3 as int, va2, 3, c1 as int));
                assert(visits(g3, root as int, va2, 4, c1 as int));
                assert(level_index(va2, 1) == i1 as int);
                assert(translate(g4, root as int, va2) == Some(
                    (entry_paddr(v) as int, entry_attrs(v)),
                ));
            } else {
                if visits(g3, root as int, va2, 4, c1 as int) && level_index(va2, 1) == i1 as int {
                    assert(visits(g3, c1 as int, va, 1, c1 as int));
                    assert(visits(g3, c2 as int, va, 2, c1 as int));
                    assert(visits(g3, c3 as int, va, 3, c1 as int));
                    assert(visits(g3, root as int, va, 4, c1 as int));
                    lemma_same_path(g3, l3, root as int, va2, va, 4, c1 as int);
                    assert(level_index(va2, 2) == level_index(va, 2));
                    assert(level_index(va2, 3) == level_index(va, 3));
                    assert(level_index(va2, 4) == level_index(va, 4));
                    assert(vquad(va2) == vquad(va));
                    assert(false);
                }
                assert(translate(g4, root as int, va2) == translate(g3, root as int, va2));
            }
        }
    }
    Ok(())
}

/// The page number of `va` is the 36-bit field at bits 12..48.
proof fn lemma_vquad_value(va: u64)
    ensures
        vquad(va) == (va as int % 0x1_0000_0000_0000) / 4096,
        0 <= vquad(va) < 0x10_0000_0000,
{
    crate::memlayout::lemma_index_extract(va);
    assert((((va >> 39) & 0x1FF) * 0x800_0000 + ((va >> 30) & 0x1FF) * 0x4_0000 + ((va >> 21)
        & 0x1FF) * 0x200 + ((va >> 12) & 0x1FF)) == (va % 0x1_0000_0000_0000) / 0x1000)
        by (bit_vector);
    lemma_vquad_bounds(va);
}

/// Stepping a page-aligned address by whole pages, without crossing the
/// 256 TiB translation window, advances the page number by just as many.
proof fn lemma_vquad_add(va: u64, d: u64)
    requires
        va + d <= u64::MAX,
        (va as int % 0x1_0000_0000_0000) + d < 0x1_0000_0000_0000,
        va % 4096 == 0,
        d % 4096 == 0,
    ensures
        vquad((va + d) as u64) == vquad(va) + d as int / 4096,
{
    let p48 = 0x1_0000_0000_0000;
    lemma_vquad_value(va);
    lemma_vquad_value((va + d) as u64);
    let m = va as int % p48;
    vstd::arithmetic::div_mod::lemma_fundamental_div_mod(va as int, p48);
    vstd::arithmetic::div_mod::lemma_mod_bound(va as int, p48);
    assert(va as int + d == (va as int / p48) * p48 + (m + d)) by (nonlinear_arith)
        requires
            va as int == p48 * (va as int / p48) + m,
    ;
    vstd::arithmetic::div_mod::lemma_fundamental_div_mod_converse_mod(
        va as int + d,
        p48,
        va as int / p48,
        m + d,
    );
    assert((va as int + d) % p48 == m + d);
    assert((va % 0x1_0000_0000_0000u64) % 4096 == va % 4096) by (bit_vector);
    assert(m % 4096 == 0);
    vstd::arithmetic::div_mod::lemma_fundamental_div_mod(m, 4096);
    vstd::arithmetic::div_mod::lemma_fundamental_div_mod(d as int, 4096);
    assert(m + d == 4096 * (m / 4096 + d as int / 4096) + 0) by (nonlinear_arith)
        requires
            m == 4096 * (m / 4096),
            d as int == 4096 * (d as int / 4096),
    ;
    vstd::arithmetic::div_mod::lemma_fundamental_div_mod_converse_div(
        m + d,
        4096,
        m / 4096 + d as int / 4096,
        0,
    );
}

/// A 1 GiB-aligned address has zero page-directory and page-table indices.
proof fn lemma_gig_aligned(va: u64)
    requires
        va % 0x4000_0000 == 0,
    ensures
        level_index(va, 1) == 0,
        level_index(va, 2) == 0,
{
    crate::memlayout::lemma_index_extract(va);
    assert(va % 0x4000_0000 == 0 ==> ((va >> 12) & 0x1FF) == 0 && ((va >> 21) & 0x1FF) == 0)
        by (bit_vector);
}

/// Membership of a page number in a whole-gigabyte range, in terms of the
/// table indices: the range covers exactly the addresses that share the
/// top-level index and fall in the right block of third-level indices.
proof fn lemma_digit_range(a4: int, a3: int, a2: int, a1: int, b4: int, b3: int, g: int)
    requires
        0 <= a1 < 512,
        0 <= a2 < 512,
        0 <= a3 < 512,
        0 <= a4 < 512,
        0 <= b3 < 512,
        0 <= b4 < 512,
        0 <= g,
        b3 + g <= 512,
    ensures
        (((b4 * 512 + b3) * 512) * 512 <= ((a4 * 512 + a3) * 512 + a2) * 512 + a1 && ((a4 * 512
            + a3) * 512 + a2) * 512 + a1 < ((b4 * 512 + b3 + g) * 512) * 512) <==> (a4 == b4 && b3
            <= a3 < b3 + g),
{
    let q = a4 * 512 + a3;
    let low = b4 * 512 + b3;
    let val = (q * 512 + a2) * 512 + a1;
    assert(val == q * 0x40000 + (a2 * 512 + a1));
    assert(0 <= a2 * 512 + a1 < 0x40000);
    if low <= q < low + g {
        assert(low * 0x40000 <= q * 0x40000);
        assert(val < (low + g) * 0x40000);
    }
    if low * 0x40000 <= val < (low + g) * 0x40000 {
        if q < low {
            assert(val <= (low - 1) * 0x40000 + 0x3FFFF);
            assert(false);
        }
        if q >= low + g {
            assert(val >= (low + g) * 0x40000);
            assert(false);
        }
    }
    if a4 == b4 && b3 <= a3 < b3 + g {
        assert(low <= q < low + g);
    }
    if low <= q < low + g {
        if a4 < b4 {
            assert(q <= (b4 - 1) * 512 + 511);
            assert(false);
        }
        if a4 > b4 {
            assert(q >= (b4 + 1) * 512);
            assert(low + g <= b4 * 512 + 512);
            assert(false);
        }
        assert(a4 == b4);
        assert(b3 <= a3 < b3 + g);
    }
}

/// The top-level entries a duplicate receives: the present entries of the
/// source's top node, absent slots staying absent.
pub open spec fn duplicate_seq(a: Seq<Seq<u64>>, root: int) -> Seq<u64> {
    Seq::new(
        512,
        |i: int|
            if entry_present(a[root][i]) {
                a[root][i]
            } else {
                0
            },
    )
}

/// Appending a top-level node whose present entries are copied from an
/// existing top-level node keeps the arena well-formed.
proof fn lemma_duplicate_wf(a: Seq<Seq<u64>>, lv: Seq<int>, root: int)
    requires
        table_wf(root, a, lv),
    ensures
        arena_wf(a.push(duplicate_seq(a, root)), lv.push(4)),
{
    let a2 = a.push(duplicate_seq(a, root));
    let lv2 = lv.push(4);
    let fresh = a.len() as int;
    lemma_zero_absent();
    assert forall|m: int| 0 <= m < a2.len() implies (#[trigger] a2[m]).len() == 512 by {
        if m < a.len() {
            assert(a[m].len() == 512);
        }
    }
    assert forall|m: int, j: int| #[trigger]
        entry_is_link(a2, lv2, m, j) implies 0 <= entry_child(a2[m][j]) < a2.len() && lv2[entry_child(
        a2[m][j],
    )] == lv2[m] - 1 by {
        if m == fresh {
            assert(a2[m][j] == duplicate_seq(a, root)[j]);
            assert(entry_present(a2[m][j]));
            assert(a2[m][j] == a[root][j]);
            assert(entry_is_link(a, lv, root, j));
        } else {
            assert(a2[m][j] == a[m][j]);
            assert(entry_is_link(a, lv, m, j));
        }
    }
    assert forall|m: int, j: int|
        0 <= m < a2.len() && 0 <= j < 512 && lv2[m] != 3 && lv2[m] != 1 && entry_present(
            #[trigger] a2[m][j],
        ) implies !entry_huge(a2[m][j]) by {
        if m == fresh {
            assert(a2[m][j] == a[root][j]);
        } else {
            assert(a2[m][j] == a[m][j]);
        }
    }
    assert forall|n1: int, i1: int, n2: int, i2: int|
        #[trigger] entry_is_link(a2, lv2, n1, i1) && #[trigger] entry_is_link(a2, lv2, n2, i2) && (
        n1 == n2 || (lv2[n1] <= 3 && lv2[n2] <= 3)) && entry_child(a2[n1][i1]) == entry_child(
            a2[n2][i2],
        ) implies n1 == n2 && i1 == i2 by {
        if n1 == fresh && n2 == fresh {
            assert(a2[n1][i1] == a[root][i1]);
            assert(a2[n2][i2] == a[root][i2]);
            assert(entry_is_link(a, lv, root, i1));
            assert(entry_is_link(a, lv, root, i2));
        } else if n1 == fresh || n2 == fresh {
            assert(false);
        } else {
            assert(a2[n1][i1] == a[n1][i1]);
            assert(a2[n2][i2] == a[n2][i2]);
            assert(entry_is_link(a, lv, n1, i1));
            assert(entry_is_link(a, lv, n2, i2));
        }
    }
}

/// The duplicate translates exactly as its source did at duplication time:
/// the lower levels are shared, not copied.
proof fn lemma_duplicate_translate(a: Seq<Seq<u64>>, lv: Seq<int>, root: int, va: u64)
    requires
        table_wf(root, a, lv),
    ensures
        translate(a.push(duplicate_seq(a, root)), a.len() as int, va) == translate(a, root, va),
{
    let a2 = a.push(duplicate_seq(a, root));
    let fresh = a.len() as int;
    lemma_vquad_bounds(va);
    lemma_zero_absent();
    let i4 = level_index(va, 4);
    let e = a[root][i4];
    assert(a2[fresh][i4] == duplicate_seq(a, root)[i4]);
    if entry_present(e) {
        assert(a2[fresh][i4] == e);
        assert(!entry_huge(e));
        assert(entry_is_link(a, lv, root, i4));
        lemma_translate_append(a, lv, a2, entry_child(e), va, 3);
    }
}

/// Two tables whose top-level entries agree at the index of `va` translate
/// `va` identically: sharing a top-level entry shares the whole subtree,
/// so a change made through one address space is seen through the other.
pub proof fn lemma_shared_pml4_translate(
    a: Seq<Seq<u64>>,
    lv: Seq<int>,
    r1: int,
    r2: int,
    va: u64,
)
    requires
        table_wf(r1, a, lv),
        table_wf(r2, a, lv),
        a[r1][level_index(va, 4)] == a[r2][level_index(va, 4)],
    ensures
        translate(a, r1, va) == translate(a, r2, va),
{
    lemma_vquad_bounds(va);
}

/// Whether a mapping request takes the 1 GiB fast path: the huge attribute
/// with both addresses and the page count aligned to whole gigabytes.
pub open spec fn huge_mode(virt: u64, phys: u64, num_pages: u64) -> bool {
    &&& virt % 0x4000_0000 == 0
    &&& phys % 0x4000_0000 == 0
    &&& num_pages % 0x40000 == 0
}

/// No gigabyte slot of the requested range already holds a next-level
/// table (which would conflict with writing a huge entry there).
pub open spec fn huge_range_conflict_free(
    a: Seq<Seq<u64>>,
    root: int,
    va: u64,
    gigs: int,
) -> bool {
    let e4 = a[root][level_index(va, 4)];
    !entry_present(e4) || (forall|j: int|
        0 <= j < gigs ==> !(entry_present(#[trigger] a[entry_child(e4)][level_index(va, 3) + j])
            && !entry_huge(a[entry_child(e4)][level_index(va, 3) + j])))
}

/// Writing a huge entry at a third-level slot creates conflicts only for
/// walks routed through that very slot.
proof fn lemma_pdpt_conflict_frame(
    a: Seq<Seq<u64>>,
    lv: Seq<int>,
    a2: Seq<Seq<u64>>,
    n: int,
    i: int,
    v: u64,
    root2: int,
    va2: u64,
)
    requires
        arena_wf(a, lv),
        0 <= n < a.len(),
        0 <= i < 512,
        lv[n] == 3,
        a2 == cell_update(a, n, i, v),
        0 <= root2 < a.len(),
        lv[root2] == 4,
    ensures
        path_conflict(a2, root2, va2) ==> path_conflict(a, root2, va2) || (entry_present(
            a[root2][level_index(va2, 4)],
        ) && !entry_huge(a[root2][level_index(va2, 4)]) && entry_child(
            a[root2][level_index(va2, 4)],
        ) == n && level_index(va2, 3) == i),
{
    lemma_vquad_bounds(va2);
    let j4 = level_index(va2, 4);
    let j3 = level_index(va2, 3);
    let j2 = level_index(va2, 2);
    assert(root2 != n);
    assert(a2[root2][j4] == a[root2][j4]);
    let e4 = a[root2][j4];
    if entry_present(e4) && !entry_huge(e4) {
        assert(entry_is_link(a, lv, root2, j4));
        let c3 = entry_child(e4);
        if !(c3 == n && j3 == i) {
            assert(a2[c3][j3] == a[c3][j3]);
            let e3 = a[c3][j3];
            if entry_present(e3) && !entry_huge(e3) {
                assert(entry_is_link(a, lv, c3, j3));
                let c2 = entry_child(e3);
                assert(c2 != n);
                assert(a2[c2][j2] == a[c2][j2]);
            }
        }
    }
}

/// A walk passes through the third-level node behind a given top-level
/// link exactly when the address selects that link's slot.
proof fn lemma_visits_pdpt(
    a: Seq<Seq<u64>>,
    lv: Seq<int>,
    root: int,
    c3: int,
    i4: int,
    va2: u64,
)
    requires
        arena_wf(a, lv),
        0 <= root < a.len(),
        lv[root] == 4,
        0 <= i4 < 512,
        entry_is_link(a, lv, root, i4),
        entry_child(a[root][i4]) == c3,
    ensures
        visits(a, root, va2, 4, c3) <==> level_index(va2, 4) == i4,
    decreases 0int,
{
    lemma_vquad_bounds(va2);
    assert(lv[c3] == 3);
    assert(root != c3);
    if level_index(va2, 4) == i4 {
        assert(visits(a, c3, va2, 3, c3));
        assert(visits(a, root, va2, 4, c3));
    }
    if visits(a, root, va2, 4, c3) && level_index(va2, 4) != i4 {
        let j4 = level_index(va2, 4);
        let e = a[root][j4];
        assert(entry_present(e) && !entry_huge(e));
        assert(entry_is_link(a, lv, root, j4));
        let c = entry_child(e);
        assert(visits(a, c, va2, 3, c3));
        if c == c3 {
            assert(false);
        } else {
            let e3 = a[c][level_index(va2, 3)];
            assert(entry_present(e3) && !entry_huge(e3));
            assert(entry_is_link(a, lv, c, level_index(va2, 3)));
            lemma_visits_level(a, lv, entry_child(e3), va2, 2, c3);
            assert(false);
        }
    }
}

/// One 4-level page table: a handle on its top node in the arena.
pub struct PageTable {
    root: usize,
}

impl PageTable {
    /// The arena index of this table's top node.
    pub closed spec fn spec_root(&self) -> int {
        self.root as int
    }

    /// A fresh table with no mappings at all.
    pub fn new(arena: &mut PageTableArena) -> (r: PageTable)
        requires
            old(arena).wf(),
        ensures
            table_wf(r.spec_root(), final(arena)@, final(arena).levels()),
            r.spec_root() == old(arena)@.len(),
            final(arena)@ == old(arena)@.push(zero_node_seq()),
            final(arena).levels() == old(arena).levels().push(4),
            forall|va: u64| #[trigger] translate(final(arena)@, r.spec_root(), va) is None,
            forall|start: int, va: u64|
                0 <= start < old(arena)@.len() && old(arena).levels()[start] == 4 ==> translate(
                    final(arena)@,
                    start,
                    va,
                ) == translate(old(arena)@, start, va),
    {
        let root = arena.alloc_node(Ghost(4int));
        proof {
            let a2 = arena@;
            let lv2 = arena.levels();
            let a1 = old(arena)@;
            let lv1 = old(arena).levels();
            lemma_zero_absent();
            assert forall|m: int, j: int| #[trigger]
                entry_is_link(a2, lv2, m, j) implies 0 <= entry_child(a2[m][j]) < a2.len()
                && lv2[entry_child(a2[m][j])] == lv2[m] - 1 by {
                if m == a1.len() as int {
                    assert(a2[m][j] == 0);
                    assert(false);
                } else {
                    assert(a2[m][j] == a1[m][j]);
                    assert(entry_is_link(a1, lv1, m, j));
                }
            }
            assert forall|m: int, j: int|
                0 <= m < a2.len() && 0 <= j < 512 && lv2[m] != 3 && lv2[m] != 1 && entry_present(
                    #[trigger] a2[m][j],
                ) implies !entry_huge(a2[m][j]) by {
                if m < a1.len() {
                    assert(a2[m][j] == a1[m][j]);
                } else {
                    assert(a2[m][j] == 0);
                }
            }
            assert forall|n1: int, i1: int, n2: int, i2: int|
                #[trigger] entry_is_link(a2, lv2, n1, i1) && #[trigger] entry_is_link(
                    a2,
                    lv2,
                    n2,
                    i2,
                ) && (n1 == n2 || (lv2[n1] <= 3 && lv2[n2] <= 3)) && entry_child(a2[n1][i1])
                    == entry_child(a2[n2][i2]) implies n1 == n2 && i1 == i2 by {
                if n1 == a1.len() as int || n2 == a1.len() as int {
                    assert(false);
                } else {
                    assert(entry_is_link(a1, lv1, n1, i1));
                    assert(entry_is_link(a1, lv1, n2, i2));
                }
            }
            assert(arena_wf(a2, lv2));
            assert forall|va: u64| #[trigger]
                translate(a2, a1.len() as int, va) is None by {
                lemma_vquad_bounds(va);
                assert(a2[a1.len() as int][level_index(va, 4)] == 0);
            }
            assert forall|start: int, va: u64|
                0 <= start < a1.len() && lv1[start] == 4 implies translate(a2, start, va)
                == translate(a1, start, va) by {
                lemma_translate_append(a1, lv1, a2, start, va, 4);
            }
        }
        PageTable { root }
    }

    /// A new top-level table that shares all currently present top-level
    /// entries with this one by copying the entry values; lower levels are
    /// shared, not deep-copied, so new address spaces observe the same
    /// kernel mappings by construction.  Later top-level additions to the
    /// source are not seen by tables duplicated earlier.
    pub fn duplicate_kernel(&self, arena: &mut PageTableArena) -> (r: PageTable)
        requires
            table_wf(self.spec_root(), old(arena)@, old(arena).levels()),
        ensures
            table_wf(r.spec_root(), final(arena)@, final(arena).levels()),
            table_wf(self.spec_root(), final(arena)@, final(arena).levels()),
            r.spec_root() == old(arena)@.len(),
            final(arena)@.len() == old(arena)@.len() + 1,
            final(arena).levels() == old(arena).levels().push(4),
            forall|m: int| 0 <= m < old(arena)@.len() ==> final(arena)@[m] == old(arena)@[m],
            forall|i: int|
                0 <= i < 512 ==> final(arena)@[r.spec_root()][i] == if entry_present(
                    old(arena)@[self.spec_root()][i],
                ) {
                    old(arena)@[self.spec_root()][i]
                } else {
                    0
                },
            forall|va: u64| #[trigger]
                translate(final(arena)@, r.spec_root(), va) == translate(
                    old(arena)@,
                    self.spec_root(),
                    va,
                ),
            forall|start: int, va: u64|
                0 <= start < old(arena)@.len() && old(arena).levels()[start] == 4 ==> translate(
                    final(arena)@,
                    start,
                    va,
                ) == translate(old(arena)@, start, va),
    {
        let ghost a1 = arena@;
        let ghost lv1 = arena.levels();
        let new_root = arena.alloc_node(Ghost(4int));
        let mut i: usize = 0;
        while i < 512
            invariant
                i <= 512,
                table_wf(self.spec_root(), a1, lv1),
                self.spec_root() < a1.len(),
                new_root as int == a1.len(),
                arena@.len() == a1.len() + 1,
                arena.levels() == lv1.push(4),
                forall|m: int| 0 <= m < a1.len() ==> arena@[m] == a1[m],
                arena@[self.spec_root()].len() == 512,
                arena@[new_root as int].len() == 512,
                forall|j: int|
                    0 <= j < i ==> arena@[new_root as int][j] == duplicate_seq(a1, self.spec_root())[j],
                forall|j: int| i <= j < 512 ==> arena@[new_root as int][j] == 0,
            decreases 512 - i,
        {
            let e = arena.cell(self.root, i);
            if e & 1 != 0 {
                arena.set_cell(new_root, i, e);
            }
            proof {
                lemma_zero_absent();
            }
            i = i + 1;
        }
        proof {
            assert(arena@ =~~= a1.push(duplicate_seq(a1, self.spec_root())));
            lemma_duplicate_wf(a1, lv1, self.spec_root());
            assert forall|va: u64| #[trigger]
                translate(arena@, a1.len() as int, va) == translate(a1, self.spec_root(), va) by {
                lemma_duplicate_translate(a1, lv1, self.spec_root(), va);
            }
            assert forall|start: int, va: u64|
                0 <= start < a1.len() && lv1[start] == 4 implies translate(arena@, start, va)
                == translate(a1, start, va) by {
                lemma_translate_append(a1, lv1, arena@, start, va, 4);
            }
        }
        PageTable { root: new_root }
    }

    /// Walk the table for `virt` as the hardware would, returning the
    /// physical base of the page that holds it together with the mapping's
    /// attribute bits.
    pub fn walk(&self, arena: &PageTableArena, virt: VirtAddr) -> (r: Option<(PhysAddr, u64)>)
        requires
            table_wf(self.spec_root(), arena@, arena.levels()),
        ensures
            match r {
                Some(p) => translate(arena@, self.spec_root(), virt.addr()) == Some(
                    (p.0.addr() as int, p.1),
                ),
                None => translate(arena@, self.spec_root(), virt.addr()) is None,
            },
    {
        let ghost a = arena@;
        let ghost lv = arena.levels();
        let ghost va = virt.addr();
        let i4 = virt.pml4_index() as usize;
        let i3 = virt.pdpt_index() as usize;
        let i2 = virt.pd_index() as usize;
        let i1 = virt.pt_index() as usize;
        proof {
            lemma_vquad_bounds(va);
            assert(i4 as int == level_index(va, 4));
            assert(i3 as int == level_index(va, 3));
            assert(i2 as int == level_index(va, 2));
            assert(i1 as int == level_index(va, 1));
        }
        let count = arena.node_count();
        let e4 = arena.cell(self.root, i4);
        if e4 & 1 == 0 {
            proof {
                assert(translate_at(a, self.spec_root(), va, 4) is None);
            }
            return None;
        }
        proof {
            assert(!entry_huge(e4));
        }
        proof {
            assert(entry_is_link(a, lv, self.spec_root(), i4 as int));
            assert((((e4 & 0x7FFF_FFFF_FFFF_F000u64) >> 12) as int) == entry_child(e4));
            assert(entry_child(e4) < count as int);
        }
        let c3 = ((e4 & PTE_ATTR_MASK) >> 12) as usize;
        proof {
            assert(c3 as int == entry_child(e4));
        }
        let e3 = arena.cell(c3, i3);
        if e3 & 1 == 0 {
            proof {
                assert(translate_at(a, c3 as int, va, 3) is None);
                assert(translate_at(a, self.spec_root(), va, 4) is None);
            }
            return None;
        }
        if e3 & 0x80 != 0 {
            let off = ((i2 as u64) * 512 + (i1 as u64)) * 4096;
            proof {
                assert(e3 & 0x7FFF_FFFF_FFFF_F000u64 <= 0x7FFF_FFFF_FFFF_F000u64) by (bit_vector);
                assert(translate_at(a, c3 as int, va, 3) == Some(
                    (
                        entry_paddr(e3) + (level_index(va, 2) * 512 + level_index(va, 1)) * 4096,
                        entry_attrs(e3),
                    ),
                ));
                assert(translate_at(a, self.spec_root(), va, 4) == translate_at(a, c3 as int, va, 3));
            }
            return Some((PhysAddr::new((e3 & PTE_ATTR_MASK) + off), e3 & PTE_ATTR_BITS));
        }
        proof {
            assert(entry_is_link(a, lv, c3 as int, i3 as int));
            assert((((e3 & 0x7FFF_FFFF_FFFF_F000u64) >> 12) as int) == entry_child(e3));
            assert(entry_child(e3) < count as int);
        }
        let c2 = ((e3 & PTE_ATTR_MASK) >> 12) as usize;
        proof {
            assert(c2 as int == entry_child(e3));
        }
        let e2 = arena.cell(c2, i2);
        if e2 & 1 == 0 {
            proof {
                assert(translate_at(a, c2 as int, va, 2) is None);
                assert(translate_at(a, c3 as int, va, 3) is None);
                assert(translate_at(a, self.spec_root(), va, 4) is None);
            }
            return None;
        }
        proof {
            assert(lv[c2 as int] == 2);
            assert(!entry_huge(e2));
            assert(entry_is_link(a, lv, c2 as int, i2 as int));
            assert((((e2 & 0x7FFF_FFFF_FFFF_F000u64) >> 12) as int) == entry_child(e2));
            assert(entry_child(e2) < count as int);
        }
        let c1 = ((e2 & PTE_ATTR_MASK) >> 12) as usize;
        proof {
            assert(c1 as int == entry_child(e2));
        }
        let e1 = arena.cell(c1, i1);
        if e1 & 1 == 0 {
            proof {
                assert(translate_at(a, c1 as int, va, 1) is None);
                assert(translate_at(a, c2 as int, va, 2) is None);
                assert(translate_at(a, c3 as int, va, 3) is None);
                assert(translate_at(a, self.spec_root(), va, 4) is None);
            }
            return None;
        }
        proof {
            assert(translate_at(a, c1 as int, va, 1) == Some(
                (entry_paddr(e1) as int, entry_attrs(e1)),
            ));
            assert(translate_at(a, c2 as int, va, 2) == translate_at(a, c1 as int, va, 1));
            assert(translate_at(a, c3 as int, va, 3) == translate_at(a, c2 as int, va, 2));
            assert(translate_at(a, self.spec_root(), va, 4) == translate_at(a, c3 as int, va, 3));
        }
        Some((PhysAddr::new(e1 & PTE_ATTR_MASK), e1 & PTE_ATTR_BITS))
    }
}

impl PageTable {
    /// Map `num_pages` consecutive pages starting at `virt_start` onto the
    /// physical range starting at `phys_start`.  When the attribute
    /// requests 1 GiB pages and the range is gigabyte-aligned on both
    /// sides, one huge entry per gigabyte is written at the third level
    /// instead of descending to the leaves; otherwise the range is mapped
    /// page by page.  Misaligned start addresses and conflicting existing
    /// allocations are reported, never silently corrected.
    #[verifier::loop_isolation(false)]
    #[verifier::rlimit(100)]
    pub fn map(
        &self,
        arena: &mut PageTableArena,
        virt_start: VirtAddr,
        phys_start: PhysAddr,
        num_pages: u64,
        attr: PageTableAttr,
    ) -> (r: Result<(), MapError>)
        requires
            table_wf(self.spec_root(), old(arena)@, old(arena).levels()),
            attr != PageTableAttr::NotPresent,
            phys_start.addr() + num_pages * 4096 <= 0x8000_0000_0000_0000,
            virt_start.addr() + num_pages * 4096 <= u64::MAX,
            (virt_start.addr() as int % 0x1_0000_0000_0000) + num_pages * 4096
                <= 0x1_0000_0000_0000,
            old(arena)@.len() + 3 * num_pages + 1 <= MAX_ARENA_NODES,
            attr == PageTableAttr::ReadWriteKernel1GiB && huge_mode(
                virt_start.addr(),
                phys_start.addr(),
                num_pages,
            ) ==> level_index(virt_start.addr(), 3) + num_pages as int / 0x40000 <= 512,
        ensures
            table_wf(self.spec_root(), final(arena)@, final(arena).levels()),
            forall|m: int|
                0 <= m < old(arena)@.len() ==> final(arena).levels()[m] == old(
                    arena,
                ).levels()[m],
            old(arena)@.len() <= final(arena)@.len(),
            (r == Err::<(), MapError>(MapError::UnalignedVirtualAddress)) <==> virt_start.addr()
                % 4096 != 0,
            (r == Err::<(), MapError>(MapError::UnalignedPhysicalAddress)) <==> (virt_start.addr()
                % 4096 == 0 && phys_start.addr() % 4096 != 0),
            (virt_start.addr() % 4096 != 0 || phys_start.addr() % 4096 != 0) ==> final(arena)@
                == old(arena)@ && final(arena).levels() == old(arena).levels(),
            (virt_start.addr() % 4096 == 0 && phys_start.addr() % 4096 == 0 && attr
                == PageTableAttr::ReadWriteKernel1GiB && huge_mode(
                virt_start.addr(),
                phys_start.addr(),
                num_pages,
            )) ==> ((r is Ok <==> huge_range_conflict_free(
                old(arena)@,
                self.spec_root(),
                virt_start.addr(),
                num_pages as int / 0x40000,
            )) && (r is Ok ==> final(arena)@.len() == old(arena)@.len() + (if entry_present(
                old(arena)@[self.spec_root()][level_index(virt_start.addr(), 4)],
            ) {
                0int
            } else {
                1int
            }))),
            (virt_start.addr() % 4096 == 0 && phys_start.addr() % 4096 == 0 && !(attr
                == PageTableAttr::ReadWriteKernel1GiB && huge_mode(
                virt_start.addr(),
                phys_start.addr(),
                num_pages,
            ))) ==> ((r is Ok <==> (forall|k: int|
                0 <= k < num_pages ==> !(#[trigger] path_conflict(
                    old(arena)@,
                    self.spec_root(),
                    (virt_start.addr() + 4096 * k) as u64,
                )))) && (forall|va2: u64|
                #[trigger] path_conflict(final(arena)@, self.spec_root(), va2) == path_conflict(
                    old(arena)@,
                    self.spec_root(),
                    va2,
                )) && final(arena)@.len() <= old(arena)@.len() + 3 * num_pages),
            r is Ok ==> forall|va2: u64|
                #[trigger] translate(final(arena)@, self.spec_root(), va2) == (if vquad(
                    virt_start.addr(),
                ) <= vquad(va2) < vquad(virt_start.addr()) + num_pages {
                    Some(
                        (
                            phys_start.addr() + (vquad(va2) - vquad(virt_start.addr())) * 4096,
                            attr_bits(attr),
                        ),
                    )
                } else {
                    translate(old(arena)@, self.spec_root(), va2)
                }),
            r is Err ==> forall|va2: u64|
                #[trigger] translate(final(arena)@, self.spec_root(), va2) == translate(
                    old(arena)@,
                    self.spec_root(),
                    va2,
                ) || (vquad(virt_start.addr()) <= vquad(va2) < vquad(virt_start.addr())
                    + num_pages && translate(final(arena)@, self.spec_root(), va2) == Some(
                    (
                        phys_start.addr() + (vquad(va2) - vquad(virt_start.addr())) * 4096,
                        attr_bits(attr),
                    ),
                )),
            (attr == PageTableAttr::ReadWriteKernel1GiB && huge_mode(
                virt_start.addr(),
                phys_start.addr(),
                num_pages,
            )) ==> forall|va2: u64|
                #[trigger] path_conflict(final(arena)@, self.spec_root(), va2) ==> path_conflict(
                    old(arena)@,
                    self.spec_root(),
                    va2,
                ) || (vquad(virt_start.addr()) <= vquad(va2) < vquad(virt_start.addr())
                    + num_pages),
    {
        let ghost g0 = arena@;
        let ghost l0 = arena.levels();
        let ghost virt0 = virt_start.addr();
        let ghost phys0 = phys_start.addr();
        let ghost vq0 = vquad(virt0);
        let root = self.root;
        if virt_start.to_u64() % 4096 != 0 {
            return Err(MapError::UnalignedVirtualAddress);
        }
        if phys_start.to_u64() % 4096 != 0 {
            return Err(MapError::UnalignedPhysicalAddress);
        }

        if attr == PageTableAttr::ReadWriteKernel1GiB && virt_start.to_u64() % 0x4000_0000 == 0
            && phys_start.to_u64() % 0x4000_0000 == 0 && num_pages % 0x40000 == 0 {
            return self.map_huge(arena, virt_start, phys_start, num_pages);
        }

        // 4 KiB granularity: one leaf entry per page.
        let mut k: u64 = 0;
        while k < num_pages
            invariant
                k <= num_pages,
                table_wf(self.spec_root(), arena@, arena.levels()),
                arena@.len() + 3 * (num_pages - k) <= MAX_ARENA_NODES,
                g0.len() <= arena@.len() <= g0.len() + 3 * k,
                forall|m: int| 0 <= m < g0.len() ==> arena.levels()[m] == l0[m],
                forall|j: int|
                    0 <= j < k ==> !(#[trigger] path_conflict(
                        g0,
                        self.spec_root(),
                        (virt0 + 4096 * j) as u64,
                    )),
                forall|va2: u64|
                    #[trigger] translate(arena@, self.spec_root(), va2) == (if vq0 <= vquad(va2)
                        < vq0 + k {
                        Some((phys0 + (vquad(va2) - vq0) * 4096, attr_bits(attr)))
                    } else {
                        translate(g0, self.spec_root(), va2)
                    }),
                forall|va2: u64|
                    #[trigger] path_conflict(arena@, self.spec_root(), va2) == path_conflict(
                        g0,
                        self.spec_root(),
                        va2,
                    ),
            decreases num_pages - k,
        {
            let ghost ga = arena@;
            let va = VirtAddr::new(virt_start.to_u64() + k * 4096);
            let pa = PhysAddr::new(phys_start.to_u64() + k * 4096);
            proof {
                vstd::arithmetic::div_mod::lemma_mod_multiples_vanish(
                    k as int,
                    phys0 as int,
                    4096,
                );
                assert(pa.addr() % 4096 == 0);
                lemma_vquad_add(virt0, (k * 4096) as u64);
                assert(vquad(va.addr()) == vq0 + k);
            }
            match map_page(arena, root, va, pa, attr) {
                Ok(()) => {
                    proof {
                        let gb = arena@;
                        assert(!path_conflict(ga, self.spec_root(), va.addr()));
                        assert(!path_conflict(g0, self.spec_root(), va.addr()));
                        assert forall|va2: u64|
                            #[trigger] translate(gb, self.spec_root(), va2) == (if vq0 <= vquad(
                                va2,
                            ) < vq0 + (k + 1) {
                                Some((phys0 + (vquad(va2) - vq0) * 4096, attr_bits(attr)))
                            } else {
                                translate(g0, self.spec_root(), va2)
                            }) by {
                            if vquad(va2) == vquad(va.addr()) {
                                assert(translate(gb, self.spec_root(), va2) == Some(
                                    (pa.addr() as int, attr_bits(attr)),
                                ));
                            } else {
                                assert(translate(gb, self.spec_root(), va2) == translate(
                                    ga,
                                    self.spec_root(),
                                    va2,
                                ));
                            }
                        }
                    }
                },
                Err(e) => {
                    proof {
                        assert(path_conflict(ga, self.spec_root(), va.addr()));
                        assert(path_conflict(g0, self.spec_root(), va.addr()));
                        assert(!(forall|j: int|
                            0 <= j < num_pages ==> !(#[trigger] path_conflict(
                                g0,
                                self.spec_root(),
                                (virt0 + 4096 * j) as u64,
                            ))));
                    }
                    return Err(e);
                },
            }
            k = k + 1;
        }
        Ok(())
    }

    /// The 1 GiB fast path of `map`: one huge entry per gigabyte at the
    /// third level, with no leaf-level allocations at all.
    #[verifier::loop_isolation(false)]
    #[verifier::rlimit(100)]
    fn map_huge(
        &self,
        arena: &mut PageTableArena,
        virt_start: VirtAddr,
        phys_start: PhysAddr,
        num_pages: u64,
    ) -> (r: Result<(), MapError>)
        requires
            table_wf(self.spec_root(), old(arena)@, old(arena).levels()),
            huge_mode(virt_start.addr(), phys_start.addr(), num_pages),
            phys_start.addr() + num_pages * 4096 <= 0x8000_0000_0000_0000,
            virt_start.addr() + num_pages * 4096 <= u64::MAX,
            (virt_start.addr() as int % 0x1_0000_0000_0000) + num_pages * 4096
                <= 0x1_0000_0000_0000,
            old(arena)@.len() + 1 <= MAX_ARENA_NODES,
            level_index(virt_start.addr(), 3) + num_pages as int / 0x40000 <= 512,
        ensures
            table_wf(self.spec_root(), final(arena)@, final(arena).levels()),
            forall|m: int|
                0 <= m < old(arena)@.len() ==> final(arena).levels()[m] == old(
                    arena,
                ).levels()[m],
            old(arena)@.len() <= final(arena)@.len(),
            r is Ok <==> huge_range_conflict_free(
                old(arena)@,
                self.spec_root(),
                virt_start.addr(),
                num_pages as int / 0x40000,
            ),
            final(arena)@.len() == old(arena)@.len() + (if entry_present(
                old(arena)@[self.spec_root()][level_index(virt_start.addr(), 4)],
            ) {
                0int
            } else {
                1int
            }),
            r is Ok ==> forall|va2: u64|
                #[trigger] translate(final(arena)@, self.spec_root(), va2) == (if vquad(
                    virt_start.addr(),
                ) <= vquad(va2) < vquad(virt_start.addr()) + num_pages {
                    Some(
                        (
                            phys_start.addr() + (vquad(va2) - vquad(virt_start.addr())) * 4096,
                            attr_bits(PageTableAttr::ReadWriteKernel1GiB),
                        ),
                    )
                } else {
                    translate(old(arena)@, self.spec_root(), va2)
                }),
            r is Err ==> r == Err::<(), MapError>(MapError::TableAlreadyAllocated) && forall|
                va2: u64,
            |
                #[trigger] translate(final(arena)@, self.spec_root(), va2) == translate(
                    old(arena)@,
                    self.spec_root(),
                    va2,
                ) || (vquad(virt_start.addr()) <= vquad(va2) < vquad(virt_start.addr())
                    + num_pages && translate(final(arena)@, self.spec_root(), va2) == Some(
                    (
                        phys_start.addr() + (vquad(va2) - vquad(virt_start.addr())) * 4096,
                        attr_bits(PageTableAttr::ReadWriteKernel1GiB),
                    ),
                )),
            forall|va2: u64|
                #[trigger] path_conflict(final(arena)@, self.spec_root(), va2) ==> path_conflict(
                    old(arena)@,
                    self.spec_root(),
                    va2,
                ) || (vquad(virt_start.addr()) <= vquad(va2) < vquad(virt_start.addr())
                    + num_pages),
    {
        let ghost g0 = arena@;
        let ghost l0 = arena.levels();
        let ghost virt0 = virt_start.addr();
        let ghost phys0 = phys_start.addr();
        let ghost vq0 = vquad(virt0);
        let root = self.root;

            // 1 GiB fast path: one entry per gigabyte at the third level.
            let gigs = num_pages / 0x40000;
            let i4 = virt_start.pml4_index() as usize;
            let i3 = virt_start.pdpt_index() as usize;
            proof {
                lemma_vquad_bounds(virt0);
                lemma_gig_aligned(virt0);
                assert(i4 as int == level_index(virt0, 4) && i4 < 512);
                assert(i3 as int == level_index(virt0, 3) && i3 < 512);
                assert(gigs as int == num_pages as int / 0x40000);
                vstd::arithmetic::div_mod::lemma_fundamental_div_mod(num_pages as int, 0x40000);
                assert(num_pages as int == 0x40000 * (gigs as int));
                lemma_zero_absent();
            }
            let ghost e4 = g0[root as int][i4 as int];
            proof {
                if entry_present(e4) {
                    assert(!entry_huge(e4));
                }
            }
            let c3 = match arena.get_or_alloc_next_level_table(root, i4, Ghost(4)) {
                Ok(c) => c,
                Err(_) => {
                    proof {
                        assert(false);
                    }
                    return Err(MapError::TableAlreadyAllocated);
                },
            };
            let ghost g1 = arena@;
            let ghost l1 = arena.levels();
            proof {
                assert(l1[root as int] == 4 && l1[c3 as int] == 3);
                assert(root as int != c3 as int);
                assert(g1.len() == g0.len() + (if entry_present(e4) {
                    0int
                } else {
                    1int
                }));
            }
            let attr_v = PageTableAttr::ReadWriteKernel1GiB.bits();
            proof {
                lemma_attr_bits_in_range(PageTableAttr::ReadWriteKernel1GiB);
            }
            let mut i: u64 = 0;
            while i < gigs
                invariant
                    i <= gigs,
                    arena@.len() == g1.len(),
                    arena.levels() == l1,
                    table_wf(self.spec_root(), arena@, arena.levels()),
                    arena@[root as int][i4 as int] == g1[root as int][i4 as int],
                    entry_is_link(arena@, l1, root as int, i4 as int),
                    entry_child(arena@[root as int][i4 as int]) == c3 as int,
                    forall|j: int|
                        i <= j < gigs ==> #[trigger] arena@[c3 as int][i3 + j] == g1[c3 as int][i3
                            + j],
                    forall|j: int|
                        0 <= j < i ==> !(entry_present(#[trigger] g1[c3 as int][i3 + j])
                            && !entry_huge(g1[c3 as int][i3 + j])),
                    forall|va2: u64|
                        #[trigger] translate(arena@, self.spec_root(), va2) == (if vq0 <= vquad(
                            va2,
                        ) < vq0 + i * 0x40000 {
                            Some((phys0 + (vquad(va2) - vq0) * 4096, attr_bits(PageTableAttr::ReadWriteKernel1GiB)))
                        } else {
                            translate(g0, self.spec_root(), va2)
                        }),
                    forall|va2: u64|
                        #[trigger] path_conflict(arena@, self.spec_root(), va2) ==> path_conflict(
                            g0,
                            self.spec_root(),
                            va2,
                        ) || (vq0 <= vquad(va2) < vq0 + i * 0x40000),
                decreases gigs - i,
            {
                let ghost ga = arena@;
                let idx = i3 + (i as usize);
                let e = arena.cell(c3, idx);
                proof {
                    assert(e == g1[c3 as int][i3 + i]);
                }
                if e & 1 != 0 && e & 0x80 == 0 {
                    proof {
                        if !entry_present(e4) {
                            assert(g1[c3 as int][i3 + i] == 0);
                            assert(false);
                        }
                        assert(g1 == g0);
                        assert(entry_child(e4) == c3 as int);
                        assert(!huge_range_conflict_free(g0, self.spec_root(), virt0, gigs as int));
                    }
                    return Err(MapError::TableAlreadyAllocated);
                }
                let pa = phys_start.to_u64() + i * 0x4000_0000;
                let v = pa | attr_v;
                proof {
                    vstd::arithmetic::div_mod::lemma_mod_multiples_vanish(
                        i as int * 0x10_0000,
                        phys0 as int,
                        4096,
                    );
                    assert(pa % 4096 == 0);
                    assert(pa < 0x8000_0000_0000_0000);
                    lemma_aligned_mask(pa);
                    lemma_entry_pack(pa, attr_bits(PageTableAttr::ReadWriteKernel1GiB));
                    assert(entry_present(v) && entry_huge(v));
                    assert(entry_paddr(v) == pa && entry_attrs(v) == attr_bits(PageTableAttr::ReadWriteKernel1GiB));
                }
                arena.set_cell(c3, idx, v);
                proof {
                    let gb = arena@;
                    assert(gb == cell_update(ga, c3 as int, i3 + i, v));
                    lemma_cell_write_wf(ga, l1, c3 as int, i3 + i, v);
                    assert forall|va2: u64|
                        #[trigger] translate(gb, self.spec_root(), va2) == (if vq0 <= vquad(va2)
                            < vq0 + (i + 1) * 0x40000 {
                            Some((phys0 + (vquad(va2) - vq0) * 4096, attr_bits(PageTableAttr::ReadWriteKernel1GiB)))
                        } else {
                            translate(g0, self.spec_root(), va2)
                        }) by {
                        lemma_vquad_bounds(va2);
                        lemma_pdpt_frame(
                            ga,
                            l1,
                            gb,
                            c3 as int,
                            i3 + i,
                            v,
                            root as int,
                            va2,
                            4,
                        );
                        lemma_visits_pdpt(ga, l1, root as int, c3 as int, i4 as int, va2);
                        lemma_digit_range(
                            level_index(va2, 4),
                            level_index(va2, 3),
                            level_index(va2, 2),
                            level_index(va2, 1),
                            i4 as int,
                            i3 as int + i,
                            1,
                        );
                        lemma_digit_range(
                            level_index(va2, 4),
                            level_index(va2, 3),
                            level_index(va2, 2),
                            level_index(va2, 1),
                            i4 as int,
                            i3 as int,
                            i as int,
                        );
                        lemma_digit_range(
                            level_index(va2, 4),
                            level_index(va2, 3),
                            level_index(va2, 2),
                            level_index(va2, 1),
                            i4 as int,
                            i3 as int,
                            i as int + 1,
                        );
                        assert(vq0 == ((i4 as int * 512 + i3 as int) * 512) * 512);
                        if visits(ga, root as int, va2, 4, c3 as int) && level_index(va2, 3)
                            == i3 + i {
                            assert(level_index(va2, 4) == i4 as int);
                            assert(vq0 + i * 0x40000 <= vquad(va2) < vq0 + (i + 1) * 0x40000);
                            assert(translate(gb, self.spec_root(), va2) == Some(
                                (
                                    entry_paddr(v) + (level_index(va2, 2) * 512 + level_index(
                                        va2,
                                        1,
                                    )) * 4096,
                                    entry_attrs(v),
                                ),
                            ));
                            assert(vquad(va2) - vq0 == i * 0x40000 + (level_index(va2, 2) * 512
                                + level_index(va2, 1)));
                            assert(entry_paddr(v) + (level_index(va2, 2) * 512 + level_index(
                                va2,
                                1,
                            )) * 4096 == phys0 + (vquad(va2) - vq0) * 4096);
                        } else {
                            assert(translate(gb, self.spec_root(), va2) == translate(
                                ga,
                                self.spec_root(),
                                va2,
                            ));
                            assert(!(vq0 + i * 0x40000 <= vquad(va2) < vq0 + (i + 1) * 0x40000));
                        }
                    }
                    assert forall|va2: u64|
                        #[trigger] path_conflict(gb, self.spec_root(), va2) implies path_conflict(
                        g0,
                        self.spec_root(),
                        va2,
                    ) || (vq0 <= vquad(va2) < vq0 + (i + 1) * 0x40000) by {
                        lemma_vquad_bounds(va2);
                        lemma_pdpt_conflict_frame(
                            ga,
                            l1,
                            gb,
                            c3 as int,
                            i3 + i,
                            v,
                            root as int,
                            va2,
                        );
                        if !path_conflict(ga, self.spec_root(), va2) {
                            assert(entry_child(ga[root as int][level_index(va2, 4)]) == c3 as int
                                && level_index(va2, 3) == i3 + i);
                            assert(entry_is_link(ga, l1, root as int, level_index(va2, 4)));
                            assert(level_index(va2, 4) == i4 as int);
                            lemma_digit_range(
                                level_index(va2, 4),
                                level_index(va2, 3),
                                level_index(va2, 2),
                                level_index(va2, 1),
                                i4 as int,
                                i3 as int + i,
                                1,
                            );
                            assert(vq0 == ((i4 as int * 512 + i3 as int) * 512) * 512);
                            assert(vq0 <= vquad(va2) < vq0 + (i + 1) * 0x40000);
                        }
                    }
                }
                i = i + 1;
            }
            proof {
                if entry_present(e4) {
                    assert(g1 == g0);
                    assert(entry_child(e4) == c3 as int);
                    assert(huge_range_conflict_free(g0, self.spec_root(), virt0, gigs as int));
                }
            }
            return Ok(());
    }

    /// Map a byte range, rounded up to whole pages.
    pub fn create_mapping(
        &self,
        arena: &mut PageTableArena,
        virt_start: VirtAddr,
        phys_start: PhysAddr,
        size: MSize,
        attr: PageTableAttr,
    ) -> (r: Result<(), MapError>)
        requires
            table_wf(self.spec_root(), old(arena)@, old(arena).levels()),
            attr != PageTableAttr::NotPresent,
            phys_start.addr() + pages_of(size@) * 4096 <= 0x8000_0000_0000_0000,
            virt_start.addr() + pages_of(size@) * 4096 <= u64::MAX,
            (virt_start.addr() as int % 0x1_0000_0000_0000) + pages_of(size@) * 4096
                <= 0x1_0000_0000_0000,
            old(arena)@.len() + 3 * pages_of(size@) + 1 <= MAX_ARENA_NODES,
            attr == PageTableAttr::ReadWriteKernel1GiB && huge_mode(
                virt_start.addr(),
                phys_start.addr(),
                (pages_of(size@)) as u64,
            ) ==> level_index(virt_start.addr(), 3) + pages_of(size@) / 0x40000 <= 512,
        ensures
            table_wf(self.spec_root(), final(arena)@, final(arena).levels()),
            forall|m: int|
                0 <= m < old(arena)@.len() ==> final(arena).levels()[m] == old(
                    arena,
                ).levels()[m],
            old(arena)@.len() <= final(arena)@.len(),
            (r == Err::<(), MapError>(MapError::UnalignedVirtualAddress)) <==> virt_start.addr()
                % 4096 != 0,
            (r == Err::<(), MapError>(MapError::UnalignedPhysicalAddress)) <==> (virt_start.addr()
                % 4096 == 0 && phys_start.addr() % 4096 != 0),
            (virt_start.addr() % 4096 == 0 && phys_start.addr() % 4096 == 0 && attr
                == PageTableAttr::ReadWriteKernel1GiB && huge_mode(
                virt_start.addr(),
                phys_start.addr(),
                (pages_of(size@)) as u64,
            )) ==> (r is Ok <==> huge_range_conflict_free(
                old(arena)@,
                self.spec_root(),
                virt_start.addr(),
                pages_of(size@) / 0x40000,
            )),
            (virt_start.addr() % 4096 == 0 && phys_start.addr() % 4096 == 0 && !(attr
                == PageTableAttr::ReadWriteKernel1GiB && huge_mode(
                virt_start.addr(),
                phys_start.addr(),
                (pages_of(size@)) as u64,
            ))) ==> (r is Ok <==> (forall|k: int|
                0 <= k < pages_of(size@) ==> !(#[trigger] path_conflict(
                    old(arena)@,
                    self.spec_root(),
                    (virt_start.addr() + 4096 * k) as u64,
                )))),
            r is Ok ==> forall|va2: u64|
                #[trigger] translate(final(arena)@, self.spec_root(), va2) == (if vquad(
                    virt_start.addr(),
                ) <= vquad(va2) < vquad(virt_start.addr()) + pages_of(size@) {
                    Some(
                        (
                            phys_start.addr() + (vquad(va2) - vquad(virt_start.addr())) * 4096,
                            attr_bits(attr),
                        ),
                    )
                } else {
                    translate(old(arena)@, self.spec_root(), va2)
                }),
            r is Err ==> forall|va2: u64|
                #[trigger] translate(final(arena)@, self.spec_root(), va2) == translate(
                    old(arena)@,
                    self.spec_root(),
                    va2,
                ) || (vquad(virt_start.addr()) <= vquad(va2) < vquad(virt_start.addr())
                    + pages_of(size@) && translate(final(arena)@, self.spec_root(), va2) == Some(
                    (
                        phys_start.addr() + (vquad(va2) - vquad(virt_start.addr())) * 4096,
                        attr_bits(attr),
                    ),
                )),
    {
        let num_pages = pages_of_exec(size.to_u64());
        self.map(arena, virt_start, phys_start, num_pages, attr)
    }
}

/// How many whole pages cover `size` bytes.
pub open spec fn pages_of(size: u64) -> int {
    (size as int + 4095) / 4096
}

/// Exact page count of a byte size.
fn pages_of_exec(size: u64) -> (r: u64)
    ensures
        r as int == pages_of(size),
{
    proof {
        lemma_round_up(size as int, 4096);
        vstd::arithmetic::div_mod::lemma_fundamental_div_mod(size as int, 4096);
        vstd::arithmetic::div_mod::lemma_mod_bound(size as int, 4096);
        if size as int % 4096 == 0 {
            assert(size as int == 4096 * (size as int / 4096) + 0);
            vstd::arithmetic::div_mod::lemma_fundamental_div_mod_converse_div(
                size as int + 4095,
                4096,
                size as int / 4096,
                4095,
            );
        } else {
            vstd::arithmetic::div_mod::lemma_fundamental_div_mod_converse_div(
                size as int + 4095,
                4096,
                size as int / 4096 + 1,
                size as int % 4096 - 1,
            );
        }
    }
    size / 4096 + if size % 4096 != 0 {
        1
    } else {
        0
    }
}

/// `va2` falls in the `pages`-page range whose first page holds `base`.
pub open spec fn in_page_range(va2: u64, base: u64, pages: int) -> bool {
    vquad(base) <= vquad(va2) < vquad(base) + pages
}

/// Addresses at or above the kernel image window have page numbers above
/// everything the linear mapping covers.
proof fn lemma_kernel_window_vquad(va: u64)
    requires
        0xFFFF_FFFF_8000_0000 <= va,
    ensures
        vquad(va) >= 0xF_FFF8_0000,
{
    let p48 = 0x1_0000_0000_0000;
    lemma_vquad_value(va);
    let m = va as int - 0xFFFF * p48;
    assert(0xFFFF_8000_0000 <= m < p48);
    vstd::arithmetic::div_mod::lemma_fundamental_div_mod_converse_mod(va as int, p48, 0xFFFF, m);
    assert(va as int % p48 == m);
    vstd::arithmetic::div_mod::lemma_div_is_ordered(0xFFFF_8000_0000, m, 4096);
    assert(0xFFFF_8000_0000int / 4096 == 0xF_FFF8_0000);
}

/// Build the kernel's own page table on a fresh arena: the 512 GiB linear
/// mapping of physical memory as 1 GiB pages, the kernel image sections
/// with their proper protections, and the interrupt-controller register
/// window.  Activating the table (loading it into the paging root) is a
/// privileged side effect the surrounding runtime performs.
#[verifier::loop_isolation(false)]
#[verifier::rlimit(100)]
pub fn init_paging(
    arena: &mut PageTableArena,
    text_start: VirtAddr,
    text_end: VirtAddr,
    rodata_start: VirtAddr,
    rodata_end: VirtAddr,
    data_start: VirtAddr,
    bss_end: VirtAddr,
) -> (r: PageTable)
    requires
        old(arena).wf(),
        old(arena)@.len() == 0,
        text_start.addr() % 4096 == 0,
        rodata_start.addr() % 4096 == 0,
        data_start.addr() % 4096 == 0,
        KERNEL_CODE_BASE_VADDR <= text_start.addr() <= text_end.addr(),
        KERNEL_CODE_BASE_VADDR <= rodata_start.addr() <= rodata_end.addr(),
        KERNEL_CODE_BASE_VADDR <= data_start.addr() <= bss_end.addr(),
        text_end.addr() as int + 4096 <= KERNEL_CODE_BASE_VADDR as int + 0x8000_0000,
        rodata_end.addr() as int + 4096 <= KERNEL_CODE_BASE_VADDR as int + 0x8000_0000,
        bss_end.addr() as int + 4096 <= KERNEL_CODE_BASE_VADDR as int + 0x8000_0000,
    ensures
        table_wf(r.spec_root(), final(arena)@, final(arena).levels()),
        forall|va2: u64|
            #[trigger] translate(final(arena)@, r.spec_root(), va2) == (if in_page_range(
                va2,
                APIC_IO_START_ADDR,
                1,
            ) {
                Some((APIC_IO_START_ADDR as int, attr_bits(PageTableAttr::ReadWriteKernelIO)))
            } else if in_page_range(
                va2,
                data_start.addr(),
                pages_of((bss_end.addr() - data_start.addr()) as u64),
            ) {
                Some(
                    (
                        data_start.addr() - KERNEL_CODE_BASE_VADDR + (vquad(va2) - vquad(
                            data_start.addr(),
                        )) * 4096,
                        attr_bits(PageTableAttr::ReadWriteKernel),
                    ),
                )
            } else if in_page_range(
                va2,
                rodata_start.addr(),
                pages_of((rodata_end.addr() - rodata_start.addr()) as u64),
            ) {
                Some(
                    (
                        rodata_start.addr() - KERNEL_CODE_BASE_VADDR + (vquad(va2) - vquad(
                            rodata_start.addr(),
                        )) * 4096,
                        attr_bits(PageTableAttr::ReadKernel),
                    ),
                )
            } else if in_page_range(
                va2,
                text_start.addr(),
                pages_of((text_end.addr() - text_start.addr()) as u64),
            ) {
                Some(
                    (
                        text_start.addr() - KERNEL_CODE_BASE_VADDR + (vquad(va2) - vquad(
                            text_start.addr(),
                        )) * 4096,
                        attr_bits(PageTableAttr::ReadExecuteKernel),
                    ),
                )
            } else if in_page_range(va2, LINER_MAPPING_BASE_VADDR, 0x80_0000) {
                Some(
                    (
                        (vquad(va2) - vquad(LINER_MAPPING_BASE_VADDR)) * 4096,
                        attr_bits(PageTableAttr::ReadWriteKernel1GiB),
                    ),
                )
            } else {
                None
            }),
{
    let ghost g0 = arena@;
    let table = PageTable::new(arena);
    let ghost root = table.spec_root();
    proof {
        lemma_zero_absent();
        assert forall|va2: u64| !(#[trigger] path_conflict(arena@, root, va2)) by {
            lemma_vquad_bounds(va2);
            assert(arena@[root][level_index(va2, 4)] == 0);
        }
        lemma_vquad_value(LINER_MAPPING_BASE_VADDR);
        assert(vquad(LINER_MAPPING_BASE_VADDR) == 0x8_8800_0000);
        crate::memlayout::lemma_index_extract(LINER_MAPPING_BASE_VADDR);
        assert((0xFFFF_8880_0000_0000u64 >> 30) & 0x1FF == 0) by (bit_vector);
        assert(level_index(LINER_MAPPING_BASE_VADDR, 3) == 0);
    }
    let ghost a1 = arena@;
    // 512 GiB linear mapping of all physical memory, as 1 GiB pages.
    let res = table.map(
        arena,
        VirtAddr::new(LINER_MAPPING_BASE_VADDR),
        PhysAddr::new(0),
        0x80_0000,
        PageTableAttr::ReadWriteKernel1GiB,
    );
    proof {
        assert(huge_range_conflict_free(a1, root, LINER_MAPPING_BASE_VADDR, 512)) by {
            assert(a1[root][level_index(LINER_MAPPING_BASE_VADDR, 4)] == 0);
        }
        assert(res is Ok);
    }
    let ghost a2 = arena@;
    proof {
        assert forall|va2: u64|
            #[trigger] path_conflict(a2, root, va2) implies in_page_range(
            va2,
            LINER_MAPPING_BASE_VADDR,
            0x80_0000,
        ) by {}
    }

    // Kernel image sections, at their link-time physical addresses.
    map_section(&table, arena, text_start, text_end, PageTableAttr::ReadExecuteKernel);
    let ghost a3 = arena@;
    proof {
        assert forall|va2: u64|
            #[trigger] path_conflict(a3, root, va2) implies in_page_range(
            va2,
            LINER_MAPPING_BASE_VADDR,
            0x80_0000,
        ) by {}
    }
    map_section(&table, arena, rodata_start, rodata_end, PageTableAttr::ReadKernel);
    let ghost a4 = arena@;
    proof {
        assert forall|va2: u64|
            #[trigger] path_conflict(a4, root, va2) implies in_page_range(
            va2,
            LINER_MAPPING_BASE_VADDR,
            0x80_0000,
        ) by {}
    }
    map_section(&table, arena, data_start, bss_end, PageTableAttr::ReadWriteKernel);
    let ghost a5 = arena@;

    // The interrupt-controller register window, uncached.
    proof {
        assert forall|va2: u64|
            #[trigger] path_conflict(a5, root, va2) implies in_page_range(
            va2,
            LINER_MAPPING_BASE_VADDR,
            0x80_0000,
        ) by {}
        lemma_vquad_value(APIC_IO_START_ADDR);
        assert(vquad(APIC_IO_START_ADDR) == 0xF_EE00);
        assert forall|k: int|
            0 <= k < 1 implies !(#[trigger] path_conflict(
            a5,
            root,
            (APIC_IO_START_ADDR + 4096 * k) as u64,
        )) by {
            if path_conflict(a5, root, APIC_IO_START_ADDR as u64) {
                lemma_vquad_value(APIC_IO_START_ADDR);
                assert(false);
            }
        }
    }
    let res = table.map(
        arena,
        VirtAddr::new(APIC_IO_START_ADDR),
        PhysAddr::new(APIC_IO_START_ADDR),
        1,
        PageTableAttr::ReadWriteKernelIO,
    );
    proof {
        assert(res is Ok);
    }
    table
}


/// Map one kernel image section (4 KiB pages) during boot-table
/// construction: with all existing conflicts confined to the linear
/// mapping and the section inside the kernel window, the mapping always
/// succeeds.
#[verifier::rlimit(100)]
fn map_section(
    table: &PageTable,
    arena: &mut PageTableArena,
    start: VirtAddr,
    end: VirtAddr,
    attr: PageTableAttr,
)
    requires
        table_wf(table.spec_root(), old(arena)@, old(arena).levels()),
        attr != PageTableAttr::NotPresent,
        attr != PageTableAttr::ReadWriteKernel1GiB,
        start.addr() % 4096 == 0,
        KERNEL_CODE_BASE_VADDR <= start.addr() <= end.addr(),
        end.addr() as int + 4096 <= KERNEL_CODE_BASE_VADDR as int + 0x8000_0000,
        old(arena)@.len() + 3 * pages_of((end.addr() - start.addr()) as u64) + 1
            <= MAX_ARENA_NODES,
        forall|va2: u64|
            #[trigger] path_conflict(old(arena)@, table.spec_root(), va2) ==> in_page_range(
                va2,
                LINER_MAPPING_BASE_VADDR,
                0x80_0000,
            ),
    ensures
        table_wf(table.spec_root(), final(arena)@, final(arena).levels()),
        final(arena)@.len() <= old(arena)@.len() + 3 * pages_of((end.addr() - start.addr()) as u64),
        forall|va2: u64|
            #[trigger] translate(final(arena)@, table.spec_root(), va2) == (if in_page_range(
                va2,
                start.addr(),
                pages_of((end.addr() - start.addr()) as u64),
            ) {
                Some(
                    (
                        start.addr() - KERNEL_CODE_BASE_VADDR + (vquad(va2) - vquad(start.addr()))
                            * 4096,
                        attr_bits(attr),
                    ),
                )
            } else {
                translate(old(arena)@, table.spec_root(), va2)
            }),
        forall|va2: u64|
            #[trigger] path_conflict(final(arena)@, table.spec_root(), va2) == path_conflict(
                old(arena)@,
                table.spec_root(),
                va2,
            ),
{
    let ghost p48 = 0x1_0000_0000_0000int;
    let size = MSize::from_address(start, end);
    let ghost pages = pages_of(size@);
    let num_pages = pages_of_exec(size.to_u64());
    proof {
        lemma_section_ok(arena@, table.spec_root(), start.addr(), pages);
        lemma_round_up(size@ as int, 4096);
        assert(pages * 4096 == round_up(size@ as int, 4096)) by {
            vstd::arithmetic::div_mod::lemma_fundamental_div_mod(size@ as int + 4095, 4096);
        }
        vstd::arithmetic::div_mod::lemma_sub_mod_noop(
            start.addr() as int,
            KERNEL_CODE_BASE_VADDR as int,
            4096,
        );
        assert((start.addr() as int - KERNEL_CODE_BASE_VADDR as int) % 4096 == 0);
        // The whole rounded range stays inside the kernel window, which
        // itself ends exactly at the top of the address space.
        assert(start.addr() as int + pages * 4096 < KERNEL_CODE_BASE_VADDR as int + 0x8000_0000);
        // No wrap of the 256 TiB translation window either.
        let m = start.addr() as int - 0xFFFF * p48;
        assert(0xFFFF_8000_0000 <= m < p48);
        vstd::arithmetic::div_mod::lemma_fundamental_div_mod_converse_mod(
            start.addr() as int,
            p48,
            0xFFFF,
            m,
        );
        assert(start.addr() as int % p48 == m);
        assert(m + pages * 4096 <= p48);
    }
    let phys = virt_to_phys(start);
    proof {
        assert(phys.addr() == start.addr() - KERNEL_CODE_BASE_VADDR);
        assert(phys.addr() % 4096 == 0);
    }
    let res = table.map(arena, start, phys, num_pages, attr);
    proof {
        assert(res is Ok);
    }
}

/// A kernel-window section range never meets the linear mapping, so its
/// pages are free of conflicts in an arena whose only conflicts lie there.
proof fn lemma_section_ok(a: Seq<Seq<u64>>, root: int, start: u64, pages: int)
    requires
        KERNEL_CODE_BASE_VADDR <= start,
        start % 4096 == 0,
        start as int + pages * 4096 <= KERNEL_CODE_BASE_VADDR as int + 0x8000_0000,
        0 <= pages,
        forall|va2: u64|
            #[trigger] path_conflict(a, root, va2) ==> in_page_range(
                va2,
                LINER_MAPPING_BASE_VADDR,
                0x80_0000,
            ),
    ensures
        forall|k: int|
            0 <= k < pages ==> !(#[trigger] path_conflict(a, root, (start + 4096 * k) as u64)),
{
    lemma_vquad_value(LINER_MAPPING_BASE_VADDR);
    assert forall|k: int|
        0 <= k < pages implies !(#[trigger] path_conflict(a, root, (start + 4096 * k) as u64)) by {
        let va = (start as int + 4096 * k) as u64;
        assert(start as int + 4096 * k <= u64::MAX);
        if path_conflict(a, root, va) {
            lemma_kernel_window_vquad(va);
            assert(vquad(va) < 0x8_8800_0000 + 0x80_0000);
            assert(false);
        }
    }
}

} // verus!
