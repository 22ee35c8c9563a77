//! The kernel-side memory-region table: a fixed-capacity array of
//! physical ranges classified usable or reserved, handed over by the
//! loader for future physical-frame-allocator bootstrapping.

use vstd::prelude::*;

verus! {

/// Capacity of the region table.
pub const MAX_MEMORY_REGION_LEN: usize = 128;

#[derive(Debug, Clone, Copy, PartialEq, Eq, Structural)]
pub enum MemoryRegionType {
    Reserved,
    Usable,
}

/// One physical range: base address, byte length and kind.
#[derive(Debug, Clone, Copy, PartialEq, Eq, Structural)]
pub struct MemoryRegion {
    base: u64,
    len: u64,
    typ: MemoryRegionType,
}

impl MemoryRegion {
    pub closed spec fn spec_base(&self) -> u64 {
        self.base
    }

    pub closed spec fn spec_len(&self) -> u64 {
        self.len
    }

    pub closed spec fn spec_typ(&self) -> MemoryRegionType {
        self.typ
    }

    pub fn new(base: u64, len: u64, typ: MemoryRegionType) -> (r: Self)
        ensures
            r.spec_base() == base,
            r.spec_len() == len,
            r.spec_typ() == typ,
    {
        MemoryRegion { base, len, typ }
    }

    pub fn zeroed() -> (r: Self)
        ensures
            r.spec_base() == 0,
            r.spec_len() == 0,
            r.spec_typ() == MemoryRegionType::Reserved,
    {
        MemoryRegion { base: 0, len: 0, typ: MemoryRegionType::Reserved }
    }

    pub fn base(&self) -> (r: u64)
        ensures
            r == self.spec_base(),
    {
        self.base
    }

    pub fn len(&self) -> (r: u64)
        ensures
            r == self.spec_len(),
    {
        self.len
    }

    pub fn typ(&self) -> (r: MemoryRegionType)
        ensures
            r == self.spec_typ(),
    {
        self.typ
    }
}

/// The fixed-capacity table of regions, filled front to back.
pub struct MemoryRegionArray {
    regions: Vec<MemoryRegion>,
    count: usize,
}

impl MemoryRegionArray {
    /// The regions pushed so far, in order.
    pub closed spec fn view_regions(&self) -> Seq<MemoryRegion> {
        self.regions@.take(self.count as int)
    }

    #[verifier::opaque]
    pub closed spec fn wf(&self) -> bool {
        self.regions@.len() == MAX_MEMORY_REGION_LEN && self.count <= MAX_MEMORY_REGION_LEN
    }

    /// An empty table.
    pub fn new() -> (r: Self)
        ensures
            r.wf(),
            r.view_regions().len() == 0,
    {
        proof {
            reveal(MemoryRegionArray::wf);
        }
        let mut regions: Vec<MemoryRegion> = Vec::new();
        let mut k: usize = 0;
        while k < MAX_MEMORY_REGION_LEN
            invariant
                k == regions@.len(),
                k <= MAX_MEMORY_REGION_LEN,
            decreases MAX_MEMORY_REGION_LEN - k,
        {
            regions.push(MemoryRegion::zeroed());
            k = k + 1;
        }
        MemoryRegionArray { regions, count: 0 }
    }

    pub fn count(&self) -> (r: usize)
        requires
            self.wf(),
        ensures
            r as int == self.view_regions().len(),
    {
        proof {
            reveal(MemoryRegionArray::wf);
        }
        self.count
    }

    /// The region at position `i`.
    pub fn get(&self, i: usize) -> (r: MemoryRegion)
        requires
            self.wf(),
            (i as int) < self.view_regions().len(),
        ensures
            r == self.view_regions()[i as int],
    {
        proof {
            reveal(MemoryRegionArray::wf);
        }
        self.regions[i]
    }

    /// Append a region.  The table's capacity is fixed; filling it past
    /// the end is outside this function's contract: a programming error.
    pub fn push(&mut self, region: MemoryRegion)
        requires
            old(self).wf(),
            old(self).view_regions().len() < MAX_MEMORY_REGION_LEN,
        ensures
            final(self).wf(),
            final(self).view_regions() == old(self).view_regions().push(region),
    {
        proof {
            reveal(MemoryRegionArray::wf);
        }
        let slot = &mut self.regions[self.count];
        *slot = region;
        self.count = self.count + 1;
        proof {
            assert(self.view_regions() =~= old(self).view_regions().push(region));
        }
    }
}

} // verus!
