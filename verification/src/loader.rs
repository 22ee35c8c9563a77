//! Boot-loader logic: sizing and load-planning for the kernel image's
//! loadable segments, and collection of the firmware memory map into the
//! fixed-capacity region table.  Reading the image from disk, allocating
//! physical pages, performing the copies and calling firmware services
//! are the surrounding loader binary's part; this module does the
//! computing in between.

use crate::memory::{MemoryRegion, MemoryRegionArray, MemoryRegionType, MAX_MEMORY_REGION_LEN};
use vstd::prelude::*;

verus! {

/// Page size the loader allocates in.
pub const PAGE_SIZE: u64 = 4096;

/// Segment type of a loadable segment (fixed by the object-file format).
pub const PT_LOAD: u32 = 1;

/// Firmware memory types the kernel may reclaim: boot-services code and
/// conventional memory (boot-services data is excluded because it holds
/// the page tables in use during handoff).
pub const BOOT_SERVICES_CODE: u32 = 3;

pub const CONVENTIONAL_MEMORY: u32 = 7;

/// One program header of the kernel image, as plain values.
#[derive(Debug, Clone, Copy, PartialEq, Eq, Structural)]
pub struct LoadSegment {
    pub p_type: u32,
    pub p_offset: u64,
    pub p_vaddr: u64,
    pub p_paddr: u64,
    pub p_filesz: u64,
    pub p_memsz: u64,
}

impl LoadSegment {
    pub open spec fn as_tuple(&self) -> (u32, u64, u64, u64, u64, u64) {
        (self.p_type, self.p_offset, self.p_vaddr, self.p_paddr, self.p_filesz, self.p_memsz)
    }
}

/// Whether the given bytes parse as an object file with a segment table.
pub uninterp spec fn elf_parse_ok(bytes: Seq<u8>) -> bool;

/// The entry-point address recorded in the file header.
pub uninterp spec fn elf_entry_point(bytes: Seq<u8>) -> u64;

/// The program headers of the file, in table order, as
/// (type, offset, vaddr, paddr, filesz, memsz) tuples.
pub uninterp spec fn elf_segments(bytes: Seq<u8>) -> Seq<(u32, u64, u64, u64, u64, u64)>;

/// Relies on elf::ElfBytes::minimal_parse and its segment table: parsing
/// is a pure function of the bytes; the result carries the header's entry
/// point and every program header's fields, one record per header in
/// table order.
#[verifier::external_body]
fn parse_kernel_elf(bytes: &Vec<u8>) -> (r: Option<(u64, Vec<LoadSegment>)>)
    ensures
        r is Some <==> elf_parse_ok(bytes@),
        r is Some ==> (r->Some_0).0 == elf_entry_point(bytes@),
        r is Some ==> ((r->Some_0).1)@.map_values(|s: LoadSegment| s.as_tuple()) == elf_segments(
            bytes@,
        ),
{
    let parsed = match elf::ElfBytes::<elf::endian::AnyEndian>::minimal_parse(bytes.as_slice()) {
        Ok(e) => e, Err(_) => return None,
    };
    let table = match parsed.segments() { Some(t) => t, None => return None };
    let mut v: Vec<LoadSegment> = Vec::new();
    for ph in table {
        v.push(LoadSegment { p_type: ph.p_type, p_offset: ph.p_offset, p_vaddr: ph.p_vaddr,
            p_paddr: ph.p_paddr, p_filesz: ph.p_filesz, p_memsz: ph.p_memsz });
    }
    Some((parsed.ehdr.e_entry, v))
}

/// Lowest load virtual address over the loadable segments of a prefix
/// (the all-ones word when none).
pub open spec fn kernel_start_virt(segs: Seq<LoadSegment>) -> int
    decreases segs.len(),
{
    if segs.len() == 0 {
        u64::MAX as int
    } else {
        let prev = kernel_start_virt(segs.drop_last());
        let s = segs.last();
        if s.p_type == PT_LOAD && s.p_vaddr < prev {
            s.p_vaddr as int
        } else {
            prev
        }
    }
}

/// Lowest load physical address over the loadable segments of a prefix.
pub open spec fn kernel_start_phys(segs: Seq<LoadSegment>) -> int
    decreases segs.len(),
{
    if segs.len() == 0 {
        u64::MAX as int
    } else {
        let prev = kernel_start_phys(segs.drop_last());
        let s = segs.last();
        if s.p_type == PT_LOAD && s.p_paddr < prev {
            s.p_paddr as int
        } else {
            prev
        }
    }
}

/// Highest end virtual address over the loadable segments of a prefix.
pub open spec fn kernel_end_virt(segs: Seq<LoadSegment>) -> int
    decreases segs.len(),
{
    if segs.len() == 0 {
        0
    } else {
        let prev = kernel_end_virt(segs.drop_last());
        let s = segs.last();
        if s.p_type == PT_LOAD && s.p_vaddr + s.p_memsz > prev {
            s.p_vaddr + s.p_memsz
        } else {
            prev
        }
    }
}

/// The image extent the loader must reserve: lowest load virtual address,
/// lowest load physical address, and highest end virtual address of the
/// loadable segments.
pub fn get_kernel_size(segs: &Vec<LoadSegment>) -> (r: (u64, u64, u64))
    requires
        forall|i: int|
            0 <= i < segs@.len() ==> (#[trigger] segs@[i]).p_vaddr + segs@[i].p_memsz
                <= u64::MAX,
    ensures
        r.0 as int == kernel_start_virt(segs@),
        r.1 as int == kernel_start_phys(segs@),
        r.2 as int == kernel_end_virt(segs@),
{
    let mut start_virt: u64 = u64::MAX;
    let mut start_phys: u64 = u64::MAX;
    let mut end_virt: u64 = 0;
    let mut i: usize = 0;
    while i < segs.len()
        invariant
            i <= segs@.len(),
            forall|j: int|
                0 <= j < segs@.len() ==> (#[trigger] segs@[j]).p_vaddr + segs@[j].p_memsz
                    <= u64::MAX,
            start_virt as int == kernel_start_virt(segs@.take(i as int)),
            start_phys as int == kernel_start_phys(segs@.take(i as int)),
            end_virt as int == kernel_end_virt(segs@.take(i as int)),
        decreases segs@.len() - i,
    {
        let s = segs[i];
        proof {
            assert(segs@.take(i as int + 1).drop_last() =~= segs@.take(i as int));
            assert(segs@.take(i as int + 1).last() == segs@[i as int]);
        }
        if s.p_type == PT_LOAD {
            if s.p_vaddr < start_virt {
                start_virt = s.p_vaddr;
            }
            if s.p_paddr < start_phys {
                start_phys = s.p_paddr;
            }
            if s.p_vaddr + s.p_memsz > end_virt {
                end_virt = s.p_vaddr + s.p_memsz;
            }
        }
        i = i + 1;
    }
    proof {
        assert(segs@.take(segs@.len() as int) =~= segs@);
    }
    (start_virt, start_phys, end_virt)
}

/// One copy the loader must perform: `copy_len` bytes from `src_offset`
/// in the image to physical `dst`, then `zero_len` zero bytes after them
/// (the uninitialized tail of the segment).
#[derive(Debug, Clone, Copy, PartialEq, Eq, Structural)]
pub struct CopyCommand {
    pub src_offset: u64,
    pub dst: u64,
    pub copy_len: u64,
    pub zero_len: u64,
}

/// Whether every loadable segment is well-formed: the in-file part never
/// exceeds the in-memory size.
pub open spec fn segments_wf(segs: Seq<LoadSegment>) -> bool {
    forall|i: int|
        0 <= i < segs.len() && (#[trigger] segs[i]).p_type == PT_LOAD ==> segs[i].p_filesz
            <= segs[i].p_memsz
}

/// The copies for the loadable segments of a prefix, in table order.
pub open spec fn copy_commands(segs: Seq<LoadSegment>) -> Seq<CopyCommand>
    decreases segs.len(),
{
    if segs.len() == 0 {
        Seq::empty()
    } else {
        let prev = copy_commands(segs.drop_last());
        let s = segs.last();
        if s.p_type == PT_LOAD {
            prev.push(
                CopyCommand {
                    src_offset: s.p_offset,
                    dst: s.p_paddr,
                    copy_len: s.p_filesz,
                    zero_len: (s.p_memsz - s.p_filesz) as u64,
                },
            )
        } else {
            prev
        }
    }
}

/// Plan the in-memory load of the kernel image: parse it and turn each
/// loadable segment into a copy command.  Returns the entry point and the
/// commands, or nothing when the bytes do not parse or a segment's file
/// part exceeds its memory size.
#[verifier::loop_isolation(false)]
pub fn load_plan(bytes: &Vec<u8>) -> (r: Option<(u64, Vec<CopyCommand>)>)
    ensures
        r is Some <==> (elf_parse_ok(bytes@) && segments_wf(
            elf_segments(bytes@).map_values(|t: (u32, u64, u64, u64, u64, u64)| tuple_segment(t)),
        )),
        r is Some ==> (r->Some_0).0 == elf_entry_point(bytes@),
        r is Some ==> ((r->Some_0).1)@ == copy_commands(
            elf_segments(bytes@).map_values(|t: (u32, u64, u64, u64, u64, u64)| tuple_segment(t)),
        ),
{
    let parsed = match parse_kernel_elf(bytes) {
        Some(p) => p,
        None => {
            return None;
        },
    };
    let (entry, segs) = parsed;
    let ghost seg_seq = elf_segments(bytes@).map_values(
        |t: (u32, u64, u64, u64, u64, u64)| tuple_segment(t),
    );
    proof {
        assert(seg_seq =~= segs@) by {
            assert forall|i: int| 0 <= i < segs@.len() implies seg_seq[i] == segs@[i] by {
                assert(elf_segments(bytes@)[i] == segs@[i].as_tuple());
            }
        }
    }
    let mut cmds: Vec<CopyCommand> = Vec::new();
    let mut i: usize = 0;
    while i < segs.len()
        invariant
            i <= segs@.len(),
            segments_wf(segs@.take(i as int)),
            cmds@ == copy_commands(segs@.take(i as int)),
        decreases segs@.len() - i,
    {
        let s = segs[i];
        proof {
            assert(segs@.take(i as int + 1).drop_last() =~= segs@.take(i as int));
            assert(segs@.take(i as int + 1).last() == segs@[i as int]);
        }
        if s.p_type == PT_LOAD {
            if s.p_filesz > s.p_memsz {
                proof {
                    assert(!segments_wf(segs@)) by {
                        assert(segs@[i as int].p_type == PT_LOAD && segs@[i as int].p_filesz
                            > segs@[i as int].p_memsz);
                    }
                }
                return None;
            }
            cmds.push(
                CopyCommand {
                    src_offset: s.p_offset,
                    dst: s.p_paddr,
                    copy_len: s.p_filesz,
                    zero_len: s.p_memsz - s.p_filesz,
                },
            );
        }
        i = i + 1;
    }
    proof {
        assert(segs@.take(segs@.len() as int) =~= segs@);
    }
    Some((entry, cmds))
}

/// A program-header tuple as a segment record.
pub open spec fn tuple_segment(t: (u32, u64, u64, u64, u64, u64)) -> LoadSegment {
    LoadSegment {
        p_type: t.0,
        p_offset: t.1,
        p_vaddr: t.2,
        p_paddr: t.3,
        p_filesz: t.4,
        p_memsz: t.5,
    }
}

/// One firmware memory-map record, as plain values.
#[derive(Debug, Clone, Copy, PartialEq, Eq, Structural)]
pub struct MemoryDescriptor {
    pub typ: u32,
    pub physical_start: u64,
    pub virtual_start: u64,
    pub number_of_pages: u64,
    pub attribute: u64,
}

/// The region a firmware record stands for: its physical range, classified
/// usable exactly for boot-services code and conventional memory.
pub open spec fn classify_descriptor(d: MemoryDescriptor) -> MemoryRegionType {
    if d.typ == BOOT_SERVICES_CODE || d.typ == CONVENTIONAL_MEMORY {
        MemoryRegionType::Usable
    } else {
        MemoryRegionType::Reserved
    }
}

/// The firmware memory map, converted to plain records by the loader
/// binary; `map_key` identifies the map revision for the handoff call.
pub struct MemoryMap {
    descriptors: Vec<MemoryDescriptor>,
    map_key: u64,
}

impl MemoryMap {
    pub closed spec fn spec_descriptors(&self) -> Seq<MemoryDescriptor> {
        self.descriptors@
    }

    pub closed spec fn spec_map_key(&self) -> u64 {
        self.map_key
    }

    /// Wrap a converted memory map.
    pub fn from_parts(descriptors: Vec<MemoryDescriptor>, map_key: u64) -> (r: Self)
        ensures
            r.spec_descriptors() == descriptors@,
            r.spec_map_key() == map_key,
    {
        MemoryMap { descriptors, map_key }
    }

    pub fn get_map_key(&self) -> (r: u64)
        ensures
            r == self.spec_map_key(),
    {
        self.map_key
    }

    /// Start walking the records.
    pub fn iter(&self) -> (r: MemoryMapIterator)
        ensures
            r.spec_offset() == 0,
    {
        MemoryMapIterator { offset: 0 }
    }
}

/// A cursor over a memory map's records.
pub struct MemoryMapIterator {
    offset: usize,
}

impl MemoryMapIterator {
    pub closed spec fn spec_offset(&self) -> int {
        self.offset as int
    }

    /// The next record, advancing the cursor; nothing once past the end.
    pub fn next(&mut self, map: &MemoryMap) -> (r: Option<MemoryDescriptor>)
        ensures
            old(self).spec_offset() < map.spec_descriptors().len() ==> r == Some(
                map.spec_descriptors()[old(self).spec_offset()],
            ) && final(self).spec_offset() == old(self).spec_offset() + 1,
            old(self).spec_offset() >= map.spec_descriptors().len() ==> r is None && final(self).spec_offset() == old(self).spec_offset(),
    {
        if self.offset < map.descriptors.len() {
            let d = map.descriptors[self.offset];
            self.offset = self.offset + 1;
            Some(d)
        } else {
            None
        }
    }
}

/// Build the kernel's region table from the firmware map: one region per
/// record, base and byte length taken over, usable exactly for
/// boot-services code and conventional memory.
pub fn collect_memory_regions(descs: &Vec<MemoryDescriptor>) -> (r: MemoryRegionArray)
    requires
        descs@.len() <= MAX_MEMORY_REGION_LEN,
        forall|i: int|
            0 <= i < descs@.len() ==> (#[trigger] descs@[i]).number_of_pages * PAGE_SIZE
                <= u64::MAX,
    ensures
        r.wf(),
        r.view_regions().len() == descs@.len(),
        forall|i: int|
            0 <= i < descs@.len() ==> {
                &&& (#[trigger] r.view_regions()[i]).spec_base() == descs@[i].physical_start
                &&& r.view_regions()[i].spec_len() == descs@[i].number_of_pages * PAGE_SIZE
                &&& r.view_regions()[i].spec_typ() == classify_descriptor(descs@[i])
            },
{
    let mut regions = MemoryRegionArray::new();
    let mut i: usize = 0;
    while i < descs.len()
        invariant
            i <= descs@.len(),
            descs@.len() <= MAX_MEMORY_REGION_LEN,
            forall|j: int|
                0 <= j < descs@.len() ==> (#[trigger] descs@[j]).number_of_pages * PAGE_SIZE
                    <= u64::MAX,
            regions.wf(),
            regions.view_regions().len() == i,
            forall|j: int|
                0 <= j < i ==> {
                    &&& (#[trigger] regions.view_regions()[j]).spec_base()
                        == descs@[j].physical_start
                    &&& regions.view_regions()[j].spec_len() == descs@[j].number_of_pages
                        * PAGE_SIZE
                    &&& regions.view_regions()[j].spec_typ() == classify_descriptor(descs@[j])
                },
        decreases descs@.len() - i,
    {
        let d = descs[i];
        let typ = if d.typ == BOOT_SERVICES_CODE || d.typ == CONVENTIONAL_MEMORY {
            MemoryRegionType::Usable
        } else {
            MemoryRegionType::Reserved
        };
        let region = MemoryRegion::new(d.physical_start, d.number_of_pages * PAGE_SIZE, typ);
        regions.push(region);
        i = i + 1;
    }
    regions
}

} // verus!
