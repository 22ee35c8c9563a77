use noctis::loader::{
    collect_memory_regions, get_kernel_size, load_plan, LoadSegment, MemoryDescriptor,
    MemoryMap, PT_LOAD,
};
use noctis::memory::MemoryRegionType;

fn le16(v: &mut Vec<u8>, x: u16) {
    v.extend_from_slice(&x.to_le_bytes());
}
fn le32(v: &mut Vec<u8>, x: u32) {
    v.extend_from_slice(&x.to_le_bytes());
}
fn le64(v: &mut Vec<u8>, x: u64) {
    v.extend_from_slice(&x.to_le_bytes());
}

/// A minimal 64-bit little-endian executable image: file header plus two
/// program headers (one loadable, one note).
fn tiny_elf(entry: u64) -> Vec<u8> {
    let mut v: Vec<u8> = Vec::new();
    v.extend_from_slice(&[0x7F, b'E', b'L', b'F', 2, 1, 1, 0, 0, 0, 0, 0, 0, 0, 0, 0]);
    le16(&mut v, 2); // executable
    le16(&mut v, 0x3E); // x86-64
    le32(&mut v, 1);
    le64(&mut v, entry);
    le64(&mut v, 64); // program headers right after this header
    le64(&mut v, 0); // no section headers
    le32(&mut v, 0);
    le16(&mut v, 64); // ehsize
    le16(&mut v, 56); // phentsize
    le16(&mut v, 2); // phnum
    le16(&mut v, 0);
    le16(&mut v, 0);
    le16(&mut v, 0);
    // Program header 0: loadable.
    le32(&mut v, 1); // PT_LOAD
    le32(&mut v, 5); // flags r+x
    le64(&mut v, 0x1000); // offset
    le64(&mut v, 0xFFFF_FFFF_8000_0000); // vaddr
    le64(&mut v, 0x20_0000); // paddr
    le64(&mut v, 0x800); // filesz
    le64(&mut v, 0x1000); // memsz
    le64(&mut v, 0x1000); // align
    // Program header 1: a note, not loadable.
    le32(&mut v, 4); // PT_NOTE
    le32(&mut v, 4);
    le64(&mut v, 0x2000);
    le64(&mut v, 0);
    le64(&mut v, 0);
    le64(&mut v, 0x10);
    le64(&mut v, 0x10);
    le64(&mut v, 1);
    v
}

#[test]
fn load_plan_reads_the_image() {
    let bytes = tiny_elf(0xFFFF_FFFF_8000_1234);
    let (entry, cmds) = load_plan(&bytes).expect("image parses");
    assert_eq!(entry, 0xFFFF_FFFF_8000_1234);
    // Only the loadable segment produces a copy; the note does not.
    assert_eq!(cmds.len(), 1);
    assert_eq!(cmds[0].src_offset, 0x1000);
    assert_eq!(cmds[0].dst, 0x20_0000);
    assert_eq!(cmds[0].copy_len, 0x800);
    assert_eq!(cmds[0].zero_len, 0x800);
}

#[test]
fn garbage_bytes_do_not_parse() {
    let bytes = vec![1u8, 2, 3, 4, 5, 6, 7, 8];
    assert!(load_plan(&bytes).is_none());
}

#[test]
fn kernel_extent_over_loadable_segments() {
    let segs = vec![
        LoadSegment {
            p_type: PT_LOAD,
            p_offset: 0,
            p_vaddr: 0x5000,
            p_paddr: 0x100_0000,
            p_filesz: 0x800,
            p_memsz: 0x1000,
        },
        LoadSegment {
            p_type: 4,
            p_offset: 0,
            p_vaddr: 0x1,
            p_paddr: 0x1,
            p_filesz: 0,
            p_memsz: 0x9999_9999,
        },
        LoadSegment {
            p_type: PT_LOAD,
            p_offset: 0x1000,
            p_vaddr: 0x2000,
            p_paddr: 0x200_0000,
            p_filesz: 0x100,
            p_memsz: 0x100,
        },
    ];
    let (start_virt, start_phys, end_virt) = get_kernel_size(&segs);
    // The non-loadable segment is ignored.
    assert_eq!(start_virt, 0x2000);
    assert_eq!(start_phys, 0x100_0000);
    assert_eq!(end_virt, 0x6000);
}

#[test]
fn memory_map_classification() {
    let descs = vec![
        MemoryDescriptor {
            typ: 3, // boot-services code: reclaimable
            physical_start: 0x1000,
            virtual_start: 0,
            number_of_pages: 4,
            attribute: 0,
        },
        MemoryDescriptor {
            typ: 4, // boot-services data holds live page tables: reserved
            physical_start: 0x10_0000,
            virtual_start: 0,
            number_of_pages: 2,
            attribute: 0,
        },
        MemoryDescriptor {
            typ: 7, // conventional memory: usable
            physical_start: 0x20_0000,
            virtual_start: 0,
            number_of_pages: 256,
            attribute: 0,
        },
    ];
    let regions = collect_memory_regions(&descs);
    assert_eq!(regions.count(), 3);
    assert_eq!(regions.get(0).base(), 0x1000);
    assert_eq!(regions.get(0).len(), 4 * 4096);
    assert_eq!(regions.get(0).typ(), MemoryRegionType::Usable);
    assert_eq!(regions.get(1).typ(), MemoryRegionType::Reserved);
    assert_eq!(regions.get(2).typ(), MemoryRegionType::Usable);
    assert_eq!(regions.get(2).len(), 256 * 4096);
}

#[test]
fn memory_map_iteration() {
    let descs = vec![
        MemoryDescriptor {
            typ: 7,
            physical_start: 0xA000,
            virtual_start: 0,
            number_of_pages: 1,
            attribute: 0,
        },
        MemoryDescriptor {
            typ: 0,
            physical_start: 0xB000,
            virtual_start: 0,
            number_of_pages: 2,
            attribute: 0,
        },
    ];
    let map = MemoryMap::from_parts(descs, 0x42);
    assert_eq!(map.get_map_key(), 0x42);
    let mut it = map.iter();
    assert_eq!(it.next(&map).unwrap().physical_start, 0xA000);
    assert_eq!(it.next(&map).unwrap().physical_start, 0xB000);
    assert!(it.next(&map).is_none());
}
