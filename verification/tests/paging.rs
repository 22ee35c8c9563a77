use noctis::memlayout::{Address, MSize, PhysAddr, VirtAddr, KERNEL_CODE_BASE_VADDR, LINER_MAPPING_BASE_VADDR};
use noctis::paging::{MapError, PageTable, PageTableArena, PageTableAttr, PageTableEntry};

fn walk_addr(table: &PageTable, arena: &PageTableArena, va: u64) -> Option<(u64, u64)> {
    table
        .walk(arena, VirtAddr::new(va))
        .map(|(pa, attrs)| (pa.to_u64(), attrs))
}

#[test]
fn unaligned_virtual_start_is_reported() {
    // A mapping request at 0x1000_0007 must yield an alignment error,
    // not a silently rounded mapping.
    let mut arena = PageTableArena::new();
    let table = PageTable::new(&mut arena);
    let before = arena.node_count();
    let r = table.create_mapping(
        &mut arena,
        VirtAddr::new(0x1000_0007),
        PhysAddr::new(0x2000_0000),
        MSize::new(0x3000),
        PageTableAttr::ReadWriteKernel,
    );
    assert_eq!(r, Err(MapError::UnalignedVirtualAddress));
    assert_eq!(arena.node_count(), before);
    assert_eq!(walk_addr(&table, &arena, 0x1000_0000), None);
}

#[test]
fn unaligned_physical_start_is_reported() {
    let mut arena = PageTableArena::new();
    let table = PageTable::new(&mut arena);
    let r = table.create_mapping(
        &mut arena,
        VirtAddr::new(0x1000_0000),
        PhysAddr::new(0x2000_0007),
        MSize::new(0x3000),
        PageTableAttr::ReadWriteKernel,
    );
    assert_eq!(r, Err(MapError::UnalignedPhysicalAddress));
}

#[test]
fn mapped_range_walks_to_requested_frames() {
    let mut arena = PageTableArena::new();
    let table = PageTable::new(&mut arena);
    let before = arena.node_count();
    let r = table.create_mapping(
        &mut arena,
        VirtAddr::new(0x4000_0000),
        PhysAddr::new(0x800_0000),
        MSize::new(0x2800), // 2.5 pages -> rounds up to 3 pages
        PageTableAttr::ReadWriteKernel,
    );
    assert_eq!(r, Ok(()));
    // Three fresh intermediate nodes (one per level below the top).
    assert_eq!(arena.node_count(), before + 3);
    let attrs = 0x8000_0000_0000_0003u64;
    for k in 0..3u64 {
        assert_eq!(
            walk_addr(&table, &arena, 0x4000_0000 + k * 4096),
            Some((0x800_0000 + k * 4096, attrs))
        );
        // The low bits of the probe address do not matter.
        assert_eq!(
            walk_addr(&table, &arena, 0x4000_0000 + k * 4096 + 0x123),
            Some((0x800_0000 + k * 4096, attrs))
        );
    }
    // The page after the range is not mapped.
    assert_eq!(walk_addr(&table, &arena, 0x4000_0000 + 3 * 4096), None);
    assert_eq!(walk_addr(&table, &arena, 0x3FFF_F000), None);
}

#[test]
fn remapping_same_range_is_idempotent() {
    let mut arena = PageTableArena::new();
    let table = PageTable::new(&mut arena);
    let args = (
        VirtAddr::new(0x4000_0000),
        PhysAddr::new(0x800_0000),
        MSize::new(0x3000),
    );
    assert_eq!(
        table.create_mapping(&mut arena, args.0, args.1, args.2, PageTableAttr::ReadWriteKernel),
        Ok(())
    );
    let nodes_after_first = arena.node_count();
    assert_eq!(
        table.create_mapping(&mut arena, args.0, args.1, args.2, PageTableAttr::ReadWriteKernel),
        Ok(())
    );
    // Intermediate nodes are reused: nothing new is allocated.
    assert_eq!(arena.node_count(), nodes_after_first);
    assert_eq!(
        walk_addr(&table, &arena, 0x4000_0000),
        Some((0x800_0000, 0x8000_0000_0000_0003))
    );
}

#[test]
fn gigabyte_fast_path_uses_single_level() {
    let mut arena = PageTableArena::new();
    let table = PageTable::new(&mut arena);
    let before = arena.node_count();
    // One whole gigabyte, aligned on both sides, with the huge attribute.
    let r = table.create_mapping(
        &mut arena,
        VirtAddr::new(0x8000_0000),
        PhysAddr::new(0x4000_0000),
        MSize::new(0x4000_0000),
        PageTableAttr::ReadWriteKernel1GiB,
    );
    assert_eq!(r, Ok(()));
    // Exactly one intermediate node (the third-level table); zero
    // leaf-level allocations.
    assert_eq!(arena.node_count(), before + 1);
    let attrs = 0x8000_0000_0000_0083u64;
    // Page granular translation across the gigabyte.
    assert_eq!(
        walk_addr(&table, &arena, 0x8000_0000),
        Some((0x4000_0000, attrs))
    );
    assert_eq!(
        walk_addr(&table, &arena, 0x8000_0000 + 0x1234_5000),
        Some((0x4000_0000 + 0x1234_5000, attrs))
    );
    assert_eq!(
        walk_addr(&table, &arena, 0x8000_0000 + 0x3FFF_F000),
        Some((0x4000_0000 + 0x3FFF_F000, attrs))
    );
    assert_eq!(walk_addr(&table, &arena, 0x8000_0000 + 0x4000_0000), None);
    assert_eq!(walk_addr(&table, &arena, 0x7FFF_F000), None);
}

#[test]
fn misaligned_gigabyte_request_falls_back_to_pages() {
    let mut arena = PageTableArena::new();
    let table = PageTable::new(&mut arena);
    let before = arena.node_count();
    // Physical side not gigabyte-aligned: same net translation, built
    // from 4 KiB pages.
    let r = table.create_mapping(
        &mut arena,
        VirtAddr::new(0x8000_0000),
        PhysAddr::new(0x10_0000),
        MSize::new(0x20_0000),
        PageTableAttr::ReadWriteKernel1GiB,
    );
    assert_eq!(r, Ok(()));
    // Leaf tables were allocated, so more than one node appeared.
    assert!(arena.node_count() > before + 1);
    let attrs = 0x8000_0000_0000_0083u64;
    for k in [0u64, 1, 511] {
        assert_eq!(
            walk_addr(&table, &arena, 0x8000_0000 + k * 4096),
            Some((0x10_0000 + k * 4096, attrs))
        );
    }
}

#[test]
fn duplicate_shares_top_level_entries() {
    let mut arena = PageTableArena::new();
    let table = PageTable::new(&mut arena);
    table
        .create_mapping(
            &mut arena,
            VirtAddr::new(0x4000_0000),
            PhysAddr::new(0x800_0000),
            MSize::new(0x1000),
            PageTableAttr::ReadWriteKernel,
        )
        .unwrap();
    let dup = table.duplicate_kernel(&mut arena);
    // The duplicate translates exactly as the source.
    assert_eq!(
        walk_addr(&dup, &arena, 0x4000_0000),
        walk_addr(&table, &arena, 0x4000_0000)
    );
    assert_eq!(walk_addr(&dup, &arena, 0x5000_0000), None);

    // Mutating a shared lower-level table through the duplicate is
    // visible through the source: sharing by construction.
    // 0x4020_0000 shares the top-level (and third-level) entry with the
    // existing mapping but uses a different second-level slot.
    dup.create_mapping(
        &mut arena,
        VirtAddr::new(0x4020_0000),
        PhysAddr::new(0xA00_0000),
        MSize::new(0x1000),
        PageTableAttr::ReadKernel,
    )
    .unwrap();
    assert_eq!(
        walk_addr(&table, &arena, 0x4020_0000),
        Some((0xA00_0000, 0x8000_0000_0000_0001))
    );
}

#[test]
fn conflicting_huge_entry_is_reported() {
    let mut arena = PageTableArena::new();
    let table = PageTable::new(&mut arena);
    // A huge mapping first...
    table
        .create_mapping(
            &mut arena,
            VirtAddr::new(0x8000_0000),
            PhysAddr::new(0x4000_0000),
            MSize::new(0x4000_0000),
            PageTableAttr::ReadWriteKernel1GiB,
        )
        .unwrap();
    // ...then a 4 KiB mapping beneath it meets the huge entry.
    let r = table.create_mapping(
        &mut arena,
        VirtAddr::new(0x8000_0000),
        PhysAddr::new(0x100_0000),
        MSize::new(0x1000),
        PageTableAttr::ReadWriteKernel,
    );
    assert_eq!(r, Err(MapError::TableAlreadyAllocated));
    // And the other way around: a table where a huge entry should go.
    let table2 = PageTable::new(&mut arena);
    table2
        .create_mapping(
            &mut arena,
            VirtAddr::new(0x8000_0000),
            PhysAddr::new(0x100_0000),
            MSize::new(0x1000),
            PageTableAttr::ReadWriteKernel,
        )
        .unwrap();
    let r2 = table2.create_mapping(
        &mut arena,
        VirtAddr::new(0x8000_0000),
        PhysAddr::new(0x4000_0000),
        MSize::new(0x4000_0000),
        PageTableAttr::ReadWriteKernel1GiB,
    );
    assert_eq!(r2, Err(MapError::TableAlreadyAllocated));
}

#[test]
fn mapping_across_leaf_table_boundary() {
    // 513 pages starting at the last slot of one leaf table: the range
    // spills into a second leaf table, which is allocated on demand.
    let mut arena = PageTableArena::new();
    let table = PageTable::new(&mut arena);
    let before = arena.node_count();
    let virt = 0x4000_0000u64 + 511 * 4096; // last slot of the first leaf table
    let r = table.create_mapping(
        &mut arena,
        VirtAddr::new(virt),
        PhysAddr::new(0x800_0000),
        MSize::new(2 * 4096),
        PageTableAttr::ReadWriteKernel,
    );
    assert_eq!(r, Ok(()));
    // Three nodes for the first page's path, one more leaf table for the
    // page across the boundary.
    assert_eq!(arena.node_count(), before + 4);
    let attrs = 0x8000_0000_0000_0003u64;
    assert_eq!(walk_addr(&table, &arena, virt), Some((0x800_0000, attrs)));
    assert_eq!(
        walk_addr(&table, &arena, virt + 4096),
        Some((0x800_0000 + 4096, attrs))
    );
}

#[test]
fn entry_bit_operations() {
    let mut e = PageTableEntry::empty();
    assert!(!e.is_present());
    assert_eq!(
        e.set_entry(PhysAddr::new(0x1234_5000), PageTableAttr::ReadWriteKernel),
        Ok(())
    );
    assert!(e.is_present());
    assert!(e.is_writable());
    assert!(!e.is_user_accessible());
    assert!(!e.is_huge());
    assert!(!e.is_executable());
    assert_eq!(e.paddr().to_u64(), 0x1234_5000);
    assert_eq!(e.to_u64(), 0x1234_5000 | 0x8000_0000_0000_0003);

    // A misaligned physical address is rejected, never truncated.
    let mut e2 = PageTableEntry::empty();
    assert_eq!(
        e2.set_entry(PhysAddr::new(0x1234_5678), PageTableAttr::ReadWriteKernel),
        Err(MapError::UnalignedPhysicalAddress)
    );
    assert_eq!(e2.to_u64(), 0);

    let mut e3 = PageTableEntry::empty();
    e3.set_bit(7, true);
    assert!(e3.is_huge());
    e3.set_bit(7, false);
    assert!(!e3.is_huge());
    assert!(e3.format().contains("present: false"));
}

#[test]
fn init_paging_builds_boot_mappings() {
    let mut arena = PageTableArena::new();
    let text_start = KERNEL_CODE_BASE_VADDR;
    let table = noctis::paging::init_paging(
        &mut arena,
        VirtAddr::new(text_start),
        VirtAddr::new(text_start + 0x4000),
        VirtAddr::new(text_start + 0x4000),
        VirtAddr::new(text_start + 0x6000),
        VirtAddr::new(text_start + 0x6000),
        VirtAddr::new(text_start + 0x9000),
    );
    // Linear mapping: virtual = physical + base, as 1 GiB pages.
    assert_eq!(
        walk_addr(&table, &arena, LINER_MAPPING_BASE_VADDR + 0x1234_5000),
        Some((0x1234_5000, 0x8000_0000_0000_0083))
    );
    // Kernel text at its link-time physical address, executable.
    assert_eq!(
        walk_addr(&table, &arena, text_start),
        Some((0x0, 0x1))
    );
    // Rodata is not executable and not writable.
    assert_eq!(
        walk_addr(&table, &arena, text_start + 0x4000),
        Some((0x4000, 0x8000_0000_0000_0001))
    );
    // Data/bss is writable.
    assert_eq!(
        walk_addr(&table, &arena, text_start + 0x8000),
        Some((0x8000, 0x8000_0000_0000_0003))
    );
    // The interrupt-controller window, uncached.
    assert_eq!(
        walk_addr(&table, &arena, 0xFEE0_0000),
        Some((0xFEE0_0000, 0x8000_0000_0000_001B))
    );
    // Nothing else.
    assert_eq!(walk_addr(&table, &arena, 0x1000), None);
}
