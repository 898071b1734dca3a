//! The E820 table and the allocator of physical memory.
use hermit_kernel::addresses::Architecture;
use hermit_kernel::e820::{
    e820_entry, e820_is_valid, e820_reserved, E820Entry, ReservedRegions, RESERVED_REGIONS,
};
use hermit_kernel::mman::PageTableEntryFlags;
use hermit_kernel::page_range::{PageLayout, PageRange};
use hermit_kernel::physicalmem::{
    detect_from_start_info, init, is_mappable, kernel_image_end, map_frame_range,
    start_info_is_valid, store_total_memory, total_memory_size, FdtInfo, FrameAlloc, MemmapEntry,
    MemmapType, StartInfo,
};
use hermit_kernel::range_list::AllocError;

fn range(start: usize, end: usize) -> PageRange {
    PageRange::new(start, end).unwrap()
}

fn ram(phys_addr: usize, len: usize) -> MemmapEntry {
    MemmapEntry { ty: MemmapType::Ram, phys_addr, len }
}

fn start_info(memmap: Vec<MemmapEntry>) -> StartInfo {
    StartInfo {
        e820_reserved: ReservedRegions::new(),
        memmap,
        kernel_start: 0x40_0000,
        linked_end: 0x50_0800,
        loaded_end: None,
        modules: Vec::new(),
        fdt: None,
    }
}

fn detect(info: &StartInfo) -> Vec<(usize, usize)> {
    let mut frames = FrameAlloc::new(Architecture::X86_64);
    assert!(start_info_is_valid(&frames, info));
    let ranges = detect_from_start_info(&mut frames, info);
    ranges.iter().map(|range| (range.start, range.end)).collect()
}

fn is_valid(info: &StartInfo) -> bool {
    start_info_is_valid(&FrameAlloc::new(Architecture::X86_64), info)
}

fn table(entries: &[(u64, u64, u32)]) -> Vec<u8> {
    let mut bytes = Vec::new();
    for &(start, size, typ) in entries {
        bytes.extend_from_slice(&start.to_le_bytes());
        bytes.extend_from_slice(&size.to_le_bytes());
        bytes.extend_from_slice(&typ.to_le_bytes());
    }
    bytes
}

#[test]
fn e820_entries_are_little_endian() {
    let bytes = table(&[(1, 2, 3), (0x1122_3344_5566_7788, 0x99aa_bbcc, 0x8765_4321)]);
    assert_eq!(e820_entry(&bytes, 0), E820Entry { start: 1, size: 2, typ: 3 });
    assert_eq!(
        e820_entry(&bytes, 1),
        E820Entry { start: 0x1122_3344_5566_7788, size: 0x99aa_bbcc, typ: 0x8765_4321 }
    );
}

#[test]
fn e820_keeps_what_is_not_usable() {
    let bytes = table(&[
        (0, 0x9_fc00, 1),
        (0x9_fc00, 0x400, 2),
        (0x10_0000, 0, 2),
        (0xeec0_0000, 0x1140_0000, 2),
        (0x1_0000_0000, 0x4000_0000, 1),
    ]);
    assert!(e820_is_valid(&bytes, 5));
    let reserved = e820_reserved(&bytes, 5);
    assert_eq!(
        reserved.as_slice().to_vec(),
        vec![(0x9_fc00, 0xa_0000), (0xeec0_0000, 0x1_0000_0000)]
    );
    // Only the announced number of entries counts.
    assert_eq!(e820_reserved(&bytes, 3).as_slice().to_vec(), vec![(0x9_fc00, 0xa_0000)]);
    assert!(e820_reserved(&bytes, 0).as_slice().is_empty());
}

#[test]
fn e820_list_has_room_for_every_entry() {
    let entries: Vec<(u64, u64, u32)> = (0..255).map(|i| (i * 0x1000, 0x1000, 2)).collect();
    let bytes = table(&entries);
    assert!(e820_is_valid(&bytes, 255));
    let reserved = e820_reserved(&bytes, 255);
    assert_eq!(reserved.as_slice().len(), RESERVED_REGIONS);
    assert_eq!(reserved.as_slice()[32], (0x2_0000, 0x2_1000));
    assert_eq!(reserved.as_slice()[254], (0xf_e000, 0xf_f000));
}

#[test]
fn entries_in_a_late_e820_region_are_skipped() {
    let mut entries: Vec<(u64, u64, u32)> =
        (0..32).map(|i| (0x2000_0000 + i * 0x1_0000, 0x1000, 2)).collect();
    entries.push((0xeec0_0000, 0x1140_0000, 2));
    let bytes = table(&entries);
    assert!(e820_is_valid(&bytes, 33));
    let mut info = start_info(vec![ram(0x800_0000, 0x1000), ram(0xeec0_0000, 0x10_0000)]);
    info.e820_reserved = e820_reserved(&bytes, 33);
    assert_eq!(detect(&info), vec![(0x800_0000, 0x800_1000)]);
}

#[test]
fn e820_table_must_be_long_enough_and_end_in_the_address_space() {
    let bytes = table(&[(0, 0x1000, 2)]);
    assert!(e820_is_valid(&bytes, 1));
    assert!(!e820_is_valid(&bytes, 2));
    let beyond = table(&[(u64::MAX - 1, 2, 2)]);
    assert!(!e820_is_valid(&beyond, 1));
    let usable = table(&[(u64::MAX - 1, 2, 1)]);
    assert!(e820_is_valid(&usable, 1));
}

#[test]
fn reserved_regions_keep_their_order() {
    let mut regions = ReservedRegions::new();
    assert!(regions.as_slice().is_empty());
    regions.push((5, 6));
    regions.push((1, 2));
    assert_eq!(regions.as_slice().to_vec(), vec![(5, 6), (1, 2)]);
}

#[test]
fn image_ends_where_linker_or_loader_say() {
    assert_eq!(kernel_image_end(0x5000, None), 0x5000);
    assert_eq!(kernel_image_end(0x5000, Some(0x4000)), 0x5000);
    assert_eq!(kernel_image_end(0x5000, Some(0x6000)), 0x6000);
}

#[test]
fn memory_below_the_image_is_not_claimed() {
    // The linked end is rounded up to a whole page, the end of memory down.
    let info = start_info(vec![ram(0, 0x800_0fff)]);
    assert_eq!(detect(&info), vec![(0x50_1000, 0x800_0000)]);
    let mut info = start_info(vec![ram(0, 0x800_0000)]);
    info.loaded_end = Some(0x60_0000);
    assert_eq!(detect(&info), vec![(0x60_0000, 0x800_0000)]);
}

#[test]
fn memory_below_the_first_large_page_is_not_claimed() {
    let mut info = start_info(vec![ram(0x1000, 0x80_0000)]);
    info.kernel_start = 0x8000;
    info.linked_end = 0x9000;
    assert_eq!(detect(&info), vec![(0x20_0000, 0x80_1000)]);
}

#[test]
fn entries_below_the_image_are_skipped() {
    let info = start_info(vec![ram(0x1000, 0x1000), ram(0x800_0000, 0x2000)]);
    assert_eq!(detect(&info), vec![(0x800_0000, 0x800_2000)]);
}

#[test]
fn other_types_and_reserved_entries_are_skipped() {
    let mut info = start_info(vec![
        ram(0x800_0000, 0x10_0000),
        MemmapEntry { ty: MemmapType::Reserved, phys_addr: 0x900_0000, len: 0x10_0000 },
        ram(0xeec0_0000, 0x10_0000),
        ram(0xeed0_0000, 0x10_0000),
    ]);
    // The last entry is only partly within the region.
    info.e820_reserved.push((0xeec0_0000, 0xeed8_0000));
    assert_eq!(
        detect(&info),
        vec![(0x800_0000, 0x810_0000), (0xeed0_0000, 0xeee0_0000)]
    );
}

#[test]
fn adjacent_entries_are_joined() {
    let info = start_info(vec![ram(0x900_0000, 0x1000), ram(0x800_0000, 0x100_0000)]);
    assert_eq!(detect(&info), vec![(0x800_0000, 0x900_1000)]);
}

#[test]
fn modules_and_device_tree_are_reserved() {
    let mut info = start_info(vec![ram(0, 0x1000_0000)]);
    info.modules = vec![range(0x60_0000, 0x60_2000), range(0x2000_0000, 0x2000_1000)];
    info.fdt = Some(FdtInfo {
        reservations: vec![(0x80_0000, 0x1000), (0x60_1000, 0x2000)],
        addr: 0xfff_0123,
        total_size: 0x1000,
    });
    assert_eq!(
        detect(&info),
        vec![
            (0x50_1000, 0x60_0000),
            (0x60_3000, 0x80_0000),
            (0x80_1000, 0xfff_0000),
            (0xfff_2000, 0x1000_0000),
        ]
    );
}

#[test]
fn the_kernel_image_is_reserved_even_if_it_was_free() {
    let mut frames = FrameAlloc::new(Architecture::X86_64);
    frames.deallocate(range(0x40_0000, 0x42_0000));
    let info = start_info(vec![ram(0x800_0000, 0x1000)]);
    assert!(start_info_is_valid(&frames, &info));
    let ranges = detect_from_start_info(&mut frames, &info);
    assert_eq!(ranges, vec![range(0x800_0000, 0x800_1000)]);
    assert!(!frames.overlaps(range(0x40_0000, 0x50_1000)));
}

#[test]
fn invalid_start_infos_are_recognised() {
    assert!(is_valid(&start_info(vec![ram(0x800_0000, 0x1000)])));
    // Two entries that overlap.
    assert!(!is_valid(&start_info(vec![ram(0x800_0000, 0x2000), ram(0x800_1000, 0x2000)])));
    // An entry that ends beyond the address space.
    assert!(!is_valid(&start_info(vec![ram(0x800_0000, usize::MAX)])));
    // An entry of which exactly nothing is left.
    assert!(!is_valid(&start_info(vec![ram(0x50_0000, 0x1000)])));
    assert!(!is_valid(&start_info(vec![ram(0x800_0000, 0)])));
    // An image that ends where it starts, on a page boundary.
    let mut info = start_info(vec![]);
    info.linked_end = info.kernel_start;
    assert!(!is_valid(&info));
    // A module that is no page range.
    let mut info = start_info(vec![]);
    info.modules = vec![PageRange { start: 0x1234, end: 0x2000 }];
    assert!(!is_valid(&info));
    // A reservation that is not of whole pages.
    let mut info = start_info(vec![]);
    info.fdt = Some(FdtInfo { reservations: vec![(0x1000, 0x10)], addr: 0x1000, total_size: 1 });
    assert!(!is_valid(&info));
    // A device tree that ends beyond the address space.
    let mut info = start_info(vec![]);
    info.fdt = Some(FdtInfo { reservations: vec![], addr: 0x1000, total_size: usize::MAX });
    assert!(!is_valid(&info));
    let mut info = start_info(vec![]);
    info.fdt = Some(FdtInfo { reservations: vec![], addr: 0x1000, total_size: 1 });
    assert!(is_valid(&info));
    // Memory beyond the physical address space, unless it is reserved.
    let beyond: usize = 1 << 52;
    assert!(!is_valid(&start_info(vec![ram(beyond, 0x1000)])));
    let mut info = start_info(vec![ram(beyond, 0x1000)]);
    info.modules = vec![range(beyond, beyond + 0x1000)];
    assert!(is_valid(&info));
    let arm = FrameAlloc::new(Architecture::Aarch64);
    assert!(start_info_is_valid(&arm, &start_info(vec![ram(beyond, 0x1000)])));
    // Memory that is free already.
    let mut frames = FrameAlloc::new(Architecture::X86_64);
    frames.deallocate(range(0x800_0000, 0x800_1000));
    assert!(!start_info_is_valid(&frames, &start_info(vec![ram(0x800_0000, 0x1000)])));
}

#[test]
fn frames_are_mapped_with_pages_that_cover_them() {
    let frames = range(0x50_1000, 0x80_1000);
    assert!(is_mappable(frames, Architecture::X86_64, 0));
    let mappings = map_frame_range(frames, Architecture::X86_64, 0);
    assert_eq!(mappings.identity, vec![0x40_0000, 0x60_0000, 0x80_0000]);
    assert!(mappings.device.is_empty());
    let base = map_frame_range(range(0x3000, 0x5000), Architecture::Aarch64, 0);
    assert_eq!(base.identity, vec![0x3000, 0x4000]);
    let huge = map_frame_range(frames, Architecture::Riscv64, 0);
    assert_eq!(huge.identity, vec![0]);
}

#[test]
fn architectures_map_with_pages_of_their_own_size() {
    assert_eq!(Architecture::Aarch64.identity_page_size(), 0x1000);
    assert_eq!(Architecture::Riscv64.identity_page_size(), 0x4000_0000);
    assert_eq!(Architecture::X86_64.identity_page_size(), 0x20_0000);
}

#[test]
fn frames_are_mapped_again_at_an_offset() {
    let offset: usize = 0x4000_0000_0000;
    let frames = range(0x40_0000, 0x80_0000);
    assert!(is_mappable(frames, Architecture::X86_64, offset));
    let mappings = map_frame_range(frames, Architecture::X86_64, offset);
    assert_eq!(mappings.identity, vec![0x40_0000, 0x60_0000]);
    assert_eq!(
        mappings.device,
        vec![(offset + 0x40_0000, 0x40_0000), (offset + 0x60_0000, 0x60_0000)]
    );
    assert_eq!(
        mappings.device_flags,
        PageTableEntryFlags {
            accessible: true,
            normal: true,
            writable: true,
            execute_disable: true,
        }
    );
}

#[test]
fn unmappable_frames_are_recognised() {
    // Physical addresses are limited.
    let check = |architecture, end: usize, page: usize| {
        assert!(is_mappable(range(end - page, end), architecture, 0));
        assert!(!is_mappable(range(end, end + page), architecture, 0));
    };
    check(Architecture::X86_64, 1 << 52, 0x20_0000);
    check(Architecture::Aarch64, 1 << 56, 0x1000);
    check(Architecture::Riscv64, 1 << 54, 0x4000_0000);
    // The offset leads to an address that is not virtual.
    let frames = range(0x20_0000, 0x40_0000);
    assert!(!is_mappable(frames, Architecture::X86_64, 0x7fff_ffe0_0000));
    assert!(is_mappable(frames, Architecture::Riscv64, 0x7fff_ffe0_0000));
    assert!(is_mappable(frames, Architecture::Aarch64, 0x7fff_ffe0_0000));
    // The address space ends before the page does.
    let last = range(usize::MAX - 0x1fff, usize::MAX - 0xfff);
    assert!(!is_mappable(last, Architecture::X86_64, 0));
}

#[test]
fn total_memory_is_what_is_free_at_boot() {
    let mut frames = FrameAlloc::new(Architecture::X86_64);
    assert_eq!(total_memory_size(&frames), 0);
    frames.deallocate(range(0x1000, 0x4000));
    frames.deallocate(range(0x8000, 0x9000));
    store_total_memory(&mut frames);
    assert_eq!(total_memory_size(&frames), 0x4000);
    frames.allocate(PageLayout::from_size(0x1000).unwrap()).unwrap();
    assert_eq!(total_memory_size(&frames), 0x4000);
}

#[test]
fn starting_unmaps_huge_pages_at_the_offset() {
    let info = start_info(vec![ram(0x800_0000, 0x2000)]);
    let mut frames = FrameAlloc::new(Architecture::X86_64);
    let plan = init(&mut frames, &info, 0x4000_0000_0000);
    assert_eq!(plan.unmap, Some((0x4000_0000_0000, 0x1_0000)));
    assert_eq!(plan.frame_ranges, vec![range(0x800_0000, 0x800_2000)]);
    let plan = FrameAlloc::new(Architecture::X86_64).init(&info, 0);
    assert_eq!(plan.unmap, None);
    let plan = FrameAlloc::new(Architecture::Riscv64).init(&info, 0x4000_0000_0000);
    assert_eq!(plan.unmap, None);
    assert_eq!(plan.frame_ranges, vec![range(0x800_0000, 0x800_2000)]);
}

#[test]
fn frames_are_allocated_and_freed() {
    let mut frames = FrameAlloc::new(Architecture::X86_64);
    let layout = PageLayout::from_size(0x2000).unwrap();
    assert_eq!(frames.allocate(layout), Err(AllocError));
    frames.deallocate(range(0x1000, 0x5000));
    assert_eq!(frames.allocate(layout), Ok(range(0x1000, 0x3000)));
    assert_eq!(frames.allocate_at(range(0x2000, 0x4000)), Err(AllocError));
    assert_eq!(frames.allocate_at(range(0x4000, 0x5000)), Ok(()));
    assert_eq!(frames.free_ranges().to_vec(), vec![range(0x3000, 0x4000)]);
    frames.deallocate(range(0x1000, 0x3000));
    assert_eq!(frames.free_ranges().to_vec(), vec![range(0x1000, 0x4000)]);
}

#[test]
fn the_allocator_prints_its_free_list() {
    let mut frames = FrameAlloc::new(Architecture::X86_64);
    assert_eq!(frames.to_string(), "FrameAlloc free list:\n");
    frames.deallocate(range(0x1000, 0x2000));
    frames.deallocate(range(0x8000, 0xa000));
    assert_eq!(
        frames.to_string(),
        "FrameAlloc free list:\n            0x1000..            0x2000 (len =             0x1000, \
         pages =                1)\n            0x8000..            0xa000 (len =             \
         0x2000, pages =                2)"
    );
}
