//! The memory management system calls.
use hermit_kernel::addresses::Architecture;
use hermit_kernel::mman::{
    complete_munmap, is_releasable, mprotect_pages, page_table_flags, sys_mlock, sys_mlockall,
    sys_mmap, sys_mprotect, sys_munlock, sys_munlockall, sys_munmap, unmap_target, AddressSpace,
    Errno, Mapping, MemoryProtection, PageTableEntryFlags,
};
use hermit_kernel::page_range::PageRange;
use hermit_kernel::physicalmem::FrameAlloc;

const PAGES: usize = 0x10_0000_0000;
const FRAMES: usize = 0x800_0000;
const INVAL: i32 = -22;
const NOMEM: i32 = -12;

fn range(start: usize, end: usize) -> PageRange {
    PageRange::new(start, end).unwrap()
}

/// An address space of 16 pages, and 8 frames.
fn machine() -> (AddressSpace, FrameAlloc) {
    let mut space = AddressSpace::new(Architecture::X86_64);
    space.deallocate(range(PAGES, PAGES + 0x1_0000));
    let mut frames = FrameAlloc::new(Architecture::X86_64);
    frames.deallocate(range(FRAMES, FRAMES + 0x8000));
    (space, frames)
}

fn read_write() -> MemoryProtection {
    MemoryProtection { bits: 3 }
}

fn mmap(space: &mut AddressSpace, frames: &mut FrameAlloc, size: usize) -> usize {
    let mut ret: usize = 0;
    assert_eq!(sys_mmap(space, frames, size, read_write(), &mut ret).0, 0);
    ret
}

#[test]
fn protection_flags_are_bits() {
    assert_eq!(MemoryProtection::none().bits, 0);
    assert_eq!(MemoryProtection::read().bits, 1);
    assert_eq!(MemoryProtection::write().bits, 2);
    assert_eq!(MemoryProtection::exec().bits, 4);
    assert_eq!(MemoryProtection::default(), MemoryProtection::none());
    assert!(MemoryProtection::none().is_empty());
    assert!(!MemoryProtection::exec().is_empty());
    assert!(read_write().contains(MemoryProtection::write()));
    assert!(!read_write().contains(MemoryProtection::exec()));
    assert!(read_write().contains(MemoryProtection::none()));
}

#[test]
fn page_table_flags_follow_the_protection() {
    let flags = |accessible, writable, execute_disable| PageTableEntryFlags {
        accessible,
        normal: true,
        writable,
        execute_disable,
    };
    assert_eq!(page_table_flags(MemoryProtection::none()), flags(false, false, true));
    assert_eq!(page_table_flags(MemoryProtection::read()), flags(true, false, true));
    assert_eq!(page_table_flags(MemoryProtection::write()), flags(true, true, true));
    assert_eq!(page_table_flags(MemoryProtection::exec()), flags(true, false, false));
    assert_eq!(page_table_flags(MemoryProtection { bits: 7 }), flags(true, true, false));
}

#[test]
fn errors_have_numbers() {
    assert_eq!(Errno::Inval.code(), 22);
    assert_eq!(Errno::Nomem.code(), 12);
}

#[test]
fn mmap_maps_whole_pages() {
    let (mut space, mut frames) = machine();
    let mut ret: usize = 0;
    let (code, mapping) = sys_mmap(&mut space, &mut frames, 0x1001, read_write(), &mut ret);
    assert_eq!(code, 0);
    assert_eq!(ret, PAGES);
    assert_eq!(
        mapping,
        Some(Mapping {
            virtual_address: PAGES,
            physical_address: FRAMES,
            count: 2,
            flags: page_table_flags(read_write()),
        })
    );
    assert_eq!(frames.free_ranges().to_vec(), vec![range(FRAMES + 0x2000, FRAMES + 0x8000)]);
    assert_eq!(mmap(&mut space, &mut frames, 1), PAGES + 0x2000);
}

#[test]
fn mmap_without_protection_reserves_pages_only() {
    let (mut space, mut frames) = machine();
    let mut ret: usize = 0;
    let (code, mapping) =
        sys_mmap(&mut space, &mut frames, 0x1_0000, MemoryProtection::none(), &mut ret);
    assert_eq!((code, mapping, ret), (0, None, PAGES));
    assert_eq!(frames.free_ranges().to_vec(), vec![range(FRAMES, FRAMES + 0x8000)]);
}

#[test]
fn mmap_of_nothing_is_invalid() {
    let (mut space, mut frames) = machine();
    let mut ret: usize = 7;
    let result = sys_mmap(&mut space, &mut frames, 0, read_write(), &mut ret);
    assert_eq!(result, (INVAL, None));
    assert_eq!(ret, 7);
}

#[test]
fn mmap_without_pages_fails() {
    let (mut space, mut frames) = machine();
    let mut ret: usize = 7;
    let result = sys_mmap(&mut space, &mut frames, 0x1_1000, MemoryProtection::none(), &mut ret);
    assert_eq!(result, (NOMEM, None));
    assert_eq!(ret, 7);
}

#[test]
fn mmap_without_frames_gives_the_pages_back() {
    let (mut space, mut frames) = machine();
    let mut ret: usize = 7;
    let result = sys_mmap(&mut space, &mut frames, 0x9000, read_write(), &mut ret);
    assert_eq!(result, (NOMEM, None));
    assert_eq!(ret, 7);
    let result = sys_mmap(&mut space, &mut frames, 0x1_0000, MemoryProtection::none(), &mut ret);
    assert_eq!(result, (0, None));
    assert_eq!(ret, PAGES);
}

#[test]
fn mmap_hands_out_the_highest_addresses() {
    let check = |architecture, page: usize, frame: usize| {
        let mut space = AddressSpace::new(architecture);
        space.deallocate(range(page, page + 0x1000));
        let mut frames = FrameAlloc::new(architecture);
        frames.deallocate(range(frame, frame + 0x1000));
        let mut ret: usize = 0;
        let (code, mapping) = sys_mmap(&mut space, &mut frames, 0x1000, read_write(), &mut ret);
        assert_eq!((code, ret), (0, page));
        let mapping = mapping.unwrap();
        assert_eq!((mapping.virtual_address, mapping.physical_address), (page, frame));
        assert_eq!(sys_munmap(&mut space, ret, 0x1000), (0, Some(range(page, page + 0x1000))));
    };
    let last = usize::MAX - 0x1fff;
    check(Architecture::X86_64, 0x7fff_ffff_f000, (1 << 52) - 0x1000);
    check(Architecture::X86_64, 0xffff_8000_0000_0000, 0x1000);
    check(Architecture::X86_64, last, 0x1000);
    check(Architecture::Aarch64, (1 << 52) - 0x1000, (1 << 56) - 0x1000);
    check(Architecture::Aarch64, 0xfff0_0000_0000_0000, 0x1000);
    check(Architecture::Riscv64, 0x7fff_ffff_f000, (1 << 54) - 0x1000);
    check(Architecture::Riscv64, 0xffff_8000_0000_0000, 0x1000);
}

#[test]
fn mappings_are_disjoint() {
    let (mut space, mut frames) = machine();
    let mut first: usize = 0;
    let mut second: usize = 0;
    let (_, one) = sys_mmap(&mut space, &mut frames, 0x1800, read_write(), &mut first);
    let (_, two) = sys_mmap(&mut space, &mut frames, 0x1000, read_write(), &mut second);
    let frames_of = |mapping: Mapping| {
        range(mapping.physical_address, mapping.physical_address + mapping.count * 0x1000)
    };
    assert_eq!(range(first, first + 0x2000).and(range(second, second + 0x1000)), None);
    assert_eq!(frames_of(one.unwrap()).and(frames_of(two.unwrap())), None);
}

#[test]
fn munmap_undoes_mmap() {
    let (mut space, mut frames) = machine();
    let ptr = mmap(&mut space, &mut frames, 0x2800);
    let (code, unmapped) = sys_munmap(&mut space, ptr, 0x2800);
    assert_eq!((code, unmapped), (0, Some(range(PAGES, PAGES + 0x3000))));
    let translations = vec![Some(FRAMES), Some(FRAMES + 0x1000), Some(FRAMES + 0x2000)];
    assert!(is_releasable(&frames, &translations));
    complete_munmap(&mut space, &mut frames, unmapped.unwrap(), &translations);
    assert_eq!(frames.free_ranges().to_vec(), vec![range(FRAMES, FRAMES + 0x8000)]);
    assert_eq!(mmap(&mut space, &mut frames, 0x8000), PAGES);
}

#[test]
fn repeated_munmap_is_refused() {
    let (mut space, mut frames) = machine();
    let ptr = mmap(&mut space, &mut frames, 0x3000);
    assert_eq!(sys_munmap(&mut space, ptr, 0x2000).0, 0);
    assert_eq!(sys_munmap(&mut space, ptr, 0x2000), (INVAL, None));
    assert_eq!(sys_munmap(&mut space, ptr + 0x1000, 0x2000), (INVAL, None));
    assert_eq!(sys_munmap(&mut space, ptr + 0x2000, 0x1000).0, 0);
}

#[test]
fn stray_munmap_is_refused() {
    let (mut space, mut frames) = machine();
    let ptr = mmap(&mut space, &mut frames, 0x2000);
    // Never mapped, partly mapped, not aligned, and empty.
    assert_eq!(sys_munmap(&mut space, PAGES + 0x8000, 0x1000), (INVAL, None));
    assert_eq!(sys_munmap(&mut space, ptr, 0x3000), (INVAL, None));
    assert_eq!(sys_munmap(&mut space, ptr + 1, 0x1000), (INVAL, None));
    assert_eq!(sys_munmap(&mut space, ptr, 0), (INVAL, None));
    assert_eq!(sys_munmap(&mut space, ptr, 0x2000).0, 0);
}

#[test]
fn munmap_needs_canonical_pages() {
    let mut space = AddressSpace::new(Architecture::Riscv64);
    // A virtual address that is not canonical is never handed out.
    assert_eq!(sys_munmap(&mut space, 0x8000_0000_0000, 0x1000), (INVAL, None));
}

#[test]
fn adjacent_mappings_unmap_together() {
    let (mut space, mut frames) = machine();
    let first = mmap(&mut space, &mut frames, 0x1000);
    let second = mmap(&mut space, &mut frames, 0x2000);
    assert_eq!(second, first + 0x1000);
    let result = sys_munmap(&mut space, first, 0x3000);
    assert_eq!(result, (0, Some(range(first, first + 0x3000))));
}

#[test]
fn part_of_a_mapping_unmaps() {
    let (mut space, mut frames) = machine();
    let ptr = mmap(&mut space, &mut frames, 0x3000);
    let (code, unmapped) = sys_munmap(&mut space, ptr + 0x1000, 0x1000);
    assert_eq!(code, 0);
    let unmapped = unmapped.unwrap();
    complete_munmap(&mut space, &mut frames, unmapped, &vec![Some(FRAMES + 0x1000)]);
    // The whole cannot be unmapped any more, while the hole is free for a new mapping.
    assert_eq!(sys_munmap(&mut space, ptr, 0x3000), (INVAL, None));
    assert_eq!(mmap(&mut space, &mut frames, 0x1000), ptr + 0x1000);
    assert_eq!(sys_munmap(&mut space, ptr, 0x3000).0, 0);
}

#[test]
fn pages_are_conserved() {
    let (mut space, mut frames) = machine();
    let whole = range(PAGES, PAGES + 0x1_0000);
    let ptr = mmap(&mut space, &mut frames, 0x2000);
    let (_, unmapped) = sys_munmap(&mut space, ptr, 0x2000);
    // Between the two steps of an unmap, the pages are neither mapped nor free.
    assert!(!space.overlaps(unmapped.unwrap()));
    complete_munmap(&mut space, &mut frames, unmapped.unwrap(), &vec![None, None]);
    assert!(space.overlaps(unmapped.unwrap()));
    let mut ret: usize = 0;
    let size = whole.end - whole.start;
    let result = sys_mmap(&mut space, &mut frames, size, MemoryProtection::none(), &mut ret);
    assert_eq!((result.0, ret), (0, PAGES));
}

#[test]
fn munmap_frees_frames_page_by_page() {
    let (mut space, mut frames) = machine();
    let ptr = mmap(&mut space, &mut frames, 0x8000);
    let (_, unmapped) = sys_munmap(&mut space, ptr, 0x3000);
    let unmapped = unmapped.unwrap();
    assert_eq!(unmap_target(Architecture::X86_64, unmapped, 0), PAGES);
    assert_eq!(unmap_target(Architecture::X86_64, unmapped, 2), PAGES + 0x2000);
    let translations = vec![Some(FRAMES + 0x4000), None, Some(FRAMES)];
    assert!(is_releasable(&frames, &translations));
    complete_munmap(&mut space, &mut frames, unmapped, &translations);
    assert_eq!(
        frames.free_ranges().to_vec(),
        vec![range(FRAMES, FRAMES + 0x1000), range(FRAMES + 0x4000, FRAMES + 0x5000)]
    );
}

#[test]
fn frames_that_cannot_be_released_are_recognised() {
    let (_, frames) = machine();
    assert!(is_releasable(&frames, &vec![None, Some(0x1000)]));
    // Free already, not aligned, twice the same, and at the end of the address space.
    assert!(!is_releasable(&frames, &vec![Some(FRAMES)]));
    assert!(!is_releasable(&frames, &vec![Some(0x1001)]));
    assert!(!is_releasable(&frames, &vec![Some(0x1000), Some(0x1000)]));
    assert!(!is_releasable(&frames, &vec![Some(usize::MAX - 0xfff)]));
    // Beyond the physical address space.
    assert!(!is_releasable(&frames, &vec![Some(1 << 52)]));
    let arm = FrameAlloc::new(Architecture::Aarch64);
    assert!(is_releasable(&arm, &vec![Some(1 << 52)]));
}

/// The pages and the frames of mappings of one page each.
fn entries(mappings: &[Mapping]) -> Vec<(usize, usize)> {
    assert!(mappings.iter().all(|mapping| mapping.count == 1));
    mappings.iter().map(|mapping| (mapping.virtual_address, mapping.physical_address)).collect()
}

#[test]
fn mprotect_of_mapped_pages_keeps_their_frames() {
    let (_, mut frames) = machine();
    assert_eq!(mprotect_pages(Architecture::X86_64, PAGES, 0x3000), Some(3));
    // The frames do not lie next to each other.
    let translations = vec![Some(0x9000), Some(0x2_0000), Some(0x4000)];
    let (code, mappings) =
        sys_mprotect(&mut frames, PAGES, 0x3000, MemoryProtection::read(), &translations);
    assert_eq!(code, 0);
    assert_eq!(
        entries(&mappings),
        vec![(PAGES, 0x9000), (PAGES + 0x1000, 0x2_0000), (PAGES + 0x2000, 0x4000)]
    );
    let flags = page_table_flags(MemoryProtection::read());
    assert!(mappings.iter().all(|mapping| mapping.flags == flags));
    assert_eq!(frames.free_ranges().to_vec(), vec![range(FRAMES, FRAMES + 0x8000)]);
}

#[test]
fn mprotect_configures_whole_pages() {
    let (_, mut frames) = machine();
    assert_eq!(mprotect_pages(Architecture::X86_64, PAGES, 0x2fff), Some(2));
    let translations = vec![Some(0x9000), Some(0xa000)];
    let (code, mappings) =
        sys_mprotect(&mut frames, PAGES, 0x2fff, read_write(), &translations);
    assert_eq!(code, 0);
    assert_eq!(entries(&mappings), vec![(PAGES, 0x9000), (PAGES + 0x1000, 0xa000)]);
    // Without any whole page, there is nothing to do if the page at the address is mapped.
    assert_eq!(mprotect_pages(Architecture::X86_64, PAGES, 0xfff), Some(1));
    let (code, mappings) =
        sys_mprotect(&mut frames, PAGES, 0xfff, read_write(), &vec![Some(0x9000)]);
    assert_eq!((code, mappings.len()), (0, 0));
}

#[test]
fn mprotect_of_a_mapped_page_serves_whole_pages_of_any_size() {
    let (_, mut frames) = machine();
    let translations = vec![Some(0x9000), None];
    let (code, mappings) =
        sys_mprotect(&mut frames, PAGES, 0x2001, read_write(), &translations);
    assert_eq!(code, 0);
    assert_eq!(entries(&mappings), vec![(PAGES, 0x9000), (PAGES + 0x1000, FRAMES)]);
    assert_eq!(frames.free_ranges().to_vec(), vec![range(FRAMES + 0x1000, FRAMES + 0x8000)]);
}

#[test]
fn mprotect_of_reserved_pages_allocates_frames() {
    let (_, mut frames) = machine();
    let (code, mappings) =
        sys_mprotect(&mut frames, PAGES, 0x3000, read_write(), &vec![None, None, None]);
    assert_eq!(code, 0);
    assert_eq!(
        entries(&mappings),
        vec![
            (PAGES, FRAMES),
            (PAGES + 0x1000, FRAMES + 0x1000),
            (PAGES + 0x2000, FRAMES + 0x2000),
        ]
    );
    assert_eq!(frames.free_ranges().to_vec(), vec![range(FRAMES + 0x3000, FRAMES + 0x8000)]);
}

#[test]
fn mprotect_gives_frames_only_to_pages_without_one() {
    let (_, mut frames) = machine();
    let translations = vec![Some(0x9000), None, Some(0x4000), None];
    let (code, mappings) =
        sys_mprotect(&mut frames, PAGES, 0x4000, read_write(), &translations);
    assert_eq!(code, 0);
    assert_eq!(
        entries(&mappings),
        vec![
            (PAGES, 0x9000),
            (PAGES + 0x1000, FRAMES),
            (PAGES + 0x2000, 0x4000),
            (PAGES + 0x3000, FRAMES + 0x1000),
        ]
    );
    assert_eq!(frames.free_ranges().to_vec(), vec![range(FRAMES + 0x2000, FRAMES + 0x8000)]);
    let after = mappings.iter().map(|mapping| Some(mapping.physical_address)).collect();
    assert!(is_releasable(&frames, &after));
}

#[test]
fn mprotect_without_protection_puts_pages_out_of_reach() {
    let (mut space, mut frames) = machine();
    let ptr = mmap(&mut space, &mut frames, 0x1000);
    let (code, mappings) =
        sys_mprotect(&mut frames, ptr, 0x1000, MemoryProtection::none(), &vec![Some(FRAMES)]);
    assert_eq!(code, 0);
    // The page keeps its frame.
    assert_eq!(entries(&mappings), vec![(ptr, FRAMES)]);
    assert!(!mappings[0].flags.accessible);
    assert!(!mappings[0].flags.writable);
    assert!(mappings[0].flags.execute_disable);
    let (_, unmapped) = sys_munmap(&mut space, ptr, 0x1000);
    complete_munmap(&mut space, &mut frames, unmapped.unwrap(), &vec![Some(FRAMES)]);
    assert_eq!(frames.free_ranges().to_vec(), vec![range(FRAMES, FRAMES + 0x8000)]);
}

#[test]
fn mprotect_without_frames_fails() {
    let (_, mut frames) = machine();
    let (code, mappings) =
        sys_mprotect(&mut frames, PAGES, 0x9000, read_write(), &vec![None; 9]);
    assert_eq!((code, mappings.len()), (NOMEM, 0));
    assert_eq!(frames.free_ranges().to_vec(), vec![range(FRAMES, FRAMES + 0x8000)]);
    // No frames can be had for a region without any page.
    let (code, mappings) = sys_mprotect(&mut frames, PAGES, 0, read_write(), &vec![None]);
    assert_eq!((code, mappings.len()), (NOMEM, 0));
}

#[test]
fn mprotect_of_parts_of_unmapped_pages_is_invalid() {
    let (_, mut frames) = machine();
    let (code, mappings) =
        sys_mprotect(&mut frames, PAGES, 0x1800, read_write(), &vec![None]);
    assert_eq!((code, mappings.len()), (INVAL, 0));
    let (code, mappings) = sys_mprotect(&mut frames, PAGES, 0x800, read_write(), &vec![None]);
    assert_eq!((code, mappings.len()), (INVAL, 0));
    assert_eq!(frames.free_ranges().to_vec(), vec![range(FRAMES, FRAMES + 0x8000)]);
}

#[test]
fn mprotect_of_pages_out_of_the_address_space_is_invalid() {
    let (_, mut frames) = machine();
    assert_eq!(mprotect_pages(Architecture::X86_64, 0x7fff_ffff_f000, 0x1000), Some(1));
    assert_eq!(mprotect_pages(Architecture::X86_64, 0x7fff_ffff_f000, 0x2000), None);
    assert_eq!(mprotect_pages(Architecture::X86_64, 0x8000_0000_0000, 0x1000), None);
    assert_eq!(mprotect_pages(Architecture::X86_64, 0xffff_8000_0000_0000, 0x2000), Some(2));
    assert_eq!(mprotect_pages(Architecture::X86_64, usize::MAX - 0xfff, 0x1000), Some(1));
    assert_eq!(mprotect_pages(Architecture::X86_64, usize::MAX - 0xfff, 0x2000), None);
    assert_eq!(mprotect_pages(Architecture::X86_64, 0x1000, usize::MAX), None);
    assert_eq!(mprotect_pages(Architecture::Riscv64, 0x7fff_ffff_f000, 0x2000), Some(2));
    assert_eq!(mprotect_pages(Architecture::Riscv64, 0xffff_ffff_f000, 0x2000), None);
    assert_eq!(mprotect_pages(Architecture::Aarch64, 0xf_ffff_ffff_f000, 0x1000), Some(1));
    assert_eq!(mprotect_pages(Architecture::Aarch64, 0xf_ffff_ffff_f000, 0x2000), None);
    let (code, mappings) =
        sys_mprotect(&mut frames, 0x7fff_ffff_f000, 0x2000, read_write(), &vec![]);
    assert_eq!((code, mappings.len()), (INVAL, 0));
}

#[test]
fn locking_does_nothing() {
    assert_eq!(sys_mlock(PAGES, 0x1000), 0);
    assert_eq!(sys_munlock(PAGES, 0x1000), 0);
    assert_eq!(sys_mlockall(1), 0);
    assert_eq!(sys_munlockall(1), 0);
}
