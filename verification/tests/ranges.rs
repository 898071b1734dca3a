//! Page ranges, page layouts, lists of free ranges and addresses.
use hermit_kernel::addresses::{
    is_canonical_range, is_physical_address, is_physical_range, is_virtual_address, Architecture,
};
use hermit_kernel::page_range::{InvalidPageLayout, InvalidPageRange, PageLayout, PageRange};
use hermit_kernel::range_list::{AllocError, RangeList};

fn range(start: usize, end: usize) -> PageRange {
    PageRange::new(start, end).unwrap()
}

fn list(ranges: &[(usize, usize)]) -> RangeList {
    let mut list = RangeList::new();
    for &(start, end) in ranges {
        list.deallocate(range(start, end)).unwrap();
    }
    list
}

fn pairs(list: &RangeList) -> Vec<(usize, usize)> {
    list.to_vec().iter().map(|range| (range.start, range.end)).collect()
}

#[test]
fn range_new_accepts_whole_pages_only() {
    assert_eq!(PageRange::new(0x1000, 0x3000), Ok(PageRange { start: 0x1000, end: 0x3000 }));
    assert_eq!(PageRange::new(0, 0x1000), Ok(PageRange { start: 0, end: 0x1000 }));
    assert_eq!(PageRange::new(0x1001, 0x3000), Err(InvalidPageRange));
    assert_eq!(PageRange::new(0x1000, 0x3001), Err(InvalidPageRange));
    assert_eq!(PageRange::new(0x1000, 0x1000), Err(InvalidPageRange));
    assert_eq!(PageRange::new(0x3000, 0x1000), Err(InvalidPageRange));
}

#[test]
fn range_from_start_len_adds_and_rejects_overflow() {
    let range = PageRange::from_start_len(0x5000, 0x2000);
    assert_eq!(range, Ok(PageRange { start: 0x5000, end: 0x7000 }));
    assert_eq!(PageRange::from_start_len(0x5000, 0), Err(InvalidPageRange));
    assert_eq!(PageRange::from_start_len(0x5000, 0x10), Err(InvalidPageRange));
    assert_eq!(
        PageRange::from_start_len(usize::MAX - 0xfff, 0x1000),
        Err(InvalidPageRange)
    );
}

#[test]
fn range_containing_rounds_outwards() {
    let range = PageRange::containing(0x1234, 0x3001);
    assert_eq!(range, Ok(PageRange { start: 0x1000, end: 0x4000 }));
    let aligned = PageRange::containing(0x1000, 0x2000);
    assert_eq!(aligned, Ok(PageRange { start: 0x1000, end: 0x2000 }));
    // An empty range within a page is contained in that page.
    let within = PageRange::containing(0x1800, 0x1800);
    assert_eq!(within, Ok(PageRange { start: 0x1000, end: 0x2000 }));
    assert_eq!(PageRange::containing(0x1000, 0x1000), Err(InvalidPageRange));
    assert_eq!(PageRange::containing(0x1000, usize::MAX), Err(InvalidPageRange));
}

#[test]
fn range_and_is_the_intersection() {
    let a = range(0x1000, 0x5000);
    assert_eq!(a.and(range(0x3000, 0x9000)), Some(range(0x3000, 0x5000)));
    assert_eq!(a.and(range(0x2000, 0x3000)), Some(range(0x2000, 0x3000)));
    assert_eq!(a.and(range(0, 0x9000)), Some(a));
    assert_eq!(a.and(range(0x5000, 0x9000)), None);
    assert_eq!(a.and(range(0, 0x1000)), None);
}

#[test]
fn range_fit_respects_size_and_alignment() {
    let a = range(0x1000, 0x9000);
    let layout = PageLayout::from_size_align(0x2000, 0x4000).unwrap();
    assert_eq!(a.fit(layout), Some(range(0x4000, 0x6000)));
    let exact = PageLayout::from_size(0x8000).unwrap();
    assert_eq!(a.fit(exact), Some(a));
    let large = PageLayout::from_size(0x9000).unwrap();
    assert_eq!(a.fit(large), None);
    let misplaced = PageLayout::from_size_align(0x6000, 0x4000).unwrap();
    assert_eq!(a.fit(misplaced), None);
    let empty = PageLayout::from_size(0).unwrap();
    assert_eq!(a.fit(empty), None);
}

#[test]
fn layouts_are_of_whole_pages() {
    assert_eq!(
        PageLayout::from_size(0x3000),
        Ok(PageLayout { size: 0x3000, align: 0x1000 })
    );
    assert_eq!(
        PageLayout::from_size_align(0x3000, 0x20_0000),
        Ok(PageLayout { size: 0x3000, align: 0x20_0000 })
    );
    assert_eq!(PageLayout::from_size(0x3001), Err(InvalidPageLayout));
    assert_eq!(PageLayout::from_size_align(0x3000, 0x800), Err(InvalidPageLayout));
    assert_eq!(PageLayout::from_size_align(0x3000, 0x3000), Err(InvalidPageLayout));
    assert_eq!(PageLayout::from_size_align(0x3000, 0), Err(InvalidPageLayout));
    assert_eq!(
        PageLayout::from_size(0x8000_0000_0000_0000),
        Err(InvalidPageLayout)
    );
}

#[test]
fn range_text_shows_bounds_length_and_pages() {
    let text = range(0x1000, 0x4000).to_text();
    assert_eq!(
        text,
        "            0x1000..            0x4000 (len =             0x3000, pages =                3)"
    );
}

#[test]
fn deallocate_sorts_and_joins() {
    let mut free = list(&[(0x6000, 0x7000), (0x1000, 0x2000)]);
    assert_eq!(pairs(&free), vec![(0x1000, 0x2000), (0x6000, 0x7000)]);
    free.deallocate(range(0x2000, 0x3000)).unwrap();
    assert_eq!(pairs(&free), vec![(0x1000, 0x3000), (0x6000, 0x7000)]);
    free.deallocate(range(0x5000, 0x6000)).unwrap();
    assert_eq!(pairs(&free), vec![(0x1000, 0x3000), (0x5000, 0x7000)]);
    free.deallocate(range(0x3000, 0x5000)).unwrap();
    assert_eq!(pairs(&free), vec![(0x1000, 0x7000)]);
    free.deallocate(range(0x9000, 0xa000)).unwrap();
    assert_eq!(pairs(&free), vec![(0x1000, 0x7000), (0x9000, 0xa000)]);
}

#[test]
fn deallocate_refuses_what_is_free_already() {
    let mut free = list(&[(0x2000, 0x4000)]);
    assert_eq!(free.deallocate(range(0x3000, 0x5000)), Err(AllocError));
    assert_eq!(free.deallocate(range(0x1000, 0x3000)), Err(AllocError));
    assert_eq!(free.deallocate(range(0x1000, 0x9000)), Err(AllocError));
    assert_eq!(free.deallocate(range(0x2000, 0x4000)), Err(AllocError));
    assert_eq!(pairs(&free), vec![(0x2000, 0x4000)]);
}

#[test]
fn allocate_takes_the_first_fit() {
    let mut free = list(&[(0x1000, 0x2000), (0x4000, 0x8000), (0xa000, 0x10000)]);
    let layout = PageLayout::from_size(0x2000).unwrap();
    assert_eq!(free.allocate(layout), Ok(range(0x4000, 0x6000)));
    assert_eq!(pairs(&free), vec![(0x1000, 0x2000), (0x6000, 0x8000), (0xa000, 0x10000)]);
    let aligned = PageLayout::from_size_align(0x1000, 0x8000).unwrap();
    assert_eq!(free.allocate(aligned), Err(AllocError));
    let aligned = PageLayout::from_size_align(0x1000, 0x4000).unwrap();
    assert_eq!(free.allocate(aligned), Ok(range(0xc000, 0xd000)));
    assert_eq!(
        pairs(&free),
        vec![(0x1000, 0x2000), (0x6000, 0x8000), (0xa000, 0xc000), (0xd000, 0x10000)]
    );
    let large = PageLayout::from_size(0x7000).unwrap();
    assert_eq!(free.allocate(large), Err(AllocError));
}

#[test]
fn allocate_at_needs_all_of_the_range() {
    let mut free = list(&[(0x1000, 0x9000)]);
    assert_eq!(free.allocate_at(range(0x8000, 0xa000)), Err(AllocError));
    assert_eq!(free.allocate_at(range(0x3000, 0x5000)), Ok(()));
    assert_eq!(pairs(&free), vec![(0x1000, 0x3000), (0x5000, 0x9000)]);
    assert_eq!(free.allocate_at(range(0x2000, 0x6000)), Err(AllocError));
    assert_eq!(free.allocate_at(range(0x1000, 0x3000)), Ok(()));
    assert_eq!(free.allocate_at(range(0x5000, 0x6000)), Ok(()));
    assert_eq!(free.allocate_at(range(0x8000, 0x9000)), Ok(()));
    assert_eq!(pairs(&free), vec![(0x6000, 0x8000)]);
}

#[test]
fn allocate_overlap_takes_the_common_part() {
    let mut free = list(&[(0x1000, 0x3000), (0x5000, 0x8000)]);
    let reservation = range(0x2000, 0x6000);
    assert_eq!(free.allocate_overlap(reservation), Ok(range(0x2000, 0x3000)));
    assert_eq!(free.allocate_overlap(reservation), Ok(range(0x5000, 0x6000)));
    assert_eq!(free.allocate_overlap(reservation), Err(AllocError));
    assert_eq!(pairs(&free), vec![(0x1000, 0x2000), (0x6000, 0x8000)]);
}

#[test]
fn release_undoes_allocation() {
    let mut free = list(&[(0x1000, 0x9000), (0xb000, 0xc000)]);
    let before = pairs(&free);
    let layout = PageLayout::from_size_align(0x2000, 0x4000).unwrap();
    let allocated = free.allocate(layout).unwrap();
    assert_eq!(allocated, range(0x4000, 0x6000));
    free.deallocate(allocated).unwrap();
    assert_eq!(pairs(&free), before);
}

#[test]
fn allocation_undoes_release() {
    let mut free = list(&[(0x1000, 0x3000), (0x5000, 0x8000)]);
    let before = pairs(&free);
    free.deallocate(range(0x3000, 0x5000)).unwrap();
    assert_eq!(pairs(&free), vec![(0x1000, 0x8000)]);
    free.allocate_at(range(0x3000, 0x5000)).unwrap();
    assert_eq!(pairs(&free), before);
}

#[test]
fn allocations_are_disjoint_and_accounted_for() {
    let mut free = list(&[(0x1000, 0x4000), (0x6000, 0x8000)]);
    assert_eq!(free.free_space(), 0x5000);
    let layout = PageLayout::from_size(0x2000).unwrap();
    let first = free.allocate(layout).unwrap();
    assert_eq!(free.free_space(), 0x3000);
    let second = free.allocate(layout).unwrap();
    assert_eq!(free.free_space(), 0x1000);
    assert_eq!(first.and(second), None);
    assert_eq!((first, second), (range(0x1000, 0x3000), range(0x6000, 0x8000)));
    assert_eq!(RangeList::new().free_space(), 0);
}

#[test]
fn overlaps_sees_partly_free_ranges() {
    let free = list(&[(0x2000, 0x4000)]);
    assert!(free.overlaps(range(0x3000, 0x5000)));
    assert!(free.overlaps(range(0x1000, 0x9000)));
    assert!(!free.overlaps(range(0x1000, 0x2000)));
    assert!(!free.overlaps(range(0x4000, 0x5000)));
}

#[test]
fn list_text_has_one_range_to_a_line() {
    assert_eq!(RangeList::new().to_text(), "");
    let free = list(&[(0x1000, 0x2000), (0x4000, 0x8000)]);
    let first = range(0x1000, 0x2000).to_text();
    let second = range(0x4000, 0x8000).to_text();
    assert_eq!(free.to_text(), format!("{first}\n{second}"));
    assert_eq!(pairs(&free.clone()), pairs(&free));
}

#[test]
fn virtual_addresses_have_a_lower_and_an_upper_part() {
    let check = |architecture, lower_end: usize, upper_start: usize| {
        assert!(is_virtual_address(architecture, 0));
        assert!(is_virtual_address(architecture, lower_end - 1));
        assert!(!is_virtual_address(architecture, lower_end));
        assert!(!is_virtual_address(architecture, upper_start - 1));
        assert!(is_virtual_address(architecture, upper_start));
        assert!(is_virtual_address(architecture, usize::MAX));
    };
    check(Architecture::X86_64, 0x8000_0000_0000, 0xffff_8000_0000_0000);
    check(Architecture::Aarch64, 0x10_0000_0000_0000, 0xfff0_0000_0000_0000);
    check(Architecture::Riscv64, 0x1_0000_0000_0000, 0xffff_8000_0000_0000);
}

#[test]
fn canonical_ranges_copy_the_sign_bit() {
    let check = |architecture, end: usize, upper_start: usize| {
        assert!(is_canonical_range(architecture, range(0, end)));
        assert!(!is_canonical_range(architecture, range(0, end + 0x1000)));
        assert!(!is_canonical_range(architecture, range(end, end + 0x1000)));
        let last = usize::MAX - 0xfff;
        assert!(is_canonical_range(architecture, range(upper_start, last)));
        assert!(!is_canonical_range(architecture, range(upper_start - 0x1000, last)));
        assert!(!is_canonical_range(architecture, range(0, last)));
    };
    check(Architecture::X86_64, 0x8000_0000_0000, 0xffff_8000_0000_0000);
    check(Architecture::Aarch64, 0x10_0000_0000_0000, 0xfff0_0000_0000_0000);
    // Virtual addresses with the sign bit set in the lower part are not canonical.
    check(Architecture::Riscv64, 0x8000_0000_0000, 0xffff_8000_0000_0000);
}

#[test]
fn physical_addresses_are_limited() {
    let check = |architecture, end: usize| {
        assert!(is_physical_address(architecture, end - 1));
        assert!(!is_physical_address(architecture, end));
        assert!(is_physical_range(architecture, range(0, end)));
        assert!(!is_physical_range(architecture, range(0, end + 0x1000)));
    };
    check(Architecture::X86_64, 1 << 52);
    check(Architecture::Aarch64, 1 << 56);
    check(Architecture::Riscv64, 1 << 54);
}
