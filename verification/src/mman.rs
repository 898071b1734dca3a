//! Memory management system calls.
//!
//! Each call computes what becomes of the free pages, the free frames and the live mappings,
//! and hands back what is to be done with the page tables.
use crate::addresses::{
    is_physical_range, is_virtual_address, lemma_canonical, lemma_truncated, phys_from, virt_add,
    virt_from, virt_is_aligned_to, Architecture,
};
use crate::align::{
    align_up, lemma_page_sizes, lemma_rounding, round_up, BASE_PAGE_SIZE,
};
use crate::page_range::{is_page_layout, PageLayout, PageRange};
use crate::physicalmem::FrameAlloc;
use crate::range_list::{
    canonical, first_fit, lemma_canonical_unique, lemma_first_fit, region, RangeList,
};
use vstd::prelude::*;
use vstd::set_lib::set_int_range;

verus! {

/// What may be done with a memory region: a set of flags.
#[derive(Clone, Copy, Debug, PartialEq, Eq, Structural)]
pub struct MemoryProtection {
    /// The flags, one to a bit: read, write and execute, from the lowest on.
    pub bits: u32,
}

impl Default for MemoryProtection {
    fn default() -> (protection: MemoryProtection)
        ensures
            protection.bits == 0,
    {
        MemoryProtection { bits: 0 }
    }
}

impl MemoryProtection {
    /// Whether the flag for writing is set.
    pub open spec fn writable(self) -> bool {
        self.bits as int / 2 % 2 == 1
    }

    /// Whether the flag for executing is set.
    pub open spec fn executable(self) -> bool {
        self.bits as int / 4 % 2 == 1
    }

    /// Pages may not be accessed.
    pub fn none() -> (protection: MemoryProtection)
        ensures
            protection.bits == 0,
    {
        MemoryProtection { bits: 0 }
    }

    /// Indicates that the memory region should be readable.
    pub fn read() -> (protection: MemoryProtection)
        ensures
            protection.bits == 1,
    {
        MemoryProtection { bits: 1 }
    }

    /// Indicates that the memory region should be writable.
    pub fn write() -> (protection: MemoryProtection)
        ensures
            protection.bits == 2,
    {
        MemoryProtection { bits: 2 }
    }

    /// Indicates that the memory region should be executable.
    pub fn exec() -> (protection: MemoryProtection)
        ensures
            protection.bits == 4,
    {
        MemoryProtection { bits: 4 }
    }

    /// Whether every flag of `other` is set.
    pub fn contains(self, other: MemoryProtection) -> (contains: bool)
        ensures
            contains <==> self.bits & other.bits == other.bits,
    {
        self.bits & other.bits == other.bits
    }

    /// Whether no flag is set.
    pub fn is_empty(self) -> (empty: bool)
        ensures
            empty <==> self.bits == 0,
    {
        self.bits == 0
    }
}

/// How a page is to be mapped.
#[derive(Clone, Copy, Debug, PartialEq, Eq, Structural)]
pub struct PageTableEntryFlags {
    /// The page may be accessed. A page that may not is out of reach, but stays mapped to its
    /// frame, which is freed when the page is unmapped.
    pub accessible: bool,
    /// The page is normal memory.
    pub normal: bool,
    /// The page may be written to.
    pub writable: bool,
    /// The page may not be executed.
    pub execute_disable: bool,
}

/// The errors of the system calls.
#[derive(Clone, Copy, Debug, PartialEq, Eq, Structural)]
pub enum Errno {
    /// Invalid argument.
    Inval,
    /// Out of memory.
    Nomem,
}

impl Errno {
    /// The number of the error.
    pub open spec fn number(self) -> i32 {
        match self {
            Errno::Inval => 22,
            Errno::Nomem => 12,
        }
    }

    /// The number of the error.
    pub fn code(self) -> (code: i32)
        ensures
            code == self.number(),
    {
        match self {
            Errno::Inval => 22,
            Errno::Nomem => 12,
        }
    }
}

/// A range of pages to map to a range of frames.
#[derive(Clone, Copy, Debug, PartialEq, Eq, Structural)]
pub struct Mapping {
    /// The virtual address of the first page.
    pub virtual_address: usize,
    /// The physical address of the first frame.
    pub physical_address: usize,
    /// The number of base pages.
    pub count: usize,
    /// How the pages are to be mapped.
    pub flags: PageTableEntryFlags,
}

/// The virtual address space: the free pages, and the pages handed out by [`sys_mmap`] and not
/// yet returned via [`sys_munmap`].
///
/// [`sys_munmap`] only accepts ranges that are recorded here, so stray or repeated unmaps cannot
/// corrupt the free pages or unmap other mappings. Adjacent ranges coalesce, so one unmap may
/// span several mappings, and an unmap of a part splits the recorded range accordingly.
pub struct AddressSpace {
    architecture: Architecture,
    page_alloc: RangeList,
    mmap_ranges: RangeList,
}

/// How to map pages according to `protection`.
pub open spec fn protection_flags(protection: MemoryProtection) -> PageTableEntryFlags {
    PageTableEntryFlags {
        accessible: protection.bits != 0,
        normal: true,
        writable: protection.writable(),
        execute_disable: !protection.executable(),
    }
}

/// How to map pages according to `prot_flags`: as normal memory, writable and executable only
/// as far as the flags say so, and out of reach if there are no flags at all.
pub fn page_table_flags(prot_flags: MemoryProtection) -> (flags: PageTableEntryFlags)
    ensures
        flags == protection_flags(prot_flags),
        flags.accessible <==> prot_flags.bits > 0,
        flags.normal,
        flags.writable <==> prot_flags.bits & (1u32 << 1) != 0,
        flags.execute_disable <==> prot_flags.bits & (1u32 << 2) == 0,
{
    let mut flags = PageTableEntryFlags {
        accessible: !prot_flags.is_empty(),
        normal: true,
        writable: false,
        execute_disable: false,
    };
    proof {
        let bits = prot_flags.bits;
        law_protection_bits(prot_flags);
        assert(bits & 2 == 2 <==> bits / 2 % 2 == 1) by (bit_vector);
        assert(bits & 4 == 4 <==> bits / 4 % 2 == 1) by (bit_vector);
    }
    if prot_flags.contains(MemoryProtection::write()) {
        flags.writable = true;
    }
    if !prot_flags.contains(MemoryProtection::exec()) {
        flags.execute_disable = true;
    }
    flags
}

impl AddressSpace {
    /// The free pages.
    pub closed spec fn pages(&self) -> Seq<PageRange> {
        self.page_alloc@
    }

    /// The pages of live mappings.
    pub closed spec fn mapped(&self) -> Seq<PageRange> {
        self.mmap_ranges@
    }

    /// The architecture whose virtual addresses the pages have.
    pub closed spec fn architecture(&self) -> Architecture {
        self.architecture
    }

    /// Whether free pages and live mappings are in order and have canonical addresses, and no page
    /// is both.
    pub open spec fn wf(&self) -> bool {
        &&& canonical(self.pages())
        &&& canonical(self.mapped())
        &&& region(self.pages()).disjoint(region(self.mapped()))
        &&& self.architecture().all_canonical(region(self.pages()))
        &&& self.architecture().all_canonical(region(self.mapped()))
    }

    /// An address space without any free page.
    pub fn new(architecture: Architecture) -> (space: AddressSpace)
        ensures
            space.wf(),
            space.architecture() == architecture,
            space.pages() == Seq::<PageRange>::empty(),
            space.mapped() == Seq::<PageRange>::empty(),
    {
        AddressSpace { architecture, page_alloc: RangeList::new(), mmap_ranges: RangeList::new() }
    }

    /// Whether some page of `range` is free or part of a live mapping.
    pub fn overlaps(&self, range: PageRange) -> (overlaps: bool)
        requires
            self.wf(),
            range.wf(),
        ensures
            overlaps <==> !(region(self.pages()).disjoint(range.addresses()) && region(
                self.mapped(),
            ).disjoint(range.addresses())),
    {
        self.page_alloc.overlaps(range) || self.mmap_ranges.overlaps(range)
    }

    /// Makes the pages of `range` free. None of them may be free or mapped.
    pub fn deallocate(&mut self, range: PageRange)
        requires
            old(self).wf(),
            range.wf(),
            region(old(self).pages()).disjoint(range.addresses()),
            region(old(self).mapped()).disjoint(range.addresses()),
            old(self).architecture().all_canonical(range.addresses()),
        ensures
            final(self).wf(),
            final(self).architecture() == old(self).architecture(),
            region(final(self).pages()) == region(old(self).pages()).union(range.addresses()),
            final(self).mapped() == old(self).mapped(),
    {
        self.page_alloc.deallocate(range).unwrap();
    }
}

/// A number of bytes rounded up to whole pages.
pub open spec fn whole_pages(size: usize) -> int {
    round_up(size as int, BASE_PAGE_SIZE as int)
}

/// The layout of `size` bytes of base pages.
pub open spec fn pages_layout(size: int) -> PageLayout {
    PageLayout { size: size as usize, align: BASE_PAGE_SIZE }
}

/// What [`sys_mmap`] allocates: the pages, and the frames unless the memory is only reserved;
/// or with which error it fails.
pub open spec fn mmap_outcome(
    pages: Seq<PageRange>,
    frames: Seq<PageRange>,
    size: usize,
    protection: MemoryProtection,
) -> Result<(PageRange, Option<PageRange>), Errno> {
    let layout = pages_layout(whole_pages(size));
    if whole_pages(size) == 0 {
        Err(Errno::Inval)
    } else {
        match first_fit(pages, layout) {
            None => Err(Errno::Nomem),
            Some(page_range) => if protection.bits == 0 {
                Ok((page_range, None))
            } else {
                match first_fit(frames, layout) {
                    None => Err(Errno::Nomem),
                    Some(frame_range) => Ok((page_range, Some(frame_range))),
                }
            },
        }
    }
}

/// How the pages and the frames that [`sys_mmap`] allocates are to be mapped.
pub open spec fn mmap_mapping(
    page_range: PageRange,
    frame_range: Option<PageRange>,
    protection: MemoryProtection,
) -> Option<Mapping> {
    match frame_range {
        Some(frame_range) => Some(
            Mapping {
                virtual_address: page_range.start,
                physical_address: frame_range.start,
                count: (page_range.len() / (BASE_PAGE_SIZE as int)) as usize,
                flags: protection_flags(protection),
            },
        ),
        None => None,
    }
}

/// The addresses of an optional range.
pub open spec fn optional_addresses(range: Option<PageRange>) -> Set<int> {
    match range {
        Some(range) => range.addresses(),
        None => Set::empty(),
    }
}

/// Whether [`sys_mmap`] has created a mapping at `ptr`: its pages have become live, and it and its
/// frames are no longer free.
pub open spec fn mmapped(
    space: AddressSpace,
    frames: FrameAlloc,
    space_after: AddressSpace,
    frames_after: FrameAlloc,
    size: usize,
    protection: MemoryProtection,
    ptr: usize,
) -> bool {
    &&& mmap_outcome(space.pages(), frames.free(), size, protection) matches Ok(
        (page_range, frame_range),
    )
    &&& ptr == page_range.start
    &&& page_range.wf()
    &&& page_range.len() == whole_pages(size)
    &&& page_range.addresses().subset_of(region(space.pages()))
    &&& frame_range matches Some(frame_range) ==> {
        &&& frame_range.wf()
        &&& frame_range.len() == whole_pages(size)
        &&& frame_range.addresses().subset_of(frames.free_region())
    }
    &&& space_after.wf()
    &&& space_after.architecture() == space.architecture()
    &&& region(space_after.pages()) == region(space.pages()).difference(page_range.addresses())
    &&& region(space_after.mapped()) == region(space.mapped()).union(page_range.addresses())
    &&& frames_after.wf()
    &&& frames_after.architecture() == frames.architecture()
    &&& frames_after.free_region() == frames.free_region().difference(
        optional_addresses(frame_range),
    )
}

/// Creates a new virtual memory mapping of the `size` specified with protection bits specified
/// in `prot_flags`, and stores its address in `ret`.
///
/// Returns 0 and, unless there are no protection bits, the mapping to enter into the page
/// tables; or the negative number of an error. Without any protection bit, only address space
/// is reserved: no frames are allocated and no pages are mapped.
pub fn sys_mmap(
    space: &mut AddressSpace,
    frames: &mut FrameAlloc,
    size: usize,
    prot_flags: MemoryProtection,
    ret: &mut usize,
) -> (result: (i32, Option<Mapping>))
    requires
        old(space).wf(),
        old(frames).wf(),
        whole_pages(size) <= isize::MAX,
    ensures
        final(space).wf(),
        final(space).architecture() == old(space).architecture(),
        final(frames).wf(),
        final(frames).architecture() == old(frames).architecture(),
        final(frames).total() == old(frames).total(),
        match mmap_outcome(old(space).pages(), old(frames).free(), size, prot_flags) {
            Ok((page_range, frame_range)) => {
                &&& result.0 == 0
                &&& result.1 == mmap_mapping(page_range, frame_range, prot_flags)
                &&& mmapped(
                    *old(space),
                    *old(frames),
                    *final(space),
                    *final(frames),
                    size,
                    prot_flags,
                    *final(ret),
                )
            },
            Err(errno) => {
                &&& result.0 == -errno.number()
                &&& result.1 is None
                &&& *final(ret) == *old(ret)
                &&& final(space).pages() == old(space).pages()
                &&& final(space).mapped() == old(space).mapped()
                &&& final(frames).free() == old(frames).free()
            },
        },
{
    proof {
        lemma_page_sizes();
        lemma_rounding(size as int, BASE_PAGE_SIZE as int);
    }
    let ghost requested = size;
    let size: usize = align_up(size, BASE_PAGE_SIZE);
    if size == 0 {
        return (-Errno::Inval.code(), None);
    }
    proof {
        lemma_rounding(size as int, BASE_PAGE_SIZE as int);
    }
    let layout = PageLayout::from_size(size).unwrap();
    let ghost free_pages = space.pages();
    let page_range = match space.page_alloc.allocate(layout) {
        Ok(page_range) => page_range,
        Err(_) => return (-Errno::Nomem.code(), None),
    };
    proof {
        assert(page_range.addresses().contains(page_range.start as int));
    }
    let virtual_address: usize = virt_from(space.architecture, page_range.start);
    let mut mapping: Option<Mapping> = None;
    if !prot_flags.is_empty() {
        let frame_range = match frames.allocate(layout) {
            Ok(frame_range) => frame_range,
            Err(_) => {
                space.page_alloc.deallocate(page_range).unwrap();
                proof {
                    assert(region(space.pages()) =~= region(free_pages));
                    lemma_canonical_unique(space.pages(), free_pages);
                }
                return (-Errno::Nomem.code(), None);
            },
        };
        proof {
            assert(frame_range.addresses().contains(frame_range.start as int));
            lemma_truncated(frames.architecture(), frame_range.start as int);
        }
        let physical_address: usize = phys_from(frames.frame_architecture(), frame_range.start);
        mapping = Some(
            Mapping {
                virtual_address,
                physical_address,
                count: size / BASE_PAGE_SIZE,
                flags: page_table_flags(prot_flags),
            },
        );
    }
    space.mmap_ranges.deallocate(page_range).unwrap();
    *ret = virtual_address;
    proof {
        let frame_range = mmap_outcome(
            old(space).pages(),
            old(frames).free(),
            requested,
            prot_flags,
        )->Ok_0.1;
        assert(frames.free_region() =~= old(frames).free_region().difference(
            optional_addresses(frame_range),
        ));
    }
    (0, mapping)
}

/// The range that [`sys_munmap`] is asked to unmap.
pub open spec fn munmap_range(ptr: usize, size: usize) -> PageRange {
    PageRange { start: ptr, end: (ptr + whole_pages(size)) as usize }
}

/// Whether [`sys_munmap`] accepts its arguments: they denote a non-empty range of whole pages,
/// all of which belong to live mappings.
pub open spec fn munmap_accepted(mapped: Seq<PageRange>, ptr: usize, size: usize) -> bool {
    &&& ptr % BASE_PAGE_SIZE == 0
    &&& whole_pages(size) != 0
    &&& munmap_range(ptr, size).addresses().subset_of(region(mapped))
}

/// Whether [`sys_munmap`] has accepted its arguments, so that the pages are no longer recorded as
/// mapped.
pub open spec fn munmapped(
    space: AddressSpace,
    space_after: AddressSpace,
    ptr: usize,
    size: usize,
) -> bool {
    &&& munmap_accepted(space.mapped(), ptr, size)
    &&& munmap_range(ptr, size).wf()
    &&& region(space.pages()).disjoint(munmap_range(ptr, size).addresses())
    &&& space_after.wf()
    &&& space_after.architecture() == space.architecture()
    &&& space_after.pages() == space.pages()
    &&& region(space_after.mapped()) == region(space.mapped()).difference(
        munmap_range(ptr, size).addresses(),
    )
}

/// Unmaps memory at the specified `ptr` for `size` bytes.
///
/// Returns 0 and the range to unmap, which is no longer recorded as mapped, or the negative
/// number of an error. [`complete_munmap`] makes the pages of the range and their frames free
/// once they have been unmapped.
pub fn sys_munmap(space: &mut AddressSpace, ptr: usize, size: usize) -> (result: (
    i32,
    Option<PageRange>,
))
    requires
        old(space).wf(),
        old(space).architecture().is_virtual(ptr as int),
        ptr % BASE_PAGE_SIZE == 0 ==> ptr + whole_pages(size) <= usize::MAX,
    ensures
        final(space).wf(),
        final(space).architecture() == old(space).architecture(),
        final(space).pages() == old(space).pages(),
        if munmap_accepted(old(space).mapped(), ptr, size) {
            &&& result == (0i32, Some(munmap_range(ptr, size)))
            &&& munmapped(*old(space), *final(space), ptr, size)
        } else {
            &&& result.0 == -Errno::Inval.number()
            &&& result.1 is None
            &&& final(space).mapped() == old(space).mapped()
        },
{
    proof {
        lemma_page_sizes();
        lemma_rounding(size as int, BASE_PAGE_SIZE as int);
    }
    if !virt_is_aligned_to(space.architecture, ptr, BASE_PAGE_SIZE) {
        proof {
            if munmap_accepted(space.mapped(), ptr, size) {
                assert(munmap_range(ptr, size).addresses().contains(ptr as int));
            }
        }
        return (-Errno::Inval.code(), None);
    }
    let size: usize = align_up(size, BASE_PAGE_SIZE);
    if size == 0 {
        return (-Errno::Inval.code(), None);
    }
    let page_range = PageRange::from_start_len(ptr, size).unwrap();
    // Claim the range from the bookkeeping of live mappings. Failure means (part of) the range
    // was not obtained from `sys_mmap`, so unmapping it could free frames or address space owned
    // by someone else.
    if space.mmap_ranges.allocate_at(page_range).is_err() {
        return (-Errno::Inval.code(), None);
    }
    (0, Some(page_range))
}

/// The address of the page at `index` of a range that is being unmapped.
pub fn unmap_target(architecture: Architecture, range: PageRange, index: usize) -> (page_address:
    usize)
    requires
        range.wf(),
        range.start + index * BASE_PAGE_SIZE < range.end,
        architecture.is_virtual(range.start as int),
        architecture.is_virtual(range.start + index * BASE_PAGE_SIZE),
    ensures
        page_address == range.start + index * BASE_PAGE_SIZE,
{
    virt_add(architecture, range.start, index * BASE_PAGE_SIZE)
}

/// The addresses of the frame that a page was mapped to, if it was mapped at all.
pub open spec fn frame_addresses(translation: Option<usize>) -> Set<int> {
    match translation {
        Some(phys) => set_int_range(phys as int, phys + BASE_PAGE_SIZE),
        None => Set::empty(),
    }
}

/// The addresses of the frames that the first `n` pages were mapped to.
pub open spec fn released_frames(translations: Seq<Option<usize>>, n: int) -> Set<int> {
    Set::new(
        |addr: int|
            exists|i: int|
                0 <= i < n && #[trigger] frame_addresses(translations[i]).contains(addr),
    )
}

/// Whether the pages were mapped to frames of their own, none of which is free.
pub open spec fn releasable(
    architecture: Architecture,
    translations: Seq<Option<usize>>,
    free: Seq<PageRange>,
) -> bool {
    &&& forall|i: int|
        0 <= i < translations.len() ==> architecture.all_physical(
            #[trigger] frame_addresses(translations[i]),
        )
    &&& forall|i: int|
        0 <= i < translations.len() && (#[trigger] translations[i]) is Some ==> {
            &&& translations[i]->0 % BASE_PAGE_SIZE == 0
            &&& translations[i]->0 + BASE_PAGE_SIZE <= usize::MAX
        }
    &&& forall|i: int|
        0 <= i < translations.len() ==> region(free).disjoint(
            #[trigger] frame_addresses(translations[i]),
        )
    &&& forall|i: int, j: int|
        0 <= i < j < translations.len() ==> (#[trigger] frame_addresses(translations[i])).disjoint(
            #[trigger] frame_addresses(translations[j]),
        )
}

proof fn lemma_released_next(translations: Seq<Option<usize>>, n: int)
    requires
        0 <= n < translations.len(),
    ensures
        released_frames(translations, n + 1) == released_frames(translations, n).union(
            frame_addresses(translations[n]),
        ),
{
    assert forall|addr: int|
        released_frames(translations, n + 1).contains(addr) <==> released_frames(
            translations,
            n,
        ).union(frame_addresses(translations[n])).contains(addr) by {
        if released_frames(translations, n + 1).contains(addr) {
            let i = choose|i: int|
                0 <= i < n + 1 && #[trigger] frame_addresses(translations[i]).contains(addr);
            if i < n {
                assert(frame_addresses(translations[i]).contains(addr));
            }
        }
        if frame_addresses(translations[n]).contains(addr) {
            assert(0 <= n < n + 1);
        }
    }
    assert(released_frames(translations, n + 1) =~= released_frames(translations, n).union(
        frame_addresses(translations[n]),
    ));
}

/// Whether [`complete_munmap`] can make the frames of these pages free.
pub fn is_releasable(frames: &FrameAlloc, translations: &Vec<Option<usize>>) -> (result: bool)
    requires
        frames.wf(),
    ensures
        result <==> releasable(frames.architecture(), translations@, frames.free()),
{
    let mut scratch = frames.free_ranges();
    let mut index: usize = 0;
    assert(region(scratch@) =~= frames.free_region().union(released_frames(translations@, 0)));
    while index < translations.len()
        invariant
            frames.wf(),
            scratch.wf(),
            0 <= index <= translations@.len(),
            region(scratch@) == frames.free_region().union(
                released_frames(translations@, index as int),
            ),
            forall|i: int|
                0 <= i < index ==> frames.architecture().all_physical(
                    #[trigger] frame_addresses(translations@[i]),
                ),
            forall|i: int|
                0 <= i < index && (#[trigger] translations@[i]) is Some ==> {
                    &&& translations@[i]->0 % BASE_PAGE_SIZE == 0
                    &&& translations@[i]->0 + BASE_PAGE_SIZE <= usize::MAX
                },
            forall|i: int|
                0 <= i < index ==> frames.free_region().disjoint(
                    #[trigger] frame_addresses(translations@[i]),
                ),
            forall|i: int, j: int|
                0 <= i < j < index ==> (#[trigger] frame_addresses(translations@[i])).disjoint(
                    #[trigger] frame_addresses(translations@[j]),
                ),
        decreases translations@.len() - index,
    {
        let ghost frame = frame_addresses(translations@[index as int]);
        let ghost before = region(scratch@);
        if let Some(phys) = translations[index] {
            let range = match PageRange::from_start_len(phys, BASE_PAGE_SIZE) {
                Ok(range) => range,
                Err(_) => {
                    assert(translations@[index as int] == Some(phys));
                    return false;
                },
            };
            assert(frame =~= range.addresses());
            if !is_physical_range(frames.frame_architecture(), range) {
                assert(!frames.architecture().all_physical(
                    frame_addresses(translations@[index as int]),
                ));
                return false;
            }
            if scratch.overlaps(range) {
                proof {
                    let addr = choose|addr: int|
                        before.contains(addr) && range.addresses().contains(addr);
                    assert(frame.contains(addr));
                    if released_frames(translations@, index as int).contains(addr) {
                        let i = choose|i: int|
                            0 <= i < index && #[trigger] frame_addresses(
                                translations@[i],
                            ).contains(addr);
                        assert(!frame_addresses(translations@[i]).disjoint(
                            frame_addresses(translations@[index as int]),
                        ));
                    } else {
                        assert(!frames.free_region().disjoint(
                            frame_addresses(translations@[index as int]),
                        ));
                    }
                    assert(!releasable(frames.architecture(), translations@, frames.free()));
                }
                return false;
            }
            scratch.deallocate(range).unwrap();
        }
        proof {
            assert(before.disjoint(frame));
            assert(region(scratch@) =~= before.union(frame));
            assert forall|i: int| 0 <= i < index implies (#[trigger] frame_addresses(
                translations@[i],
            )).disjoint(frame) by {
                assert forall|addr: int| frame_addresses(translations@[i]).contains(
                    addr,
                ) implies !frame.contains(addr) by {
                    assert(released_frames(translations@, index as int).contains(addr));
                    assert(before.contains(addr));
                }
            }
            assert(frames.free_region().disjoint(frame)) by {
                assert forall|addr: int| frames.free_region().contains(
                    addr,
                ) implies !frame.contains(addr) by {
                    assert(before.contains(addr));
                }
            }
            lemma_released_next(translations@, index as int);
            assert(region(scratch@) =~= frames.free_region().union(
                released_frames(translations@, index + 1),
            ));
        }
        index += 1;
    }
    true
}

/// Whether [`complete_munmap`] has made the pages of `range` and their frames free.
pub open spec fn completed(
    space: AddressSpace,
    frames: FrameAlloc,
    space_after: AddressSpace,
    frames_after: FrameAlloc,
    range: PageRange,
    translations: Seq<Option<usize>>,
) -> bool {
    &&& space_after.wf()
    &&& space_after.architecture() == space.architecture()
    &&& region(space_after.pages()) == region(space.pages()).union(range.addresses())
    &&& space_after.mapped() == space.mapped()
    &&& frames_after.wf()
    &&& frames_after.architecture() == frames.architecture()
    &&& frames_after.free_region() == frames.free_region().union(
        released_frames(translations, translations.len() as int),
    )
}

/// Completes an unmap: makes the frames that the pages of `range` were mapped to free, and
/// then the pages themselves.
///
/// `translations` holds the frame of each page of the range in turn, as far as there was one:
/// the range may be backed by frames that were allocated piecewise, and pages that were only
/// reserved have none.
pub fn complete_munmap(
    space: &mut AddressSpace,
    frames: &mut FrameAlloc,
    range: PageRange,
    translations: &Vec<Option<usize>>,
)
    requires
        old(space).wf(),
        old(frames).wf(),
        range.wf(),
        region(old(space).pages()).disjoint(range.addresses()),
        region(old(space).mapped()).disjoint(range.addresses()),
        old(space).architecture().all_canonical(range.addresses()),
        translations@.len() * BASE_PAGE_SIZE == range.len(),
        releasable(old(frames).architecture(), translations@, old(frames).free()),
    ensures
        final(frames).total() == old(frames).total(),
        completed(
            *old(space),
            *old(frames),
            *final(space),
            *final(frames),
            range,
            translations@,
        ),
{
    let ghost free = frames.free();
    let mut index: usize = 0;
    assert(frames.free_region() =~= region(free).union(released_frames(translations@, 0)));
    while index < translations.len()
        invariant
            frames.wf(),
            frames.total() == old(frames).total(),
            frames.architecture() == old(frames).architecture(),
            0 <= index <= translations@.len(),
            releasable(frames.architecture(), translations@, free),
            frames.free_region() == region(free).union(
                released_frames(translations@, index as int),
            ),
        decreases translations@.len() - index,
    {
        let ghost frame = frame_addresses(translations@[index as int]);
        let ghost before = frames.free_region();
        proof {
            assert(region(free).disjoint(frame));
            assert forall|addr: int| before.contains(addr) implies !frame.contains(addr) by {
                if released_frames(translations@, index as int).contains(addr) {
                    let i = choose|i: int|
                        0 <= i < index && #[trigger] frame_addresses(translations@[i]).contains(
                            addr,
                        );
                    assert(frame_addresses(translations@[i]).disjoint(
                        frame_addresses(translations@[index as int]),
                    ));
                }
            }
            assert(before.disjoint(frame));
        }
        if let Some(phys) = translations[index] {
            assert(translations@[index as int] == Some(phys));
            let frame_range = PageRange::from_start_len(phys, BASE_PAGE_SIZE).unwrap();
            assert(frame_range.addresses() =~= frame);
            assert(frames.architecture().all_physical(
                frame_addresses(translations@[index as int]),
            ));
            frames.deallocate(frame_range);
        }
        proof {
            assert(frames.free_region() =~= before.union(frame));
            lemma_released_next(translations@, index as int);
            assert(frames.free_region() =~= region(free).union(
                released_frames(translations@, index + 1),
            ));
        }
        index += 1;
    }
    space.deallocate(range);
}

/// The number of whole pages that [`sys_mprotect`] configures.
pub open spec fn page_count(size: usize) -> int {
    size as int / BASE_PAGE_SIZE as int
}

/// The number of pages that [`sys_mprotect`] has to know the frames of: those that it configures,
/// or the page at its address if there are none.
pub open spec fn lookup_count(size: usize) -> int {
    if page_count(size) == 0 {
        1
    } else {
        page_count(size)
    }
}

/// The address of the page at `index` of those that [`sys_mprotect`] configures.
pub open spec fn page_address(ptr: usize, index: int) -> int {
    ptr + index * BASE_PAGE_SIZE
}

/// Whether there is a page at `ptr`, and all the pages that [`sys_mprotect`] configures.
pub open spec fn pages_in_reach(architecture: Architecture, ptr: usize, size: usize) -> bool {
    &&& architecture.is_virtual(ptr as int)
    &&& forall|i: int|
        0 <= i < page_count(size) ==> {
            &&& #[trigger] page_address(ptr, i) <= usize::MAX
            &&& architecture.is_virtual(page_address(ptr, i))
        }
}

/// The number of pages without a frame among the first `n`.
pub open spec fn missing(translations: Seq<Option<usize>>, n: int) -> int
    decreases n,
{
    if n <= 0 {
        0
    } else {
        missing(translations, n - 1) + (if translations[n - 1] is None {
            1int
        } else {
            0
        })
    }
}

/// What [`sys_mprotect`] allocates: one range with a frame for each page that has none, if there
/// are such pages; or with which error it fails.
pub open spec fn mprotect_outcome(
    architecture: Architecture,
    free: Seq<PageRange>,
    ptr: usize,
    size: usize,
    translations: Seq<Option<usize>>,
) -> Result<Option<PageRange>, Errno> {
    let bytes = missing(translations, page_count(size)) * BASE_PAGE_SIZE;
    if !pages_in_reach(architecture, ptr, size) {
        Err(Errno::Inval)
    } else if missing(translations, lookup_count(size)) == 0 {
        Ok(None)
    } else if translations[0] is None && !is_page_layout(size as int, BASE_PAGE_SIZE as int) {
        Err(Errno::Inval)
    } else if !is_page_layout(bytes, BASE_PAGE_SIZE as int) {
        Err(Errno::Nomem)
    } else {
        match first_fit(free, pages_layout(bytes)) {
            Some(frame_range) => Ok(Some(frame_range)),
            None => Err(Errno::Nomem),
        }
    }
}

/// The frame of the page at `index` once it is configured: the one that it had, or else the next
/// one of `frame_range`.
pub open spec fn mprotect_frame(
    translations: Seq<Option<usize>>,
    frame_range: Option<PageRange>,
    index: int,
) -> usize {
    match translations[index] {
        Some(phys) => phys,
        None => (frame_range->0.start + missing(translations, index) * BASE_PAGE_SIZE) as usize,
    }
}

/// The number of pages without a frame is no more than that of pages, and grows with it.
proof fn lemma_missing(translations: Seq<Option<usize>>, m: int, n: int)
    requires
        0 <= m <= n,
    ensures
        0 <= missing(translations, m) <= missing(translations, n) <= n,
        m < n && translations[m] is None ==> missing(translations, m) < missing(translations, n),
        missing(translations, n) == 0 <==> forall|i: int|
            0 <= i < n ==> (#[trigger] translations[i]) is Some,
    decreases n,
{
    if 0 < n {
        if m < n {
            lemma_missing(translations, m, n - 1);
        } else {
            lemma_missing(translations, n - 1, n - 1);
        }
        if missing(translations, n) == 0 {
            assert forall|i: int| 0 <= i < n implies (#[trigger] translations[i]) is Some by {
                if i == n - 1 {
                    assert(translations[n - 1] is Some);
                }
            }
        } else if missing(translations, n - 1) == 0 {
            assert(translations[n - 1] is None);
        } else {
            let i = choose|i: int| 0 <= i < n - 1 && (#[trigger] translations[i]) is None;
            assert(translations[i] is None);
        }
    }
}

/// The number of pages whose frames [`sys_mprotect`] has to know, or `None` if some of the pages
/// that it is asked to configure do not exist.
pub fn mprotect_pages(architecture: Architecture, ptr: usize, size: usize) -> (pages: Option<usize>)
    ensures
        pages == (if pages_in_reach(architecture, ptr, size) {
            Some(lookup_count(size) as usize)
        } else {
            None
        }),
{
    let count: usize = size / BASE_PAGE_SIZE;
    if !is_virtual_address(architecture, ptr) {
        return None;
    }
    if count == 0 {
        return Some(1);
    }
    let offset: usize = (count - 1) * BASE_PAGE_SIZE;
    assert(page_address(ptr, count - 1) == ptr + offset);
    if offset > usize::MAX - ptr {
        return None;
    }
    let last: usize = ptr + offset;
    let lower_end: u64 = match architecture {
        Architecture::Aarch64 => 0x10_0000_0000_0000,
        Architecture::Riscv64 => 0x1_0000_0000_0000,
        Architecture::X86_64 => 0x8000_0000_0000,
    };
    assert(lower_end == architecture.lower_end());
    if (ptr as u64) < lower_end && last as u64 >= lower_end {
        proof {
            // The first page beyond the lower part of the address space.
            let i = (lower_end - ptr + 0xfff) / 0x1000;
            assert(lower_end <= page_address(ptr, i) < lower_end + 0x1000);
            assert(i < count);
            assert(!architecture.is_virtual(page_address(ptr, i)));
        }
        return None;
    }
    proof {
        assert forall|i: int| 0 <= i < page_count(size) implies {
            &&& #[trigger] page_address(ptr, i) <= usize::MAX
            &&& architecture.is_virtual(page_address(ptr, i))
        } by {
            assert(ptr <= page_address(ptr, i) <= last);
        }
    }
    Some(count)
}

/// The number of pages without a frame.
fn count_missing(translations: &Vec<Option<usize>>) -> (count: usize)
    ensures
        count == missing(translations@, translations@.len() as int),
{
    let mut count: usize = 0;
    let mut index: usize = 0;
    while index < translations.len()
        invariant
            0 <= index <= translations@.len(),
            count == missing(translations@, index as int),
            count <= index,
        decreases translations@.len() - index,
    {
        if translations[index].is_none() {
            count += 1;
        }
        index += 1;
    }
    count
}

/// Configures the protections associated with a region of virtual memory starting at `ptr` and
/// going to `size`.
///
/// `translations` holds the frame of each page of the region in turn, as far as there is one: the
/// pages may be backed by frames that were allocated piecewise. Each page keeps its frame, and
/// those without one get one of their own. A part of a page at the end of the region is left as it
/// is; [`mprotect_pages`] tells how many pages there are to look up.
///
/// Returns 0 and how the pages are to be mapped, one by one, or the negative number of an error
/// and nothing to map: [`Errno::Inval`] if some page does not exist, or if the page at `ptr` has no
/// frame and `size` is not of whole pages; [`Errno::Nomem`] if there are not enough frames.
pub fn sys_mprotect(
    frames: &mut FrameAlloc,
    ptr: usize,
    size: usize,
    prot_flags: MemoryProtection,
    translations: &Vec<Option<usize>>,
) -> (result: (i32, Vec<Mapping>))
    requires
        old(frames).wf(),
        pages_in_reach(old(frames).architecture(), ptr, size) ==> translations@.len()
            == lookup_count(size),
    ensures
        final(frames).wf(),
        final(frames).architecture() == old(frames).architecture(),
        final(frames).total() == old(frames).total(),
        match mprotect_outcome(
            old(frames).architecture(),
            old(frames).free(),
            ptr,
            size,
            translations@,
        ) {
            Ok(frame_range) => {
                &&& result.0 == 0
                &&& result.1@.len() == page_count(size)
                &&& forall|i: int|
                    0 <= i < page_count(size) ==> #[trigger] result.1@[i] == (Mapping {
                        virtual_address: page_address(ptr, i) as usize,
                        physical_address: mprotect_frame(translations@, frame_range, i),
                        count: 1,
                        flags: protection_flags(prot_flags),
                    })
                &&& match frame_range {
                    Some(frame_range) => {
                        &&& frame_range.wf()
                        &&& frame_range.len() == missing(translations@, page_count(size))
                            * BASE_PAGE_SIZE
                        &&& frame_range.addresses().subset_of(old(frames).free_region())
                        &&& final(frames).free_region() == old(frames).free_region().difference(
                            frame_range.addresses(),
                        )
                    },
                    None => final(frames).free() == old(frames).free(),
                }
            },
            Err(errno) => {
                &&& result.0 == -errno.number()
                &&& result.1@.len() == 0
                &&& final(frames).free() == old(frames).free()
            },
        },
{
    let architecture = frames.frame_architecture();
    if mprotect_pages(architecture, ptr, size).is_none() {
        return (-Errno::Inval.code(), Vec::new());
    }
    let count: usize = size / BASE_PAGE_SIZE;
    let flags = page_table_flags(prot_flags);
    let needed: usize = count_missing(translations);
    let ghost outcome = mprotect_outcome(architecture, frames.free(), ptr, size, translations@);
    let mut first_frame: usize = 0;
    proof {
        lemma_missing(translations@, count as int, translations@.len() as int);
    }
    if needed > 0 {
        if translations[0].is_none() && PageLayout::from_size(size).is_err() {
            return (-Errno::Inval.code(), Vec::new());
        }
        let bytes: usize = if count == 0 {
            0
        } else {
            needed * BASE_PAGE_SIZE
        };
        let frame_layout = match PageLayout::from_size(bytes) {
            Ok(frame_layout) => frame_layout,
            Err(_) => return (-Errno::Nomem.code(), Vec::new()),
        };
        match frames.allocate(frame_layout) {
            Ok(frame_range) => {
                first_frame = frame_range.start;
                proof {
                    assert forall|addr: int| #[trigger] frame_range.addresses().contains(
                        addr,
                    ) implies architecture.is_physical(addr) by {
                        assert(old(frames).free_region().contains(addr));
                    }
                }
            },
            Err(_) => return (-Errno::Nomem.code(), Vec::new()),
        }
    }
    let ghost frame_range = outcome->Ok_0;
    let mut mappings: Vec<Mapping> = Vec::new();
    let mut used: usize = 0;
    let mut index: usize = 0;
    while index < count
        invariant
            count == page_count(size),
            translations@.len() == count || count == 0,
            pages_in_reach(architecture, ptr, size),
            flags == protection_flags(prot_flags),
            0 <= index <= count,
            used == missing(translations@, index as int),
            frame_range is None ==> missing(translations@, count as int) == 0,
            frame_range matches Some(frame_range) ==> {
                &&& frame_range.start == first_frame
                &&& architecture.all_physical(frame_range.addresses())
                &&& frame_range.len() == missing(translations@, count as int) * BASE_PAGE_SIZE
            },
            mappings@.len() == index,
            forall|i: int|
                0 <= i < index ==> #[trigger] mappings@[i] == (Mapping {
                    virtual_address: page_address(ptr, i) as usize,
                    physical_address: mprotect_frame(translations@, frame_range, i),
                    count: 1,
                    flags: protection_flags(prot_flags),
                }),
        decreases count - index,
    {
        proof {
            lemma_missing(translations@, index as int, count as int);
            assert(page_address(ptr, index as int) <= usize::MAX);
            assert(page_address(ptr, 0) == ptr);
        }
        let physical_address: usize = match translations[index] {
            Some(physical_address) => physical_address,
            None => {
                let frame: usize = first_frame + used * BASE_PAGE_SIZE;
                proof {
                    assert(frame_range->0.addresses().contains(frame as int));
                    lemma_truncated(architecture, frame as int);
                }
                let phys: usize = phys_from(architecture, frame);
                used += 1;
                phys
            },
        };
        let virtual_address: usize = virt_add(architecture, ptr, index * BASE_PAGE_SIZE);
        mappings.push(Mapping { virtual_address, physical_address, count: 1, flags });
        index += 1;
    }
    (0, mappings)
}

/// Locks memory. There is no swapping, so there is nothing to do.
pub fn sys_mlock(_addr: usize, _size: usize) -> (result: i32)
    ensures
        result == 0,
{
    0
}

/// Unlocks memory. There is no swapping, so there is nothing to do.
pub fn sys_munlock(_addr: usize, _size: usize) -> (result: i32)
    ensures
        result == 0,
{
    0
}

/// Locks all memory. There is no swapping, so there is nothing to do.
pub fn sys_mlockall(_flags: i32) -> (result: i32)
    ensures
        result == 0,
{
    0
}

/// Unlocks all memory. There is no swapping, so there is nothing to do.
pub fn sys_munlockall(_flags: i32) -> (result: i32)
    ensures
        result == 0,
{
    0
}

/// What [`sys_mmap`] has mapped can be unmapped with the address that it handed out and the size of
/// the mapping.
pub proof fn law_mapping_can_be_unmapped(
    space: AddressSpace,
    frames: FrameAlloc,
    space_after: AddressSpace,
    frames_after: FrameAlloc,
    size: usize,
    protection: MemoryProtection,
    ptr: usize,
)
    requires
        space.wf(),
        mmapped(space, frames, space_after, frames_after, size, protection, ptr),
    ensures
        space_after.architecture().is_virtual(ptr as int),
        ptr + whole_pages(size) <= usize::MAX,
        munmap_accepted(space_after.mapped(), ptr, size),
{
    assert(munmap_range(ptr, size).addresses().contains(ptr as int));
    lemma_canonical(space.architecture(), ptr as int);
}

/// A live mapping is never handed out again: whatever is mapped next has other addresses and other
/// frames, and leaves the mapping live.
pub proof fn law_live_mappings_are_not_handed_out_again(
    space: AddressSpace,
    frames: FrameAlloc,
    space_after: AddressSpace,
    frames_after: FrameAlloc,
    size: usize,
    protection: MemoryProtection,
    ptr: usize,
    live: PageRange,
    live_frames: Option<PageRange>,
)
    requires
        space.wf(),
        mmapped(space, frames, space_after, frames_after, size, protection, ptr),
        live.addresses().subset_of(region(space.mapped())),
        frames.free_region().disjoint(optional_addresses(live_frames)),
    ensures
        munmap_range(ptr, size).addresses().disjoint(live.addresses()),
        optional_addresses(
            mmap_outcome(space.pages(), frames.free(), size, protection)->Ok_0.1,
        ).disjoint(optional_addresses(live_frames)),
        live.addresses().subset_of(region(space_after.mapped())),
        frames_after.free_region().disjoint(optional_addresses(live_frames)),
{
}

/// Two mappings have neither addresses nor frames in common.
pub proof fn law_mappings_are_disjoint(
    space: AddressSpace,
    frames: FrameAlloc,
    first_space: AddressSpace,
    first_frames: FrameAlloc,
    second_space: AddressSpace,
    second_frames: FrameAlloc,
    first_size: usize,
    first_protection: MemoryProtection,
    first_ptr: usize,
    second_size: usize,
    second_protection: MemoryProtection,
    second_ptr: usize,
)
    requires
        space.wf(),
        mmapped(
            space,
            frames,
            first_space,
            first_frames,
            first_size,
            first_protection,
            first_ptr,
        ),
        mmapped(
            first_space,
            first_frames,
            second_space,
            second_frames,
            second_size,
            second_protection,
            second_ptr,
        ),
    ensures
        munmap_range(first_ptr, first_size).addresses().disjoint(
            munmap_range(second_ptr, second_size).addresses(),
        ),
        optional_addresses(
            mmap_outcome(
                space.pages(),
                frames.free(),
                first_size,
                first_protection,
            )->Ok_0.1,
        ).disjoint(
            optional_addresses(
                mmap_outcome(
                    first_space.pages(),
                    first_frames.free(),
                    second_size,
                    second_protection,
                )->Ok_0.1,
            ),
        ),
        munmap_accepted(second_space.mapped(), first_ptr, first_size),
        munmap_accepted(second_space.mapped(), second_ptr, second_size),
{
    law_mapping_can_be_unmapped(
        space,
        frames,
        first_space,
        first_frames,
        first_size,
        first_protection,
        first_ptr,
    );
    law_mapping_can_be_unmapped(
        first_space,
        first_frames,
        second_space,
        second_frames,
        second_size,
        second_protection,
        second_ptr,
    );
    law_live_mappings_are_not_handed_out_again(
        first_space,
        first_frames,
        second_space,
        second_frames,
        second_size,
        second_protection,
        second_ptr,
        munmap_range(first_ptr, first_size),
        mmap_outcome(space.pages(), frames.free(), first_size, first_protection)->Ok_0.1,
    );
}

/// What has been unmapped cannot be unmapped again, not even in part.
pub proof fn law_repeated_munmap_is_refused(
    space: AddressSpace,
    space_after: AddressSpace,
    unmapped_ptr: usize,
    unmapped_size: usize,
    ptr: usize,
    size: usize,
)
    requires
        munmapped(space, space_after, unmapped_ptr, unmapped_size),
        !munmap_range(ptr, size).addresses().disjoint(
            munmap_range(unmapped_ptr, unmapped_size).addresses(),
        ),
    ensures
        !munmap_accepted(space_after.mapped(), ptr, size),
{
    let addr = choose|addr: int|
        munmap_range(ptr, size).addresses().contains(addr) && munmap_range(
            unmapped_ptr,
            unmapped_size,
        ).addresses().contains(addr);
    assert(!region(space_after.mapped()).contains(addr));
}

/// One unmap may span adjacent live mappings, in whichever order they were made.
pub proof fn law_live_neighbours_unmap_together(
    space: AddressSpace,
    lower_ptr: usize,
    lower_size: usize,
    upper_ptr: usize,
    upper_size: usize,
    size: usize,
)
    requires
        munmap_accepted(space.mapped(), lower_ptr, lower_size),
        munmap_accepted(space.mapped(), upper_ptr, upper_size),
        lower_ptr + whole_pages(lower_size) == upper_ptr,
        upper_ptr + whole_pages(upper_size) <= usize::MAX,
        whole_pages(size) == whole_pages(lower_size) + whole_pages(upper_size),
    ensures
        lower_ptr + whole_pages(size) <= usize::MAX,
        munmap_accepted(space.mapped(), lower_ptr, size),
        munmap_range(lower_ptr, size).addresses() == munmap_range(
            lower_ptr,
            lower_size,
        ).addresses().union(munmap_range(upper_ptr, upper_size).addresses()),
{
    lemma_rounding(lower_size as int, BASE_PAGE_SIZE as int);
    lemma_rounding(upper_size as int, BASE_PAGE_SIZE as int);
    assert(munmap_range(lower_ptr, size).addresses() =~= munmap_range(
        lower_ptr,
        lower_size,
    ).addresses().union(munmap_range(upper_ptr, upper_size).addresses()));
}

/// One unmap may span two mappings that lie next to each other, with the addresses that
/// [`sys_mmap`] handed out, in either order.
pub proof fn law_adjacent_mappings_unmap_together(
    space: AddressSpace,
    frames: FrameAlloc,
    first_space: AddressSpace,
    first_frames: FrameAlloc,
    second_space: AddressSpace,
    second_frames: FrameAlloc,
    first_size: usize,
    first_protection: MemoryProtection,
    first_ptr: usize,
    second_size: usize,
    second_protection: MemoryProtection,
    second_ptr: usize,
    size: usize,
)
    requires
        space.wf(),
        mmapped(
            space,
            frames,
            first_space,
            first_frames,
            first_size,
            first_protection,
            first_ptr,
        ),
        mmapped(
            first_space,
            first_frames,
            second_space,
            second_frames,
            second_size,
            second_protection,
            second_ptr,
        ),
        whole_pages(size) == whole_pages(first_size) + whole_pages(second_size),
    ensures
        first_ptr + whole_pages(first_size) == second_ptr ==> munmap_accepted(
            second_space.mapped(),
            first_ptr,
            size,
        ) && munmap_range(first_ptr, size).addresses() == munmap_range(
            first_ptr,
            first_size,
        ).addresses().union(munmap_range(second_ptr, second_size).addresses()),
        second_ptr + whole_pages(second_size) == first_ptr ==> munmap_accepted(
            second_space.mapped(),
            second_ptr,
            size,
        ) && munmap_range(second_ptr, size).addresses() == munmap_range(
            second_ptr,
            second_size,
        ).addresses().union(munmap_range(first_ptr, first_size).addresses()),
{
    law_mappings_are_disjoint(
        space,
        frames,
        first_space,
        first_frames,
        second_space,
        second_frames,
        first_size,
        first_protection,
        first_ptr,
        second_size,
        second_protection,
        second_ptr,
    );
    if first_ptr + whole_pages(first_size) == second_ptr {
        law_live_neighbours_unmap_together(
            second_space,
            first_ptr,
            first_size,
            second_ptr,
            second_size,
            size,
        );
    }
    if second_ptr + whole_pages(second_size) == first_ptr {
        law_live_neighbours_unmap_together(
            second_space,
            second_ptr,
            second_size,
            first_ptr,
            first_size,
            size,
        );
    }
}

/// Any part of a mapping that consists of whole pages can be unmapped.
pub proof fn law_part_of_a_mapping_unmaps(
    space: AddressSpace,
    frames: FrameAlloc,
    space_after: AddressSpace,
    frames_after: FrameAlloc,
    size: usize,
    protection: MemoryProtection,
    ptr: usize,
    part_ptr: usize,
    part_size: usize,
)
    requires
        space.wf(),
        mmapped(space, frames, space_after, frames_after, size, protection, ptr),
        part_ptr % BASE_PAGE_SIZE == 0,
        0 < whole_pages(part_size),
        ptr <= part_ptr,
        part_ptr + whole_pages(part_size) <= ptr + whole_pages(size),
    ensures
        space_after.architecture().is_virtual(part_ptr as int),
        part_ptr + whole_pages(part_size) <= usize::MAX,
        munmap_accepted(space_after.mapped(), part_ptr, part_size),
{
    assert(munmap_range(ptr, size).addresses().contains(part_ptr as int));
    lemma_canonical(space.architecture(), part_ptr as int);
}

/// An unmap of a part splits the mapping: the whole cannot be unmapped any more, and any part that
/// is left can be, and stays live until it is.
pub proof fn law_rest_of_a_mapping_stays_live(
    space: AddressSpace,
    space_after: AddressSpace,
    ptr: usize,
    size: usize,
    part_ptr: usize,
    part_size: usize,
    rest_ptr: usize,
    rest_size: usize,
)
    requires
        munmap_accepted(space.mapped(), ptr, size),
        munmap_range(ptr, size).contains(munmap_range(part_ptr, part_size)),
        munmapped(space, space_after, part_ptr, part_size),
        rest_ptr % BASE_PAGE_SIZE == 0,
        0 < whole_pages(rest_size),
        munmap_range(ptr, size).contains(munmap_range(rest_ptr, rest_size)),
        munmap_range(rest_ptr, rest_size).addresses().disjoint(
            munmap_range(part_ptr, part_size).addresses(),
        ),
    ensures
        !munmap_accepted(space_after.mapped(), ptr, size),
        munmap_accepted(space_after.mapped(), rest_ptr, rest_size),
{
    let part = munmap_range(part_ptr, part_size);
    assert(part.addresses().contains(part_ptr as int));
    assert(munmap_range(ptr, size).addresses().contains(part_ptr as int));
    law_repeated_munmap_is_refused(space, space_after, part_ptr, part_size, ptr, size);
}

/// Once an unmap has been completed, its pages are free and no longer live.
pub proof fn law_unmapped_pages_are_free(
    space: AddressSpace,
    frames: FrameAlloc,
    munmap_space: AddressSpace,
    space_after: AddressSpace,
    frames_after: FrameAlloc,
    ptr: usize,
    size: usize,
    translations: Seq<Option<usize>>,
)
    requires
        munmapped(space, munmap_space, ptr, size),
        completed(
            munmap_space,
            frames,
            space_after,
            frames_after,
            munmap_range(ptr, size),
            translations,
        ),
    ensures
        munmap_range(ptr, size).addresses().subset_of(region(space_after.pages())),
        munmap_range(ptr, size).addresses().disjoint(region(space_after.mapped())),
        region(space_after.pages()).union(region(space_after.mapped())) == region(
            space.pages(),
        ).union(region(space.mapped())),
{
    assert(region(space_after.pages()).union(region(space_after.mapped())) =~= region(
        space.pages(),
    ).union(region(space.mapped())));
}

/// A mapping moves pages from the free ones to the live ones, and loses none.
pub proof fn law_pages_are_conserved(
    space: AddressSpace,
    frames: FrameAlloc,
    space_after: AddressSpace,
    frames_after: FrameAlloc,
    size: usize,
    protection: MemoryProtection,
    ptr: usize,
)
    requires
        mmapped(space, frames, space_after, frames_after, size, protection, ptr),
    ensures
        region(space_after.pages()).union(region(space_after.mapped())) == region(
            space.pages(),
        ).union(region(space.mapped())),
{
    assert(region(space_after.pages()).union(region(space_after.mapped())) =~= region(
        space.pages(),
    ).union(region(space.mapped())));
}

/// Whether `translations` are those of the pages of `mapping` in turn, once it has been entered
/// into the page tables; or of as many pages that have not been mapped, if there is none.
pub open spec fn entered(mapping: Option<Mapping>, translations: Seq<Option<usize>>) -> bool {
    forall|i: int|
        0 <= i < translations.len() ==> #[trigger] translations[i] == (match mapping {
            Some(mapping) => Some((mapping.physical_address + i * BASE_PAGE_SIZE) as usize),
            None => None,
        })
}

/// The frames of the pages of a mapping are those that were allocated for it.
proof fn lemma_entered_frames(
    page_range: PageRange,
    frame_range: Option<PageRange>,
    protection: MemoryProtection,
    translations: Seq<Option<usize>>,
)
    requires
        entered(mmap_mapping(page_range, frame_range, protection), translations),
        frame_range matches Some(frame_range) ==> {
            &&& frame_range.wf()
            &&& translations.len() * BASE_PAGE_SIZE == frame_range.len()
        },
    ensures
        released_frames(translations, translations.len() as int) == optional_addresses(frame_range),
{
    let n = translations.len() as int;
    match frame_range {
        Some(frame_range) => {
            assert forall|addr: int|
                released_frames(translations, n).contains(addr)
                    <==> frame_range.addresses().contains(addr) by {
                if released_frames(translations, n).contains(addr) {
                    let i = choose|i: int|
                        0 <= i < n && #[trigger] frame_addresses(translations[i]).contains(addr);
                    assert(translations[i] == Some(
                        (frame_range.start + i * BASE_PAGE_SIZE) as usize,
                    ));
                }
                if frame_range.addresses().contains(addr) {
                    let i = (addr - frame_range.start) / (BASE_PAGE_SIZE as int);
                    assert(translations[i] == Some(
                        (frame_range.start + i * BASE_PAGE_SIZE) as usize,
                    ));
                    assert(frame_addresses(translations[i]).contains(addr));
                }
            }
            assert(released_frames(translations, n) =~= frame_range.addresses());
        },
        None => {
            assert forall|addr: int| !released_frames(translations, n).contains(addr) by {
                if released_frames(translations, n).contains(addr) {
                    let i = choose|i: int|
                        0 <= i < n && #[trigger] frame_addresses(translations[i]).contains(addr);
                    assert(translations[i] is None);
                }
            }
            assert(released_frames(translations, n) =~= Set::empty());
        },
    }
}

/// The unmap of a mapping can be completed: its pages are neither free nor live, and its frames
/// are its own and not free.
pub proof fn law_munmap_can_be_completed(
    space: AddressSpace,
    frames: FrameAlloc,
    mmap_space: AddressSpace,
    mmap_frames: FrameAlloc,
    munmap_space: AddressSpace,
    size: usize,
    protection: MemoryProtection,
    ptr: usize,
    mapping: Option<Mapping>,
    translations: Seq<Option<usize>>,
)
    requires
        space.wf(),
        frames.wf(),
        mmapped(space, frames, mmap_space, mmap_frames, size, protection, ptr),
        mmap_outcome(space.pages(), frames.free(), size, protection) matches Ok(
            (page_range, frame_range),
        ) && mapping == mmap_mapping(page_range, frame_range, protection),
        munmapped(mmap_space, munmap_space, ptr, size),
        translations.len() * BASE_PAGE_SIZE == whole_pages(size),
        entered(mapping, translations),
    ensures
        munmap_space.wf(),
        mmap_frames.wf(),
        munmap_range(ptr, size).wf(),
        region(munmap_space.pages()).disjoint(munmap_range(ptr, size).addresses()),
        region(munmap_space.mapped()).disjoint(munmap_range(ptr, size).addresses()),
        munmap_space.architecture().all_canonical(munmap_range(ptr, size).addresses()),
        translations.len() * BASE_PAGE_SIZE == munmap_range(ptr, size).len(),
        releasable(mmap_frames.architecture(), translations, mmap_frames.free()),
{
    let frame_range = mmap_outcome(space.pages(), frames.free(), size, protection)->Ok_0.1;
    if let Some(frame_range) = frame_range {
        assert forall|i: int| 0 <= i < translations.len() implies {
            &&& #[trigger] translations[i] is Some
            &&& translations[i]->0 == frame_range.start + i * BASE_PAGE_SIZE
            &&& translations[i]->0 % BASE_PAGE_SIZE == 0
            &&& translations[i]->0 + BASE_PAGE_SIZE <= usize::MAX
            &&& frame_addresses(translations[i]).subset_of(frame_range.addresses())
        } by {}
        assert forall|i: int| 0 <= i < translations.len() implies {
            &&& region(mmap_frames.free()).disjoint(#[trigger] frame_addresses(translations[i]))
            &&& mmap_frames.architecture().all_physical(frame_addresses(translations[i]))
        } by {
            assert(translations[i] is Some);
            assert forall|addr: int| #[trigger] frame_addresses(translations[i]).contains(
                addr,
            ) implies frames.architecture().is_physical(addr) by {
                assert(frames.free_region().contains(addr));
            }
        }
        assert forall|i: int, j: int| 0 <= i < j < translations.len() implies (
        #[trigger] frame_addresses(translations[i])).disjoint(
            #[trigger] frame_addresses(translations[j]),
        ) by {
            assert(translations[i] is Some);
            assert(translations[j] is Some);
        }
    } else {
        assert forall|i: int| 0 <= i < translations.len() implies (
        #[trigger] translations[i]) is None by {}
        assert forall|i: int| 0 <= i < translations.len() implies #[trigger] frame_addresses(
            translations[i],
        ) == Set::<int>::empty() by {
            assert(translations[i] is None);
        }
    }
}

/// Unmapping all of a mapping, with the address that [`sys_mmap`] handed out, undoes the mapping:
/// the free pages, the live mappings and the free frames are what they were before.
pub proof fn law_munmap_undoes_mmap(
    space: AddressSpace,
    frames: FrameAlloc,
    mmap_space: AddressSpace,
    mmap_frames: FrameAlloc,
    munmap_space: AddressSpace,
    space_after: AddressSpace,
    frames_after: FrameAlloc,
    size: usize,
    protection: MemoryProtection,
    ptr: usize,
    mapping: Option<Mapping>,
    translations: Seq<Option<usize>>,
)
    requires
        space.wf(),
        frames.wf(),
        mmapped(space, frames, mmap_space, mmap_frames, size, protection, ptr),
        mmap_outcome(space.pages(), frames.free(), size, protection) matches Ok(
            (page_range, frame_range),
        ) && mapping == mmap_mapping(page_range, frame_range, protection),
        munmapped(mmap_space, munmap_space, ptr, size),
        translations.len() * BASE_PAGE_SIZE == whole_pages(size),
        entered(mapping, translations),
        completed(
            munmap_space,
            mmap_frames,
            space_after,
            frames_after,
            munmap_range(ptr, size),
            translations,
        ),
    ensures
        space_after.pages() == space.pages(),
        space_after.mapped() == space.mapped(),
        frames_after.free() == frames.free(),
{
    let outcome = mmap_outcome(space.pages(), frames.free(), size, protection)->Ok_0;
    lemma_entered_frames(outcome.0, outcome.1, protection, translations);
    assert(munmap_range(ptr, size) == outcome.0);
    assert(region(space_after.pages()) =~= region(space.pages()));
    assert(region(space_after.mapped()) =~= region(space.mapped()));
    assert(frames_after.free_region() =~= frames.free_region());
    lemma_canonical_unique(space_after.pages(), space.pages());
    lemma_canonical_unique(space_after.mapped(), space.mapped());
    lemma_canonical_unique(frames_after.free(), frames.free());
}

/// Configuring the protections of pages that all have frames succeeds without allocating any, and
/// keeps each page on its frame, however the frames lie.
pub proof fn law_mprotect_keeps_frames(
    architecture: Architecture,
    free: Seq<PageRange>,
    ptr: usize,
    size: usize,
    translations: Seq<Option<usize>>,
)
    requires
        pages_in_reach(architecture, ptr, size),
        translations.len() == lookup_count(size),
        forall|i: int| 0 <= i < translations.len() ==> (#[trigger] translations[i]) is Some,
    ensures
        mprotect_outcome(architecture, free, ptr, size, translations) == Ok::<Option<PageRange>, Errno>(None),
        forall|i: int|
            0 <= i < translations.len() ==> Some(
                #[trigger] mprotect_frame(translations, None, i),
            ) == translations[i],
{
    lemma_missing(translations, 0, translations.len() as int);
}

/// Pages that were only reserved get a frame each, one after the other, or else the call fails
/// for lack of memory.
pub proof fn law_mprotect_commits_reserved_pages(
    architecture: Architecture,
    free: Seq<PageRange>,
    ptr: usize,
    size: usize,
    translations: Seq<Option<usize>>,
)
    requires
        canonical(free),
        pages_in_reach(architecture, ptr, size),
        is_page_layout(size as int, BASE_PAGE_SIZE as int),
        0 < size,
        translations.len() == lookup_count(size),
        forall|i: int| 0 <= i < translations.len() ==> (#[trigger] translations[i]) is None,
    ensures
        match first_fit(free, pages_layout(size as int)) {
            Some(frame_range) => {
                &&& mprotect_outcome(architecture, free, ptr, size, translations) == Ok::<
                    Option<PageRange>,
                    Errno,
                >(Some(frame_range))
                &&& forall|i: int|
                    0 <= i < translations.len() ==> #[trigger] mprotect_frame(
                        translations,
                        Some(frame_range),
                        i,
                    ) == frame_range.start + i * BASE_PAGE_SIZE
            },
            None => mprotect_outcome(architecture, free, ptr, size, translations) == Err::<
                Option<PageRange>,
                Errno,
            >(Errno::Nomem),
        },
{
    let n = translations.len() as int;
    assert(size == n * BASE_PAGE_SIZE);
    assert forall|i: int| 0 <= i <= n implies missing(translations, i) == i by {
        lemma_all_missing(translations, i);
    }
    if let Some(frame_range) = first_fit(free, pages_layout(size as int)) {
        lemma_first_fit(free, pages_layout(size as int));
        assert forall|i: int| 0 <= i < n implies #[trigger] mprotect_frame(
            translations,
            Some(frame_range),
            i,
        ) == frame_range.start + i * BASE_PAGE_SIZE by {
            assert(translations[i] is None);
        }
    }
}

proof fn lemma_all_missing(translations: Seq<Option<usize>>, n: int)
    requires
        0 <= n <= translations.len(),
        forall|i: int| 0 <= i < n ==> (#[trigger] translations[i]) is None,
    ensures
        missing(translations, n) == n,
    decreases n,
{
    if 0 < n {
        lemma_all_missing(translations, n - 1);
        assert(translations[n - 1] is None);
    }
}

/// Pages that had frames of their own, or none, have frames of their own once they are
/// configured, so that a later unmap can make the frames free.
pub proof fn law_configured_frames_are_releasable(
    architecture: Architecture,
    free: Seq<PageRange>,
    free_after: Seq<PageRange>,
    translations: Seq<Option<usize>>,
    frame_range: PageRange,
    after: Seq<Option<usize>>,
)
    requires
        releasable(architecture, translations, free),
        frame_range.wf(),
        frame_range.len() == missing(translations, translations.len() as int) * BASE_PAGE_SIZE,
        frame_range.addresses().subset_of(region(free)),
        architecture.all_physical(region(free)),
        region(free_after) == region(free).difference(frame_range.addresses()),
        after.len() == translations.len(),
        forall|i: int|
            0 <= i < after.len() ==> #[trigger] after[i] == Some(
                mprotect_frame(translations, Some(frame_range), i),
            ),
    ensures
        releasable(architecture, after, free_after),
{
    let n = translations.len() as int;
    assert forall|i: int| 0 <= i < n implies {
        &&& #[trigger] after[i] is Some
        &&& after[i]->0 % BASE_PAGE_SIZE == 0
        &&& after[i]->0 + BASE_PAGE_SIZE <= usize::MAX
        &&& translations[i] is Some ==> after[i] == translations[i]
        &&& translations[i] is None ==> {
            &&& after[i]->0 == frame_range.start + missing(translations, i) * BASE_PAGE_SIZE
            &&& frame_addresses(after[i]).subset_of(frame_range.addresses())
        }
    } by {
        lemma_missing(translations, i, n);
        assert(after[i] == Some(mprotect_frame(translations, Some(frame_range), i)));
        if translations[i] is None {
            let addr = frame_range.start + missing(translations, i) * BASE_PAGE_SIZE;
            assert(frame_range.addresses().contains(addr));
            assert(mprotect_frame(translations, Some(frame_range), i) == addr);
            assert(frame_addresses(after[i]).subset_of(frame_range.addresses()));
        }
    }
    assert forall|i: int| 0 <= i < n implies {
        &&& region(free_after).disjoint(#[trigger] frame_addresses(after[i]))
        &&& architecture.all_physical(frame_addresses(after[i]))
    } by {
        assert(after[i] is Some);
        if translations[i] is Some {
            assert(architecture.all_physical(frame_addresses(translations[i])));
        } else {
            assert forall|addr: int| #[trigger] frame_addresses(after[i]).contains(
                addr,
            ) implies architecture.is_physical(addr) by {
                assert(region(free).contains(addr));
            }
        }
        if translations[i] is Some {
            assert(region(free).disjoint(frame_addresses(translations[i])));
        }
    }
    assert forall|i: int, j: int| 0 <= i < j < n implies (#[trigger] frame_addresses(
        after[i],
    )).disjoint(#[trigger] frame_addresses(after[j])) by {
        assert(after[i] is Some);
        assert(after[j] is Some);
        assert(region(free).disjoint(frame_addresses(translations[i])));
        assert(region(free).disjoint(frame_addresses(translations[j])));
        assert(frame_addresses(translations[i]).disjoint(frame_addresses(translations[j])));
        if translations[i] is None && translations[j] is None {
            lemma_missing(translations, i, j);
        }
    }
}

/// Pages are mapped as the bits of the protection say: they are in reach if there is any bit, may
/// be written to exactly if bit 1 is set, and may be executed exactly if bit 2 is set.
pub proof fn law_protection_bits(protection: MemoryProtection)
    ensures
        protection_flags(protection).accessible <==> protection.bits > 0,
        protection_flags(protection).normal,
        protection_flags(protection).writable <==> protection.bits & (1u32 << 1) != 0,
        protection_flags(protection).execute_disable <==> protection.bits & (1u32 << 2) == 0,
{
    let bits = protection.bits;
    assert(bits & (1u32 << 1) != 0 <==> bits / 2 % 2 == 1) by (bit_vector);
    assert(bits & (1u32 << 2) == 0 <==> bits / 4 % 2 == 0) by (bit_vector);
}

/// The errors have the numbers of POSIX.
pub proof fn law_error_numbers(errno: Errno)
    ensures
        errno is Nomem ==> errno.number() == 12,
        errno is Inval ==> errno.number() == 22,
{
}

/// A size is rounded up to the least number of whole pages that has it.
pub proof fn law_whole_pages(size: usize)
    ensures
        whole_pages(size) % 4096 == 0,
        size <= whole_pages(size) < size + 4096,
        pages_layout(whole_pages(size)).align == 4096,
        whole_pages(size) <= usize::MAX ==> pages_layout(whole_pages(size)).size == whole_pages(size),
{
    lemma_rounding(size as int, BASE_PAGE_SIZE as int);
}

/// Base pages are allocated from the lowest free range that is large enough, from its start on, and
/// not at all if there is none.
proof fn lemma_first_fit_of_pages(ranges: Seq<PageRange>, size: int)
    requires
        canonical(ranges),
        0 < size <= isize::MAX,
        size % 4096 == 0,
    ensures
        first_fit(ranges, pages_layout(size)) is Some <==> exists|i: int|
            0 <= i < ranges.len() && (#[trigger] ranges[i]).len() >= size,
        first_fit(ranges, pages_layout(size)) matches Some(range) ==> {
            &&& range.len() == size
            &&& exists|i: int|
                0 <= i < ranges.len() && (#[trigger] ranges[i]).start == range.start
                    && ranges[i].len() >= size
            &&& forall|i: int|
                0 <= i < ranges.len() && (#[trigger] ranges[i]).len() >= size ==> range.start
                    <= ranges[i].start
        },
    decreases ranges.len(),
{
    let layout = pages_layout(size);
    lemma_page_sizes();
    crate::page_range::law_page_layouts(size, 4096);
    if ranges.len() > 0 {
        let rest = ranges.skip(1);
        assert(forall|i: int| 0 <= i < rest.len() ==> rest[i] == ranges[i + 1]);
        assert(forall|i: int| 0 < i < ranges.len() ==> ranges[i] == rest[i - 1]);
        assert(canonical(rest));
        lemma_first_fit_of_pages(rest, size);
        assert(ranges[0].wf());
        lemma_rounding(ranges[0].start as int, 4096);
        if ranges[0].len() >= size {
            assert(first_fit(ranges, layout) == ranges[0].placement(layout));
            assert forall|i: int| 0 <= i < ranges.len() implies ranges[0].start <= (
            #[trigger] ranges[i]).start by {
                if i > 0 {
                    assert(ranges[0].end < ranges[i].start);
                }
            }
        } else {
            assert(first_fit(ranges, layout) == first_fit(rest, layout));
            if exists|i: int| 0 <= i < ranges.len() && (#[trigger] ranges[i]).len() >= size {
                let i = choose|i: int|
                    0 <= i < ranges.len() && (#[trigger] ranges[i]).len() >= size;
                assert(rest[i - 1].len() >= size);
            }
            if let Some(range) = first_fit(rest, layout) {
                let i = choose|i: int|
                    0 <= i < rest.len() && (#[trigger] rest[i]).start == range.start
                        && rest[i].len() >= size;
                assert(ranges[i + 1].start == range.start && ranges[i + 1].len() >= size);
                assert forall|j: int|
                    0 <= j < ranges.len() && (#[trigger] ranges[j]).len()
                        >= size implies range.start <= ranges[j].start by {
                    assert(rest[j - 1].len() >= size);
                }
            }
        }
    }
}

/// A mapping succeeds whenever it can: of any size but 0, if there is a free range of pages that is
/// large enough and, unless there is no protection bit, a free range of frames as well. It takes
/// the lowest of each, from its start on, and rounded up to whole pages. It fails as invalid
/// exactly if the size is 0, and otherwise for lack of memory.
pub proof fn law_mmap_succeeds(
    pages: Seq<PageRange>,
    frames: Seq<PageRange>,
    size: usize,
    protection: MemoryProtection,
)
    requires
        canonical(pages),
        canonical(frames),
        whole_pages(size) <= isize::MAX,
    ensures
        ({
            let outcome = mmap_outcome(pages, frames, size, protection);
            let pages_found = exists|i: int|
                0 <= i < pages.len() && (#[trigger] pages[i]).end - pages[i].start >= size;
            let frames_found = exists|i: int|
                0 <= i < frames.len() && (#[trigger] frames[i]).end - frames[i].start >= size;
            &&& outcome == Err::<(PageRange, Option<PageRange>), Errno>(Errno::Inval) <==> size == 0
            &&& outcome is Ok <==> size > 0 && pages_found && (protection.bits == 0 || frames_found)
            &&& outcome matches Ok((page_range, frame_range)) ==> {
                &&& (page_range.end - page_range.start) % 4096 == 0
                &&& size <= page_range.end - page_range.start < size + 4096
                &&& forall|i: int|
                    0 <= i < pages.len() && (#[trigger] pages[i]).end - pages[i].start >= size
                        ==> page_range.start <= pages[i].start
                &&& exists|i: int|
                    0 <= i < pages.len() && (#[trigger] pages[i]).start == page_range.start
                        && page_range.end <= pages[i].end
                &&& frame_range is None <==> protection.bits == 0
                &&& frame_range matches Some(frame_range) ==> {
                    &&& frame_range.end - frame_range.start == page_range.end - page_range.start
                    &&& forall|i: int|
                        0 <= i < frames.len() && (#[trigger] frames[i]).end - frames[i].start
                            >= size ==> frame_range.start <= frames[i].start
                    &&& exists|i: int|
                        0 <= i < frames.len() && (#[trigger] frames[i]).start == frame_range.start
                            && frame_range.end <= frames[i].end
                }
            }
        }),
{
    law_whole_pages(size);
    if size > 0 {
        let bytes = whole_pages(size);
        lemma_first_fit_of_pages(pages, bytes);
        lemma_first_fit_of_pages(frames, bytes);
        lemma_large_enough(pages, size);
        lemma_large_enough(frames, size);
    }
}

/// A range of whole pages that has a number of bytes has them rounded up to whole pages.
proof fn lemma_large_enough(ranges: Seq<PageRange>, size: usize)
    requires
        canonical(ranges),
    ensures
        forall|i: int|
            0 <= i < ranges.len() ==> ((#[trigger] ranges[i]).end - ranges[i].start >= size
                <==> ranges[i].len() >= whole_pages(size)),
{
    law_whole_pages(size);
    assert forall|i: int| 0 <= i < ranges.len() implies ((#[trigger] ranges[i]).end
        - ranges[i].start >= size <==> ranges[i].len() >= whole_pages(size)) by {
        assert(ranges[i].wf());
    }
}

/// What is mapped are the pages to the frames, one after the other, from the first ones on, with
/// the protection; or nothing, if there are no frames.
pub proof fn law_mapping(
    page_range: PageRange,
    frame_range: Option<PageRange>,
    protection: MemoryProtection,
)
    requires
        page_range.wf(),
    ensures
        mmap_mapping(page_range, frame_range, protection) is Some <==> frame_range is Some,
        mmap_mapping(page_range, frame_range, protection) matches Some(mapping) ==> {
            &&& mapping.virtual_address == page_range.start
            &&& mapping.virtual_address + mapping.count * 4096 == page_range.end
            &&& frame_range == Some(
                PageRange { start: mapping.physical_address, end: frame_range->0.end },
            )
            &&& mapping.flags == protection_flags(protection)
        },
{
}

/// A mapping takes its pages from the free ones, makes them live, and takes its frames from the
/// free ones: each address on its own.
pub proof fn law_mapping_takes_effect(
    space: AddressSpace,
    frames: FrameAlloc,
    space_after: AddressSpace,
    frames_after: FrameAlloc,
    size: usize,
    protection: MemoryProtection,
    ptr: usize,
    addr: int,
)
    requires
        mmapped(space, frames, space_after, frames_after, size, protection, ptr),
    ensures
        ({
            let outcome = mmap_outcome(space.pages(), frames.free(), size, protection)->Ok_0;
            let in_pages = ptr <= addr < ptr + whole_pages(size);
            let in_frames = outcome.1 matches Some(range) && range.start <= addr < range.end;
            &&& ptr == outcome.0.start
            &&& in_pages ==> region(space.pages()).contains(addr)
            &&& region(space_after.pages()).contains(addr) <==> region(space.pages()).contains(addr)
                && !in_pages
            &&& region(space_after.mapped()).contains(addr) <==> region(space.mapped()).contains(
                addr,
            ) || in_pages
            &&& in_frames ==> region(frames.free()).contains(addr)
            &&& region(frames_after.free()).contains(addr) <==> region(frames.free()).contains(addr)
                && !in_frames
        }),
{
    let outcome = mmap_outcome(space.pages(), frames.free(), size, protection)->Ok_0;
    assert(optional_addresses(outcome.1).contains(addr) <==> (outcome.1 matches Some(range)
        && range.start <= addr < range.end));
}

/// An unmap is accepted exactly if its address is that of a page, its size is not 0, and every
/// address of every page that it reaches into is live.
pub proof fn law_munmap_is_accepted(mapped: Seq<PageRange>, ptr: usize, size: usize)
    requires
        ptr + whole_pages(size) <= usize::MAX,
    ensures
        munmap_accepted(mapped, ptr, size) <==> {
            &&& ptr % 4096 == 0
            &&& size > 0
            &&& forall|addr: int|
                ptr <= addr && addr - addr % 4096 < ptr + size ==> #[trigger] region(
                    mapped,
                ).contains(addr)
        },
        munmap_range(ptr, size).start == ptr,
        munmap_range(ptr, size).end == ptr + whole_pages(size),
{
    law_whole_pages(size);
    let range = munmap_range(ptr, size);
    if ptr % 4096 == 0 {
        assert forall|addr: int| ptr <= addr && addr - addr % 4096 < ptr + size
            <==> #[trigger] range.addresses().contains(addr) by {}
        if munmap_accepted(mapped, ptr, size) {
            assert forall|addr: int|
                ptr <= addr && addr - addr % 4096 < ptr + size implies #[trigger] region(
                mapped,
            ).contains(addr) by {
                assert(range.addresses().contains(addr));
            }
        }
    }
}

/// An accepted unmap makes the pages that it reaches into no longer live, and changes nothing else.
pub proof fn law_munmap_takes_effect(
    space: AddressSpace,
    space_after: AddressSpace,
    ptr: usize,
    size: usize,
    addr: int,
)
    requires
        munmapped(space, space_after, ptr, size),
        ptr + whole_pages(size) <= usize::MAX,
    ensures
        region(space_after.mapped()).contains(addr) <==> region(space.mapped()).contains(addr)
            && !(ptr <= addr && addr - addr % 4096 < ptr + size),
        space_after.pages() == space.pages(),
{
    law_whole_pages(size);
}

/// Completing an unmap makes the pages of the range free, and the frames that were found, and
/// changes nothing else.
pub proof fn law_completion_takes_effect(
    space: AddressSpace,
    frames: FrameAlloc,
    space_after: AddressSpace,
    frames_after: FrameAlloc,
    range: PageRange,
    translations: Seq<Option<usize>>,
    addr: int,
)
    requires
        completed(space, frames, space_after, frames_after, range, translations),
    ensures
        region(space_after.pages()).contains(addr) <==> region(space.pages()).contains(addr)
            || range.start <= addr < range.end,
        space_after.mapped() == space.mapped(),
        region(frames_after.free()).contains(addr) <==> region(frames.free()).contains(addr)
            || exists|i: int|
            0 <= i < translations.len() && (#[trigger] translations[i] matches Some(phys) && phys
                <= addr < phys + 4096),
{
    law_released_frames(translations, translations.len() as int, addr);
}

/// The frames of pages are the 4096 bytes from each frame that was found.
pub proof fn law_released_frames(translations: Seq<Option<usize>>, n: int, addr: int)
    ensures
        released_frames(translations, n).contains(addr) <==> exists|i: int|
            0 <= i < n && (#[trigger] translations[i] matches Some(phys) && phys <= addr < phys
                + 4096),
{
    if released_frames(translations, n).contains(addr) {
        let i = choose|i: int|
            0 <= i < n && #[trigger] frame_addresses(translations[i]).contains(addr);
        assert(translations[i] is Some);
    }
    if exists|i: int|
        0 <= i < n && (#[trigger] translations[i] matches Some(phys) && phys <= addr < phys
            + 4096) {
        let i = choose|i: int|
            0 <= i < n && (#[trigger] translations[i] matches Some(phys) && phys <= addr < phys
                + 4096);
        assert(frame_addresses(translations[i]).contains(addr));
    }
}

/// The frames of pages can be made free exactly if each is a frame within the address space and the
/// physical one, no address of it is free, and no two pages have the same.
pub proof fn law_releasable(
    architecture: Architecture,
    translations: Seq<Option<usize>>,
    free: Seq<PageRange>,
)
    ensures
        releasable(architecture, translations, free) <==> {
            &&& forall|i: int|
                0 <= i < translations.len() ==> (#[trigger] translations[i] matches Some(phys)
                    ==> phys % 4096 == 0 && phys + 4096 <= usize::MAX && phys + 4096
                    <= architecture.physical_end() && forall|addr: int|
                    phys <= addr < phys + 4096 ==> !(#[trigger] region(free).contains(addr)))
            &&& forall|i: int, j: int|
                0 <= i < j < translations.len() && (#[trigger] translations[i]) is Some && (
                #[trigger] translations[j]) is Some ==> translations[i] != translations[j]
        },
{
    let n = translations.len() as int;
    if releasable(architecture, translations, free) {
        assert forall|i: int| 0 <= i < n implies (#[trigger] translations[i] matches Some(phys)
            ==> phys % 4096 == 0 && phys + 4096 <= usize::MAX && phys + 4096
            <= architecture.physical_end() && forall|addr: int|
            phys <= addr < phys + 4096 ==> !(#[trigger] region(free).contains(addr))) by {
            if let Some(phys) = translations[i] {
                let frame = frame_addresses(translations[i]);
                assert(region(free).disjoint(frame));
                assert(architecture.all_physical(frame));
                assert(frame.contains(phys + 4095));
                assert forall|addr: int| phys <= addr < phys + 4096 implies !(
                #[trigger] region(free).contains(addr)) by {
                    assert(frame.contains(addr));
                }
            }
        }
        assert forall|i: int, j: int|
            0 <= i < j < n && (#[trigger] translations[i]) is Some && (
            #[trigger] translations[j]) is Some implies translations[i] != translations[j] by {
            assert(frame_addresses(translations[i]).disjoint(frame_addresses(translations[j])));
            assert(frame_addresses(translations[i]).contains(translations[i]->0 as int));
        }
    }
    if (forall|i: int|
        0 <= i < n ==> (#[trigger] translations[i] matches Some(phys) ==> phys % 4096 == 0 && phys
            + 4096 <= usize::MAX && phys + 4096 <= architecture.physical_end() && forall|addr: int|
            phys <= addr < phys + 4096 ==> !(#[trigger] region(free).contains(addr)))) && (forall|
        i: int,
        j: int,
    |
        0 <= i < j < n && (#[trigger] translations[i]) is Some && (#[trigger] translations[j]) is Some
            ==> translations[i] != translations[j]) {
        assert forall|i: int| 0 <= i < n implies {
            &&& region(free).disjoint(#[trigger] frame_addresses(translations[i]))
            &&& architecture.all_physical(frame_addresses(translations[i]))
        } by {
            if let Some(phys) = translations[i] {
                assert forall|addr: int| #[trigger] region(free).contains(
                    addr,
                ) implies !frame_addresses(translations[i]).contains(addr) by {}
            }
        }
        assert forall|i: int, j: int| 0 <= i < j < n implies (#[trigger] frame_addresses(
            translations[i],
        )).disjoint(#[trigger] frame_addresses(translations[j])) by {
            if translations[i] is Some && translations[j] is Some {
                assert(translations[i] != translations[j]);
            }
        }
    }
}

/// As many pages are configured as there are whole ones in the size, and the page at the address is
/// looked up in any case.
pub proof fn law_configured_pages(size: usize, ptr: usize, index: int)
    ensures
        page_count(size) * 4096 <= size < page_count(size) * 4096 + 4096,
        lookup_count(size) >= 1,
        size >= 4096 ==> lookup_count(size) == page_count(size),
        size < 4096 ==> lookup_count(size) == 1,
        page_address(ptr, 0) == ptr,
        page_address(ptr, index + 1) == page_address(ptr, index) + 4096,
{
}

/// The pages are in reach exactly if there is a virtual address for the first byte of each that is
/// wholly within the size, and for the address itself.
pub proof fn law_pages_in_reach(architecture: Architecture, ptr: usize, size: usize)
    ensures
        pages_in_reach(architecture, ptr, size) <==> {
            &&& architecture.is_virtual(ptr as int)
            &&& forall|i: int|
                0 <= i && 4096 * i + 4096 <= size ==> #[trigger] page_address(ptr, i) == ptr + 4096
                    * i && ptr + 4096 * i <= usize::MAX && architecture.is_virtual(ptr + 4096 * i)
        },
{
}

/// The number of pages without a frame is the number of indices at which there is none.
pub proof fn law_missing_pages_are_counted(translations: Seq<Option<usize>>, n: int)
    requires
        0 <= n,
    ensures
        Set::new(|i: int| 0 <= i < n && translations[i] is None).finite(),
        missing(translations, n) == Set::new(
            |i: int| 0 <= i < n && translations[i] is None,
        ).len(),
    decreases n,
{
    let indices = Set::new(|i: int| 0 <= i < n && translations[i] is None);
    if n == 0 {
        assert(indices =~= Set::<int>::empty());
    } else {
        law_missing_pages_are_counted(translations, n - 1);
        let before = Set::new(|i: int| 0 <= i < n - 1 && translations[i] is None);
        if translations[n - 1] is None {
            assert(indices =~= before.insert(n - 1));
        } else {
            assert(indices =~= before);
        }
    }
}

/// Configuring pages succeeds whenever it can: if all of them have frames, or if there is a free
/// range with a frame for each that has none, and either the page at the address has one or the
/// size is of whole pages. It is invalid exactly if a page is out of reach, or if the page at the
/// address has no frame and the size is not of whole pages, and fails otherwise for lack of memory.
pub proof fn law_mprotect_succeeds(
    architecture: Architecture,
    free: Seq<PageRange>,
    ptr: usize,
    size: usize,
    translations: Seq<Option<usize>>,
)
    requires
        canonical(free),
        pages_in_reach(architecture, ptr, size) ==> translations.len() == lookup_count(size),
    ensures
        ({
            let outcome = mprotect_outcome(architecture, free, ptr, size, translations);
            let needed = missing(translations, page_count(size)) * 4096;
            let complete = forall|i: int|
                0 <= i < translations.len() ==> (#[trigger] translations[i]) is Some;
            let odd = translations[0] is None && (size % 4096 != 0 || size > isize::MAX);
            let found = 0 < needed <= isize::MAX && exists|i: int|
                0 <= i < free.len() && (#[trigger] free[i]).end - free[i].start >= needed;
            let in_reach = pages_in_reach(architecture, ptr, size);
            &&& outcome == Err::<Option<PageRange>, Errno>(Errno::Inval) <==> !in_reach || odd
            &&& outcome == Ok::<Option<PageRange>, Errno>(None) <==> in_reach && complete
            &&& outcome matches Ok(Some(range)) ==> range.end - range.start == needed
            &&& (outcome is Ok && !(outcome->Ok_0 is None)) <==> in_reach && !complete && !odd
                && found
        }),
{
    let n = translations.len() as int;
    let count = page_count(size);
    let bytes = missing(translations, count) * BASE_PAGE_SIZE;
    if pages_in_reach(architecture, ptr, size) {
        lemma_missing(translations, count, n);
        crate::page_range::law_page_layouts(size as int, 4096);
        crate::page_range::law_page_layouts(bytes, 4096);
        if 0 < bytes <= isize::MAX {
            lemma_first_fit_of_pages(free, bytes);
            assert forall|i: int| 0 <= i < free.len() implies ((#[trigger] free[i]).end
                - free[i].start >= bytes <==> free[i].len() >= bytes) by {}
        } else if bytes == 0 {
            lemma_no_fit(free);
        }
    }
}

/// There is no place for nothing.
proof fn lemma_no_fit(ranges: Seq<PageRange>)
    ensures
        first_fit(ranges, pages_layout(0)) is None,
    decreases ranges.len(),
{
    if ranges.len() > 0 {
        lemma_no_fit(ranges.skip(1));
    }
}

/// A page keeps its frame, and the pages without one get the frames of the range in turn: each is
/// as many frames after the first as there are such pages before.
pub proof fn law_configured_frames(
    translations: Seq<Option<usize>>,
    frame_range: PageRange,
    index: int,
)
    requires
        0 <= index < translations.len(),
        frame_range.len() == missing(translations, translations.len() as int) * 4096,
    ensures
        translations[index] matches Some(phys) ==> mprotect_frame(
            translations,
            Some(frame_range),
            index,
        ) == phys,
        translations[index] is None ==> {
            let phys = mprotect_frame(translations, Some(frame_range), index);
            &&& frame_range.start <= phys
            &&& phys + 4096 <= frame_range.end
            &&& phys - frame_range.start == 4096 * missing(translations, index)
        },
{
    lemma_missing(translations, index, translations.len() as int);
}

/// The addresses of a range that may be missing are those of the range, if there is one.
pub proof fn law_optional_addresses(range: Option<PageRange>, addr: int)
    ensures
        optional_addresses(range).contains(addr) <==> range is Some && range->0.start <= addr
            < range->0.end,
{
}

} // verus!
