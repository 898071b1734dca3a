//! The allocator of physical memory.
use crate::addresses::{
    is_physical_address, is_physical_range, is_virtual_address, phys_new, Architecture,
};
use crate::align::{
    align_down, align_up, lemma_page_sizes, lemma_rounding, round_down, round_up, BASE_PAGE_SIZE,
    HUGE_PAGE_SIZE, LARGE_PAGE_SIZE,
};
use crate::e820::{
    e820_entry_at, is_reserved, lemma_reserved_entry, reserved_ends_fit, reserved_entries,
    ReservedRegions,
};
use crate::mman::PageTableEntryFlags;
use crate::page_range::{is_page_range, PageLayout, PageRange};
use crate::range_list::{
    first_fit, lemma_entry, lemma_total_len, listing, region, AllocError, RangeList,
};
use vstd::prelude::*;
use vstd::string::StringExecFns;
use vstd::set_lib::set_int_range;

verus! {

/// The allocator of physical memory: the free frames, and how much memory there was at boot.
pub struct FrameAlloc {
    architecture: Architecture,
    free_list: RangeList,
    total_memory: usize,
}

impl FrameAlloc {
    /// The architecture whose physical addresses the frames have.
    pub closed spec fn architecture(&self) -> Architecture {
        self.architecture
    }

    /// The free frames.
    pub closed spec fn free(&self) -> Seq<PageRange> {
        self.free_list@
    }

    /// The addresses of the free frames.
    pub open spec fn free_region(&self) -> Set<int> {
        region(self.free())
    }

    /// The number of bytes of memory recorded at boot.
    pub closed spec fn total(&self) -> usize {
        self.total_memory
    }

    /// Whether the free frames are in order, neither overlap nor touch, and have physical
    /// addresses.
    pub open spec fn wf(&self) -> bool {
        &&& crate::range_list::canonical(self.free())
        &&& self.architecture().all_physical(self.free_region())
    }

    /// An allocator without any frame.
    pub fn new(architecture: Architecture) -> (frames: FrameAlloc)
        ensures
            frames.wf(),
            frames.architecture() == architecture,
            frames.free() == Seq::<PageRange>::empty(),
            frames.total() == 0,
    {
        FrameAlloc { architecture, free_list: RangeList::new(), total_memory: 0 }
    }

    /// Allocates frames according to `layout` from the first free range with room for them.
    pub fn allocate(&mut self, layout: PageLayout) -> (result: Result<PageRange, AllocError>)
        requires
            old(self).wf(),
            layout.wf(),
        ensures
            final(self).wf(),
            final(self).total() == old(self).total(),
            final(self).architecture() == old(self).architecture(),
            match first_fit(old(self).free(), layout) {
                Some(range) => {
                    &&& result == Ok::<PageRange, AllocError>(range)
                    &&& range.wf()
                    &&& range.len() == layout.size
                    &&& range.start % layout.align == 0
                    &&& range.addresses().subset_of(old(self).free_region())
                    &&& final(self).free_region() == old(self).free_region().difference(
                        range.addresses(),
                    )
                },
                None => {
                    &&& result == Err::<PageRange, AllocError>(AllocError)
                    &&& final(self).free() == old(self).free()
                },
            },
    {
        self.free_list.allocate(layout)
    }

    /// Allocates the frames of `range`, if all of them are free.
    pub fn allocate_at(&mut self, range: PageRange) -> (result: Result<(), AllocError>)
        requires
            old(self).wf(),
            range.wf(),
        ensures
            final(self).wf(),
            final(self).total() == old(self).total(),
            final(self).architecture() == old(self).architecture(),
            result is Ok <==> range.addresses().subset_of(old(self).free_region()),
            result is Ok ==> final(self).free_region() == old(self).free_region().difference(
                range.addresses(),
            ),
            result is Err ==> final(self).free() == old(self).free(),
    {
        self.free_list.allocate_at(range)
    }

    /// Makes the frames of `range` free. None of them may be free already.
    pub fn deallocate(&mut self, range: PageRange)
        requires
            old(self).wf(),
            range.wf(),
            old(self).architecture().all_physical(range.addresses()),
            old(self).free_region().disjoint(range.addresses()),
        ensures
            final(self).wf(),
            final(self).total() == old(self).total(),
            final(self).architecture() == old(self).architecture(),
            final(self).free_region() == old(self).free_region().union(range.addresses()),
    {
        self.free_list.deallocate(range).unwrap();
    }

    /// The architecture whose physical addresses the frames have.
    pub fn frame_architecture(&self) -> (architecture: Architecture)
        ensures
            architecture == self.architecture(),
    {
        self.architecture
    }

    /// The free frames.
    pub fn free_ranges(&self) -> (ranges: RangeList)
        ensures
            ranges@ == self.free(),
    {
        self.free_list.clone()
    }

    /// Whether some frame of `range` is free.
    pub fn overlaps(&self, range: PageRange) -> (overlaps: bool)
        requires
            self.wf(),
            range.wf(),
        ensures
            overlaps <==> !self.free_region().disjoint(range.addresses()),
    {
        self.free_list.overlaps(range)
    }
}

/// Allocates whatever of `reservation` is free, so that none of it is free any more.
fn reserve(list: &mut RangeList, reservation: PageRange)
    requires
        old(list).wf(),
        reservation.wf(),
    ensures
        final(list).wf(),
        region(final(list)@) == region(old(list)@).difference(reservation.addresses()),
{
    let ghost before = region(list@);
    loop
        invariant
            list.wf(),
            before == region(old(list)@),
            reservation.wf(),
            region(list@).difference(reservation.addresses()) == before.difference(
                reservation.addresses(),
            ),
        decreases region(list@).len(),
    {
        let ghost previous = list@;
        proof {
            lemma_total_len(previous);
        }
        match list.allocate_overlap(reservation) {
            Ok(reserved) => {
                proof {
                    assert(reserved.addresses().contains(reserved.start as int));
                    assert(region(previous).contains(reserved.start as int));
                    lemma_total_len(list@);
                    assert(region(list@).subset_of(
                        region(previous).remove(reserved.start as int),
                    ));
                    vstd::set_lib::lemma_len_subset(
                        region(list@),
                        region(previous).remove(reserved.start as int),
                    );
                    assert(region(list@).difference(reservation.addresses())
                        =~= region(previous).difference(reservation.addresses()));
                }
            },
            Err(_) => {
                assert(region(list@) =~= before.difference(reservation.addresses()));
                return;
            },
        }
    }
}

/// What a part of the physical address space is used for.
#[derive(Clone, Copy, Debug, PartialEq, Eq, Structural)]
pub enum MemmapType {
    /// Usable memory.
    Ram,
    /// Anything else.
    Reserved,
}

/// A part of the physical address space, as the boot environment describes it.
#[derive(Clone, Copy, Debug, PartialEq, Eq, Structural)]
pub struct MemmapEntry {
    /// What it is used for.
    pub ty: MemmapType,
    /// The first address.
    pub phys_addr: usize,
    /// The number of bytes.
    pub len: usize,
}

/// Where the flattened device tree lies, and what memory it reserves.
pub struct FdtInfo {
    /// The address and the size of each memory reservation.
    pub reservations: Vec<(usize, usize)>,
    /// The address of the tree.
    pub addr: usize,
    /// The size of the tree in bytes.
    pub total_size: usize,
}

/// What the boot environment says about the memory.
pub struct StartInfo {
    /// The regions that are not usable memory according to the E820 table.
    pub e820_reserved: ReservedRegions,
    /// The memory map.
    pub memmap: Vec<MemmapEntry>,
    /// The first address of the kernel image.
    pub kernel_start: usize,
    /// The end of the kernel image according to the linker.
    pub linked_end: usize,
    /// The end of the kernel image according to the loader, if it reports one.
    pub loaded_end: Option<usize>,
    /// The frames of the modules that were loaded along with the kernel.
    pub modules: Vec<PageRange>,
    /// The device tree, if there is one.
    pub fdt: Option<FdtInfo>,
}

/// The larger of two numbers.
pub open spec fn larger(a: int, b: int) -> int {
    if a < b {
        b
    } else {
        a
    }
}

/// The end of the kernel image: the linker's, or the loader's where that is larger.
pub open spec fn image_end(linked_end: usize, loaded_end: Option<usize>) -> int {
    match loaded_end {
        Some(loaded_end) => larger(linked_end as int, loaded_end as int),
        None => linked_end as int,
    }
}

/// Whether `entry` lies within one of the `reserved` regions.
pub open spec fn within_reserved(entry: MemmapEntry, reserved: Seq<(usize, usize)>) -> bool {
    exists|k: int|
        0 <= k < reserved.len() && (#[trigger] reserved[k]).0 <= entry.phys_addr && entry.phys_addr
            + entry.len <= reserved[k].1
}

/// Whether `entry` is usable memory that no E820 entry reserves.
pub open spec fn usable(entry: MemmapEntry, reserved: Seq<(usize, usize)>) -> bool {
    entry.ty == MemmapType::Ram && !within_reserved(entry, reserved)
}

/// Where the whole pages of `entry` start that lie above the first large page of memory and
/// above the kernel image.
pub open spec fn claim_start(entry: MemmapEntry, image_end: int) -> int {
    round_up(
        larger(larger(entry.phys_addr as int, LARGE_PAGE_SIZE as int), image_end),
        BASE_PAGE_SIZE as int,
    )
}

/// Where the whole pages of `entry` end.
pub open spec fn claim_end(entry: MemmapEntry) -> int {
    round_down(entry.phys_addr + entry.len, BASE_PAGE_SIZE as int)
}

/// The addresses of `entry` that become free: those of its whole pages above the first large
/// page of memory and above the kernel image, if it is usable.
pub open spec fn claim(
    entry: MemmapEntry,
    reserved: Seq<(usize, usize)>,
    image_end: int,
) -> Set<int> {
    if usable(entry, reserved) {
        set_int_range(claim_start(entry, image_end), claim_end(entry))
    } else {
        Set::empty()
    }
}

/// Whether the addresses of `entry` and of what it claims are within the address space, and
/// what it claims, if it is usable, does not end exactly where it starts.
pub open spec fn claimable(
    entry: MemmapEntry,
    reserved: Seq<(usize, usize)>,
    image_end: int,
) -> bool {
    entry.ty == MemmapType::Ram ==> {
        &&& entry.phys_addr + entry.len <= usize::MAX
        &&& usable(entry, reserved) ==> {
            &&& claim_start(entry, image_end) <= usize::MAX
            &&& claim_start(entry, image_end) != claim_end(entry)
        }
    }
}

impl StartInfo {
    /// The end of the kernel image.
    pub open spec fn image_end(&self) -> int {
        image_end(self.linked_end, self.loaded_end)
    }

    /// The addresses that the memory map entry at `index` makes free.
    pub open spec fn claim_at(&self, index: int) -> Set<int> {
        claim(self.memmap@[index], self.e820_reserved@, self.image_end())
    }

    /// The addresses that the first `n` memory map entries make free.
    pub open spec fn claimed_up_to(&self, n: int) -> Set<int> {
        Set::new(|addr: int| exists|i: int| 0 <= i < n && #[trigger] self.claim_at(i).contains(addr))
    }

    /// The addresses that the memory map makes free.
    pub open spec fn claimed(&self) -> Set<int> {
        self.claimed_up_to(self.memmap@.len() as int)
    }

    /// The addresses of the pages of the kernel image.
    pub open spec fn kernel_region(&self) -> Set<int> {
        set_int_range(
            round_down(self.kernel_start as int, BASE_PAGE_SIZE as int),
            round_up(self.image_end(), BASE_PAGE_SIZE as int),
        )
    }

    /// The addresses of the first `n` modules.
    pub open spec fn module_region(&self, n: int) -> Set<int> {
        Set::new(
            |addr: int|
                exists|i: int|
                    0 <= i < n && (#[trigger] self.modules@[i]).addresses().contains(addr),
        )
    }

    /// The addresses that must not be handed out: those of the kernel image, of the modules,
    /// of the reservations of the device tree, and of the device tree itself.
    pub open spec fn reserved(&self) -> Set<int> {
        let loaded = self.kernel_region().union(self.module_region(self.modules@.len() as int));
        match self.fdt {
            Some(fdt) => loaded.union(fdt.reserved_region(fdt.reservations@.len() as int)).union(
                fdt.tree_region(),
            ),
            None => loaded,
        }
    }

    /// Whether the memory map can be claimed on top of the free frames `free`: every entry is
    /// claimable, and nothing would become free that is free already.
    pub open spec fn memmap_valid(&self, free: Seq<PageRange>) -> bool {
        &&& forall|i: int|
            0 <= i < self.memmap@.len() ==> claimable(
                #[trigger] self.memmap@[i],
                self.e820_reserved@,
                self.image_end(),
            )
        &&& forall|i: int|
            0 <= i < self.memmap@.len() ==> region(free).disjoint(#[trigger] self.claim_at(i))
        &&& forall|i: int, j: int|
            0 <= i < j < self.memmap@.len() ==> (#[trigger] self.claim_at(i)).disjoint(
                #[trigger] self.claim_at(j),
            )
    }

    /// Whether all that the memory map makes free, without what is to be reserved, has physical
    /// addresses.
    pub open spec fn memory_physical(&self, architecture: Architecture) -> bool {
        architecture.all_physical(self.claimed().difference(self.reserved()))
    }

    /// Whether all that is to be reserved are page ranges within the address space.
    pub open spec fn reservations_valid(&self) -> bool {
        &&& round_up(self.image_end(), BASE_PAGE_SIZE as int) <= usize::MAX
        &&& round_down(self.kernel_start as int, BASE_PAGE_SIZE as int) < round_up(
            self.image_end(),
            BASE_PAGE_SIZE as int,
        )
        &&& forall|i: int| 0 <= i < self.modules@.len() ==> (#[trigger] self.modules@[i]).wf()
        &&& self.fdt matches Some(fdt) ==> fdt.valid()
    }
}

impl FdtInfo {
    /// The addresses of the first `n` memory reservations.
    pub open spec fn reserved_region(&self, n: int) -> Set<int> {
        Set::new(
            |addr: int|
                exists|i: int|
                    0 <= i < n && (#[trigger] self.reservations@[i]).0 <= addr
                        < self.reservations@[i].0 + self.reservations@[i].1,
        )
    }

    /// The addresses of the pages of the tree.
    pub open spec fn tree_region(&self) -> Set<int> {
        set_int_range(
            round_down(self.addr as int, BASE_PAGE_SIZE as int),
            round_up(self.addr + self.total_size, BASE_PAGE_SIZE as int),
        )
    }

    /// Whether the reservations are page ranges, and the tree lies within the address space.
    pub open spec fn valid(&self) -> bool {
        &&& forall|i: int|
            0 <= i < self.reservations@.len() ==> {
                &&& (#[trigger] self.reservations@[i]).0 + self.reservations@[i].1 <= usize::MAX
                &&& is_page_range(
                    self.reservations@[i].0 as int,
                    self.reservations@[i].0 + self.reservations@[i].1,
                )
            }
        &&& self.addr + self.total_size <= usize::MAX
        &&& round_up(self.addr + self.total_size, BASE_PAGE_SIZE as int) <= usize::MAX
        &&& round_down(self.addr as int, BASE_PAGE_SIZE as int) < round_up(
            self.addr + self.total_size,
            BASE_PAGE_SIZE as int,
        )
    }
}

/// End of the kernel image in memory: the linker's `_end`, or the loader-reported extent when
/// that is larger (the loader maps every segment, including those appended after linking, which
/// the linker never saw).
pub fn kernel_image_end(linked_end: usize, loaded_end: Option<usize>) -> (end: usize)
    ensures
        end == image_end(linked_end, loaded_end),
{
    match loaded_end {
        Some(loaded_end) => {
            if linked_end < loaded_end {
                loaded_end
            } else {
                linked_end
            }
        },
        None => linked_end,
    }
}

/// Whether a memory map entry lies within one of the `reserved` regions.
fn is_within_reserved(entry: MemmapEntry, reserved: &[(usize, usize)]) -> (within: bool)
    requires
        entry.phys_addr + entry.len <= usize::MAX,
    ensures
        within <==> within_reserved(entry, reserved@),
{
    let entry_end: usize = entry.phys_addr + entry.len;
    let mut k: usize = 0;
    while k < reserved.len()
        invariant
            entry_end == entry.phys_addr + entry.len,
            0 <= k <= reserved@.len(),
            forall|i: int|
                0 <= i < k ==> !((#[trigger] reserved@[i]).0 <= entry.phys_addr && entry_end
                    <= reserved@[i].1),
        decreases reserved@.len() - k,
    {
        if reserved[k].0 <= entry.phys_addr && entry_end <= reserved[k].1 {
            assert(reserved@[k as int].0 <= entry.phys_addr);
            return true;
        }
        k += 1;
    }
    false
}

/// The lowest address of a memory map entry that may become free.
///
/// The first large page is ignored, because hardcoded low addresses may be in use there. So is
/// all that lies below the end of the kernel image, because the loader may have put its own
/// image, the boot stack and the live page tables there without announcing them.
fn claim_floor(entry: MemmapEntry, image_end: usize) -> (floor: usize)
    ensures
        floor == larger(
            larger(entry.phys_addr as int, LARGE_PAGE_SIZE as int),
            image_end as int,
        ),
{
    let mut floor: usize = entry.phys_addr;
    if floor < LARGE_PAGE_SIZE {
        floor = LARGE_PAGE_SIZE;
    }
    if floor < image_end {
        floor = image_end;
    }
    floor
}

/// The pages that a memory map entry makes free, if any.
fn claim_range(entry: MemmapEntry, reserved: &[(usize, usize)], image_end: usize) -> (range: Option<
    PageRange,
>)
    requires
        claimable(entry, reserved@, image_end as int),
    ensures
        match range {
            Some(range) => {
                &&& range.wf()
                &&& range.addresses() == claim(entry, reserved@, image_end as int)
            },
            None => claim(entry, reserved@, image_end as int) == Set::<int>::empty(),
        },
{
    if entry.ty != MemmapType::Ram {
        return None;
    }
    // Skip entries that fall entirely within a region that is not usable memory.
    if is_within_reserved(entry, reserved) {
        return None;
    }
    assert(usable(entry, reserved@));
    let start: usize = claim_floor(entry, image_end);
    let entry_end: usize = entry.phys_addr + entry.len;
    proof {
        lemma_page_sizes();
        lemma_rounding(start as int, BASE_PAGE_SIZE as int);
        lemma_rounding(entry_end as int, BASE_PAGE_SIZE as int);
    }
    let start_addr: usize = align_up(start, BASE_PAGE_SIZE);
    let end_addr: usize = align_down(entry_end, BASE_PAGE_SIZE);
    if start_addr > end_addr {
        assert(claim(entry, reserved@, image_end as int) =~= Set::empty());
        return None;
    }
    Some(PageRange::new(start_addr, end_addr).unwrap())
}

/// Whether `addr` rounded up to whole pages is within the address space.
fn rounds_up(addr: usize) -> (fits: bool)
    ensures
        fits <==> round_up(addr as int, BASE_PAGE_SIZE as int) <= usize::MAX,
{
    addr <= usize::MAX - (BASE_PAGE_SIZE - 1)
}

/// Whether `start..end` is contained in a page range.
fn is_contained(start: usize, end: usize) -> (contained: bool)
    ensures
        contained <==> {
            &&& round_up(end as int, BASE_PAGE_SIZE as int) <= usize::MAX
            &&& round_down(start as int, BASE_PAGE_SIZE as int) < round_up(
                end as int,
                BASE_PAGE_SIZE as int,
            )
        },
{
    PageRange::containing(start, end).is_ok()
}

/// Whether a memory map entry is claimable.
fn is_claimable(entry: MemmapEntry, reserved: &[(usize, usize)], image_end: usize) -> (result: bool)
    ensures
        result <==> claimable(entry, reserved@, image_end as int),
{
    if entry.ty != MemmapType::Ram {
        return true;
    }
    if entry.len > usize::MAX - entry.phys_addr {
        return false;
    }
    if is_within_reserved(entry, reserved) {
        return true;
    }
    assert(usable(entry, reserved@));
    let floor: usize = claim_floor(entry, image_end);
    if !rounds_up(floor) {
        return false;
    }
    proof {
        lemma_page_sizes();
    }
    align_up(floor, BASE_PAGE_SIZE) != align_down(entry.phys_addr + entry.len, BASE_PAGE_SIZE)
}

/// The claims of the first `n + 1` memory map entries are those of the first `n` and that of
/// the next one.
proof fn lemma_claimed_next(info: StartInfo, n: int)
    requires
        0 <= n,
    ensures
        info.claimed_up_to(n + 1) == info.claimed_up_to(n).union(info.claim_at(n)),
{
    assert forall|addr: int|
        info.claimed_up_to(n + 1).contains(addr) <==> info.claimed_up_to(n).union(
            info.claim_at(n),
        ).contains(addr) by {
        if info.claimed_up_to(n + 1).contains(addr) {
            let i = choose|i: int|
                0 <= i < n + 1 && #[trigger] info.claim_at(i).contains(addr);
            if i < n {
                assert(info.claim_at(i).contains(addr));
            }
        }
        if info.claim_at(n).contains(addr) {
            assert(0 <= n < n + 1);
        }
    }
    assert(info.claimed_up_to(n + 1) =~= info.claimed_up_to(n).union(info.claim_at(n)));
}

/// Whether the memory map can be claimed on top of what is free.
fn memmap_is_valid(frames: &FrameAlloc, info: &StartInfo) -> (valid: bool)
    requires
        frames.wf(),
    ensures
        valid <==> info.memmap_valid(frames.free()),
{
    let image_end: usize = kernel_image_end(info.linked_end, info.loaded_end);
    let reserved = info.e820_reserved.as_slice();
    let mut scratch = frames.free_ranges();
    let mut index: usize = 0;
    assert(region(scratch@) =~= frames.free_region().union(info.claimed_up_to(0)));
    while index < info.memmap.len()
        invariant
            frames.wf(),
            scratch.wf(),
            image_end == info.image_end(),
            reserved@ == info.e820_reserved@,
            0 <= index <= info.memmap@.len(),
            region(scratch@) == frames.free_region().union(info.claimed_up_to(index as int)),
            forall|i: int|
                0 <= i < index ==> claimable(
                    #[trigger] info.memmap@[i],
                    info.e820_reserved@,
                    info.image_end(),
                ),
            forall|i: int|
                0 <= i < index ==> frames.free_region().disjoint(#[trigger] info.claim_at(i)),
            forall|i: int, j: int|
                0 <= i < j < index ==> (#[trigger] info.claim_at(i)).disjoint(
                    #[trigger] info.claim_at(j),
                ),
        decreases info.memmap@.len() - index,
    {
        let entry = info.memmap[index];
        if !is_claimable(entry, reserved, image_end) {
            assert(!claimable(
                info.memmap@[index as int],
                info.e820_reserved@,
                info.image_end(),
            ));
            return false;
        }
        let ghost claims = info.claim_at(index as int);
        let ghost before = region(scratch@);
        match claim_range(entry, reserved, image_end) {
            Some(range) => {
                if scratch.overlaps(range) {
                    proof {
                        let addr = choose|addr: int|
                            before.contains(addr) && range.addresses().contains(addr);
                        assert(claims.contains(addr));
                        if info.claimed_up_to(index as int).contains(addr) {
                            let i = choose|i: int|
                                0 <= i < index && #[trigger] info.claim_at(i).contains(addr);
                            assert(!info.claim_at(i).disjoint(info.claim_at(index as int)));
                        } else {
                            assert(!frames.free_region().disjoint(info.claim_at(index as int)));
                        }
                        assert(!info.memmap_valid(frames.free()));
                    }
                    return false;
                }
                scratch.deallocate(range).unwrap();
            },
            None => {},
        }
        proof {
            assert(before.disjoint(claims));
            assert(region(scratch@) =~= before.union(claims));
            assert forall|i: int| 0 <= i < index implies (#[trigger] info.claim_at(i)).disjoint(
                claims,
            ) by {
                assert forall|addr: int| info.claim_at(i).contains(addr) implies !claims.contains(
                    addr,
                ) by {
                    assert(info.claimed_up_to(index as int).contains(addr));
                    assert(before.contains(addr));
                }
            }
            assert(frames.free_region().disjoint(claims)) by {
                assert forall|addr: int| frames.free_region().contains(
                    addr,
                ) implies !claims.contains(addr) by {
                    assert(before.contains(addr));
                }
            }
            lemma_claimed_next(*info, index as int);
            assert(region(scratch@) =~= frames.free_region().union(
                info.claimed_up_to(index + 1),
            ));
        }
        index += 1;
    }
    true
}

/// Whether all that is to be reserved are page ranges within the address space.
fn reservations_are_valid(info: &StartInfo) -> (valid: bool)
    ensures
        valid <==> info.reservations_valid(),
{
    if !is_contained(info.kernel_start, kernel_image_end(info.linked_end, info.loaded_end)) {
        return false;
    }
    let mut index: usize = 0;
    while index < info.modules.len()
        invariant
            0 <= index <= info.modules@.len(),
            forall|i: int| 0 <= i < index ==> (#[trigger] info.modules@[i]).wf(),
        decreases info.modules@.len() - index,
    {
        let module = info.modules[index];
        if PageRange::new(module.start, module.end).is_err() {
            assert(!info.modules@[index as int].wf());
            return false;
        }
        index += 1;
    }
    match &info.fdt {
        Some(fdt) => fdt_is_valid(fdt),
        None => true,
    }
}

/// Whether the reservations of a device tree are page ranges, and the tree lies within the
/// address space.
fn fdt_is_valid(fdt: &FdtInfo) -> (valid: bool)
    ensures
        valid <==> fdt.valid(),
{
    let mut index: usize = 0;
    while index < fdt.reservations.len()
        invariant
            0 <= index <= fdt.reservations@.len(),
            forall|i: int|
                0 <= i < index ==> {
                    &&& (#[trigger] fdt.reservations@[i]).0 + fdt.reservations@[i].1 <= usize::MAX
                    &&& is_page_range(
                        fdt.reservations@[i].0 as int,
                        fdt.reservations@[i].0 + fdt.reservations@[i].1,
                    )
                },
        decreases fdt.reservations@.len() - index,
    {
        let (start, size): (usize, usize) = fdt.reservations[index];
        assert(fdt.reservations@[index as int] == (start, size));
        if PageRange::from_start_len(start, size).is_err() {
            return false;
        }
        index += 1;
    }
    if fdt.total_size > usize::MAX - fdt.addr {
        return false;
    }
    is_contained(fdt.addr, fdt.addr + fdt.total_size)
}

/// Makes the memory of the memory map free, except for what is in use.
fn claim_memory(list: &mut RangeList, info: &StartInfo)
    requires
        old(list).wf(),
        info.memmap_valid(old(list)@),
        info.reservations_valid(),
    ensures
        final(list).wf(),
        region(final(list)@) == region(old(list)@).union(info.claimed()).difference(
            info.reserved(),
        ),
{
    let image_end: usize = kernel_image_end(info.linked_end, info.loaded_end);
    let reserved = info.e820_reserved.as_slice();
    let ghost free = list@;
    let mut index: usize = 0;
    assert(region(list@) =~= region(free).union(info.claimed_up_to(0)));
    while index < info.memmap.len()
        invariant
            list.wf(),
            free == old(list)@,
            info.memmap_valid(free),
            image_end == info.image_end(),
            reserved@ == info.e820_reserved@,
            0 <= index <= info.memmap@.len(),
            region(list@) == region(free).union(info.claimed_up_to(index as int)),
        decreases info.memmap@.len() - index,
    {
        let entry = info.memmap[index];
        let ghost before = region(list@);
        proof {
            let claims = info.claim_at(index as int);
            assert(region(free).disjoint(claims));
            assert forall|addr: int| before.contains(addr) implies !claims.contains(addr) by {
                if info.claimed_up_to(index as int).contains(addr) {
                    let i = choose|i: int|
                        0 <= i < index && #[trigger] info.claim_at(i).contains(addr);
                    assert(info.claim_at(i).disjoint(info.claim_at(index as int)));
                }
            }
            assert(before.disjoint(claims));
            assert(claimable(info.memmap@[index as int], info.e820_reserved@, info.image_end()));
        }
        match claim_range(entry, reserved, image_end) {
            Some(range) => {
                list.deallocate(range).unwrap();
            },
            None => {},
        }
        proof {
            assert(region(list@) =~= before.union(info.claim_at(index as int)));
            lemma_claimed_next(*info, index as int);
            assert(region(list@) =~= region(free).union(info.claimed_up_to(index + 1)));
        }
        index += 1;
    }
    let ghost claimed = region(list@);
    let kernel_region = PageRange::containing(info.kernel_start, image_end).unwrap();
    reserve(list, kernel_region);
    assert(region(list@) =~= claimed.difference(
        info.kernel_region().union(info.module_region(0)),
    ));
    reserve_modules(list, info);
    let ghost loaded = info.kernel_region().union(info.module_region(info.modules@.len() as int));
    assert(region(list@) =~= claimed.difference(loaded));
    match &info.fdt {
        Some(fdt) => {
            reserve_fdt(list, fdt);
            assert(region(list@) =~= claimed.difference(info.reserved()));
        },
        None => {},
    }
}

/// Whether all addresses of the free ranges are physical addresses.
fn is_physical_list(architecture: Architecture, list: &RangeList) -> (result: bool)
    requires
        list.wf(),
    ensures
        result <==> architecture.all_physical(region(list@)),
{
    let ranges = list.to_vec();
    let mut index: usize = 0;
    while index < ranges.len()
        invariant
            list.wf(),
            ranges@ == list@,
            0 <= index <= ranges@.len(),
            forall|i: int|
                0 <= i < index ==> architecture.all_physical((#[trigger] ranges@[i]).addresses()),
        decreases ranges@.len() - index,
    {
        if !is_physical_range(architecture, ranges[index]) {
            proof {
                lemma_entry(list@, index as int);
            }
            return false;
        }
        index += 1;
    }
    proof {
        assert forall|addr: int| #[trigger] region(list@).contains(
            addr,
        ) implies architecture.is_physical(addr) by {
            let i = choose|i: int|
                0 <= i < list@.len() && (#[trigger] list@[i]).start <= addr < list@[i].end;
            assert(architecture.all_physical(ranges@[i].addresses()));
            assert(ranges@[i].addresses().contains(addr));
        }
    }
    true
}

/// Whether [`detect_from_start_info`] can be applied.
pub fn start_info_is_valid(frames: &FrameAlloc, info: &StartInfo) -> (valid: bool)
    requires
        frames.wf(),
    ensures
        valid <==> info.memmap_valid(frames.free()) && info.reservations_valid()
            && info.memory_physical(frames.architecture()),
{
    if !memmap_is_valid(frames, info) || !reservations_are_valid(info) {
        return false;
    }
    let mut scratch = frames.free_ranges();
    claim_memory(&mut scratch, info);
    proof {
        let architecture = frames.architecture();
        if architecture.all_physical(region(scratch@)) {
            assert forall|addr: int| #[trigger] info.claimed().difference(
                info.reserved(),
            ).contains(addr) implies architecture.is_physical(addr) by {
                assert(region(scratch@).contains(addr));
            }
        }
        if info.memory_physical(architecture) {
            lemma_claimed_physical(*info, architecture, frames.free(), scratch@);
        }
    }
    is_physical_list(frames.architecture, &scratch)
}

/// What is free once the memory has been claimed has physical addresses.
proof fn lemma_claimed_physical(
    info: StartInfo,
    architecture: Architecture,
    before: Seq<PageRange>,
    after: Seq<PageRange>,
)
    requires
        architecture.all_physical(region(before)),
        info.memory_physical(architecture),
        region(after) == region(before).union(info.claimed()).difference(info.reserved()),
    ensures
        architecture.all_physical(region(after)),
{
    assert forall|addr: int| #[trigger] region(after).contains(
        addr,
    ) implies architecture.is_physical(addr) by {
        if !region(before).contains(addr) {
            assert(info.claimed().difference(info.reserved()).contains(addr));
        }
    }
}

/// Makes the memory of the memory map free, except for what is in use, and returns the ranges
/// that are free then.
///
/// What is free afterwards is what was free before and the usable memory above the kernel
/// image, without the pages of the kernel image, the modules, the reservations of the device
/// tree and the device tree itself.
pub fn detect_from_start_info(frames: &mut FrameAlloc, info: &StartInfo) -> (frame_ranges: Vec<
    PageRange,
>)
    requires
        old(frames).wf(),
        info.memmap_valid(old(frames).free()),
        info.reservations_valid(),
        info.memory_physical(old(frames).architecture()),
    ensures
        final(frames).wf(),
        final(frames).total() == old(frames).total(),
        final(frames).architecture() == old(frames).architecture(),
        final(frames).free_region() == old(frames).free_region().union(info.claimed()).difference(
            info.reserved(),
        ),
        frame_ranges@ == final(frames).free(),
{
    claim_memory(&mut frames.free_list, info);
    proof {
        lemma_claimed_physical(
            *info,
            frames.architecture(),
            old(frames).free(),
            frames.free(),
        );
    }
    frames.free_list.to_vec()
}

/// Reserves the frames of the modules.
fn reserve_modules(list: &mut RangeList, info: &StartInfo)
    requires
        old(list).wf(),
        forall|i: int| 0 <= i < info.modules@.len() ==> (#[trigger] info.modules@[i]).wf(),
    ensures
        final(list).wf(),
        region(final(list)@) == region(old(list)@).difference(
            info.module_region(info.modules@.len() as int),
        ),
{
    let ghost before = region(list@);
    let mut index: usize = 0;
    assert(before.difference(info.module_region(0)) =~= before);
    while index < info.modules.len()
        invariant
            list.wf(),
            0 <= index <= info.modules@.len(),
            forall|i: int| 0 <= i < info.modules@.len() ==> (#[trigger] info.modules@[i]).wf(),
            region(list@) == before.difference(info.module_region(index as int)),
        decreases info.modules@.len() - index,
    {
        let module = info.modules[index];
        reserve(list, module);
        proof {
            assert forall|addr: int|
                info.module_region(index + 1).contains(addr) <==> (info.module_region(
                    index as int,
                ).contains(addr) || module.addresses().contains(addr)) by {
                if info.module_region(index + 1).contains(addr) {
                    let i = choose|i: int|
                        0 <= i < index + 1 && (#[trigger] info.modules@[i]).addresses().contains(
                            addr,
                        );
                    if i < index {
                        assert(info.modules@[i].addresses().contains(addr));
                    }
                }
                if module.addresses().contains(addr) {
                    assert(info.modules@[index as int].addresses().contains(addr));
                }
            }
            assert(region(list@) =~= before.difference(info.module_region(index + 1)));
        }
        index += 1;
    }
}

/// Reserves the memory reservations of a device tree and the tree itself.
fn reserve_fdt(list: &mut RangeList, fdt: &FdtInfo)
    requires
        old(list).wf(),
        fdt.valid(),
    ensures
        final(list).wf(),
        region(final(list)@) == region(old(list)@).difference(
            fdt.reserved_region(fdt.reservations@.len() as int),
        ).difference(fdt.tree_region()),
{
    let ghost before = region(list@);
    let mut index: usize = 0;
    assert(before.difference(fdt.reserved_region(0)) =~= before);
    while index < fdt.reservations.len()
        invariant
            list.wf(),
            fdt.valid(),
            0 <= index <= fdt.reservations@.len(),
            region(list@) == before.difference(fdt.reserved_region(index as int)),
        decreases fdt.reservations@.len() - index,
    {
        let (start, size): (usize, usize) = fdt.reservations[index];
        assert(fdt.reservations@[index as int] == (start, size));
        let end: usize = start + size;
        let reservation = PageRange::new(start, end).unwrap();
        reserve(list, reservation);
        proof {
            assert forall|addr: int|
                fdt.reserved_region(index + 1).contains(addr) <==> (fdt.reserved_region(
                    index as int,
                ).contains(addr) || start <= addr < end) by {
                if fdt.reserved_region(index + 1).contains(addr) {
                    let i = choose|i: int|
                        0 <= i < index + 1 && (#[trigger] fdt.reservations@[i]).0 <= addr
                            < fdt.reservations@[i].0 + fdt.reservations@[i].1;
                    if i < index {
                        assert(fdt.reservations@[i].0 <= addr);
                    }
                }
                if start <= addr < end {
                    assert(fdt.reservations@[index as int].0 <= addr);
                }
            }
            assert(region(list@) =~= before.difference(fdt.reserved_region(index + 1)));
        }
        index += 1;
    }
    let fdt_end: usize = fdt.addr + fdt.total_size;
    let fdt_region = PageRange::containing(fdt.addr, fdt_end).unwrap();
    reserve(list, fdt_region);
}

/// The mappings that make a range of frames accessible.
pub struct FrameMappings {
    /// The addresses of the pages that are mapped to the frames of the same address.
    pub identity: Vec<usize>,
    /// The virtual and the physical addresses of the pages that are mapped at an offset.
    pub device: Vec<(usize, usize)>,
    /// How the pages are to be mapped that are mapped at an offset.
    pub device_flags: PageTableEntryFlags,
}

/// Whether `page_size` is one of the page sizes.
pub open spec fn is_page_size(page_size: usize) -> bool {
    page_size == BASE_PAGE_SIZE || page_size == LARGE_PAGE_SIZE || page_size == HUGE_PAGE_SIZE
}

/// Whether all the pages that `frame_range` touches have physical addresses, and virtual addresses
/// at `phys_offset`, if that is not zero.
pub open spec fn mappable(
    frame_range: PageRange,
    architecture: Architecture,
    phys_offset: usize,
) -> bool {
    let page_size = architecture.identity_size();
    let start = round_down(frame_range.start as int, page_size as int);
    let end = round_up(frame_range.end as int, page_size as int);
    &&& end <= usize::MAX
    &&& forall|addr: int|
        start <= addr < end && #[trigger] (addr % (page_size as int)) == 0 ==> {
            &&& architecture.is_physical(addr)
            &&& phys_offset != 0 ==> {
                &&& phys_offset + addr <= usize::MAX
                &&& architecture.is_virtual(phys_offset + addr)
            }
        }
}

/// Between two multiples of `page_size`, there is room for a page.
proof fn lemma_page_room(addr: int, end: int, page_size: int)
    requires
        0 < page_size,
        addr < end,
        addr % page_size == 0,
        end % page_size == 0,
    ensures
        addr + page_size <= end,
        (addr + page_size) % page_size == 0,
{
    vstd::arithmetic::div_mod::lemma_fundamental_div_mod(addr, page_size);
    vstd::arithmetic::div_mod::lemma_fundamental_div_mod(end, page_size);
    vstd::arithmetic::div_mod::lemma_mod_add_multiples_vanish(addr, page_size);
    let a = addr / page_size;
    let e = end / page_size;
    assert(a < e) by (nonlinear_arith)
        requires
            page_size * a < page_size * e,
            0 < page_size,
    ;
    assert(page_size * a + page_size <= page_size * e) by (nonlinear_arith)
        requires
            a + 1 <= e,
            0 < page_size,
    ;
}

/// The address space ends at a multiple of every page size.
proof fn lemma_rounds_beyond(addr: int, page_size: usize)
    requires
        is_page_size(page_size),
        addr + page_size - 1 > usize::MAX,
    ensures
        round_up(addr, page_size as int) > usize::MAX,
{
    let last = addr + page_size - 1;
    assert(usize::MAX == 0xffff_ffff || usize::MAX == 0xffff_ffff_ffff_ffff);
    if page_size == BASE_PAGE_SIZE {
        assert(last - last % 0x1000 > usize::MAX);
    } else if page_size == LARGE_PAGE_SIZE {
        assert(last - last % 0x20_0000 > usize::MAX);
    } else {
        assert(last - last % 0x4000_0000 > usize::MAX);
    }
}

/// Whether [`map_frame_range`] can be applied.
pub fn is_mappable(frame_range: PageRange, architecture: Architecture, phys_offset: usize) -> (result:
    bool)
    requires
        frame_range.wf(),
    ensures
        result <==> mappable(frame_range, architecture, phys_offset),
{
    let page_size: usize = architecture.identity_page_size();
    proof {
        lemma_page_sizes();
        lemma_rounding(frame_range.start as int, page_size as int);
        lemma_rounding(frame_range.end as int, page_size as int);
    }
    if frame_range.end > usize::MAX - (page_size - 1) {
        proof {
            lemma_rounds_beyond(frame_range.end as int, page_size);
        }
        return false;
    }
    let start: usize = align_down(frame_range.start, page_size);
    let end: usize = align_up(frame_range.end, page_size);
    let mut addr: usize = start;
    while addr < end
        invariant
            page_size == architecture.identity_size(),
            is_page_size(page_size),
            start == round_down(frame_range.start as int, page_size as int),
            end == round_up(frame_range.end as int, page_size as int),
            start <= addr <= end,
            addr as int % page_size as int == 0,
            end as int % page_size as int == 0,
            forall|a: int|
                start <= a < addr && #[trigger] (a % (page_size as int)) == 0 ==> {
                    &&& architecture.is_physical(a)
                    &&& phys_offset != 0 ==> {
                        &&& phys_offset + a <= usize::MAX
                        &&& architecture.is_virtual(phys_offset + a)
                    }
                },
        decreases end - addr,
    {
        if !is_physical_address(architecture, addr) {
            assert(addr as int % page_size as int == 0);
            return false;
        }
        if phys_offset != 0 {
            if phys_offset > usize::MAX - addr || !is_virtual_address(
                architecture,
                phys_offset + addr,
            ) {
                assert(addr as int % page_size as int == 0);
                return false;
            }
        }
        proof {
            lemma_page_room(addr as int, end as int, page_size as int);
            assert forall|a: int|
                addr < a < addr + page_size implies #[trigger] (a % (page_size as int)) != 0 by {
                if a % (page_size as int) == 0 {
                    lemma_page_room(addr as int, a, page_size as int);
                }
            }
        }
        addr += page_size;
    }
    true
}

/// The mappings that make the frames of `frame_range` accessible: each page that the range
/// touches, of the size that the architecture maps frames with, is mapped to the frame of the
/// same address and, if devices access memory at an offset, at `phys_offset` too, writable but not
/// executable.
pub fn map_frame_range(
    frame_range: PageRange,
    architecture: Architecture,
    phys_offset: usize,
) -> (mappings: FrameMappings)
    requires
        frame_range.wf(),
        mappable(frame_range, architecture, phys_offset),
    ensures
        mappings.identity@.len() * architecture.identity_size() == round_up(
            frame_range.end as int,
            architecture.identity_size() as int,
        ) - round_down(frame_range.start as int, architecture.identity_size() as int),
        forall|i: int|
            0 <= i < mappings.identity@.len() ==> #[trigger] mappings.identity@[i] == round_down(
                frame_range.start as int,
                architecture.identity_size() as int,
            ) + i * architecture.identity_size(),
        mappings.device@.len() == (if phys_offset != 0 {
            mappings.identity@.len()
        } else {
            0
        }),
        forall|i: int|
            0 <= i < mappings.device@.len() ==> {
                &&& (#[trigger] mappings.device@[i]).0 == phys_offset + mappings.identity@[i]
                &&& mappings.device@[i].1 == mappings.identity@[i]
            },
        mappings.device_flags == (PageTableEntryFlags {
            accessible: true,
            normal: true,
            writable: true,
            execute_disable: true,
        }),
{
    let page_size: usize = architecture.identity_page_size();
    proof {
        lemma_page_sizes();
        lemma_rounding(frame_range.start as int, page_size as int);
        lemma_rounding(frame_range.end as int, page_size as int);
    }
    let start: usize = align_down(frame_range.start, page_size);
    let end: usize = align_up(frame_range.end, page_size);
    let mut identity: Vec<usize> = Vec::new();
    let mut device: Vec<(usize, usize)> = Vec::new();
    let mut addr: usize = start;
    assert(identity@.len() * page_size == 0) by (nonlinear_arith)
        requires
            identity@.len() == 0,
    ;
    while addr < end
        invariant
            page_size == architecture.identity_size(),
            is_page_size(page_size),
            mappable(frame_range, architecture, phys_offset),
            start == round_down(frame_range.start as int, page_size as int),
            end == round_up(frame_range.end as int, page_size as int),
            start <= addr <= end,
            addr as int % page_size as int == 0,
            end as int % page_size as int == 0,
            identity@.len() * page_size == addr - start,
            forall|i: int|
                0 <= i < identity@.len() ==> #[trigger] identity@[i] == start + i * page_size,
            device@.len() == (if phys_offset != 0 {
                identity@.len()
            } else {
                0
            }),
            forall|i: int|
                0 <= i < device@.len() ==> {
                    &&& (#[trigger] device@[i]).0 == phys_offset + identity@[i]
                    &&& device@[i].1 == identity@[i]
                },
        decreases end - addr,
    {
        assert(addr as int % page_size as int == 0);
        let phys_addr: usize = phys_new(architecture, addr);
        if phys_offset != 0 {
            device.push((phys_offset + phys_addr, phys_addr));
        }
        proof {
            lemma_page_room(addr as int, end as int, page_size as int);
            let n = identity@.len() as int;
            assert((n + 1) * page_size == n * page_size + page_size) by (nonlinear_arith);
        }
        identity.push(phys_addr);
        addr += page_size;
    }
    let device_flags = PageTableEntryFlags {
        accessible: true,
        normal: true,
        writable: true,
        execute_disable: true,
    };
    FrameMappings { identity, device, device_flags }
}

/// Records how much memory is free as the total memory.
///
/// It is recorded once the free frames have been mapped, as the page tables take some of them.
pub fn store_total_memory(frames: &mut FrameAlloc)
    requires
        old(frames).wf(),
    ensures
        final(frames).wf(),
        final(frames).architecture() == old(frames).architecture(),
        final(frames).free() == old(frames).free(),
        final(frames).total() == old(frames).free_region().len(),
        old(frames).free_region().finite(),
{
    frames.total_memory = frames.free_list.free_space();
}

/// The number of bytes of memory that were recorded as the total.
pub fn total_memory_size(frames: &FrameAlloc) -> (size: usize)
    ensures
        size == frames.total(),
{
    frames.total_memory
}

/// What is to be done with the page tables when the allocator starts.
pub struct InitPlan {
    /// The first address and the number of the huge pages to unmap, if any, before anything is
    /// mapped.
    pub unmap: Option<(usize, usize)>,
    /// The frames to map.
    pub frame_ranges: Vec<PageRange>,
}

/// Starts the allocator with the memory that `info` describes.
///
/// On x86-64, the huge pages that were mapped at `phys_offset` by the boot environment are to
/// be unmapped first.
pub fn init(frames: &mut FrameAlloc, info: &StartInfo, phys_offset: usize) -> (plan: InitPlan)
    requires
        old(frames).wf(),
        info.memmap_valid(old(frames).free()),
        info.reservations_valid(),
        info.memory_physical(old(frames).architecture()),
    ensures
        final(frames).wf(),
        final(frames).total() == old(frames).total(),
        final(frames).architecture() == old(frames).architecture(),
        final(frames).free_region() == old(frames).free_region().union(info.claimed()).difference(
            info.reserved(),
        ),
        plan.frame_ranges@ == final(frames).free(),
        plan.unmap == (if old(frames).architecture() == Architecture::X86_64 && phys_offset != 0 {
            Some((phys_offset, phys_offset / HUGE_PAGE_SIZE))
        } else {
            None
        }),
{
    let unmap = if frames.architecture == Architecture::X86_64 && phys_offset != 0 {
        Some((phys_offset, phys_offset / HUGE_PAGE_SIZE))
    } else {
        None
    };
    let frame_ranges = detect_from_start_info(frames, info);
    InitPlan { unmap, frame_ranges }
}

impl FrameAlloc {
    /// Starts the allocator: see [`init`].
    pub fn init(&mut self, info: &StartInfo, phys_offset: usize) -> (plan: InitPlan)
        requires
            old(self).wf(),
            info.memmap_valid(old(self).free()),
            info.reservations_valid(),
            info.memory_physical(old(self).architecture()),
        ensures
            final(self).wf(),
            final(self).total() == old(self).total(),
            final(self).architecture() == old(self).architecture(),
            final(self).free_region() == old(self).free_region().union(info.claimed()).difference(
                info.reserved(),
            ),
            plan.frame_ranges@ == final(self).free(),
            plan.unmap == (if old(self).architecture() == Architecture::X86_64 && phys_offset != 0 {
                Some((phys_offset, phys_offset / HUGE_PAGE_SIZE))
            } else {
                None
            }),
    {
        init(self, info, phys_offset)
    }

    /// The free frames as text, one range to a line.
    pub fn to_string(&self) -> (text: String)
        requires
            self.wf(),
        ensures
            text@ == "FrameAlloc free list:\n"@ + listing(self.free()),
    {
        let mut text = String::from_str("FrameAlloc free list:\n");
        let lines = self.free_list.to_text();
        text.append(lines.as_str());
        text
    }
}

/// Whatever becomes free of the memory map is usable memory that no E820 entry reserves, above
/// the first large page and above the kernel image.
pub proof fn law_claims_are_usable_memory(info: StartInfo, addr: int)
    requires
        info.claimed().contains(addr),
    ensures
        exists|i: int|
            0 <= i < info.memmap@.len() && usable(
                #[trigger] info.memmap@[i],
                info.e820_reserved@,
            ) && info.memmap@[i].phys_addr <= addr < info.memmap@[i].phys_addr
                + info.memmap@[i].len,
        LARGE_PAGE_SIZE <= addr,
        info.image_end() <= addr,
{
    let i = choose|i: int|
        0 <= i < info.memmap@.len() && #[trigger] info.claim_at(i).contains(addr);
    let entry = info.memmap@[i];
    lemma_rounding(
        larger(larger(entry.phys_addr as int, LARGE_PAGE_SIZE as int), info.image_end()),
        BASE_PAGE_SIZE as int,
    );
    lemma_rounding(entry.phys_addr + entry.len, BASE_PAGE_SIZE as int);
}

/// A memory map entry that lies within any region of the E820 table that is not usable memory
/// makes nothing free: none of its addresses is claimed, unless another entry has it too.
pub proof fn law_e820_regions_are_not_claimed(
    info: StartInfo,
    table: Seq<u8>,
    nentries: int,
    region_index: int,
    entry_index: int,
    addr: int,
)
    requires
        info.e820_reserved@ == reserved_entries(table, nentries),
        reserved_ends_fit(table, nentries),
        0 <= region_index < nentries,
        is_reserved(e820_entry_at(table, region_index)),
        0 <= entry_index < info.memmap@.len(),
        e820_entry_at(table, region_index).start <= info.memmap@[entry_index].phys_addr,
        info.memmap@[entry_index].phys_addr + info.memmap@[entry_index].len <= e820_entry_at(
            table,
            region_index,
        ).start + e820_entry_at(table, region_index).size,
        info.memmap@[entry_index].phys_addr <= addr < info.memmap@[entry_index].phys_addr
            + info.memmap@[entry_index].len,
        forall|i: int|
            0 <= i < info.memmap@.len() && i != entry_index ==> !((
            #[trigger] info.memmap@[i]).phys_addr <= addr < info.memmap@[i].phys_addr
                + info.memmap@[i].len),
    ensures
        info.claim_at(entry_index) == Set::<int>::empty(),
        !info.claimed().contains(addr),
{
    let position = lemma_reserved_entry(table, nentries, region_index);
    assert(info.e820_reserved@[position].0 <= info.memmap@[entry_index].phys_addr);
    assert(within_reserved(info.memmap@[entry_index], info.e820_reserved@));
    if info.claimed().contains(addr) {
        law_claims_are_usable_memory(info, addr);
    }
}

/// After the memory has been detected, nothing is free of the kernel image, the modules, the
/// reservations of the device tree, and the device tree itself.
pub proof fn law_reserved_memory_is_not_free(
    info: StartInfo,
    before: Seq<PageRange>,
    after: Seq<PageRange>,
)
    requires
        region(after) == region(before).union(info.claimed()).difference(info.reserved()),
    ensures
        region(after).disjoint(info.kernel_region()),
        forall|i: int|
            0 <= i < info.modules@.len() ==> region(after).disjoint(
                (#[trigger] info.modules@[i]).addresses(),
            ),
        info.fdt matches Some(fdt) ==> {
            &&& forall|i: int|
                0 <= i < fdt.reservations@.len() ==> region(after).disjoint(
                    set_int_range(
                        (#[trigger] fdt.reservations@[i]).0 as int,
                        fdt.reservations@[i].0 + fdt.reservations@[i].1,
                    ),
                )
            &&& region(after).disjoint(fdt.tree_region())
        },
{
    assert forall|i: int| 0 <= i < info.modules@.len() implies region(after).disjoint(
        (#[trigger] info.modules@[i]).addresses(),
    ) by {
        assert forall|addr: int| info.modules@[i].addresses().contains(addr) implies !region(
            after,
        ).contains(addr) by {
            assert(info.module_region(info.modules@.len() as int).contains(addr));
            assert(info.reserved().contains(addr));
        }
    }
    if let Some(fdt) = info.fdt {
        assert forall|i: int| 0 <= i < fdt.reservations@.len() implies region(after).disjoint(
            set_int_range(
                (#[trigger] fdt.reservations@[i]).0 as int,
                fdt.reservations@[i].0 + fdt.reservations@[i].1,
            ),
        ) by {
            assert forall|addr: int|
                fdt.reservations@[i].0 <= addr < fdt.reservations@[i].0
                    + fdt.reservations@[i].1 implies !region(after).contains(addr) by {
                assert(fdt.reserved_region(fdt.reservations@.len() as int).contains(addr));
                assert(info.reserved().contains(addr));
            }
        }
    }
}

/// Every address of a range of frames is made accessible by one of the pages that the range is
/// mapped with.
pub proof fn law_mappings_cover_frames(
    frame_range: PageRange,
    page_size: usize,
    identity: Seq<usize>,
    addr: int,
)
    requires
        is_page_size(page_size),
        identity.len() * page_size == round_up(frame_range.end as int, page_size as int)
            - round_down(frame_range.start as int, page_size as int),
        forall|i: int|
            0 <= i < identity.len() ==> #[trigger] identity[i] == round_down(
                frame_range.start as int,
                page_size as int,
            ) + i * page_size,
        frame_range.addresses().contains(addr),
    ensures
        exists|i: int|
            0 <= i < identity.len() && #[trigger] identity[i] <= addr < identity[i] + page_size,
{
    let size = page_size as int;
    let start = round_down(frame_range.start as int, size);
    lemma_rounding(frame_range.start as int, size);
    lemma_rounding(frame_range.end as int, size);
    let i = (addr - start) / size;
    let n = identity.len() as int;
    vstd::arithmetic::div_mod::lemma_fundamental_div_mod(addr - start, size);
    assert(i * size <= addr - start < i * size + size) by (nonlinear_arith)
        requires
            addr - start == size * i + (addr - start) % size,
            0 <= (addr - start) % size < size,
    ;
    assert(0 <= i < n) by (nonlinear_arith)
        requires
            0 < size,
            0 <= addr - start < n * size,
            i * size <= addr - start < i * size + size,
    ;
    assert(identity[i] == start + i * page_size);
}

/// The image ends where the linker and the loader agree that nothing more of it follows.
pub proof fn law_image_end(linked_end: usize, loaded_end: Option<usize>, addr: int)
    ensures
        image_end(linked_end, loaded_end) <= addr <==> linked_end <= addr && (loaded_end matches
            Some(loaded_end) ==> loaded_end <= addr),
{
}

/// A memory map entry makes a page free exactly if it is usable memory, does not lie within a
/// region that is not, and has all of the page, which starts no lower than 2 MiB and no lower than
/// the kernel image ends according to the linker and the loader.
pub proof fn law_entry_claims(info: StartInfo, index: int, page: int, addr: int)
    requires
        0 <= index < info.memmap@.len(),
        page % 4096 == 0,
        page <= addr < page + 4096,
    ensures
        info.claim_at(index).contains(addr) <==> {
            let entry = info.memmap@[index];
            &&& entry.ty is Ram
            &&& forall|k: int|
                0 <= k < info.e820_reserved@.len() ==> entry.phys_addr < (
                #[trigger] info.e820_reserved@[k]).0 || info.e820_reserved@[k].1 < entry.phys_addr
                    + entry.len
            &&& entry.phys_addr <= page
            &&& page + 4096 <= entry.phys_addr + entry.len
            &&& 2 * 1024 * 1024 <= page
            &&& info.linked_end <= page
            &&& info.loaded_end matches Some(loaded_end) ==> loaded_end <= page
        },
{
    let entry = info.memmap@[index];
    let reserved = info.e820_reserved@;
    let floor = larger(larger(entry.phys_addr as int, LARGE_PAGE_SIZE as int), info.image_end());
    lemma_rounding(floor, BASE_PAGE_SIZE as int);
    lemma_rounding(entry.phys_addr + entry.len, BASE_PAGE_SIZE as int);
    law_image_end(info.linked_end, info.loaded_end, page);
    if within_reserved(entry, reserved) {
        let k = choose|k: int|
            0 <= k < reserved.len() && (#[trigger] reserved[k]).0 <= entry.phys_addr
                && entry.phys_addr + entry.len <= reserved[k].1;
        assert(!(entry.phys_addr < reserved[k].0 || reserved[k].1 < entry.phys_addr + entry.len));
    } else {
        assert forall|k: int| 0 <= k < reserved.len() implies entry.phys_addr < (
        #[trigger] reserved[k]).0 || reserved[k].1 < entry.phys_addr + entry.len by {}
    }
}

/// The memory map makes free what any of its entries does.
pub proof fn law_memory_is_claimed(info: StartInfo, addr: int)
    ensures
        info.claimed().contains(addr) <==> exists|i: int|
            0 <= i < info.memmap@.len() && (#[trigger] info.claim_at(i)).contains(addr),
{
}

/// All usable memory becomes free: after detection, every address of every page that a usable
/// memory map entry has, above 2 MiB and above the kernel image, is free unless it is reserved.
pub proof fn law_detection_is_complete(
    info: StartInfo,
    before: Seq<PageRange>,
    after: Seq<PageRange>,
    index: int,
    page: int,
    addr: int,
)
    requires
        region(after) == region(before).union(info.claimed()).difference(info.reserved()),
        0 <= index < info.memmap@.len(),
        info.memmap@[index].ty is Ram,
        forall|k: int|
            0 <= k < info.e820_reserved@.len() ==> info.memmap@[index].phys_addr < (
            #[trigger] info.e820_reserved@[k]).0 || info.e820_reserved@[k].1
                < info.memmap@[index].phys_addr + info.memmap@[index].len,
        page % 4096 == 0,
        info.memmap@[index].phys_addr <= page,
        page + 4096 <= info.memmap@[index].phys_addr + info.memmap@[index].len,
        2 * 1024 * 1024 <= page,
        info.linked_end <= page,
        info.loaded_end matches Some(loaded_end) ==> loaded_end <= page,
        page <= addr < page + 4096,
    ensures
        info.claimed().contains(addr),
        region(after).contains(addr) || info.reserved().contains(addr),
{
    law_entry_claims(info, index, page, addr);
    law_memory_is_claimed(info, addr);
}

/// The pages from that of `start` to that before `end` are those that have a part of what is
/// between.
proof fn lemma_touched_pages(start: int, end: int, page: int, addr: int)
    requires
        page % 4096 == 0,
        page <= addr < page + 4096,
    ensures
        round_down(start, 4096) <= addr < round_up(end, 4096) <==> start < page + 4096 && page < end,
{
    lemma_rounding(start, 4096);
    lemma_rounding(end, 4096);
}

proof fn lemma_module_pages(info: StartInfo, addr: int)
    ensures
        info.module_region(info.modules@.len() as int).contains(addr) <==> exists|i: int|
            0 <= i < info.modules@.len() && (#[trigger] info.modules@[i]).start <= addr
                < info.modules@[i].end,
{
    let n = info.modules@.len() as int;
    if info.module_region(n).contains(addr) {
        let i = choose|i: int|
            0 <= i < n && (#[trigger] info.modules@[i]).addresses().contains(addr);
        assert(info.modules@[i].start <= addr < info.modules@[i].end);
    }
    if exists|i: int|
        0 <= i < n && (#[trigger] info.modules@[i]).start <= addr < info.modules@[i].end {
        let i = choose|i: int|
            0 <= i < n && (#[trigger] info.modules@[i]).start <= addr < info.modules@[i].end;
        assert(info.modules@[i].addresses().contains(addr));
    }
}

/// A page is reserved exactly if it has a part of the kernel image, is one of a module, is one of a
/// reservation of the device tree, or has a part of the device tree.
#[verifier::spinoff_prover]
pub proof fn law_reserved_pages(info: StartInfo, page: int, addr: int)
    requires
        page % 4096 == 0,
        page <= addr < page + 4096,
    ensures
        info.reserved().contains(addr) <==> {
            ||| info.kernel_start < page + 4096 && (page < info.linked_end || (info.loaded_end
                matches Some(loaded_end) && page < loaded_end))
            ||| exists|i: int|
                0 <= i < info.modules@.len() && (#[trigger] info.modules@[i]).start <= addr
                    < info.modules@[i].end
            ||| info.fdt matches Some(fdt) && (fdt.addr < page + 4096 && page < fdt.addr
                + fdt.total_size || exists|i: int|
                0 <= i < fdt.reservations@.len() && (#[trigger] fdt.reservations@[i]).0 <= addr
                    < fdt.reservations@[i].0 + fdt.reservations@[i].1)
        },
{
    lemma_touched_pages(info.kernel_start as int, info.image_end(), page, addr);
    assert(page < info.image_end() <==> page < info.linked_end || (info.loaded_end matches Some(
        loaded_end,
    ) && page < loaded_end)) by {
        law_image_end(info.linked_end, info.loaded_end, page);
    }
    assert(info.kernel_region().contains(addr) <==> info.kernel_start < page + 4096 && page
        < info.image_end());
    lemma_module_pages(info, addr);
    if let Some(fdt) = info.fdt {
        lemma_touched_pages(fdt.addr as int, fdt.addr + fdt.total_size, page, addr);
        assert(fdt.tree_region().contains(addr) <==> fdt.addr < page + 4096 && page < fdt.addr
            + fdt.total_size);
        assert(fdt.reserved_region(fdt.reservations@.len() as int).contains(addr) <==> exists|i:
            int|
            0 <= i < fdt.reservations@.len() && (#[trigger] fdt.reservations@[i]).0 <= addr
                < fdt.reservations@[i].0 + fdt.reservations@[i].1);
    }
}

/// A memory map entry can be claimed if it ends within the address space, and the first page
/// boundary from which on it may be claimed is in the address space and not its last one. An entry
/// that is not usable memory can be claimed in any case, and one within a region that is not needs
/// only end within the address space.
#[verifier::spinoff_prover]
pub proof fn law_claimable(
    entry: MemmapEntry,
    reserved: Seq<(usize, usize)>,
    image_end: int,
    boundary: int,
)
    requires
        boundary % 4096 == 0,
        entry.phys_addr <= boundary,
        2 * 1024 * 1024 <= boundary,
        image_end <= boundary,
        boundary < entry.phys_addr + 4096 || boundary < 2 * 1024 * 1024 + 4096 || boundary
            < image_end + 4096,
    ensures
        claimable(entry, reserved, image_end) <==> {
            ||| entry.ty is Reserved
            ||| entry.phys_addr + entry.len <= usize::MAX && exists|k: int|
                0 <= k < reserved.len() && (#[trigger] reserved[k]).0 <= entry.phys_addr
                    && entry.phys_addr + entry.len <= reserved[k].1
            ||| entry.phys_addr + entry.len <= usize::MAX && boundary <= usize::MAX && !(boundary
                <= entry.phys_addr + entry.len < boundary + 4096)
        },
{
    let floor = larger(larger(entry.phys_addr as int, LARGE_PAGE_SIZE as int), image_end);
    let end = entry.phys_addr + entry.len;
    assert(claim_start(entry, image_end) == boundary) by {
        lemma_rounding(floor, 4096);
        assert(floor <= boundary < floor + 4096);
    }
    assert(claim_start(entry, image_end) != claim_end(entry) <==> !(boundary <= end < boundary
        + 4096)) by {
        lemma_rounding(end, 4096);
    }
    assert(within_reserved(entry, reserved) <==> exists|k: int|
        0 <= k < reserved.len() && (#[trigger] reserved[k]).0 <= entry.phys_addr && entry.phys_addr
            + entry.len <= reserved[k].1);
}

/// A memory map can be claimed if each of its entries can be, and no address is made free that is
/// free already or that another entry makes free too.
pub proof fn law_memmap_valid(info: StartInfo, free: Seq<PageRange>)
    ensures
        info.memmap_valid(free) <==> {
            &&& forall|i: int|
                0 <= i < info.memmap@.len() ==> claimable(
                    #[trigger] info.memmap@[i],
                    info.e820_reserved@,
                    image_end(info.linked_end, info.loaded_end),
                )
            &&& forall|i: int, addr: int|
                0 <= i < info.memmap@.len() && #[trigger] info.claim_at(i).contains(addr)
                    ==> !region(free).contains(addr)
            &&& forall|i: int, j: int, addr: int|
                0 <= i < info.memmap@.len() && 0 <= j < info.memmap@.len()
                    && #[trigger] info.claim_at(i).contains(addr) && #[trigger] info.claim_at(
                    j,
                ).contains(addr) ==> i == j
        },
{
    let n = info.memmap@.len() as int;
    if forall|i: int, j: int, addr: int|
        0 <= i < n && 0 <= j < n && #[trigger] info.claim_at(i).contains(addr)
            && #[trigger] info.claim_at(j).contains(addr) ==> i == j {
        assert forall|i: int, j: int| 0 <= i < j < n implies (#[trigger] info.claim_at(i)).disjoint(
            #[trigger] info.claim_at(j),
        ) by {
            assert forall|addr: int| info.claim_at(i).contains(addr) implies !info.claim_at(
                j,
            ).contains(addr) by {}
        }
    }
    if info.memmap_valid(free) {
        assert forall|i: int, j: int, addr: int|
            0 <= i < n && 0 <= j < n && #[trigger] info.claim_at(i).contains(addr)
                && #[trigger] info.claim_at(j).contains(addr) implies i == j by {
            if i < j {
                assert(info.claim_at(i).disjoint(info.claim_at(j)));
            } else if j < i {
                assert(info.claim_at(j).disjoint(info.claim_at(i)));
            }
        }
    }
}

/// What is to be reserved is valid if the kernel image and the device tree are each in at least one
/// page, end within the address space together with their last pages, and the modules and the
/// reservations consist of whole pages.
pub proof fn law_reservations_valid(info: StartInfo)
    ensures
        info.reservations_valid() <==> {
            &&& info.kernel_start as int / 4096 < (info.image_end() + 4095) / 4096
            &&& (info.image_end() + 4095) / 4096 * 4096 <= usize::MAX
            &&& forall|i: int|
                0 <= i < info.modules@.len() ==> is_page_range(
                    (#[trigger] info.modules@[i]).start as int,
                    info.modules@[i].end as int,
                )
            &&& info.fdt matches Some(fdt) ==> {
                &&& fdt.addr as int / 4096 < (fdt.addr + fdt.total_size + 4095) / 4096
                &&& (fdt.addr + fdt.total_size + 4095) / 4096 * 4096 <= usize::MAX
                &&& forall|i: int|
                    0 <= i < fdt.reservations@.len() ==> is_page_range(
                        (#[trigger] fdt.reservations@[i]).0 as int,
                        fdt.reservations@[i].0 + fdt.reservations@[i].1,
                    ) && fdt.reservations@[i].0 + fdt.reservations@[i].1 <= usize::MAX
            }
        },
{
    let end = info.image_end();
    assert(round_up(end, 4096) == (end + 4095) / 4096 * 4096);
    assert(round_down(info.kernel_start as int, 4096) == info.kernel_start as int / 4096 * 4096);
    if let Some(fdt) = info.fdt {
        let tree_end = fdt.addr + fdt.total_size;
        assert(round_up(tree_end, 4096) == (tree_end + 4095) / 4096 * 4096);
        assert(round_down(fdt.addr as int, 4096) == fdt.addr as int / 4096 * 4096);
    }
}

/// The memory is physical if every address that becomes free is.
pub proof fn law_memory_physical(info: StartInfo, architecture: Architecture)
    ensures
        info.memory_physical(architecture) <==> !exists|addr: int|
            #[trigger] info.claimed().contains(addr) && !info.reserved().contains(addr) && !(0
                <= addr < architecture.physical_end()),
{
    let memory = info.claimed().difference(info.reserved());
    if info.memory_physical(architecture) {
        assert forall|addr: int| #[trigger] info.claimed().contains(addr) && !info.reserved().contains(
            addr,
        ) implies 0 <= addr < architecture.physical_end() by {
            assert(memory.contains(addr));
        }
    } else {
        let addr = choose|addr: int|
            #[trigger] memory.contains(addr) && !architecture.is_physical(addr);
        assert(info.claimed().contains(addr));
    }
}

/// A range of frames can be mapped if every page that has a part of it starts at a physical address
/// and, if there is an offset, at a virtual address with the offset added, and the pages end
/// within the address space.
pub proof fn law_mappable(frame_range: PageRange, architecture: Architecture, phys_offset: usize)
    requires
        frame_range.wf(),
    ensures
        mappable(frame_range, architecture, phys_offset) <==> {
            let size = architecture.identity_size() as int;
            &&& forall|k: int|
                #[trigger] (k * size) < frame_range.end && frame_range.start < k * size + size ==> {
                    &&& k * size + size <= usize::MAX
                    &&& architecture.is_physical(k * size)
                    &&& phys_offset > 0 ==> phys_offset + k * size <= usize::MAX
                        && architecture.is_virtual(phys_offset + k * size)
                }
        },
{
    let size = architecture.identity_size() as int;
    let start = round_down(frame_range.start as int, size);
    let end = round_up(frame_range.end as int, size);
    lemma_rounding(frame_range.start as int, size);
    lemma_rounding(frame_range.end as int, size);
    if mappable(frame_range, architecture, phys_offset) {
        assert forall|k: int|
            #[trigger] (k * size) < frame_range.end && frame_range.start < k * size + size implies {
            &&& k * size + size <= usize::MAX
            &&& architecture.is_physical(k * size)
            &&& phys_offset > 0 ==> phys_offset + k * size <= usize::MAX
                && architecture.is_virtual(phys_offset + k * size)
        } by {
            let addr = k * size;
            vstd::arithmetic::div_mod::lemma_mod_multiples_basic(k, size);
            if addr < start {
                lemma_page_room(addr, start, size);
            }
            lemma_page_room(addr, end, size);
            assert(addr % size == 0);
        }
    }
    if forall|k: int|
        #[trigger] (k * size) < frame_range.end && frame_range.start < k * size + size ==> {
            &&& k * size + size <= usize::MAX
            &&& architecture.is_physical(k * size)
            &&& phys_offset > 0 ==> phys_offset + k * size <= usize::MAX
                && architecture.is_virtual(phys_offset + k * size)
        } {
        assert forall|addr: int|
            start <= addr < end && #[trigger] (addr % size) == 0 implies {
            &&& architecture.is_physical(addr)
            &&& phys_offset != 0 ==> {
                &&& phys_offset + addr <= usize::MAX
                &&& architecture.is_virtual(phys_offset + addr)
            }
        } by {
            vstd::arithmetic::div_mod::lemma_fundamental_div_mod(addr, size);
            let k = addr / size;
            assert(k * size == addr) by (nonlinear_arith)
                requires
                    addr == size * k,
            ;
            lemma_page_room(addr, end, size);
        }
        let last = end - size;
        vstd::arithmetic::div_mod::lemma_fundamental_div_mod(end, size);
        let k = end / size - 1;
        assert(k * size == last) by (nonlinear_arith)
            requires
                end == size * (k + 1),
                last == end - size,
        ;
        if last + size <= frame_range.start {
            lemma_page_room(start, end, size);
        }
        assert(k * size < frame_range.end);
    }
}

/// The pages that frames are mapped with are in order, one after the other, and each has a part of
/// the frames.
pub proof fn law_mappings_touch_frames(
    frame_range: PageRange,
    page_size: usize,
    identity: Seq<usize>,
    i: int,
)
    requires
        frame_range.wf(),
        is_page_size(page_size),
        identity.len() * page_size == round_up(frame_range.end as int, page_size as int)
            - round_down(frame_range.start as int, page_size as int),
        forall|i: int|
            0 <= i < identity.len() ==> #[trigger] identity[i] == round_down(
                frame_range.start as int,
                page_size as int,
            ) + i * page_size,
        0 <= i < identity.len(),
    ensures
        identity[i] % page_size == 0,
        identity[i] < frame_range.end,
        frame_range.start < identity[i] + page_size,
        i + 1 < identity.len() ==> identity[i + 1] == identity[i] + page_size,
{
    let size = page_size as int;
    let start = round_down(frame_range.start as int, size);
    let end = round_up(frame_range.end as int, size);
    let n = identity.len() as int;
    lemma_rounding(frame_range.start as int, size);
    lemma_rounding(frame_range.end as int, size);
    assert(0 <= i * size && i * size + size <= n * size) by (nonlinear_arith)
        requires
            0 <= i,
            i + 1 <= n,
            0 < size,
    ;
    vstd::arithmetic::div_mod::lemma_mod_multiples_vanish(i, start, size);
    assert(i * size == size * i) by (nonlinear_arith);
    assert((i + 1) * size == i * size + size) by (nonlinear_arith);
}

/// A page size is that of a base, a large or a huge page.
pub proof fn law_mapping_page_sizes(page_size: usize)
    ensures
        is_page_size(page_size) <==> page_size == 4096 || page_size == 4096 * 512 || page_size
            == 4096 * 512 * 512,
{
}

} // verus!
