//! Page ranges and page layouts.
use crate::align::{
    is_power_of_two, lemma_rounding, round_down, round_up, BASE_PAGE_SIZE,
};
use vstd::prelude::*;
use vstd::set_lib::set_int_range;

verus! {

/// The error of an attempt to make a [`PageRange`] out of unsuitable addresses.
#[derive(Clone, Copy, Debug, PartialEq, Eq, Structural)]
pub struct InvalidPageRange;

/// The error of an attempt to make a [`PageLayout`] out of an unsuitable size or alignment.
#[derive(Clone, Copy, Debug, PartialEq, Eq, Structural)]
pub struct InvalidPageLayout;

/// A non-empty page-aligned memory range.
#[derive(Clone, Copy, Debug, PartialEq, Eq, Structural)]
pub struct PageRange {
    /// The first address of the range.
    pub start: usize,
    /// The first address after the range.
    pub end: usize,
}

/// The size and the alignment of a range of pages.
#[derive(Clone, Copy, Debug, PartialEq, Eq, Structural)]
pub struct PageLayout {
    /// The size in bytes.
    pub size: usize,
    /// The alignment in bytes.
    pub align: usize,
}

#[verifier::external_type_specification]
#[verifier::external_body]
pub struct ExPageRangeError(free_list::PageRangeError);

#[verifier::external_type_specification]
#[verifier::external_body]
pub struct ExPageLayoutError(free_list::PageLayoutError);

/// Whether `start..end` is a non-empty range of whole pages.
pub open spec fn is_page_range(start: int, end: int) -> bool {
    &&& start < end
    &&& start % (BASE_PAGE_SIZE as int) == 0
    &&& end % (BASE_PAGE_SIZE as int) == 0
}

impl PageRange {
    /// Whether this is a non-empty range of whole pages.
    pub open spec fn wf(self) -> bool {
        is_page_range(self.start as int, self.end as int)
    }

    /// The addresses in this range.
    pub open spec fn addresses(self) -> Set<int> {
        set_int_range(self.start as int, self.end as int)
    }

    /// The length of this range in bytes.
    pub open spec fn len(self) -> int {
        self.end - self.start
    }

    /// Whether this range and `other` have an address in common.
    pub open spec fn overlaps(self, other: PageRange) -> bool {
        self.start < other.end && other.start < self.end
    }

    /// Whether every address of `other` is in this range.
    pub open spec fn contains(self, other: PageRange) -> bool {
        self.start <= other.start && other.end <= self.end
    }

    /// The addresses that this range and `other` have in common, as a range.
    pub open spec fn overlap(self, other: PageRange) -> Option<PageRange> {
        if self.overlaps(other) {
            Some(
                PageRange {
                    start: if self.start < other.start {
                        other.start
                    } else {
                        self.start
                    },
                    end: if self.end < other.end {
                        self.end
                    } else {
                        other.end
                    },
                },
            )
        } else {
            None
        }
    }

    /// Where in this range `layout` is placed: at its first suitably aligned address.
    pub open spec fn placement(self, layout: PageLayout) -> Option<PageRange> {
        let start = round_up(self.start as int, layout.align as int);
        if 0 < layout.size && start + layout.size <= self.end {
            Some(PageRange { start: start as usize, end: (start + layout.size) as usize })
        } else {
            None
        }
    }
}

impl PageLayout {
    /// Whether size and alignment refer to whole pages, the alignment is a power of two,
    /// and the size rounded up to the alignment is no more than `isize::MAX`.
    pub open spec fn wf(self) -> bool {
        is_page_layout(self.size as int, self.align as int)
    }
}

/// Whether there is a page layout of this size and alignment.
pub open spec fn is_page_layout(size: int, align: int) -> bool {
    &&& size % (BASE_PAGE_SIZE as int) == 0
    &&& align % (BASE_PAGE_SIZE as int) == 0
    &&& is_power_of_two(align)
    &&& round_up(size, align) <= isize::MAX
}

/// Makes a range with [`free_list::PageRange::new`].
///
/// What is taken on trust: it succeeds exactly on non-empty ranges of whole pages, and
/// then gives back `start` and `end`.
#[verifier::external_body]
fn new_range(start: usize, end: usize) -> (range: Result<PageRange, free_list::PageRangeError>)
    ensures
        range is Ok <==> is_page_range(start as int, end as int),
        range matches Ok(range) ==> range.start == start && range.end == end,
{
    let range = free_list::PageRange::new(start, end)?;
    Ok(PageRange { start: range.start(), end: range.end() })
}

/// Makes a range with [`free_list::PageRange::from_start_len`].
///
/// What is taken on trust: it succeeds exactly where `start + len` does not overflow and
/// `start..start + len` is a non-empty range of whole pages, and then gives that range.
#[verifier::external_body]
fn range_from_start_len(start: usize, len: usize) -> (range: Result<PageRange, free_list::PageRangeError>)
    ensures
        range is Ok <==> (is_page_range(start as int, start + len) && start + len <= usize::MAX),
        range matches Ok(range) ==> range.start == start && range.end == start + len,
{
    let range = free_list::PageRange::from_start_len(start, len)?;
    Ok(PageRange { start: range.start(), end: range.end() })
}

/// Makes a range with [`free_list::PageRange::containing`].
///
/// What is taken on trust: it rounds `start` down and `end` up to whole pages, and
/// succeeds exactly where the rounded end is an address and the outcome is not empty.
#[verifier::external_body]
fn range_containing(start: usize, end: usize) -> (range: Result<PageRange, free_list::PageRangeError>)
    ensures
        range is Ok <==> {
            &&& round_up(end as int, BASE_PAGE_SIZE as int) <= usize::MAX
            &&& round_down(start as int, BASE_PAGE_SIZE as int) < round_up(
                end as int,
                BASE_PAGE_SIZE as int,
            )
        },
        range matches Ok(range) ==> {
            &&& range.start == round_down(start as int, BASE_PAGE_SIZE as int)
            &&& range.end == round_up(end as int, BASE_PAGE_SIZE as int)
        },
{
    let range = free_list::PageRange::containing(start, end)?;
    Ok(PageRange { start: range.start(), end: range.end() })
}

/// Intersects two ranges with [`free_list::PageRange::and`].
///
/// What is taken on trust: it returns the common addresses of `lhs` and `rhs` as a range,
/// or `None` where there are none.
#[verifier::external_body]
fn range_and(lhs: PageRange, rhs: PageRange) -> (range: Option<PageRange>)
    requires
        lhs.wf(),
        rhs.wf(),
    ensures
        range == lhs.overlap(rhs),
{
    let outside_lhs = free_list::PageRange::new(lhs.start, lhs.end).unwrap();
    let outside_rhs = free_list::PageRange::new(rhs.start, rhs.end).unwrap();
    let range = outside_lhs.and(outside_rhs)?;
    Some(PageRange { start: range.start(), end: range.end() })
}

/// Places a layout with [`free_list::PageRange::fit`].
///
/// What is taken on trust: it returns the pages from the first suitably aligned address
/// of `range` on, if they are within `range` and there are any.
#[verifier::external_body]
fn range_fit(range: PageRange, layout: PageLayout) -> (fit: Option<PageRange>)
    requires
        range.wf(),
        layout.wf(),
    ensures
        fit == range.placement(layout),
{
    let outside_range = free_list::PageRange::new(range.start, range.end).unwrap();
    let outside_layout = free_list::PageLayout::from_size_align(layout.size, layout.align).unwrap();
    let fit = outside_range.fit(outside_layout)?;
    Some(PageRange { start: fit.start(), end: fit.end() })
}

/// Makes a layout with [`free_list::PageLayout::from_size`].
///
/// What is taken on trust: it succeeds exactly where there is a page layout of this size
/// with the alignment of a base page, and then gives that one.
#[verifier::external_body]
fn layout_from_size(size: usize) -> (layout: Result<PageLayout, free_list::PageLayoutError>)
    ensures
        layout is Ok <==> is_page_layout(size as int, BASE_PAGE_SIZE as int),
        layout matches Ok(layout) ==> layout.size == size && layout.align == BASE_PAGE_SIZE,
{
    let layout = free_list::PageLayout::from_size(size)?;
    Ok(PageLayout { size: layout.size(), align: layout.align() })
}

/// Makes a layout with [`free_list::PageLayout::from_size_align`].
///
/// What is taken on trust: it succeeds exactly where there is a page layout of this size
/// and alignment, and then gives that one.
#[verifier::external_body]
fn layout_from_size_align(size: usize, align: usize) -> (layout: Result<PageLayout, free_list::PageLayoutError>)
    ensures
        layout is Ok <==> is_page_layout(size as int, align as int),
        layout matches Ok(layout) ==> layout.size == size && layout.align == align,
{
    let layout = free_list::PageLayout::from_size_align(size, align)?;
    Ok(PageLayout { size: layout.size(), align: layout.align() })
}

/// How [`free_list::PageRange`] prints the range `start..end` in its alternate form.
pub uninterp spec fn page_range_text(start: usize, end: usize) -> Seq<char>;

/// Prints a range with the `Display` implementation of [`free_list::PageRange`], in its
/// alternate form.
///
/// What is taken on trust: the text depends on the range alone.
#[verifier::external_body]
fn range_text(range: PageRange) -> (text: String)
    requires
        range.wf(),
    ensures
        text@ == page_range_text(range.start, range.end),
{
    let outside_range = free_list::PageRange::new(range.start, range.end).unwrap();
    format!("{outside_range:#}")
}

impl PageRange {
    /// The range as text.
    pub fn to_text(self) -> (text: String)
        requires
            self.wf(),
        ensures
            text@ == page_range_text(self.start, self.end),
    {
        range_text(self)
    }

    /// The range `start..end`, if it is a non-empty range of whole pages.
    pub fn new(start: usize, end: usize) -> (range: Result<PageRange, InvalidPageRange>)
        ensures
            range is Ok <==> is_page_range(start as int, end as int),
            range matches Ok(range) ==> range.wf() && range.start == start && range.end == end,
    {
        match new_range(start, end) {
            Ok(range) => Ok(range),
            Err(_) => Err(InvalidPageRange),
        }
    }

    /// The range of `len` bytes from `start` on, if it is a non-empty range of whole pages.
    pub fn from_start_len(start: usize, len: usize) -> (range: Result<PageRange, InvalidPageRange>)
        ensures
            range is Ok <==> (is_page_range(start as int, start + len) && start + len <= usize::MAX),
            range matches Ok(range) ==> {
                &&& range.wf()
                &&& range.start == start
                &&& range.end == start + len
            },
    {
        match range_from_start_len(start, len) {
            Ok(range) => Ok(range),
            Err(_) => Err(InvalidPageRange),
        }
    }

    /// The smallest page range that contains the addresses `start..end`, if there is one.
    pub fn containing(start: usize, end: usize) -> (range: Result<PageRange, InvalidPageRange>)
        ensures
            range is Ok <==> {
                &&& round_up(end as int, BASE_PAGE_SIZE as int) <= usize::MAX
                &&& round_down(start as int, BASE_PAGE_SIZE as int) < round_up(
                    end as int,
                    BASE_PAGE_SIZE as int,
                )
            },
            range matches Ok(range) ==> {
                &&& range.wf()
                &&& range.start == round_down(start as int, BASE_PAGE_SIZE as int)
                &&& range.end == round_up(end as int, BASE_PAGE_SIZE as int)
            },
    {
        proof {
            lemma_rounding(start as int, BASE_PAGE_SIZE as int);
            lemma_rounding(end as int, BASE_PAGE_SIZE as int);
        }
        match range_containing(start, end) {
            Ok(range) => Ok(range),
            Err(_) => Err(InvalidPageRange),
        }
    }

    /// The addresses that this range and `other` have in common, if any.
    pub fn and(self, other: PageRange) -> (range: Option<PageRange>)
        requires
            self.wf(),
            other.wf(),
        ensures
            range == self.overlap(other),
            range is Some <==> !self.addresses().disjoint(other.addresses()),
            range matches Some(range) ==> {
                &&& range.wf()
                &&& range.addresses() == self.addresses().intersect(other.addresses())
            },
    {
        proof {
            if let Some(range) = self.overlap(other) {
                assert(self.addresses().contains(range.start as int));
                assert(other.addresses().contains(range.start as int));
                assert(range.addresses() =~= self.addresses().intersect(other.addresses()));
            }
        }
        range_and(self, other)
    }

    /// The first place in this range that is suitable for `layout`, if there is one.
    pub fn fit(self, layout: PageLayout) -> (range: Option<PageRange>)
        requires
            self.wf(),
            layout.wf(),
        ensures
            range == self.placement(layout),
            range matches Some(range) ==> range.wf() && self.contains(range) && range.len()
                == layout.size && range.start % layout.align == 0,
    {
        proof {
            if self.placement(layout) is Some {
                lemma_placement(self, layout);
            }
        }
        range_fit(self, layout)
    }
}

/// A placement is a page range of the size and alignment of its layout.
pub proof fn lemma_placement(range: PageRange, layout: PageLayout)
    requires
        range.wf(),
        layout.wf(),
        range.placement(layout) is Some,
    ensures
        range.placement(layout)->0.wf(),
        range.contains(range.placement(layout)->0),
        range.placement(layout)->0.len() == layout.size,
        range.placement(layout)->0.start % layout.align == 0,
{
    let k = choose|k: nat| #[trigger] vstd::arithmetic::power2::pow2(k) == layout.align;
    vstd::arithmetic::power2::lemma_pow2_pos(k);
    lemma_rounding(range.start as int, layout.align as int);
    let start = round_up(range.start as int, layout.align as int);
    assert(start % (BASE_PAGE_SIZE as int) == 0) by {
        let q = start / (layout.align as int);
        let p = layout.align as int / (BASE_PAGE_SIZE as int);
        vstd::arithmetic::div_mod::lemma_fundamental_div_mod(start, layout.align as int);
        assert(start == (q * p) * 4096) by (nonlinear_arith)
            requires
                start == layout.align as int * q,
                layout.align == p * 4096,
        ;
    }
}

impl PageLayout {
    /// The layout of `size` bytes of base pages, if there is one.
    pub fn from_size(size: usize) -> (layout: Result<PageLayout, InvalidPageLayout>)
        ensures
            layout is Ok <==> is_page_layout(size as int, BASE_PAGE_SIZE as int),
            layout matches Ok(layout) ==> {
                &&& layout.wf()
                &&& layout.size == size
                &&& layout.align == BASE_PAGE_SIZE
            },
    {
        match layout_from_size(size) {
            Ok(layout) => Ok(layout),
            Err(_) => Err(InvalidPageLayout),
        }
    }

    /// The layout of `size` bytes with the alignment `align`, if there is one.
    pub fn from_size_align(size: usize, align: usize) -> (layout: Result<PageLayout, InvalidPageLayout>)
        ensures
            layout is Ok <==> is_page_layout(size as int, align as int),
            layout matches Ok(layout) ==> {
                &&& layout.wf()
                &&& layout.size == size
                &&& layout.align == align
            },
    {
        match layout_from_size_align(size, align) {
            Ok(layout) => Ok(layout),
            Err(_) => Err(InvalidPageLayout),
        }
    }
}

/// A page range consists of a number of pages, at least one, from a page on.
pub proof fn law_page_ranges(start: int, end: int)
    ensures
        is_page_range(start, end) <==> exists|first: int, count: int|
            0 < count && start == #[trigger] (4096 * first) && end == start + #[trigger] (4096
                * count),
{
    if is_page_range(start, end) {
        let first = start / 4096;
        let count = (end - start) / 4096;
        assert(start == 4096 * first && end == start + 4096 * count);
    }
}

/// A range has the addresses from its start to before its end, and as many bytes. It contains
/// another if all addresses of that are its own, and overlaps with it if any is.
pub proof fn law_range_addresses(range: PageRange, other: PageRange, addr: int)
    requires
        range.wf(),
        other.wf(),
    ensures
        range.addresses().contains(addr) <==> range.start <= addr && addr < range.end,
        range.start + range.len() == range.end,
        range.contains(other) <==> other.addresses().subset_of(range.addresses()),
        range.overlaps(other) <==> !range.addresses().disjoint(other.addresses()),
{
    assert(other.addresses().contains(other.start as int));
    assert(other.addresses().contains(other.end - 1));
    if range.overlaps(other) {
        let common = if range.start < other.start {
            other.start as int
        } else {
            range.start as int
        };
        assert(range.addresses().contains(common) && other.addresses().contains(common));
    }
}

/// The range that two ranges have in common has exactly the addresses of both, and there is one
/// if they have any.
pub proof fn law_overlap_is_the_intersection(range: PageRange, other: PageRange)
    requires
        range.wf(),
        other.wf(),
    ensures
        range.overlap(other) is None <==> range.addresses().disjoint(other.addresses()),
        range.overlap(other) matches Some(common) ==> common.addresses()
            == range.addresses().intersect(other.addresses()),
{
    law_range_addresses(range, other, 0);
    if let Some(common) = range.overlap(other) {
        assert(common.addresses() =~= range.addresses().intersect(other.addresses()));
    }
}

/// A layout is placed wherever there is room for it, at the lowest suitable address: any multiple
/// of the alignment from which on its bytes are within the range is no lower.
pub proof fn law_placement_is_lowest(range: PageRange, layout: PageLayout, start: int)
    requires
        range.wf(),
        layout.wf(),
        0 < layout.size,
        start % (layout.align as int) == 0,
        range.start <= start,
        start + layout.size <= range.end,
    ensures
        range.placement(layout) matches Some(placed) && range.start <= placed.start <= start
            && placed.start % layout.align == 0 && placed.end == placed.start + layout.size,
{
    let align = layout.align as int;
    crate::align::law_powers_of_two(align);
    lemma_rounding(range.start as int, align);
    let placed = round_up(range.start as int, align);
    assert(placed <= start) by {
        if start < placed {
            vstd::arithmetic::div_mod::lemma_fundamental_div_mod(start, align);
            vstd::arithmetic::div_mod::lemma_fundamental_div_mod(placed, align);
            let a = start / align;
            let b = placed / align;
            assert(a < b) by (nonlinear_arith)
                requires
                    align * a < align * b,
                    0 < align,
            ;
            assert(align * a + align <= align * b) by (nonlinear_arith)
                requires
                    a + 1 <= b,
                    0 < align,
            ;
        }
    }
    if range.placement(layout) is Some {
        lemma_placement(range, layout);
    }
}

/// Nothing is placed that has no bytes.
pub proof fn law_nothing_is_not_placed(range: PageRange, layout: PageLayout)
    ensures
        layout.size == 0 ==> range.placement(layout) is None,
{
}

/// A layout of base pages has a size of whole pages that is no more than `isize::MAX`. With any
/// alignment, it has whole pages, the alignment is a power of two of whole pages, and there is a
/// multiple of it that is no less than the size and no more than `isize::MAX`.
pub proof fn law_page_layouts(size: int, align: int)
    requires
        0 <= size,
    ensures
        is_page_layout(size, 4096) <==> size % 4096 == 0 && size <= isize::MAX,
        is_page_layout(size, align) <==> {
            &&& is_power_of_two(align)
            &&& 4096 <= align
            &&& size % 4096 == 0
            &&& exists|k: int| size <= #[trigger] (k * align) && k * align <= isize::MAX
        },
{
    crate::align::lemma_page_sizes();
    crate::align::law_powers_of_two(align);
    if is_power_of_two(align) {
        lemma_power_of_two_pages(align);
        lemma_rounding(size, align);
        let rounded = round_up(size, align);
        vstd::arithmetic::div_mod::lemma_fundamental_div_mod(rounded, align);
        let q = rounded / align;
        assert(q * align == rounded) by (nonlinear_arith)
            requires
                rounded == align * q,
        ;
        if exists|k: int| size <= #[trigger] (k * align) && k * align <= isize::MAX {
            let k = choose|k: int| size <= #[trigger] (k * align) && k * align <= isize::MAX;
            assert(q <= k) by (nonlinear_arith)
                requires
                    q * align - align < size,
                    size <= k * align,
                    0 < align,
            ;
            assert(q * align <= k * align) by (nonlinear_arith)
                requires
                    q <= k,
                    0 < align,
            ;
        }
    }
    lemma_rounding(size, 4096);
}

/// The powers of two from that of a base page on are those of whole pages.
proof fn lemma_power_of_two_pages(align: int)
    requires
        is_power_of_two(align),
    ensures
        align % 4096 == 0 <==> 4096 <= align,
{
    let k = choose|k: nat| #[trigger] vstd::arithmetic::power2::pow2(k) == align;
    vstd::arithmetic::power2::lemma2_to64();
    vstd::arithmetic::power2::lemma_pow2_pos(k);
    if k >= 12 {
        vstd::arithmetic::power2::lemma_pow2_adds(12, (k - 12) as nat);
        let rest = vstd::arithmetic::power2::pow2((k - 12) as nat) as int;
        vstd::arithmetic::power2::lemma_pow2_pos((k - 12) as nat);
        assert(align == 4096 * rest);
    } else {
        vstd::arithmetic::power2::lemma_pow2_strictly_increases(k, 12);
    }
}

} // verus!
