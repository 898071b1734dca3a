//! An ordered list of free page ranges.
use crate::page_range::{lemma_placement, page_range_text, PageLayout, PageRange};
use vstd::prelude::*;
use vstd::set_lib::lemma_int_range;
use vstd::string::StringExecFns;

verus! {

/// The error of an allocation or deallocation that the free ranges do not allow.
#[derive(Clone, Copy, Debug, PartialEq, Eq, Structural)]
pub struct AllocError;

/// A list of free page ranges, from the lowest to the highest.
///
/// Free ranges neither overlap nor touch: what becomes free next to a free range is
/// joined with it.
pub struct RangeList {
    ranges: Vec<PageRange>,
}

impl View for RangeList {
    type V = Seq<PageRange>;

    closed spec fn view(&self) -> Seq<PageRange> {
        self.ranges@
    }
}

/// Whether `ranges` are page ranges in ascending order with a gap after each but the last.
pub open spec fn canonical(ranges: Seq<PageRange>) -> bool {
    &&& forall|i: int| 0 <= i < ranges.len() ==> (#[trigger] ranges[i]).wf()
    &&& forall|i: int, j: int|
        0 <= i < j < ranges.len() ==> (#[trigger] ranges[i]).end < (#[trigger] ranges[j]).start
}

/// Whether `addr` is in one of `ranges`.
pub open spec fn covered(ranges: Seq<PageRange>, addr: int) -> bool {
    exists|i: int| 0 <= i < ranges.len() && (#[trigger] ranges[i]).start <= addr < ranges[i].end
}

/// The addresses in `ranges`.
pub open spec fn region(ranges: Seq<PageRange>) -> Set<int> {
    Set::new(|addr: int| covered(ranges, addr))
}

/// The sum of the lengths of `ranges`.
pub open spec fn total_len(ranges: Seq<PageRange>) -> int
    decreases ranges.len(),
{
    if ranges.len() == 0 {
        0
    } else {
        total_len(ranges.drop_last()) + ranges.last().len()
    }
}

/// The place for `layout` in the first of `ranges` that has one.
pub open spec fn first_fit(ranges: Seq<PageRange>, layout: PageLayout) -> Option<PageRange>
    decreases ranges.len(),
{
    if ranges.len() == 0 {
        None
    } else if ranges[0].placement(layout) is Some {
        ranges[0].placement(layout)
    } else {
        first_fit(ranges.skip(1), layout)
    }
}

/// What the first of `ranges` that overlaps with `reservation` has in common with it.
pub open spec fn first_overlap(ranges: Seq<PageRange>, reservation: PageRange) -> Option<PageRange>
    decreases ranges.len(),
{
    if ranges.len() == 0 {
        None
    } else if reservation.overlap(ranges[0]) is Some {
        reservation.overlap(ranges[0])
    } else {
        first_overlap(ranges.skip(1), reservation)
    }
}

/// The texts of `ranges`, separated by line breaks.
pub open spec fn listing(ranges: Seq<PageRange>) -> Seq<char>
    decreases ranges.len(),
{
    if ranges.len() == 0 {
        Seq::empty()
    } else {
        let text = page_range_text(ranges.last().start, ranges.last().end);
        if ranges.len() == 1 {
            text
        } else {
            listing(ranges.drop_last()) + "\n"@ + text
        }
    }
}

/// What is free contiguously lies in one free range.
pub proof fn lemma_contained(ranges: Seq<PageRange>, range: PageRange) -> (index: int)
    requires
        canonical(ranges),
        range.wf(),
        range.addresses().subset_of(region(ranges)),
    ensures
        0 <= index < ranges.len(),
        ranges[index].contains(range),
{
    assert(range.addresses().contains(range.start as int));
    assert(covered(ranges, range.start as int));
    let index = choose|i: int|
        0 <= i < ranges.len() && (#[trigger] ranges[i]).start <= range.start < ranges[i].end;
    if ranges[index].end < range.end {
        let addr = ranges[index].end as int;
        assert(range.addresses().contains(addr));
        assert(covered(ranges, addr));
        let other = choose|i: int|
            0 <= i < ranges.len() && (#[trigger] ranges[i]).start <= addr < ranges[i].end;
        assert(false);
    }
    index
}

/// An entry of a list is part of its region.
pub proof fn lemma_entry(ranges: Seq<PageRange>, index: int)
    requires
        0 <= index < ranges.len(),
    ensures
        ranges[index].addresses().subset_of(region(ranges)),
{
    assert forall|addr: int| ranges[index].addresses().contains(addr) implies region(
        ranges,
    ).contains(addr) by {
        assert(ranges[index].start <= addr < ranges[index].end);
    }
}

/// An entry that overlaps with a range does so in an address of the region.
pub proof fn lemma_overlap(ranges: Seq<PageRange>, range: PageRange)
    requires
        canonical(ranges),
        range.wf(),
    ensures
        region(ranges).disjoint(range.addresses()) <==> forall|i: int|
            0 <= i < ranges.len() ==> !(#[trigger] ranges[i]).overlaps(range),
{
    if region(ranges).disjoint(range.addresses()) {
        assert forall|i: int| 0 <= i < ranges.len() implies !(#[trigger] ranges[i]).overlaps(
            range,
        ) by {
            if ranges[i].overlaps(range) {
                let addr: int = if ranges[i].start < range.start {
                    range.start as int
                } else {
                    ranges[i].start as int
                };
                assert(range.addresses().contains(addr));
                assert(covered(ranges, addr));
                assert(region(ranges).contains(addr));
            }
        }
    } else {
        let addr = choose|addr: int|
            region(ranges).contains(addr) && range.addresses().contains(addr);
        let i = choose|i: int|
            0 <= i < ranges.len() && (#[trigger] ranges[i]).start <= addr < ranges[i].end;
        assert(ranges[i].overlaps(range));
    }
}

/// A region has one canonical list of ranges.
pub proof fn lemma_canonical_unique(a: Seq<PageRange>, b: Seq<PageRange>)
    requires
        canonical(a),
        canonical(b),
        region(a) == region(b),
    ensures
        a == b,
    decreases a.len(),
{
    if a.len() == 0 {
        if b.len() > 0 {
            lemma_entry(b, 0);
            assert(b[0].addresses().contains(b[0].start as int));
            assert(region(a).contains(b[0].start as int));
            assert(false);
        }
        assert(a =~= b);
    } else {
        let m = a.len() - 1;
        lemma_entry(a, m);
        let j = lemma_contained(b, a[m]);
        lemma_entry(b, j);
        let k = lemma_contained(a, b[j]);
        assert(k == m) by {
            if k < m {
                assert(a[k].end < a[m].start);
            }
        }
        assert(b[j] == a[m]);
        let n = b.len() - 1;
        lemma_entry(b, n);
        let l = lemma_contained(a, b[n]);
        assert(j == n) by {
            if j < n {
                assert(b[j].end < b[n].start);
                if l < m {
                    assert(a[l].end < a[m].start);
                }
            }
        }
        lemma_drop_last(a);
        lemma_drop_last(b);
        lemma_canonical_unique(a.drop_last(), b.drop_last());
        assert(a =~= a.drop_last().push(a.last()));
        assert(b =~= b.drop_last().push(b.last()));
    }
}

/// Without its last range, a canonical list is canonical and covers what the last does not.
proof fn lemma_drop_last(ranges: Seq<PageRange>)
    requires
        canonical(ranges),
        ranges.len() > 0,
    ensures
        canonical(ranges.drop_last()),
        region(ranges.drop_last()) == region(ranges).difference(ranges.last().addresses()),
{
    let shorter = ranges.drop_last();
    let last = ranges.last();
    assert forall|addr: int|
        region(shorter).contains(addr) <==> region(ranges).difference(
            last.addresses(),
        ).contains(addr) by {
        if covered(shorter, addr) {
            let i = choose|i: int|
                0 <= i < shorter.len() && (#[trigger] shorter[i]).start <= addr < shorter[i].end;
            assert(ranges[i].start <= addr < ranges[i].end);
        }
        if covered(ranges, addr) && !last.addresses().contains(addr) {
            let i = choose|i: int|
                0 <= i < ranges.len() && (#[trigger] ranges[i]).start <= addr < ranges[i].end;
            assert(shorter[i].start <= addr < shorter[i].end);
        }
    }
    assert(region(shorter) =~= region(ranges).difference(last.addresses()));
}

/// The lengths of a canonical list add up to the number of addresses in it.
pub proof fn lemma_total_len(ranges: Seq<PageRange>)
    requires
        canonical(ranges),
    ensures
        region(ranges).finite(),
        region(ranges).len() == total_len(ranges),
        0 <= total_len(ranges) <= usize::MAX,
        ranges.len() > 0 ==> total_len(ranges) <= ranges.last().end,
    decreases ranges.len(),
{
    if ranges.len() == 0 {
        assert(region(ranges) =~= Set::empty());
    } else {
        let shorter = ranges.drop_last();
        let last = ranges.last();
        lemma_drop_last(ranges);
        lemma_total_len(shorter);
        lemma_int_range(last.start as int, last.end as int);
        lemma_entry(ranges, ranges.len() - 1);
        assert(region(ranges) =~= region(shorter).union(last.addresses()));
        assert(region(shorter).disjoint(last.addresses()));
        vstd::set_lib::lemma_set_disjoint_lens(region(shorter), last.addresses());
        if shorter.len() > 0 {
            assert(shorter.last() == ranges[ranges.len() - 2]);
        }
    }
}

/// Putting a range into the gap before `index` of a canonical list, joined with the ranges
/// that it touches, covers that range in addition.
spec fn joined(ranges: Seq<PageRange>, index: int, range: PageRange) -> Seq<PageRange> {
    let touches_prev = 0 < index && ranges[index - 1].end == range.start;
    let touches_next = index < ranges.len() && ranges[index].start == range.end;
    let before = ranges.take(if touches_prev {
        index - 1
    } else {
        index
    });
    let after = ranges.skip(if touches_next {
        index + 1
    } else {
        index
    });
    let middle = PageRange {
        start: if touches_prev {
            ranges[index - 1].start
        } else {
            range.start
        },
        end: if touches_next {
            ranges[index].end
        } else {
            range.end
        },
    };
    before.push(middle) + after
}

proof fn lemma_joined(ranges: Seq<PageRange>, index: int, range: PageRange)
    requires
        canonical(ranges),
        range.wf(),
        0 <= index <= ranges.len(),
        forall|i: int| 0 <= i < index ==> (#[trigger] ranges[i]).end <= range.start,
        forall|i: int| index <= i < ranges.len() ==> range.end <= (#[trigger] ranges[i]).start,
    ensures
        canonical(joined(ranges, index, range)),
        region(joined(ranges, index, range)) == region(ranges).union(range.addresses()),
{
    let new = joined(ranges, index, range);
    let touches_prev = 0 < index && ranges[index - 1].end == range.start;
    let touches_next = index < ranges.len() && ranges[index].start == range.end;
    let m = if touches_prev {
        index - 1
    } else {
        index
    };
    let shift = if touches_next {
        index + 1
    } else {
        index
    } - (m + 1);
    assert(forall|i: int| 0 <= i < m ==> new[i] == ranges[i]);
    assert(forall|i: int| m < i < new.len() ==> #[trigger] new[i] == ranges[i + shift]);
    assert(new.len() == ranges.len() - shift);
    assert forall|i: int, j: int| 0 <= i < j < new.len() implies (#[trigger] new[i]).end < (
    #[trigger] new[j]).start by {
        let oi = if i < m {
            i
        } else {
            i + shift
        };
        let oj = if j < m {
            j
        } else {
            j + shift
        };
        if i != m && j != m {
            assert(ranges[oi].end < ranges[oj].start);
        } else if j == m {
            if touches_prev {
                assert(ranges[i].end < ranges[index - 1].start);
            } else {
                assert(ranges[i].end <= range.start);
            }
        } else {
            if touches_next {
                assert(ranges[index].end < ranges[oj].start);
            } else {
                assert(range.end <= ranges[oj].start);
                if ranges[oj].start == range.end {
                    assert(oj > index);
                    assert(ranges[index].end < ranges[oj].start);
                }
            }
        }
    }
    assert forall|i: int| 0 <= i < new.len() implies (#[trigger] new[i]).wf() by {
        if i < m {
            assert(ranges[i].wf());
        } else if i > m {
            assert(ranges[i + shift].wf());
        } else {
            if touches_prev {
                assert(ranges[index - 1].wf());
            }
            if touches_next {
                assert(ranges[index].wf());
            }
        }
    }
    assert forall|addr: int|
        covered(new, addr) <==> (covered(ranges, addr) || range.addresses().contains(addr)) by {
        if covered(new, addr) {
            let i = choose|i: int|
                0 <= i < new.len() && (#[trigger] new[i]).start <= addr < new[i].end;
            if i < m {
                assert(ranges[i].start <= addr < ranges[i].end);
            } else if i > m {
                assert(ranges[i + shift].start <= addr < ranges[i + shift].end);
            } else {
                if touches_prev && addr < range.start {
                    assert(ranges[index - 1].start <= addr < ranges[index - 1].end);
                }
                if touches_next && range.end <= addr {
                    assert(ranges[index].start <= addr < ranges[index].end);
                }
            }
        }
        if covered(ranges, addr) {
            let i = choose|i: int|
                0 <= i < ranges.len() && (#[trigger] ranges[i]).start <= addr < ranges[i].end;
            if i < m {
                assert(new[i].start <= addr < new[i].end);
            } else if i - shift > m {
                assert(new[i - shift].start <= addr < new[i - shift].end);
            } else {
                assert(new[m].start <= addr < new[m].end);
            }
        }
        if range.addresses().contains(addr) {
            assert(new[m].start <= addr < new[m].end);
        }
    }
    assert(region(new) =~= region(ranges).union(range.addresses()));
}

/// What is left of `ranges` without a part of the range at `index`.
spec fn without(ranges: Seq<PageRange>, index: int, range: PageRange) -> Seq<PageRange> {
    let entry = ranges[index];
    let left = if entry.start < range.start {
        seq![PageRange { start: entry.start, end: range.start }]
    } else {
        Seq::empty()
    };
    let right = if range.end < entry.end {
        seq![PageRange { start: range.end, end: entry.end }]
    } else {
        Seq::empty()
    };
    ranges.take(index) + left + right + ranges.skip(index + 1)
}

proof fn lemma_without(ranges: Seq<PageRange>, index: int, range: PageRange)
    requires
        canonical(ranges),
        range.wf(),
        0 <= index < ranges.len(),
        ranges[index].contains(range),
    ensures
        canonical(without(ranges, index, range)),
        region(without(ranges, index, range)) == region(ranges).difference(range.addresses()),
{
    let new = without(ranges, index, range);
    let entry = ranges[index];
    let l: int = if entry.start < range.start {
        1
    } else {
        0
    };
    let r: int = if range.end < entry.end {
        1
    } else {
        0
    };
    let shift = 1 - l - r;
    assert(new.len() == ranges.len() - shift);
    assert(forall|i: int| 0 <= i < index ==> new[i] == ranges[i]);
    assert(forall|i: int|
        index + l + r <= i < new.len() ==> #[trigger] new[i] == ranges[i + shift]);
    if l == 1 {
        assert(new[index] == (PageRange { start: entry.start, end: range.start }));
    }
    if r == 1 {
        assert(new[index + l] == (PageRange { start: range.end, end: entry.end }));
    }
    assert forall|i: int, j: int| 0 <= i < j < new.len() implies (#[trigger] new[i]).end < (
    #[trigger] new[j]).start by {
        let oi = if i < index {
            i
        } else if i < index + l + r {
            index
        } else {
            i + shift
        };
        let oj = if j < index {
            j
        } else if j < index + l + r {
            index
        } else {
            j + shift
        };
        if oi < oj {
            assert(ranges[oi].end < ranges[oj].start);
        }
    }
    assert forall|i: int| 0 <= i < new.len() implies (#[trigger] new[i]).wf() by {
        if i < index {
            assert(ranges[i].wf());
        } else if i < index + l + r {
            assert(ranges[index].wf());
        } else {
            assert(ranges[i + shift].wf());
        }
    }
    assert forall|addr: int|
        covered(new, addr) <==> (covered(ranges, addr) && !range.addresses().contains(addr)) by {
        if covered(new, addr) {
            let i = choose|i: int|
                0 <= i < new.len() && (#[trigger] new[i]).start <= addr < new[i].end;
            if i < index {
                assert(ranges[i].start <= addr < ranges[i].end);
                assert(ranges[i].end < ranges[index].start);
            } else if i < index + l + r {
                assert(ranges[index].start <= addr < ranges[index].end);
            } else {
                assert(ranges[i + shift].start <= addr < ranges[i + shift].end);
                assert(ranges[index].end < ranges[i + shift].start);
            }
        }
        if covered(ranges, addr) && !range.addresses().contains(addr) {
            let i = choose|i: int|
                0 <= i < ranges.len() && (#[trigger] ranges[i]).start <= addr < ranges[i].end;
            if i < index {
                assert(new[i].start <= addr < new[i].end);
            } else if i > index {
                assert(new[i - shift].start <= addr < new[i - shift].end);
            } else if addr < range.start {
                assert(new[index].start <= addr < new[index].end);
            } else {
                assert(new[index + l].start <= addr < new[index + l].end);
            }
        }
    }
    assert(region(new) =~= region(ranges).difference(range.addresses()));
}

impl RangeList {
    /// Whether the free ranges are in order and neither overlap nor touch.
    pub open spec fn wf(&self) -> bool {
        canonical(self@)
    }

    /// A list without any free space.
    pub fn new() -> (list: RangeList)
        ensures
            list.wf(),
            list@ == Seq::<PageRange>::empty(),
    {
        RangeList { ranges: Vec::new() }
    }

    /// Makes `range` free, unless part of it is free already.
    pub fn deallocate(&mut self, range: PageRange) -> (result: Result<(), AllocError>)
        requires
            old(self).wf(),
            range.wf(),
        ensures
            final(self).wf(),
            result is Ok <==> region(old(self)@).disjoint(range.addresses()),
            result is Ok ==> region(final(self)@) == region(old(self)@).union(range.addresses()),
            result is Err ==> final(self)@ == old(self)@,
    {
        let ghost ranges = self.ranges@;
        let mut index: usize = 0;
        while index < self.ranges.len() && self.ranges[index].end <= range.start
            invariant
                self.ranges@ == ranges,
                canonical(ranges),
                0 <= index <= ranges.len(),
                forall|i: int| 0 <= i < index ==> (#[trigger] ranges[i]).end <= range.start,
            decreases ranges.len() - index,
        {
            index += 1;
        }
        proof {
            lemma_overlap(ranges, range);
            assert(index < ranges.len() ==> ranges[index as int].end > range.start);
        }
        if index < self.ranges.len() && self.ranges[index].start < range.end {
            assert(ranges[index as int].overlaps(range));
            return Err(AllocError);
        }
        proof {
            assert forall|i: int| index <= i < ranges.len() implies range.end <= (
            #[trigger] ranges[i]).start by {
                if i > index {
                    assert(ranges[index as int].end < ranges[i].start);
                    assert(ranges[index as int].wf());
                }
            }
            lemma_joined(ranges, index as int, range);
        }
        let touches_prev = 0 < index && self.ranges[index - 1].end == range.start;
        let touches_next = index < self.ranges.len() && self.ranges[index].start == range.end;
        if touches_prev {
            let start: usize = self.ranges[index - 1].start;
            if touches_next {
                let next = self.ranges.remove(index);
                self.ranges.set(index - 1, PageRange { start, end: next.end });
            } else {
                self.ranges.set(index - 1, PageRange { start, end: range.end });
            }
        } else if touches_next {
            let end: usize = self.ranges[index].end;
            self.ranges.set(index, PageRange { start: range.start, end });
        } else {
            self.ranges.insert(index, range);
        }
        assert(self.ranges@ =~= joined(ranges, index as int, range));
        Ok(())
    }

    /// Takes a part of the range at `index` off the list.
    fn remove_at(&mut self, index: usize, range: PageRange)
        requires
            old(self).wf(),
            range.wf(),
            index < old(self)@.len(),
            old(self)@[index as int].contains(range),
        ensures
            final(self).wf(),
            region(final(self)@) == region(old(self)@).difference(range.addresses()),
    {
        let ghost ranges = self.ranges@;
        proof {
            lemma_without(ranges, index as int, range);
        }
        let entry = self.ranges[index];
        let left = PageRange { start: entry.start, end: range.start };
        let right = PageRange { start: range.end, end: entry.end };
        if entry.start < range.start {
            self.ranges.set(index, left);
            if range.end < entry.end {
                assert(index < self.ranges.len());
                self.ranges.insert(index + 1, right);
            }
        } else if range.end < entry.end {
            self.ranges.set(index, right);
        } else {
            self.ranges.remove(index);
        }
        assert(self.ranges@ =~= without(ranges, index as int, range));
    }

    /// Allocates pages according to `layout` from the first free range that has room for them.
    pub fn allocate(&mut self, layout: PageLayout) -> (result: Result<PageRange, AllocError>)
        requires
            old(self).wf(),
            layout.wf(),
        ensures
            final(self).wf(),
            match first_fit(old(self)@, layout) {
                Some(range) => {
                    &&& result == Ok::<PageRange, AllocError>(range)
                    &&& range.wf()
                    &&& range.len() == layout.size
                    &&& range.start % layout.align == 0
                    &&& range.addresses().subset_of(region(old(self)@))
                    &&& region(final(self)@) == region(old(self)@).difference(range.addresses())
                },
                None => {
                    &&& result == Err::<PageRange, AllocError>(AllocError)
                    &&& final(self)@ == old(self)@
                },
            },
    {
        let ghost ranges = self@;
        let mut index: usize = 0;
        assert(ranges.skip(0) =~= ranges);
        while index < self.ranges.len()
            invariant
                self.wf(),
                self@ == ranges,
                ranges == old(self)@,
                layout.wf(),
                0 <= index <= ranges.len(),
                first_fit(ranges, layout) == first_fit(ranges.skip(index as int), layout),
            decreases ranges.len() - index,
        {
            assert(ranges.skip(index as int)[0] == ranges[index as int]);
            let fit = self.ranges[index].fit(layout);
            if let Some(range) = fit {
                proof {
                    lemma_entry(ranges, index as int);
                }
                self.remove_at(index, range);
                return Ok(range);
            }
            assert(ranges.skip(index as int).skip(1) =~= ranges.skip(index + 1));
            index += 1;
        }
        Err(AllocError)
    }

    /// Allocates `range`, if all of it is free.
    pub fn allocate_at(&mut self, range: PageRange) -> (result: Result<(), AllocError>)
        requires
            old(self).wf(),
            range.wf(),
        ensures
            final(self).wf(),
            result is Ok <==> range.addresses().subset_of(region(old(self)@)),
            result is Ok ==> region(final(self)@) == region(old(self)@).difference(
                range.addresses(),
            ),
            result is Err ==> final(self)@ == old(self)@,
    {
        let ghost ranges = self@;
        let mut index: usize = 0;
        while index < self.ranges.len()
            invariant
                self.wf(),
                self@ == ranges,
                ranges == old(self)@,
                range.wf(),
                0 <= index <= ranges.len(),
                forall|i: int| 0 <= i < index ==> !(#[trigger] ranges[i]).contains(range),
            decreases ranges.len() - index,
        {
            if self.ranges[index].start <= range.start && range.end <= self.ranges[index].end {
                proof {
                    lemma_entry(ranges, index as int);
                }
                self.remove_at(index, range);
                return Ok(());
            }
            index += 1;
        }
        proof {
            if range.addresses().subset_of(region(ranges)) {
                let i = lemma_contained(ranges, range);
                assert(false);
            }
        }
        Err(AllocError)
    }

    /// Allocates what the first free range that overlaps with `reservation` has in common
    /// with it.
    pub fn allocate_overlap(&mut self, reservation: PageRange) -> (result: Result<
        PageRange,
        AllocError,
    >)
        requires
            old(self).wf(),
            reservation.wf(),
        ensures
            final(self).wf(),
            match first_overlap(old(self)@, reservation) {
                Some(range) => {
                    &&& result == Ok::<PageRange, AllocError>(range)
                    &&& range.wf()
                    &&& range.addresses().subset_of(reservation.addresses())
                    &&& range.addresses().subset_of(region(old(self)@))
                    &&& region(final(self)@) == region(old(self)@).difference(range.addresses())
                },
                None => {
                    &&& result == Err::<PageRange, AllocError>(AllocError)
                    &&& region(old(self)@).disjoint(reservation.addresses())
                    &&& final(self)@ == old(self)@
                },
            },
    {
        let ghost ranges = self@;
        let mut index: usize = 0;
        assert(ranges.skip(0) =~= ranges);
        while index < self.ranges.len()
            invariant
                self.wf(),
                self@ == ranges,
                ranges == old(self)@,
                reservation.wf(),
                0 <= index <= ranges.len(),
                first_overlap(ranges, reservation) == first_overlap(
                    ranges.skip(index as int),
                    reservation,
                ),
                forall|i: int| 0 <= i < index ==> !(#[trigger] ranges[i]).overlaps(reservation),
            decreases ranges.len() - index,
        {
            assert(ranges.skip(index as int)[0] == ranges[index as int]);
            let overlap = reservation.and(self.ranges[index]);
            if let Some(range) = overlap {
                proof {
                    lemma_entry(ranges, index as int);
                }
                self.remove_at(index, range);
                return Ok(range);
            }
            assert(ranges.skip(index as int).skip(1) =~= ranges.skip(index + 1));
            index += 1;
        }
        proof {
            lemma_overlap(ranges, reservation);
        }
        Err(AllocError)
    }

    /// Whether part of `range` is free.
    pub fn overlaps(&self, range: PageRange) -> (overlaps: bool)
        requires
            self.wf(),
            range.wf(),
        ensures
            overlaps <==> !region(self@).disjoint(range.addresses()),
    {
        let mut index: usize = 0;
        while index < self.ranges.len()
            invariant
                self.wf(),
                range.wf(),
                0 <= index <= self@.len(),
                forall|i: int| 0 <= i < index ==> !(#[trigger] self@[i]).overlaps(range),
            decreases self@.len() - index,
        {
            if self.ranges[index].start < range.end && range.start < self.ranges[index].end {
                proof {
                    lemma_overlap(self@, range);
                    assert(self@[index as int].overlaps(range));
                }
                return true;
            }
            index += 1;
        }
        proof {
            lemma_overlap(self@, range);
        }
        false
    }

    /// The free ranges, from the lowest to the highest.
    pub fn to_vec(&self) -> (ranges: Vec<PageRange>)
        ensures
            ranges@ == self@,
    {
        let mut ranges: Vec<PageRange> = Vec::new();
        let mut index: usize = 0;
        while index < self.ranges.len()
            invariant
                0 <= index <= self@.len(),
                ranges@ == self@.take(index as int),
            decreases self@.len() - index,
        {
            ranges.push(self.ranges[index]);
            index += 1;
            assert(ranges@ =~= self@.take(index as int));
        }
        assert(self@.take(index as int) =~= self@);
        ranges
    }

    /// The free ranges as text, one to a line.
    pub fn to_text(&self) -> (text: String)
        requires
            self.wf(),
        ensures
            text@ == listing(self@),
    {
        let mut text = String::new();
        let mut index: usize = 0;
        while index < self.ranges.len()
            invariant
                self.wf(),
                0 <= index <= self@.len(),
                text@ == listing(self@.take(index as int)),
            decreases self@.len() - index,
        {
            let line = self.ranges[index].to_text();
            if 0 < index {
                text.append("\n");
            }
            text.append(line.as_str());
            index += 1;
            proof {
                let longer = self@.take(index as int);
                assert(longer.drop_last() =~= self@.take(index - 1));
                assert(text@ =~= listing(longer));
            }
        }
        assert(self@.take(index as int) =~= self@);
        text
    }

    /// The number of free bytes.
    pub fn free_space(&self) -> (space: usize)
        requires
            self.wf(),
        ensures
            space == region(self@).len(),
            region(self@).finite(),
    {
        let mut space: usize = 0;
        let mut index: usize = 0;
        proof {
            lemma_total_len(self@);
        }
        while index < self.ranges.len()
            invariant
                self.wf(),
                0 <= index <= self@.len(),
                space == total_len(self@.take(index as int)),
            decreases self@.len() - index,
        {
            let ghost longer = self@.take(index + 1);
            proof {
                assert(longer.drop_last() =~= self@.take(index as int));
                assert(canonical(longer));
                lemma_total_len(longer);
                assert(self@[index as int].wf());
            }
            space += self.ranges[index].end - self.ranges[index].start;
            index += 1;
        }
        assert(self@.take(index as int) =~= self@);
        space
    }
}

impl Clone for RangeList {
    fn clone(&self) -> (list: RangeList)
        ensures
            list@ == self@,
    {
        RangeList { ranges: self.to_vec() }
    }
}

/// What is placed in the first free range with room for it is a page range of the right size.
pub proof fn lemma_first_fit(ranges: Seq<PageRange>, layout: PageLayout)
    requires
        canonical(ranges),
        layout.wf(),
        first_fit(ranges, layout) is Some,
    ensures
        first_fit(ranges, layout)->0.wf(),
        first_fit(ranges, layout)->0.len() == layout.size,
    decreases ranges.len(),
{
    if ranges[0].placement(layout) is Some {
        lemma_placement(ranges[0], layout);
    } else {
        let rest = ranges.skip(1);
        assert(forall|i: int| 0 <= i < rest.len() ==> rest[i] == ranges[i + 1]);
        lemma_first_fit(rest, layout);
    }
}

/// Making pages free again after their allocation restores the list.
pub proof fn law_release_undoes_allocation(
    before: Seq<PageRange>,
    allocated: Seq<PageRange>,
    after: Seq<PageRange>,
    range: PageRange,
)
    requires
        canonical(before),
        canonical(after),
        range.addresses().subset_of(region(before)),
        region(allocated) == region(before).difference(range.addresses()),
        region(after) == region(allocated).union(range.addresses()),
    ensures
        after == before,
{
    assert(region(after) =~= region(before));
    lemma_canonical_unique(after, before);
}

/// Allocating pages again after they were made free restores the list.
pub proof fn law_allocation_undoes_release(
    before: Seq<PageRange>,
    released: Seq<PageRange>,
    after: Seq<PageRange>,
    range: PageRange,
)
    requires
        canonical(before),
        canonical(after),
        region(before).disjoint(range.addresses()),
        region(released) == region(before).union(range.addresses()),
        region(after) == region(released).difference(range.addresses()),
    ensures
        after == before,
{
    assert(region(after) =~= region(before));
    lemma_canonical_unique(after, before);
}

/// What is allocated is not allocated again before it is made free.
pub proof fn law_allocations_are_disjoint(
    before: Seq<PageRange>,
    allocated: Seq<PageRange>,
    first: PageRange,
    second: PageRange,
)
    requires
        region(allocated) == region(before).difference(first.addresses()),
        second.addresses().subset_of(region(allocated)),
    ensures
        first.addresses().disjoint(second.addresses()),
{
}

/// An allocation takes as many bytes from the free space as it returns.
pub proof fn law_space_is_conserved(
    before: Seq<PageRange>,
    after: Seq<PageRange>,
    range: PageRange,
)
    requires
        canonical(before),
        canonical(after),
        range.wf(),
        range.addresses().subset_of(region(before)),
        region(after) == region(before).difference(range.addresses()),
    ensures
        region(after).len() + range.len() == region(before).len(),
{
    lemma_total_len(before);
    lemma_total_len(after);
    lemma_int_range(range.start as int, range.end as int);
    assert(region(after).disjoint(range.addresses()));
    assert(region(after).union(range.addresses()) =~= region(before));
    vstd::set_lib::lemma_set_disjoint_lens(region(after), range.addresses());
}

/// An allocation fails only where no free range has room for it, and is otherwise made at the
/// lowest address possible.
pub proof fn law_first_fit(ranges: Seq<PageRange>, layout: PageLayout)
    requires
        canonical(ranges),
        layout.wf(),
    ensures
        first_fit(ranges, layout) is None <==> forall|i: int|
            0 <= i < ranges.len() ==> (#[trigger] ranges[i]).placement(layout) is None,
        first_fit(ranges, layout) matches Some(range) ==> forall|i: int|
            0 <= i < ranges.len() ==> ((#[trigger] ranges[i]).placement(layout) matches Some(other)
                ==> range.start <= other.start),
    decreases ranges.len(),
{
    if ranges.len() > 0 {
        let rest = ranges.skip(1);
        law_first_fit(rest, layout);
        assert(forall|i: int| 0 <= i < rest.len() ==> rest[i] == ranges[i + 1]);
        assert(forall|i: int| 0 < i < ranges.len() ==> ranges[i] == rest[i - 1]);
        if ranges[0].placement(layout) is Some {
            lemma_placement(ranges[0], layout);
            assert forall|i: int| 0 <= i < ranges.len() implies ((
            #[trigger] ranges[i]).placement(layout) matches Some(other) ==> ranges[0].placement(
                layout,
            )->0.start <= other.start) by {
                if i > 0 && ranges[i].placement(layout) is Some {
                    lemma_placement(ranges[i], layout);
                    assert(ranges[0].end < ranges[i].start);
                }
            }
        } else {
            assert(first_fit(ranges, layout) == first_fit(rest, layout));
            if first_fit(rest, layout) is None {
                assert forall|i: int| 0 <= i < ranges.len() implies (
                #[trigger] ranges[i]).placement(layout) is None by {
                    if i > 0 {
                        assert(rest[i - 1].placement(layout) is None);
                    }
                }
            } else {
                let k = choose|k: int|
                    0 <= k < rest.len() && (#[trigger] rest[k]).placement(layout) is Some;
                assert(ranges[k + 1].placement(layout) is Some);
            }
        }
    }
}

/// A list without ranges has no addresses, and each range at its end adds its own.
pub proof fn law_regions_add_up(ranges: Seq<PageRange>, range: PageRange)
    ensures
        region(Seq::<PageRange>::empty()) == Set::<int>::empty(),
        region(ranges.push(range)) == region(ranges).union(range.addresses()),
{
    assert(region(Seq::<PageRange>::empty()) =~= Set::<int>::empty());
    let longer = ranges.push(range);
    assert forall|addr: int|
        covered(longer, addr) <==> covered(ranges, addr) || range.addresses().contains(addr) by {
        if covered(longer, addr) {
            let i = choose|i: int|
                0 <= i < longer.len() && (#[trigger] longer[i]).start <= addr < longer[i].end;
            if i < ranges.len() {
                assert(ranges[i].start <= addr < ranges[i].end);
            }
        }
        if covered(ranges, addr) {
            let i = choose|i: int|
                0 <= i < ranges.len() && (#[trigger] ranges[i]).start <= addr < ranges[i].end;
            assert(longer[i].start <= addr < longer[i].end);
        }
        if range.addresses().contains(addr) {
            assert(longer[ranges.len() as int].start <= addr);
        }
    }
    assert(region(longer) =~= region(ranges).union(range.addresses()));
}

/// A list is in order exactly if its ranges are page ranges and each but the last ends before the
/// next one starts.
pub proof fn law_order(ranges: Seq<PageRange>, range: PageRange)
    ensures
        canonical(Seq::<PageRange>::empty()),
        canonical(ranges.push(range)) <==> canonical(ranges) && range.wf() && (ranges.len() == 0
            || ranges.last().end < range.start),
{
    let longer = ranges.push(range);
    if canonical(longer) {
        assert forall|i: int| 0 <= i < ranges.len() implies (#[trigger] ranges[i]).wf() by {
            assert(longer[i].wf());
        }
        assert forall|i: int, j: int| 0 <= i < j < ranges.len() implies (
        #[trigger] ranges[i]).end < (#[trigger] ranges[j]).start by {
            assert(longer[i].end < longer[j].start);
        }
        assert(longer[ranges.len() as int].wf());
        if ranges.len() > 0 {
            assert(longer[ranges.len() - 1].end < longer[ranges.len() as int].start);
        }
    }
    if canonical(ranges) && range.wf() && (ranges.len() == 0 || ranges.last().end < range.start) {
        assert forall|i: int, j: int| 0 <= i < j < longer.len() implies (
        #[trigger] longer[i]).end < (#[trigger] longer[j]).start by {
            if j < ranges.len() {
                assert(ranges[i].end < ranges[j].start);
            } else if i < ranges.len() - 1 {
                assert(ranges[i].end < ranges[ranges.len() - 1].start);
                assert(ranges[ranges.len() - 1].wf());
            }
        }
    }
}

/// What is allocated for a reservation is the lowest that is free of it, as far as it goes: none of
/// it below is free, and neither is what follows. There is something exactly if any of it is free.
pub proof fn law_first_overlap(ranges: Seq<PageRange>, reservation: PageRange, addr: int)
    requires
        canonical(ranges),
        reservation.wf(),
    ensures
        first_overlap(ranges, reservation) is None <==> region(ranges).disjoint(
            reservation.addresses(),
        ),
        first_overlap(ranges, reservation) matches Some(range) ==> {
            &&& range.wf()
            &&& range.addresses().subset_of(region(ranges).intersect(reservation.addresses()))
            &&& region(ranges).contains(addr) && reservation.addresses().contains(addr)
                ==> range.start <= addr
            &&& !(region(ranges).contains(range.end as int) && reservation.addresses().contains(
                range.end as int,
            ))
        },
    decreases ranges.len(),
{
    if ranges.len() > 0 {
        let rest = ranges.skip(1);
        assert(forall|i: int| 0 <= i < rest.len() ==> rest[i] == ranges[i + 1]);
        assert(canonical(rest));
        law_first_overlap(rest, reservation, addr);
        crate::page_range::law_overlap_is_the_intersection(reservation, ranges[0]);
        lemma_entry(ranges, 0);
        assert forall|a: int|
            region(ranges).contains(a) <==> ranges[0].addresses().contains(a) || region(
                rest,
            ).contains(a) by {
            if covered(ranges, a) {
                let i = choose|i: int|
                    0 <= i < ranges.len() && (#[trigger] ranges[i]).start <= a < ranges[i].end;
                if i > 0 {
                    assert(rest[i - 1].start <= a < rest[i - 1].end);
                }
            }
            if covered(rest, a) {
                let i = choose|i: int|
                    0 <= i < rest.len() && (#[trigger] rest[i]).start <= a < rest[i].end;
                assert(ranges[i + 1].start <= a < ranges[i + 1].end);
            }
        }
        if let Some(range) = reservation.overlap(ranges[0]) {
            if region(rest).contains(addr) {
                let i = choose|i: int|
                    0 <= i < rest.len() && (#[trigger] rest[i]).start <= addr < rest[i].end;
                assert(ranges[0].end < ranges[i + 1].start);
            }
            assert(range.addresses().contains(range.start as int));
            if region(ranges).contains(range.end as int) && range.end == ranges[0].end {
                let i = choose|i: int|
                    0 <= i < ranges.len() && (#[trigger] ranges[i]).start <= range.end
                        < ranges[i].end;
                assert(i == 0 || ranges[0].end < ranges[i].start);
            }
        } else {
            assert(first_overlap(ranges, reservation) == first_overlap(rest, reservation));
            if let Some(range) = first_overlap(rest, reservation) {
                if region(ranges).contains(range.end as int) && ranges[0].addresses().contains(
                    range.end as int,
                ) {
                    assert(!reservation.addresses().contains(range.end as int));
                }
            }
            if region(rest).disjoint(reservation.addresses()) {
                assert(region(ranges).disjoint(reservation.addresses()));
            } else {
                let a = choose|a: int|
                    region(rest).contains(a) && reservation.addresses().contains(a);
                assert(region(ranges).contains(a));
            }
        }
    } else {
        assert(region(ranges) =~= Set::<int>::empty());
    }
}

/// Free ranges are listed one to a line: a list without ranges is empty, a range alone is its own
/// text, and a range at the end of others comes after a line break.
pub proof fn law_listing(ranges: Seq<PageRange>, range: PageRange)
    ensures
        listing(Seq::<PageRange>::empty()) == Seq::<char>::empty(),
        listing(seq![range]) == page_range_text(range.start, range.end),
        ranges.len() > 0 ==> listing(ranges.push(range)) == listing(ranges) + seq![10 as char]
            + page_range_text(range.start, range.end),
{
    reveal_strlit("\n");
    assert("\n"@ =~= seq![10 as char]);
    assert(ranges.push(range).drop_last() =~= ranges);
}

} // verus!
