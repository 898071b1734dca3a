//! The E820 table of the Linux boot parameters.
use vstd::arithmetic::power::pow;
use vstd::prelude::*;

verus! {

/// The number of bytes of an entry of the table.
pub const E820_ENTRY_SIZE: usize = 20;

/// The type of an entry that describes usable memory.
pub const E820_RAM: u64 = 1;

/// The number of regions that a [`ReservedRegions`] has room for: one for each entry of a table,
/// as the number of entries is a byte.
pub const RESERVED_REGIONS: usize = 255;

/// An entry of the table.
#[derive(Clone, Copy, Debug, PartialEq, Eq, Structural)]
pub struct E820Entry {
    /// The first address of the region.
    pub start: usize,
    /// The size of the region in bytes.
    pub size: usize,
    /// The type of the region.
    pub typ: u64,
}

/// A list of at most [`RESERVED_REGIONS`] memory regions, as pairs of the first address and
/// the first address after the region.
///
/// It is a `heapless::Vec`, of which nothing is known but what the functions below say.
#[verifier::external_body]
pub struct ReservedRegions {
    regions: heapless::Vec<(usize, usize), 255>,
}

/// The regions in `list`, in the order in which they were pushed.
pub uninterp spec fn regions_of(list: ReservedRegions) -> Seq<(usize, usize)>;

impl View for ReservedRegions {
    type V = Seq<(usize, usize)>;

    open spec fn view(&self) -> Seq<(usize, usize)> {
        regions_of(*self)
    }
}

/// Makes a list with `heapless::Vec::new`.
///
/// What is taken on trust: the list is empty.
#[verifier::external_body]
fn regions_new() -> (list: ReservedRegions)
    ensures
        regions_of(list) == Seq::<(usize, usize)>::empty(),
{
    ReservedRegions { regions: heapless::Vec::new() }
}

/// Appends to a list with `heapless::Vec::push`.
///
/// What is taken on trust: it appends `region` if there is room for it, and otherwise hands
/// it back and leaves the list alone.
#[verifier::external_body]
fn regions_push(list: &mut ReservedRegions, region: (usize, usize)) -> (result: Result<(), (usize, usize)>)
    ensures
        result == (if regions_of(*old(list)).len() < RESERVED_REGIONS {
            Ok::<(), (usize, usize)>(())
        } else {
            Err(region)
        }),
        regions_of(*final(list)) == (if regions_of(*old(list)).len() < RESERVED_REGIONS {
            regions_of(*old(list)).push(region)
        } else {
            regions_of(*old(list))
        }),
{
    list.regions.push(region)
}

/// Reads a list with `heapless::Vec::as_slice`.
///
/// What is taken on trust: the slice holds the regions of the list in their order.
#[verifier::external_body]
fn regions_as_slice(list: &ReservedRegions) -> (regions: &[(usize, usize)])
    ensures
        regions@ == regions_of(*list),
{
    list.regions.as_slice()
}

impl ReservedRegions {
    /// A list without any region.
    pub fn new() -> (list: ReservedRegions)
        ensures
            list@ == Seq::<(usize, usize)>::empty(),
    {
        regions_new()
    }

    /// Appends `region`; a list that is full stays as it is.
    pub fn push(&mut self, region: (usize, usize))
        ensures
            final(self)@ == (if old(self)@.len() < RESERVED_REGIONS {
                old(self)@.push(region)
            } else {
                old(self)@
            }),
    {
        let _ = regions_push(self, region);
    }

    /// The regions, in the order in which they were appended.
    pub fn as_slice(&self) -> (regions: &[(usize, usize)])
        ensures
            regions@ == self@,
    {
        regions_as_slice(self)
    }
}

/// The number that `bytes` stand for, least significant byte first.
pub open spec fn le_value(bytes: Seq<u8>) -> int
    decreases bytes.len(),
{
    if bytes.len() == 0 {
        0
    } else {
        bytes[0] + 0x100 * le_value(bytes.skip(1))
    }
}

/// How many numbers `len` bytes can stand for.
spec fn le_bound(len: int) -> int
    decreases len,
{
    if len <= 0 {
        1
    } else {
        0x100 * le_bound(len - 1)
    }
}

proof fn lemma_le_value(bytes: Seq<u8>)
    ensures
        0 <= le_value(bytes) < le_bound(bytes.len() as int),
    decreases bytes.len(),
{
    if bytes.len() > 0 {
        lemma_le_value(bytes.skip(1));
    }
}

/// Reads `len` bytes from `offset` on as a number, least significant byte first.
fn read_le(bytes: &[u8], offset: usize, len: usize) -> (value: u64)
    requires
        offset + len <= bytes@.len(),
        len <= 8,
    ensures
        value == le_value(bytes@.subrange(offset as int, offset + len)),
{
    let ghost field = bytes@.subrange(offset as int, offset + len);
    let mut value: u64 = 0;
    let mut left: usize = len;
    assert(field.skip(left as int) =~= Seq::<u8>::empty());
    proof {
        assert(le_bound(8) == 0x1_0000_0000_0000_0000) by {
            reveal_with_fuel(le_bound, 9);
        }
    }
    while 0 < left
        invariant
            offset + len <= bytes@.len(),
            left <= len <= 8,
            field == bytes@.subrange(offset as int, offset + len),
            value == le_value(field.skip(left as int)),
            le_bound(8) == 0x1_0000_0000_0000_0000,
        decreases left,
    {
        assert(bytes@.len() == bytes.len());
        let byte: u8 = bytes[offset + (left - 1)];
        proof {
            let longer = field.skip(left - 1);
            assert(longer[0] == byte);
            assert(longer.skip(1) =~= field.skip(left as int));
            lemma_le_value(longer);
            lemma_le_bound(longer.len() as int, 8);
        }
        value = value * 0x100 + byte as u64;
        left -= 1;
    }
    assert(field.skip(0) =~= field);
    value
}

proof fn lemma_le_bound(len: int, max: int)
    requires
        0 <= len <= max,
    ensures
        0 < le_bound(len) <= le_bound(max),
    decreases max,
{
    if len < max {
        lemma_le_bound(len, max - 1);
    } else if 0 < len {
        lemma_le_bound(len - 1, max - 1);
    }
}

/// The entry at `index` of the table, as it is laid out: first address, size and type, in
/// eight, eight and four bytes.
pub open spec fn e820_entry_at(table: Seq<u8>, index: int) -> E820Entry {
    let offset = index * E820_ENTRY_SIZE;
    E820Entry {
        start: le_value(table.subrange(offset, offset + 8)) as u64 as usize,
        size: le_value(table.subrange(offset + 8, offset + 16)) as u64 as usize,
        typ: le_value(table.subrange(offset + 16, offset + 20)) as u64,
    }
}

/// Whether `entry` describes a region that is not usable memory.
pub open spec fn is_reserved(entry: E820Entry) -> bool {
    entry.typ != E820_RAM && entry.size > 0
}

/// The regions of the first `nentries` entries that are not usable memory.
pub open spec fn reserved_entries(table: Seq<u8>, nentries: int) -> Seq<(usize, usize)>
    decreases nentries,
{
    if nentries <= 0 {
        Seq::empty()
    } else {
        let entry = e820_entry_at(table, nentries - 1);
        let before = reserved_entries(table, nentries - 1);
        if is_reserved(entry) {
            before.push((entry.start, (entry.start + entry.size) as usize))
        } else {
            before
        }
    }
}

/// Whether the regions among the first `nentries` entries that are not usable memory end
/// within the address space.
pub open spec fn reserved_ends_fit(table: Seq<u8>, nentries: int) -> bool {
    forall|i: int|
        0 <= i < nentries && is_reserved(#[trigger] e820_entry_at(table, i)) ==> e820_entry_at(
            table,
            i,
        ).start + e820_entry_at(table, i).size <= usize::MAX
}

/// Reads the entry at `index` of the table.
pub fn e820_entry(table: &[u8], index: usize) -> (entry: E820Entry)
    requires
        (index + 1) * E820_ENTRY_SIZE <= table@.len(),
    ensures
        entry == e820_entry_at(table@, index as int),
{
    assert(table@.len() == table.len());
    let offset: usize = index * E820_ENTRY_SIZE;
    let start: u64 = read_le(table, offset, 8);
    let size: u64 = read_le(table, offset + 8, 8);
    let typ: u64 = read_le(table, offset + 16, 4);
    E820Entry { start: start as usize, size: size as usize, typ }
}

/// Whether [`e820_reserved`] can be applied to the first `nentries` entries of the table.
pub fn e820_is_valid(table: &[u8], nentries: u8) -> (valid: bool)
    ensures
        valid <==> {
            &&& nentries * E820_ENTRY_SIZE <= table@.len()
            &&& reserved_ends_fit(table@, nentries as int)
        },
{
    if table.len() < nentries as usize * E820_ENTRY_SIZE {
        return false;
    }
    let mut index: usize = 0;
    while index < nentries as usize
        invariant
            0 <= index <= nentries,
            nentries * E820_ENTRY_SIZE <= table@.len(),
            reserved_ends_fit(table@, index as int),
        decreases nentries - index,
    {
        let entry = e820_entry(table, index);
        if entry.typ != E820_RAM && entry.size > 0 && entry.size > usize::MAX - entry.start {
            assert(is_reserved(e820_entry_at(table@, index as int)));
            return false;
        }
        index += 1;
    }
    true
}

/// The regions of the table that are not usable memory.
pub fn e820_reserved(table: &[u8], nentries: u8) -> (list: ReservedRegions)
    requires
        nentries * E820_ENTRY_SIZE <= table@.len(),
        reserved_ends_fit(table@, nentries as int),
    ensures
        list@ == reserved_entries(table@, nentries as int),
{
    let mut list = ReservedRegions::new();
    let mut index: usize = 0;
    while index < nentries as usize
        invariant
            0 <= index <= nentries,
            nentries * E820_ENTRY_SIZE <= table@.len(),
            reserved_ends_fit(table@, nentries as int),
            list@ == reserved_entries(table@, index as int),
        decreases nentries - index,
    {
        let entry = e820_entry(table, index);
        proof {
            lemma_reserved_len(table@, index as int);
        }
        if entry.typ != E820_RAM && entry.size > 0 {
            assert(is_reserved(e820_entry_at(table@, index as int)));
            list.push((entry.start, entry.start + entry.size));
        }
        index += 1;
    }
    list
}

/// There are no more regions than entries.
proof fn lemma_reserved_len(table: Seq<u8>, nentries: int)
    requires
        0 <= nentries,
    ensures
        reserved_entries(table, nentries).len() <= nentries,
    decreases nentries,
{
    if 0 < nentries {
        lemma_reserved_len(table, nentries - 1);
    }
}

/// Every entry that is not usable memory has its region in the list.
pub proof fn lemma_reserved_entry(table: Seq<u8>, nentries: int, index: int) -> (position: int)
    requires
        0 <= index < nentries,
        is_reserved(e820_entry_at(table, index)),
    ensures
        0 <= position < reserved_entries(table, nentries).len(),
        reserved_entries(table, nentries)[position] == (
            e820_entry_at(table, index).start,
            (e820_entry_at(table, index).start + e820_entry_at(table, index).size) as usize,
        ),
    decreases nentries,
{
    if index == nentries - 1 {
        reserved_entries(table, nentries).len() - 1
    } else {
        lemma_reserved_entry(table, nentries - 1, index)
    }
}

/// Each byte of a number is the byte in its place, the least significant one first.
pub proof fn law_le_bytes(bytes: Seq<u8>, index: int)
    requires
        0 <= index < bytes.len(),
    ensures
        0 <= le_value(bytes) < pow(0x100, bytes.len()),
        le_value(bytes) / pow(0x100, index as nat) % 0x100 == bytes[index],
    decreases bytes.len(),
{
    let rest = bytes.skip(1);
    let value = le_value(rest);
    lemma_le_range(bytes);
    lemma_le_range(rest);
    reveal(pow);
    if index > 0 {
        law_le_bytes(rest, index - 1);
        assert(rest[index - 1] == bytes[index]);
        let p = pow(0x100, (index - 1) as nat);
        vstd::arithmetic::power::lemma_pow_positive(0x100, (index - 1) as nat);
        assert(pow(0x100, index as nat) == 0x100 * p);
        vstd::arithmetic::div_mod::lemma_div_denominator(le_value(bytes), 0x100, p);
        assert(le_value(bytes) / 0x100 == value);
    } else {
        assert(pow(0x100, 0) == 1);
    }
}

proof fn lemma_le_range(bytes: Seq<u8>)
    ensures
        0 <= le_value(bytes) < pow(0x100, bytes.len()),
    decreases bytes.len(),
{
    reveal(pow);
    if bytes.len() > 0 {
        lemma_le_range(bytes.skip(1));
    }
}

/// The fields of an entry are where they belong: the entry at an index has its first address in
/// the first 8 of its 20 bytes, its size in the next 8, and its type in the last 4.
pub proof fn law_entry_layout(table: Seq<u8>, index: int, start: Seq<u8>, size: Seq<u8>, typ: Seq<u8>)
    requires
        0 <= index,
        start.len() == 8,
        size.len() == 8,
        typ.len() == 4,
        20 * index + 20 <= table.len(),
        table.skip(20 * index).take(20) == start + size + typ,
    ensures
        e820_entry_at(table, index).start == le_value(start) as u64 as usize,
        e820_entry_at(table, index).size == le_value(size) as u64 as usize,
        e820_entry_at(table, index).typ == le_value(typ),
{
    let fields = start + size + typ;
    let offset = index * E820_ENTRY_SIZE;
    let entry = table.skip(20 * index).take(20);
    assert(forall|i: int| 0 <= i < 20 ==> fields[i] == entry[i]);
    assert(forall|i: int| 0 <= i < 20 ==> entry[i] == table[offset + i]);
    assert(table.subrange(offset, offset + 8) =~= start) by {
        assert(forall|i: int| 0 <= i < 8 ==> fields[i] == start[i]);
    }
    assert(table.subrange(offset + 8, offset + 16) =~= size) by {
        assert(forall|i: int| 0 <= i < 8 ==> fields[i + 8] == size[i]);
        assert forall|i: int| 0 <= i < 8 implies table[offset + 8 + i] == size[i] by {
            assert(entry[i + 8] == table[offset + (i + 8)]);
        }
    }
    assert(table.subrange(offset + 16, offset + 20) =~= typ) by {
        assert(forall|i: int| 0 <= i < 4 ==> fields[i + 16] == typ[i]);
        assert forall|i: int| 0 <= i < 4 implies table[offset + 16 + i] == typ[i] by {
            assert(entry[i + 16] == table[offset + (i + 16)]);
        }
    }
    lemma_le_value(typ);
    assert(le_bound(4) == 0x1_0000_0000) by {
        reveal_with_fuel(le_bound, 5);
    }
}

/// With each entry more, the list gets the region of that entry at its end if its type is not 1 and
/// it has any bytes, and stays as it is otherwise. Without entries, the list is empty.
pub proof fn law_reserved_entries(table: Seq<u8>, nentries: int)
    requires
        0 <= nentries,
    ensures
        reserved_entries(table, 0).len() == 0,
        ({
            let entry = e820_entry_at(table, nentries);
            let before = reserved_entries(table, nentries);
            let after = reserved_entries(table, nentries + 1);
            if entry.typ == 1 || entry.size == 0 {
                after == before
            } else {
                &&& after.len() == before.len() + 1
                &&& after.drop_last() == before
                &&& after.last().0 == entry.start
                &&& entry.start + entry.size <= usize::MAX ==> after.last().1 - after.last().0
                    == entry.size
            }
        }),
{
    let before = reserved_entries(table, nentries);
    let after = reserved_entries(table, nentries + 1);
    if is_reserved(e820_entry_at(table, nentries)) {
        assert(after.drop_last() =~= before);
    }
}

/// The regions end within the address space exactly if none but usable memory ends beyond it.
pub proof fn law_reserved_ends(table: Seq<u8>, nentries: int)
    ensures
        reserved_ends_fit(table, nentries) <==> !exists|i: int|
            0 <= i < nentries && (#[trigger] e820_entry_at(table, i)).typ != 1 && e820_entry_at(
                table,
                i,
            ).start + e820_entry_at(table, i).size > usize::MAX,
{
    if reserved_ends_fit(table, nentries) {
        assert forall|i: int| 0 <= i < nentries && e820_entry_at(table, i).typ != 1 implies (
        #[trigger] e820_entry_at(table, i)).start + e820_entry_at(table, i).size <= usize::MAX by {
            let entry = e820_entry_at(table, i);
            if entry.size > 0 {
                assert(is_reserved(entry));
            }
        }
    }
}

} // verus!
