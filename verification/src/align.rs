//! Rounding of addresses to multiples of a power of two.
use align_address::Align;
use vstd::arithmetic::power2::*;
use vstd::prelude::*;

verus! {

/// The size of a base page in bytes.
pub const BASE_PAGE_SIZE: usize = 0x1000;

/// The size of a large page in bytes.
pub const LARGE_PAGE_SIZE: usize = 0x20_0000;

/// The size of a huge page in bytes.
pub const HUGE_PAGE_SIZE: usize = 0x4000_0000;

/// Whether `n` is a power of two.
pub open spec fn is_power_of_two(n: int) -> bool {
    exists|k: nat| #[trigger] pow2(k) == n
}

/// The greatest multiple of `align` that is at most `addr`.
pub open spec fn round_down(addr: int, align: int) -> int {
    addr - addr % align
}

/// The least multiple of `align` that is at least `addr`.
pub open spec fn round_up(addr: int, align: int) -> int {
    round_down(addr + align - 1, align)
}

/// The page sizes are powers of two.
pub proof fn lemma_page_sizes()
    ensures
        is_power_of_two(BASE_PAGE_SIZE as int),
        is_power_of_two(LARGE_PAGE_SIZE as int),
        is_power_of_two(HUGE_PAGE_SIZE as int),
{
    lemma2_to64();
    assert(pow2(12) == BASE_PAGE_SIZE);
    assert(pow2(21) == LARGE_PAGE_SIZE);
    assert(pow2(30) == HUGE_PAGE_SIZE);
}

/// Rounding yields multiples of `align` that enclose `addr` as closely as possible.
pub proof fn lemma_rounding(addr: int, align: int)
    requires
        0 < align,
    ensures
        round_down(addr, align) % align == 0,
        round_up(addr, align) % align == 0,
        round_down(addr, align) <= addr < round_down(addr, align) + align,
        round_up(addr, align) - align < addr <= round_up(addr, align),
        addr % align == 0 ==> round_down(addr, align) == addr && round_up(addr, align) == addr,
        0 <= addr ==> 0 <= round_down(addr, align),
{
    lemma_round_down(addr, align);
    lemma_round_down(addr + align - 1, align);
    if addr % align == 0 {
        assert((addr + align - 1) % align == align - 1) by {
            vstd::arithmetic::div_mod::lemma_small_mod((align - 1) as nat, align as nat);
            vstd::arithmetic::div_mod::lemma_add_mod_noop(addr, align - 1, align);
        }
    }
}

proof fn lemma_round_down(addr: int, align: int)
    requires
        0 < align,
    ensures
        round_down(addr, align) % align == 0,
        round_down(addr, align) <= addr < round_down(addr, align) + align,
        0 <= addr ==> 0 <= round_down(addr, align),
{
    vstd::arithmetic::div_mod::lemma_fundamental_div_mod(addr, align);
    vstd::arithmetic::div_mod::lemma_mod_bound(addr, align);
    vstd::arithmetic::div_mod::lemma_mod_multiples_basic(addr / align, align);
    assert(align * (addr / align) == (addr / align) * align) by (nonlinear_arith);
    if 0 <= addr {
        vstd::arithmetic::div_mod::lemma_mod_decreases(addr as nat, align as nat);
    }
}

/// Rounds `addr` down with [`Align::align_down`] of `align_address`.
///
/// What is taken on trust: for a power of two, it returns the greatest multiple of
/// `align` that is at most `addr`. It panics on any other alignment.
#[verifier::external_body]
pub(crate) fn align_down(addr: usize, align: usize) -> (aligned: usize)
    requires
        is_power_of_two(align as int),
    ensures
        aligned == round_down(addr as int, align as int),
{
    addr.align_down(align)
}

/// Rounds `addr` up with [`Align::align_up`] of `align_address`.
///
/// What is taken on trust: for a power of two, it returns the least multiple of
/// `align` that is at least `addr`. It panics on any other alignment, and where that
/// multiple is beyond the address space.
#[verifier::external_body]
pub(crate) fn align_up(addr: usize, align: usize) -> (aligned: usize)
    requires
        is_power_of_two(align as int),
        round_up(addr as int, align as int) <= usize::MAX,
    ensures
        aligned == round_up(addr as int, align as int),
{
    addr.align_up(align)
}

/// The powers of two are 1 and the doubles of powers of two.
pub proof fn law_powers_of_two(n: int)
    ensures
        is_power_of_two(1),
        is_power_of_two(n) ==> 0 < n && is_power_of_two(2 * n),
        is_power_of_two(n) && n != 1 ==> n % 2 == 0 && is_power_of_two(n / 2),
{
    lemma2_to64();
    assert(pow2(0) == 1);
    if is_power_of_two(n) {
        let k = choose|k: nat| #[trigger] pow2(k) == n;
        lemma_pow2_pos(k);
        lemma_pow2_unfold(k + 1);
        assert(pow2(k + 1) == 2 * n);
        if n != 1 {
            lemma_pow2_unfold(k);
            assert(pow2((k - 1) as nat) == n / 2);
        }
    }
}

/// A base page has 2 to the power of 12 bytes, and each larger page has 512 of the next smaller.
pub proof fn law_page_sizes()
    ensures
        BASE_PAGE_SIZE == pow2(12),
        LARGE_PAGE_SIZE == 512 * BASE_PAGE_SIZE,
        HUGE_PAGE_SIZE == 512 * LARGE_PAGE_SIZE,
{
    lemma2_to64();
}

} // verus!
