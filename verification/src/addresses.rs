//! Virtual and physical addresses of the architectures that the kernel runs on.
use crate::align::{is_power_of_two, BASE_PAGE_SIZE, HUGE_PAGE_SIZE, LARGE_PAGE_SIZE};
use crate::page_range::PageRange;
use align_address::Align;
use vstd::prelude::*;

verus! {

/// The architectures of the processors that the kernel runs on.
#[derive(Clone, Copy, Debug, PartialEq, Eq, Structural)]
pub enum Architecture {
    /// 64-bit Arm.
    Aarch64,
    /// 64-bit RISC-V.
    Riscv64,
    /// 64-bit x86.
    X86_64,
}

impl Architecture {
    /// The size of the pages that frames are mapped with.
    pub open spec fn identity_size(self) -> usize {
        match self {
            Architecture::Aarch64 => BASE_PAGE_SIZE,
            Architecture::Riscv64 => HUGE_PAGE_SIZE,
            Architecture::X86_64 => LARGE_PAGE_SIZE,
        }
    }

    /// The size of the pages that frames are mapped with.
    pub fn identity_page_size(self) -> (page_size: usize)
        ensures
            page_size == self.identity_size(),
    {
        match self {
            Architecture::Aarch64 => BASE_PAGE_SIZE,
            Architecture::Riscv64 => HUGE_PAGE_SIZE,
            Architecture::X86_64 => LARGE_PAGE_SIZE,
        }
    }

    /// The end of the lower part of the virtual address space.
    pub open spec fn lower_end(self) -> int {
        match self {
            Architecture::Aarch64 => 0x10_0000_0000_0000,
            Architecture::Riscv64 => 0x1_0000_0000_0000,
            Architecture::X86_64 => 0x8000_0000_0000,
        }
    }

    /// The start of the upper part of the virtual address space.
    pub open spec fn upper_start(self) -> int {
        match self {
            Architecture::Aarch64 => 0xfff0_0000_0000_0000,
            Architecture::Riscv64 => 0xffff_8000_0000_0000,
            Architecture::X86_64 => 0xffff_8000_0000_0000,
        }
    }

    /// The end of the physical address space.
    pub open spec fn physical_end(self) -> int {
        match self {
            Architecture::Aarch64 => 0x100_0000_0000_0000,
            Architecture::Riscv64 => 0x40_0000_0000_0000,
            Architecture::X86_64 => 0x10_0000_0000_0000,
        }
    }

    /// Whether `addr` is a virtual address.
    pub open spec fn is_virtual(self, addr: int) -> bool {
        0 <= addr < self.lower_end() || self.upper_start() <= addr <= u64::MAX
    }

    /// `addr` with the bits above its sign bit replaced by copies of it. The sign bit is bit 52 on
    /// 64-bit Arm and bit 47 otherwise.
    pub open spec fn sign_extended(self, addr: int) -> int {
        match self {
            Architecture::Aarch64 => if addr % 0x20_0000_0000_0000 < 0x10_0000_0000_0000 {
                addr % 0x20_0000_0000_0000
            } else {
                addr % 0x20_0000_0000_0000 + 0xffe0_0000_0000_0000
            },
            _ => if addr % 0x1_0000_0000_0000 < 0x8000_0000_0000 {
                addr % 0x1_0000_0000_0000
            } else {
                addr % 0x1_0000_0000_0000 + 0xffff_0000_0000_0000
            },
        }
    }

    /// Whether the bits of `addr` above its sign bit are copies of it.
    pub open spec fn is_canonical(self, addr: int) -> bool {
        self.sign_extended(addr) == addr
    }

    /// `addr` without the bits beyond the physical address space.
    pub open spec fn truncated(self, addr: int) -> int {
        match self {
            Architecture::Aarch64 => addr % 0x100_0000_0000_0000,
            Architecture::Riscv64 => addr % 0x40_0000_0000_0000,
            Architecture::X86_64 => addr % 0x10_0000_0000_0000,
        }
    }

    /// Whether `addr` is a physical address.
    pub open spec fn is_physical(self, addr: int) -> bool {
        0 <= addr < self.physical_end()
    }

    /// Whether all of `addresses` are canonical.
    pub open spec fn all_canonical(self, addresses: Set<int>) -> bool {
        forall|addr: int| #[trigger] addresses.contains(addr) ==> self.is_canonical(addr)
    }

    /// Whether all of `addresses` are physical addresses.
    pub open spec fn all_physical(self, addresses: Set<int>) -> bool {
        forall|addr: int| #[trigger] addresses.contains(addr) ==> self.is_physical(addr)
    }
}

/// Canonical addresses are virtual addresses. On 64-bit RISC-V, those of the lower part with the
/// sign bit set are virtual, but not canonical; otherwise, all virtual addresses are canonical.
pub proof fn lemma_canonical(architecture: Architecture, addr: int)
    requires
        0 <= addr <= u64::MAX,
    ensures
        architecture.is_canonical(addr) <==> architecture.is_virtual(addr) && !(architecture
            == Architecture::Riscv64 && 0x8000_0000_0000 <= addr < 0x1_0000_0000_0000),
{
}

/// Truncation leaves physical addresses as they are.
pub proof fn lemma_truncated(architecture: Architecture, addr: int)
    requires
        0 <= addr,
    ensures
        architecture.is_physical(addr) <==> architecture.truncated(addr) == addr,
{
}

/// Makes a virtual address with `memory_addresses::arch::aarch64::VirtAddr::from`.
///
/// What is taken on trust: it replaces the bits from 53 on by copies of bit 52.
#[verifier::external_body]
fn virt_from_aarch64(addr: usize) -> (virt: usize)
    ensures
        virt == Architecture::Aarch64.sign_extended(addr as int),
{
    memory_addresses::arch::aarch64::VirtAddr::from(addr).as_usize()
}

/// Makes a virtual address with `memory_addresses::arch::aarch64::VirtAddr::try_new`.
///
/// What is taken on trust: it gives `addr` back if the bits from 52 on are all equal, and fails
/// otherwise.
#[verifier::external_body]
fn virt_try_new_aarch64(addr: usize) -> (virt: Option<usize>)
    ensures
        virt == (if Architecture::Aarch64.is_virtual(addr as int) {
            Some(addr)
        } else {
            None
        }),
{
    let virt = memory_addresses::arch::aarch64::VirtAddr::try_new(addr as u64).ok()?;
    Some(virt.as_usize())
}

/// Tests a virtual address with [`Align::is_aligned_to`], as it is implemented for
/// `memory_addresses::arch::aarch64::VirtAddr`.
///
/// What is taken on trust: for a virtual address and a power of two, it tells whether the address
/// is a multiple of the power.
#[verifier::external_body]
fn virt_is_aligned_to_aarch64(addr: usize, align: usize) -> (aligned: bool)
    requires
        Architecture::Aarch64.is_virtual(addr as int),
        is_power_of_two(align as int),
    ensures
        aligned <==> addr as int % align as int == 0,
{
    memory_addresses::arch::aarch64::VirtAddr::new(addr as u64).is_aligned_to(align as u64)
}

/// Adds to a virtual address with the `+` of `memory_addresses::arch::aarch64::VirtAddr`.
///
/// What is taken on trust: it returns the sum. It panics where that is no virtual address.
#[verifier::external_body]
fn virt_add_aarch64(addr: usize, offset: usize) -> (virt: usize)
    requires
        Architecture::Aarch64.is_virtual(addr as int),
        addr + offset <= usize::MAX,
        Architecture::Aarch64.is_virtual(addr + offset),
    ensures
        virt == addr + offset,
{
    (memory_addresses::arch::aarch64::VirtAddr::new(addr as u64) + offset as u64).as_usize()
}

/// Makes a physical address with `memory_addresses::arch::aarch64::PhysAddr::from`.
///
/// What is taken on trust: it clears the bits from 56 on.
#[verifier::external_body]
fn phys_from_aarch64(addr: usize) -> (phys: usize)
    ensures
        phys == Architecture::Aarch64.truncated(addr as int),
{
    memory_addresses::arch::aarch64::PhysAddr::from(addr).as_usize()
}

/// Makes a physical address with `memory_addresses::arch::aarch64::PhysAddr::new`.
///
/// What is taken on trust: it gives `addr` back. It panics where a bit from 56 on is set.
#[verifier::external_body]
fn phys_new_aarch64(addr: usize) -> (phys: usize)
    requires
        Architecture::Aarch64.is_physical(addr as int),
    ensures
        phys == addr,
{
    memory_addresses::arch::aarch64::PhysAddr::new(addr as u64).as_usize()
}

/// Makes a virtual address with `memory_addresses::arch::riscv64::VirtAddr::from`.
///
/// What is taken on trust: it replaces the bits from 48 on by copies of bit 47.
#[verifier::external_body]
fn virt_from_riscv64(addr: usize) -> (virt: usize)
    ensures
        virt == Architecture::Riscv64.sign_extended(addr as int),
{
    memory_addresses::arch::riscv64::VirtAddr::from(addr).as_usize()
}

/// Makes a virtual address with `memory_addresses::arch::riscv64::VirtAddr::try_new`.
///
/// What is taken on trust: it gives `addr` back if the bits from 48 on are all zero, or those from
/// 47 on are all set, and fails otherwise.
#[verifier::external_body]
fn virt_try_new_riscv64(addr: usize) -> (virt: Option<usize>)
    ensures
        virt == (if Architecture::Riscv64.is_virtual(addr as int) {
            Some(addr)
        } else {
            None
        }),
{
    let virt = memory_addresses::arch::riscv64::VirtAddr::try_new(addr as u64).ok()?;
    Some(virt.as_usize())
}

/// Tests a virtual address with [`Align::is_aligned_to`], as it is implemented for
/// `memory_addresses::arch::riscv64::VirtAddr`.
///
/// What is taken on trust: for a virtual address and a power of two, it tells whether the address
/// is canonical and a multiple of the power.
#[verifier::external_body]
fn virt_is_aligned_to_riscv64(addr: usize, align: usize) -> (aligned: bool)
    requires
        Architecture::Riscv64.is_virtual(addr as int),
        is_power_of_two(align as int),
    ensures
        aligned <==> (Architecture::Riscv64.is_canonical(addr as int) && addr as int % align as int
            == 0),
{
    memory_addresses::arch::riscv64::VirtAddr::new(addr as u64).is_aligned_to(align as u64)
}

/// Adds to a virtual address with the `+` of `memory_addresses::arch::riscv64::VirtAddr`.
///
/// What is taken on trust: it returns the sum. It panics where that is no virtual address.
#[verifier::external_body]
fn virt_add_riscv64(addr: usize, offset: usize) -> (virt: usize)
    requires
        Architecture::Riscv64.is_virtual(addr as int),
        addr + offset <= usize::MAX,
        Architecture::Riscv64.is_virtual(addr + offset),
    ensures
        virt == addr + offset,
{
    (memory_addresses::arch::riscv64::VirtAddr::new(addr as u64) + offset as u64).as_usize()
}

/// Makes a physical address with `memory_addresses::arch::riscv64::PhysAddr::from`.
///
/// What is taken on trust: it clears the bits from 54 on.
#[verifier::external_body]
fn phys_from_riscv64(addr: usize) -> (phys: usize)
    ensures
        phys == Architecture::Riscv64.truncated(addr as int),
{
    memory_addresses::arch::riscv64::PhysAddr::from(addr).as_usize()
}

/// Makes a physical address with `memory_addresses::arch::riscv64::PhysAddr::new`.
///
/// What is taken on trust: it gives `addr` back. It panics where a bit from 54 on is set.
#[verifier::external_body]
fn phys_new_riscv64(addr: usize) -> (phys: usize)
    requires
        Architecture::Riscv64.is_physical(addr as int),
    ensures
        phys == addr,
{
    memory_addresses::arch::riscv64::PhysAddr::new(addr as u64).as_usize()
}

/// Makes a virtual address with `memory_addresses::arch::x86_64::VirtAddr::from`.
///
/// What is taken on trust: it replaces the bits from 48 on by copies of bit 47.
#[verifier::external_body]
fn virt_from_x86_64(addr: usize) -> (virt: usize)
    ensures
        virt == Architecture::X86_64.sign_extended(addr as int),
{
    memory_addresses::arch::x86_64::VirtAddr::from(addr).as_usize()
}

/// Makes a virtual address with `memory_addresses::arch::x86_64::VirtAddr::try_new`.
///
/// What is taken on trust: it gives `addr` back if the bits from 47 on are all equal, and fails
/// otherwise.
#[verifier::external_body]
fn virt_try_new_x86_64(addr: usize) -> (virt: Option<usize>)
    ensures
        virt == (if Architecture::X86_64.is_virtual(addr as int) {
            Some(addr)
        } else {
            None
        }),
{
    let virt = memory_addresses::arch::x86_64::VirtAddr::try_new(addr as u64).ok()?;
    Some(virt.as_usize())
}

/// Tests a virtual address with [`Align::is_aligned_to`], as it is implemented for
/// `memory_addresses::arch::x86_64::VirtAddr`.
///
/// What is taken on trust: for a virtual address and a power of two, it tells whether the address
/// is a multiple of the power.
#[verifier::external_body]
fn virt_is_aligned_to_x86_64(addr: usize, align: usize) -> (aligned: bool)
    requires
        Architecture::X86_64.is_virtual(addr as int),
        is_power_of_two(align as int),
    ensures
        aligned <==> addr as int % align as int == 0,
{
    memory_addresses::arch::x86_64::VirtAddr::new(addr as u64).is_aligned_to(align as u64)
}

/// Adds to a virtual address with the `+` of `memory_addresses::arch::x86_64::VirtAddr`.
///
/// What is taken on trust: it returns the sum. It panics where that is no virtual address.
#[verifier::external_body]
fn virt_add_x86_64(addr: usize, offset: usize) -> (virt: usize)
    requires
        Architecture::X86_64.is_virtual(addr as int),
        addr + offset <= usize::MAX,
        Architecture::X86_64.is_virtual(addr + offset),
    ensures
        virt == addr + offset,
{
    (memory_addresses::arch::x86_64::VirtAddr::new(addr as u64) + offset as u64).as_usize()
}

/// Makes a physical address with `memory_addresses::arch::x86_64::PhysAddr::from`.
///
/// What is taken on trust: it clears the bits from 52 on.
#[verifier::external_body]
fn phys_from_x86_64(addr: usize) -> (phys: usize)
    ensures
        phys == Architecture::X86_64.truncated(addr as int),
{
    memory_addresses::arch::x86_64::PhysAddr::from(addr).as_usize()
}

/// Makes a physical address with `memory_addresses::arch::x86_64::PhysAddr::new`.
///
/// What is taken on trust: it gives `addr` back. It panics where a bit from 52 on is set.
#[verifier::external_body]
fn phys_new_x86_64(addr: usize) -> (phys: usize)
    requires
        Architecture::X86_64.is_physical(addr as int),
    ensures
        phys == addr,
{
    memory_addresses::arch::x86_64::PhysAddr::new(addr as u64).as_usize()
}

/// The virtual address that the lower bits of `addr` make.
pub(crate) fn virt_from(architecture: Architecture, addr: usize) -> (virt: usize)
    ensures
        virt == architecture.sign_extended(addr as int),
{
    match architecture {
        Architecture::Aarch64 => virt_from_aarch64(addr),
        Architecture::Riscv64 => virt_from_riscv64(addr),
        Architecture::X86_64 => virt_from_x86_64(addr),
    }
}

/// Whether `addr` is a virtual address.
pub fn is_virtual_address(architecture: Architecture, addr: usize) -> (result: bool)
    ensures
        result <==> architecture.is_virtual(addr as int),
{
    match architecture {
        Architecture::Aarch64 => virt_try_new_aarch64(addr).is_some(),
        Architecture::Riscv64 => virt_try_new_riscv64(addr).is_some(),
        Architecture::X86_64 => virt_try_new_x86_64(addr).is_some(),
    }
}

/// Whether a virtual address is canonical and a multiple of `align`.
pub(crate) fn virt_is_aligned_to(architecture: Architecture, addr: usize, align: usize) -> (aligned:
    bool)
    requires
        architecture.is_virtual(addr as int),
        is_power_of_two(align as int),
    ensures
        aligned <==> architecture.is_canonical(addr as int) && addr as int % align as int == 0,
{
    proof {
        lemma_canonical(architecture, addr as int);
    }
    match architecture {
        Architecture::Aarch64 => virt_is_aligned_to_aarch64(addr, align),
        Architecture::Riscv64 => virt_is_aligned_to_riscv64(addr, align),
        Architecture::X86_64 => virt_is_aligned_to_x86_64(addr, align),
    }
}

/// The virtual address that is `offset` bytes after `addr`.
pub(crate) fn virt_add(architecture: Architecture, addr: usize, offset: usize) -> (virt: usize)
    requires
        architecture.is_virtual(addr as int),
        addr + offset <= usize::MAX,
        architecture.is_virtual(addr + offset),
    ensures
        virt == addr + offset,
{
    match architecture {
        Architecture::Aarch64 => virt_add_aarch64(addr, offset),
        Architecture::Riscv64 => virt_add_riscv64(addr, offset),
        Architecture::X86_64 => virt_add_x86_64(addr, offset),
    }
}

/// The physical address that the lower bits of `addr` make.
pub(crate) fn phys_from(architecture: Architecture, addr: usize) -> (phys: usize)
    ensures
        phys == architecture.truncated(addr as int),
{
    match architecture {
        Architecture::Aarch64 => phys_from_aarch64(addr),
        Architecture::Riscv64 => phys_from_riscv64(addr),
        Architecture::X86_64 => phys_from_x86_64(addr),
    }
}

/// The physical address `addr`.
pub(crate) fn phys_new(architecture: Architecture, addr: usize) -> (phys: usize)
    requires
        architecture.is_physical(addr as int),
    ensures
        phys == addr,
{
    match architecture {
        Architecture::Aarch64 => phys_new_aarch64(addr),
        Architecture::Riscv64 => phys_new_riscv64(addr),
        Architecture::X86_64 => phys_new_x86_64(addr),
    }
}

/// Whether `addr` is a physical address.
pub fn is_physical_address(architecture: Architecture, addr: usize) -> (result: bool)
    ensures
        result <==> architecture.is_physical(addr as int),
{
    match architecture {
        Architecture::Aarch64 => (addr as u64) < 0x100_0000_0000_0000,
        Architecture::Riscv64 => (addr as u64) < 0x40_0000_0000_0000,
        Architecture::X86_64 => (addr as u64) < 0x10_0000_0000_0000,
    }
}

/// Whether all addresses of `range` are physical addresses.
pub fn is_physical_range(architecture: Architecture, range: PageRange) -> (result: bool)
    requires
        range.wf(),
    ensures
        result <==> architecture.all_physical(range.addresses()),
{
    proof {
        assert(range.addresses().contains(range.end - 1));
    }
    is_physical_address(architecture, range.end - 1)
}

/// Where the addresses from 0 on that are canonical end.
fn canonical_end(architecture: Architecture) -> (end: u64)
    ensures
        0 < end <= architecture.lower_end(),
        forall|addr: int|
            0 <= addr <= u64::MAX ==> (#[trigger] architecture.is_canonical(addr) <==> addr < end
                || architecture.upper_start() <= addr),
{
    proof {
        assert forall|addr: int| 0 <= addr <= u64::MAX implies (
        #[trigger] architecture.is_canonical(addr) <==> addr < (match architecture {
            Architecture::Aarch64 => 0x10_0000_0000_0000int,
            _ => 0x8000_0000_0000,
        }) || architecture.upper_start() <= addr) by {
            lemma_canonical(architecture, addr);
        }
    }
    match architecture {
        Architecture::Aarch64 => 0x10_0000_0000_0000,
        _ => 0x8000_0000_0000,
    }
}

/// Whether all addresses of `range` are canonical.
pub fn is_canonical_range(architecture: Architecture, range: PageRange) -> (result: bool)
    requires
        range.wf(),
    ensures
        result <==> architecture.all_canonical(range.addresses()),
{
    let end: u64 = canonical_end(architecture);
    let upper: u64 = match architecture {
        Architecture::Aarch64 => 0xfff0_0000_0000_0000,
        _ => 0xffff_8000_0000_0000,
    };
    proof {
        assert(range.addresses().contains(range.start as int));
        assert(range.addresses().contains(range.end - 1));
        if range.start < end && end < range.end {
            assert(range.addresses().contains(end as int));
        }
    }
    range.end as u64 <= end || range.start as u64 >= upper
}

/// An address is physical if it has no bit from the width of physical addresses on: 56 on 64-bit
/// Arm, 54 on 64-bit RISC-V, and 52 on 64-bit x86.
pub proof fn law_physical_width(addr: u64)
    ensures
        Architecture::Aarch64.is_physical(addr as int) <==> addr >> 56 == 0,
        Architecture::Riscv64.is_physical(addr as int) <==> addr >> 54 == 0,
        Architecture::X86_64.is_physical(addr as int) <==> addr >> 52 == 0,
{
    assert(addr >> 56 == 0 <==> addr < 0x100_0000_0000_0000) by (bit_vector);
    assert(addr >> 54 == 0 <==> addr < 0x40_0000_0000_0000) by (bit_vector);
    assert(addr >> 52 == 0 <==> addr < 0x10_0000_0000_0000) by (bit_vector);
}

/// An address is canonical if all its bits from the sign bit on are the same: from bit 52 on for
/// 64-bit Arm, and from bit 47 on otherwise. All canonical addresses are virtual, and all others
/// are not, but for those of 64-bit RISC-V whose highest bit is bit 47.
pub proof fn law_canonical_width(addr: u64)
    ensures
        Architecture::Aarch64.is_canonical(addr as int) <==> addr >> 52 == 0 || addr >> 52 == 0xfff,
        Architecture::Riscv64.is_canonical(addr as int) <==> addr >> 47 == 0 || addr >> 47
            == 0x1_ffff,
        Architecture::X86_64.is_canonical(addr as int) <==> addr >> 47 == 0 || addr >> 47
            == 0x1_ffff,
        Architecture::Aarch64.is_virtual(addr as int) <==> Architecture::Aarch64.is_canonical(
            addr as int,
        ),
        Architecture::Riscv64.is_virtual(addr as int) <==> Architecture::Riscv64.is_canonical(
            addr as int,
        ) || addr >> 47 == 1,
        Architecture::X86_64.is_virtual(addr as int) <==> Architecture::X86_64.is_canonical(
            addr as int,
        ),
{
    lemma_canonical(Architecture::Aarch64, addr as int);
    lemma_canonical(Architecture::Riscv64, addr as int);
    lemma_canonical(Architecture::X86_64, addr as int);
    assert(addr >> 52 == 0 <==> addr < 0x10_0000_0000_0000) by (bit_vector);
    assert(addr >> 52 == 0xfff <==> addr >= 0xfff0_0000_0000_0000) by (bit_vector);
    assert(addr >> 47 == 0 <==> addr < 0x8000_0000_0000) by (bit_vector);
    assert(addr >> 47 == 1 <==> 0x8000_0000_0000 <= addr < 0x1_0000_0000_0000) by (bit_vector);
    assert(addr >> 47 == 0x1_ffff <==> addr >= 0xffff_8000_0000_0000) by (bit_vector);
}

/// Sign extension keeps the bits up to the sign bit and makes the address canonical; truncation
/// keeps the bits of physical addresses and makes the address physical.
pub proof fn law_conversions(architecture: Architecture, addr: u64)
    ensures
        architecture.is_canonical(architecture.sign_extended(addr as int)),
        (architecture.sign_extended(addr as int) - addr) % (if architecture is Aarch64 {
            0x20_0000_0000_0000
        } else {
            0x1_0000_0000_0000
        }) == 0,
        architecture.is_physical(architecture.truncated(addr as int)),
        (architecture.truncated(addr as int) - addr) % architecture.physical_end() == 0,
{
}

/// Frames are mapped with base pages on 64-bit Arm, with pages of a GiB on 64-bit RISC-V, and with
/// pages of two MiB on 64-bit x86.
pub proof fn law_identity_page_sizes()
    ensures
        Architecture::Aarch64.identity_size() == 4 * 1024,
        Architecture::Riscv64.identity_size() == 1024 * 1024 * 1024,
        Architecture::X86_64.identity_size() == 2 * 1024 * 1024,
{
}

} // verus!
