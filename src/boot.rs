//! What the 32-bit stage computes: page-table entries for the identity map,
//! CPUID checks, and byte conversions.
use vstd::prelude::*;

verus! {

pub const PAGE_FLAGS_P: u32 = 0x00000001;

pub const PAGE_FLAGS_RW: u32 = 0x00000002;

pub const PAGE_FLAGS_PS: u32 = 0x00000080;

/// Present and writable.
pub const PAGE_FLAGS_DEFAULT: u32 = 0x00000003;

/// Size of one large page.
pub const PAGE_DEFAULTSIZE: u64 = 0x200000;

/// Page-directory entries of the identity map (64 directories of 512).
pub const PAGE_DIRECTORYENTRIES: u32 = 512 * 64;

/// One 8-byte page-table entry.
#[derive(Clone, Copy, PartialEq, Eq, Structural)]
pub struct PageTableEntryStruct {
    pub attribute_and_lower_base_address: u32,
    pub upper_base_address_and_exb: u32,
}

impl PageTableEntryStruct {
    pub fn new() -> (r: Self)
        ensures
            r.attribute_and_lower_base_address == 0 && r.upper_base_address_and_exb == 0,
    {
        PageTableEntryStruct { attribute_and_lower_base_address: 0, upper_base_address_and_exb: 0 }
    }

    /// Low word: base bits 0..31 with the flags; high word: base bits 32..39
    /// with the upper flags.
    pub fn set(&mut self, upper_base_address: u32, lower_base_address: u32, lower_flags: u32, upper_flags: u32)
        ensures
            final(self).attribute_and_lower_base_address == lower_base_address | lower_flags,
            final(self).upper_base_address_and_exb == (upper_base_address & 0xFF) | upper_flags,
    {
        self.attribute_and_lower_base_address = lower_base_address | lower_flags;
        self.upper_base_address_and_exb = (upper_base_address & 0xFF) | upper_flags;
    }
}

/// Page-directory entry `i` of the identity map: the 2 MiB page at
/// `i * 2 MiB`, present, writable, large.
pub fn identity_pd_entry(i: u32) -> (r: PageTableEntryStruct)
    requires
        i < PAGE_DIRECTORYENTRIES,
    ensures
        r.attribute_and_lower_base_address == ((i * PAGE_DEFAULTSIZE) % 0x1_0000_0000) as u32 | (PAGE_FLAGS_DEFAULT | PAGE_FLAGS_PS),
        r.upper_base_address_and_exb == ((i * PAGE_DEFAULTSIZE) / 0x1_0000_0000) as u32,
        r.attribute_and_lower_base_address as int + r.upper_base_address_and_exb * 0x1_0000_0000 - (PAGE_FLAGS_DEFAULT | PAGE_FLAGS_PS) == i * PAGE_DEFAULTSIZE,
{
    let address: u64 = i as u64 * PAGE_DEFAULTSIZE;
    let lower = (address % 0x1_0000_0000) as u32;
    let upper = (address / 0x1_0000_0000) as u32;
    let mut e = PageTableEntryStruct::new();
    e.set(upper, lower, PAGE_FLAGS_DEFAULT | PAGE_FLAGS_PS, 0);
    assert(upper <= 0xFF);
    assert((upper & 0xFF) | 0 == upper) by (bit_vector)
        requires
            upper <= 0xFF,
    ;
    assert(lower % 0x200000 == 0) by (nonlinear_arith)
        requires
            lower == (address % 0x1_0000_0000),
            address == i * 0x200000,
    ;
    assert(PAGE_FLAGS_DEFAULT | PAGE_FLAGS_PS == 0x83) by (bit_vector)
        requires
            PAGE_FLAGS_DEFAULT == 3u32,
            PAGE_FLAGS_PS == 0x80u32,
    ;
    assert(address % 0x1_0000_0000 + (address / 0x1_0000_0000) * 0x1_0000_0000 == address) by (nonlinear_arith);
    assert(lower | 0x83u32 == lower + 0x83) by (bit_vector)
        requires
            lower % 0x200000 == 0,
    ;
    e
}

/// Entry `i` of the PML4: the first points at the page-directory-pointer
/// table at `0x101000`, the rest are empty.
pub fn identity_pml4_entry(i: u32) -> (r: PageTableEntryStruct)
    ensures
        i == 0 ==> r.attribute_and_lower_base_address == 0x101000 | PAGE_FLAGS_DEFAULT && r.upper_base_address_and_exb == 0,
        i != 0 ==> r.attribute_and_lower_base_address == 0 && r.upper_base_address_and_exb == 0,
{
    let mut e = PageTableEntryStruct::new();
    if i == 0 {
        e.set(0, 0x101000, PAGE_FLAGS_DEFAULT, 0);
    } else {
        e.set(0, 0, 0, 0);
    }
    assert((0u32 & 0xFF) | 0u32 == 0u32 && 0u32 | 0u32 == 0u32) by (bit_vector);
    e
}

/// Entry `i` of the page-directory-pointer table: the first 64 point at the
/// page directories from `0x102000` on, one 4 KiB table each; the rest are
/// empty.
pub fn identity_pdpt_entry(i: u32) -> (r: PageTableEntryStruct)
    requires
        i < 512,
    ensures
        i < 64 ==> r.attribute_and_lower_base_address == (0x102000 + i * 0x1000) as u32 | PAGE_FLAGS_DEFAULT && r.upper_base_address_and_exb == 0,
        i >= 64 ==> r.attribute_and_lower_base_address == 0 && r.upper_base_address_and_exb == 0,
{
    let mut e = PageTableEntryStruct::new();
    if i < 64 {
        e.set(0, 0x102000 + i * 0x1000, PAGE_FLAGS_DEFAULT, 0);
    } else {
        e.set(0, 0, 0, 0);
    }
    assert((0u32 & 0xFF) | 0u32 == 0u32 && 0u32 | 0u32 == 0u32) by (bit_vector);
    e
}

/// Registers returned by CPUID.
#[derive(Clone, Copy, PartialEq, Eq, Structural)]
pub struct CpuidResult {
    pub eax: u32,
    pub ebx: u32,
    pub ecx: u32,
    pub edx: u32,
}

/// The long-mode bit (29) of the extended feature word in EDX.
pub fn supports_long_mode(edx: u32) -> (r: bool)
    ensures
        r == ((edx / 0x2000_0000) % 2 == 1),
{
    assert((edx & 0x2000_0000 != 0) == ((edx / 0x2000_0000) % 2 == 1)) by (bit_vector);
    edx & 0x2000_0000 != 0
}

/// The four bytes of `x`, least significant first (the order CPUID's vendor
/// string is stored in).
pub fn u32_to_u8_array(x: u32) -> (r: [u8; 4])
    ensures
        r[0] == x % 0x100,
        r[1] == (x / 0x100) % 0x100,
        r[2] == (x / 0x10000) % 0x100,
        r[3] == x / 0x1000000,
{
    let b1: u8 = ((x >> 24u32) & 0xff) as u8;
    let b2: u8 = ((x >> 16u32) & 0xff) as u8;
    let b3: u8 = ((x >> 8u32) & 0xff) as u8;
    let b4: u8 = (x & 0xff) as u8;
    assert(((x >> 24u32) & 0xff) == x / 0x1000000 && ((x >> 16u32) & 0xff) == (x / 0x10000) % 0x100
        && ((x >> 8u32) & 0xff) == (x / 0x100) % 0x100 && (x & 0xff) == x % 0x100) by (bit_vector);
    [b4, b3, b2, b1]
}

/// The two bytes of `v`, least significant first.
pub fn u16_to_u8(v: u16) -> (r: [u8; 2])
    ensures
        r[0] == v % 0x100,
        r[1] == v / 0x100,
{
    assert((v as u8) == v % 0x100 && ((v >> 8u16) as u8) == v / 0x100) by (bit_vector);
    [v as u8, (v >> 8u16) as u8]
}

} // verus!
