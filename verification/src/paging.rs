//! Page table entries and paging modes of the x86-64 architecture.

use crate::address::PhysAddr;
use vstd::prelude::*;

verus! {

/// Paging is on.
pub const CR0_PG: u64 = 0x8000_0000;

/// Page table entries have 64 bits.
pub const CR4_PAE: u64 = 0x20;

/// Long mode walks five levels instead of four.
pub const CR4_LA57: u64 = 0x1000;

/// Long mode is enabled.
pub const EFER_LME: u64 = 0x100;

/// The entry maps something.
pub const PTE_PRESENT: u64 = 0x1;

/// The entry maps a page, where its level would otherwise point to a table.
pub const PTE_HUGE: u64 = 0x80;

/// The bits of an entry that hold a physical address.
pub const PTE_ADDRESS: u64 = 0x000f_ffff_ffff_f000;

/// How the processor translates addresses.
#[derive(Clone, Copy, Debug, PartialEq, Eq, Structural)]
pub enum PagingMode {
    /// Paging is off.
    NoPaging,
    /// 32-bit paging with 32-bit entries.
    NonPAE,
    /// 32-bit paging with 64-bit entries.
    PAE,
    /// Four levels.
    PML4,
    /// Five levels.
    PML5,
}

/// Whether the bits of `flag` are set in `reg`.
pub open spec fn has_flag(reg: u64, flag: u64) -> bool {
    reg & flag != 0
}

/// The paging mode that the control registers select.
pub open spec fn paging_mode(efer: u64, cr0: u64, cr4: u64) -> PagingMode {
    if !has_flag(cr0, CR0_PG) {
        PagingMode::NoPaging
    } else if !has_flag(cr4, CR4_PAE) {
        PagingMode::NonPAE
    } else if !has_flag(efer, EFER_LME) {
        PagingMode::PAE
    } else if !has_flag(cr4, CR4_LA57) {
        PagingMode::PML4
    } else {
        PagingMode::PML5
    }
}

impl PagingMode {
    /// Reads the mode off the control registers.
    pub fn new(efer: u64, cr0: u64, cr4: u64) -> (mode: PagingMode)
        ensures
            mode == paging_mode(efer, cr0, cr4),
    {
        if cr0 & CR0_PG == 0 {
            PagingMode::NoPaging
        } else if cr4 & CR4_PAE == 0 {
            PagingMode::NonPAE
        } else if efer & EFER_LME == 0 {
            PagingMode::PAE
        } else if cr4 & CR4_LA57 == 0 {
            PagingMode::PML4
        } else {
            PagingMode::PML5
        }
    }
}

/// The bits that must be clear in an entry, by level. Level 0 holds the entries
/// that map base pages.
#[derive(Clone, Copy, Debug)]
pub struct ReservedBits {
    /// For an entry without the page size bit.
    pub table: [u64; 5],
    /// For an entry with it.
    pub huge: [u64; 5],
}

/// What depends on the machine in the format of a page table entry.
#[derive(Clone, Copy, Debug)]
pub struct PageTableFormat {
    /// Address bits that say whether memory is private or shared, and are not
    /// part of the address.
    pub confidentiality: u64,
    /// Reserved bits with four levels.
    pub pml4: ReservedBits,
    /// Reserved bits with five levels.
    pub pml5: ReservedBits,
}

impl PageTableFormat {
    /// The bits that must be clear in an entry of `level`.
    pub open spec fn reserved(self, mode: PagingMode, level: int, huge: bool) -> u64 {
        let bits = if mode == PagingMode::PML5 {
            self.pml5
        } else {
            self.pml4
        };
        if huge {
            bits.huge@[level]
        } else {
            bits.table@[level]
        }
    }
}

/// An entry of a page table.
#[derive(Clone, Copy, Debug, PartialEq, Eq, Structural)]
pub struct PTEntry(pub u64);

impl PTEntry {
    /// Whether the entry maps something.
    pub open spec fn is_present(self) -> bool {
        has_flag(self.0, PTE_PRESENT)
    }

    /// Whether the page size bit is set.
    pub open spec fn is_huge(self) -> bool {
        has_flag(self.0, PTE_HUGE)
    }

    /// The address of the page or table that the entry points to.
    pub open spec fn target(self, format: PageTableFormat) -> PhysAddr {
        PhysAddr(self.0 & PTE_ADDRESS & !format.confidentiality)
    }

    /// Whether a bit is set that must be clear.
    pub open spec fn is_malformed(
        self,
        format: PageTableFormat,
        mode: PagingMode,
        level: int,
    ) -> bool {
        has_flag(self.0, format.reserved(mode, level, self.is_huge()))
    }

    /// The entry with these 64 bits.
    pub fn from_raw(raw: u64) -> (entry: PTEntry)
        ensures
            entry == PTEntry(raw),
    {
        PTEntry(raw)
    }

    /// Whether the entry maps something.
    pub fn present(&self) -> (r: bool)
        ensures
            r == self.is_present(),
    {
        self.0 & PTE_PRESENT != 0
    }

    /// Whether the page size bit is set.
    pub fn huge(&self) -> (r: bool)
        ensures
            r == self.is_huge(),
    {
        self.0 & PTE_HUGE != 0
    }

    /// The address of the page or table that the entry points to.
    pub fn address(&self, format: &PageTableFormat) -> (r: PhysAddr)
        ensures
            r == self.target(*format),
            r.0 <= PTE_ADDRESS,
    {
        proof {
            lemma_target_bound(*self, *format);
        }
        PhysAddr(self.0 & PTE_ADDRESS & !format.confidentiality)
    }

    /// Whether a bit is set that must be clear in an entry of `level`.
    pub fn has_reserved_bits(
        &self,
        format: &PageTableFormat,
        mode: PagingMode,
        level: usize,
    ) -> (r: bool)
        requires
            level <= 4,
        ensures
            r == self.is_malformed(*format, mode, level as int),
    {
        let bits = if mode == PagingMode::PML5 {
            &format.pml5
        } else {
            &format.pml4
        };
        if self.huge() {
            self.0 & bits.huge[level] != 0
        } else {
            self.0 & bits.table[level] != 0
        }
    }
}

/// An entry points below the end of the physical address space, to the start of
/// a base page.
pub proof fn lemma_target_bound(entry: PTEntry, format: PageTableFormat)
    ensures
        entry.target(format).0 <= PTE_ADDRESS,
        entry.target(format).0 % 0x1000 == 0,
{
    let raw = entry.0;
    let conf = format.confidentiality;
    assert(raw & 0x000f_ffff_ffff_f000u64 & !conf <= 0x000f_ffff_ffff_f000u64) by (bit_vector);
    assert((raw & 0x000f_ffff_ffff_f000u64 & !conf) % 0x1000 == 0) by (bit_vector);
}

} // verus!
