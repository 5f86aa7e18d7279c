//! Guest addresses and page sizes.

use vstd::prelude::*;

verus! {

/// Bytes in a base page.
pub const PAGE_SIZE: u64 = 0x1000;

/// Bytes in a page mapped by a page directory entry.
pub const PAGE_SIZE_2M: u64 = 0x20_0000;

/// Bytes in a page mapped by a page directory pointer entry.
pub const PAGE_SIZE_1G: u64 = 0x4000_0000;

/// A guest virtual address.
#[derive(Clone, Copy, Debug, PartialEq, Eq, Structural)]
pub struct VirtAddr(pub u64);

/// A guest physical address.
#[derive(Clone, Copy, Debug, PartialEq, Eq, Structural)]
pub struct PhysAddr(pub u64);

impl VirtAddr {
    /// The address as a number.
    pub fn bits(&self) -> (r: u64)
        ensures
            r == self.0,
    {
        self.0
    }

    /// The distance from the start of the base page that holds the address.
    pub fn page_offset(&self) -> (r: u64)
        ensures
            r == self.0 % PAGE_SIZE,
    {
        self.0 % PAGE_SIZE
    }
}

impl PhysAddr {
    /// The address as a number.
    pub fn bits(&self) -> (r: u64)
        ensures
            r == self.0,
    {
        self.0
    }
}

} // verus!
