//! What the monitor reads of a guest's saved processor state.

use vstd::prelude::*;

verus! {

/// Why the guest stopped running.
#[derive(Clone, Copy, Debug, PartialEq, Eq, Structural)]
pub enum GuestVMExit {
    /// The guest executed the instruction that calls the monitor.
    VMGEXIT,
    /// Any other cause, by the code that the processor saved for it.
    Other(u64),
}

/// The registers of a stopped guest that the monitor looks at.
#[derive(Clone, Copy, Debug, PartialEq, Eq, Structural)]
pub struct Vmsa {
    pub cr0: u64,
    pub cr3: u64,
    pub cr4: u64,
    pub efer: u64,
    pub rax: u64,
    pub guest_exit_code: GuestVMExit,
}

} // verus!
