//! What the guest asks of the monitor.

use vstd::prelude::*;

verus! {

/// Why the monitor has control back from the guest. `P` is what a request has
/// for parameters.
#[derive(Debug, PartialEq, Eq)]
pub enum GuestExitMessage<P> {
    /// The guest has no processor state to run with.
    NoMappings,
    /// The guest made a request: the protocol, the number of the request in it,
    /// and its parameters.
    Svsm((u32, u32, P)),
}

/// Why a request could not be handled.
#[derive(Debug, PartialEq, Eq)]
pub enum SvsmReqError<C, E> {
    /// The guest is at fault and is told so.
    RequestError(C),
    /// The monitor cannot go on.
    FatalError(E),
}

/// The calling area, through which a guest announces a request.
#[derive(Clone, Copy, Debug, PartialEq, Eq)]
pub struct SvsmCaa {
    /// The guest has made a request that has not been taken.
    pub call_pending: bool,
    /// The bytes of the area behind it.
    pub rest: [u8; 7],
}

impl SvsmCaa {
    /// The area with its request taken.
    pub open spec fn taken(self) -> SvsmCaa {
        SvsmCaa { call_pending: false, ..self }
    }

    /// The area with its request taken.
    pub fn serviced(self) -> (r: SvsmCaa)
        ensures
            r == self.taken(),
    {
        SvsmCaa { call_pending: false, rest: self.rest }
    }
}

} // verus!
