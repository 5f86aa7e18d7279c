//! The decisions of a secure VM service monitor about the guest that it runs.

pub mod address;
pub mod bytes;
pub mod execloop;
pub mod guest_memory;
pub mod guest_run;
pub mod guest_symbols;
pub mod memory_laws;
pub mod message;
pub mod paging;
pub mod run_laws;
pub mod symbol_laws;
pub mod tcp_telemetry;
pub mod telemetry_laws;
pub mod vmsa;

pub use guest_run::enter_guest;
pub use message::{GuestExitMessage, SvsmCaa, SvsmReqError};
