//! Entering the guest, step by step.
//!
//! The monitor carries out what `enter_guest` asks for, and reports back, until
//! there is a message to return.

use crate::address::VirtAddr;
use crate::execloop::{log_once_for_cpu, logged, marked, RequestOutcome};
use crate::guest_symbols::GuestSymbolContext;
use crate::message::GuestExitMessage;
use crate::vmsa::{GuestVMExit, Vmsa};
use vstd::prelude::*;

verus! {

/// What is known of the guest at the moment it stopped.
#[derive(Clone, Copy, Debug, PartialEq, Eq, Structural)]
pub struct GuestStop {
    /// Why it stopped.
    pub exit_code: GuestVMExit,
    /// How its addresses translate.
    pub ctx: GuestSymbolContext,
}

/// What is asked of the monitor. `R` is a register with its new value, and `P`
/// what a request has for parameters.
#[derive(Debug)]
pub enum GuestAction<R, P> {
    /// Map the guest's saved state, and say whether there is one.
    UpdateMappings,
    /// Take hold of the guest's saved state.
    LockVmsa,
    /// Say where the guest's calling area is.
    ReadCaa,
    /// Put these values into the saved state, in this order.
    SetRegisters(Vec<R>),
    /// Disable interrupts.
    DisableInterrupts,
    /// Bring the state of the emulated interrupt controller up to date, for a guest
    /// with this calling area.
    UpdateApicEmulation(Option<VirtAddr>),
    /// Make the saved state runnable.
    EnableVmsa,
    /// Let go of the guest's saved state.
    UnlockVmsa,
    /// Flush the cached page mappings of all processors.
    FlushTlb,
    /// Log that the guest is entered on this processor for the first time.
    LogEntry,
    /// Run the guest until it stops.
    SwitchToGuest,
    /// Restore interrupts.
    EnableInterrupts,
    /// Hand over what the saved state says.
    ReadExit,
    /// Log that the guest stopped on this processor for the first time.
    LogReturn(GuestVMExit),
    /// Make the saved state not runnable.
    DisableVmsa,
    /// Let intercepts be handled, which may change the saved state.
    HandleIntercepts,
    /// Count the exit, and log what is to be logged of it.
    LogGuestExit(GuestStop),
    /// Take the guest's request, if it has made one.
    TakeRequest,
    /// Return this message.
    Return(GuestExitMessage<P>),
}

/// What the monitor reports.
#[derive(Debug)]
pub enum GuestReply<P> {
    /// It is done.
    Done,
    /// Whether the guest has a saved state.
    Mapped(bool),
    /// Where the guest's calling area is, if it has one.
    Caa(Option<VirtAddr>),
    /// What the saved state says.
    Exit(Vmsa),
    /// The guest's request.
    Request(Option<GuestExitMessage<P>>),
}

/// What was asked of the monitor last.
#[derive(Debug)]
pub enum GuestPhase<P> {
    /// Nothing yet.
    Start,
    MapBeforeEntry,
    LockForEntry,
    ReadCaa,
    SetRegisters(Option<VirtAddr>),
    DisableInterrupts(Option<VirtAddr>),
    UpdateApicEmulation,
    EnableVmsa,
    UnlockForEntry,
    FlushTlb,
    LogEntry,
    SwitchToGuest,
    EnableInterrupts,
    MapAfterExit,
    LockForExit,
    ReadExit,
    LogReturn(GuestStop),
    DisableVmsa(GuestStop),
    HandleIntercepts(GuestStop),
    LogGuestExit,
    TakeRequest,
    UnlockForExit(Option<GuestExitMessage<P>>),
    /// To return.
    Returned,
}

/// The state of a call into the guest.
#[derive(Debug)]
pub struct GuestRun<R, P> {
    /// The processor on which the guest runs.
    pub cpu_index: usize,
    /// The register values that have not been handed out.
    pub regs: Vec<R>,
    /// How far the call has come.
    pub phase: GuestPhase<P>,
}

/// The processors on which the guest was seen to be entered, and to stop.
#[derive(Clone, Copy, Debug, PartialEq, Eq, Structural)]
pub struct SeenCpus {
    pub entered: u64,
    pub returned: u64,
}

/// `reply` answers what was asked for last. The message of a guest is always a
/// request.
pub open spec fn answers<P>(phase: GuestPhase<P>, reply: GuestReply<P>) -> bool {
    match phase {
        GuestPhase::MapBeforeEntry | GuestPhase::MapAfterExit => reply is Mapped,
        GuestPhase::ReadCaa => reply is Caa,
        GuestPhase::ReadExit => reply is Exit,
        GuestPhase::TakeRequest => match reply {
            GuestReply::Request(Some(message)) => message is Svsm,
            GuestReply::Request(None) => true,
            _ => false,
        },
        GuestPhase::Returned => false,
        _ => reply is Done,
    }
}

/// What is reported once a request has come to `outcome`: the guest's message, or
/// that there is none, in which case the guest goes on. After a fatal error there
/// is nothing to report, and the call does not go on.
pub open spec fn reply_to<P, C, E>(outcome: RequestOutcome<P, C, E>) -> Option<GuestReply<P>> {
    match outcome {
        RequestOutcome::Message(message) => Some(GuestReply::Request(Some(message))),
        RequestOutcome::Nothing => Some(GuestReply::Request(None)),
        RequestOutcome::SoftError { .. } => Some(GuestReply::Request(None)),
        RequestOutcome::Fatal { .. } => None,
    }
}

/// Turns what has become of a request into what is reported of it, or into
/// nothing where the monitor cannot go on.
pub fn request_reply<P, C, E>(outcome: RequestOutcome<P, C, E>) -> (r: Option<GuestReply<P>>)
    ensures
        r == reply_to(outcome),
        r is None <==> outcome is Fatal,
        outcome matches RequestOutcome::Message(message) ==> r == Some(
            GuestReply::Request(Some(message)),
        ),
        outcome is Nothing || outcome is SoftError ==> r == Some(
            GuestReply::Request(None::<GuestExitMessage<P>>),
        ),
        (outcome matches RequestOutcome::Message(message) ==> message is Svsm) ==> (r matches Some(
            reply,
        ) ==> answers(GuestPhase::TakeRequest, reply)),
{
    match outcome {
        RequestOutcome::Message(message) => Some(GuestReply::Request(Some(message))),
        RequestOutcome::Nothing => Some(GuestReply::Request(None)),
        RequestOutcome::SoftError { .. } => Some(GuestReply::Request(None)),
        RequestOutcome::Fatal { .. } => None,
    }
}

/// What the saved state says of how the guest stopped.
pub open spec fn stop_of(vmsa: Vmsa) -> GuestStop {
    GuestStop {
        exit_code: vmsa.guest_exit_code,
        ctx: GuestSymbolContext {
            cr0: vmsa.cr0,
            cr3: vmsa.cr3,
            cr4: vmsa.cr4,
            efer: vmsa.efer,
        },
    }
}

/// What comes after `phase`. `log_entry` and `log_return` say whether this is the
/// first entry, or exit, of the guest on its processor.
pub open spec fn next_phase<P>(
    phase: GuestPhase<P>,
    reply: GuestReply<P>,
    log_entry: bool,
    log_return: bool,
) -> GuestPhase<P> {
    match phase {
        GuestPhase::Start => GuestPhase::MapBeforeEntry,
        GuestPhase::MapBeforeEntry => if reply->Mapped_0 {
            GuestPhase::LockForEntry
        } else {
            GuestPhase::Returned
        },
        GuestPhase::LockForEntry => GuestPhase::ReadCaa,
        GuestPhase::ReadCaa => GuestPhase::SetRegisters(reply->Caa_0),
        GuestPhase::SetRegisters(caa) => GuestPhase::DisableInterrupts(caa),
        GuestPhase::DisableInterrupts(_) => GuestPhase::UpdateApicEmulation,
        GuestPhase::UpdateApicEmulation => GuestPhase::EnableVmsa,
        GuestPhase::EnableVmsa => GuestPhase::UnlockForEntry,
        GuestPhase::UnlockForEntry => GuestPhase::FlushTlb,
        GuestPhase::FlushTlb => if log_entry {
            GuestPhase::LogEntry
        } else {
            GuestPhase::SwitchToGuest
        },
        GuestPhase::LogEntry => GuestPhase::SwitchToGuest,
        GuestPhase::SwitchToGuest => GuestPhase::EnableInterrupts,
        GuestPhase::EnableInterrupts => GuestPhase::MapAfterExit,
        GuestPhase::MapAfterExit => if reply->Mapped_0 {
            GuestPhase::LockForExit
        } else {
            GuestPhase::Returned
        },
        GuestPhase::LockForExit => GuestPhase::ReadExit,
        GuestPhase::ReadExit => {
            let stop = stop_of(reply->Exit_0);
            if log_return {
                GuestPhase::LogReturn(stop)
            } else {
                GuestPhase::DisableVmsa(stop)
            }
        },
        GuestPhase::LogReturn(stop) => GuestPhase::DisableVmsa(stop),
        GuestPhase::DisableVmsa(stop) => GuestPhase::HandleIntercepts(stop),
        GuestPhase::HandleIntercepts(_) => GuestPhase::LogGuestExit,
        GuestPhase::LogGuestExit => GuestPhase::TakeRequest,
        GuestPhase::TakeRequest => GuestPhase::UnlockForExit(reply->Request_0),
        GuestPhase::UnlockForExit(message) => match message {
            Some(_) => GuestPhase::Returned,
            None => GuestPhase::LockForEntry,
        },
        GuestPhase::Returned => GuestPhase::Returned,
    }
}

/// `action` is what a call does that goes from `before` to `after`, with the
/// register values in `regs` not handed out before.
pub open spec fn asks_for<R, P>(
    before: GuestPhase<P>,
    after: GuestPhase<P>,
    regs: Seq<R>,
    action: GuestAction<R, P>,
) -> bool {
    match after {
        GuestPhase::Start => false,
        GuestPhase::MapBeforeEntry | GuestPhase::MapAfterExit => action is UpdateMappings,
        GuestPhase::LockForEntry | GuestPhase::LockForExit => action is LockVmsa,
        GuestPhase::ReadCaa => action is ReadCaa,
        GuestPhase::SetRegisters(_) => action matches GuestAction::SetRegisters(handed) && handed@
            == regs,
        GuestPhase::DisableInterrupts(_) => action is DisableInterrupts,
        GuestPhase::UpdateApicEmulation => before matches GuestPhase::DisableInterrupts(caa)
            && action == GuestAction::<R, P>::UpdateApicEmulation(caa),
        GuestPhase::EnableVmsa => action is EnableVmsa,
        GuestPhase::UnlockForEntry | GuestPhase::UnlockForExit(_) => action is UnlockVmsa,
        GuestPhase::FlushTlb => action is FlushTlb,
        GuestPhase::LogEntry => action is LogEntry,
        GuestPhase::SwitchToGuest => action is SwitchToGuest,
        GuestPhase::EnableInterrupts => action is EnableInterrupts,
        GuestPhase::ReadExit => action is ReadExit,
        GuestPhase::LogReturn(stop) => action == GuestAction::<R, P>::LogReturn(stop.exit_code),
        GuestPhase::DisableVmsa(_) => action is DisableVmsa,
        GuestPhase::HandleIntercepts(_) => action is HandleIntercepts,
        GuestPhase::LogGuestExit => before matches GuestPhase::HandleIntercepts(stop) && action
            == GuestAction::<R, P>::LogGuestExit(stop),
        GuestPhase::TakeRequest => action is TakeRequest,
        GuestPhase::Returned => action == GuestAction::<R, P>::Return(
            match before {
                GuestPhase::UnlockForExit(Some(message)) => message,
                _ => GuestExitMessage::NoMappings,
            },
        ),
    }
}

/// Whether the guest has not been seen on this processor, as far as that is kept
/// track of.
pub open spec fn unseen(mask: u64, cpu_index: usize) -> bool {
    cpu_index < 64 && !logged(mask, cpu_index as int)
}

/// `after` is `before` with this processor in it, as far as that is kept track
/// of.
pub open spec fn now_seen(before: u64, cpu_index: usize, after: u64) -> bool {
    if cpu_index < 64 {
        marked(before, cpu_index as int, after)
    } else {
        after == before
    }
}

/// How far a call has come, with all that decides how it goes on.
pub ghost struct Call<R, P> {
    /// How far the call has come.
    pub phase: GuestPhase<P>,
    /// The register values that have not been handed out.
    pub regs: Seq<R>,
    /// The guest has not been seen to be entered on its processor.
    pub log_entry: bool,
    /// The guest has not been seen to stop on its processor.
    pub log_return: bool,
}

impl<R, P> Call<R, P> {
    /// The call one step later, after the monitor has reported `reply`.
    pub open spec fn after(self, reply: GuestReply<P>) -> Call<R, P> {
        let next = next_phase(self.phase, reply, self.log_entry, self.log_return);
        Call {
            phase: next,
            regs: if next is SetRegisters {
                Seq::empty()
            } else {
                self.regs
            },
            log_entry: self.log_entry && !(self.phase is FlushTlb),
            log_return: self.log_return && !(self.phase is ReadExit),
        }
    }
}

/// The call that `run` is the state of.
pub open spec fn call_of<R, P>(run: GuestRun<R, P>, seen: SeenCpus) -> Call<R, P> {
    Call {
        phase: run.phase,
        regs: run.regs@,
        log_entry: unseen(seen.entered, run.cpu_index),
        log_return: unseen(seen.returned, run.cpu_index),
    }
}

impl<R, P> GuestRun<R, P> {
    /// A call into the guest on this processor that starts by setting `regs`.
    pub fn new(cpu_index: usize, regs: Vec<R>) -> (r: GuestRun<R, P>)
        ensures
            r == (GuestRun { cpu_index, regs, phase: GuestPhase::<P>::Start }),
    {
        GuestRun { cpu_index, regs, phase: GuestPhase::Start }
    }
}

/// One step of a call into the guest: what the monitor is to do next, after it
/// has done what it was asked for last.
///
/// Registers are set before interrupts are disabled, and only the first time
/// round. No interrupt may be processed once the emulated interrupt controller
/// has been brought up to date, since handling it could change that state; so
/// interrupts stay disabled until the guest has stopped. The saved state is not
/// held while the guest runs.
pub fn enter_guest<R, P>(
    run: &mut GuestRun<R, P>,
    seen: &mut SeenCpus,
    reply: GuestReply<P>,
) -> (action: GuestAction<R, P>)
    requires
        answers(old(run).phase, reply),
    ensures
        final(run).cpu_index == old(run).cpu_index,
        call_of(*final(run), *final(seen)) == call_of(*old(run), *old(seen)).after(reply),
        asks_for(old(run).phase, final(run).phase, old(run).regs@, action),
        if old(run).phase is FlushTlb {
            now_seen(old(seen).entered, old(run).cpu_index, final(seen).entered)
        } else {
            final(seen).entered == old(seen).entered
        },
        if old(run).phase is ReadExit {
            now_seen(old(seen).returned, old(run).cpu_index, final(seen).returned)
        } else {
            final(seen).returned == old(seen).returned
        },
{
    let mut phase = GuestPhase::Returned;
    core::mem::swap(&mut phase, &mut run.phase);
    match phase {
        GuestPhase::Start => {
            run.phase = GuestPhase::MapBeforeEntry;
            GuestAction::UpdateMappings
        },
        GuestPhase::MapBeforeEntry => match reply {
            GuestReply::Mapped(true) => {
                run.phase = GuestPhase::LockForEntry;
                GuestAction::LockVmsa
            },
            _ => GuestAction::Return(GuestExitMessage::NoMappings),
        },
        GuestPhase::LockForEntry => {
            run.phase = GuestPhase::ReadCaa;
            GuestAction::ReadCaa
        },
        GuestPhase::ReadCaa => {
            let caa = match reply {
                GuestReply::Caa(caa) => caa,
                _ => None,
            };
            run.phase = GuestPhase::SetRegisters(caa);
            let mut regs: Vec<R> = Vec::new();
            core::mem::swap(&mut regs, &mut run.regs);
            GuestAction::SetRegisters(regs)
        },
        GuestPhase::SetRegisters(caa) => {
            run.phase = GuestPhase::DisableInterrupts(caa);
            GuestAction::DisableInterrupts
        },
        GuestPhase::DisableInterrupts(caa) => {
            run.phase = GuestPhase::UpdateApicEmulation;
            GuestAction::UpdateApicEmulation(caa)
        },
        GuestPhase::UpdateApicEmulation => {
            run.phase = GuestPhase::EnableVmsa;
            GuestAction::EnableVmsa
        },
        GuestPhase::EnableVmsa => {
            run.phase = GuestPhase::UnlockForEntry;
            GuestAction::UnlockVmsa
        },
        GuestPhase::UnlockForEntry => {
            run.phase = GuestPhase::FlushTlb;
            GuestAction::FlushTlb
        },
        GuestPhase::FlushTlb => {
            if log_once_for_cpu(&mut seen.entered, run.cpu_index) {
                run.phase = GuestPhase::LogEntry;
                GuestAction::LogEntry
            } else {
                run.phase = GuestPhase::SwitchToGuest;
                GuestAction::SwitchToGuest
            }
        },
        GuestPhase::LogEntry => {
            run.phase = GuestPhase::SwitchToGuest;
            GuestAction::SwitchToGuest
        },
        GuestPhase::SwitchToGuest => {
            run.phase = GuestPhase::EnableInterrupts;
            GuestAction::EnableInterrupts
        },
        GuestPhase::EnableInterrupts => {
            run.phase = GuestPhase::MapAfterExit;
            GuestAction::UpdateMappings
        },
        GuestPhase::MapAfterExit => match reply {
            GuestReply::Mapped(true) => {
                run.phase = GuestPhase::LockForExit;
                GuestAction::LockVmsa
            },
            _ => GuestAction::Return(GuestExitMessage::NoMappings),
        },
        GuestPhase::LockForExit => {
            run.phase = GuestPhase::ReadExit;
            GuestAction::ReadExit
        },
        GuestPhase::ReadExit => {
            let vmsa = match reply {
                GuestReply::Exit(vmsa) => vmsa,
                _ => return GuestAction::Return(GuestExitMessage::NoMappings),
            };
            let stop = GuestStop {
                exit_code: vmsa.guest_exit_code,
                ctx: GuestSymbolContext::from_vmsa(&vmsa),
            };
            if log_once_for_cpu(&mut seen.returned, run.cpu_index) {
                run.phase = GuestPhase::LogReturn(stop);
                GuestAction::LogReturn(stop.exit_code)
            } else {
                run.phase = GuestPhase::DisableVmsa(stop);
                GuestAction::DisableVmsa
            }
        },
        GuestPhase::LogReturn(stop) => {
            run.phase = GuestPhase::DisableVmsa(stop);
            GuestAction::DisableVmsa
        },
        GuestPhase::DisableVmsa(stop) => {
            run.phase = GuestPhase::HandleIntercepts(stop);
            GuestAction::HandleIntercepts
        },
        GuestPhase::HandleIntercepts(stop) => {
            run.phase = GuestPhase::LogGuestExit;
            GuestAction::LogGuestExit(stop)
        },
        GuestPhase::LogGuestExit => {
            run.phase = GuestPhase::TakeRequest;
            GuestAction::TakeRequest
        },
        GuestPhase::TakeRequest => {
            let message = match reply {
                GuestReply::Request(message) => message,
                _ => None,
            };
            run.phase = GuestPhase::UnlockForExit(message);
            GuestAction::UnlockVmsa
        },
        GuestPhase::UnlockForExit(message) => match message {
            Some(message) => GuestAction::Return(message),
            None => {
                run.phase = GuestPhase::LockForEntry;
                GuestAction::LockVmsa
            },
        },
        GuestPhase::Returned => GuestAction::Return(GuestExitMessage::NoMappings),
    }
}

} // verus!
