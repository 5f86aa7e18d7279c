//! What holds of every run of the guest.

use crate::address::{PhysAddr, VirtAddr};
use crate::execloop::{
    beats, count_guest_exit, due_by_count, elapsed, get_and_clear_caa_request_flag,
    get_svsm_request_message, gives_frequency, is_power_of_two, leaf15_hz, log_once_for_cpu,
    logged, may_probe, maybe_log_guest_exit, outcome_of, probes, request_outcome, takes_flag,
    tsc_hz, CpuidResult, ExitLog, ExitReport, Heartbeat, RequestOutcome, TscClock, TscProbe,
};
use crate::guest_run::{
    answers, asks_for, call_of, enter_guest, next_phase, now_seen, reply_to, request_reply,
    stop_of, unseen, Call, GuestAction, GuestPhase, GuestReply, GuestRun, GuestStop, SeenCpus,
};
use crate::guest_symbols::{GuestSymbolContext, GuestSymbols};
use crate::memory_laws::stands_still;
use crate::message::{GuestExitMessage, SvsmCaa, SvsmReqError};
use crate::paging::PageTableFormat;
use crate::symbol_laws::{lemma_resolved, resolved_to};
use crate::vmsa::{GuestVMExit, Vmsa};
use vstd::arithmetic::power2::pow2;
use vstd::prelude::*;

verus! {

/// What the actions of the monitor have brought about.
pub ghost struct World {
    /// Interrupts are disabled.
    pub interrupts_off: bool,
    /// The guest's saved state is held.
    pub vmsa_held: bool,
    /// The saved state is runnable.
    pub vmsa_runnable: bool,
    /// The processors hold no stale page mappings.
    pub tlb_flushed: bool,
    /// The registers have been set for the next entry.
    pub registers_set: bool,
}

/// What an action brings about.
pub open spec fn effect<R, P>(world: World, action: GuestAction<R, P>) -> World {
    match action {
        GuestAction::LockVmsa => World { vmsa_held: true, ..world },
        GuestAction::SetRegisters(_) => World { registers_set: true, ..world },
        GuestAction::DisableInterrupts => World { interrupts_off: true, ..world },
        GuestAction::EnableVmsa => World { vmsa_runnable: true, ..world },
        GuestAction::UnlockVmsa => World { vmsa_held: false, ..world },
        GuestAction::FlushTlb => World { tlb_flushed: true, ..world },
        GuestAction::SwitchToGuest => World { tlb_flushed: false, registers_set: false, ..world },
        GuestAction::EnableInterrupts => World { interrupts_off: false, ..world },
        GuestAction::DisableVmsa => World { vmsa_runnable: false, ..world },
        _ => world,
    }
}

/// The rules for when an action may be carried out. The guest runs with
/// interrupts disabled, with its saved state runnable and not held, and with no
/// stale page mappings. Its registers are set before that, and before interrupts
/// are disabled. The emulated interrupt controller is brought up to date
/// with interrupts disabled. The saved state is read and changed only while it
/// is held. A call returns with interrupts as it found them and holding nothing.
pub open spec fn allowed<R, P>(world: World, action: GuestAction<R, P>) -> bool {
    match action {
        GuestAction::UpdateMappings => !world.interrupts_off && !world.vmsa_held,
        GuestAction::LockVmsa => !world.vmsa_held,
        GuestAction::ReadCaa => world.vmsa_held,
        GuestAction::SetRegisters(_) => world.vmsa_held && !world.interrupts_off,
        GuestAction::DisableInterrupts => !world.interrupts_off && world.registers_set,
        GuestAction::UpdateApicEmulation(_) => world.vmsa_held && world.interrupts_off,
        GuestAction::EnableVmsa => world.vmsa_held && !world.vmsa_runnable,
        GuestAction::UnlockVmsa => world.vmsa_held,
        GuestAction::FlushTlb => !world.vmsa_held,
        GuestAction::LogEntry => true,
        GuestAction::SwitchToGuest => {
            &&& world.interrupts_off
            &&& !world.vmsa_held
            &&& world.vmsa_runnable
            &&& world.tlb_flushed
            &&& world.registers_set
        },
        GuestAction::EnableInterrupts => world.interrupts_off,
        GuestAction::ReadExit => world.vmsa_held,
        GuestAction::LogReturn(_) => true,
        GuestAction::DisableVmsa => world.vmsa_held && world.vmsa_runnable,
        GuestAction::HandleIntercepts => world.vmsa_held && !world.vmsa_runnable,
        GuestAction::LogGuestExit(_) => true,
        GuestAction::TakeRequest => world.vmsa_held && !world.vmsa_runnable,
        GuestAction::Return(_) => !world.interrupts_off && !world.vmsa_held,
    }
}

/// What has been brought about once the action of `phase` is done.
pub open spec fn fits<P>(world: World, phase: GuestPhase<P>) -> bool {
    match phase {
        GuestPhase::Start | GuestPhase::MapBeforeEntry | GuestPhase::UnlockForExit(_) => {
            !world.interrupts_off && !world.vmsa_held && !world.vmsa_runnable
        },
        GuestPhase::LockForEntry | GuestPhase::ReadCaa => {
            !world.interrupts_off && world.vmsa_held && !world.vmsa_runnable
        },
        GuestPhase::SetRegisters(_) => {
            &&& !world.interrupts_off
            &&& world.vmsa_held
            &&& !world.vmsa_runnable
            &&& world.registers_set
        },
        GuestPhase::DisableInterrupts(_) | GuestPhase::UpdateApicEmulation => {
            &&& world.interrupts_off
            &&& world.vmsa_held
            &&& !world.vmsa_runnable
            &&& world.registers_set
        },
        GuestPhase::EnableVmsa => {
            &&& world.interrupts_off
            &&& world.vmsa_held
            &&& world.vmsa_runnable
            &&& world.registers_set
        },
        GuestPhase::UnlockForEntry => {
            &&& world.interrupts_off
            &&& !world.vmsa_held
            &&& world.vmsa_runnable
            &&& world.registers_set
        },
        GuestPhase::FlushTlb | GuestPhase::LogEntry => {
            &&& world.interrupts_off
            &&& !world.vmsa_held
            &&& world.vmsa_runnable
            &&& world.registers_set
            &&& world.tlb_flushed
        },
        GuestPhase::SwitchToGuest => {
            world.interrupts_off && !world.vmsa_held && world.vmsa_runnable
        },
        GuestPhase::EnableInterrupts | GuestPhase::MapAfterExit => {
            !world.interrupts_off && !world.vmsa_held && world.vmsa_runnable
        },
        GuestPhase::LockForExit | GuestPhase::ReadExit | GuestPhase::LogReturn(_) => {
            !world.interrupts_off && world.vmsa_held && world.vmsa_runnable
        },
        GuestPhase::DisableVmsa(_)
        | GuestPhase::HandleIntercepts(_)
        | GuestPhase::LogGuestExit
        | GuestPhase::TakeRequest => {
            !world.interrupts_off && world.vmsa_held && !world.vmsa_runnable
        },
        GuestPhase::Returned => !world.interrupts_off && !world.vmsa_held,
    }
}

/// Every step of a call asks only for what the rules allow, and leaves the call
/// where the rules can be kept.
pub proof fn run_keeps_the_rules<R, P>(
    world: World,
    call: Call<R, P>,
    reply: GuestReply<P>,
    action: GuestAction<R, P>,
)
    requires
        fits(world, call.phase),
        answers(call.phase, reply),
        asks_for(call.phase, call.after(reply).phase, call.regs, action),
    ensures
        allowed(world, action),
        fits(effect(world, action), call.after(reply).phase),
{
}

/// One step of a call: what the monitor reported, and was then asked for.
pub ghost struct Step<R, P> {
    pub reply: GuestReply<P>,
    pub action: GuestAction<R, P>,
}

/// These are steps that a call may take from `call` on.
pub open spec fn steps_from<R, P>(call: Call<R, P>, steps: Seq<Step<R, P>>) -> bool
    decreases steps.len(),
{
    if steps.len() == 0 {
        true
    } else {
        let step = steps[0];
        let next = call.after(step.reply);
        &&& answers(call.phase, step.reply)
        &&& asks_for(call.phase, next.phase, call.regs, step.action)
        &&& steps_from(next, steps.drop_first())
    }
}

/// Each of these steps is allowed, after what the steps before it have brought
/// about.
pub open spec fn all_allowed<R, P>(world: World, steps: Seq<Step<R, P>>) -> bool
    decreases steps.len(),
{
    if steps.len() == 0 {
        true
    } else {
        &&& allowed(world, steps[0].action)
        &&& all_allowed(effect(world, steps[0].action), steps.drop_first())
    }
}

/// A call keeps the rules from its start on, however long it takes.
pub proof fn call_keeps_the_rules<R, P>(world: World, call: Call<R, P>, steps: Seq<Step<R, P>>)
    requires
        fits(world, call.phase),
        steps_from(call, steps),
    ensures
        all_allowed(world, steps),
    decreases steps.len(),
{
    if steps.len() > 0 {
        let step = steps[0];
        run_keeps_the_rules(world, call, step.reply, step.action);
        call_keeps_the_rules(
            effect(world, step.action),
            call.after(step.reply),
            steps.drop_first(),
        );
    }
}

/// The register values that an action hands out.
pub open spec fn handed_by<R, P>(action: GuestAction<R, P>) -> Seq<R> {
    match action {
        GuestAction::SetRegisters(regs) => regs@,
        _ => Seq::empty(),
    }
}

/// Registers were set in one of the first `n` steps.
pub open spec fn set_within<R, P>(steps: Seq<Step<R, P>>, n: int) -> bool {
    exists|j: int| 0 <= j < n && #[trigger] steps[j].action is SetRegisters
}

/// Registers are set once in a call: the first entry that is prepared gets all the
/// values that the call began with, in their order, and no later one gets any.
pub proof fn registers_are_set_once<R, P>(call: Call<R, P>, steps: Seq<Step<R, P>>, i: int)
    requires
        steps_from(call, steps),
        0 <= i < steps.len(),
        steps[i].action is SetRegisters,
    ensures
        handed_by(steps[i].action) == if set_within(steps, i) {
            Seq::empty()
        } else {
            call.regs
        },
    decreases steps.len(),
{
    if i > 0 {
        let rest = steps.drop_first();
        registers_are_set_once(call.after(steps[0].reply), rest, i - 1);
        if set_within(rest, i - 1) {
            let j = choose|j: int| 0 <= j < i - 1 && #[trigger] rest[j].action is SetRegisters;
            assert(steps[j + 1].action is SetRegisters);
        } else if set_within(steps, i) {
            let j = choose|j: int| 0 <= j < i && #[trigger] steps[j].action is SetRegisters;
            assert(j > 0 ==> rest[j - 1].action is SetRegisters);
        }
    }
}

proof fn lemma_not_logged<R, P>(call: Call<R, P>, steps: Seq<Step<R, P>>, i: int)
    requires
        steps_from(call, steps),
        0 <= i < steps.len(),
    ensures
        steps[i].action is LogEntry ==> call.log_entry,
        steps[i].action is LogReturn ==> call.log_return,
    decreases steps.len(),
{
    if i > 0 {
        lemma_not_logged(call.after(steps[0].reply), steps.drop_first(), i - 1);
    }
}

/// The first entry of the guest on its processor is logged once in a call at most,
/// and so is its first return. Where the guest was seen before, neither is.
pub proof fn call_is_logged_once<R, P>(
    call: Call<R, P>,
    steps: Seq<Step<R, P>>,
    i: int,
    j: int,
)
    requires
        steps_from(call, steps),
        0 <= i < j < steps.len(),
    ensures
        !(steps[i].action is LogEntry && steps[j].action is LogEntry),
        !(steps[i].action is LogReturn && steps[j].action is LogReturn),
        !call.log_entry ==> !(steps[i].action is LogEntry),
        !call.log_return ==> !(steps[i].action is LogReturn),
    decreases steps.len(),
{
    let next = call.after(steps[0].reply);
    lemma_not_logged(call, steps, i);
    lemma_not_logged(next, steps.drop_first(), j - 1);
    if i > 0 {
        call_is_logged_once(next, steps.drop_first(), i - 1, j - 1);
    }
}

/// The call has ended with `message`.
pub open spec fn returned<R, P>(steps: Seq<Step<R, P>>, message: GuestExitMessage<P>) -> bool {
    steps.len() > 0 && steps.last().action == GuestAction::<R, P>::Return(message)
}

/// How the last update of the guest's mappings went, if there was one.
pub open spec fn last_mapping<R, P>(steps: Seq<Step<R, P>>) -> Option<bool>
    decreases steps.len(),
{
    if steps.len() == 0 {
        None
    } else {
        match steps.last().reply {
            GuestReply::Mapped(mapped) => Some(mapped),
            _ => last_mapping(steps.drop_last()),
        }
    }
}

/// The requests that were taken, one for each exit of the guest.
pub open spec fn requests<R, P>(steps: Seq<Step<R, P>>) -> Seq<Option<GuestExitMessage<P>>>
    decreases steps.len(),
{
    if steps.len() == 0 {
        Seq::empty()
    } else {
        match steps[0].reply {
            GuestReply::Request(message) => seq![message] + requests(steps.drop_first()),
            _ => requests(steps.drop_first()),
        }
    }
}

/// The request with which the call is about to end.
pub open spec fn ending<P>(phase: GuestPhase<P>) -> Seq<Option<GuestExitMessage<P>>> {
    match phase {
        GuestPhase::UnlockForExit(Some(message)) => seq![Some(message)],
        _ => Seq::empty(),
    }
}

proof fn lemma_last_mapping<R, P>(steps: Seq<Step<R, P>>)
    requires
        steps.len() > 0,
    ensures
        last_mapping(steps) == match last_mapping(steps.drop_first()) {
            Some(mapped) => Some(mapped),
            None => match steps[0].reply {
                GuestReply::Mapped(mapped) => Some(mapped),
                _ => None,
            },
        },
    decreases steps.len(),
{
    if steps.len() == 1 {
        assert(last_mapping(steps.drop_last()) is None);
    } else {
        lemma_last_mapping(steps.drop_last());
        assert(steps.drop_first().drop_last() =~= steps.drop_last().drop_first());
        assert(steps.drop_first().last() == steps.last());
    }
}

proof fn lemma_call_ends<R, P>(
    call: Call<R, P>,
    steps: Seq<Step<R, P>>,
    message: GuestExitMessage<P>,
)
    requires
        steps_from(call, steps),
        returned(steps, message),
        call.phase matches GuestPhase::UnlockForExit(Some(message)) ==> message is Svsm,
    ensures
        message is NoMappings <==> last_mapping(steps) == Some(false),
        ({
            let asked = ending(call.phase) + requests(steps);
            &&& forall|i: int| 0 <= i < asked.len() - 1 ==> #[trigger] asked[i] is None
            &&& message is NoMappings ==> (asked.len() > 0 ==> asked.last() is None)
            &&& message is Svsm ==> asked.len() > 0 && asked.last() == Some(message)
        }),
    decreases steps.len(),
{
    let next = call.after(steps[0].reply);
    let rest = steps.drop_first();
    let asked = ending(call.phase) + requests(steps);
    lemma_last_mapping(steps);
    if steps.len() == 1 {
        assert(requests(rest) =~= Seq::empty());
        assert(last_mapping(rest) is None);
        assert(requests(steps) =~= Seq::empty());
        assert(asked =~= ending(call.phase));
    } else {
        assert(answers(next.phase, rest[0].reply)) by {
            reveal_with_fuel(steps_from, 2);
        }
        assert(rest.last() == steps.last());
        lemma_call_ends(next, rest, message);
        let later = ending(next.phase) + requests(rest);
        match steps[0].reply {
            GuestReply::Request(Some(message)) => {
                assert(asked =~= later);
            },
            GuestReply::Request(None) => {
                assert(asked =~= seq![None] + later);
            },
            _ => {
                assert(asked =~= later);
            },
        }
    }
}

/// An exit of the guest, when its request is taken.
pub ghost struct Exit<P, C, E> {
    /// The saved state.
    pub vmsa: Vmsa,
    /// The parameters that a request has.
    pub params: P,
    /// How the request flag was taken.
    pub flag: Result<bool, SvsmReqError<C, E>>,
}

impl<P, C, E> Exit<P, C, E> {
    /// The guest has made a request.
    pub open spec fn pending(self) -> bool {
        self.vmsa.guest_exit_code == GuestVMExit::VMGEXIT && self.flag == Ok::<
            bool,
            SvsmReqError<C, E>,
        >(true)
    }

    /// The request could not be taken, and the monitor cannot go on.
    pub open spec fn fatal(self) -> bool {
        self.vmsa.guest_exit_code == GuestVMExit::VMGEXIT && (self.flag matches Err(
            SvsmReqError::FatalError(_),
        ))
    }

    /// What has become of the request.
    pub open spec fn outcome(self) -> RequestOutcome<P, C, E> {
        if self.vmsa.guest_exit_code == GuestVMExit::VMGEXIT {
            outcome_of(self.vmsa, self.params, self.flag)
        } else {
            RequestOutcome::Nothing
        }
    }

    /// The request, as a message.
    pub open spec fn message(self) -> GuestExitMessage<P> {
        GuestExitMessage::Svsm(
            (
                (self.vmsa.rax / 0x1_0000_0000) as u32,
                (self.vmsa.rax % 0x1_0000_0000) as u32,
                self.params,
            ),
        )
    }
}

/// What is reported of an exit: the guest's message if it has made a request, and
/// nothing at all if the monitor cannot go on. In all other cases, a request that
/// could not be taken among them, it is reported that there is no message, and
/// the guest is entered again.
pub proof fn exit_decides_the_reply<P, C, E>(exit: Exit<P, C, E>)
    ensures
        reply_to(exit.outcome()) == if exit.fatal() {
            None
        } else if exit.pending() {
            Some(GuestReply::Request(Some(exit.message())))
        } else {
            Some(GuestReply::Request(None))
        },
        reply_to(exit.outcome()) matches Some(reply) ==> answers(GuestPhase::TakeRequest, reply),
{
}

/// A call into the guest returns that there are no mappings if and only if its
/// last update of the mappings failed. Otherwise it returns the request of the
/// first exit at which the guest had made one, which is then the last exit. A call
/// goes on past no exit that was fatal.
pub proof fn call_returns_the_first_request<R, P, C, E>(
    call: Call<R, P>,
    steps: Seq<Step<R, P>>,
    exits: Seq<Exit<P, C, E>>,
    message: GuestExitMessage<P>,
)
    requires
        call.phase is Start,
        steps_from(call, steps),
        returned(steps, message),
        exits.len() == requests(steps).len(),
        forall|i: int|
            0 <= i < exits.len() ==> reply_to(#[trigger] exits[i].outcome()) == Some(
                GuestReply::Request(requests(steps)[i]),
            ),
    ensures
        message is NoMappings <==> last_mapping(steps) == Some(false),
        message is NoMappings ==> forall|i: int|
            0 <= i < exits.len() ==> !(#[trigger] exits[i].pending()),
        !(message is NoMappings) ==> {
            &&& exits.len() > 0
            &&& exits.last().pending()
            &&& message == exits.last().message()
            &&& forall|i: int| 0 <= i < exits.len() - 1 ==> !(#[trigger] exits[i].pending())
        },
        forall|i: int| 0 <= i < exits.len() ==> !(#[trigger] exits[i].fatal()),
{
    lemma_call_ends(call, steps, message);
    let asked = ending(call.phase) + requests(steps);
    assert(asked =~= requests(steps));
    assert forall|i: int|
        #![trigger exits[i]]
        0 <= i < exits.len() implies !exits[i].fatal() && (exits[i].pending()
        <==> asked[i] is Some) by {
        exit_decides_the_reply(exits[i]);
        assert(reply_to(exits[i].outcome()) == Some(GuestReply::Request(asked[i])));
    }
    if exits.len() > 0 {
        exit_decides_the_reply(exits.last());
        assert(reply_to(exits[exits.len() - 1].outcome()) == Some(
            GuestReply::Request(asked[exits.len() - 1]),
        ));
    }
}

/// A call of `enter_guest` is one step of a call into the guest, and leaves the
/// marks of other processors alone.
pub proof fn call_takes_a_step<R, P>(
    run: &mut GuestRun<R, P>,
    seen: &mut SeenCpus,
    reply: GuestReply<P>,
    action: GuestAction<R, P>,
    other: usize,
)
    requires
        answers(old(run).phase, reply),
        call_ensures(enter_guest::<R, P>, (run, seen, reply), action),
    ensures
        steps_from(call_of(*old(run), *old(seen)), seq![Step { reply, action }]),
        call_of(*final(run), *final(seen)) == call_of(*old(run), *old(seen)).after(reply),
        final(run).cpu_index == old(run).cpu_index,
        other != old(run).cpu_index ==> {
            &&& unseen(final(seen).entered, other) == unseen(old(seen).entered, other)
            &&& unseen(final(seen).returned, other) == unseen(old(seen).returned, other)
        },
{
    reveal_with_fuel(steps_from, 2);
    if other != old(run).cpu_index {
        if old(run).phase is FlushTlb {
            processor_is_logged_once(
                old(seen).entered,
                old(run).cpu_index,
                final(seen).entered,
                other,
            );
        }
        if old(run).phase is ReadExit {
            processor_is_logged_once(
                old(seen).returned,
                old(run).cpu_index,
                final(seen).returned,
                other,
            );
        }
    }
}

/// A call begins at its start, with all its register values to be handed out.
pub proof fn call_begins_at_the_start<R, P>(
    cpu_index: usize,
    regs: Vec<R>,
    run: GuestRun<R, P>,
    seen: SeenCpus,
)
    requires
        call_ensures(GuestRun::<R, P>::new, (cpu_index, regs), run),
    ensures
        run.cpu_index == cpu_index,
        call_of(run, seen).phase is Start,
        call_of(run, seen).regs == regs@,
{
}

/// What an action is, apart from what it carries.
pub ghost enum Kind {
    UpdateMappings,
    LockVmsa,
    ReadCaa,
    SetRegisters,
    DisableInterrupts,
    UpdateApicEmulation,
    EnableVmsa,
    UnlockVmsa,
    FlushTlb,
    LogEntry,
    SwitchToGuest,
    EnableInterrupts,
    ReadExit,
    LogReturn,
    DisableVmsa,
    HandleIntercepts,
    LogGuestExit,
    TakeRequest,
    Return,
}

/// What `action` is.
pub open spec fn kind_of<R, P>(action: GuestAction<R, P>) -> Kind {
    match action {
        GuestAction::UpdateMappings => Kind::UpdateMappings,
        GuestAction::LockVmsa => Kind::LockVmsa,
        GuestAction::ReadCaa => Kind::ReadCaa,
        GuestAction::SetRegisters(_) => Kind::SetRegisters,
        GuestAction::DisableInterrupts => Kind::DisableInterrupts,
        GuestAction::UpdateApicEmulation(_) => Kind::UpdateApicEmulation,
        GuestAction::EnableVmsa => Kind::EnableVmsa,
        GuestAction::UnlockVmsa => Kind::UnlockVmsa,
        GuestAction::FlushTlb => Kind::FlushTlb,
        GuestAction::LogEntry => Kind::LogEntry,
        GuestAction::SwitchToGuest => Kind::SwitchToGuest,
        GuestAction::EnableInterrupts => Kind::EnableInterrupts,
        GuestAction::ReadExit => Kind::ReadExit,
        GuestAction::LogReturn(_) => Kind::LogReturn,
        GuestAction::DisableVmsa => Kind::DisableVmsa,
        GuestAction::HandleIntercepts => Kind::HandleIntercepts,
        GuestAction::LogGuestExit(_) => Kind::LogGuestExit,
        GuestAction::TakeRequest => Kind::TakeRequest,
        GuestAction::Return(_) => Kind::Return,
    }
}

/// The `n`-th action of a round of the guest, from 1 to 20. Number 0 comes once,
/// before the first round. Numbers 9 and 15 are the logs of a first time.
pub open spec fn script(n: int) -> Kind {
    if n == 0 {
        Kind::UpdateMappings
    } else if n == 1 {
        Kind::LockVmsa
    } else if n == 2 {
        Kind::ReadCaa
    } else if n == 3 {
        Kind::SetRegisters
    } else if n == 4 {
        Kind::DisableInterrupts
    } else if n == 5 {
        Kind::UpdateApicEmulation
    } else if n == 6 {
        Kind::EnableVmsa
    } else if n == 7 {
        Kind::UnlockVmsa
    } else if n == 8 {
        Kind::FlushTlb
    } else if n == 9 {
        Kind::LogEntry
    } else if n == 10 {
        Kind::SwitchToGuest
    } else if n == 11 {
        Kind::EnableInterrupts
    } else if n == 12 {
        Kind::UpdateMappings
    } else if n == 13 {
        Kind::LockVmsa
    } else if n == 14 {
        Kind::ReadExit
    } else if n == 15 {
        Kind::LogReturn
    } else if n == 16 {
        Kind::DisableVmsa
    } else if n == 17 {
        Kind::HandleIntercepts
    } else if n == 18 {
        Kind::LogGuestExit
    } else if n == 19 {
        Kind::TakeRequest
    } else {
        Kind::UnlockVmsa
    }
}

/// Where an action of this kind takes a call that has come to number `n` of the
/// script: to the next number, past a log that is not due, from the last on to the
/// next round, or to the end, which is number 21. The end may come after an update
/// of the mappings and after a round.
pub open spec fn moves_to(n: int, kind: Kind) -> Option<int> {
    if kind == Kind::Return {
        if n == 0 || n == 12 || n == 20 {
            Some(21)
        } else {
            None
        }
    } else if n >= 21 {
        None
    } else if n == 20 {
        if kind == script(1) {
            Some(1)
        } else {
            None
        }
    } else if kind == script(n + 1) {
        Some(n + 1)
    } else if (n == 8 || n == 14) && kind == script(n + 2) {
        Some(n + 2)
    } else {
        None
    }
}

/// These steps keep to the script, from number `n` on.
pub open spec fn scripted<R, P>(n: int, steps: Seq<Step<R, P>>) -> bool
    decreases steps.len(),
{
    if steps.len() == 0 {
        true
    } else {
        match moves_to(n, kind_of(steps[0].action)) {
            Some(next) => scripted(next, steps.drop_first()),
            None => false,
        }
    }
}

/// The number in the script of the action of `phase`.
pub open spec fn number_of<P>(phase: GuestPhase<P>) -> int {
    match phase {
        GuestPhase::Start => -1,
        GuestPhase::MapBeforeEntry => 0,
        GuestPhase::LockForEntry => 1,
        GuestPhase::ReadCaa => 2,
        GuestPhase::SetRegisters(_) => 3,
        GuestPhase::DisableInterrupts(_) => 4,
        GuestPhase::UpdateApicEmulation => 5,
        GuestPhase::EnableVmsa => 6,
        GuestPhase::UnlockForEntry => 7,
        GuestPhase::FlushTlb => 8,
        GuestPhase::LogEntry => 9,
        GuestPhase::SwitchToGuest => 10,
        GuestPhase::EnableInterrupts => 11,
        GuestPhase::MapAfterExit => 12,
        GuestPhase::LockForExit => 13,
        GuestPhase::ReadExit => 14,
        GuestPhase::LogReturn(_) => 15,
        GuestPhase::DisableVmsa(_) => 16,
        GuestPhase::HandleIntercepts(_) => 17,
        GuestPhase::LogGuestExit => 18,
        GuestPhase::TakeRequest => 19,
        GuestPhase::UnlockForExit(_) => 20,
        GuestPhase::Returned => 21,
    }
}

proof fn lemma_scripted<R, P>(call: Call<R, P>, steps: Seq<Step<R, P>>)
    requires
        steps_from(call, steps),
    ensures
        scripted(number_of(call.phase), steps),
    decreases steps.len(),
{
    if steps.len() > 0 {
        let next = call.after(steps[0].reply);
        assert(moves_to(number_of(call.phase), kind_of(steps[0].action)) == Some(
            number_of(next.phase),
        ));
        lemma_scripted(next, steps.drop_first());
    }
}

/// A call keeps to the script from its start to its end, whatever the guest does:
/// each action of a round comes once and in its place.
pub proof fn call_keeps_to_the_script<R, P>(call: Call<R, P>, steps: Seq<Step<R, P>>)
    requires
        call.phase is Start,
        steps_from(call, steps),
    ensures
        scripted(-1, steps),
{
    lemma_scripted(call, steps);
}

/// How many of these steps ask for an action of this kind.
pub open spec fn tally<R, P>(steps: Seq<Step<R, P>>, kind: Kind) -> nat
    decreases steps.len(),
{
    if steps.len() == 0 {
        0
    } else {
        tally(steps.drop_first(), kind) + if kind_of(steps[0].action) == kind {
            1nat
        } else {
            0nat
        }
    }
}

/// The number of an action that comes once in each round.
pub open spec fn once_a_round(n: int) -> bool {
    2 <= n <= 19 && n != 7 && n != 9 && n != 12 && n != 13 && n != 15
}

proof fn lemma_tally<R, P>(
    call: Call<R, P>,
    steps: Seq<Step<R, P>>,
    message: GuestExitMessage<P>,
    a: int,
    b: int,
)
    requires
        steps_from(call, steps),
        returned(steps, message),
        call.phase matches GuestPhase::UnlockForExit(Some(message)) ==> message is Svsm,
        once_a_round(a) && once_a_round(b) && a < b,
    ensures
        ({
            let n = number_of(call.phase);
            let begun: int = if a <= n < b {
                1
            } else {
                0
            };
            let cut: int = if message is NoMappings && a < 12 < b {
                1
            } else {
                0
            };
            ||| tally(steps, script(b)) + cut == tally(steps, script(a)) + begun
            ||| n <= 0 && message is NoMappings && tally(steps, script(a)) == 0 && tally(
                steps,
                script(b),
            ) == 0
        }),
    decreases steps.len(),
{
    let next = call.after(steps[0].reply);
    let rest = steps.drop_first();
    let n = number_of(call.phase);
    let kind = kind_of(steps[0].action);
    assert(moves_to(n, kind) == Some(number_of(next.phase)));
    if steps.len() == 1 {
        assert(tally(rest, script(a)) == 0);
        assert(tally(rest, script(b)) == 0);
    } else {
        assert(answers(next.phase, rest[0].reply)) by {
            reveal_with_fuel(steps_from, 2);
        }
        assert(rest.last() == steps.last());
        lemma_tally(next, rest, message, a, b);
    }
}

/// In a call that ends with a request, each action of a round came as often as the
/// guest was entered: in particular intercepts were handled, and the exit counted,
/// once for each time that the guest stopped. In a call that ends for want of
/// mappings the last entry, if there was one, is not followed by the second half
/// of its round.
pub proof fn rounds_are_complete<R, P>(
    call: Call<R, P>,
    steps: Seq<Step<R, P>>,
    message: GuestExitMessage<P>,
    a: int,
    b: int,
)
    requires
        call.phase is Start,
        steps_from(call, steps),
        returned(steps, message),
        once_a_round(a) && once_a_round(b) && a < b,
    ensures
        message is Svsm || b < 12 || a > 12 ==> tally(steps, script(a)) == tally(steps, script(b)),
        message is NoMappings && a < 12 < b ==> {
            ||| tally(steps, script(a)) == tally(steps, script(b)) + 1
            ||| tally(steps, script(a)) == 0 && tally(steps, script(b)) == 0
        },
{
    lemma_tally(call, steps, message, a, b);
}

/// The guest's exits are handled alike, whatever their cause. Before its request
/// is taken, and after the saved state was read and made not runnable, intercepts
/// are handled once and then the exit is logged once; nothing else comes between,
/// but that the first exit on a processor is logged too.
pub proof fn exit_is_handled_once<R, P>(
    call: Call<R, P>,
    steps: Seq<Step<R, P>>,
    i: int,
)
    requires
        call.phase is Start,
        steps_from(call, steps),
        0 <= i < steps.len(),
        steps[i].action is TakeRequest,
    ensures
        i > 5,
        steps[i - 1].action is LogGuestExit,
        steps[i - 2].action is HandleIntercepts,
        steps[i - 3].action is DisableVmsa,
        steps[i - 4].action is ReadExit || steps[i - 4].action is LogReturn && steps[i
            - 5].action is ReadExit,
{
    lemma_came_before(call, steps, i);
    lemma_came_before(call, steps, i - 1);
    lemma_came_before(call, steps, i - 2);
    lemma_came_before(call, steps, i - 3);
    lemma_came_before(call, steps, i - 4);
    lemma_came_before(call, steps, i - 5);
}

/// The number in the script that comes before a step.
proof fn lemma_came_before<R, P>(call: Call<R, P>, steps: Seq<Step<R, P>>, i: int)
    requires
        steps_from(call, steps),
        0 <= i < steps.len(),
    ensures
        i == 0 ==> moves_to(number_of(call.phase), kind_of(steps[i].action)) is Some,
        i > 0 ==> exists|n: int| #[trigger]
            moves_to(n, kind_of(steps[i].action)) is Some && n >= 0 && n <= 20 && script(n)
                == kind_of(steps[i - 1].action),
    decreases steps.len(),
{
    let next = call.after(steps[0].reply);
    let rest = steps.drop_first();
    assert(moves_to(number_of(call.phase), kind_of(steps[0].action)) == Some(
        number_of(next.phase),
    ));
    if i > 0 {
        assert(answers(next.phase, rest[0].reply)) by {
            reveal_with_fuel(steps_from, 2);
        }
        lemma_came_before(next, rest, i - 1);
        if i == 1 {
            assert(moves_to(number_of(next.phase), kind_of(steps[1].action)) is Some);
        } else {
            assert(rest[i - 2] == steps[i - 1]);
        }
    }
}

/// The saved state tells why the guest stopped, and how its addresses translate.
pub open spec fn tells(vmsa: Vmsa, stop: GuestStop) -> bool {
    &&& stop.exit_code == vmsa.guest_exit_code
    &&& stop.ctx.cr0 == vmsa.cr0
    &&& stop.ctx.cr3 == vmsa.cr3
    &&& stop.ctx.cr4 == vmsa.cr4
    &&& stop.ctx.efer == vmsa.efer
}

/// What the saved state said when it was last read, by the end of these steps.
pub open spec fn last_exit<R, P>(steps: Seq<Step<R, P>>) -> Option<Vmsa>
    decreases steps.len(),
{
    if steps.len() == 0 {
        None
    } else {
        match steps.last().reply {
            GuestReply::Exit(vmsa) => Some(vmsa),
            _ => last_exit(steps.drop_last()),
        }
    }
}

/// Where the calling area was last said to be, by the end of these steps.
pub open spec fn last_caa<R, P>(steps: Seq<Step<R, P>>) -> Option<Option<VirtAddr>>
    decreases steps.len(),
{
    if steps.len() == 0 {
        None
    } else {
        match steps.last().reply {
            GuestReply::Caa(caa) => Some(caa),
            _ => last_caa(steps.drop_last()),
        }
    }
}

/// The call after these steps.
pub open spec fn call_after<R, P>(call: Call<R, P>, steps: Seq<Step<R, P>>) -> Call<R, P>
    decreases steps.len(),
{
    if steps.len() == 0 {
        call
    } else {
        call_after(call, steps.drop_last()).after(steps.last().reply)
    }
}

proof fn lemma_call_after<R, P>(call: Call<R, P>, steps: Seq<Step<R, P>>)
    requires
        steps.len() > 0,
    ensures
        call_after(call.after(steps[0].reply), steps.drop_first()) == call_after(call, steps),
    decreases steps.len(),
{
    if steps.len() > 1 {
        lemma_call_after(call, steps.drop_last());
        assert(steps.drop_first().drop_last() =~= steps.drop_last().drop_first());
        assert(steps.drop_first().last() == steps.last());
    } else {
        assert(call_after(call, steps.drop_last()) == call);
        assert(call_after(call.after(steps[0].reply), steps.drop_first()) == call.after(
            steps[0].reply,
        ));
    }
}

proof fn lemma_step_at<R, P>(call: Call<R, P>, steps: Seq<Step<R, P>>, i: int)
    requires
        steps_from(call, steps),
        0 <= i < steps.len(),
    ensures
        ({
            let before = call_after(call, steps.take(i));
            let after = call_after(call, steps.take(i + 1));
            &&& after == before.after(steps[i].reply)
            &&& answers(before.phase, steps[i].reply)
            &&& asks_for(before.phase, after.phase, before.regs, steps[i].action)
        }),
    decreases steps.len(),
{
    assert(steps.take(i + 1).drop_last() =~= steps.take(i));
    if i > 0 {
        let rest = steps.drop_first();
        lemma_step_at(call.after(steps[0].reply), rest, i - 1);
        lemma_call_after(call, steps.take(i));
        lemma_call_after(call, steps.take(i + 1));
        assert(steps.take(i).drop_first() =~= rest.take(i - 1));
        assert(steps.take(i + 1).drop_first() =~= rest.take(i));
    } else {
        assert(steps.take(0) =~= Seq::empty());
    }
}

proof fn lemma_carried<R, P>(call: Call<R, P>, steps: Seq<Step<R, P>>, i: int)
    requires
        call.phase is Start,
        steps_from(call, steps),
        0 <= i <= steps.len(),
    ensures
        match call_after(call, steps.take(i)).phase {
            GuestPhase::LogReturn(stop)
            | GuestPhase::DisableVmsa(stop)
            | GuestPhase::HandleIntercepts(stop) => last_exit(steps.take(i)) matches Some(vmsa)
                && tells(vmsa, stop),
            GuestPhase::SetRegisters(caa) | GuestPhase::DisableInterrupts(caa) => last_caa(
                steps.take(i),
            ) == Some(caa),
            _ => true,
        },
    decreases i,
{
    if i > 0 {
        lemma_carried(call, steps, i - 1);
        lemma_step_at(call, steps, i - 1);
        assert(steps.take(i).drop_last() =~= steps.take(i - 1));
        assert(steps.take(i).last() == steps[i - 1]);
    }
}

/// What is logged of an exit is what the saved state said when it was last read,
/// which was before intercepts were handled.
pub proof fn log_tells_what_was_read<R, P>(call: Call<R, P>, steps: Seq<Step<R, P>>, i: int)
    requires
        call.phase is Start,
        steps_from(call, steps),
        0 <= i < steps.len(),
    ensures
        steps[i].action matches GuestAction::LogGuestExit(stop) ==> (last_exit(
            steps.take(i + 1),
        ) matches Some(vmsa) && tells(vmsa, stop)),
        steps[i].action matches GuestAction::LogReturn(exit_code) ==> (last_exit(
            steps.take(i + 1),
        ) matches Some(vmsa) && exit_code == vmsa.guest_exit_code),
{
    lemma_carried(call, steps, i);
    lemma_carried(call, steps, i + 1);
    lemma_step_at(call, steps, i);
    assert(steps.take(i + 1).drop_last() =~= steps.take(i));
    assert(steps.take(i + 1).last() == steps[i]);
}

/// The emulated interrupt controller is brought up to date for the calling area
/// that was last said to be the guest's.
pub proof fn controller_gets_the_area_read<R, P>(
    call: Call<R, P>,
    steps: Seq<Step<R, P>>,
    i: int,
)
    requires
        call.phase is Start,
        steps_from(call, steps),
        0 <= i < steps.len(),
    ensures
        steps[i].action matches GuestAction::UpdateApicEmulation(caa) ==> last_caa(
            steps.take(i + 1),
        ) == Some(caa),
{
    lemma_carried(call, steps, i);
    lemma_step_at(call, steps, i);
    assert(steps.take(i + 1).drop_last() =~= steps.take(i));
    assert(steps.take(i + 1).last() == steps[i]);
}

/// The first entry of a call is logged, right before it, if and only if the guest
/// was not seen to be entered on the processor before.
pub proof fn first_entry_is_logged<R, P>(call: Call<R, P>, steps: Seq<Step<R, P>>, i: int)
    requires
        call.phase is Start,
        steps_from(call, steps),
        0 <= i < steps.len(),
        steps[i].action is SwitchToGuest,
        forall|j: int| 0 <= j < i ==> !(#[trigger] steps[j].action is SwitchToGuest),
    ensures
        i > 0,
        steps[i - 1].action is LogEntry <==> call.log_entry,
{
    lemma_step_at(call, steps, i);
    lemma_came_before(call, steps, i);
    lemma_step_at(call, steps, i - 1);
    lemma_unlogged(call, steps, i - 1);
}

proof fn lemma_unlogged<R, P>(call: Call<R, P>, steps: Seq<Step<R, P>>, i: int)
    requires
        call.phase is Start,
        steps_from(call, steps),
        0 <= i <= steps.len(),
        forall|j: int| 0 <= j < i ==> !(#[trigger] steps[j].action is SwitchToGuest),
    ensures
        ({
            let now = call_after(call, steps.take(i));
            &&& number_of(now.phase) < 10 || now.phase is Returned
            &&& number_of(now.phase) < 9 ==> now.log_entry == call.log_entry
            &&& now.phase is LogEntry ==> call.log_entry
        }),
    decreases i,
{
    if i > 0 {
        lemma_unlogged(call, steps, i - 1);
        lemma_step_at(call, steps, i - 1);
    } else {
        assert(steps.take(0) =~= Seq::empty());
    }
}

/// The first exit of a call is logged as the first, right after it was read, if
/// and only if the guest was not seen to stop on the processor before.
pub proof fn first_return_is_logged<R, P>(call: Call<R, P>, steps: Seq<Step<R, P>>, i: int)
    requires
        call.phase is Start,
        steps_from(call, steps),
        0 <= i < steps.len(),
        steps[i].action is DisableVmsa,
        forall|j: int| 0 <= j < i ==> !(#[trigger] steps[j].action is DisableVmsa),
    ensures
        i > 0,
        steps[i - 1].action is LogReturn <==> call.log_return,
{
    lemma_step_at(call, steps, i);
    lemma_came_before(call, steps, i);
    lemma_step_at(call, steps, i - 1);
    lemma_return_unlogged(call, steps, i - 1);
}

proof fn lemma_return_unlogged<R, P>(call: Call<R, P>, steps: Seq<Step<R, P>>, i: int)
    requires
        call.phase is Start,
        steps_from(call, steps),
        0 <= i <= steps.len(),
        forall|j: int| 0 <= j < i ==> !(#[trigger] steps[j].action is DisableVmsa),
    ensures
        ({
            let now = call_after(call, steps.take(i));
            &&& number_of(now.phase) < 16 || now.phase is Returned
            &&& number_of(now.phase) < 15 ==> now.log_return == call.log_return
            &&& now.phase is LogReturn ==> call.log_return
        }),
    decreases i,
{
    if i > 0 {
        lemma_return_unlogged(call, steps, i - 1);
        lemma_step_at(call, steps, i - 1);
    } else {
        assert(steps.take(0) =~= Seq::empty());
    }
}

/// The replies decide how a call goes on. Without mappings it ends there, and with
/// them the saved state is taken hold of. With a request it ends after letting go
/// of the saved state, and without one the guest is entered again. Nothing comes
/// after the end.
pub proof fn replies_decide_the_course<R, P>(call: Call<R, P>, steps: Seq<Step<R, P>>, i: int)
    requires
        call.phase is Start,
        steps_from(call, steps),
        0 <= i < steps.len(),
    ensures
        steps[i].reply matches GuestReply::Mapped(mapped) ==> if mapped {
            steps[i].action is LockVmsa
        } else {
            steps[i].action == GuestAction::<R, P>::Return(GuestExitMessage::NoMappings)
        },
        steps[i].reply matches GuestReply::Request(message) ==> {
            &&& steps[i].action is UnlockVmsa
            &&& i + 1 < steps.len() ==> match message {
                Some(message) => steps[i + 1].action == GuestAction::<R, P>::Return(message),
                None => steps[i + 1].action is LockVmsa,
            }
        },
        steps[i].action is Return ==> i == steps.len() - 1,
{
    lemma_step_at(call, steps, i);
    if i + 1 < steps.len() {
        lemma_step_at(call, steps, i + 1);
    }
}

/// Of two calls for one processor the second is never the first time. A call for
/// one processor makes no difference to others, and on an empty mask it is the
/// first time for each of the first 64.
pub proof fn processors_are_told_apart(
    mask: &mut u64,
    a: usize,
    first: bool,
    then: &mut u64,
    b: usize,
    second: bool,
    alone: &mut u64,
    undisturbed: bool,
)
    requires
        call_ensures(log_once_for_cpu, (mask, a), first),
        *old(then) == *final(mask),
        call_ensures(log_once_for_cpu, (then, b), second),
        *old(alone) == *old(mask),
        call_ensures(log_once_for_cpu, (alone, b), undisturbed),
    ensures
        *old(mask) == 0 ==> (first <==> a < 64),
        a == b ==> !second,
        a != b ==> second == undisturbed,
        a >= 64 ==> !first && *final(mask) == *old(mask),
        first == unseen(*old(mask), a),
{
    if a < 64 {
        let i = a as u64;
        assert((0u64 >> i) & 1 != 1) by (bit_vector)
            requires
                i < 64,
        ;
        assert(logged(*final(mask), a as int));
        if b < 64 {
            assert(logged(*final(mask), b as int) == (logged(*old(mask), b as int) || a == b));
        }
    }
}

/// The processor gives these leaves.
pub open spec fn leaves_are<C: Fn(u32, u32) -> Option<CpuidResult>>(
    cpuid: C,
    leaves: spec_fn(u32) -> Option<CpuidResult>,
) -> bool {
    forall|leaf: u32, r: Option<CpuidResult>| #[trigger]
        call_ensures(cpuid, (leaf, 0u32), r) ==> r == leaves(leaf)
}

/// The first register of a leaf, or 0 without it.
pub open spec fn eax_of(leaf: Option<CpuidResult>) -> int {
    match leaf {
        Some(leaf) => leaf.eax as int,
        None => 0,
    }
}

/// What leaf 0x15 gives, where the processor has it: the crystal's frequency in
/// ECX, times EBX, over EAX, if none of them is 0.
pub open spec fn hz_by_crystal(leaves: spec_fn(u32) -> Option<CpuidResult>) -> int {
    if eax_of(leaves(0)) >= 0x15 {
        match leaves(0x15) {
            Some(leaf) => if leaf.eax == 0 || leaf.ebx == 0 || leaf.ecx == 0 {
                0
            } else {
                leaf.ecx * leaf.ebx / leaf.eax as int
            },
            None => 0,
        }
    } else {
        0
    }
}

/// What leaf 0x16 gives, where the processor has it: megahertz, in the low half of
/// EAX.
pub open spec fn hz_by_base(leaves: spec_fn(u32) -> Option<CpuidResult>) -> int {
    if eax_of(leaves(0)) >= 0x16 {
        eax_of(leaves(0x16)) % 0x1_0000 * 1_000_000
    } else {
        0
    }
}

/// What leaf 0x40000010 gives, where the hypervisor has it: kilohertz, in EAX.
pub open spec fn hz_by_hypervisor(leaves: spec_fn(u32) -> Option<CpuidResult>) -> int {
    if eax_of(leaves(0x4000_0000)) >= 0x4000_0010 {
        eax_of(leaves(0x4000_0010)) * 1_000
    } else {
        0
    }
}

/// The frequency: of the three the first that is not 0.
pub open spec fn frequency(leaves: spec_fn(u32) -> Option<CpuidResult>) -> int {
    if hz_by_crystal(leaves) != 0 {
        hz_by_crystal(leaves)
    } else if hz_by_base(leaves) != 0 {
        hz_by_base(leaves)
    } else {
        hz_by_hypervisor(leaves)
    }
}

/// A report of a probe of a processor with these leaves.
pub open spec fn report_of(leaves: spec_fn(u32) -> Option<CpuidResult>, probe: TscProbe) -> bool {
    &&& probe.hz == frequency(leaves)
    &&& probe.max_leaf == eax_of(leaves(0))
    &&& probe.max_hypervisor_leaf == eax_of(leaves(0x4000_0000))
    &&& probe.leaf15 == if eax_of(leaves(0)) >= 0x15 {
        leaves(0x15)
    } else {
        None
    }
    &&& probe.leaf16 == if hz_by_crystal(leaves) == 0 && eax_of(leaves(0)) >= 0x16 {
        leaves(0x16)
    } else {
        None
    }
    &&& probe.leaf40000010 == if hz_by_crystal(leaves) == 0 && hz_by_base(leaves) == 0 && eax_of(
        leaves(0x4000_0000),
    ) >= 0x4000_0010 {
        leaves(0x4000_0010)
    } else {
        None
    }
}

/// What asking for the frequency leads to on a processor with these leaves.
pub open spec fn frequency_told(
    leaves: spec_fn(u32) -> Option<CpuidResult>,
    before: TscClock,
    after: TscClock,
    hz: u64,
    report: Option<TscProbe>,
) -> bool {
    if before.probed {
        hz == before.hz && report is None && after == before
    } else {
        &&& hz == frequency(leaves)
        &&& after.probed && after.logged && after.hz == hz
        &&& report is None <==> before.logged
        &&& report matches Some(probe) ==> report_of(leaves, probe)
    }
}

proof fn lemma_frequency<C: Fn(u32, u32) -> Option<CpuidResult>>(
    cpuid: C,
    leaves: spec_fn(u32) -> Option<CpuidResult>,
    before: TscClock,
    after: TscClock,
    hz: u64,
    report: Option<TscProbe>,
)
    requires
        leaves_are(cpuid, leaves),
        gives_frequency(cpuid, before, after, hz, report),
    ensures
        frequency_told(leaves, before, after, hz, report),
{
    if !before.probed {
        let probe = choose|probe: TscProbe| #[trigger]
            probes(cpuid, probe) && hz == probe.hz && after == (TscClock {
                probed: true,
                hz: probe.hz,
                logged: true,
            }) && report == if before.logged {
                None
            } else {
                Some(probe)
            };
        assert(report_of(leaves, probe));
    }
}

/// The frequency of the time stamp counter is found once, in the first leaf that
/// gives one, and is the same from then on.
pub proof fn frequency_is_that_of_the_processor<C: Fn(u32, u32) -> Option<CpuidResult>>(
    clock: &mut TscClock,
    cpuid: &C,
    leaves: spec_fn(u32) -> Option<CpuidResult>,
    r: (u64, Option<TscProbe>),
)
    requires
        call_ensures(tsc_hz::<C>, (clock, cpuid), r),
        leaves_are(*cpuid, leaves),
    ensures
        frequency_told(leaves, *old(clock), *final(clock), r.0, r.1),
        final(clock).probed && final(clock).hz == r.0,
{
    lemma_frequency(*cpuid, leaves, *old(clock), *final(clock), r.0, r.1);
}

/// The frequency by the crystal is the whole part of a quotient.
pub proof fn crystal_frequency_is_a_quotient(leaf: CpuidResult, hz: u64)
    requires
        leaf.eax != 0 && leaf.ebx != 0 && leaf.ecx != 0,
        call_ensures(leaf15_hz, (Some(leaf),), hz),
    ensures
        hz * leaf.eax <= leaf.ecx * leaf.ebx < (hz + 1) * leaf.eax,
{
    let product = leaf.ecx * leaf.ebx;
    let divisor = leaf.eax as int;
    assert(hz * leaf.eax <= product < (hz + 1) * leaf.eax) by (nonlinear_arith)
        requires
            hz == product / divisor,
            divisor == leaf.eax,
            divisor > 0,
            product >= 0,
    ;
}

/// Clock ticks from `last` to `now`, on a counter of 64 bits.
pub open spec fn ticks(last: u64, now: u64) -> int {
    (now - last) % 0x1_0000_0000_0000_0000
}

/// What an exit leads to at `now` on a counter of this frequency. With a frequency
/// there is a heartbeat if there has been none, or if 30 seconds have passed since
/// the last, or as many as the counter can tell. Without one there is a heartbeat
/// for each of the first eight exits, and for those whose number is a power of two.
pub open spec fn exit_counted(
    before: ExitLog,
    after: ExitLog,
    cpu_index: usize,
    exit_code: GuestVMExit,
    hz: int,
    now: u64,
    heartbeat: Option<Heartbeat>,
) -> bool {
    let last = before.last_log_tsc;
    &&& after.count == before.count + 1
    &&& after.clock.probed && after.clock.hz == hz
    &&& hz == 0 ==> {
        &&& heartbeat is Some <==> after.count <= 8 || exists|k: nat| after.count == #[trigger]
            pow2(k)
        &&& heartbeat matches Some(beat) ==> beat.clock is None
        &&& after.last_log_tsc == last
    }
    &&& hz != 0 ==> {
        &&& heartbeat is Some <==> last == 0 || ticks(last, now) >= 30 * hz || ticks(last, now)
            == u64::MAX
        &&& heartbeat matches Some(beat) ==> (beat.clock matches Some((tsc, f)) && tsc == now && f
            == hz)
        &&& after.last_log_tsc == if heartbeat is Some {
            now
        } else {
            last
        }
    }
    &&& heartbeat matches Some(beat) ==> {
        &&& beat.count == after.count
        &&& beat.cpu_index == cpu_index
        &&& beat.exit_code == exit_code
    }
}

/// The frequency that an exit goes by.
pub open spec fn hz_at(leaves: spec_fn(u32) -> Option<CpuidResult>, clock: TscClock) -> int {
    if clock.probed {
        clock.hz as int
    } else {
        frequency(leaves)
    }
}

proof fn lemma_beats<C: Fn(u32, u32) -> Option<CpuidResult>, T: FnOnce() -> u64>(
    cpuid: C,
    rdtsc: T,
    before: ExitLog,
    after: ExitLog,
    cpu_index: usize,
    exit_code: GuestVMExit,
    probe: Option<TscProbe>,
    heartbeat: Option<Heartbeat>,
    leaves: spec_fn(u32) -> Option<CpuidResult>,
    now: u64,
)
    requires
        before.count < u64::MAX,
        beats(cpuid, rdtsc, before, after, cpu_index, exit_code, probe, heartbeat),
        leaves_are(cpuid, leaves),
        forall|tsc: u64| #[trigger] call_ensures(rdtsc, (), tsc) ==> tsc == now,
    ensures
        exit_counted(
            before,
            after,
            cpu_index,
            exit_code,
            hz_at(leaves, before.clock),
            now,
            heartbeat,
        ),
        probe is Some <==> !before.clock.probed && !before.clock.logged,
        probe matches Some(probe) ==> report_of(leaves, probe),
{
    assert forall|hz: u64| #[trigger]
        gives_frequency(cpuid, before.clock, after.clock, hz, probe) implies frequency_told(
        leaves,
        before.clock,
        after.clock,
        hz,
        probe,
    ) by {
        lemma_frequency(cpuid, leaves, before.clock, after.clock, hz, probe);
    }
    let last = before.last_log_tsc;
    assert(ticks(last, now) == elapsed(last, now));
}

/// An exit is counted, and gives a heartbeat when one is due.
pub proof fn heartbeat_comes_when_due<C: Fn(u32, u32) -> Option<CpuidResult>, T: FnOnce() -> u64>(
    log: &mut ExitLog,
    cpuid: &C,
    rdtsc: T,
    cpu_index: usize,
    exit_code: GuestVMExit,
    r: (Option<TscProbe>, Option<Heartbeat>),
    leaves: spec_fn(u32) -> Option<CpuidResult>,
    now: u64,
)
    requires
        old(log).count < u64::MAX,
        call_ensures(count_guest_exit::<C, T>, (log, cpuid, rdtsc, cpu_index, exit_code), r),
        leaves_are(*cpuid, leaves),
        forall|tsc: u64| #[trigger] call_ensures(rdtsc, (), tsc) ==> tsc == now,
    ensures
        exit_counted(
            *old(log),
            *final(log),
            cpu_index,
            exit_code,
            hz_at(leaves, old(log).clock),
            now,
            r.1,
        ),
        r.0 is Some <==> !old(log).clock.probed && !old(log).clock.logged,
        r.0 matches Some(probe) ==> report_of(leaves, probe),
{
    lemma_beats(
        *cpuid,
        rdtsc,
        *old(log),
        *final(log),
        cpu_index,
        exit_code,
        r.0,
        r.1,
        leaves,
        now,
    );
}

/// Two heartbeats are at least 30 seconds apart, as long as 30 seconds are less
/// than the counter can tell, and the first exit after 30 seconds gives one.
pub proof fn heartbeats_are_30_seconds_apart<
    C: Fn(u32, u32) -> Option<CpuidResult>,
    T: FnOnce() -> u64,
>(
    log: &mut ExitLog,
    cpuid: &C,
    rdtsc: T,
    cpu_index: usize,
    exit_code: GuestVMExit,
    r: (Option<TscProbe>, Option<Heartbeat>),
    now: u64,
)
    requires
        old(log).count < u64::MAX,
        old(log).clock.probed && old(log).clock.hz > 0,
        old(log).last_log_tsc != 0,
        30 * old(log).clock.hz <= u64::MAX,
        call_ensures(count_guest_exit::<C, T>, (log, cpuid, rdtsc, cpu_index, exit_code), r),
        forall|tsc: u64| #[trigger] call_ensures(rdtsc, (), tsc) ==> tsc == now,
    ensures
        r.1 is Some <==> ticks(old(log).last_log_tsc, now) >= 30 * old(log).clock.hz,
{
    let last = old(log).last_log_tsc;
    assert(ticks(last, now) == elapsed(last, now));
}

/// An exit is counted, and gives a heartbeat when one is due. With a heartbeat,
/// and not without, the guest's banner is looked for.
pub proof fn exit_is_counted_and_looked_into<
    F: Fn(PhysAddr, usize) -> Option<Vec<u8>>,
    C: Fn(u32, u32) -> Option<CpuidResult>,
    T: FnOnce() -> u64,
>(
    log: &mut ExitLog,
    symbols: &mut GuestSymbols,
    copy: &F,
    cpuid: &C,
    rdtsc: T,
    format: &PageTableFormat,
    cpu_index: usize,
    exit_code: GuestVMExit,
    ctx: GuestSymbolContext,
    report: ExitReport,
    leaves: spec_fn(u32) -> Option<CpuidResult>,
    now: u64,
    mem: spec_fn(PhysAddr, usize) -> Option<Seq<u8>>,
)
    requires
        old(log).count < u64::MAX,
        old(symbols).wf(),
        call_ensures(
            maybe_log_guest_exit::<F, C, T>,
            (log, symbols, copy, cpuid, rdtsc, format, cpu_index, exit_code, ctx),
            report,
        ),
        leaves_are(*cpuid, leaves),
        forall|tsc: u64| #[trigger] call_ensures(rdtsc, (), tsc) ==> tsc == now,
        stands_still(*copy, mem),
    ensures
        exit_counted(
            *old(log),
            *final(log),
            cpu_index,
            exit_code,
            hz_at(leaves, old(log).clock),
            now,
            report.heartbeat,
        ),
        report.probe is Some <==> !old(log).clock.probed && !old(log).clock.logged,
        report.probe matches Some(probe) ==> report_of(leaves, probe),
        report.heartbeat is None ==> report.banner is None && final(symbols)@ == old(symbols)@,
        report.heartbeat is Some ==> resolved_to(
            mem,
            *format,
            ctx,
            old(symbols)@,
            final(symbols)@,
            report.banner,
        ),
{
    lemma_beats(
        *cpuid,
        rdtsc,
        *old(log),
        *final(log),
        cpu_index,
        exit_code,
        report.probe,
        report.heartbeat,
        leaves,
        now,
    );
    if report.heartbeat is Some {
        lemma_resolved(
            *copy,
            mem,
            *format,
            ctx,
            old(symbols)@,
            final(symbols)@,
            report.banner,
        );
    }
}

/// Nothing has been counted at first, and nothing is known of the counter.
pub proof fn nothing_is_counted_at_first(log: ExitLog, clock: TscClock)
    requires
        call_ensures(ExitLog::new, (), log),
        call_ensures(TscClock::new, (), clock),
    ensures
        log.count == 0 && log.last_log_tsc == 0 && !log.clock.probed && !log.clock.logged,
        !clock.probed && !clock.logged,
{
}

/// Powers of two are told from other numbers.
pub proof fn powers_of_two_are_told(n: u64, r: bool)
    requires
        call_ensures(is_power_of_two, (n,), r),
    ensures
        r <==> exists|k: nat| n == #[trigger] pow2(k),
{
}

/// Taking the request flag may give `r`. Without an area the guest has set none.
/// With one, the area is read, and written back with the flag clear and all else as
/// it was; if both go well, `r` tells whether the flag was set, and otherwise what
/// went wrong.
pub open spec fn flag_told<
    R: FnOnce(VirtAddr) -> Result<SvsmCaa, SvsmReqError<C, E>>,
    W: FnOnce(VirtAddr, SvsmCaa) -> Result<(), SvsmReqError<C, E>>,
    C,
    E,
>(read: R, write: W, caa: Option<VirtAddr>, r: Result<bool, SvsmReqError<C, E>>) -> bool {
    match caa {
        None => r matches Ok(pending) && !pending,
        Some(at) => exists|x: Result<SvsmCaa, SvsmReqError<C, E>>| #[trigger]
            call_ensures(read, (at,), x) && match x {
                Err(error) => r matches Err(e) && e == error,
                Ok(area) => exists|w: Result<(), SvsmReqError<C, E>>| #[trigger]
                    call_ensures(
                        write,
                        (at, SvsmCaa { call_pending: false, rest: area.rest }),
                        w,
                    ) && match w {
                        Err(error) => r matches Err(e) && e == error,
                        Ok(_) => r matches Ok(pending) && pending == area.call_pending,
                    },
            },
    }
}

proof fn lemma_flag_told<
    R: FnOnce(VirtAddr) -> Result<SvsmCaa, SvsmReqError<C, E>>,
    W: FnOnce(VirtAddr, SvsmCaa) -> Result<(), SvsmReqError<C, E>>,
    C,
    E,
>(read: R, write: W, caa: Option<VirtAddr>, r: Result<bool, SvsmReqError<C, E>>)
    requires
        takes_flag(read, write, caa, r),
    ensures
        flag_told(read, write, caa, r),
{
    if let Some(at) = caa {
        let x = choose|x: Result<SvsmCaa, SvsmReqError<C, E>>| #[trigger]
            call_ensures(read, (at,), x) && match x {
                Err(error) => r == Err::<bool, SvsmReqError<C, E>>(error),
                Ok(area) => exists|w: Result<(), SvsmReqError<C, E>>| #[trigger]
                    call_ensures(write, (at, area.taken()), w) && r == match w {
                        Err(error) => Err::<bool, SvsmReqError<C, E>>(error),
                        Ok(_) => Ok(area.call_pending),
                    },
            };
        if let Ok(area) = x {
            assert(area.taken() == SvsmCaa { call_pending: false, rest: area.rest });
        }
    }
}

/// Taking the request flag tells whether the guest had set it, and clears it.
pub proof fn flag_is_told_and_cleared<
    R: FnOnce(VirtAddr) -> Result<SvsmCaa, SvsmReqError<C, E>>,
    W: FnOnce(VirtAddr, SvsmCaa) -> Result<(), SvsmReqError<C, E>>,
    C,
    E,
>(
    read: R,
    write: W,
    caa: Option<VirtAddr>,
    area: SvsmCaa,
    serviced: SvsmCaa,
    r: Result<bool, SvsmReqError<C, E>>,
)
    requires
        call_ensures(get_and_clear_caa_request_flag::<R, W, C, E>, (read, write, caa), r),
        call_ensures(SvsmCaa::serviced, (area,), serviced),
    ensures
        flag_told(read, write, caa, r),
        !serviced.call_pending && serviced.rest == area.rest,
{
    lemma_flag_told(read, write, caa, r);
}

/// What becomes of a request with this protocol and number, and how the flag was
/// taken.
pub open spec fn request_became<P, C, E>(
    protocol: u32,
    request: u32,
    params: P,
    flag: Result<bool, SvsmReqError<C, E>>,
    r: RequestOutcome<P, C, E>,
) -> bool {
    match flag {
        Ok(pending) => if pending {
            r matches RequestOutcome::Message(GuestExitMessage::Svsm((p, n, with))) && p
                == protocol && n == request && with == params
        } else {
            r is Nothing
        },
        Err(SvsmReqError::RequestError(code)) => r matches RequestOutcome::SoftError {
            protocol: p,
            request: n,
            code: c,
        } && p == protocol && n == request && c == code,
        Err(SvsmReqError::FatalError(error)) => r matches RequestOutcome::Fatal {
            request: n,
            error: e,
        } && n == request && e == error,
    }
}

/// A request names its protocol in the high half of the register and its number
/// in the low half. A guest that has set its flag has made it; otherwise there is
/// none, or it failed as taking the flag did.
pub proof fn request_is_told_by_register_and_flag<P, C, E>(
    vmsa: &Vmsa,
    protocol: u32,
    request: u32,
    params: P,
    flag: Result<bool, SvsmReqError<C, E>>,
    r: RequestOutcome<P, C, E>,
)
    requires
        vmsa.rax == protocol * 0x1_0000_0000 + request,
        call_ensures(request_outcome::<P, C, E>, (vmsa, params, flag), r),
    ensures
        request_became(protocol, request, params, flag, r),
{
}

/// The request of a guest is taken if the guest called the monitor, and not on
/// any other exit.
pub proof fn request_is_taken_on_calls_only<
    P,
    R: FnOnce(VirtAddr) -> Result<SvsmCaa, SvsmReqError<C, E>>,
    W: FnOnce(VirtAddr, SvsmCaa) -> Result<(), SvsmReqError<C, E>>,
    C,
    E,
>(
    vmsa: &Vmsa,
    protocol: u32,
    request: u32,
    params: P,
    read: R,
    write: W,
    caa: Option<VirtAddr>,
    r: RequestOutcome<P, C, E>,
)
    requires
        vmsa.rax == protocol * 0x1_0000_0000 + request,
        call_ensures(
            get_svsm_request_message::<P, R, W, C, E>,
            (vmsa, params, read, write, caa),
            r,
        ),
    ensures
        vmsa.guest_exit_code != GuestVMExit::VMGEXIT ==> r is Nothing,
        vmsa.guest_exit_code == GuestVMExit::VMGEXIT ==> exists|
            flag: Result<bool, SvsmReqError<C, E>>,
        | #[trigger]
            flag_told(read, write, caa, flag) && request_became(
                protocol,
                request,
                params,
                flag,
                r,
            ),
{
    if vmsa.guest_exit_code == GuestVMExit::VMGEXIT {
        let flag = choose|flag: Result<bool, SvsmReqError<C, E>>| #[trigger]
            takes_flag(read, write, caa, flag) && r == outcome_of(*vmsa, params, flag);
        lemma_flag_told(read, write, caa, flag);
        assert(request_became(protocol, request, params, flag, r));
    }
}

/// What has become of a request is reported as it is: its message, or that there
/// is none; of a fatal error nothing is.
pub proof fn outcome_is_reported<P, C, E>(
    outcome: RequestOutcome<P, C, E>,
    r: Option<GuestReply<P>>,
)
    requires
        call_ensures(request_reply::<P, C, E>, (outcome,), r),
    ensures
        match outcome {
            RequestOutcome::Message(message) => r matches Some(GuestReply::Request(Some(m))) && m
                == message,
            RequestOutcome::Nothing => r matches Some(GuestReply::Request(None)),
            RequestOutcome::SoftError { .. } => r matches Some(GuestReply::Request(None)),
            RequestOutcome::Fatal { .. } => r is None,
        },
{
}

/// The marks tell whether it is the first time, on this processor, that the guest
/// is entered, and that it stops. Each set of marks is looked at and set once in
/// a round, as `log_once_for_cpu` does it, and left alone otherwise.
pub proof fn marks_tell_the_first_time<R, P>(
    run: &mut GuestRun<R, P>,
    seen: &mut SeenCpus,
    reply: GuestReply<P>,
    action: GuestAction<R, P>,
    entered: &mut u64,
    first_entry: bool,
    returned: &mut u64,
    first_return: bool,
    cpu_index: usize,
)
    requires
        answers(old(run).phase, reply),
        call_ensures(enter_guest::<R, P>, (run, seen, reply), action),
        *old(entered) == old(seen).entered,
        call_ensures(log_once_for_cpu, (entered, old(run).cpu_index), first_entry),
        *old(returned) == old(seen).returned,
        call_ensures(log_once_for_cpu, (returned, old(run).cpu_index), first_return),
    ensures
        action is LogEntry ==> first_entry && old(run).phase is FlushTlb,
        old(run).phase is FlushTlb ==> {
            &&& action is LogEntry <==> first_entry
            &&& action is SwitchToGuest <==> !first_entry
            &&& unseen(final(seen).entered, cpu_index) == unseen(*final(entered), cpu_index)
        },
        !(old(run).phase is FlushTlb) ==> final(seen).entered == old(seen).entered,
        action is LogReturn ==> first_return && old(run).phase is ReadExit,
        old(run).phase is ReadExit ==> {
            &&& action is LogReturn <==> first_return
            &&& action is DisableVmsa <==> !first_return
            &&& unseen(final(seen).returned, cpu_index) == unseen(*final(returned), cpu_index)
        },
        !(old(run).phase is ReadExit) ==> final(seen).returned == old(seen).returned,
{
    if cpu_index < 64 && old(run).cpu_index < 64 {
        let i = cpu_index as int;
        let own = old(run).cpu_index;
        assert(logged(*final(entered), i) == (logged(*old(entered), i) || i == own));
        assert(logged(*final(returned), i) == (logged(*old(returned), i) || i == own));
        if old(run).phase is FlushTlb {
            assert(logged(final(seen).entered, i) == (logged(old(seen).entered, i) || i == own));
        }
        if old(run).phase is ReadExit {
            assert(logged(final(seen).returned, i) == (logged(old(seen).returned, i) || i == own));
        }
    }
}

/// Once the processor was probed, no leaf is asked for, and without a frequency
/// the clock is not read: any routines will do for them.
pub proof fn known_clock_asks_for_nothing<
    C: Fn(u32, u32) -> Option<CpuidResult>,
    T: FnOnce() -> u64,
>(clock: &mut TscClock, log: &mut ExitLog, cpuid: &C, rdtsc: T, cpu_index: usize, code: GuestVMExit)
    requires
        old(clock).probed,
        old(log).clock.probed && old(log).clock.hz == 0,
        old(log).count < u64::MAX,
    ensures
        call_requires(tsc_hz::<C>, (clock, cpuid)),
        call_requires(count_guest_exit::<C, T>, (log, cpuid, rdtsc, cpu_index, code)),
{
}

/// A probe asks for the highest leaves, and for another only where the processor or
/// the hypervisor has it and those before it have given no frequency. The clock is
/// read only with a frequency. Nothing else has to be possible.
pub proof fn probe_asks_for_what_it_needs<
    C: Fn(u32, u32) -> Option<CpuidResult>,
    T: FnOnce() -> u64,
>(
    clock: &mut TscClock,
    log: &mut ExitLog,
    cpuid: &C,
    rdtsc: T,
    cpu_index: usize,
    code: GuestVMExit,
    leaves: spec_fn(u32) -> Option<CpuidResult>,
)
    requires
        leaves_are(*cpuid, leaves),
        call_requires(*cpuid, (0u32, 0u32)),
        call_requires(*cpuid, (0x4000_0000u32, 0u32)),
        eax_of(leaves(0)) >= 0x15 ==> call_requires(*cpuid, (0x15u32, 0u32)),
        eax_of(leaves(0)) >= 0x16 && hz_by_crystal(leaves) == 0 ==> call_requires(
            *cpuid,
            (0x16u32, 0u32),
        ),
        eax_of(leaves(0x4000_0000)) >= 0x4000_0010 && hz_by_crystal(leaves) == 0 && hz_by_base(
            leaves,
        ) == 0 ==> call_requires(*cpuid, (0x4000_0010u32, 0u32)),
        old(log).count < u64::MAX,
        hz_at(leaves, old(log).clock) != 0 ==> call_requires(rdtsc, ()),
    ensures
        call_requires(tsc_hz::<C>, (clock, cpuid)),
        call_requires(count_guest_exit::<C, T>, (log, cpuid, rdtsc, cpu_index, code)),
{
    assert(may_probe(*cpuid));
    assert forall|after: TscClock, hz: u64, probe: Option<TscProbe>| #[trigger]
        gives_frequency(*cpuid, old(log).clock, after, hz, probe) && hz != 0 implies call_requires(
        rdtsc,
        (),
    ) by {
        lemma_frequency(*cpuid, leaves, old(log).clock, after, hz, probe);
    }
}

/// An exit without a heartbeat reads no guest memory, and neither does one with the
/// banner known or being looked for: any routine will do to copy it.
pub proof fn quiet_exit_reads_no_memory<
    F: Fn(PhysAddr, usize) -> Option<Vec<u8>>,
    C: Fn(u32, u32) -> Option<CpuidResult>,
    T: FnOnce() -> u64,
>(
    log: &mut ExitLog,
    symbols: &mut GuestSymbols,
    copy: &F,
    cpuid: &C,
    rdtsc: T,
    format: &PageTableFormat,
    cpu_index: usize,
    code: GuestVMExit,
    ctx: GuestSymbolContext,
)
    requires
        old(log).count < u64::MAX,
        old(symbols).wf(),
        old(log).clock.probed && old(log).clock.hz == 0,
        ({
            ||| old(log).count >= 8 && forall|k: nat| old(log).count + 1 != #[trigger] pow2(k)
            ||| old(symbols)@.banner_gva != 0
            ||| old(symbols)@.scan_in_progress
        }),
    ensures
        call_requires(
            maybe_log_guest_exit::<F, C, T>,
            (log, symbols, copy, cpuid, rdtsc, format, cpu_index, code, ctx),
        ),
{
}

/// The calling area is not touched where there is none, nor on an exit that is no
/// call of the monitor: any routines will do. Otherwise it has to be possible to
/// read it, and to write it as it was read with the flag clear, and no more.
pub proof fn area_is_touched_for_requests_only<
    P,
    R: FnOnce(VirtAddr) -> Result<SvsmCaa, SvsmReqError<C, E>>,
    W: FnOnce(VirtAddr, SvsmCaa) -> Result<(), SvsmReqError<C, E>>,
    C,
    E,
>(vmsa: &Vmsa, params: P, read: R, write: W, caa: Option<VirtAddr>)
    requires
        vmsa.guest_exit_code != GuestVMExit::VMGEXIT || (caa matches Some(at) ==> {
            &&& call_requires(read, (at,))
            &&& forall|area: SvsmCaa|
                call_ensures(read, (at,), Ok::<SvsmCaa, SvsmReqError<C, E>>(area))
                    ==> #[trigger] call_requires(
                    write,
                    (at, SvsmCaa { call_pending: false, rest: area.rest }),
                )
        }),
    ensures
        call_requires(
            get_svsm_request_message::<P, R, W, C, E>,
            (vmsa, params, read, write, caa),
        ),
        vmsa.guest_exit_code == GuestVMExit::VMGEXIT ==> call_requires(
            get_and_clear_caa_request_flag::<R, W, C, E>,
            (read, write, caa),
        ),
        caa is None ==> call_requires(
            get_and_clear_caa_request_flag::<R, W, C, E>,
            (read, write, caa),
        ),
{
    if vmsa.guest_exit_code == GuestVMExit::VMGEXIT {
        if let Some(at) = caa {
            assert forall|area: SvsmCaa| #[trigger]
                call_ensures(read, (at,), Ok::<SvsmCaa, SvsmReqError<C, E>>(area)) implies
                call_requires(write, (at, area.taken())) by {
                let clear = SvsmCaa { call_pending: false, rest: area.rest };
                assert(area.taken() == clear);
                assert(call_requires(write, (at, clear)));
            }
        }
    }
}

/// These decide on any input, and a step of a call on any reply to what was asked.
pub proof fn decisions_take_any_input<R, P, C, E>(
    mask: &mut u64,
    cpu_index: usize,
    n: u64,
    vmsa: &Vmsa,
    params: P,
    flag: Result<bool, SvsmReqError<C, E>>,
    outcome: RequestOutcome<P, C, E>,
    run: &mut GuestRun<R, P>,
    seen: &mut SeenCpus,
    reply: GuestReply<P>,
)
    requires
        ({
            let asked = old(run).phase;
            match reply {
                GuestReply::Done => !(asked is MapBeforeEntry || asked is MapAfterExit
                    || asked is ReadCaa || asked is ReadExit || asked is TakeRequest
                    || asked is Returned),
                GuestReply::Mapped(_) => asked is MapBeforeEntry || asked is MapAfterExit,
                GuestReply::Caa(_) => asked is ReadCaa,
                GuestReply::Exit(_) => asked is ReadExit,
                GuestReply::Request(message) => asked is TakeRequest && (message is None
                    || message->0 is Svsm),
            }
        }),
    ensures
        call_requires(log_once_for_cpu, (mask, cpu_index)),
        call_requires(is_power_of_two, (n,)),
        call_requires(request_outcome::<P, C, E>, (vmsa, params, flag)),
        call_requires(request_reply::<P, C, E>, (outcome,)),
        call_requires(enter_guest::<R, P>, (run, seen, reply)),
{
}

/// A request ends the call with its message, and without one the guest is
/// entered again.
pub proof fn request_ends_the_call<R, P>(
    message: Option<GuestExitMessage<P>>,
    log_entry: bool,
    log_return: bool,
    regs: Seq<R>,
    action: GuestAction<R, P>,
)
    requires
        ({
            let unlock = next_phase(
                GuestPhase::TakeRequest,
                GuestReply::Request(message),
                log_entry,
                log_return,
            );
            asks_for(
                unlock,
                next_phase(unlock, GuestReply::Done, log_entry, log_return),
                regs,
                action,
            )
        }),
    ensures
        match message {
            Some(message) => action == GuestAction::<R, P>::Return(message),
            None => action is LockVmsa,
        },
{
}

/// The emulated interrupt controller is brought up to date for the calling area
/// that the guest had when its saved state was taken hold of.
pub proof fn controller_knows_the_area<R, P>(
    caa: Option<VirtAddr>,
    log_entry: bool,
    log_return: bool,
    regs: Seq<R>,
    action: GuestAction<R, P>,
)
    requires
        ({
            let done = GuestReply::<P>::Done;
            let set = next_phase(
                GuestPhase::<P>::ReadCaa,
                GuestReply::Caa(caa),
                log_entry,
                log_return,
            );
            let disabled = next_phase(set, done, log_entry, log_return);
            asks_for(disabled, next_phase(disabled, done, log_entry, log_return), regs, action)
        }),
    ensures
        action == GuestAction::<R, P>::UpdateApicEmulation(caa),
{
}

/// What is logged of an exit is what the saved state said when the guest
/// stopped, before intercepts were handled.
pub proof fn exit_is_logged_as_it_was<R, P>(
    vmsa: Vmsa,
    log_entry: bool,
    log_return: bool,
    regs: Seq<R>,
    action: GuestAction<R, P>,
)
    requires
        ({
            let done = GuestReply::<P>::Done;
            let read = next_phase(
                GuestPhase::<P>::ReadExit,
                GuestReply::Exit(vmsa),
                log_entry,
                log_return,
            );
            let disabled = if log_return {
                next_phase(read, done, log_entry, log_return)
            } else {
                read
            };
            let handled = next_phase(disabled, done, log_entry, log_return);
            asks_for(handled, next_phase(handled, done, log_entry, log_return), regs, action)
        }),
    ensures
        action == GuestAction::<R, P>::LogGuestExit(stop_of(vmsa)),
{
}

/// After a processor has been seen it stays seen, and no other is affected.
pub proof fn processor_is_logged_once(before: u64, cpu_index: usize, after: u64, other: usize)
    requires
        now_seen(before, cpu_index, after),
        other != cpu_index,
    ensures
        !unseen(after, cpu_index),
        unseen(after, other) == unseen(before, other),
{
    if cpu_index < 64 {
        assert(logged(after, cpu_index as int));
        if other < 64 {
            assert(logged(after, other as int) == logged(before, other as int));
        }
    }
}

/// With a known frequency, a heartbeat comes no sooner than the interval after
/// the last, and exits without one leave the time of the last as it is.
pub proof fn heartbeats_keep_their_distance<
    C: Fn(u32, u32) -> Option<CpuidResult>,
    T: FnOnce() -> u64,
>(
    cpuid: C,
    rdtsc: T,
    before: ExitLog,
    after: ExitLog,
    cpu_index: usize,
    exit_code: GuestVMExit,
    probe: Option<TscProbe>,
    heartbeat: Option<Heartbeat>,
)
    requires
        beats(cpuid, rdtsc, before, after, cpu_index, exit_code, probe, heartbeat),
        before.last_log_tsc != 0,
    ensures
        heartbeat is None ==> after.last_log_tsc == before.last_log_tsc,
        heartbeat matches Some(beat) ==> (beat.clock matches Some((now, hz)) ==> {
            &&& ticks(before.last_log_tsc, now) >= 30 * hz || ticks(before.last_log_tsc, now)
                == u64::MAX
            &&& after.last_log_tsc == now
            &&& after.clock.hz == hz
        }),
{
    if let Some(beat) = heartbeat {
        if let Some((now, hz)) = beat.clock {
            assert(ticks(before.last_log_tsc, now) == elapsed(before.last_log_tsc, now));
        }
    }
}

/// Where the processor was probed and gave no frequency, the first eight exits
/// give a heartbeat each, and after them those whose number is a power of two.
pub proof fn heartbeats_thin_out<C: Fn(u32, u32) -> Option<CpuidResult>, T: FnOnce() -> u64>(
    cpuid: C,
    rdtsc: T,
    before: ExitLog,
    after: ExitLog,
    cpu_index: usize,
    exit_code: GuestVMExit,
    probe: Option<TscProbe>,
    heartbeat: Option<Heartbeat>,
)
    requires
        beats(cpuid, rdtsc, before, after, cpu_index, exit_code, probe, heartbeat),
        before.clock.probed,
        before.clock.hz == 0,
    ensures
        heartbeat is Some <==> due_by_count(after.count),
        heartbeat matches Some(beat) ==> beat.count == after.count && beat.clock is None,
{
}

/// A request tells all of the register that named it.
pub proof fn request_names_its_register<P, C, E>(vmsa: Vmsa, params: P)
    ensures
        ({
            let flag = Ok::<bool, SvsmReqError<C, E>>(true);
            &&& outcome_of(vmsa, params, flag) matches RequestOutcome::Message(
                GuestExitMessage::Svsm((protocol, request, _)),
            )
            &&& vmsa.rax == protocol * 0x1_0000_0000 + request
        }),
{
}

/// A request is taken once. The first call tells whether there was one. It writes
/// nothing but the area with the flag cleared; where the area holds that, a later
/// call finds no request in it, and the rest of the area as it was.
pub proof fn request_is_taken_once<
    R: FnOnce(VirtAddr) -> Result<SvsmCaa, SvsmReqError<C, E>>,
    W: FnOnce(VirtAddr, SvsmCaa) -> Result<(), SvsmReqError<C, E>>,
    S: FnOnce(VirtAddr) -> Result<SvsmCaa, SvsmReqError<C, E>>,
    X: FnOnce(VirtAddr, SvsmCaa) -> Result<(), SvsmReqError<C, E>>,
    C,
    E,
>(
    read: R,
    write: W,
    at: VirtAddr,
    area: SvsmCaa,
    first: bool,
    later_read: S,
    later_write: X,
    later: Result<bool, SvsmReqError<C, E>>,
)
    requires
        forall|r: SvsmCaa| #[trigger]
            call_ensures(read, (at,), Ok::<SvsmCaa, SvsmReqError<C, E>>(r)) ==> r == area,
        takes_flag(read, write, Some(at), Ok::<bool, SvsmReqError<C, E>>(first)),
        forall|r: SvsmCaa| #[trigger]
            call_ensures(later_read, (at,), Ok::<SvsmCaa, SvsmReqError<C, E>>(r)) ==> r
                == area.taken(),
        takes_flag(later_read, later_write, Some(at), later),
    ensures
        first == area.call_pending,
        later matches Ok(pending) ==> !pending,
        forall|r: SvsmCaa| #[trigger]
            call_ensures(later_read, (at,), Ok::<SvsmCaa, SvsmReqError<C, E>>(r)) ==> r.rest
                == area.rest,
{
}

} // verus!
