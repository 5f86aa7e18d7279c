use svsm_vmm::address::VirtAddr;
use svsm_vmm::execloop::{request_outcome, RequestOutcome};
use svsm_vmm::guest_run::{
    enter_guest, request_reply, GuestAction, GuestReply, GuestRun, SeenCpus,
};
use svsm_vmm::guest_symbols::GuestSymbolContext;
use svsm_vmm::message::{GuestExitMessage, SvsmReqError};
use svsm_vmm::vmsa::{GuestVMExit, Vmsa};

type Run = GuestRun<(u8, u64), &'static str>;

fn stopped() -> Vmsa {
    Vmsa { cr0: 1, cr3: 2, cr4: 3, efer: 4, rax: 5, guest_exit_code: GuestVMExit::Other(0x60) }
}

/// Carries out a call in which mapping the saved state and taking a request go
/// as given, and returns what was asked for, in words.
fn carry_out(
    run: &mut Run,
    seen: &mut SeenCpus,
    mut mapped: Vec<bool>,
    mut requests: Vec<Option<&'static str>>,
) -> (Vec<String>, GuestExitMessage<&'static str>) {
    let mut asked = Vec::new();
    let mut areas = 0;
    let mut reply = GuestReply::Done;
    loop {
        let action = enter_guest(run, seen, reply);
        asked.push(format!("{:?}", action));
        reply = match action {
            GuestAction::UpdateMappings => GuestReply::Mapped(mapped.remove(0)),
            GuestAction::ReadCaa => {
                areas += 1;
                GuestReply::Caa(Some(VirtAddr(0x1000 * areas)))
            }
            GuestAction::UpdateApicEmulation(caa) => {
                assert_eq!(caa, Some(VirtAddr(0x1000 * areas)));
                GuestReply::Done
            }
            GuestAction::ReadExit => GuestReply::Exit(stopped()),
            GuestAction::TakeRequest => GuestReply::Request(
                requests.remove(0).map(|params| GuestExitMessage::Svsm((1, 2, params))),
            ),
            GuestAction::LogGuestExit(stop) => {
                assert_eq!(stop.exit_code, GuestVMExit::Other(0x60));
                assert_eq!(
                    stop.ctx,
                    GuestSymbolContext { cr0: 1, cr3: 2, cr4: 3, efer: 4 }
                );
                GuestReply::Done
            }
            GuestAction::Return(message) => return (asked, message),
            _ => GuestReply::Done,
        };
    }
}

fn unseen() -> SeenCpus {
    SeenCpus { entered: 0, returned: 0 }
}

#[test]
fn first_request() {
    let mut run: Run = GuestRun::new(2, vec![(1, 10), (2, 20)]);
    let mut seen = unseen();
    let (asked, message) = carry_out(&mut run, &mut seen, vec![true, true], vec![Some("p")]);
    assert_eq!(message, GuestExitMessage::Svsm((1, 2, "p")));
    assert_eq!(
        asked,
        vec![
            "UpdateMappings",
            "LockVmsa",
            "ReadCaa",
            "SetRegisters([(1, 10), (2, 20)])",
            "DisableInterrupts",
            "UpdateApicEmulation(Some(VirtAddr(4096)))",
            "EnableVmsa",
            "UnlockVmsa",
            "FlushTlb",
            "LogEntry",
            "SwitchToGuest",
            "EnableInterrupts",
            "UpdateMappings",
            "LockVmsa",
            "ReadExit",
            "LogReturn(Other(96))",
            "DisableVmsa",
            "HandleIntercepts",
            "LogGuestExit(GuestStop { exit_code: Other(96), ctx: GuestSymbolContext { cr0: 1, cr3: 2, cr4: 3, efer: 4 } })",
            "TakeRequest",
            "UnlockVmsa",
            "Return(Svsm((1, 2, \"p\")))",
        ]
    );
    assert_eq!(seen, SeenCpus { entered: 4, returned: 4 });
}

#[test]
fn registers_are_set_the_first_time_round() {
    let mut run: Run = GuestRun::new(2, vec![(1, 10)]);
    let mut seen = SeenCpus { entered: 4, returned: 4 };
    let (asked, _) =
        carry_out(&mut run, &mut seen, vec![true, true, true], vec![None, Some("q")]);
    let set: Vec<&String> = asked.iter().filter(|a| a.starts_with("SetRegisters")).collect();
    assert_eq!(set, vec!["SetRegisters([(1, 10)])", "SetRegisters([])"]);
    assert!(!asked.iter().any(|a| a == "LogEntry" || a.starts_with("LogReturn")));
    assert_eq!(asked.iter().filter(|a| *a == "SwitchToGuest").count(), 2);
}

#[test]
fn no_saved_state() {
    let mut run: Run = GuestRun::new(0, vec![(1, 10)]);
    let (asked, message) = carry_out(&mut run, &mut unseen(), vec![false], vec![]);
    assert_eq!(message, GuestExitMessage::NoMappings);
    assert_eq!(asked, vec!["UpdateMappings", "Return(NoMappings)"]);
}

#[test]
fn saved_state_goes_away() {
    let mut run: Run = GuestRun::new(0, vec![]);
    let (asked, message) = carry_out(&mut run, &mut unseen(), vec![true, false], vec![]);
    assert_eq!(message, GuestExitMessage::NoMappings);
    let tail: Vec<&String> = asked.iter().rev().take(3).collect();
    assert_eq!(tail, vec!["Return(NoMappings)", "UpdateMappings", "EnableInterrupts"]);
}

#[test]
fn guest_never_runs_unguarded() {
    let mut run: Run = GuestRun::new(70, vec![]);
    let (asked, _) =
        carry_out(&mut run, &mut unseen(), vec![true; 4], vec![None, None, Some("r")]);
    let mut interrupts_off = false;
    let mut held = false;
    for action in asked.iter() {
        match action.as_str() {
            "LockVmsa" => held = true,
            "UnlockVmsa" => held = false,
            "DisableInterrupts" => interrupts_off = true,
            "EnableInterrupts" => interrupts_off = false,
            "SwitchToGuest" => assert!(interrupts_off && !held),
            "ReadCaa" => assert!(held),
            other if other.starts_with("UpdateApicEmulation") => {
                assert!(interrupts_off && held)
            }
            _ => {}
        }
    }
    assert!(!interrupts_off && !held);
    assert!(!asked.iter().any(|a| a == "LogEntry"));
}

type Outcome = RequestOutcome<&'static str, u64, &'static str>;

#[test]
fn outcomes_are_reported() {
    let message = GuestExitMessage::Svsm((3, 4, "p"));
    let reply = request_reply::<_, u64, &str>(RequestOutcome::Message(message)).unwrap();
    assert!(matches!(
        reply,
        GuestReply::Request(Some(GuestExitMessage::Svsm((3, 4, "p"))))
    ));
    let nothing: Outcome = RequestOutcome::Nothing;
    assert!(matches!(request_reply(nothing), Some(GuestReply::Request(None))));
    let soft: Outcome = RequestOutcome::SoftError { protocol: 3, request: 4, code: 9 };
    assert!(matches!(request_reply(soft), Some(GuestReply::Request(None))));
    let fatal: Outcome = RequestOutcome::Fatal { request: 4, error: "gone" };
    assert!(request_reply(fatal).is_none());
}

#[test]
fn first_request_is_returned() {
    let mut flags = vec![Ok(false), Err(SvsmReqError::RequestError(7)), Ok(true), Ok(true)];
    let mut run: Run = GuestRun::new(0, vec![]);
    let mut seen = unseen();
    let mut stop = stopped();
    stop.guest_exit_code = GuestVMExit::VMGEXIT;
    let mut exits = 0;
    let mut reply = GuestReply::Done;
    let message = loop {
        reply = match enter_guest(&mut run, &mut seen, reply) {
            GuestAction::UpdateMappings => GuestReply::Mapped(true),
            GuestAction::ReadCaa => GuestReply::Caa(None),
            GuestAction::ReadExit => GuestReply::Exit(stop),
            GuestAction::TakeRequest => {
                exits += 1;
                stop.rax = 0x1_0000_0000 * exits;
                let flag: Result<bool, SvsmReqError<u64, &'static str>> = flags.remove(0);
                request_reply(request_outcome(&stop, "p", flag)).unwrap()
            }
            GuestAction::Return(message) => break message,
            _ => GuestReply::Done,
        };
    };
    assert_eq!(message, GuestExitMessage::Svsm((3, 0, "p")));
    assert_eq!(flags.len(), 1);
}
