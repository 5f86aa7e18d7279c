use std::cell::RefCell;
use svsm_vmm::address::{PhysAddr, VirtAddr};
use svsm_vmm::execloop::{
    count_guest_exit, get_and_clear_caa_request_flag, get_svsm_request_message, is_power_of_two,
    log_once_for_cpu, maybe_log_guest_exit, request_outcome, tsc_hz, CpuidResult, ExitLog, ExitReport,
    RequestOutcome, TscClock,
};
use svsm_vmm::guest_symbols::{begin_banner_search, GuestSymbolContext, GuestSymbols};
use svsm_vmm::message::{GuestExitMessage, SvsmCaa, SvsmReqError};
use svsm_vmm::paging::{PageTableFormat, ReservedBits};
use svsm_vmm::vmsa::{GuestVMExit, Vmsa};

type Error = SvsmReqError<u64, &'static str>;

fn leaf(eax: u32, ebx: u32, ecx: u32) -> Option<CpuidResult> {
    Some(CpuidResult { eax, ebx, ecx, edx: 0 })
}

fn vmsa(rax: u64, guest_exit_code: GuestVMExit) -> Vmsa {
    Vmsa { cr0: 1, cr3: 0, cr4: 0, efer: 0, rax, guest_exit_code }
}

fn area(call_pending: bool) -> SvsmCaa {
    SvsmCaa { call_pending, rest: [1, 2, 3, 4, 5, 6, 7] }
}

#[test]
fn each_processor_is_logged_once() {
    let mut mask = 0u64;
    assert!(log_once_for_cpu(&mut mask, 3));
    assert_eq!(mask, 8);
    assert!(!log_once_for_cpu(&mut mask, 3));
    assert!(log_once_for_cpu(&mut mask, 0));
    assert!(log_once_for_cpu(&mut mask, 63));
    assert_eq!(mask, 0x8000_0000_0000_0009);
    assert!(!log_once_for_cpu(&mut mask, 64));
    assert_eq!(mask, 0x8000_0000_0000_0009);
}

#[test]
fn frequency_from_the_crystal() {
    let cpuid = |l: u32, _: u32| match l {
        0 => leaf(0x20, 0, 0),
        0x4000_0000 => leaf(0x4000_0010, 0, 0),
        0x15 => leaf(2, 250, 24_000_000),
        other => panic!("leaf {:#x}", other),
    };
    let mut clock = TscClock::new();
    let (hz, report) = tsc_hz(&mut clock, &cpuid);
    assert_eq!(hz, 3_000_000_000);
    let report = report.unwrap();
    assert_eq!(report.hz, 3_000_000_000);
    assert_eq!(report.max_leaf, 0x20);
    assert_eq!(report.max_hypervisor_leaf, 0x4000_0010);
    assert_eq!(report.leaf15, leaf(2, 250, 24_000_000));
    assert_eq!(report.leaf16, None);
    assert_eq!(report.leaf40000010, None);
}

#[test]
fn frequency_is_probed_once() {
    let calls = RefCell::new(0);
    let cpuid = |l: u32, _: u32| {
        *calls.borrow_mut() += 1;
        match l {
            0 => leaf(0x16, 0, 0),
            0x15 => leaf(2, 0, 0),
            0x16 => leaf(0xffff_0bb8, 0, 0),
            _ => None,
        }
    };
    let mut clock = TscClock::new();
    let (hz, report) = tsc_hz(&mut clock, &cpuid);
    assert_eq!(hz, 3_000_000_000);
    assert!(report.is_some());
    let before = *calls.borrow();
    assert_eq!(tsc_hz(&mut clock, &cpuid), (3_000_000_000, None));
    assert_eq!(*calls.borrow(), before);
}

#[test]
fn frequency_from_the_hypervisor() {
    let cpuid = |l: u32, _: u32| match l {
        0 => leaf(0x10, 0, 0),
        0x4000_0000 => leaf(0x4000_0010, 0, 0),
        0x4000_0010 => leaf(2_500_000, 0, 0),
        other => panic!("leaf {:#x}", other),
    };
    assert_eq!(tsc_hz(&mut TscClock::new(), &cpuid).0, 2_500_000_000);
}

#[test]
fn frequency_falls_through() {
    // The crystal gives a quotient of 0, and the base frequency is 0.
    let cpuid = |l: u32, _: u32| match l {
        0 => leaf(0x16, 0, 0),
        0x4000_0000 => leaf(0x4000_0010, 0, 0),
        0x15 => leaf(100, 1, 1),
        0x16 => leaf(0x1_0000, 0, 0),
        0x4000_0010 => leaf(7, 0, 0),
        other => panic!("leaf {:#x}", other),
    };
    let (hz, report) = tsc_hz(&mut TscClock::new(), &cpuid);
    assert_eq!(hz, 7000);
    assert_eq!(report.unwrap().leaf16, leaf(0x1_0000, 0, 0));
}

#[test]
fn frequency_may_be_unknown() {
    let cpuid = |_: u32, _: u32| None;
    let (hz, report) = tsc_hz(&mut TscClock::new(), &cpuid);
    assert_eq!(hz, 0);
    assert_eq!(report.unwrap().max_leaf, 0);
}

#[test]
fn largest_crystal_product_fits() {
    let cpuid = |l: u32, _: u32| match l {
        0 => leaf(0x15, 0, 0),
        0x15 => leaf(1, u32::MAX, u32::MAX),
        _ => None,
    };
    assert_eq!(tsc_hz(&mut TscClock::new(), &cpuid).0, 0xffff_fffe_0000_0001);
}

#[test]
fn powers_of_two() {
    for n in 0..5000u64 {
        assert_eq!(is_power_of_two(n), n.is_power_of_two());
    }
    assert!(is_power_of_two(1 << 63));
    assert!(!is_power_of_two(u64::MAX));
}

fn exit(log: &mut ExitLog, hz: u32, now: u64) -> ExitReport {
    let none = ReservedBits { table: [0; 5], huge: [0; 5] };
    let format = PageTableFormat { confidentiality: 0, pml4: none, pml5: none };
    let ctx = GuestSymbolContext { cr0: 1, cr3: 0, cr4: 0, efer: 0 };
    let copy = |_: PhysAddr, _: usize| -> Option<Vec<u8>> { None };
    let cpuid = |l: u32, _: u32| match l {
        0 => leaf(0x15, 0, 0),
        0x15 => leaf(1, 1, hz),
        _ => None,
    };
    let rdtsc = || now;
    let mut symbols = GuestSymbols::new();
    maybe_log_guest_exit(
        log,
        &mut symbols,
        &copy,
        &cpuid,
        &rdtsc,
        &format,
        5,
        GuestVMExit::Other(0x60),
        ctx,
    )
}

#[test]
fn heartbeats_by_count() {
    let mut log = ExitLog::new();
    let mut beats = Vec::new();
    for _ in 0..70 {
        if let Some(beat) = exit(&mut log, 0, 1).heartbeat {
            assert_eq!(beat.clock, None);
            assert_eq!(beat.cpu_index, 5);
            assert_eq!(beat.exit_code, GuestVMExit::Other(0x60));
            beats.push(beat.count);
        }
    }
    assert_eq!(beats, vec![1, 2, 3, 4, 5, 6, 7, 8, 16, 32, 64]);
    assert_eq!(log.count, 70);
}

#[test]
fn heartbeats_by_clock() {
    let mut log = ExitLog::new();
    let first = exit(&mut log, 1000, 500);
    assert!(first.probe.is_some());
    assert_eq!(first.heartbeat.unwrap().clock, Some((500, 1000)));
    let second = exit(&mut log, 1000, 30_499);
    assert!(second.probe.is_none());
    assert!(second.heartbeat.is_none());
    assert_eq!(log.last_log_tsc, 500);
    let third = exit(&mut log, 1000, 30_500);
    assert_eq!(third.heartbeat.unwrap().count, 3);
    assert_eq!(log.last_log_tsc, 30_500);
}

#[test]
fn clock_may_start_over() {
    let mut log = ExitLog::new();
    log.last_log_tsc = u64::MAX - 9_999;
    assert!(exit(&mut log, 1000, 19_999).heartbeat.is_none());
    assert!(exit(&mut log, 1000, 20_000).heartbeat.is_some());
}

#[test]
fn long_interval_is_cut_off() {
    let mut log = ExitLog::new();
    log.last_log_tsc = 1;
    log.clock.probed = true;
    log.clock.hz = u64::MAX / 2;
    assert!(exit(&mut log, 0, u64::MAX).heartbeat.is_none());
    assert!(exit(&mut log, 0, 0).heartbeat.is_some());
}

#[test]
fn heartbeat_looks_for_the_banner() {
    let none = ReservedBits { table: [0; 5], huge: [0; 5] };
    let format = PageTableFormat { confidentiality: 0, pml4: none, pml5: none };
    let ctx = GuestSymbolContext { cr0: 1, cr3: 0, cr4: 0, efer: 0 };
    let copy = |gpa: PhysAddr, len: usize| -> Option<Vec<u8>> {
        let mut bytes = vec![0u8; len];
        if gpa.0 == 0xffff_ffff_0009_86c0 {
            bytes[..13].copy_from_slice(b"Linux version");
        }
        Some(bytes)
    };
    let cpuid = |_: u32, _: u32| None;
    let rdtsc = || 0u64;
    let code = GuestVMExit::VMGEXIT;
    let mut log = ExitLog::new();
    log.count = 8;
    let mut symbols = GuestSymbols::new();
    let silent = maybe_log_guest_exit(
        &mut log, &mut symbols, &copy, &cpuid, &rdtsc, &format, 0, code, ctx,
    );
    assert!(silent.heartbeat.is_none());
    assert!(silent.banner.is_none());
    log.count = 15;
    let report = maybe_log_guest_exit(
        &mut log, &mut symbols, &copy, &cpuid, &rdtsc, &format, 0, code, ctx,
    );
    assert_eq!(report.heartbeat.unwrap().count, 16);
    assert_eq!(report.banner.unwrap().banner_str(), "Linux version");
}

#[test]
fn flag_is_taken_and_cleared() {
    let stored = RefCell::new(area(true));
    let read = |at: VirtAddr| -> Result<SvsmCaa, Error> {
        assert_eq!(at, VirtAddr(0x1000));
        Ok(*stored.borrow())
    };
    let write = |at: VirtAddr, caa: SvsmCaa| -> Result<(), Error> {
        assert_eq!(at, VirtAddr(0x1000));
        *stored.borrow_mut() = caa;
        Ok(())
    };
    let at = Some(VirtAddr(0x1000));
    assert_eq!(get_and_clear_caa_request_flag(&read, &write, at), Ok(true));
    assert_eq!(*stored.borrow(), area(false));
    assert_eq!(get_and_clear_caa_request_flag(&read, &write, at), Ok(false));
    assert_eq!(get_and_clear_caa_request_flag(&read, &write, None), Ok(false));
}

#[test]
fn flag_errors_are_passed_on() {
    let bad_read = |_: VirtAddr| -> Result<SvsmCaa, Error> { Err(SvsmReqError::RequestError(7)) };
    let good_read = |_: VirtAddr| -> Result<SvsmCaa, Error> { Ok(area(true)) };
    let bad_write =
        |_: VirtAddr, _: SvsmCaa| -> Result<(), Error> { Err(SvsmReqError::FatalError("gone")) };
    let at = Some(VirtAddr(0));
    assert_eq!(
        get_and_clear_caa_request_flag(&bad_read, &bad_write, at),
        Err(SvsmReqError::RequestError(7))
    );
    assert_eq!(
        get_and_clear_caa_request_flag(&good_read, &bad_write, at),
        Err(SvsmReqError::FatalError("gone"))
    );
}

#[test]
fn requests_are_told_apart() {
    let stopped = vmsa(0x0000_0002_0000_0005, GuestVMExit::VMGEXIT);
    let outcome = |flag: Result<bool, Error>| request_outcome(&stopped, 'p', flag);
    assert_eq!(
        outcome(Ok(true)),
        RequestOutcome::Message(GuestExitMessage::Svsm((2, 5, 'p')))
    );
    assert_eq!(outcome(Ok(false)), RequestOutcome::Nothing);
    assert_eq!(
        outcome(Err(SvsmReqError::RequestError(9))),
        RequestOutcome::SoftError { protocol: 2, request: 5, code: 9 }
    );
    assert_eq!(
        outcome(Err(SvsmReqError::FatalError("x"))),
        RequestOutcome::Fatal { request: 5, error: "x" }
    );
}

#[test]
fn only_calls_make_requests() {
    let read = |_: VirtAddr| -> Result<SvsmCaa, Error> { Ok(area(true)) };
    let write = |_: VirtAddr, _: SvsmCaa| -> Result<(), Error> { Ok(()) };
    let at = Some(VirtAddr(0x2000));
    let called = vmsa(0xffff_ffff_8000_0001, GuestVMExit::VMGEXIT);
    assert_eq!(
        get_svsm_request_message(&called, (), &read, &write, at),
        RequestOutcome::Message(GuestExitMessage::Svsm((0xffff_ffff, 0x8000_0001, ())))
    );
    let untouched = |_: VirtAddr| -> Result<SvsmCaa, Error> { panic!("not read") };
    let other = vmsa(0, GuestVMExit::Other(0x60));
    assert_eq!(
        get_svsm_request_message(&other, (), &untouched, &write, at),
        RequestOutcome::Nothing
    );
}

fn unasked(leaf: u32, _: u32) -> Option<CpuidResult> {
    panic!("leaf {:#x} is not asked for", leaf)
}

fn untimed() -> u64 {
    panic!("the clock is not read")
}

#[test]
fn exits_ask_for_no_more_than_they_need() {
    let code = GuestVMExit::Other(0x60);
    let mut log = ExitLog::new();
    let (probe, beat) = count_guest_exit(&mut log, &|_: u32, _: u32| None, untimed, 1, code);
    assert_eq!(probe.unwrap().hz, 0);
    assert_eq!(beat.unwrap().count, 1);
    let (probe, beat) = count_guest_exit(&mut log, &unasked, untimed, 1, code);
    assert_eq!(probe, None);
    assert_eq!(beat.unwrap().count, 2);
    log.clock.hz = 1000;
    let (_, beat) = count_guest_exit(&mut log, &unasked, || 77, 1, code);
    assert_eq!(beat.unwrap().clock, Some((77, 1000)));
    assert_eq!(log.last_log_tsc, 77);
}

#[test]
fn memory_is_searched_with_a_heartbeat_only() {
    let none = ReservedBits { table: [0; 5], huge: [0; 5] };
    let format = PageTableFormat { confidentiality: 0, pml4: none, pml5: none };
    let ctx = GuestSymbolContext { cr0: 1, cr3: 0, cr4: 0, efer: 0 };
    let unread = |_: PhysAddr, _: usize| -> Option<Vec<u8>> { panic!("memory is left alone") };
    let code = GuestVMExit::VMGEXIT;
    let mut symbols = GuestSymbols::new();
    let mut log = ExitLog::new();
    log.count = 8;
    log.clock.probed = true;
    let report = maybe_log_guest_exit(
        &mut log, &mut symbols, &unread, &unasked, untimed, &format, 0, code, ctx,
    );
    assert!(report.heartbeat.is_none());
    assert!(begin_banner_search(&mut symbols));
    log.count = 15;
    let report = maybe_log_guest_exit(
        &mut log, &mut symbols, &unread, &unasked, untimed, &format, 0, code, ctx,
    );
    assert_eq!(report.heartbeat.unwrap().count, 16);
    assert!(report.banner.is_none());
}

#[test]
fn area_is_read_and_written_once() {
    let calls = RefCell::new(Vec::new());
    let read = |at: VirtAddr| -> Result<SvsmCaa, Error> {
        calls.borrow_mut().push((at, None));
        Ok(area(true))
    };
    let write = |at: VirtAddr, caa: SvsmCaa| -> Result<(), Error> {
        calls.borrow_mut().push((at, Some(caa)));
        Ok(())
    };
    let at = VirtAddr(0x3000);
    assert_eq!(get_and_clear_caa_request_flag(read, write, Some(at)), Ok(true));
    assert_eq!(*calls.borrow(), vec![(at, None), (at, Some(area(false)))]);
}

#[test]
fn area_is_left_alone_where_nothing_is_taken() {
    let unread = |_: VirtAddr| -> Result<SvsmCaa, Error> { panic!("not read") };
    let unwritten = |_: VirtAddr, _: SvsmCaa| -> Result<(), Error> { panic!("not written") };
    let failing = |_: VirtAddr| -> Result<SvsmCaa, Error> { Err(SvsmReqError::RequestError(7)) };
    let at = Some(VirtAddr(0x3000));
    assert_eq!(get_and_clear_caa_request_flag(unread, unwritten, None), Ok(false));
    assert_eq!(
        get_and_clear_caa_request_flag(failing, unwritten, at),
        Err(SvsmReqError::RequestError(7))
    );
    let other = vmsa(0, GuestVMExit::Other(0x60));
    assert_eq!(
        get_svsm_request_message(&other, (), unread, unwritten, at),
        RequestOutcome::Nothing
    );
    let called = vmsa(0x0000_0002_0000_0005, GuestVMExit::VMGEXIT);
    assert_eq!(
        get_svsm_request_message(&called, (), unread, unwritten, None),
        RequestOutcome::Nothing
    );
}
