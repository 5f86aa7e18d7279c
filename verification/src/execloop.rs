//! The loop that runs the guest, and what is logged and asked for when the guest
//! stops.

use crate::address::{PhysAddr, VirtAddr};
use crate::guest_symbols::{
    may_search, maybe_resolve_linux_banner, resolves, BannerSnapshot, GuestSymbolContext,
    GuestSymbols,
};
use crate::message::{GuestExitMessage, SvsmCaa, SvsmReqError};
use crate::paging::PageTableFormat;
use crate::vmsa::{GuestVMExit, Vmsa};
use vstd::arithmetic::power2::{lemma_pow2_pos, lemma_pow2_unfold, pow2};
use vstd::prelude::*;

verus! {

/// Seconds between two heartbeats.
pub const GUEST_EXIT_LOG_INTERVAL_SECS: u64 = 30;

/// The CPUID leaf that names the highest hypervisor leaf.
pub const KVM_CPUID_SIGNATURE: u32 = 0x4000_0000;

/// The hypervisor leaf that gives the frequency of the time stamp counter.
pub const KVM_CPUID_TSC_FREQUENCY: u32 = 0x4000_0010;

/// Whether the processor with this number is in `mask`.
pub open spec fn logged(mask: u64, cpu_index: int) -> bool {
    (mask >> cpu_index as u64) & 1 == 1
}

/// `after` is `before` with one more processor in it.
pub open spec fn marked(before: u64, cpu_index: int, after: u64) -> bool {
    forall|i: int|
        0 <= i < 64 ==> #[trigger] logged(after, i) == (logged(before, i) || i == cpu_index)
}

proof fn lemma_mark(mask: u64, cpu_index: u64, i: u64)
    requires
        cpu_index < 64,
        i < 64,
    ensures
        logged(mask | (1u64 << cpu_index), i as int) == (logged(mask, i as int) || i == cpu_index),
        (mask & (1u64 << cpu_index) == 0) == !logged(mask, cpu_index as int),
{
    assert((((mask | (1u64 << cpu_index)) >> i) & 1 == 1) == ((mask >> i) & 1 == 1 || i
        == cpu_index)) by (bit_vector)
        requires
            cpu_index < 64,
            i < 64,
    ;
    assert((mask & (1u64 << cpu_index) == 0) == !((mask >> cpu_index) & 1 == 1)) by (bit_vector)
        requires
            cpu_index < 64,
    ;
}

/// Whether this is the first call with `mask` for this processor. Processors
/// past the 64th are not kept track of.
pub fn log_once_for_cpu(mask: &mut u64, cpu_index: usize) -> (r: bool)
    ensures
        cpu_index >= 64 ==> !r && *final(mask) == *old(mask),
        cpu_index < 64 ==> r == !logged(*old(mask), cpu_index as int) && marked(
            *old(mask),
            cpu_index as int,
            *final(mask),
        ),
{
    if cpu_index >= 64 {
        return false;
    }
    let bit: u64 = 1u64 << cpu_index as u64;
    let before: u64 = *mask;
    *mask = before | bit;
    proof {
        assert forall|i: int| 0 <= i < 64 implies #[trigger] logged(*mask, i) == (logged(before, i)
            || i == cpu_index) by {
            lemma_mark(before, cpu_index as u64, i as u64);
        }
        lemma_mark(before, cpu_index as u64, cpu_index as u64);
    }
    before & bit == 0
}

/// The registers that a CPUID leaf returns.
#[derive(Clone, Copy, Debug, PartialEq, Eq, Structural)]
pub struct CpuidResult {
    pub eax: u32,
    pub ebx: u32,
    pub ecx: u32,
    pub edx: u32,
}

/// What was found out about the time stamp counter.
#[derive(Clone, Copy, Debug, PartialEq, Eq, Structural)]
pub struct TscProbe {
    /// The frequency, or 0 if it is unknown.
    pub hz: u64,
    /// The highest CPUID leaf.
    pub max_leaf: u32,
    /// The highest hypervisor leaf.
    pub max_hypervisor_leaf: u32,
    /// Leaf 0x15, where it was read.
    pub leaf15: Option<CpuidResult>,
    /// Leaf 0x16, where it was read.
    pub leaf16: Option<CpuidResult>,
    /// Leaf 0x40000010, where it was read.
    pub leaf40000010: Option<CpuidResult>,
}

/// The highest leaf of a range, from the first leaf of that range.
pub open spec fn highest_leaf(leaf: Option<CpuidResult>) -> u32 {
    match leaf {
        Some(leaf) => leaf.eax,
        None => 0,
    }
}

/// The frequency that leaf 0x15 gives: that of the crystal, times a ratio. It is
/// 0 where a part is missing.
pub open spec fn crystal_hz(leaf: Option<CpuidResult>) -> int {
    match leaf {
        Some(leaf) => if leaf.eax != 0 && leaf.ebx != 0 && leaf.ecx != 0 {
            leaf.ecx * leaf.ebx / leaf.eax as int
        } else {
            0
        },
        None => 0,
    }
}

/// The frequency that leaf 0x16 gives, in the low 16 bits, in MHz.
pub open spec fn base_hz(leaf: Option<CpuidResult>) -> int {
    match leaf {
        Some(leaf) => leaf.eax % 0x1_0000 * 1_000_000,
        None => 0,
    }
}

/// The frequency that the hypervisor gives, in kHz.
pub open spec fn hypervisor_hz(leaf: Option<CpuidResult>) -> int {
    match leaf {
        Some(leaf) => leaf.eax * 1_000,
        None => 0,
    }
}

/// The highest leaves may be those of `probe`.
pub open spec fn reads_highest_leaves<C: Fn(u32, u32) -> Option<CpuidResult>>(
    cpuid: C,
    probe: TscProbe,
) -> bool {
    &&& exists|leaf: Option<CpuidResult>| #[trigger]
        call_ensures(cpuid, (0u32, 0u32), leaf) && probe.max_leaf == highest_leaf(leaf)
    &&& exists|leaf: Option<CpuidResult>| #[trigger]
        call_ensures(cpuid, (KVM_CPUID_SIGNATURE, 0u32), leaf) && probe.max_hypervisor_leaf
            == highest_leaf(leaf)
}

/// Leaf 0x15 may be as in `probe`.
pub open spec fn reads_leaf15<C: Fn(u32, u32) -> Option<CpuidResult>>(
    cpuid: C,
    probe: TscProbe,
) -> bool {
    if probe.asks_leaf15() {
        call_ensures(cpuid, (0x15u32, 0u32), probe.leaf15)
    } else {
        probe.leaf15 is None
    }
}

/// Leaf 0x16 may be as in `probe`.
pub open spec fn reads_leaf16<C: Fn(u32, u32) -> Option<CpuidResult>>(
    cpuid: C,
    probe: TscProbe,
) -> bool {
    if probe.asks_leaf16() {
        call_ensures(cpuid, (0x16u32, 0u32), probe.leaf16)
    } else {
        probe.leaf16 is None
    }
}

/// The hypervisor's leaf may be as in `probe`.
pub open spec fn reads_hypervisor_leaf<C: Fn(u32, u32) -> Option<CpuidResult>>(
    cpuid: C,
    probe: TscProbe,
) -> bool {
    if probe.asks_hypervisor_leaf() {
        call_ensures(cpuid, (KVM_CPUID_TSC_FREQUENCY, 0u32), probe.leaf40000010)
    } else {
        probe.leaf40000010 is None
    }
}

impl TscProbe {
    /// The processor has leaf 0x15.
    pub open spec fn asks_leaf15(self) -> bool {
        self.max_leaf >= 0x15
    }

    /// The processor has leaf 0x16, and leaf 0x15 has given no frequency.
    pub open spec fn asks_leaf16(self) -> bool {
        crystal_hz(self.leaf15) == 0 && self.max_leaf >= 0x16
    }

    /// The hypervisor has a leaf for the frequency, and the processor's own have
    /// given none.
    pub open spec fn asks_hypervisor_leaf(self) -> bool {
        &&& crystal_hz(self.leaf15) == 0
        &&& base_hz(self.leaf16) == 0
        &&& self.max_hypervisor_leaf >= KVM_CPUID_TSC_FREQUENCY
    }
}

/// A probe of the processor may give `probe`. The leaves are tried in turn, as
/// far as the processor has them, until one gives a frequency.
pub open spec fn probes<C: Fn(u32, u32) -> Option<CpuidResult>>(
    cpuid: C,
    probe: TscProbe,
) -> bool {
    &&& reads_highest_leaves(cpuid, probe)
    &&& reads_leaf15(cpuid, probe)
    &&& reads_leaf16(cpuid, probe)
    &&& reads_hypervisor_leaf(cpuid, probe)
    &&& probe.hz == if crystal_hz(probe.leaf15) != 0 {
        crystal_hz(probe.leaf15)
    } else if base_hz(probe.leaf16) != 0 {
        base_hz(probe.leaf16)
    } else {
        hypervisor_hz(probe.leaf40000010)
    }
}

/// The leaves that a probe reads may be read, each once those before it have
/// asked for it.
pub open spec fn may_probe<C: Fn(u32, u32) -> Option<CpuidResult>>(cpuid: C) -> bool {
    &&& call_requires(cpuid, (0u32, 0u32))
    &&& call_requires(cpuid, (KVM_CPUID_SIGNATURE, 0u32))
    &&& forall|so_far: TscProbe| #[trigger]
        reads_highest_leaves(cpuid, so_far) ==> {
            &&& so_far.asks_leaf15() ==> call_requires(cpuid, (0x15u32, 0u32))
            &&& reads_leaf15(cpuid, so_far) ==> {
                &&& so_far.asks_leaf16() ==> call_requires(cpuid, (0x16u32, 0u32))
                &&& reads_leaf16(cpuid, so_far) && so_far.asks_hypervisor_leaf() ==> call_requires(
                    cpuid,
                    (KVM_CPUID_TSC_FREQUENCY, 0u32),
                )
            }
        }
}

/// What is known of the time stamp counter.
#[derive(Clone, Copy, Debug, PartialEq, Eq, Structural)]
pub struct TscClock {
    /// The processor has been probed.
    pub probed: bool,
    /// The frequency that was found, or 0.
    pub hz: u64,
    /// The probe has been reported.
    pub logged: bool,
}

impl TscClock {
    /// Nothing is known yet.
    pub fn new() -> (r: TscClock)
        ensures
            r == (TscClock { probed: false, hz: 0, logged: false }),
    {
        TscClock { probed: false, hz: 0, logged: false }
    }
}

/// Asking for the frequency may give `hz`, and something to report. The
/// processor is probed the first time, and the outcome kept.
pub open spec fn gives_frequency<C: Fn(u32, u32) -> Option<CpuidResult>>(
    cpuid: C,
    before: TscClock,
    after: TscClock,
    hz: u64,
    report: Option<TscProbe>,
) -> bool {
    if before.probed {
        after == before && hz == before.hz && report is None
    } else {
        exists|probe: TscProbe| #[trigger]
            probes(cpuid, probe) && hz == probe.hz && after == (TscClock {
                probed: true,
                hz: probe.hz,
                logged: true,
            }) && report == if before.logged {
                None
            } else {
                Some(probe)
            }
    }
}

/// The frequency that leaf 0x15 gives, or 0.
pub fn leaf15_hz(leaf: Option<CpuidResult>) -> (hz: u64)
    ensures
        hz == crystal_hz(leaf),
{
    match leaf {
        Some(leaf) => {
            let denom: u64 = leaf.eax as u64;
            let numer: u64 = leaf.ebx as u64;
            let crystal: u64 = leaf.ecx as u64;
            if denom != 0 && numer != 0 && crystal != 0 {
                assert(crystal * numer <= 0xffff_ffff * 0xffff_ffff) by (nonlinear_arith)
                    requires
                        crystal <= 0xffff_ffff,
                        numer <= 0xffff_ffff,
                ;
                crystal * numer / denom
            } else {
                0
            }
        },
        None => 0,
    }
}

/// The frequency that leaf 0x16 gives, or 0.
pub fn leaf16_hz(leaf: Option<CpuidResult>) -> (hz: u64)
    ensures
        hz == base_hz(leaf),
{
    match leaf {
        Some(leaf) => {
            let mhz: u64 = (leaf.eax % 0x1_0000) as u64;
            mhz * 1_000_000
        },
        None => 0,
    }
}

/// The frequency that the hypervisor's leaf gives, or 0.
pub fn hypervisor_leaf_hz(leaf: Option<CpuidResult>) -> (hz: u64)
    ensures
        hz == hypervisor_hz(leaf),
{
    match leaf {
        Some(leaf) => leaf.eax as u64 * 1_000,
        None => 0,
    }
}

/// The frequency of the time stamp counter, or 0 if it is unknown. The processor
/// is probed on the first call; what was found is returned with it, to be
/// reported.
pub fn tsc_hz<C: Fn(u32, u32) -> Option<CpuidResult>>(clock: &mut TscClock, cpuid: &C) -> (r: (
    u64,
    Option<TscProbe>,
))
    requires
        !old(clock).probed ==> may_probe(*cpuid),
    ensures
        gives_frequency(*cpuid, *old(clock), *final(clock), r.0, r.1),
{
    if clock.probed {
        return (clock.hz, None);
    }
    let max_leaf: u32 = match cpuid(0, 0) {
        Some(leaf) => leaf.eax,
        None => 0,
    };
    let max_hypervisor_leaf: u32 = match cpuid(KVM_CPUID_SIGNATURE, 0) {
        Some(leaf) => leaf.eax,
        None => 0,
    };
    let mut hz: u64 = 0;
    let mut leaf15: Option<CpuidResult> = None;
    let mut leaf16: Option<CpuidResult> = None;
    let mut leaf40000010: Option<CpuidResult> = None;
    let ghost start = TscProbe { hz, max_leaf, max_hypervisor_leaf, leaf15, leaf16, leaf40000010 };
    assert(reads_highest_leaves(*cpuid, start));

    if max_leaf >= 0x15 {
        leaf15 = cpuid(0x15, 0);
        hz = leaf15_hz(leaf15);
    }
    assert(reads_highest_leaves(*cpuid, TscProbe { leaf15, ..start }));
    if hz == 0 && max_leaf >= 0x16 {
        leaf16 = cpuid(0x16, 0);
        hz = leaf16_hz(leaf16);
    }
    assert(reads_highest_leaves(*cpuid, TscProbe { leaf15, leaf16, ..start }));
    if hz == 0 && max_hypervisor_leaf >= KVM_CPUID_TSC_FREQUENCY {
        leaf40000010 = cpuid(KVM_CPUID_TSC_FREQUENCY, 0);
        hz = hypervisor_leaf_hz(leaf40000010);
    }
    let probe = TscProbe { hz, max_leaf, max_hypervisor_leaf, leaf15, leaf16, leaf40000010 };
    assert(probes(*cpuid, probe));

    let report = if clock.logged {
        None
    } else {
        Some(probe)
    };
    clock.hz = hz;
    clock.probed = true;
    clock.logged = true;
    (hz, report)
}

/// The frequency is found out once: later calls give the same, and nothing to
/// report.
pub proof fn frequency_is_probed_once<
    C: Fn(u32, u32) -> Option<CpuidResult>,
    D: Fn(u32, u32) -> Option<CpuidResult>,
>(
    cpuid: C,
    later_cpuid: D,
    before: TscClock,
    between: TscClock,
    after: TscClock,
    first: u64,
    first_report: Option<TscProbe>,
    second: u64,
    second_report: Option<TscProbe>,
)
    requires
        gives_frequency(cpuid, before, between, first, first_report),
        gives_frequency(later_cpuid, between, after, second, second_report),
        before.probed ==> before.logged,
    ensures
        second == first,
        second_report is None,
        after == between,
        between.probed && between.logged,
{
}

/// Whether `n` is a power of two.
pub open spec fn is_pow2(n: u64) -> bool {
    exists|k: nat| n == #[trigger] pow2(k)
}

/// Halving keeps powers of two, as long as there is something to halve.
proof fn lemma_halve(n: u64)
    requires
        n > 0,
        n % 2 == 0,
    ensures
        is_pow2(n) == is_pow2(n / 2),
{
    if is_pow2(n) {
        let k = choose|k: nat| n == #[trigger] pow2(k);
        if k == 0 {
            vstd::arithmetic::power2::lemma2_to64();
        } else {
            lemma_pow2_unfold(k);
            assert(n / 2 == pow2((k - 1) as nat));
        }
    }
    if is_pow2(n / 2) {
        let k = choose|k: nat| n / 2 == #[trigger] pow2(k);
        lemma_pow2_unfold(k + 1);
        assert(n == pow2(k + 1));
    }
}

/// Whether `n` is a power of two.
pub fn is_power_of_two(n: u64) -> (r: bool)
    ensures
        r == is_pow2(n),
{
    if n == 0 {
        proof {
            assert forall|k: nat| n != #[trigger] pow2(k) by {
                lemma_pow2_pos(k);
            }
        }
        return false;
    }
    let mut m: u64 = n;
    while m % 2 == 0
        invariant
            m > 0,
            is_pow2(m) == is_pow2(n),
        decreases m,
    {
        proof {
            lemma_halve(m);
        }
        m = m / 2;
    }
    proof {
        vstd::arithmetic::power2::lemma2_to64();
        if is_pow2(m) {
            let k = choose|k: nat| m == #[trigger] pow2(k);
            if k > 0 {
                lemma_pow2_unfold(k);
            }
        }
        assert(m == 1 ==> m == pow2(0));
    }
    m == 1
}

/// Clock ticks between two heartbeats.
pub open spec fn heartbeat_interval(hz: u64) -> int {
    if hz * GUEST_EXIT_LOG_INTERVAL_SECS <= u64::MAX {
        hz * GUEST_EXIT_LOG_INTERVAL_SECS
    } else {
        u64::MAX as int
    }
}

/// Clock ticks from `last` to `now`, on a counter that starts over at the end.
pub open spec fn elapsed(last: u64, now: u64) -> int {
    if last <= now {
        now - last
    } else {
        now - last + 0x1_0000_0000_0000_0000
    }
}

/// Whether a heartbeat is due at `now`, with the last at `last`, or none yet if
/// that is 0.
pub open spec fn due_by_clock(hz: u64, last: u64, now: u64) -> bool {
    last == 0 || elapsed(last, now) >= heartbeat_interval(hz)
}

/// Whether a heartbeat is due at the guest's `count`-th exit when there is no
/// clock to go by.
pub open spec fn due_by_count(count: u64) -> bool {
    count <= 8 || is_pow2(count)
}

/// A sign of life, to be logged.
#[derive(Clone, Copy, Debug, PartialEq, Eq)]
pub struct Heartbeat {
    /// How often the guest has stopped.
    pub count: u64,
    /// On which processor it did.
    pub cpu_index: usize,
    /// Why it did.
    pub exit_code: GuestVMExit,
    /// The time stamp counter and its frequency, if that is known.
    pub clock: Option<(u64, u64)>,
}

/// What the guest's exits have added up to.
#[derive(Clone, Copy, Debug, PartialEq, Eq, Structural)]
pub struct ExitLog {
    /// How often the guest has stopped.
    pub count: u64,
    /// The time stamp of the last heartbeat, or 0.
    pub last_log_tsc: u64,
    /// What is known of the time stamp counter.
    pub clock: TscClock,
}

impl ExitLog {
    /// The guest has not run yet.
    pub fn new() -> (r: ExitLog)
        ensures
            r.count == 0,
            r.last_log_tsc == 0,
            !r.clock.probed && !r.clock.logged && r.clock.hz == 0,
    {
        ExitLog { count: 0, last_log_tsc: 0, clock: TscClock::new() }
    }
}

/// What is to be logged when the guest has stopped.
#[derive(Clone, Copy, Debug)]
pub struct ExitReport {
    /// What was found out about the time stamp counter.
    pub probe: Option<TscProbe>,
    /// What was found out about the guest's symbols.
    pub banner: Option<BannerSnapshot>,
    /// The heartbeat. With it, the guest's TCP connections are logged.
    pub heartbeat: Option<Heartbeat>,
}

/// An exit may lead from `before` to `after`, with this heartbeat. Without a
/// known frequency the number of exits decides, and otherwise the clock.
pub open spec fn beats<
    C: Fn(u32, u32) -> Option<CpuidResult>,
    T: FnOnce() -> u64,
>(
    cpuid: C,
    rdtsc: T,
    before: ExitLog,
    after: ExitLog,
    cpu_index: usize,
    exit_code: GuestVMExit,
    probe: Option<TscProbe>,
    heartbeat: Option<Heartbeat>,
) -> bool {
    let count = (before.count + 1) as u64;
    &&& after.count == count
    &&& exists|hz: u64| #[trigger]
        gives_frequency(cpuid, before.clock, after.clock, hz, probe) && if hz == 0 {
            &&& after.last_log_tsc == before.last_log_tsc
            &&& heartbeat == if due_by_count(count) {
                Some(Heartbeat { count, cpu_index, exit_code, clock: None })
            } else {
                None
            }
        } else {
            exists|now: u64| #[trigger]
                call_ensures(rdtsc, (), now) && if due_by_clock(hz, before.last_log_tsc, now) {
                    &&& after.last_log_tsc == now
                    &&& heartbeat == Some(
                        Heartbeat { count, cpu_index, exit_code, clock: Some((now, hz)) },
                    )
                } else {
                    &&& after.last_log_tsc == before.last_log_tsc
                    &&& heartbeat is None
                }
        }
}

/// The clock may be read wherever asking for the frequency gives one.
pub open spec fn may_read_clock<C: Fn(u32, u32) -> Option<CpuidResult>, T: FnOnce() -> u64>(
    cpuid: C,
    rdtsc: T,
    clock: TscClock,
) -> bool {
    forall|after: TscClock, hz: u64, probe: Option<TscProbe>| #[trigger]
        gives_frequency(cpuid, clock, after, hz, probe) && hz != 0 ==> call_requires(rdtsc, ())
}

/// Counts an exit of the guest, and decides whether to give a heartbeat. What was
/// found out about the time stamp counter on the way is returned too.
pub fn count_guest_exit<C: Fn(u32, u32) -> Option<CpuidResult>, T: FnOnce() -> u64>(
    log: &mut ExitLog,
    cpuid: &C,
    rdtsc: T,
    cpu_index: usize,
    exit_code: GuestVMExit,
) -> (r: (Option<TscProbe>, Option<Heartbeat>))
    requires
        old(log).count < u64::MAX,
        !old(log).clock.probed ==> may_probe(*cpuid),
        may_read_clock(*cpuid, rdtsc, old(log).clock),
    ensures
        beats(*cpuid, rdtsc, *old(log), *final(log), cpu_index, exit_code, r.0, r.1),
{
    let count: u64 = log.count + 1;
    log.count = count;

    let (hz, probe) = tsc_hz(&mut log.clock, cpuid);
    let heartbeat = if hz == 0 {
        if count <= 8 || is_power_of_two(count) {
            Some(Heartbeat { count, cpu_index, exit_code, clock: None })
        } else {
            None
        }
    } else {
        let interval: u64 = match hz.checked_mul(GUEST_EXIT_LOG_INTERVAL_SECS) {
            Some(interval) => interval,
            None => u64::MAX,
        };
        let now: u64 = rdtsc();
        let last: u64 = log.last_log_tsc;
        assert(interval == heartbeat_interval(hz));
        let ticks: u64 = now.wrapping_sub(last);
        assert(ticks == elapsed(last, now));
        if last != 0 && ticks < interval {
            None
        } else {
            log.last_log_tsc = now;
            Some(Heartbeat { count, cpu_index, exit_code, clock: Some((now, hz)) })
        }
    };
    assert(gives_frequency(*cpuid, old(log).clock, log.clock, hz, probe));
    (probe, heartbeat)
}

/// Counts an exit of the guest, and from time to time looks for the guest's
/// symbols and gives a heartbeat.
pub fn maybe_log_guest_exit<
    F: Fn(PhysAddr, usize) -> Option<Vec<u8>>,
    C: Fn(u32, u32) -> Option<CpuidResult>,
    T: FnOnce() -> u64,
>(
    log: &mut ExitLog,
    symbols: &mut GuestSymbols,
    copy: &F,
    cpuid: &C,
    rdtsc: T,
    format: &PageTableFormat,
    cpu_index: usize,
    exit_code: GuestVMExit,
    ctx: GuestSymbolContext,
) -> (report: ExitReport)
    requires
        old(log).count < u64::MAX,
        old(symbols).wf(),
        !old(log).clock.probed ==> may_probe(*cpuid),
        may_read_clock(*cpuid, rdtsc, old(log).clock),
        old(symbols)@.searchable() ==> forall|
            after: ExitLog,
            probe: Option<TscProbe>,
            heartbeat: Heartbeat,
        | #[trigger]
            beats(*cpuid, rdtsc, *old(log), after, cpu_index, exit_code, probe, Some(heartbeat))
                ==> may_search(*copy, *format, ctx),
    ensures
        beats(
            *cpuid,
            rdtsc,
            *old(log),
            *final(log),
            cpu_index,
            exit_code,
            report.probe,
            report.heartbeat,
        ),
        final(symbols).wf(),
        report.heartbeat is None ==> final(symbols)@ == old(symbols)@,
        report.heartbeat is Some ==> resolves(
            *copy,
            *format,
            ctx,
            old(symbols)@,
            final(symbols)@,
        ),
        report.banner is Some <==> final(symbols)@.banner_gva != old(symbols)@.banner_gva,
        report.banner matches Some(snapshot) ==> snapshot.shows(final(symbols)@),
{
    let (probe, heartbeat) = count_guest_exit(log, cpuid, rdtsc, cpu_index, exit_code);
    let banner = if heartbeat.is_some() {
        maybe_resolve_linux_banner(symbols, copy, format, ctx)
    } else {
        None
    };
    ExitReport { probe, banner, heartbeat }
}

/// Taking the request flag out of the calling area at `caa` may give `r`. The
/// area is read and written back with the flag cleared; a guest without an area
/// has made no request.
pub open spec fn takes_flag<
    R: FnOnce(VirtAddr) -> Result<SvsmCaa, SvsmReqError<C, E>>,
    W: FnOnce(VirtAddr, SvsmCaa) -> Result<(), SvsmReqError<C, E>>,
    C,
    E,
>(read: R, write: W, caa: Option<VirtAddr>, r: Result<bool, SvsmReqError<C, E>>) -> bool {
    match caa {
        None => r == Ok::<bool, SvsmReqError<C, E>>(false),
        Some(at) => exists|area: Result<SvsmCaa, SvsmReqError<C, E>>| #[trigger]
            call_ensures(read, (at,), area) && match area {
                Err(error) => r == Err::<bool, SvsmReqError<C, E>>(error),
                Ok(area) => exists|written: Result<(), SvsmReqError<C, E>>| #[trigger]
                    call_ensures(write, (at, area.taken()), written) && r == match written {
                        Err(error) => Err::<bool, SvsmReqError<C, E>>(error),
                        Ok(_) => Ok(area.call_pending),
                    },
            },
    }
}

/// The calling area at `at` may be read, and then be written as it was read but
/// for the flag, which is cleared. Nothing else may be.
pub open spec fn may_take<
    R: FnOnce(VirtAddr) -> Result<SvsmCaa, SvsmReqError<C, E>>,
    W: FnOnce(VirtAddr, SvsmCaa) -> Result<(), SvsmReqError<C, E>>,
    C,
    E,
>(read: R, write: W, at: VirtAddr) -> bool {
    &&& call_requires(read, (at,))
    &&& forall|area: SvsmCaa| #[trigger]
        call_ensures(read, (at,), Ok::<SvsmCaa, SvsmReqError<C, E>>(area)) ==> call_requires(
            write,
            (at, area.taken()),
        )
}

/// Takes the request flag out of the guest's calling area, if it has one. The area
/// is read once and written at most once.
pub fn get_and_clear_caa_request_flag<
    R: FnOnce(VirtAddr) -> Result<SvsmCaa, SvsmReqError<C, E>>,
    W: FnOnce(VirtAddr, SvsmCaa) -> Result<(), SvsmReqError<C, E>>,
    C,
    E,
>(read: R, write: W, caa: Option<VirtAddr>) -> (r: Result<bool, SvsmReqError<C, E>>)
    requires
        caa matches Some(at) ==> may_take(read, write, at),
    ensures
        takes_flag(read, write, caa, r),
{
    match caa {
        None => Ok(false),
        Some(at) => match read(at) {
            Err(error) => Err(error),
            Ok(area) => match write(at, area.serviced()) {
                Err(error) => Err(error),
                Ok(_) => Ok(area.call_pending),
            },
        },
    }
}

/// What has become of a request.
#[derive(Debug, PartialEq, Eq)]
pub enum RequestOutcome<P, C, E> {
    /// The guest has made this request.
    Message(GuestExitMessage<P>),
    /// The guest has made none.
    Nothing,
    /// The request could not be taken; the guest goes on.
    SoftError { protocol: u32, request: u32, code: C },
    /// The request could not be taken, and the monitor cannot go on.
    Fatal { request: u32, error: E },
}

/// What becomes of a guest that stopped with `vmsa`, once its request flag has
/// been taken. Only a guest that called the monitor makes requests.
pub open spec fn outcome_of<P, C, E>(
    vmsa: Vmsa,
    params: P,
    flag: Result<bool, SvsmReqError<C, E>>,
) -> RequestOutcome<P, C, E> {
    let protocol = (vmsa.rax / 0x1_0000_0000) as u32;
    let request = (vmsa.rax % 0x1_0000_0000) as u32;
    match flag {
        Ok(pending) => if pending {
            RequestOutcome::Message(GuestExitMessage::Svsm((protocol, request, params)))
        } else {
            RequestOutcome::Nothing
        },
        Err(SvsmReqError::RequestError(code)) => RequestOutcome::SoftError {
            protocol,
            request,
            code,
        },
        Err(SvsmReqError::FatalError(error)) => RequestOutcome::Fatal { request, error },
    }
}

/// Decides what becomes of a guest that called the monitor, from its request
/// flag.
pub fn request_outcome<P, C, E>(
    vmsa: &Vmsa,
    params: P,
    flag: Result<bool, SvsmReqError<C, E>>,
) -> (r: RequestOutcome<P, C, E>)
    ensures
        r == outcome_of(*vmsa, params, flag),
{
    let protocol: u32 = (vmsa.rax / 0x1_0000_0000) as u32;
    let request: u32 = (vmsa.rax % 0x1_0000_0000) as u32;
    match flag {
        Ok(pending) => if pending {
            RequestOutcome::Message(GuestExitMessage::Svsm((protocol, request, params)))
        } else {
            RequestOutcome::Nothing
        },
        Err(SvsmReqError::RequestError(code)) => RequestOutcome::SoftError {
            protocol,
            request,
            code,
        },
        Err(SvsmReqError::FatalError(error)) => RequestOutcome::Fatal { request, error },
    }
}

/// Takes the request of a guest that stopped with `vmsa`, if it has made one.
/// `params` are the parameters that the request has.
pub fn get_svsm_request_message<
    P,
    R: FnOnce(VirtAddr) -> Result<SvsmCaa, SvsmReqError<C, E>>,
    W: FnOnce(VirtAddr, SvsmCaa) -> Result<(), SvsmReqError<C, E>>,
    C,
    E,
>(vmsa: &Vmsa, params: P, read: R, write: W, caa: Option<VirtAddr>) -> (r: RequestOutcome<
    P,
    C,
    E,
>)
    requires
        vmsa.guest_exit_code == GuestVMExit::VMGEXIT ==> (caa matches Some(at) ==> may_take(
            read,
            write,
            at,
        )),
    ensures
        if vmsa.guest_exit_code == GuestVMExit::VMGEXIT {
            exists|flag: Result<bool, SvsmReqError<C, E>>| #[trigger]
                takes_flag(read, write, caa, flag) && r == outcome_of(*vmsa, params, flag)
        } else {
            r == RequestOutcome::<P, C, E>::Nothing
        },
{
    match vmsa.guest_exit_code {
        GuestVMExit::VMGEXIT => {},
        _ => return RequestOutcome::Nothing,
    }
    let flag = get_and_clear_caa_request_flag(read, write, caa);
    request_outcome(vmsa, params, flag)
}

} // verus!
