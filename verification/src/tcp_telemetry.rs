//! Delivery of observed guest TCP connection metadata over virtio-vsock.

use crate::bytes::{be16, be16_injective, be64, be64_injective, put_bytes, u16_to_be, u64_to_be};
use vstd::prelude::*;

verus! {

/// The port of the host listener.
pub const TELEMETRY_PORT: u32 = 4050;

/// The name of the task that sends events to the host.
pub const SENDER_TASK_NAME: &'static str = "TCP telemetry sender";

/// The argument with which that task is started. It makes no use of it.
pub const SENDER_TASK_ARGUMENT: usize = 0;

/// The address of the host.
pub const VMADDR_CID_HOST: u32 = 2;

/// The most events that wait to be sent.
pub const QUEUE_CAPACITY: usize = 128;

/// Bytes in a frame.
pub const FRAME_SIZE: usize = 56;

/// The version of the frame format.
pub const FRAME_VERSION: u8 = 1;

/// The frame holds a TCP connection.
pub const FRAME_TYPE_TCP_CONNECTION: u8 = 1;

/// The most frames that are sent before other tasks may run.
pub const SEND_BATCH_SIZE: usize = 32;

/// A TCP connection of the guest, as it was observed.
#[derive(Clone, Copy, Debug, PartialEq, Eq)]
pub struct TcpEvent {
    pub sequence: u64,
    pub observed_tsc: u64,
    pub sock_ptr: u64,
    pub state: u8,
    pub source_ipv4: [u8; 4],
    pub source_port: u16,
    pub destination_ipv4: [u8; 4],
    pub destination_port: u16,
}

/// The bytes `CTCP`, with which a frame starts.
pub open spec fn frame_magic() -> Seq<u8> {
    seq![0x43u8, 0x54u8, 0x43u8, 0x50u8]
}

/// The fields of a frame that are the same in all.
pub open spec fn frame_header() -> Seq<u8> {
    frame_magic() + seq![FRAME_VERSION, FRAME_TYPE_TCP_CONNECTION] + be16(FRAME_SIZE as u16)
}

/// The frame for an event. All numbers have their highest byte first, and the
/// state is followed by three zero bytes.
pub open spec fn frame_bytes(event: TcpEvent, dropped_events: u64) -> Seq<u8> {
    frame_header() + be64(event.sequence) + be64(event.observed_tsc) + be64(event.sock_ptr)
        + seq![event.state, 0u8, 0u8, 0u8] + event.source_ipv4@ + be16(event.source_port)
        + event.destination_ipv4@ + be16(event.destination_port) + be64(dropped_events)
}

/// Puts `src` behind the first `at` bytes of `frame`.
fn put_field(frame: &mut [u8; FRAME_SIZE], at: usize, src: &[u8])
    requires
        at + src@.len() <= FRAME_SIZE,
    ensures
        final(frame)@.take(at + src@.len()) == old(frame)@.take(at as int) + src@,
{
    put_bytes(frame, at, src);
    assert(frame@.take(at + src@.len()) =~= old(frame)@.take(at as int) + src@);
}

impl TcpEvent {
    /// The frame that tells the host of the event, and of how many events have
    /// been dropped.
    pub fn encode(self, dropped_events: u64) -> (frame: [u8; FRAME_SIZE])
        ensures
            frame@ == frame_bytes(self, dropped_events),
    {
        let mut frame: [u8; FRAME_SIZE] = [0; FRAME_SIZE];
        let magic: [u8; 4] = [0x43, 0x54, 0x43, 0x50];
        put_field(&mut frame, 0, magic.as_slice());
        let kind: [u8; 2] = [FRAME_VERSION, FRAME_TYPE_TCP_CONNECTION];
        put_field(&mut frame, 4, kind.as_slice());
        put_field(&mut frame, 6, u16_to_be(FRAME_SIZE as u16).as_slice());
        assert(frame@.take(8) =~= frame_header());
        put_field(&mut frame, 8, u64_to_be(self.sequence).as_slice());
        put_field(&mut frame, 16, u64_to_be(self.observed_tsc).as_slice());
        put_field(&mut frame, 24, u64_to_be(self.sock_ptr).as_slice());
        let state: [u8; 4] = [self.state, 0, 0, 0];
        assert(state@ =~= seq![self.state, 0u8, 0u8, 0u8]);
        put_field(&mut frame, 32, state.as_slice());
        put_field(&mut frame, 36, self.source_ipv4.as_slice());
        put_field(&mut frame, 40, u16_to_be(self.source_port).as_slice());
        put_field(&mut frame, 42, self.destination_ipv4.as_slice());
        put_field(&mut frame, 46, u16_to_be(self.destination_port).as_slice());
        put_field(&mut frame, 48, u64_to_be(dropped_events).as_slice());
        assert(frame@.take(56) =~= frame@);
        frame
    }
}

/// A frame has a fixed length and each of its fields a fixed place.
pub proof fn frame_layout(event: TcpEvent, dropped_events: u64)
    ensures
        ({
            let frame = frame_bytes(event, dropped_events);
            &&& frame.len() == FRAME_SIZE
            &&& frame.subrange(0, 4) == frame_magic()
            &&& frame[4] == FRAME_VERSION
            &&& frame[5] == FRAME_TYPE_TCP_CONNECTION
            &&& frame.subrange(6, 8) == be16(FRAME_SIZE as u16)
            &&& frame.subrange(8, 16) == be64(event.sequence)
            &&& frame.subrange(16, 24) == be64(event.observed_tsc)
            &&& frame.subrange(24, 32) == be64(event.sock_ptr)
            &&& frame[32] == event.state
            &&& frame.subrange(33, 36) == seq![0u8, 0u8, 0u8]
            &&& frame.subrange(36, 40) == event.source_ipv4@
            &&& frame.subrange(40, 42) == be16(event.source_port)
            &&& frame.subrange(42, 46) == event.destination_ipv4@
            &&& frame.subrange(46, 48) == be16(event.destination_port)
            &&& frame.subrange(48, 56) == be64(dropped_events)
        }),
{
    let frame = frame_bytes(event, dropped_events);
    assert(frame.subrange(0, 4) =~= frame_magic());
    assert(frame.subrange(6, 8) =~= be16(FRAME_SIZE as u16));
    assert(frame.subrange(8, 16) =~= be64(event.sequence));
    assert(frame.subrange(16, 24) =~= be64(event.observed_tsc));
    assert(frame.subrange(24, 32) =~= be64(event.sock_ptr));
    assert(frame.subrange(33, 36) =~= seq![0u8, 0u8, 0u8]);
    assert(frame.subrange(36, 40) =~= event.source_ipv4@);
    assert(frame.subrange(40, 42) =~= be16(event.source_port));
    assert(frame.subrange(42, 46) =~= event.destination_ipv4@);
    assert(frame.subrange(46, 48) =~= be16(event.destination_port));
    assert(frame.subrange(48, 56) =~= be64(dropped_events));
}

/// A frame says all of an event: events with the same frame are the same.
pub proof fn frame_is_unambiguous(a: TcpEvent, a_dropped: u64, b: TcpEvent, b_dropped: u64)
    requires
        frame_bytes(a, a_dropped) == frame_bytes(b, b_dropped),
    ensures
        a == b,
        a_dropped == b_dropped,
{
    frame_layout(a, a_dropped);
    frame_layout(b, b_dropped);
    be64_injective(a.sequence, b.sequence);
    be64_injective(a.observed_tsc, b.observed_tsc);
    be64_injective(a.sock_ptr, b.sock_ptr);
    be16_injective(a.source_port, b.source_port);
    be16_injective(a.destination_port, b.destination_port);
    be64_injective(a_dropped, b_dropped);
    assert(a.source_ipv4 =~= b.source_ipv4);
    assert(a.destination_ipv4 =~= b.destination_ipv4);
}

/// The events that wait to be sent, oldest first, in a ring.
pub struct EventQueue {
    entries: [Option<TcpEvent>; QUEUE_CAPACITY],
    head: usize,
    len: usize,
}

impl EventQueue {
    /// The slot of the `i`-th event.
    spec fn slot(&self, i: int) -> Option<TcpEvent> {
        self.entries@[(self.head + i) % QUEUE_CAPACITY as int]
    }

    /// The slots from the head on are taken, and no others.
    pub closed spec fn wf(&self) -> bool {
        &&& self.head < QUEUE_CAPACITY
        &&& self.len <= QUEUE_CAPACITY
        &&& forall|i: int| 0 <= i < self.len ==> (#[trigger] self.slot(i)) is Some
        &&& forall|i: int| self.len <= i < QUEUE_CAPACITY ==> (#[trigger] self.slot(i)) is None
    }

    /// The events, oldest first.
    pub closed spec fn view(&self) -> Seq<TcpEvent> {
        Seq::new(self.len as nat, |i: int| self.slot(i)->0)
    }

    /// No queue holds more events than there is room for.
    pub proof fn capacity_is_kept(&self)
        requires
            self.wf(),
        ensures
            self@.len() <= QUEUE_CAPACITY,
    {
    }

    /// An empty queue.
    pub fn new() -> (r: EventQueue)
        ensures
            r.wf(),
            r@ == Seq::<TcpEvent>::empty(),
    {
        let r = EventQueue { entries: [None; QUEUE_CAPACITY], head: 0, len: 0 };
        assert(r@ =~= Seq::<TcpEvent>::empty());
        r
    }

    /// Adds an event behind the others, unless the queue is full.
    pub fn push(&mut self, event: TcpEvent) -> (r: bool)
        requires
            old(self).wf(),
        ensures
            final(self).wf(),
            r == (old(self)@.len() < QUEUE_CAPACITY),
            final(self)@ == if r {
                old(self)@.push(event)
            } else {
                old(self)@
            },
    {
        if self.len == QUEUE_CAPACITY {
            return false;
        }
        let tail: usize = (self.head + self.len) % QUEUE_CAPACITY;
        self.entries[tail] = Some(event);
        self.len = self.len + 1;
        proof {
            assert forall|i: int| 0 <= i < QUEUE_CAPACITY && i != old(self).len implies (
            #[trigger] self.slot(i)) == old(self).slot(i) by {
                assert((self.head + i) % 128 != tail);
            }
            assert(self.slot(old(self).len as int) == Some(event));
            assert(self@ =~= old(self)@.push(event));
        }
        true
    }

    /// The oldest event.
    pub fn front(&self) -> (r: Option<TcpEvent>)
        requires
            self.wf(),
        ensures
            r == if self@.len() == 0 {
                None
            } else {
                Some(self@[0])
            },
    {
        if self.len == 0 {
            None
        } else {
            assert(self.slot(0) is Some);
            self.entries[self.head]
        }
    }

    /// Removes the oldest event, if it has this sequence number.
    pub fn pop_front(&mut self, sequence: u64)
        requires
            old(self).wf(),
        ensures
            final(self).wf(),
            final(self)@ == without_front(old(self)@, sequence),
    {
        let event = match self.front() {
            Some(event) => event,
            None => return ,
        };
        if event.sequence != sequence {
            return ;
        }
        self.entries[self.head] = None;
        self.head = (self.head + 1) % QUEUE_CAPACITY;
        self.len = self.len - 1;
        proof {
            assert forall|i: int| 0 <= i < QUEUE_CAPACITY - 1 implies (#[trigger] self.slot(i))
                == old(self).slot(i + 1) by {
                assert((self.head + i) % 128 == (old(self).head + (i + 1)) % 128);
                assert((self.head + i) % 128 != old(self).head);
            }
            assert((self.head + 127) % 128 == old(self).head);
            assert(self.slot(127) is None);
            assert(self@ =~= old(self)@.drop_first());
        }
    }

    /// Whether no event waits.
    pub fn is_empty(&self) -> (r: bool)
        ensures
            r == (self@.len() == 0),
    {
        self.len == 0
    }
}

/// The queue without its oldest event, if that has this sequence number.
pub open spec fn without_front(queue: Seq<TcpEvent>, sequence: u64) -> Seq<TcpEvent> {
    if queue.len() > 0 && queue[0].sequence == sequence {
        queue.drop_first()
    } else {
        queue
    }
}

/// What the library knows of the events to be sent.
pub ghost struct Backlog {
    /// The events that wait, oldest first.
    pub queue: Seq<TcpEvent>,
    /// How many events have been observed.
    pub next_sequence: u64,
    /// How many of them found the queue full.
    pub dropped_events: u64,
    /// The sending task has been started.
    pub sender_started: bool,
}

impl Backlog {
    /// The events that wait are numbered in the order in which they were
    /// observed.
    pub open spec fn ordered(self) -> bool {
        &&& self.queue.len() <= QUEUE_CAPACITY
        &&& forall|i: int, j: int|
            0 <= i < j < self.queue.len() ==> self.queue[i].sequence < self.queue[j].sequence
        &&& forall|i: int|
            0 <= i < self.queue.len() ==> 0 < (#[trigger] self.queue[i]).sequence
                <= self.next_sequence
    }

    /// The backlog after one more event has been observed: it waits behind the
    /// others, or is counted as dropped where there is no room.
    pub open spec fn with_event(self, event: TcpEvent) -> Backlog {
        if self.queue.len() < QUEUE_CAPACITY {
            Backlog { queue: self.queue.push(event), next_sequence: event.sequence, ..self }
        } else {
            Backlog {
                next_sequence: event.sequence,
                dropped_events: if self.dropped_events == u64::MAX {
                    0
                } else {
                    (self.dropped_events + 1) as u64
                },
                ..self
            }
        }
    }

    /// The backlog after a wake-up of the sender, and what that asks for: the
    /// task is started unless it has been.
    pub open spec fn woken(self) -> (Backlog, WakeAction) {
        (
            Backlog { sender_started: true, ..self },
            if self.sender_started {
                WakeAction::Schedule
            } else {
                WakeAction::StartTask { name: SENDER_TASK_NAME, argument: SENDER_TASK_ARGUMENT }
            },
        )
    }

    /// The backlog after the start of the task was reported to have gone well,
    /// or not.
    pub open spec fn start_reported(self, started: bool) -> Backlog {
        if started {
            self
        } else {
            Backlog { sender_started: false, ..self }
        }
    }
}

/// The events to be sent to the host.
pub struct Telemetry {
    queue: EventQueue,
    next_sequence: u64,
    dropped_events: u64,
    sender_started: bool,
}

impl Telemetry {
    /// What is known of the events to be sent.
    pub closed spec fn view(&self) -> Backlog {
        Backlog {
            queue: self.queue@,
            next_sequence: self.next_sequence,
            dropped_events: self.dropped_events,
            sender_started: self.sender_started,
        }
    }

    /// The parts fit together.
    pub closed spec fn wf(&self) -> bool {
        &&& self.queue.wf()
        &&& self@.ordered()
    }

    /// The events that wait are in the order in which they were observed.
    pub proof fn backlog_is_ordered(&self)
        requires
            self.wf(),
        ensures
            self@.ordered(),
    {
    }

    /// No event has been observed yet.
    pub fn new() -> (r: Telemetry)
        ensures
            r.wf(),
            r@ == (Backlog {
                queue: Seq::empty(),
                next_sequence: 0,
                dropped_events: 0,
                sender_started: false,
            }),
    {
        Telemetry {
            queue: EventQueue::new(),
            next_sequence: 0,
            dropped_events: 0,
            sender_started: false,
        }
    }

    /// The number of the last event that was observed, or 0.
    pub fn last_sequence(&self) -> (r: u64)
        ensures
            r == self@.next_sequence,
    {
        self.next_sequence
    }
}

/// Numbers an observed connection and queues it for the host. Where the queue is
/// full, the event is dropped and counted.
pub fn enqueue_tcp_event(
    telemetry: &mut Telemetry,
    observed_tsc: u64,
    sock_ptr: u64,
    state: u8,
    source_ipv4: [u8; 4],
    source_port: u16,
    destination_ipv4: [u8; 4],
    destination_port: u16,
) -> (r: bool)
    requires
        old(telemetry).wf(),
        old(telemetry)@.next_sequence < u64::MAX,
    ensures
        final(telemetry).wf(),
        r == (old(telemetry)@.queue.len() < QUEUE_CAPACITY),
        final(telemetry)@ == old(telemetry)@.with_event(
            (TcpEvent {
                sequence: (old(telemetry)@.next_sequence + 1) as u64,
                observed_tsc,
                sock_ptr,
                state,
                source_ipv4,
                source_port,
                destination_ipv4,
                destination_port,
            }),
        ),
{
    let sequence: u64 = telemetry.next_sequence + 1;
    telemetry.next_sequence = sequence;
    let event = TcpEvent {
        sequence,
        observed_tsc,
        sock_ptr,
        state,
        source_ipv4,
        source_port,
        destination_ipv4,
        destination_port,
    };
    if telemetry.queue.push(event) {
        true
    } else {
        telemetry.dropped_events = telemetry.dropped_events.wrapping_add(1);
        false
    }
}

/// Whether an event waits to be sent.
pub fn telemetry_pending(telemetry: &Telemetry) -> (r: bool)
    ensures
        r == (telemetry@.queue.len() > 0),
{
    !telemetry.queue.is_empty()
}

/// What is to be done so that waiting events are sent.
#[derive(Clone, Copy, Debug, PartialEq, Eq)]
pub enum WakeAction {
    /// Start the sending task under this name and with this argument, and tell
    /// `sender_start_result` how that went.
    StartTask { name: &'static str, argument: usize },
    /// Let other tasks run, the sending task among them.
    Schedule,
}

/// Starts the sender lazily on the first event, then yields to it on later
/// batches. This keeps the normal boot scheduling path unchanged.
pub fn wake_tcp_telemetry_sender(telemetry: &mut Telemetry) -> (r: WakeAction)
    requires
        old(telemetry).wf(),
    ensures
        final(telemetry).wf(),
        (final(telemetry)@, r) == old(telemetry)@.woken(),
{
    if !telemetry.sender_started {
        telemetry.sender_started = true;
        WakeAction::StartTask { name: SENDER_TASK_NAME, argument: SENDER_TASK_ARGUMENT }
    } else {
        WakeAction::Schedule
    }
}

/// Takes note of how the start of the sending task went: after a failure, the
/// next wake-up tries again.
pub fn sender_start_result(telemetry: &mut Telemetry, started: bool)
    requires
        old(telemetry).wf(),
    ensures
        final(telemetry).wf(),
        final(telemetry)@ == old(telemetry)@.start_reported(started),
{
    if !started {
        telemetry.sender_started = false;
    }
}

/// How far a frame has gone out.
#[derive(Clone, Copy, Debug, PartialEq, Eq, Structural)]
pub enum SendStep {
    /// The stream is of no more use.
    Failed,
    /// These many bytes are out, and more are to be written.
    More(usize),
    /// All of the frame is out.
    Sent,
}

/// How far a frame has gone out, with `sent` of `len` bytes out before the last
/// write. A frame that was out by then, as an empty one is from the start, is
/// sent, and no write matters to it. Otherwise `reply` is the number of bytes
/// that were written; none at all counts as a failure.
pub open spec fn send_step(len: nat, sent: nat, reply: Result<usize, ()>) -> SendStep {
    if sent >= len {
        SendStep::Sent
    } else {
        match reply {
            Err(_) => SendStep::Failed,
            Ok(n) => if n == 0 {
                SendStep::Failed
            } else if sent + n < len {
                SendStep::More((sent + n) as usize)
            } else {
                SendStep::Sent
            },
        }
    }
}

/// Decides whether more of a frame is to be written.
pub fn send_frame(len: usize, sent: usize, reply: Result<usize, ()>) -> (r: SendStep)
    ensures
        r == send_step(len as nat, sent as nat, reply),
        sent == len ==> r == SendStep::Sent,
{
    if sent >= len {
        return SendStep::Sent;
    }
    match reply {
        Err(_) => SendStep::Failed,
        Ok(n) => if n == 0 {
            SendStep::Failed
        } else if n < len - sent {
            SendStep::More(sent + n)
        } else {
            SendStep::Sent
        },
    }
}

/// What the sending task waits for.
#[derive(Clone, Copy, Debug, PartialEq, Eq)]
pub enum SenderPhase {
    /// Other tasks to have run.
    Idle,
    /// A connection, to send this event.
    Connecting { event: TcpEvent },
    /// The rest of the frame for this event to be written.
    Sending { event: TcpEvent, dropped_events: u64, sent: usize },
}

/// The state of the sending task.
#[derive(Clone, Copy, Debug, PartialEq, Eq)]
pub struct TcpSender {
    /// There is a connection to the host.
    pub connected: bool,
    /// Frames sent since other tasks could last run for want of events or by the
    /// limit.
    pub batch_count: usize,
    /// What the task waits for.
    pub phase: SenderPhase,
}

/// What the sending task is to do next.
#[derive(Clone, Copy, Debug)]
pub enum SenderAction {
    /// Let other tasks run.
    Schedule,
    /// Connect to the host.
    Connect { port: u32, cid: u32 },
    /// Write the frame from `offset` on to the stream.
    Write { frame: [u8; FRAME_SIZE], offset: usize },
}

impl TcpSender {
    /// The task is within a batch, and within a frame.
    pub open spec fn wf(self) -> bool {
        &&& self.batch_count < SEND_BATCH_SIZE
        &&& self.phase matches SenderPhase::Sending { sent, .. } ==> sent < FRAME_SIZE
    }

    /// The task before it has done anything.
    pub fn new() -> (r: TcpSender)
        ensures
            r == (TcpSender { connected: false, batch_count: 0, phase: SenderPhase::Idle }),
    {
        TcpSender { connected: false, batch_count: 0, phase: SenderPhase::Idle }
    }
}

/// The task turns to the oldest event: without one it waits, without a
/// connection it makes one, and otherwise it starts on the frame.
pub open spec fn begin(
    connected: bool,
    batch_count: usize,
    queue: Seq<TcpEvent>,
    dropped_events: u64,
) -> TcpSender {
    if queue.len() == 0 {
        TcpSender { connected, batch_count: 0, phase: SenderPhase::Idle }
    } else if !connected {
        TcpSender { connected, batch_count, phase: SenderPhase::Connecting { event: queue[0] } }
    } else {
        TcpSender {
            connected,
            batch_count,
            phase: SenderPhase::Sending { event: queue[0], dropped_events, sent: 0 },
        }
    }
}

/// The state of the task, and the queue, after `reply`.
pub open spec fn task_step(
    sender: TcpSender,
    queue: Seq<TcpEvent>,
    dropped_events: u64,
    reply: Result<usize, ()>,
) -> (TcpSender, Seq<TcpEvent>) {
    match sender.phase {
        SenderPhase::Idle => (
            begin(sender.connected, sender.batch_count, queue, dropped_events),
            queue,
        ),
        SenderPhase::Connecting { event } => match reply {
            Ok(_) => (
                TcpSender {
                    connected: true,
                    phase: SenderPhase::Sending { event, dropped_events, sent: 0 },
                    ..sender
                },
                queue,
            ),
            Err(_) => (TcpSender { phase: SenderPhase::Idle, ..sender }, queue),
        },
        SenderPhase::Sending { event, dropped_events: reported, sent } => match send_step(
            FRAME_SIZE as nat,
            sent as nat,
            reply,
        ) {
            SendStep::Failed => (
                TcpSender { connected: false, phase: SenderPhase::Idle, ..sender },
                queue,
            ),
            SendStep::More(sent) => (
                TcpSender {
                    phase: SenderPhase::Sending { event, dropped_events: reported, sent },
                    ..sender
                },
                queue,
            ),
            SendStep::Sent => {
                let rest = without_front(queue, event.sequence);
                if sender.batch_count + 1 == SEND_BATCH_SIZE {
                    (TcpSender { batch_count: 0, phase: SenderPhase::Idle, ..sender }, rest)
                } else {
                    (
                        begin(
                            sender.connected,
                            (sender.batch_count + 1) as usize,
                            rest,
                            dropped_events,
                        ),
                        rest,
                    )
                }
            },
        },
    }
}

/// What a task in `phase` asks for.
pub open spec fn asks(phase: SenderPhase, action: SenderAction) -> bool {
    match phase {
        SenderPhase::Idle => action is Schedule,
        SenderPhase::Connecting { .. } => action == (SenderAction::Connect {
            port: TELEMETRY_PORT,
            cid: VMADDR_CID_HOST,
        }),
        SenderPhase::Sending { event, dropped_events, sent } => {
            &&& action matches SenderAction::Write { frame, offset }
            &&& frame@ == frame_bytes(event, dropped_events)
            &&& offset == sent
        },
    }
}

/// Turns to the oldest event.
fn begin_event(sender: &mut TcpSender, telemetry: &Telemetry)
    requires
        telemetry.wf(),
    ensures
        *final(sender) == begin(
            old(sender).connected,
            old(sender).batch_count,
            telemetry@.queue,
            telemetry@.dropped_events,
        ),
{
    match telemetry.queue.front() {
        None => {
            sender.batch_count = 0;
            sender.phase = SenderPhase::Idle;
        },
        Some(event) => if !sender.connected {
            sender.phase = SenderPhase::Connecting { event };
        } else {
            sender.phase = SenderPhase::Sending {
                event,
                dropped_events: telemetry.dropped_events,
                sent: 0,
            };
        },
    }
}

/// One step of the task that sends queued events to a host listener on CID 2,
/// port 4050.
///
/// The task starts, and starts again, with what this function returns, and
/// reports in `reply` how it went: `Ok` with the number of bytes after a write,
/// with any number after the other actions, or `Err`. The host listener must be
/// started before the first event is produced.
pub fn tcp_telemetry_task(
    sender: &mut TcpSender,
    telemetry: &mut Telemetry,
    reply: Result<usize, ()>,
) -> (action: SenderAction)
    requires
        old(sender).wf(),
        old(telemetry).wf(),
    ensures
        final(sender).wf(),
        final(telemetry).wf(),
        (*final(sender), final(telemetry)@.queue) == task_step(
            *old(sender),
            old(telemetry)@.queue,
            old(telemetry)@.dropped_events,
            reply,
        ),
        final(telemetry)@ == (Backlog { queue: final(telemetry)@.queue, ..old(telemetry)@ }),
        asks(final(sender).phase, action),
{
    match sender.phase {
        SenderPhase::Idle => {
            begin_event(sender, telemetry);
        },
        SenderPhase::Connecting { event } => match reply {
            Ok(_) => {
                sender.connected = true;
                sender.phase = SenderPhase::Sending {
                    event,
                    dropped_events: telemetry.dropped_events,
                    sent: 0,
                };
            },
            Err(_) => {
                sender.phase = SenderPhase::Idle;
            },
        },
        SenderPhase::Sending { event, dropped_events, sent } => match send_frame(
            FRAME_SIZE,
            sent,
            reply,
        ) {
            SendStep::Failed => {
                sender.connected = false;
                sender.phase = SenderPhase::Idle;
            },
            SendStep::More(sent) => {
                sender.phase = SenderPhase::Sending { event, dropped_events, sent };
            },
            SendStep::Sent => {
                telemetry.queue.pop_front(event.sequence);
                sender.batch_count = sender.batch_count + 1;
                if sender.batch_count == SEND_BATCH_SIZE {
                    sender.batch_count = 0;
                    sender.phase = SenderPhase::Idle;
                } else {
                    begin_event(sender, telemetry);
                }
            },
        },
    }
    match sender.phase {
        SenderPhase::Idle => SenderAction::Schedule,
        SenderPhase::Connecting { .. } => SenderAction::Connect {
            port: TELEMETRY_PORT,
            cid: VMADDR_CID_HOST,
        },
        SenderPhase::Sending { event, dropped_events, sent } => SenderAction::Write {
            frame: event.encode(dropped_events),
            offset: sent,
        },
    }
}

} // verus!
