//! What holds of the delivery of events.

use crate::bytes::{be16, be64, lemma_be64_sum, u16_to_be, u64_to_be};
use crate::tcp_telemetry::{
    asks, enqueue_tcp_event, frame_bytes, frame_layout, send_frame, send_step, sender_start_result,
    task_step, tcp_telemetry_task, telemetry_pending, wake_tcp_telemetry_sender, Backlog,
    EventQueue, SendStep, SenderAction, SenderPhase, TcpEvent, TcpSender, Telemetry, WakeAction,
    FRAME_SIZE, SENDER_TASK_ARGUMENT, SENDER_TASK_NAME,
};
use vstd::prelude::*;

verus! {

/// Every observed event either waits or is counted as dropped.
pub proof fn every_event_is_counted(before: Backlog, event: TcpEvent)
    requires
        before.dropped_events < u64::MAX,
    ensures
        ({
            let after = before.with_event(event);
            after.queue.len() + after.dropped_events == before.queue.len() + before.dropped_events
                + 1
        }),
        before.queue.is_prefix_of(before.with_event(event).queue),
{
}

/// Numbering events one by one keeps the backlog in order.
pub proof fn order_is_kept(before: Backlog, event: TcpEvent)
    requires
        before.ordered(),
        event.sequence == before.next_sequence + 1,
    ensures
        before.with_event(event).ordered(),
{
}

/// The sending task is started by the first wake-up and by no later one, unless
/// its start fails.
pub proof fn sender_starts_once(before: Backlog)
    requires
        !before.sender_started,
    ensures
        ({
            let (first, action) = before.woken();
            &&& action == WakeAction::StartTask {
                name: SENDER_TASK_NAME,
                argument: SENDER_TASK_ARGUMENT,
            }
            &&& first.start_reported(true).woken().1 == WakeAction::Schedule
            &&& first.start_reported(false) == before
        }),
{
}

/// The event on which the task works is the oldest that waits.
pub open spec fn works_on_front(sender: TcpSender, queue: Seq<TcpEvent>) -> bool {
    match sender.phase {
        SenderPhase::Idle => true,
        SenderPhase::Connecting { event } => queue.len() > 0 && queue[0] == event,
        SenderPhase::Sending { event, .. } => queue.len() > 0 && queue[0] == event,
    }
}

/// The event whose frame is complete with `reply`.
pub open spec fn completed(sender: TcpSender, reply: Result<usize, ()>) -> Seq<TcpEvent> {
    match sender.phase {
        SenderPhase::Sending { event, sent, .. } => if send_step(
            FRAME_SIZE as nat,
            sent as nat,
            reply,
        ) is Sent {
            seq![event]
        } else {
            Seq::empty()
        },
        _ => Seq::empty(),
    }
}

/// An event leaves the queue when all of its frame is out, and not before. Until
/// then it stays the oldest.
pub proof fn event_leaves_when_sent(
    sender: TcpSender,
    queue: Seq<TcpEvent>,
    dropped_events: u64,
    reply: Result<usize, ()>,
)
    requires
        works_on_front(sender, queue),
    ensures
        ({
            let (after, rest) = task_step(sender, queue, dropped_events, reply);
            &&& queue == completed(sender, reply) + rest
            &&& works_on_front(after, rest)
        }),
{
    let (after, rest) = task_step(sender, queue, dropped_events, reply);
    assert(queue =~= completed(sender, reply) + rest);
}

/// What happens between two steps of the task, and the step.
pub ghost struct Turn {
    /// The events that are queued before the step.
    pub arrived: Seq<TcpEvent>,
    /// How many events have been dropped by then.
    pub dropped_events: u64,
    /// How the last action went.
    pub reply: Result<usize, ()>,
}

/// The state of the task, and the queue, after these turns.
pub open spec fn run(sender: TcpSender, queue: Seq<TcpEvent>, turns: Seq<Turn>) -> (
    TcpSender,
    Seq<TcpEvent>,
)
    decreases turns.len(),
{
    if turns.len() == 0 {
        (sender, queue)
    } else {
        let turn = turns[0];
        let (after, rest) = task_step(
            sender,
            queue + turn.arrived,
            turn.dropped_events,
            turn.reply,
        );
        run(after, rest, turns.drop_first())
    }
}

/// The events whose frames were completed in these turns.
pub open spec fn delivered(sender: TcpSender, queue: Seq<TcpEvent>, turns: Seq<Turn>) -> Seq<
    TcpEvent,
>
    decreases turns.len(),
{
    if turns.len() == 0 {
        Seq::empty()
    } else {
        let turn = turns[0];
        let (after, rest) = task_step(
            sender,
            queue + turn.arrived,
            turn.dropped_events,
            turn.reply,
        );
        completed(sender, turn.reply) + delivered(after, rest, turns.drop_first())
    }
}

/// The events that were queued in these turns.
pub open spec fn arrivals(turns: Seq<Turn>) -> Seq<TcpEvent>
    decreases turns.len(),
{
    if turns.len() == 0 {
        Seq::empty()
    } else {
        turns[0].arrived + arrivals(turns.drop_first())
    }
}

/// Events are delivered in the order in which they were queued, each once, and
/// those that are not delivered still wait.
pub proof fn delivery_in_order(sender: TcpSender, queue: Seq<TcpEvent>, turns: Seq<Turn>)
    requires
        works_on_front(sender, queue),
    ensures
        queue + arrivals(turns) == delivered(sender, queue, turns) + run(sender, queue, turns).1,
        works_on_front(run(sender, queue, turns).0, run(sender, queue, turns).1),
    decreases turns.len(),
{
    if turns.len() == 0 {
        assert(queue + arrivals(turns) =~= delivered(sender, queue, turns) + queue);
    } else {
        let turn = turns[0];
        let now = queue + turn.arrived;
        assert(works_on_front(sender, now));
        event_leaves_when_sent(sender, now, turn.dropped_events, turn.reply);
        let (after, rest) = task_step(sender, now, turn.dropped_events, turn.reply);
        delivery_in_order(after, rest, turns.drop_first());
        assert(queue + arrivals(turns) =~= now + arrivals(turns.drop_first()));
        assert(now + arrivals(turns.drop_first()) =~= completed(sender, turn.reply) + (rest
            + arrivals(turns.drop_first())));
        assert(delivered(sender, queue, turns) + run(sender, queue, turns).1 =~= completed(
            sender,
            turn.reply,
        ) + (delivered(after, rest, turns.drop_first()) + run(
            after,
            rest,
            turns.drop_first(),
        ).1));
    }
}

/// What is out of the frame on which the task works.
pub open spec fn partial_frame(sender: TcpSender) -> Seq<u8> {
    match sender.phase {
        SenderPhase::Sending { event, dropped_events, sent } => frame_bytes(
            event,
            dropped_events,
        ).take(sent as int),
        _ => Seq::empty(),
    }
}

/// The bytes that the stream took with `reply`.
pub open spec fn accepted(sender: TcpSender, reply: Result<usize, ()>) -> Seq<u8> {
    match (sender.phase, reply) {
        (SenderPhase::Sending { event, dropped_events, sent }, Ok(n)) => frame_bytes(
            event,
            dropped_events,
        ).subrange(
            sent as int,
            if sent + n < FRAME_SIZE {
                sent + n
            } else {
                FRAME_SIZE as int
            },
        ),
        _ => Seq::empty(),
    }
}

/// The frame that is complete with `reply`.
pub open spec fn completed_frame(sender: TcpSender, reply: Result<usize, ()>) -> Seq<u8> {
    match sender.phase {
        SenderPhase::Sending { event, dropped_events, .. } => if completed(sender, reply).len()
            > 0 {
            frame_bytes(event, dropped_events)
        } else {
            Seq::empty()
        },
        _ => Seq::empty(),
    }
}

/// The bytes that the stream took in these turns.
pub open spec fn wire(sender: TcpSender, queue: Seq<TcpEvent>, turns: Seq<Turn>) -> Seq<u8>
    decreases turns.len(),
{
    if turns.len() == 0 {
        Seq::empty()
    } else {
        let turn = turns[0];
        let (after, rest) = task_step(
            sender,
            queue + turn.arrived,
            turn.dropped_events,
            turn.reply,
        );
        accepted(sender, turn.reply) + wire(after, rest, turns.drop_first())
    }
}

/// The frames that were completed in these turns, one after the other.
pub open spec fn frames(sender: TcpSender, queue: Seq<TcpEvent>, turns: Seq<Turn>) -> Seq<u8>
    decreases turns.len(),
{
    if turns.len() == 0 {
        Seq::empty()
    } else {
        let turn = turns[0];
        let (after, rest) = task_step(
            sender,
            queue + turn.arrived,
            turn.dropped_events,
            turn.reply,
        );
        completed_frame(sender, turn.reply) + frames(after, rest, turns.drop_first())
    }
}

/// The connection is not lost in these turns.
pub open spec fn stays_connected(sender: TcpSender, queue: Seq<TcpEvent>, turns: Seq<Turn>) -> bool
    decreases turns.len(),
{
    if turns.len() == 0 {
        sender.connected
    } else {
        let turn = turns[0];
        let (after, rest) = task_step(
            sender,
            queue + turn.arrived,
            turn.dropped_events,
            turn.reply,
        );
        sender.connected && stays_connected(after, rest, turns.drop_first())
    }
}

/// One step takes the stream from one place in a frame to the next: what was out
/// before and what the stream took make up the frame that is complete, if one
/// is, and what is out of the next.
proof fn lemma_wire_step(
    sender: TcpSender,
    queue: Seq<TcpEvent>,
    dropped_events: u64,
    reply: Result<usize, ()>,
)
    requires
        sender.wf(),
        sender.connected,
        task_step(sender, queue, dropped_events, reply).0.connected,
    ensures
        partial_frame(sender) + accepted(sender, reply) == completed_frame(sender, reply)
            + partial_frame(task_step(sender, queue, dropped_events, reply).0),
        task_step(sender, queue, dropped_events, reply).0.wf(),
{
    let after = task_step(sender, queue, dropped_events, reply).0;
    match sender.phase {
        SenderPhase::Sending { event, dropped_events: reported, sent } => {
            frame_layout(event, reported);
            let frame = frame_bytes(event, reported);
            if completed(sender, reply).len() > 0 {
                assert(partial_frame(after) =~= Seq::empty());
                assert(frame.take(sent as int) + frame.subrange(sent as int, FRAME_SIZE as int)
                    =~= frame);
                assert(frame + partial_frame(after) =~= frame);
            } else {
                let n = reply->Ok_0;
                assert(frame.take(sent as int) + frame.subrange(sent as int, sent + n)
                    =~= frame.take(sent + n));
                assert(completed_frame(sender, reply) + partial_frame(after)
                    =~= partial_frame(after));
            }
        },
        _ => {
            assert(partial_frame(after) =~= Seq::empty());
        },
    }
}

/// As long as a connection lasts, the host receives whole frames, one after the
/// other, in the order of the events, and at the end a part of one at most.
pub proof fn host_receives_whole_frames(
    sender: TcpSender,
    queue: Seq<TcpEvent>,
    turns: Seq<Turn>,
)
    requires
        sender.wf(),
        stays_connected(sender, queue, turns),
    ensures
        partial_frame(sender) + wire(sender, queue, turns) == frames(sender, queue, turns)
            + partial_frame(run(sender, queue, turns).0),
    decreases turns.len(),
{
    if turns.len() == 0 {
        assert(partial_frame(sender) + Seq::<u8>::empty() =~= Seq::<u8>::empty() + partial_frame(
            sender,
        ));
    } else {
        let turn = turns[0];
        let now = queue + turn.arrived;
        let rest_turns = turns.drop_first();
        let (after, rest) = task_step(sender, now, turn.dropped_events, turn.reply);
        assert(after.connected) by {
            reveal_with_fuel(stays_connected, 2);
        }
        lemma_wire_step(sender, now, turn.dropped_events, turn.reply);
        host_receives_whole_frames(after, rest, rest_turns);
        let before = partial_frame(sender);
        let took = accepted(sender, turn.reply);
        let done = completed_frame(sender, turn.reply);
        let later = wire(after, rest, rest_turns);
        assert(before + (took + later) =~= (before + took) + later);
        assert((done + partial_frame(after)) + later =~= done + (partial_frame(after) + later));
        let end = partial_frame(run(after, rest, rest_turns).0);
        assert(done + (frames(after, rest, rest_turns) + end) =~= (done + frames(
            after,
            rest,
            rest_turns,
        )) + end);
    }
}

/// The task does not let other tasks run before the last of these turns.
pub open spec fn keeps_running(sender: TcpSender, queue: Seq<TcpEvent>, turns: Seq<Turn>) -> bool
    decreases turns.len(),
{
    if turns.len() <= 1 {
        true
    } else {
        let turn = turns[0];
        let (after, rest) = task_step(
            sender,
            queue + turn.arrived,
            turn.dropped_events,
            turn.reply,
        );
        !(after.phase is Idle) && keeps_running(after, rest, turns.drop_first())
    }
}

/// The number that two bytes hold, highest first.
pub open spec fn number2(b: Seq<u8>, at: int) -> int {
    b[at] * 0x100 + b[at + 1]
}

/// The number that eight bytes hold, highest first.
pub open spec fn number8(b: Seq<u8>, at: int) -> int {
    b[at] * 0x100_0000_0000_0000 + b[at + 1] * 0x1_0000_0000_0000 + b[at + 2] * 0x100_0000_0000
        + b[at + 3] * 0x1_0000_0000 + b[at + 4] * 0x100_0000 + b[at + 5] * 0x1_0000 + b[at + 6]
        * 0x100 + b[at + 7]
}

/// The frame tells the host of this event, and of this number of dropped events:
/// 56 bytes, with each field in its place. It starts with `CTCP`, version 1, kind 1
/// and its own length.
pub open spec fn frame_tells(frame: Seq<u8>, event: TcpEvent, dropped_events: u64) -> bool {
    &&& frame.len() == 56
    &&& frame[0] == 67 && frame[1] == 84 && frame[2] == 67 && frame[3] == 80
    &&& frame[4] == 1 && frame[5] == 1
    &&& number2(frame, 6) == 56
    &&& number8(frame, 8) == event.sequence
    &&& number8(frame, 16) == event.observed_tsc
    &&& number8(frame, 24) == event.sock_ptr
    &&& frame[32] == event.state
    &&& frame[33] == 0 && frame[34] == 0 && frame[35] == 0
    &&& forall|i: int| 0 <= i < 4 ==> #[trigger] event.source_ipv4@[i] == frame[36 + i]
    &&& number2(frame, 40) == event.source_port
    &&& forall|i: int| 0 <= i < 4 ==> #[trigger] event.destination_ipv4@[i] == frame[42 + i]
    &&& number2(frame, 46) == event.destination_port
    &&& number8(frame, 48) == dropped_events
}

/// The frame tells the host of this event.
pub open spec fn tells_of(frame: Seq<u8>, event: TcpEvent) -> bool {
    exists|dropped_events: u64| frame_tells(frame, event, dropped_events)
}

proof fn lemma_number8(frame: Seq<u8>, at: int, v: u64)
    requires
        0 <= at <= frame.len() - 8,
        frame.subrange(at, at + 8) == be64(v),
    ensures
        number8(frame, at) == v,
{
    lemma_be64_sum(v);
    let b = frame.subrange(at, at + 8);
    assert(forall|i: int| 0 <= i < 8 ==> b[i] == frame[at + i]);
}

proof fn lemma_number2(frame: Seq<u8>, at: int, v: u16)
    requires
        0 <= at <= frame.len() - 2,
        frame.subrange(at, at + 2) == be16(v),
    ensures
        number2(frame, at) == v,
{
    let b = frame.subrange(at, at + 2);
    assert(b[0] == frame[at] && b[1] == frame[at + 1]);
}

proof fn lemma_frame_tells(event: TcpEvent, dropped_events: u64)
    ensures
        frame_tells(frame_bytes(event, dropped_events), event, dropped_events),
{
    let frame = frame_bytes(event, dropped_events);
    frame_layout(event, dropped_events);
    assert(forall|i: int| 0 <= i < 4 ==> frame.subrange(0, 4)[i] == frame[i]);
    lemma_number2(frame, 6, 56);
    lemma_number8(frame, 8, event.sequence);
    lemma_number8(frame, 16, event.observed_tsc);
    lemma_number8(frame, 24, event.sock_ptr);
    assert(forall|i: int| 0 <= i < 3 ==> frame.subrange(33, 36)[i] == frame[33 + i]);
    assert forall|i: int| 0 <= i < 4 implies #[trigger] event.source_ipv4@[i] == frame[36 + i] by {
        assert(frame.subrange(36, 40)[i] == frame[36 + i]);
    }
    lemma_number2(frame, 40, event.source_port);
    assert forall|i: int| 0 <= i < 4 implies #[trigger] event.destination_ipv4@[i] == frame[42
        + i] by {
        assert(frame.subrange(42, 46)[i] == frame[42 + i]);
    }
    lemma_number2(frame, 46, event.destination_port);
    lemma_number8(frame, 48, dropped_events);
}

/// The frame of an event tells of that event.
pub proof fn frame_tells_its_event(event: TcpEvent, dropped_events: u64, frame: [u8; 56])
    requires
        call_ensures(TcpEvent::encode, (event, dropped_events), frame),
    ensures
        frame_tells(frame@, event, dropped_events),
{
    lemma_frame_tells(event, dropped_events);
}

/// Numbers are split into their bytes, highest first.
pub proof fn numbers_are_split_into_bytes(v: u16, two: [u8; 2], w: u64, eight: [u8; 8])
    requires
        call_ensures(u16_to_be, (v,), two),
        call_ensures(u64_to_be, (w,), eight),
    ensures
        number2(two@, 0) == v,
        number8(eight@, 0) == w,
{
    assert(two@.subrange(0, 2) =~= two@);
    assert(eight@.subrange(0, 8) =~= eight@);
    lemma_number2(two@, 0, v);
    lemma_number8(eight@, 0, w);
}

/// An observed connection is numbered after the last. It waits behind the others,
/// with all that was observed of it, as long as no more than 127 wait; otherwise
/// it is counted as dropped, and those that wait are left alone.
pub proof fn connection_is_queued_or_counted(
    telemetry: &mut Telemetry,
    observed_tsc: u64,
    sock_ptr: u64,
    state: u8,
    source_ipv4: [u8; 4],
    source_port: u16,
    destination_ipv4: [u8; 4],
    destination_port: u16,
    r: bool,
)
    requires
        old(telemetry).wf(),
        old(telemetry)@.next_sequence < u64::MAX,
        call_ensures(
            enqueue_tcp_event,
            (
                telemetry,
                observed_tsc,
                sock_ptr,
                state,
                source_ipv4,
                source_port,
                destination_ipv4,
                destination_port,
            ),
            r,
        ),
    ensures
        ({
            let before = old(telemetry)@;
            let after = final(telemetry)@;
            let n = before.queue.len() as int;
            &&& after.next_sequence == before.next_sequence + 1
            &&& after.sender_started == before.sender_started
            &&& r <==> n < 128
            &&& r ==> {
                let event = after.queue[n];
                &&& after.queue.len() == n + 1
                &&& forall|i: int| 0 <= i < n ==> #[trigger] after.queue[i] == before.queue[i]
                &&& event.sequence == after.next_sequence
                &&& event.observed_tsc == observed_tsc
                &&& event.sock_ptr == sock_ptr
                &&& event.state == state
                &&& event.source_ipv4 == source_ipv4
                &&& event.source_port == source_port
                &&& event.destination_ipv4 == destination_ipv4
                &&& event.destination_port == destination_port
                &&& after.dropped_events == before.dropped_events
            }
            &&& !r ==> after.queue == before.queue && (after.dropped_events
                == before.dropped_events + 1 || before.dropped_events == u64::MAX
                && after.dropped_events == 0)
        }),
{
}

/// Nothing waits at first, and something waits exactly as long as an event is in
/// the queue.
pub proof fn pending_means_waiting(
    new: Telemetry,
    queue: EventQueue,
    telemetry: &Telemetry,
    r: bool,
    sequence: u64,
)
    requires
        call_ensures(Telemetry::new, (), new),
        call_ensures(EventQueue::new, (), queue),
        call_ensures(telemetry_pending, (telemetry,), r),
        call_ensures(Telemetry::last_sequence, (telemetry,), sequence),
    ensures
        queue.wf() && queue@.len() == 0,
        sequence == telemetry@.next_sequence,
        new.wf(),
        new@.queue.len() == 0 && new@.next_sequence == 0 && new@.dropped_events == 0,
        !new@.sender_started,
        r <==> telemetry@.queue.len() > 0,
{
}

/// The queue is first in, first out: what is put in comes behind the others, the
/// oldest is in front, and only the oldest leaves, by its own number.
pub proof fn queue_is_first_in_first_out(
    queue: &mut EventQueue,
    event: TcpEvent,
    pushed: bool,
    front: Option<TcpEvent>,
    empty: bool,
    popped: &mut EventQueue,
    sequence: u64,
    unit: (),
)
    requires
        old(queue).wf(),
        call_ensures(EventQueue::push, (queue, event), pushed),
        call_ensures(EventQueue::front, (&*final(queue),), front),
        call_ensures(EventQueue::is_empty, (&*final(queue),), empty),
        *old(popped) == *final(queue),
        call_ensures(EventQueue::pop_front, (popped, sequence), unit),
    ensures
        pushed <==> old(queue)@.len() < 128,
        pushed ==> final(queue)@ == old(queue)@.push(event),
        !pushed ==> final(queue)@ == old(queue)@,
        empty <==> final(queue)@.len() == 0,
        front is None <==> empty,
        front matches Some(oldest) ==> oldest == final(queue)@[0],
        front matches Some(oldest) ==> final(popped)@ == if oldest.sequence == sequence {
            final(queue)@.skip(1)
        } else {
            final(queue)@
        },
{
    if final(queue)@.len() > 0 {
        assert(final(queue)@.drop_first() =~= final(queue)@.skip(1));
    }
}

/// The first wake-up asks for the task, by its name, and later ones let it run. If
/// the task could not be started, the next wake-up asks for it again. No wake-up
/// touches the events.
pub proof fn first_wake_up_starts_the_task(
    first: &mut Telemetry,
    action: WakeAction,
    told: &mut Telemetry,
    started: bool,
    unit: (),
    second: &mut Telemetry,
    next: WakeAction,
)
    requires
        old(first).wf(),
        call_ensures(wake_tcp_telemetry_sender, (first,), action),
        *old(told) == *final(first),
        call_ensures(sender_start_result, (told, started), unit),
        *old(second) == *final(told),
        call_ensures(wake_tcp_telemetry_sender, (second,), next),
    ensures
        action is Schedule <==> old(first)@.sender_started,
        action matches WakeAction::StartTask { name, argument } ==> name@
            == "TCP telemetry sender"@ && argument == 0,
        next is StartTask <==> !started,
        final(second)@.sender_started,
        final(second)@.queue == old(first)@.queue,
        final(second)@.next_sequence == old(first)@.next_sequence,
        final(second)@.dropped_events == old(first)@.dropped_events,
{
}

/// A frame is out once as many bytes as it has were written. A write that fails or
/// takes nothing before that is a failure, and any other takes the frame on by the
/// bytes that were written.
pub proof fn writes_add_up(len: usize, sent: usize, reply: Result<usize, ()>, r: SendStep)
    requires
        call_ensures(send_frame, (len, sent, reply), r),
    ensures
        sent >= len ==> r == SendStep::Sent,
        sent < len ==> match reply {
            Err(_) => r == SendStep::Failed,
            Ok(n) => {
                &&& n == 0 ==> r == SendStep::Failed
                &&& 0 < n && sent + n < len ==> (r matches SendStep::More(now) && now == sent + n)
                &&& 0 < n && sent + n >= len ==> r == SendStep::Sent
            },
        },
{
}

/// The task works on the oldest event that waits, and writes only while it is
/// connected.
pub open spec fn coherent(sender: TcpSender, queue: Seq<TcpEvent>) -> bool {
    match sender.phase {
        SenderPhase::Idle => true,
        SenderPhase::Connecting { event } => queue.len() > 0 && queue[0] == event
            && !sender.connected,
        SenderPhase::Sending { event, .. } => queue.len() > 0 && queue[0] == event
            && sender.connected,
    }
}

/// What the task asks for fits what waits. It writes the frame of the oldest event,
/// with the number of events dropped by the time it began on that frame. Without
/// a connection it asks for one to port 4050 of the host, which has address 2.
pub proof fn task_tells_of_the_oldest_event(
    sender: &mut TcpSender,
    telemetry: &mut Telemetry,
    reply: Result<usize, ()>,
    action: SenderAction,
)
    requires
        old(sender).wf(),
        old(telemetry).wf(),
        coherent(*old(sender), old(telemetry)@.queue),
        call_ensures(tcp_telemetry_task, (sender, telemetry, reply), action),
    ensures
        final(sender).wf(),
        coherent(*final(sender), final(telemetry)@.queue),
        match action {
            SenderAction::Schedule => final(sender).phase is Idle,
            SenderAction::Connect { port, cid } => {
                &&& port == 4050 && cid == 2
                &&& !final(sender).connected
                &&& final(telemetry)@.queue.len() > 0
            },
            SenderAction::Write { frame, offset } => {
                &&& final(sender).connected
                &&& offset < 56
                &&& final(telemetry)@.queue.len() > 0
                &&& final(sender).phase matches SenderPhase::Sending { dropped_events, sent, .. }
                    && sent == offset && frame_tells(
                    frame@,
                    final(telemetry)@.queue[0],
                    dropped_events,
                )
                &&& offset == 0 ==> frame_tells(
                    frame@,
                    final(telemetry)@.queue[0],
                    final(telemetry)@.dropped_events,
                )
            },
        },
        final(telemetry)@.next_sequence == old(telemetry)@.next_sequence,
        final(telemetry)@.dropped_events == old(telemetry)@.dropped_events,
        final(telemetry)@.sender_started == old(telemetry)@.sender_started,
{
    if let SenderPhase::Sending { event, dropped_events, .. } = final(sender).phase {
        lemma_frame_tells(event, dropped_events);
    }
}

/// How the task goes on, from what it waited for and how that went:
///
/// - Where it let others run, it turns to the oldest event, if one waits.
/// - A failed connection lets others run, and keeps the event.
/// - A failed write closes the connection, lets others run, and keeps the event.
/// - A short write is followed by the rest of the same frame.
/// - Once a frame is out, its event leaves. After 32 frames others may run, and so
///   they may when nothing waits; otherwise the next event is turned to at once.
pub proof fn task_goes_on(
    sender: &mut TcpSender,
    telemetry: &mut Telemetry,
    reply: Result<usize, ()>,
    action: SenderAction,
)
    requires
        old(sender).wf(),
        old(telemetry).wf(),
        coherent(*old(sender), old(telemetry)@.queue),
        call_ensures(tcp_telemetry_task, (sender, telemetry, reply), action),
    ensures
        old(sender).phase is Idle ==> {
            &&& final(telemetry)@.queue == old(telemetry)@.queue
            &&& final(sender).connected == old(sender).connected
            &&& action is Schedule <==> old(telemetry)@.queue.len() == 0
            &&& action is Connect <==> old(telemetry)@.queue.len() > 0 && !old(sender).connected
            &&& action matches SenderAction::Write { offset, .. } ==> offset == 0
            &&& final(sender).batch_count == if old(telemetry)@.queue.len() == 0 {
                0
            } else {
                old(sender).batch_count
            }
        },
        old(sender).phase is Connecting ==> {
            &&& final(telemetry)@.queue == old(telemetry)@.queue
            &&& final(sender).batch_count == old(sender).batch_count
            &&& final(sender).connected <==> reply is Ok
            &&& reply is Err ==> action is Schedule
            &&& reply is Ok ==> (action matches SenderAction::Write { offset, .. } && offset == 0)
        },
        old(sender).phase matches SenderPhase::Sending { sent, dropped_events, .. } ==> match
            reply {
            Err(_) => {
                &&& action is Schedule
                &&& !final(sender).connected
                &&& final(telemetry)@.queue == old(telemetry)@.queue
                &&& final(sender).batch_count == old(sender).batch_count
            },
            Ok(n) => if n == 0 {
                &&& action is Schedule
                &&& !final(sender).connected
                &&& final(telemetry)@.queue == old(telemetry)@.queue
                &&& final(sender).batch_count == old(sender).batch_count
            } else if sent + n < 56 {
                &&& final(telemetry)@.queue == old(telemetry)@.queue
                &&& final(sender).batch_count == old(sender).batch_count
                &&& action matches SenderAction::Write { frame, offset } && offset == sent + n
                    && frame_tells(frame@, old(telemetry)@.queue[0], dropped_events)
            } else {
                let rest = old(telemetry)@.queue.skip(1);
                &&& final(telemetry)@.queue == rest
                &&& final(sender).connected
                &&& action is Schedule <==> old(sender).batch_count == 31 || rest.len() == 0
                &&& action is Schedule ==> final(sender).batch_count == 0
                &&& !(action is Schedule) ==> {
                    &&& action matches SenderAction::Write { offset, .. } && offset == 0
                    &&& final(sender).batch_count == old(sender).batch_count + 1
                }
            },
        },
{
    if old(telemetry)@.queue.len() > 0 {
        assert(old(telemetry)@.queue.drop_first() =~= old(telemetry)@.queue.skip(1));
    }
    if let SenderPhase::Sending { event, dropped_events, .. } = final(sender).phase {
        lemma_frame_tells(event, dropped_events);
    }
}

/// Any connection may be queued as long as there are numbers left, any frame be
/// encoded, and the task be given any reply.
pub proof fn telemetry_takes_any_input(
    telemetry: &mut Telemetry,
    observed_tsc: u64,
    sock_ptr: u64,
    state: u8,
    source_ipv4: [u8; 4],
    source_port: u16,
    destination_ipv4: [u8; 4],
    destination_port: u16,
    event: TcpEvent,
    len: usize,
    sent: usize,
    sender: &mut TcpSender,
    reply: Result<usize, ()>,
)
    requires
        old(telemetry).wf(),
        old(sender).batch_count < 32,
        old(sender).phase matches SenderPhase::Sending { sent, .. } ==> sent < 56,
    ensures
        old(telemetry)@.next_sequence < u64::MAX ==> call_requires(
            enqueue_tcp_event,
            (
                telemetry,
                observed_tsc,
                sock_ptr,
                state,
                source_ipv4,
                source_port,
                destination_ipv4,
                destination_port,
            ),
        ),
        call_requires(TcpEvent::encode, (event, sock_ptr)),
        call_requires(send_frame, (len, sent, reply)),
        call_requires(wake_tcp_telemetry_sender, (telemetry,)),
        call_requires(tcp_telemetry_task, (sender, telemetry, reply)),
{
}

/// The task starts without a connection and with nothing sent.
pub proof fn task_starts_idle(r: TcpSender)
    requires
        call_ensures(TcpSender::new, (), r),
    ensures
        r.wf(),
        r.phase is Idle && !r.connected && r.batch_count == 0,
        forall|queue: Seq<TcpEvent>| coherent(r, queue),
{
}

/// One step of the task: what happens before it, and what is then asked for.
pub ghost struct Beat {
    pub turn: Turn,
    pub action: SenderAction,
}

/// The turns of these steps.
pub open spec fn turns_of(beats: Seq<Beat>) -> Seq<Turn> {
    beats.map_values(|beat: Beat| beat.turn)
}

/// These are steps that the task may take.
pub open spec fn beats_from(sender: TcpSender, queue: Seq<TcpEvent>, beats: Seq<Beat>) -> bool
    decreases beats.len(),
{
    if beats.len() == 0 {
        true
    } else {
        let turn = beats[0].turn;
        let (after, rest) = task_step(
            sender,
            queue + turn.arrived,
            turn.dropped_events,
            turn.reply,
        );
        asks(after.phase, beats[0].action) && beats_from(after, rest, beats.drop_first())
    }
}

/// A call of the task is such a step.
pub proof fn call_is_a_step(
    sender: &mut TcpSender,
    telemetry: &mut Telemetry,
    reply: Result<usize, ()>,
    action: SenderAction,
)
    requires
        call_ensures(tcp_telemetry_task, (sender, telemetry, reply), action),
    ensures
        ({
            let before = old(telemetry)@;
            let turn = Turn {
                arrived: Seq::empty(),
                dropped_events: before.dropped_events,
                reply,
            };
            beats_from(*old(sender), before.queue, seq![Beat { turn, action }])
        }),
{
    let queue = old(telemetry)@.queue;
    assert(queue + Seq::<TcpEvent>::empty() =~= queue);
    reveal_with_fuel(beats_from, 2);
}

/// The bytes that the stream takes of what was asked for.
pub open spec fn took(action: SenderAction, reply: Result<usize, ()>) -> Seq<u8> {
    match (action, reply) {
        (SenderAction::Write { frame, offset }, Ok(n)) => frame@.subrange(
            offset as int,
            if offset + n < 56 {
                offset + n
            } else {
                56
            },
        ),
        _ => Seq::empty(),
    }
}

/// The bytes that the stream takes in these steps, with `first` asked for before
/// them.
pub open spec fn wire_of(first: SenderAction, beats: Seq<Beat>) -> Seq<u8>
    decreases beats.len(),
{
    if beats.len() == 0 {
        Seq::empty()
    } else {
        took(first, beats[0].turn.reply) + wire_of(beats[0].action, beats.drop_first())
    }
}

proof fn lemma_wire_of(
    first: SenderAction,
    sender: TcpSender,
    queue: Seq<TcpEvent>,
    beats: Seq<Beat>,
)
    requires
        asks(sender.phase, first),
        beats_from(sender, queue, beats),
    ensures
        wire_of(first, beats) == wire(sender, queue, turns_of(beats)),
    decreases beats.len(),
{
    if beats.len() > 0 {
        let turn = beats[0].turn;
        let (after, rest) = task_step(
            sender,
            queue + turn.arrived,
            turn.dropped_events,
            turn.reply,
        );
        lemma_wire_of(beats[0].action, after, rest, beats.drop_first());
        assert(turns_of(beats).drop_first() =~= turns_of(beats.drop_first()));
        assert(turns_of(beats)[0] == turn);
    }
}

proof fn lemma_completed_frame(sender: TcpSender, reply: Result<usize, ()>)
    ensures
        completed(sender, reply).len() <= 1,
        completed_frame(sender, reply).len() == 56 * completed(sender, reply).len(),
        completed(sender, reply).len() == 1 ==> tells_of(
            completed_frame(sender, reply),
            completed(sender, reply)[0],
        ),
{
    if let SenderPhase::Sending { event, dropped_events, .. } = sender.phase {
        lemma_frame_tells(event, dropped_events);
    }
}

/// The `k`-th stretch of 56 bytes, behind `front` and in front of it.
proof fn lemma_stretch(front: Seq<u8>, later: Seq<u8>, n: int, k: int)
    requires
        front.len() == 56 * n,
        n <= k,
        56 * (k - n) + 56 <= later.len(),
    ensures
        (front + later).subrange(56 * k, 56 * k + 56) == later.subrange(
            56 * (k - n),
            56 * (k - n) + 56,
        ),
{
    assert((front + later).subrange(56 * k, 56 * k + 56) =~= later.subrange(
        56 * (k - n),
        56 * (k - n) + 56,
    ));
}

#[verifier::spinoff_prover]
#[verifier::rlimit(40)]
proof fn lemma_frames(sender: TcpSender, queue: Seq<TcpEvent>, turns: Seq<Turn>, k: int)
    requires
        0 <= k < delivered(sender, queue, turns).len(),
    ensures
        tells_of(
            frames(sender, queue, turns).subrange(56 * k, 56 * k + 56),
            delivered(sender, queue, turns)[k],
        ),
    decreases turns.len(),
{
    let turn = turns[0];
    let (after, rest) = task_step(sender, queue + turn.arrived, turn.dropped_events, turn.reply);
    let later = turns.drop_first();
    let head = completed(sender, turn.reply);
    let front = completed_frame(sender, turn.reply);
    lemma_frames_len(after, rest, later);
    lemma_completed_frame(sender, turn.reply);
    if k < head.len() {
        assert((front + frames(after, rest, later)).subrange(0, 56) =~= front);
    } else {
        let j = k - head.len();
        lemma_frames(after, rest, later, j);
        lemma_stretch(front, frames(after, rest, later), head.len() as int, k);
        assert(delivered(sender, queue, turns)[k] == delivered(after, rest, later)[j]);
    }
}

proof fn lemma_frames_len(sender: TcpSender, queue: Seq<TcpEvent>, turns: Seq<Turn>)
    ensures
        frames(sender, queue, turns).len() == 56 * delivered(sender, queue, turns).len(),
    decreases turns.len(),
{
    if turns.len() > 0 {
        let turn = turns[0];
        let (after, rest) = task_step(
            sender,
            queue + turn.arrived,
            turn.dropped_events,
            turn.reply,
        );
        lemma_frames_len(after, rest, turns.drop_first());
        lemma_completed_frame(sender, turn.reply);
    }
}

/// As long as a connection lasts, and from the start of a frame on, what the stream
/// takes of what is asked for is one frame of 56 bytes for each event that has
/// left the queue, in the order of the queue, each telling of its event; behind
/// them comes the first part of one frame at most.
pub proof fn host_is_told_of_each_event(
    first: SenderAction,
    sender: TcpSender,
    queue: Seq<TcpEvent>,
    beats: Seq<Beat>,
    k: int,
)
    requires
        sender.wf(),
        coherent(sender, queue),
        sender.phase matches SenderPhase::Sending { sent, .. } ==> sent == 0,
        asks(sender.phase, first),
        beats_from(sender, queue, beats),
        stays_connected(sender, queue, turns_of(beats)),
    ensures
        ({
            let turns = turns_of(beats);
            let taken = wire_of(first, beats);
            let gone = delivered(sender, queue, turns);
            let waiting = run(sender, queue, turns).1;
            &&& queue + arrivals(turns) == gone + waiting
            &&& 56 * gone.len() <= taken.len() < 56 * gone.len() + 56
            &&& 0 <= k < gone.len() ==> tells_of(taken.subrange(56 * k, 56 * k + 56), gone[k])
        }),
{
    let turns = turns_of(beats);
    lemma_wire_of(first, sender, queue, beats);
    host_receives_whole_frames(sender, queue, turns);
    delivery_in_order(sender, queue, turns);
    lemma_frames_len(sender, queue, turns);
    lemma_run_wf(sender, queue, turns);
    let done = frames(sender, queue, turns);
    let end = partial_frame(run(sender, queue, turns).0);
    let taken = wire_of(first, beats);
    assert(partial_frame(sender) =~= Seq::empty());
    assert(partial_frame(sender) + taken =~= taken);
    assert(taken == done + end);
    if let SenderPhase::Sending { event, dropped_events, .. } = run(sender, queue, turns).0.phase {
        frame_layout(event, dropped_events);
    }
    if 0 <= k < delivered(sender, queue, turns).len() {
        lemma_frames(sender, queue, turns, k);
        assert(taken.subrange(56 * k, 56 * k + 56) =~= done.subrange(56 * k, 56 * k + 56));
    }
}

proof fn lemma_run_wf(sender: TcpSender, queue: Seq<TcpEvent>, turns: Seq<Turn>)
    requires
        sender.wf(),
    ensures
        run(sender, queue, turns).0.wf(),
    decreases turns.len(),
{
    if turns.len() > 0 {
        let turn = turns[0];
        let (after, rest) = task_step(
            sender,
            queue + turn.arrived,
            turn.dropped_events,
            turn.reply,
        );
        lemma_run_wf(after, rest, turns.drop_first());
    }
}

/// At most a batch of frames goes out before other tasks may run.
pub proof fn batch_is_bounded(sender: TcpSender, queue: Seq<TcpEvent>, turns: Seq<Turn>)
    requires
        sender.wf(),
        keeps_running(sender, queue, turns),
    ensures
        sender.batch_count + delivered(sender, queue, turns).len() <= 32,
    decreases turns.len(),
{
    if turns.len() > 0 {
        let turn = turns[0];
        let (after, rest) = task_step(
            sender,
            queue + turn.arrived,
            turn.dropped_events,
            turn.reply,
        );
        if turns.len() == 1 {
            assert(delivered(after, rest, turns.drop_first()).len() == 0);
        } else {
            batch_is_bounded(after, rest, turns.drop_first());
        }
    }
}

/// Writing the rest of a frame, of which `sent` bytes are out, with these replies:
/// the bytes that the stream took, and whether all of the frame is out or a write
/// has failed. With neither, more is to be written.
pub open spec fn writing(
    frame: Seq<u8>,
    sent: nat,
    replies: Seq<Result<usize, ()>>,
) -> (Seq<u8>, Option<bool>)
    decreases replies.len(),
{
    if sent >= frame.len() {
        (Seq::empty(), Some(true))
    } else if replies.len() == 0 {
        (Seq::empty(), None)
    } else {
        match send_step(frame.len(), sent, replies[0]) {
            SendStep::Failed => (Seq::empty(), Some(false)),
            SendStep::More(now) => {
                let (taken, end) = writing(frame, now as nat, replies.drop_first());
                (frame.subrange(sent as int, now as int) + taken, end)
            },
            SendStep::Sent => (frame.skip(sent as int), Some(true)),
        }
    }
}

/// A write took something.
pub open spec fn took_some(reply: Result<usize, ()>) -> bool {
    reply matches Ok(n) && n > 0
}

/// The bytes that the stream takes are the frame, in order, with nothing left out
/// and nothing sent twice: all of it once it is sent, and a first part before.
/// It fails only where a write takes nothing, and after such a write it is either
/// failed or was out before. An empty frame is sent without a write.
pub proof fn frame_is_sent_in_order(
    frame: Seq<u8>,
    sent: nat,
    replies: Seq<Result<usize, ()>>,
)
    requires
        sent <= frame.len() <= usize::MAX,
    ensures
        ({
            let (taken, end) = writing(frame, sent, replies);
            &&& taken.is_prefix_of(frame.skip(sent as int))
            &&& end == Some(true) <==> taken == frame.skip(sent as int)
            &&& end == Some(false) ==> exists|i: int|
                0 <= i < replies.len() && !took_some(#[trigger] replies[i])
            &&& end is None ==> forall|i: int|
                0 <= i < replies.len() ==> took_some(#[trigger] replies[i])
            &&& sent == frame.len() ==> end == Some(true)
        }),
    decreases replies.len(),
{
    assert(frame.skip(sent as int).len() == frame.len() - sent);
    if sent == frame.len() {
        assert(frame.skip(sent as int) =~= Seq::empty());
    } else if replies.len() > 0 {
        match send_step(frame.len(), sent, replies[0]) {
            SendStep::Failed => {
                assert(!took_some(replies[0]));
            },
            SendStep::More(now) => {
                let rest = replies.drop_first();
                let (taken, end) = writing(frame, now as nat, rest);
                let part = frame.subrange(sent as int, now as int);
                frame_is_sent_in_order(frame, now as nat, rest);
                assert(frame.skip(sent as int) =~= part + frame.skip(now as int));
                assert((part + taken).skip(part.len() as int) =~= taken);
                assert(frame.skip(sent as int).skip(part.len() as int) =~= frame.skip(now as int));
                assert(part + taken == frame.skip(sent as int) ==> taken == frame.skip(now as int));
                if end is None {
                    assert forall|i: int| 0 <= i < replies.len() implies took_some(
                        #[trigger] replies[i],
                    ) by {
                        assert(i > 0 ==> took_some(rest[i - 1]));
                    }
                }
                if end == Some(false) {
                    let i = choose|i: int| 0 <= i < rest.len() && !took_some(#[trigger] rest[i]);
                    assert(!took_some(replies[i + 1]));
                }
            },
            SendStep::Sent => {},
        }
    }
}

/// After a failed write, the same event is sent again from its first byte, over
/// a new connection.
pub proof fn failed_frame_is_sent_again(
    sender: TcpSender,
    queue: Seq<TcpEvent>,
    event: TcpEvent,
    dropped_events: u64,
    failure: Result<usize, ()>,
    arrived: Seq<TcpEvent>,
    resumed: Result<usize, ()>,
    connected: usize,
)
    requires
        sender.wf(),
        works_on_front(sender, queue),
        sender.phase matches SenderPhase::Sending { event: e, .. } && e == event,
        failure == Err::<usize, ()>(()) || failure == Ok::<usize, ()>(0),
    ensures
        ({
            let (failed, kept) = task_step(sender, queue, dropped_events, failure);
            let (retry, waiting) = task_step(failed, kept + arrived, dropped_events, resumed);
            let (again, still) = task_step(retry, waiting, dropped_events, Ok(connected));
            &&& failed.phase is Idle
            &&& !failed.connected
            &&& retry.phase == SenderPhase::Connecting { event }
            &&& again.phase == SenderPhase::Sending { event, dropped_events, sent: 0 }
            &&& still == queue + arrived
        }),
{
}

} // verus!
