//! What holds of an order from the first attempt to send it until it is done with.
use crate::pentair::circuit::Circuit;
use crate::pentair::encode::message_packet;
use crate::pentair::message::{MessageModel, PentairMessage};
use crate::pool_worker::link::{
    incoming_step, outgoing_step, overdue, sent_step, OutgoingModel, UartState, ACK_RETRY_TIMEOUT,
    MAX_RETRY_COUNT,
};
use crate::pool_worker::queue::next_out;
use vstd::prelude::*;

verus! {

/// Something that happens to the link: the bus is free and the clock is looked at, a first attempt
/// to send was made, or a message has come in.
pub enum LinkEvent {
    Look { queue: Seq<PentairMessage>, now: u128 },
    Sent { message: PentairMessage, written: bool, now: u128 },
    Incoming(MessageModel),
}

/// The state after `event`.
pub open spec fn link_step(state: UartState, event: LinkEvent) -> UartState {
    match event {
        LinkEvent::Look { queue, now } => outgoing_step(queue, state, now).1,
        LinkEvent::Sent { message, written, now } => sent_step(state, message, written, now),
        LinkEvent::Incoming(message) => incoming_step(message, state),
    }
}

/// Whether `event` is done with the order under way: it is acknowledged, or another takes its
/// place.
pub open spec fn ends_order(event: LinkEvent) -> bool {
    match event {
        LinkEvent::Look { .. } => false,
        LinkEvent::Sent { message, written, .. } => written && message is CircuitChange,
        LinkEvent::Incoming(message) => message is CircuitChangeResponse,
    }
}

/// Whether `event` is a look at the clock that finds the acknowledgement overdue.
pub open spec fn finds_overdue(state: UartState, event: LinkEvent) -> bool {
    event matches LinkEvent::Look { now, .. } && state matches UartState::AwaitingAck {
        last_sent,
        ..
    } && overdue(last_sent, now)
}

/// Whether the order under way is repeated at `event`.
pub open spec fn repeats(state: UartState, event: LinkEvent) -> bool {
    event matches LinkEvent::Look { queue, now } && outgoing_step(queue, state, now).2 is Resend
}

/// The link after `events`.
pub open spec fn link_after(state: UartState, events: Seq<LinkEvent>) -> UartState
    decreases events.len(),
{
    if events.len() == 0 {
        state
    } else {
        link_after(link_step(state, events[0]), events.skip(1))
    }
}

/// How often the order under way is repeated in the course of `events`, until it is done with.
pub open spec fn repetitions(state: UartState, events: Seq<LinkEvent>) -> nat
    decreases events.len(),
{
    if events.len() == 0 || state is Idle || ends_order(events[0]) {
        0
    } else {
        repetitions(link_step(state, events[0]), events.skip(1)) + if repeats(state, events[0]) {
            1nat
        } else {
            0nat
        }
    }
}

/// How many looks at the clock in the course of `events` find the acknowledgement of the order
/// under way overdue, until it is done with.
pub open spec fn overdue_looks(state: UartState, events: Seq<LinkEvent>) -> nat
    decreases events.len(),
{
    if events.len() == 0 || state is Idle || ends_order(events[0]) {
        0
    } else {
        overdue_looks(link_step(state, events[0]), events.skip(1)) + if finds_overdue(
            state,
            events[0],
        ) {
            1nat
        } else {
            0nat
        }
    }
}

/// How often the order under way may still be repeated.
pub open spec fn repetitions_left(state: UartState) -> int {
    match state {
        UartState::AwaitingAck { retry_count, .. } if retry_count < MAX_RETRY_COUNT => {
            MAX_RETRY_COUNT - retry_count
        },
        _ => 0,
    }
}

/// Whatever happens, in whatever order, an order is not repeated beyond the limit before it is
/// done with.
pub proof fn law_repetitions_are_limited(state: UartState, events: Seq<LinkEvent>)
    ensures
        repetitions(state, events) <= repetitions_left(state) <= MAX_RETRY_COUNT,
    decreases events.len(),
{
    if events.len() > 0 && state is AwaitingAck && !ends_order(events[0]) {
        law_repetitions_are_limited(link_step(state, events[0]), events.skip(1));
    }
}

/// How often any order is repeated in the course of `events`.
pub open spec fn all_repetitions(state: UartState, events: Seq<LinkEvent>) -> nat
    decreases events.len(),
{
    if events.len() == 0 {
        0
    } else {
        all_repetitions(link_step(state, events[0]), events.skip(1)) + if repeats(
            state,
            events[0],
        ) {
            1nat
        } else {
            0nat
        }
    }
}

/// How many orders are sent for the first time in the course of `events`.
pub open spec fn orders_sent(events: Seq<LinkEvent>) -> nat
    decreases events.len(),
{
    if events.len() == 0 {
        0
    } else {
        orders_sent(events.skip(1)) + if events[0] is Sent && ends_order(events[0]) {
            1nat
        } else {
            0nat
        }
    }
}

/// Over any course of events there are no more repetitions than the limit allows for the order
/// that was under way and for each that was sent since.
pub proof fn law_repetitions_are_limited_for_all_orders(state: UartState, events: Seq<LinkEvent>)
    ensures
        all_repetitions(state, events) <= repetitions_left(state) + MAX_RETRY_COUNT * orders_sent(
            events,
        ),
    decreases events.len(),
{
    if events.len() > 0 {
        law_repetitions_are_limited_for_all_orders(link_step(state, events[0]), events.skip(1));
    }
}

/// An order that is neither acknowledged nor replaced is repeated each time its acknowledgement is
/// found overdue, as often as the limit says, and given up the next time. Other looks at the clock
/// and other messages in between make no difference.
pub proof fn law_unanswered_order_is_given_up(
    message: PentairMessage,
    last_sent: u128,
    retry_count: u32,
    events: Seq<LinkEvent>,
)
    requires
        forall|i: int| 0 <= i < events.len() ==> !ends_order(#[trigger] events[i]),
    ensures
        ({
            let state = UartState::AwaitingAck { message, last_sent, retry_count };
            let left = repetitions_left(state);
            let found = overdue_looks(state, events);
            &&& found <= left + 1
            &&& repetitions(state, events) == if found <= left {
                found as int
            } else {
                left
            }
            &&& match link_after(state, events) {
                UartState::Idle => found == left + 1,
                UartState::AwaitingAck { message: waiting, retry_count: count, .. } => {
                    &&& found <= left
                    &&& waiting == message
                    &&& count == retry_count + found
                },
            }
        }),
    decreases events.len(),
{
    let state = UartState::AwaitingAck { message, last_sent, retry_count };
    if events.len() > 0 {
        let rest = events.skip(1);
        assert forall|i: int| 0 <= i < rest.len() implies !ends_order(#[trigger] rest[i]) by {
            assert(rest[i] == events[i + 1]);
        }
        assert(!ends_order(events[0]));
        match link_step(state, events[0]) {
            UartState::AwaitingAck { message: m, last_sent: sent, retry_count: count } => {
                law_unanswered_order_is_given_up(m, sent, count, rest);
            },
            UartState::Idle => {
                lemma_idle_stays_idle(rest);
                assert(repetitions(UartState::Idle, rest) == 0);
                assert(overdue_looks(UartState::Idle, rest) == 0);
            },
        }
    }
}

/// With no order sent, an idle link stays idle.
proof fn lemma_idle_stays_idle(events: Seq<LinkEvent>)
    requires
        forall|i: int| 0 <= i < events.len() ==> !ends_order(#[trigger] events[i]),
    ensures
        link_after(UartState::Idle, events) is Idle,
    decreases events.len(),
{
    if events.len() > 0 {
        let rest = events.skip(1);
        assert forall|i: int| 0 <= i < rest.len() implies !ends_order(#[trigger] rest[i]) by {
            assert(rest[i] == events[i + 1]);
        }
        assert(!ends_order(events[0]));
        lemma_idle_stays_idle(rest);
    }
}

/// The reading of the clock at a look.
pub open spec fn look_time(event: LinkEvent) -> int {
    event->Look_now as int
}

/// Silence ends an order: where the clock does not run backwards, and among the looks at it there
/// are enough that each comes more than the timeout after the one before, the order under way is
/// given up, whatever else happens in between.
pub proof fn law_silence_ends_an_order(
    message: PentairMessage,
    last_sent: u128,
    retry_count: u32,
    events: Seq<LinkEvent>,
    marks: Seq<int>,
)
    requires
        forall|i: int| 0 <= i < events.len() ==> !ends_order(#[trigger] events[i]),
        forall|i: int, j: int|
            0 <= i <= j < events.len() && (#[trigger] events[i]) is Look && (#[trigger] events[j])
                is Look ==> look_time(events[i]) <= look_time(events[j]),
        marks.len() > repetitions_left(
            (UartState::AwaitingAck { message, last_sent, retry_count }),
        ),
        forall|k: int|
            0 <= k < marks.len() ==> 0 <= #[trigger] marks[k] < events.len()
                && events[marks[k]] is Look,
        look_time(events[marks[0]]) - last_sent > ACK_RETRY_TIMEOUT,
        forall|k: int|
            0 < k < marks.len() ==> marks[k - 1] < #[trigger] marks[k] && look_time(
                events[marks[k]],
            ) - look_time(events[marks[k - 1]]) > ACK_RETRY_TIMEOUT,
    ensures
        link_after(
            UartState::AwaitingAck { message, last_sent, retry_count },
            events,
        ) is Idle,
    decreases events.len(),
{
    let state = UartState::AwaitingAck { message, last_sent, retry_count };
    assert(0 <= marks[0] < events.len());
    let rest = events.skip(1);
    assert forall|i: int| 0 <= i < rest.len() implies !ends_order(#[trigger] rest[i]) by {
        assert(rest[i] == events[i + 1]);
    }
    assert forall|i: int, j: int|
        0 <= i <= j < rest.len() && (#[trigger] rest[i]) is Look && (#[trigger] rest[j])
            is Look implies look_time(rest[i]) <= look_time(rest[j]) by {
        assert(rest[i] == events[i + 1]);
        assert(rest[j] == events[j + 1]);
    }
    assert(!ends_order(events[0]));
    if finds_overdue(state, events[0]) {
        if retry_count >= MAX_RETRY_COUNT {
            lemma_idle_stays_idle(rest);
        } else {
            assert(look_time(events[0]) <= look_time(events[marks[0]]));
            let later = Seq::new((marks.len() - 1) as nat, |k: int| marks[k + 1] - 1);
            assert forall|k: int| 0 <= k < later.len() implies 0 <= #[trigger] later[k]
                < rest.len() && rest[later[k]] is Look by {
                lemma_marks_increase(marks, 0, k + 1);
                assert(0 <= marks[k + 1] < events.len());
                assert(rest[later[k]] == events[marks[k + 1]]);
            }
            assert(rest[later[0]] == events[marks[1]]);
            assert(marks[0] < marks[1]);
            assert forall|k: int| 0 < k < later.len() implies later[k - 1] < #[trigger] later[k]
                && look_time(rest[later[k]]) - look_time(rest[later[k - 1]])
                > ACK_RETRY_TIMEOUT by {
                assert(0 <= later[k] < rest.len() && 0 <= later[k - 1] < rest.len());
                assert(marks[k] < marks[k + 1]);
                assert(rest[later[k]] == events[marks[k + 1]]);
                assert(rest[later[k - 1]] == events[marks[k]]);
            }
            let now = events[0]->Look_now;
            law_silence_ends_an_order(message, now, (retry_count + 1) as u32, rest, later);
        }
    } else {
        assert(marks[0] != 0);
        let later = Seq::new(marks.len(), |k: int| marks[k] - 1);
        assert forall|k: int| 0 <= k < later.len() implies 0 <= #[trigger] later[k] < rest.len()
            && rest[later[k]] is Look by {
            lemma_marks_increase(marks, 0, k);
            assert(0 <= marks[k] < events.len());
            assert(rest[later[k]] == events[marks[k]]);
        }
        assert(rest[later[0]] == events[marks[0]]);
        assert forall|k: int| 0 < k < later.len() implies later[k - 1] < #[trigger] later[k]
            && look_time(rest[later[k]]) - look_time(rest[later[k - 1]]) > ACK_RETRY_TIMEOUT by {
            assert(0 <= later[k] < rest.len() && 0 <= later[k - 1] < rest.len());
            assert(marks[k - 1] < marks[k]);
            assert(rest[later[k]] == events[marks[k]]);
            assert(rest[later[k - 1]] == events[marks[k - 1]]);
        }
        assert(link_step(state, events[0]) == state);
        law_silence_ends_an_order(message, last_sent, retry_count, rest, later);
    }
}

proof fn lemma_marks_increase(marks: Seq<int>, i: int, j: int)
    requires
        0 <= i <= j < marks.len(),
        forall|k: int| 0 < k < marks.len() ==> marks[k - 1] < #[trigger] marks[k],
    ensures
        marks[i] <= marks[j],
        i < j ==> marks[i] < marks[j],
    decreases j,
{
    if i < j {
        lemma_marks_increase(marks, i, j - 1);
        assert(marks[j - 1] < marks[j]);
    }
}

/// An order is repeated with the very bytes that it was first sent with, however often that was
/// done before.
pub proof fn law_repetition_is_the_same(
    queue: Seq<PentairMessage>,
    looked_at: u128,
    last_sent: u128,
    retry_count: u32,
    later: Seq<PentairMessage>,
    now: u128,
)
    requires
        queue.len() > 0,
        retry_count < MAX_RETRY_COUNT,
        overdue(last_sent, now),
    ensures
        ({
            let first = outgoing_step(queue, UartState::Idle, looked_at).2;
            let waiting = UartState::AwaitingAck { message: queue[0], last_sent, retry_count };
            let attempt = (retry_count + 1) as u32;
            let (_, next, again) = outgoing_step(later, waiting, now);
            &&& first is Send
            &&& again == OutgoingModel::Resend { attempt, bytes: first->Send_bytes }
            &&& next == UartState::AwaitingAck {
                message: queue[0],
                last_sent: now,
                retry_count: attempt,
            }
        }),
{
}

/// From the first attempt on, whatever happens until an order is done with, nothing is repeated
/// but the bytes that it was first sent with.
pub proof fn law_order_is_repeated_unchanged(
    queue: Seq<PentairMessage>,
    looked_at: u128,
    sent_at: u128,
    events: Seq<LinkEvent>,
    later: Seq<PentairMessage>,
    now: u128,
)
    requires
        next_out(queue) matches Some(message) && message is CircuitChange,
        forall|i: int| 0 <= i < events.len() ==> !ends_order(#[trigger] events[i]),
    ensures
        ({
            let (_, state, first) = outgoing_step(queue, UartState::Idle, looked_at);
            let link = link_after(sent_step(state, queue[0], true, sent_at), events);
            &&& first is Send
            &&& link matches UartState::AwaitingAck { message, .. } ==> message == queue[0]
            &&& outgoing_step(later, link, now).2 matches OutgoingModel::Resend { bytes, .. }
                ==> bytes == first->Send_bytes
        }),
{
    law_unanswered_order_is_given_up(queue[0], sent_at, 0, events);
}

/// A written order, on or off, that nobody acknowledges is left alone for half a second, whatever
/// else happens, and repeated with the same bytes at the first look at the clock after that.
pub proof fn law_order_is_repeated_when_time_is_up(
    state: UartState,
    circuit: Circuit,
    on: bool,
    sent_at: u128,
    events: Seq<LinkEvent>,
    queue: Seq<PentairMessage>,
    now: u128,
)
    requires
        forall|i: int| 0 <= i < events.len() ==> !ends_order(#[trigger] events[i]),
        forall|i: int|
            0 <= i < events.len() && (#[trigger] events[i]) is Look ==> look_time(events[i])
                <= sent_at + 500_000_000,
        now > sent_at + 500_000_000,
    ensures
        ({
            let order = PentairMessage::CircuitChange(circuit, on);
            let link = link_after(sent_step(state, order, true, sent_at), events);
            &&& link == UartState::AwaitingAck {
                message: order,
                last_sent: sent_at,
                retry_count: 0,
            }
            &&& repetitions(sent_step(state, order, true, sent_at), events) == 0
            &&& outgoing_step(queue, link, now).2 == OutgoingModel::Resend {
                attempt: 1,
                bytes: message_packet(MessageModel::CircuitChange(circuit, on)),
            }
        }),
    decreases events.len(),
{
    if events.len() > 0 {
        let rest = events.skip(1);
        assert(!ends_order(events[0]));
        assert forall|i: int| 0 <= i < rest.len() implies !ends_order(#[trigger] rest[i]) by {
            assert(rest[i] == events[i + 1]);
        }
        assert forall|i: int| 0 <= i < rest.len() && (#[trigger] rest[i]) is Look implies look_time(
            rest[i],
        ) <= sent_at + 500_000_000 by {
            assert(rest[i] == events[i + 1]);
        }
        law_order_is_repeated_when_time_is_up(state, circuit, on, sent_at, rest, queue, now);
    }
}

} // verus!
