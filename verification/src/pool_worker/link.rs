//! The sending of orders: each is repeated, up to a limit, until an acknowledgement is decoded.
//!
//! A message is looked for in the body of a packet, and there as a frame of its own, with start
//! byte and checksum. A body that holds no such frame, like that of an ordinary acknowledgement,
//! holds no message.
use crate::mqtt::{publication_of, state_report, Publication};
use crate::pentair::circuit::Circuit;
use crate::pentair::decode::decoded;
use crate::pentair::encode::message_packet;
use crate::pentair::laws::{law_round_trip, law_second_trip_loses_nothing, on_wire};
use crate::pentair::message::{MessageModel, PentairMessage, WireDecoder};
use crate::pool_worker::error::PentairError;
use crate::pool_worker::queue::{next_out, without_next, MessageQueue};
use vstd::prelude::*;

verus! {

/// Time in nanoseconds before triggering command re-transmission when awaiting an ACK.
pub const ACK_RETRY_TIMEOUT: u128 = 500_000_000;

/// Maximum number of transmission retries before aborting command execution.
pub const MAX_RETRY_COUNT: u32 = 10;

/// Whether an order is under way. Times are readings of one clock, in nanoseconds.
pub enum UartState {
    Idle,
    AwaitingAck { message: PentairMessage, last_sent: u128, retry_count: u32 },
}

/// What is to be done for the messages that go out.
pub enum Outgoing {
    Nothing,
    /// Write the bytes for the first time, and report whether that went well.
    Send { message: PentairMessage, bytes: Vec<u8> },
    /// Write the bytes of an order once more.
    Resend { attempt: u32, bytes: Vec<u8> },
    /// The order was not acknowledged in time, and is not repeated any more.
    GaveUp { message: PentairMessage },
}

/// What an [`Outgoing`] says.
#[verifier::ext_equal]
pub enum OutgoingModel {
    Nothing,
    Send { message: PentairMessage, bytes: Seq<u8> },
    Resend { attempt: u32, bytes: Seq<u8> },
    GaveUp { message: PentairMessage },
}

impl View for Outgoing {
    type V = OutgoingModel;

    open spec fn view(&self) -> OutgoingModel {
        match *self {
            Outgoing::Nothing => OutgoingModel::Nothing,
            Outgoing::Send { message, bytes } => OutgoingModel::Send { message, bytes: bytes@ },
            Outgoing::Resend { attempt, bytes } => OutgoingModel::Resend { attempt, bytes: bytes@ },
            Outgoing::GaveUp { message } => OutgoingModel::GaveUp { message },
        }
    }
}

/// Whether an acknowledgement is overdue at `now`.
pub open spec fn overdue(last_sent: u128, now: u128) -> bool {
    now - last_sent > ACK_RETRY_TIMEOUT
}

/// What is done while the bus is free: the next message is sent if none is under way. Otherwise
/// the one under way is repeated when its acknowledgement is overdue, up to a limit.
pub open spec fn outgoing_step(queue: Seq<PentairMessage>, state: UartState, now: u128) -> (
    Seq<PentairMessage>,
    UartState,
    OutgoingModel,
) {
    match state {
        UartState::Idle => (
            without_next(queue),
            state,
            match next_out(queue) {
                Some(message) => OutgoingModel::Send { message, bytes: message_packet(message@) },
                None => OutgoingModel::Nothing,
            },
        ),
        UartState::AwaitingAck { message, last_sent, retry_count } => if !overdue(last_sent, now) {
            (queue, state, OutgoingModel::Nothing)
        } else if retry_count >= MAX_RETRY_COUNT {
            (queue, UartState::Idle, OutgoingModel::GaveUp { message })
        } else {
            let attempt = (retry_count + 1) as u32;
            (
                queue,
                UartState::AwaitingAck { message, last_sent: now, retry_count: attempt },
                OutgoingModel::Resend { attempt, bytes: message_packet(message@) },
            )
        },
    }
}

/// The state after a first attempt to send `message`. Only an order that was written is waited
/// for; nothing else is acknowledged.
pub open spec fn sent_step(
    state: UartState,
    message: PentairMessage,
    written: bool,
    now: u128,
) -> UartState {
    if written && message is CircuitChange {
        UartState::AwaitingAck { message, last_sent: now, retry_count: 0 }
    } else {
        state
    }
}

/// The state after `message` has come in. The order under way is done when it is acknowledged.
pub open spec fn incoming_step(message: MessageModel, state: UartState) -> UartState {
    if message is CircuitChangeResponse {
        UartState::Idle
    } else {
        state
    }
}

/// Decodes the message in `buffer`, which has to hold a whole frame, with start byte and checksum.
pub fn process_package(buffer: &[u8]) -> (result: Result<PentairMessage, PentairError>)
    ensures
        match result {
            Ok(message) => decoded(buffer@) matches Some((decoded, _)) && decoded == message@,
            Err(error) => error == PentairError::InvalidMessage && decoded(buffer@) is None,
        },
{
    match PentairMessage::decode(buffer) {
        Ok((message, _)) => Ok(message),
        Err(err) => Err(PentairError::from(err)),
    }
}

/// Handles a successfully decoded incoming message: says what to publish and advances the
/// outgoing ACK state machine.
pub fn handle_message(msg: &PentairMessage, state: &mut UartState) -> (report: Option<Publication>)
    ensures
        *final(state) == incoming_step(msg@, *old(state)),
        match report {
            Some(report) => publication_of(msg@) == Some(report@),
            None => publication_of(msg@) is None,
        },
{
    match msg {
        PentairMessage::Status(system_state) => Some(state_report(system_state)),
        PentairMessage::CircuitChangeResponse => {
            *state = UartState::Idle;
            None
        },
        _ => None,
    }
}

/// Takes the next outgoing message when idle, or manages ACK retries/timeouts.
pub fn manage_outgoing(queue: &mut MessageQueue, state: &mut UartState, now: u128) -> (outgoing:
    Outgoing)
    ensures
        (final(queue)@, *final(state), outgoing@) == outgoing_step(old(queue)@, *old(state), now),
{
    let mut current = UartState::Idle;
    std::mem::swap(&mut current, state);
    match current {
        UartState::Idle => match queue.pop() {
            Some(message) => {
                let bytes: Vec<u8> = message.to_bytes();
                Outgoing::Send { message, bytes }
            },
            None => Outgoing::Nothing,
        },
        UartState::AwaitingAck { message, last_sent, retry_count } => {
            if now <= last_sent || now - last_sent <= ACK_RETRY_TIMEOUT {
                *state = UartState::AwaitingAck { message, last_sent, retry_count };
                Outgoing::Nothing
            } else if retry_count >= MAX_RETRY_COUNT {
                Outgoing::GaveUp { message }
            } else {
                let attempt: u32 = retry_count + 1;
                let bytes: Vec<u8> = message.to_bytes();
                *state = UartState::AwaitingAck { message, last_sent: now, retry_count: attempt };
                Outgoing::Resend { attempt, bytes }
            }
        },
    }
}

/// Takes note of a first attempt to send `message`, and of whether it was written.
pub fn finish_send(state: &mut UartState, message: PentairMessage, written: bool, now: u128)
    ensures
        *final(state) == sent_step(*old(state), message, written, now),
{
    if written {
        if let PentairMessage::CircuitChange(..) = message {
            *state = UartState::AwaitingAck { message, last_sent: now, retry_count: 0 };
        }
    }
}

/// What every state has in common: only orders are waited for, and none is repeated too often.
pub open spec fn link_wf(state: UartState) -> bool {
    state matches UartState::AwaitingAck { message, retry_count, .. } ==> {
        &&& message is CircuitChange
        &&& retry_count <= MAX_RETRY_COUNT
    }
}

/// Whatever happens to the link, only orders are waited for, and none is repeated too often.
pub proof fn law_link_stays_well_formed(
    state: UartState,
    queue: Seq<PentairMessage>,
    incoming: MessageModel,
    outgoing: PentairMessage,
    written: bool,
    now: u128,
)
    requires
        link_wf(state),
    ensures
        link_wf(outgoing_step(queue, state, now).1),
        link_wf(sent_step(state, outgoing, written, now)),
        link_wf(incoming_step(incoming, state)),
{
}

/// One order at a time: while one is under way, nothing is taken from the queue and no other
/// message is sent.
pub proof fn law_one_order_at_a_time(state: UartState, queue: Seq<PentairMessage>, now: u128)
    requires
        state is AwaitingAck,
    ensures
        outgoing_step(queue, state, now).0 == queue,
        !(outgoing_step(queue, state, now).2 is Send),
{
}

/// An acknowledgement makes way for the next message in the queue, whatever went before.
pub proof fn law_acknowledgement_makes_way(
    state: UartState,
    queue: Seq<PentairMessage>,
    now: u128,
)
    requires
        queue.len() > 0,
    ensures
        ({
            let idle = incoming_step(MessageModel::CircuitChangeResponse, state);
            let (rest, _, action) = outgoing_step(queue, idle, now);
            &&& rest == queue.skip(1)
            &&& action == OutgoingModel::Send {
                message: queue[0],
                bytes: message_packet(queue[0]@),
            }
        }),
{
}

/// Whoever reads what is written finds the message, in first attempts and repetitions alike.
pub proof fn law_what_is_written_can_be_read(
    queue: Seq<PentairMessage>,
    state: UartState,
    now: u128,
)
    ensures
        match outgoing_step(queue, state, now).2 {
            OutgoingModel::Send { message, bytes } => decoded(bytes) == Some(
                (on_wire(message@), Seq::<u8>::empty()),
            ),
            OutgoingModel::Resend { bytes, .. } => state matches UartState::AwaitingAck {
                message,
                ..
            } && decoded(bytes) == Some((on_wire(message@), Seq::<u8>::empty())),
            _ => true,
        },
{
    match state {
        UartState::Idle => {
            if queue.len() > 0 {
                lemma_packet_decodes(queue[0]@);
            }
        },
        UartState::AwaitingAck { message, .. } => {
            lemma_packet_decodes(message@);
        },
    }
}

proof fn lemma_packet_decodes(message: MessageModel)
    ensures
        decoded(message_packet(message)) == Some((on_wire(message), Seq::<u8>::empty())),
{
    law_second_trip_loses_nothing(message);
    law_round_trip(on_wire(message));
}

/// A written order is waited for, whichever circuit it switches and whether on or off, and the
/// wait begins when it was written.
pub proof fn law_written_order_is_waited_for(
    state: UartState,
    circuit: Circuit,
    on: bool,
    now: u128,
)
    ensures
        sent_step(state, PentairMessage::CircuitChange(circuit, on), true, now)
            == (UartState::AwaitingAck {
            message: PentairMessage::CircuitChange(circuit, on),
            last_sent: now,
            retry_count: 0,
        }),
{
}

/// What was not written is not waited for, and no other message is.
pub proof fn law_nothing_else_is_waited_for(
    state: UartState,
    message: PentairMessage,
    written: bool,
    now: u128,
)
    requires
        !written || !(message is CircuitChange),
    ensures
        sent_step(state, message, written, now) == state,
{
}

/// An acknowledgement ends the wait for any order. Nothing else that comes in changes the link.
pub proof fn law_only_an_acknowledgement_ends_the_wait(state: UartState, message: MessageModel)
    ensures
        message is CircuitChangeResponse ==> incoming_step(message, state) is Idle,
        !(message is CircuitChangeResponse) ==> incoming_step(message, state) == state,
{
}

/// While no order is under way, the message that has waited longest is sent as it is, and those
/// behind it stay. With nothing queued nothing is done.
pub proof fn law_idle_link_sends_the_next(
    first: PentairMessage,
    rest: Seq<PentairMessage>,
    now: u128,
)
    ensures
        outgoing_step(seq![first] + rest, UartState::Idle, now) == (
            rest,
            UartState::Idle,
            OutgoingModel::Send { message: first, bytes: message_packet(first@) },
        ),
        outgoing_step(Seq::empty(), UartState::Idle, now) == (
            Seq::<PentairMessage>::empty(),
            UartState::Idle,
            OutgoingModel::Nothing,
        ),
{
    assert((seq![first] + rest).skip(1) =~= rest);
}

/// An order under way is left alone for half a second. After that it is repeated and waited for
/// again, or given up where it was repeated ten times. The queue has to wait.
pub proof fn law_order_is_given_half_a_second(
    queue: Seq<PentairMessage>,
    message: PentairMessage,
    last_sent: u128,
    retry_count: u32,
    now: u128,
)
    ensures
        ({
            let state = UartState::AwaitingAck { message, last_sent, retry_count };
            let (left, next, action) = outgoing_step(queue, state, now);
            let late = now > last_sent + 500_000_000;
            &&& left == queue
            &&& !late ==> next == state && action is Nothing
            &&& late && retry_count < 10 ==> {
                &&& action == OutgoingModel::Resend {
                    attempt: (retry_count + 1) as u32,
                    bytes: message_packet(message@),
                }
                &&& next == UartState::AwaitingAck {
                    message,
                    last_sent: now,
                    retry_count: (retry_count + 1) as u32,
                }
            }
            &&& late && retry_count >= 10 ==> next is Idle && action == OutgoingModel::GaveUp {
                message,
            }
        }),
{
}

/// What is to be done and its model are the same.
pub proof fn law_model_says_what_is_to_be_done(outgoing: Outgoing)
    ensures
        match (outgoing, outgoing@) {
            (Outgoing::Nothing, OutgoingModel::Nothing) => true,
            (Outgoing::Send { message, bytes }, OutgoingModel::Send { message: m, bytes: b }) =>
                message == m && bytes@ == b,
            (Outgoing::Resend { attempt, bytes }, OutgoingModel::Resend { attempt: a, bytes: b }) =>
                attempt == a && bytes@ == b,
            (Outgoing::GaveUp { message }, OutgoingModel::GaveUp { message: m }) => message == m,
            _ => false,
        },
{
}

} // verus!
