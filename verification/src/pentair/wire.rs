//! What the bytes on the wire mean, byte by byte.
//!
//! Positions in a packet count the preamble: the addressing bytes stand at 4 to 7, the length at
//! 8, the payload from 9 on. Positions in a body are smaller by four.
use crate::pentair::circuit::Circuit;
use crate::pentair::decode::{
    body_at, decoded, first_frame_at, frame_at, frame_end, lemma_decoded_at, parsed, parsed_state,
};
use crate::pentair::encode::{base_switches, is_on, message_body, message_packet, payload};
use crate::pentair::laws::lemma_body_reads_back;
use crate::pentair::message::{ClockCalendar, MessageModel, PumpStatus, StateModel};
use crate::pentair::packet::{checksum, law_layout_of_a_packet, sealed};
use vstd::prelude::*;

verus! {

/// One for on, nothing for off.
pub open spec fn one_if(on: bool) -> int {
    if on {
        1
    } else {
        0
    }
}

/// Whether a switch is listed and on.
pub open spec fn switched_on(switches: Seq<bool>, i: int) -> bool {
    switches.len() > i && switches[i]
}

proof fn lemma_bits(b: u8)
    ensures
        (b & 0x01 != 0) == (b % 2 == 1),
        (b & 0x02 != 0) == (b / 2 % 2 == 1),
        (b & 0x04 != 0) == (b / 4 % 2 == 1),
        (b & 0x08 != 0) == (b / 8 % 2 == 1),
        (b & 0x10 != 0) == (b / 16 % 2 == 1),
        (b & 0x20 != 0) == (b / 32 % 2 == 1),
        (b & 0x40 != 0) == (b / 64 % 2 == 1),
        (b & 0x80 != 0) == (b / 128 == 1),
{
    assert((b & 0x01 != 0) == (b % 2 == 1) && (b & 0x02 != 0) == (b / 2 % 2 == 1) && (b & 0x04
        != 0) == (b / 4 % 2 == 1) && (b & 0x08 != 0) == (b / 8 % 2 == 1) && (b & 0x10 != 0) == (b
        / 16 % 2 == 1) && (b & 0x20 != 0) == (b / 32 % 2 == 1) && (b & 0x40 != 0) == (b / 64 % 2
        == 1) && (b & 0x80 != 0) == (b / 128 == 1)) by (bit_vector);
}

/// Every message goes out in a frame: the preamble, five bytes of which the last says how long
/// the payload is, the payload, and the checksum over everything from the start byte on.
pub proof fn law_every_message_is_framed(message: MessageModel)
    ensures
        ({
            let packet = message_packet(message);
            let n = packet.len() as int;
            &&& n == 11 + packet[8]
            &&& packet.take(4) == seq![0xFFu8, 0x00u8, 0xFFu8, 0xA5u8]
            &&& 256 * packet[n - 2] + packet[n - 1] == checksum(packet.subrange(3, n - 2))
        }),
{
    lemma_body_reads_back(message);
    let body = message_body(message);
    law_layout_of_a_packet(body);
    assert(body[4] == sealed(body)[8]);
    assert(sealed(body).take(4) =~= seq![0xFFu8, 0x00u8, 0xFFu8, 0xA5u8]);
}

proof fn lemma_switch_byte(state: StateModel)
    ensures
        base_switches(state) == one_if(state.spa_on) + 2 * one_if(
            switched_on(state.aux_circuits, 0),
        ) + 4 * one_if(switched_on(state.aux_circuits, 1)) + 8 * one_if(
            switched_on(state.aux_circuits, 2),
        ) + 16 * one_if(switched_on(state.feature_circuits, 0)) + 32 * one_if(state.pool_on) + 64
            * one_if(switched_on(state.feature_circuits, 1)) + 128 * one_if(
            switched_on(state.feature_circuits, 2),
        ),
{
    let spa: u8 = if state.spa_on { 1 } else { 0 };
    let a0: u8 = if is_on(state.aux_circuits, 0) { 2 } else { 0 };
    let a1: u8 = if is_on(state.aux_circuits, 1) { 4 } else { 0 };
    let a2: u8 = if is_on(state.aux_circuits, 2) { 8 } else { 0 };
    let f0: u8 = if is_on(state.feature_circuits, 0) { 16 } else { 0 };
    let pool: u8 = if state.pool_on { 32 } else { 0 };
    let f1: u8 = if is_on(state.feature_circuits, 1) { 64 } else { 0 };
    let f2: u8 = if is_on(state.feature_circuits, 2) { 128 } else { 0 };
    assert(base_switches(state) == spa | a0 | a1 | a2 | f0 | pool | f1 | f2);
    assert(spa | a0 | a1 | a2 | f0 | pool | f1 | f2 == spa + a0 + a1 + a2 + f0 + pool + f1 + f2)
        by (bit_vector)
        requires
            spa == 0 || spa == 1,
            a0 == 0 || a0 == 2,
            a1 == 0 || a1 == 4,
            a2 == 0 || a2 == 8,
            f0 == 0 || f0 == 16,
            pool == 0 || pool == 32,
            f1 == 0 || f1 == 64,
            f2 == 0 || f2 == 128,
    ;
}

/// The packet of a status: each switch has a bit of its own, each temperature a byte. The rest
/// is the same in all of them.
pub proof fn law_bytes_of_a_status(state: StateModel)
    ensures
        ({
            let packet = message_packet(MessageModel::Status(state));
            &&& packet.len() == 40
            &&& packet[4] == 0x01 && packet[5] == 0x0F && packet[6] == 0x10 && packet[7] == 0x02
            &&& packet[8] == 29
            &&& packet[9] == 12
            &&& packet[11] == one_if(state.spa_on) + 2 * one_if(
                switched_on(state.aux_circuits, 0),
            ) + 4 * one_if(switched_on(state.aux_circuits, 1)) + 8 * one_if(
                switched_on(state.aux_circuits, 2),
            ) + 16 * one_if(switched_on(state.feature_circuits, 0)) + 32 * one_if(state.pool_on)
                + 64 * one_if(switched_on(state.feature_circuits, 1)) + 128 * one_if(
                switched_on(state.feature_circuits, 2),
            )
            &&& packet[12] == one_if(switched_on(state.feature_circuits, 3))
            &&& packet[23] == state.water_temp % 256
            &&& packet[25] == 2
            &&& packet[26] == 70
            &&& packet[27] == state.air_temp % 256
            &&& packet[28] == state.solar_temp % 256
            &&& forall|i: int|
                i == 10 || 13 <= i <= 22 || i == 24 || 29 <= i <= 37 ==> #[trigger] packet[i] == 0
        }),
{
    lemma_switch_byte(state);
    let data = payload(MessageModel::Status(state));
    let packet = message_packet(MessageModel::Status(state));
    assert(forall|i: int| 9 <= i < 38 ==> packet[i] == data[i - 9]);
}

/// The packet of an order: the number of the circuit, and one for on or zero for off.
pub proof fn law_bytes_of_an_order(circuit: Circuit, on: bool)
    ensures
        ({
            let packet = message_packet(MessageModel::CircuitChange(circuit, on));
            &&& packet.len() == 13
            &&& packet.subrange(4, 9) == seq![0x01u8, 0x10u8, 0x48u8, 0x86u8, 2u8]
            &&& Circuit::with_code(packet[9]) == Some(circuit)
            &&& packet[10] == one_if(on)
        }),
{
    let packet = message_packet(MessageModel::CircuitChange(circuit, on));
    assert(packet.subrange(4, 9) =~= seq![0x01u8, 0x10u8, 0x48u8, 0x86u8, 2u8]);
}

/// The packets that carry no data of their own, and who sends them to whom.
pub proof fn law_bytes_of_acknowledgement_and_request()
    ensures
        message_packet(MessageModel::CircuitChangeResponse).subrange(4, 10) == seq![
            0x01u8,
            0x48u8,
            0x10u8,
            0x01u8,
            1u8,
            0x86u8,
        ],
        message_packet(MessageModel::CircuitChangeResponse).len() == 12,
        message_packet(MessageModel::RemoteLayoutRequest).subrange(4, 10) == seq![
            0x01u8,
            0x10u8,
            0x48u8,
            0xE1u8,
            1u8,
            0x01u8,
        ],
        message_packet(MessageModel::RemoteLayoutRequest).len() == 12,
{
    assert(message_packet(MessageModel::CircuitChangeResponse).subrange(4, 10) =~= seq![
        0x01u8,
        0x48u8,
        0x10u8,
        0x01u8,
        1u8,
        0x86u8,
    ]);
    assert(message_packet(MessageModel::RemoteLayoutRequest).subrange(4, 10) =~= seq![
        0x01u8,
        0x10u8,
        0x48u8,
        0xE1u8,
        1u8,
        0x01u8,
    ]);
}

/// The packet of a layout: the numbers of the four circuits, from the first row to the last.
pub proof fn law_bytes_of_a_layout(row1: Circuit, row2: Circuit, row3: Circuit, row4: Circuit)
    ensures
        ({
            let packet = message_packet(
                MessageModel::RemoteLayoutResponse { row1, row2, row3, row4 },
            );
            &&& packet.len() == 15
            &&& packet.subrange(4, 9) == seq![0x01u8, 0x0Fu8, 0x10u8, 0x21u8, 4u8]
            &&& Circuit::with_code(packet[9]) == Some(row1)
            &&& Circuit::with_code(packet[10]) == Some(row2)
            &&& Circuit::with_code(packet[11]) == Some(row3)
            &&& Circuit::with_code(packet[12]) == Some(row4)
        }),
{
    let packet = message_packet(MessageModel::RemoteLayoutResponse { row1, row2, row3, row4 });
    assert(packet.subrange(4, 9) =~= seq![0x01u8, 0x0Fu8, 0x10u8, 0x21u8, 4u8]);
}

/// The packet of a clock: time, day and date, then what is said of daylight saving.
pub proof fn law_bytes_of_a_clock(clock: ClockCalendar)
    ensures
        ({
            let packet = message_packet(MessageModel::ClockBroadcast(clock));
            &&& packet.len() == 19
            &&& packet.subrange(4, 9) == seq![0x01u8, 0x0Fu8, 0x10u8, 0x05u8, 8u8]
            &&& packet[9] == clock.hour && packet[10] == clock.minute
            &&& packet[11] == clock.day_of_week && packet[12] == clock.day_of_month
            &&& packet[13] == clock.month && packet[14] == clock.year
            &&& packet[15] == clock.clock_adjust && packet[16] == clock.dst
        }),
{
    let packet = message_packet(MessageModel::ClockBroadcast(clock));
    assert(packet.subrange(4, 9) =~= seq![0x01u8, 0x0Fu8, 0x10u8, 0x05u8, 8u8]);
}

/// The packet of a pump status: ten says that the pump runs, four that it does not. Power and
/// speed take two bytes each, high byte first.
pub proof fn law_bytes_of_a_pump_status(pump: PumpStatus)
    ensures
        ({
            let packet = message_packet(MessageModel::PumpStatusRequestOrProvide(pump));
            &&& packet.len() == 26
            &&& packet.subrange(4, 9) == seq![0x00u8, 0x10u8, 0x60u8, 0x07u8, 15u8]
            &&& packet[9] == 4 + 6 * one_if(pump.running)
            &&& packet[10] == pump.mode && packet[11] == pump.state
            &&& 256 * packet[12] + packet[13] == pump.power_watts % 65536
            &&& 256 * packet[14] + packet[15] == pump.speed_rpm % 65536
            &&& packet[16] == pump.flow_gpm && packet[17] == pump.filter_percent_used
            &&& packet[18] == 0
            &&& packet[19] == pump.error_code
            &&& packet[20] == pump.time_remaining_hours
            &&& packet[21] == pump.time_remaining_minutes
            &&& packet[22] == pump.clock_hours && packet[23] == pump.clock_minutes
        }),
{
    let packet = message_packet(MessageModel::PumpStatusRequestOrProvide(pump));
    assert(packet.subrange(4, 9) =~= seq![0x00u8, 0x10u8, 0x60u8, 0x07u8, 15u8]);
}

/// What a status packet says: each switch is a bit of the eighth byte, the fourth feature one of
/// the ninth if there is one. The temperatures are bytes, and zero where the body is too short.
pub proof fn law_meaning_of_a_status(body: Seq<u8>)
    requires
        body.len() >= 5,
        body[3] == 0x02,
    ensures
        match parsed(body) {
            Some(MessageModel::Status(state)) => {
                let long = body.len() >= 25;
                &&& body.len() >= 8
                &&& state.spa_on == (body[7] % 2 == 1)
                &&& state.pool_on == (body[7] / 32 % 2 == 1)
                &&& state.aux_circuits.len() == 3
                &&& state.aux_circuits[0] == (body[7] / 2 % 2 == 1)
                &&& state.aux_circuits[1] == (body[7] / 4 % 2 == 1)
                &&& state.aux_circuits[2] == (body[7] / 8 % 2 == 1)
                &&& state.feature_circuits.len() == if body.len() == 8 { 3int } else { 4int }
                &&& state.feature_circuits[0] == (body[7] / 16 % 2 == 1)
                &&& state.feature_circuits[1] == (body[7] / 64 % 2 == 1)
                &&& state.feature_circuits[2] == (body[7] / 128 == 1)
                &&& body.len() > 8 ==> state.feature_circuits[3] == (body[8] % 2 == 1)
                &&& state.water_temp == if long { body[19] as int } else { 0 }
                &&& state.air_temp == if long { body[23] as int } else { 0 }
                &&& state.solar_temp == if long { body[24] as int } else { 0 }
            },
            Some(_) => false,
            None => body.len() < 8,
        },
{
    if body.len() >= 8 {
        lemma_bits(body[7]);
    }
    if body.len() > 8 {
        lemma_bits(body[8]);
    }
}

/// The state that is read off a body does not depend on what the packet says its command is.
pub proof fn law_state_is_read_as_in_a_status(body: Seq<u8>)
    requires
        body.len() >= 5,
    ensures
        match (parsed_state(body), parsed(body.update(3, 0x02))) {
            (Some(state), Some(MessageModel::Status(other))) => state == other,
            (None, None) => true,
            _ => false,
        },
{
    let status = body.update(3, 0x02);
    if body.len() >= 8 {
        assert(parsed_state(status)->0 =~= parsed_state(body)->0);
    }
}

/// A body of fewer than eight bytes reports no state.
pub proof fn law_short_body_reports_no_state(body: Seq<u8>)
    ensures
        parsed_state(body) is None <==> body.len() < 8,
{
}

/// What an order says: the number of a circuit, and zero for off or anything else for on.
pub proof fn law_meaning_of_an_order(body: Seq<u8>)
    requires
        body.len() >= 5,
        body[3] == 0x86,
    ensures
        match parsed(body) {
            Some(MessageModel::CircuitChange(circuit, on)) => {
                &&& body.len() >= 7
                &&& body[5] == circuit.code()
                &&& on == (body[6] > 0)
            },
            Some(_) => false,
            None => body.len() < 7 || forall|circuit: Circuit| #[trigger]
                circuit.code() != body[5],
        },
{
}

/// An acknowledgement and a request for the layout are told by their commands alone.
pub proof fn law_meaning_of_acknowledgement_and_request(body: Seq<u8>)
    requires
        body.len() >= 5,
    ensures
        parsed(body) == Some(MessageModel::CircuitChangeResponse) <==> body[3] == 0x01,
        parsed(body) == Some(MessageModel::RemoteLayoutRequest) <==> body[3] == 0xE1,
{
}

/// What a layout says: the numbers of four circuits, all of which have to exist.
pub proof fn law_meaning_of_a_layout(body: Seq<u8>)
    requires
        body.len() >= 5,
        body[3] == 0x21,
    ensures
        match parsed(body) {
            Some(MessageModel::RemoteLayoutResponse { row1, row2, row3, row4 }) => {
                &&& body.len() >= 9
                &&& body[5] == row1.code() && body[6] == row2.code()
                &&& body[7] == row3.code() && body[8] == row4.code()
            },
            Some(_) => false,
            None => body.len() < 9 || exists|i: int|
                5 <= i < 9 && Circuit::with_code(#[trigger] body[i]) is None,
        },
{
    if body.len() >= 9 && parsed(body) is None {
        assert(Circuit::with_code(body[5]) is None || Circuit::with_code(body[6]) is None
            || Circuit::with_code(body[7]) is None || Circuit::with_code(body[8]) is None);
    }
}

/// What a clock says.
pub proof fn law_meaning_of_a_clock(body: Seq<u8>)
    requires
        body.len() >= 5,
        body[3] == 0x05,
    ensures
        match parsed(body) {
            Some(MessageModel::ClockBroadcast(clock)) => {
                &&& body.len() >= 13
                &&& body[5] == clock.hour && body[6] == clock.minute
                &&& body[7] == clock.day_of_week && body[8] == clock.day_of_month
                &&& body[9] == clock.month && body[10] == clock.year
                &&& body[11] == clock.clock_adjust && body[12] == clock.dst
            },
            Some(_) => false,
            None => body.len() < 13,
        },
{
}

/// What a pump status says. The pump runs exactly where the first byte of the payload is ten.
pub proof fn law_meaning_of_a_pump_status(body: Seq<u8>)
    requires
        body.len() >= 5,
        body[3] == 0x07,
    ensures
        match parsed(body) {
            Some(MessageModel::PumpStatusRequestOrProvide(pump)) => {
                &&& body.len() >= 20
                &&& pump.running == (body[5] == 10)
                &&& pump.mode == body[6] && pump.state == body[7]
                &&& pump.power_watts == 256 * body[8] + body[9]
                &&& pump.speed_rpm == 256 * body[10] + body[11]
                &&& pump.flow_gpm == body[12] && pump.filter_percent_used == body[13]
                &&& pump.error_code == body[15]
                &&& pump.time_remaining_hours == body[16]
                &&& pump.time_remaining_minutes == body[17]
                &&& pump.clock_hours == body[18] && pump.clock_minutes == body[19]
            },
            Some(_) => false,
            None => body.len() < 20,
        },
{
}

/// No other command means anything.
pub proof fn law_other_commands_mean_nothing(body: Seq<u8>)
    requires
        body.len() >= 5,
        !seq![0x01u8, 0x02u8, 0x05u8, 0x07u8, 0x21u8, 0x86u8, 0xE1u8].contains(body[3]),
    ensures
        parsed(body) is None,
{
    let known = seq![0x01u8, 0x02u8, 0x05u8, 0x07u8, 0x21u8, 0x86u8, 0xE1u8];
    assert(known[0] == 0x01 && known[1] == 0x02 && known[2] == 0x05 && known[3] == 0x07 && known[4]
        == 0x21 && known[5] == 0x86 && known[6] == 0xE1);
}

/// A start byte, a body as long as its length byte says, and two bytes behind it are a frame
/// exactly where those two are the checksum, whatever stands before and behind.
pub proof fn law_checksum_makes_the_frame(
    before: Seq<u8>,
    body: Seq<u8>,
    high: u8,
    low: u8,
    behind: Seq<u8>,
)
    requires
        body.len() >= 5,
        body.len() == 5 + body[4],
    ensures
        ({
            let data = before + seq![0xA5u8] + body + seq![high, low] + behind;
            let i = before.len() as int;
            &&& frame_at(data, i) <==> checksum(seq![0xA5u8] + body) == 256 * high + low
            &&& body_at(data, i) == body
            &&& frame_end(data, i) == data.len() - behind.len()
        }),
{
    let data = before + seq![0xA5u8] + body + seq![high, low] + behind;
    let i = before.len() as int;
    let end = i + 1 + body.len() + 2;
    assert(data[i + 5] == body[4]);
    assert(data.subrange(i, end - 2) =~= seq![0xA5u8] + body);
    assert(data[end - 2] == high && data[end - 1] == low);
    assert(body_at(data, i) =~= body);
}

/// There is no frame without a start byte, nor one that the data end in the middle of.
pub proof fn law_frame_is_whole(data: Seq<u8>, i: int)
    requires
        frame_at(data, i),
    ensures
        0 <= i,
        data[i] == 0xA5,
        i + 8 + data[i + 5] <= data.len(),
{
}

/// The first frame decides, and it alone: its body is what is decoded, and what stands behind it
/// is left over.
pub proof fn law_first_frame_is_decoded(
    before: Seq<u8>,
    body: Seq<u8>,
    high: u8,
    low: u8,
    behind: Seq<u8>,
)
    requires
        body.len() >= 5,
        body.len() == 5 + body[4],
        checksum(seq![0xA5u8] + body) == 256 * high + low,
        forall|j: int|
            0 <= j < before.len() ==> !frame_at(
                before + seq![0xA5u8] + body + seq![high, low] + behind,
                j,
            ),
    ensures
        match decoded(before + seq![0xA5u8] + body + seq![high, low] + behind) {
            Some((message, rest)) => parsed(body) == Some(message) && rest == behind,
            None => parsed(body) is None,
        },
{
    let data = before + seq![0xA5u8] + body + seq![high, low] + behind;
    let i = before.len() as int;
    law_checksum_makes_the_frame(before, body, high, low, behind);
    assert(first_frame_at(data, i));
    lemma_decoded_at(data, i);
    assert(data.skip(frame_end(data, i)) =~= behind);
}

/// Data without a frame hold no message.
pub proof fn law_no_message_without_a_frame(data: Seq<u8>)
    requires
        forall|i: int| !frame_at(data, i),
    ensures
        decoded(data) is None,
{
    assert forall|i: int| !first_frame_at(data, i) by {
        assert(!frame_at(data, i));
    }
}

} // verus!
