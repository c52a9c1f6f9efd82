//! What holds between encoding and decoding.
use crate::pentair::circuit::law_circuit_is_found_by_its_code;
use crate::pentair::decode::{
    body_at, decoded, first_frame_at, frame_at, frame_end, lemma_decoded_at, parsed, parsed_state,
};
use crate::pentair::encode::{
    base_switches, flag, is_on, low_byte, message_body, message_packet, payload, second_byte,
    status_payload,
};
use crate::pentair::message::{MessageModel, PumpStatus, StateModel};
use crate::pentair::packet::{
    big_endian, byte_sum, checksum, from_big_endian, sealed, START_BYTE,
};
use vstd::prelude::*;

verus! {

/// What the packet of a status message has room for: three auxiliary circuits, four feature
/// circuits, and temperatures of one byte.
pub open spec fn state_on_wire(state: StateModel) -> StateModel {
    let aux = state.aux_circuits;
    let features = state.feature_circuits;
    StateModel {
        pool_on: state.pool_on,
        spa_on: state.spa_on,
        aux_circuits: seq![is_on(aux, 0), is_on(aux, 1), is_on(aux, 2)],
        feature_circuits: seq![
            is_on(features, 0),
            is_on(features, 1),
            is_on(features, 2),
            is_on(features, 3),
        ],
        water_temp: state.water_temp % 256,
        air_temp: state.air_temp % 256,
        solar_temp: state.solar_temp % 256,
    }
}

/// What the packet of a message says of it. Power and speed of a pump are two bytes wide.
pub open spec fn on_wire(message: MessageModel) -> MessageModel {
    match message {
        MessageModel::Status(state) => MessageModel::Status(state_on_wire(state)),
        MessageModel::PumpStatusRequestOrProvide(pump) => MessageModel::PumpStatusRequestOrProvide(
            PumpStatus {
                power_watts: pump.power_watts % 0x1_0000,
                speed_rpm: pump.speed_rpm % 0x1_0000,
                ..pump
            },
        ),
        _ => message,
    }
}

/// Whether a packet can say everything that the message says.
pub open spec fn fits(message: MessageModel) -> bool {
    match message {
        MessageModel::Status(state) => {
            &&& state.aux_circuits.len() == 3
            &&& state.feature_circuits.len() == 4
            &&& state.water_temp < 256
            &&& state.air_temp < 256
            &&& state.solar_temp < 256
        },
        MessageModel::PumpStatusRequestOrProvide(pump) => {
            &&& pump.power_watts < 0x1_0000
            &&& pump.speed_rpm < 0x1_0000
        },
        _ => true,
    }
}

/// Nothing is lost of a message that fits.
pub proof fn law_nothing_is_lost_of_what_fits(message: MessageModel)
    requires
        fits(message),
    ensures
        on_wire(message) == message,
{
    if let MessageModel::Status(state) = message {
        assert(state_on_wire(state) =~= state);
    }
}

proof fn lemma_big_endian(v: u16)
    ensures
        from_big_endian(big_endian(v)[0], big_endian(v)[1]) == v,
{
}

/// A packet whose length byte is right is a frame, whatever stands before and behind it.
pub proof fn lemma_packet_is_frame(before: Seq<u8>, body: Seq<u8>, behind: Seq<u8>)
    requires
        body.len() >= 5,
        body.len() == 5 + body[4],
    ensures
        ({
            let data = before + sealed(body) + behind;
            let i = before.len() as int + 3;
            &&& frame_at(data, i)
            &&& body_at(data, i) == body
            &&& data.skip(frame_end(data, i)) == behind
            &&& forall|j: int| before.len() <= j < i ==> !frame_at(data, j)
        }),
{
    let data = before + sealed(body) + behind;
    let i = before.len() as int + 3;
    let end = i + 1 + body.len() + 2;
    assert(data[i + 5] == body[4]);
    assert(end == frame_end(data, i));
    assert(data.subrange(i, end - 2) =~= seq![START_BYTE] + body);
    let sum = checksum(seq![START_BYTE] + body);
    assert(data[end - 2] == big_endian(sum)[0]);
    assert(data[end - 1] == big_endian(sum)[1]);
    lemma_big_endian(sum);
    assert(body_at(data, i) =~= body);
    assert(data.skip(end) =~= behind);
    assert forall|j: int| before.len() <= j < i implies !frame_at(data, j) by {
        assert(data[j] == sealed(body)[j - before.len()]);
    }
}

proof fn lemma_status_switches(state: StateModel)
    ensures
        ({
            let mask = base_switches(state);
            let aux = state.aux_circuits;
            let features = state.feature_circuits;
            &&& (mask & 0x01 != 0) == state.spa_on
            &&& (mask & 0x02 != 0) == is_on(aux, 0)
            &&& (mask & 0x04 != 0) == is_on(aux, 1)
            &&& (mask & 0x08 != 0) == is_on(aux, 2)
            &&& (mask & 0x10 != 0) == is_on(features, 0)
            &&& (mask & 0x20 != 0) == state.pool_on
            &&& (mask & 0x40 != 0) == is_on(features, 1)
            &&& (mask & 0x80 != 0) == is_on(features, 2)
            &&& (flag(is_on(features, 3), 0x01) & 0x01 != 0) == is_on(features, 3)
        }),
{
    let spa = state.spa_on;
    let pool = state.pool_on;
    let a0 = is_on(state.aux_circuits, 0);
    let a1 = is_on(state.aux_circuits, 1);
    let a2 = is_on(state.aux_circuits, 2);
    let f0 = is_on(state.feature_circuits, 0);
    let f1 = is_on(state.feature_circuits, 1);
    let f2 = is_on(state.feature_circuits, 2);
    let f3 = is_on(state.feature_circuits, 3);
    let mask = base_switches(state);
    assert((mask & 0x01 != 0) == spa && (mask & 0x02 != 0) == a0 && (mask & 0x04 != 0) == a1 && (
    mask & 0x08 != 0) == a2 && (mask & 0x10 != 0) == f0 && (mask & 0x20 != 0) == pool && (mask
        & 0x40 != 0) == f1 && (mask & 0x80 != 0) == f2) by (bit_vector)
        requires
            mask == flag(spa, 0x01) | flag(a0, 0x02) | flag(a1, 0x04) | flag(a2, 0x08) | flag(
                f0,
                0x10,
            ) | flag(pool, 0x20) | flag(f1, 0x40) | flag(f2, 0x80),
    ;
    assert((flag(f3, 0x01) & 0x01 != 0) == f3) by (bit_vector);
}

proof fn lemma_status_reads_back(state: StateModel)
    ensures
        parsed(message_body(MessageModel::Status(state))) == Some(
            MessageModel::Status(state_on_wire(state)),
        ),
{
    let body = message_body(MessageModel::Status(state));
    let data = status_payload(state);
    assert(body.len() == 34);
    assert(forall|i: int| 5 <= i < 34 ==> body[i] == data[i - 5]);
    assert(body[3] == 0x02);
    assert(body[7] == base_switches(state));
    assert(body[8] == flag(is_on(state.feature_circuits, 3), 0x01));
    lemma_status_switches(state);
    assert(parsed_state(body)->0 =~= state_on_wire(state));
}

proof fn lemma_circuits_read_back(message: MessageModel)
    requires
        message is CircuitChange || message is RemoteLayoutResponse,
    ensures
        parsed(message_body(message)) == Some(message),
{
    let body = message_body(message);
    assert(body.skip(5) =~= payload(message));
    match message {
        MessageModel::CircuitChange(circuit, _) => {
            law_circuit_is_found_by_its_code(circuit);
        },
        MessageModel::RemoteLayoutResponse { row1, row2, row3, row4 } => {
            law_circuit_is_found_by_its_code(row1);
            law_circuit_is_found_by_its_code(row2);
            law_circuit_is_found_by_its_code(row3);
            law_circuit_is_found_by_its_code(row4);
        },
        _ => {},
    }
}

/// The body of a message's packet reads as what the packet has room for.
pub proof fn lemma_body_reads_back(message: MessageModel)
    ensures
        message_body(message).len() >= 5,
        message_body(message).len() == 5 + message_body(message)[4],
        parsed(message_body(message)) == Some(on_wire(message)),
{
    match message {
        MessageModel::Status(state) => {
            lemma_status_reads_back(state);
        },
        MessageModel::CircuitChange(..) => {
            lemma_circuits_read_back(message);
        },
        MessageModel::RemoteLayoutResponse { .. } => {
            lemma_circuits_read_back(message);
        },
        _ => {
            assert(message_body(message).skip(5) =~= payload(message));
        },
    }
}

/// A message that was sent is read back, behind anything that holds no frame, and the bytes
/// behind its packet are left over.
pub proof fn law_sent_message_is_read_back(
    before: Seq<u8>,
    message: MessageModel,
    behind: Seq<u8>,
)
    requires
        forall|j: int|
            0 <= j < before.len() ==> !frame_at(before + message_packet(message) + behind, j),
    ensures
        decoded(before + message_packet(message) + behind) == Some((on_wire(message), behind)),
{
    let data = before + message_packet(message) + behind;
    lemma_body_reads_back(message);
    lemma_packet_is_frame(before, message_body(message), behind);
    assert(first_frame_at(data, before.len() as int + 3));
    lemma_decoded_at(data, before.len() as int + 3);
}

/// A message that fits comes back from its packet as it was, and nothing is left over.
pub proof fn law_round_trip(message: MessageModel)
    requires
        fits(message),
    ensures
        decoded(message_packet(message)) == Some((message, Seq::<u8>::empty())),
{
    let none = Seq::<u8>::empty();
    law_sent_message_is_read_back(none, message, none);
    law_nothing_is_lost_of_what_fits(message);
    assert(none + message_packet(message) + none =~= message_packet(message));
}

/// Noise without a start byte before a packet does not keep the message from being read.
pub proof fn law_noise_is_skipped(noise: Seq<u8>, message: MessageModel, behind: Seq<u8>)
    requires
        !noise.contains(START_BYTE),
    ensures
        decoded(noise + message_packet(message) + behind) == Some((on_wire(message), behind)),
{
    let data = noise + message_packet(message) + behind;
    assert forall|j: int| 0 <= j < noise.len() implies !frame_at(data, j) by {
        assert(data[j] == noise[j]);
    }
    law_sent_message_is_read_back(noise, message, behind);
}

/// Bytes without a start byte hold no message.
pub proof fn law_no_message_without_start_byte(data: Seq<u8>)
    requires
        !data.contains(START_BYTE),
    ensures
        decoded(data) is None,
{
    assert forall|i: int| !first_frame_at(data, i) by {
        if frame_at(data, i) {
            assert(data[i] == START_BYTE);
        }
    }
}

proof fn lemma_bytes_on_wire(v: u32)
    ensures
        low_byte(v % 256) == low_byte(v),
        low_byte(v % 0x1_0000) == low_byte(v),
        second_byte(v % 0x1_0000) == second_byte(v),
{
    assert(v % 0x1_0000 % 256 == v % 256) by (bit_vector);
    assert(v % 0x1_0000 / 256 % 256 == v / 256 % 256) by (bit_vector);
}

/// What was lost on the wire is lost for good, but a second trip loses nothing more.
pub proof fn law_second_trip_loses_nothing(message: MessageModel)
    ensures
        fits(on_wire(message)),
        message_packet(on_wire(message)) == message_packet(message),
{
    assert(payload(on_wire(message)) == payload(message)) by {
        match message {
            MessageModel::Status(state) => {
                let wire = state_on_wire(state);
                lemma_bytes_on_wire(state.water_temp);
                lemma_bytes_on_wire(state.air_temp);
                lemma_bytes_on_wire(state.solar_temp);
                assert(base_switches(wire) == base_switches(state));
                assert(status_payload(wire) =~= status_payload(state));
            },
            MessageModel::PumpStatusRequestOrProvide(pump) => {
                lemma_bytes_on_wire(pump.power_watts);
                lemma_bytes_on_wire(pump.speed_rpm);
            },
            _ => {},
        }
    }
}

/// Decoding makes progress: what is left over is a shorter tail of the data.
pub proof fn law_decoding_makes_progress(data: Seq<u8>)
    ensures
        decoded(data) matches Some((_, rest)) ==> rest.len() + 8 <= data.len() && rest
            == data.skip(data.len() - rest.len()),
{
    if exists|i: int| first_frame_at(data, i) {
        let i = choose|i: int| first_frame_at(data, i);
        lemma_decoded_at(data, i);
    }
}

/// Replacing one byte changes the sum by the difference.
pub proof fn lemma_byte_sum_update(s: Seq<u8>, j: int, b: u8)
    requires
        0 <= j < s.len(),
    ensures
        byte_sum(s.update(j, b)) == byte_sum(s) - s[j] + b,
    decreases s.len(),
{
    let t = s.update(j, b);
    if j == s.len() - 1 {
        assert(t.drop_last() =~= s.drop_last());
    } else {
        assert(t.drop_last() =~= s.drop_last().update(j, b));
        lemma_byte_sum_update(s.drop_last(), j, b);
    }
}

/// Two sequences that differ in one byte have different checksums.
pub proof fn law_checksum_notices_one_wrong_byte(s: Seq<u8>, j: int, b: u8)
    requires
        0 <= j < s.len(),
        b != s[j],
    ensures
        checksum(s.update(j, b)) != checksum(s),
{
    lemma_byte_sum_update(s, j, b);
}

/// A frame in which one byte was damaged is no frame any more, unless it was the length byte,
/// which decides where the checksum stands.
pub proof fn law_damaged_frame_is_refused(data: Seq<u8>, i: int, j: int, b: u8)
    requires
        frame_at(data, i),
        i <= j < frame_end(data, i),
        j != i + 5,
        b != data[j],
    ensures
        !frame_at(data.update(j, b), i),
{
    let end = frame_end(data, i);
    let damaged = data.update(j, b);
    assert(frame_end(damaged, i) == end);
    let summed = data.subrange(i, end - 2);
    if j < end - 2 {
        assert(damaged.subrange(i, end - 2) =~= summed.update(j - i, b));
        law_checksum_notices_one_wrong_byte(summed, j - i, b);
    } else {
        assert(damaged.subrange(i, end - 2) =~= summed);
    }
}

/// A frame that was cut off is no frame.
pub proof fn law_cut_off_frame_is_refused(data: Seq<u8>, i: int, n: int)
    requires
        frame_at(data, i),
        0 <= n < frame_end(data, i),
    ensures
        !frame_at(data.take(n), i),
{
    if i + 6 <= n {
        assert(data.take(n)[i + 5] == data[i + 5]);
    }
}

} // verus!
