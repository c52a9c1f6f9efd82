//! From bytes to messages.
use crate::pentair::circuit::Circuit;
use crate::pentair::message::{
    ClockCalendar, Error, MessageModel, PentairMessage, PumpStatus, StateModel, SystemState,
    WireDecoder,
};
use crate::pentair::packet::{checksum, from_big_endian, join_bytes, sum_bytes, START_BYTE};
use vstd::prelude::*;

verus! {

/// Where the frame that starts at `i` ends: a start byte, five bytes of header of which the last
/// is the length of the payload, the payload, and two bytes of checksum.
pub open spec fn frame_end(data: Seq<u8>, i: int) -> int {
    i + 6 + data[i + 5] + 2
}

/// Whether a whole frame with the right checksum starts at `i`.
pub open spec fn frame_at(data: Seq<u8>, i: int) -> bool {
    let end = frame_end(data, i);
    &&& 0 <= i
    &&& i + 6 <= data.len()
    &&& data[i] == START_BYTE
    &&& end <= data.len()
    &&& checksum(data.subrange(i, end - 2)) == from_big_endian(data[end - 2], data[end - 1])
}

/// Whether the first frame of `data` starts at `i`.
pub open spec fn first_frame_at(data: Seq<u8>, i: int) -> bool {
    &&& frame_at(data, i)
    &&& forall|j: int| 0 <= j < i ==> !frame_at(data, j)
}

/// The body of the frame that starts at `i`: what stands between start byte and checksum.
pub open spec fn body_at(data: Seq<u8>, i: int) -> Seq<u8> {
    data.subrange(i + 1, frame_end(data, i) - 2)
}

/// The state that the body of a status packet reports. A short body leaves out the fourth
/// feature circuit, or the temperatures, which then read as zero.
pub open spec fn parsed_state(body: Seq<u8>) -> Option<StateModel> {
    if body.len() < 8 {
        None
    } else {
        let mask = body[7];
        let features = seq![mask & 0x10 != 0, mask & 0x40 != 0, mask & 0x80 != 0];
        let with_temps = body.len() >= 25;
        Some(
            StateModel {
                pool_on: mask & 0x20 != 0,
                spa_on: mask & 0x01 != 0,
                aux_circuits: seq![mask & 0x02 != 0, mask & 0x04 != 0, mask & 0x08 != 0],
                feature_circuits: if body.len() >= 9 {
                    features.push(body[8] & 0x01 != 0)
                } else {
                    features
                },
                water_temp: if with_temps { body[19] as u32 } else { 0 },
                air_temp: if with_temps { body[23] as u32 } else { 0 },
                solar_temp: if with_temps { body[24] as u32 } else { 0 },
            },
        )
    }
}

/// The switch order in `data`. Any number but zero means on.
pub open spec fn parsed_circuit_change(data: Seq<u8>) -> Option<MessageModel> {
    if data.len() < 2 {
        None
    } else {
        match Circuit::with_code(data[0]) {
            Some(circuit) => Some(MessageModel::CircuitChange(circuit, data[1] != 0)),
            None => None,
        }
    }
}

/// The layout in `data`.
pub open spec fn parsed_layout(data: Seq<u8>) -> Option<MessageModel> {
    if data.len() < 4 {
        None
    } else {
        match (
            Circuit::with_code(data[0]),
            Circuit::with_code(data[1]),
            Circuit::with_code(data[2]),
            Circuit::with_code(data[3]),
        ) {
            (Some(row1), Some(row2), Some(row3), Some(row4)) => Some(
                MessageModel::RemoteLayoutResponse { row1, row2, row3, row4 },
            ),
            _ => None,
        }
    }
}

/// The date and time in `data`.
pub open spec fn parsed_clock(data: Seq<u8>) -> Option<MessageModel> {
    if data.len() < 8 {
        None
    } else {
        Some(
            MessageModel::ClockBroadcast(
                ClockCalendar {
                    hour: data[0],
                    minute: data[1],
                    day_of_week: data[2],
                    day_of_month: data[3],
                    month: data[4],
                    year: data[5],
                    clock_adjust: data[6],
                    dst: data[7],
                },
            ),
        )
    }
}

/// The pump status in `data`.
pub open spec fn parsed_pump(data: Seq<u8>) -> Option<MessageModel> {
    if data.len() < 15 {
        None
    } else {
        Some(
            MessageModel::PumpStatusRequestOrProvide(
                PumpStatus {
                    running: data[0] == 0x0a,
                    mode: data[1],
                    state: data[2],
                    power_watts: from_big_endian(data[3], data[4]) as u32,
                    speed_rpm: from_big_endian(data[5], data[6]) as u32,
                    flow_gpm: data[7],
                    filter_percent_used: data[8],
                    error_code: data[10],
                    time_remaining_hours: data[11],
                    time_remaining_minutes: data[12],
                    clock_hours: data[13],
                    clock_minutes: data[14],
                },
            ),
        )
    }
}

/// The message with the given body. The fourth byte is the command, the payload starts behind
/// the fifth.
pub open spec fn parsed(body: Seq<u8>) -> Option<MessageModel> {
    let command = body[3];
    let data = body.skip(5);
    if command == 0x02 {
        match parsed_state(body) {
            Some(state) => Some(MessageModel::Status(state)),
            None => None,
        }
    } else if command == 0x86 {
        parsed_circuit_change(data)
    } else if command == 0x01 {
        Some(MessageModel::CircuitChangeResponse)
    } else if command == 0xE1 {
        Some(MessageModel::RemoteLayoutRequest)
    } else if command == 0x21 {
        parsed_layout(data)
    } else if command == 0x05 {
        parsed_clock(data)
    } else if command == 0x07 {
        parsed_pump(data)
    } else {
        None
    }
}

/// The message in the first frame of `data`, and the bytes behind that frame. Frames further
/// back are not looked at, even if the first one holds no message.
pub open spec fn decoded(data: Seq<u8>) -> Option<(MessageModel, Seq<u8>)> {
    if exists|i: int| first_frame_at(data, i) {
        let i = choose|i: int| first_frame_at(data, i);
        match parsed(body_at(data, i)) {
            Some(message) => Some((message, data.skip(frame_end(data, i)))),
            None => None,
        }
    } else {
        None
    }
}

/// There is one first frame, and `decoded` reads that one.
pub proof fn lemma_decoded_at(data: Seq<u8>, i: int)
    requires
        first_frame_at(data, i),
    ensures
        decoded(data) == (match parsed(body_at(data, i)) {
            Some(message) => Some((message, data.skip(frame_end(data, i)))),
            None => None::<(MessageModel, Seq<u8>)>,
        }),
{
    let k = choose|k: int| first_frame_at(data, k);
    assert(first_frame_at(data, k));
    assert(k == i) by {
        if k < i {
            assert(!frame_at(data, k));
        }
        if i < k {
            assert(!frame_at(data, i));
        }
    }
}

impl WireDecoder for SystemState {
    /// Reads the state off the body of a status packet. The body is used up as a whole.
    fn decode(packet: &[u8]) -> (result: Result<(Self, &[u8]), Error>)
        ensures
            match result {
                Ok((state, rest)) => parsed_state(packet@) == Some(state@) && rest@.len() == 0,
                Err(error) => error == Error::InvalidMessage && parsed_state(packet@) is None,
            },
    {
        if packet.len() < 8 {
            return Err(Error::InvalidMessage);
        }
        let mask: u8 = packet[7];
        let aux_circuits: Vec<bool> = vec![mask & 0x02 != 0, mask & 0x04 != 0, mask & 0x08 != 0];
        let mut feature_circuits: Vec<bool> = vec![
            mask & 0x10 != 0,
            mask & 0x40 != 0,
            mask & 0x80 != 0,
        ];

        // Additional switches: the fourth feature is at bit 0 of the fourth payload byte
        if packet.len() >= 9 {
            feature_circuits.push(packet[8] & 0x01 != 0);
        }
        let mut state = SystemState {
            pool_on: mask & 0x20 != 0,
            spa_on: mask & 0x01 != 0,
            aux_circuits,
            feature_circuits,
            water_temp: 0,
            air_temp: 0,
            solar_temp: 0,
        };

        // Temperatures
        if packet.len() >= 25 {
            state.water_temp = packet[19] as u32;
            state.air_temp = packet[23] as u32;
            state.solar_temp = packet[24] as u32;
        }
        assert(parsed_state(packet@)->0 =~= state@);
        Ok((state, &packet[packet.len()..packet.len()]))
    }
}

/// Whether a whole frame with the right checksum starts at `i`.
fn is_frame_at(data: &[u8], i: usize) -> (found: bool)
    requires
        i < data.len(),
    ensures
        found == frame_at(data@, i as int),
{
    if data[i] != START_BYTE || data.len() - i < 6 {
        return false;
    }
    let dlen: usize = data[i + 5] as usize;
    if data.len() - i < 6 + dlen + 2 {
        return false;
    }
    let end: usize = i + 6 + dlen;
    sum_bytes(&data[i..end]) == join_bytes(data[end], data[end + 1])
}

/// The message with the given body.
fn parse_body(body: &[u8]) -> (message: Option<PentairMessage>)
    requires
        body.len() >= 5,
    ensures
        match message {
            Some(message) => parsed(body@) == Some(message@),
            None => parsed(body@) is None,
        },
{
    let data: &[u8] = &body[5..body.len()];
    assert(data@ =~= body@.skip(5));
    match body[3] {
        0x02 => match SystemState::decode(body) {
            Ok((state, _)) => Some(PentairMessage::Status(state)),
            Err(_) => None,
        },
        0x86 => {
            if data.len() < 2 {
                return None;
            }
            match Circuit::from_u8(data[0]) {
                Some(circuit) => Some(PentairMessage::CircuitChange(circuit, data[1] != 0)),
                None => None,
            }
        },
        0x01 => Some(PentairMessage::CircuitChangeResponse),
        0xE1 => Some(PentairMessage::RemoteLayoutRequest),
        0x21 => {
            if data.len() < 4 {
                return None;
            }
            match (
                Circuit::from_u8(data[0]),
                Circuit::from_u8(data[1]),
                Circuit::from_u8(data[2]),
                Circuit::from_u8(data[3]),
            ) {
                (Some(row1), Some(row2), Some(row3), Some(row4)) => Some(
                    PentairMessage::RemoteLayoutResponse { row1, row2, row3, row4 },
                ),
                _ => None,
            }
        },
        0x05 => {
            if data.len() < 8 {
                return None;
            }
            Some(
                PentairMessage::ClockBroadcast(
                    ClockCalendar {
                        hour: data[0],
                        minute: data[1],
                        day_of_week: data[2],
                        day_of_month: data[3],
                        month: data[4],
                        year: data[5],
                        clock_adjust: data[6],
                        dst: data[7],
                    },
                ),
            )
        },
        0x07 => {
            if data.len() < 15 {
                return None;
            }
            Some(
                PentairMessage::PumpStatusRequestOrProvide(
                    PumpStatus {
                        running: data[0] == 0x0a,
                        mode: data[1],
                        state: data[2],
                        power_watts: join_bytes(data[3], data[4]) as u32,
                        speed_rpm: join_bytes(data[5], data[6]) as u32,
                        flow_gpm: data[7],
                        filter_percent_used: data[8],
                        error_code: data[10],
                        time_remaining_hours: data[11],
                        time_remaining_minutes: data[12],
                        clock_hours: data[13],
                        clock_minutes: data[14],
                    },
                ),
            )
        },
        _ => None,
    }
}

impl WireDecoder for PentairMessage {
    /// Decodes the message in the first frame of `data`, skipping whatever stands before it.
    fn decode(data: &[u8]) -> (result: Result<(Self, &[u8]), Error>)
        ensures
            match result {
                Ok((message, rest)) => decoded(data@) == Some((message@, rest@)),
                Err(error) => error == Error::InvalidMessage && decoded(data@) is None,
            },
    {
        let mut idx: usize = 0;
        while idx < data.len()
            invariant
                idx <= data.len(),
                forall|j: int| 0 <= j < idx ==> !frame_at(data@, j),
            decreases data.len() - idx,
        {
            // Skip until the start of a package.
            if is_frame_at(data, idx) {
                let dlen: usize = data[idx + 5] as usize;
                let end: usize = idx + 6 + dlen + 2;
                proof {
                    lemma_decoded_at(data@, idx as int);
                }
                let body: &[u8] = &data[idx + 1..end - 2];
                assert(data@.subrange(end as int, data@.len() as int) =~= data@.skip(end as int));
                return match parse_body(body) {
                    Some(message) => Ok((message, &data[end..data.len()])),
                    None => Err(Error::InvalidMessage),
                };
            }
            idx += 1;
        }
        assert forall|i: int| !first_frame_at(data@, i) by {
            assert(!frame_at(data@, i));
        }
        Err(Error::InvalidMessage)
    }
}

} // verus!
