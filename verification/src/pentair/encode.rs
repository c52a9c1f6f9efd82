//! From messages to packets.
use crate::pentair::message::{
    ClockCalendar, MessageModel, PentairMessage, PumpStatus, StateModel, SystemState, WireEncoder,
};
use crate::pentair::packet::{encode_pentair_packet, packet_body, sealed};
use vstd::prelude::*;

verus! {

/// `bit` where `on`, no bit otherwise.
pub open spec fn flag(on: bool, bit: u8) -> u8 {
    if on {
        bit
    } else {
        0
    }
}

/// The switch at position `i`. One that is not listed is off.
pub open spec fn is_on(switches: Seq<bool>, i: int) -> bool {
    0 <= i < switches.len() && switches[i]
}

/// The first byte of switches in a status payload.
pub open spec fn base_switches(state: StateModel) -> u8 {
    flag(state.spa_on, 0x01)
        | flag(is_on(state.aux_circuits, 0), 0x02)
        | flag(is_on(state.aux_circuits, 1), 0x04)
        | flag(is_on(state.aux_circuits, 2), 0x08)
        | flag(is_on(state.feature_circuits, 0), 0x10)
        | flag(state.pool_on, 0x20)
        | flag(is_on(state.feature_circuits, 1), 0x40)
        | flag(is_on(state.feature_circuits, 2), 0x80)
}

/// The low byte of `v`.
pub open spec fn low_byte(v: u32) -> u8 {
    (v % 256) as u8
}

/// The byte of `v` above the low one.
pub open spec fn second_byte(v: u32) -> u8 {
    (v / 256 % 256) as u8
}

/// The payload that reports `state`: twelve o'clock, the switches, firmware 2.70, the temperatures.
pub open spec fn status_payload(state: StateModel) -> Seq<u8> {
    Seq::new(
        29,
        |i: int|
            if i == 0 {
                12u8
            } else if i == 2 {
                base_switches(state)
            } else if i == 3 {
                flag(is_on(state.feature_circuits, 3), 0x01)
            } else if i == 14 {
                low_byte(state.water_temp)
            } else if i == 16 {
                0x02u8
            } else if i == 17 {
                70u8
            } else if i == 18 {
                low_byte(state.air_temp)
            } else if i == 19 {
                low_byte(state.solar_temp)
            } else {
                0u8
            },
    )
}

/// The payload that broadcasts `clock`.
pub open spec fn clock_payload(clock: ClockCalendar) -> Seq<u8> {
    seq![
        clock.hour,
        clock.minute,
        clock.day_of_week,
        clock.day_of_month,
        clock.month,
        clock.year,
        clock.clock_adjust,
        clock.dst,
    ]
}

/// The payload that reports `pump`.
pub open spec fn pump_payload(pump: PumpStatus) -> Seq<u8> {
    seq![
        if pump.running { 0x0au8 } else { 0x04u8 },
        pump.mode,
        pump.state,
        second_byte(pump.power_watts),
        low_byte(pump.power_watts),
        second_byte(pump.speed_rpm),
        low_byte(pump.speed_rpm),
        pump.flow_gpm,
        pump.filter_percent_used,
        0u8,
        pump.error_code,
        pump.time_remaining_hours,
        pump.time_remaining_minutes,
        pump.clock_hours,
        pump.clock_minutes,
    ]
}

/// The payload of a message.
pub open spec fn payload(message: MessageModel) -> Seq<u8> {
    match message {
        MessageModel::Status(state) => status_payload(state),
        MessageModel::CircuitChange(circuit, on) => seq![circuit.code(), flag(on, 0x01)],
        MessageModel::CircuitChangeResponse => seq![0x86u8],
        MessageModel::RemoteLayoutRequest => seq![0x01u8],
        MessageModel::RemoteLayoutResponse { row1, row2, row3, row4 } => seq![
            row1.code(),
            row2.code(),
            row3.code(),
            row4.code(),
        ],
        MessageModel::ClockBroadcast(clock) => clock_payload(clock),
        MessageModel::PumpStatusRequestOrProvide(pump) => pump_payload(pump),
    }
}

/// The body of the packet that carries a message.
pub open spec fn message_body(message: MessageModel) -> Seq<u8> {
    let data = payload(message);
    match message {
        MessageModel::Status(_) => packet_body(0x01, 0x0f, 0x10, 0x02, data),
        MessageModel::CircuitChange(_, _) => packet_body(0x01, 0x10, 0x48, 0x86, data),
        MessageModel::CircuitChangeResponse => packet_body(0x01, 0x48, 0x10, 0x01, data),
        MessageModel::RemoteLayoutRequest => packet_body(0x01, 0x10, 0x48, 0xE1, data),
        MessageModel::RemoteLayoutResponse { .. } => packet_body(0x01, 0x0f, 0x10, 0x21, data),
        MessageModel::ClockBroadcast(_) => packet_body(0x01, 0x0f, 0x10, 0x05, data),
        MessageModel::PumpStatusRequestOrProvide(_) => packet_body(0x00, 0x10, 0x60, 0x07, data),
    }
}

/// The packet that carries a message.
pub open spec fn message_packet(message: MessageModel) -> Seq<u8> {
    sealed(message_body(message))
}

fn bit_if(on: bool, bit: u8) -> (mask: u8)
    ensures
        mask == flag(on, bit),
{
    if on {
        bit
    } else {
        0
    }
}

fn switch_at(switches: &Vec<bool>, i: usize) -> (on: bool)
    ensures
        on == is_on(switches@, i as int),
{
    i < switches.len() && switches[i]
}

fn to_low_byte(v: u32) -> (byte: u8)
    ensures
        byte == low_byte(v),
{
    assert(v as u8 == v % 256) by (bit_vector);
    v as u8
}

fn to_second_byte(v: u32) -> (byte: u8)
    ensures
        byte == second_byte(v),
{
    assert((v >> 8) as u8 == v / 256 % 256) by (bit_vector);
    (v >> 8) as u8
}

/// The packet that reports `state`.
fn status_packet(state: &SystemState) -> (packet: Vec<u8>)
    ensures
        packet@ == message_packet(MessageModel::Status(state@)),
{
    let mut data: Vec<u8> = vec![0u8; 29];
    // Time defaults
    data[0] = 12;
    data[1] = 0;

    // Base switches bitmask
    data[2] = bit_if(state.spa_on, 0x01)
        | bit_if(switch_at(&state.aux_circuits, 0), 0x02)
        | bit_if(switch_at(&state.aux_circuits, 1), 0x04)
        | bit_if(switch_at(&state.aux_circuits, 2), 0x08)
        | bit_if(switch_at(&state.feature_circuits, 0), 0x10)
        | bit_if(state.pool_on, 0x20)
        | bit_if(switch_at(&state.feature_circuits, 1), 0x40)
        | bit_if(switch_at(&state.feature_circuits, 2), 0x80);

    // Additional switches bitmask
    data[3] = bit_if(switch_at(&state.feature_circuits, 3), 0x01);

    // Temperatures
    data[14] = to_low_byte(state.water_temp);
    data[18] = to_low_byte(state.air_temp);
    data[19] = to_low_byte(state.solar_temp);

    // Version info (e.g. 2.070 FW version default)
    data[16] = 0x02;
    data[17] = 70;

    assert(data@ =~= status_payload(state@));
    encode_pentair_packet(0x01, 0x0f, 0x10, 0x02, &data)
}

impl PentairMessage {
    /// The packet that carries the message.
    pub fn to_bytes(&self) -> (packet: Vec<u8>)
        ensures
            packet@ == message_packet(self@),
    {
        match self {
            PentairMessage::Status(state) => status_packet(state),
            PentairMessage::CircuitChange(circuit, on) => {
                let data: Vec<u8> = vec![circuit.to_u8(), bit_if(*on, 0x01)];
                assert(data@ =~= payload(self@));
                encode_pentair_packet(0x01, 0x10, 0x48, 0x86, &data)
            },
            PentairMessage::CircuitChangeResponse => {
                let data: Vec<u8> = vec![0x86];
                assert(data@ =~= payload(self@));
                encode_pentair_packet(0x01, 0x48, 0x10, 0x01, &data)
            },
            PentairMessage::RemoteLayoutRequest => {
                let data: Vec<u8> = vec![0x01];
                assert(data@ =~= payload(self@));
                encode_pentair_packet(0x01, 0x10, 0x48, 0xE1, &data)
            },
            PentairMessage::RemoteLayoutResponse { row1, row2, row3, row4 } => {
                let data: Vec<u8> = vec![row1.to_u8(), row2.to_u8(), row3.to_u8(), row4.to_u8()];
                assert(data@ =~= payload(self@));
                encode_pentair_packet(0x01, 0x0f, 0x10, 0x21, &data)
            },
            PentairMessage::ClockBroadcast(clock) => {
                let data: Vec<u8> = vec![
                    clock.hour,
                    clock.minute,
                    clock.day_of_week,
                    clock.day_of_month,
                    clock.month,
                    clock.year,
                    clock.clock_adjust,
                    clock.dst,
                ];
                assert(data@ =~= payload(self@));
                encode_pentair_packet(0x01, 0x0f, 0x10, 0x05, &data)
            },
            PentairMessage::PumpStatusRequestOrProvide(pump) => {
                let data: Vec<u8> = vec![
                    if pump.running { 0x0a } else { 0x04 },
                    pump.mode,
                    pump.state,
                    to_second_byte(pump.power_watts),
                    to_low_byte(pump.power_watts),
                    to_second_byte(pump.speed_rpm),
                    to_low_byte(pump.speed_rpm),
                    pump.flow_gpm,
                    pump.filter_percent_used,
                    0,
                    pump.error_code,
                    pump.time_remaining_hours,
                    pump.time_remaining_minutes,
                    pump.clock_hours,
                    pump.clock_minutes,
                ];
                assert(data@ =~= payload(self@));
                encode_pentair_packet(0x00, 0x10, 0x60, 0x07, &data)
            },
        }
    }
}

/// A message together with its packet.
pub struct PentairMessageFrame {
    pub message: PentairMessage,
    encoded: Vec<u8>,
}

impl PentairMessageFrame {
    /// The field `message`.
    pub closed spec fn carried(&self) -> PentairMessage {
        self.message
    }

    /// The packet that the frame was made with.
    pub closed spec fn packet(&self) -> Seq<u8> {
        self.encoded@
    }

    pub fn new(message: PentairMessage) -> (frame: Self)
        ensures
            frame.carried() == message,
            frame.packet() == message_packet(message@),
    {
        let encoded: Vec<u8> = message.to_bytes();
        PentairMessageFrame { message, encoded }
    }
}

impl WireEncoder for PentairMessageFrame {
    /// The packet that the frame was made with, also after a change of `message`.
    fn encode(&self) -> (bytes: &[u8])
        ensures
            bytes@ == self.packet(),
    {
        &self.encoded
    }
}

/// A system state together with the packet that reports it.
pub struct SystemStateFrame {
    pub state: SystemState,
    encoded: Vec<u8>,
}

impl SystemStateFrame {
    /// The field `state`.
    pub closed spec fn reported(&self) -> SystemState {
        self.state
    }

    /// The packet that the frame was made with.
    pub closed spec fn packet(&self) -> Seq<u8> {
        self.encoded@
    }

    pub fn new(state: SystemState) -> (frame: Self)
        ensures
            frame.reported() == state,
            frame.packet() == message_packet(MessageModel::Status(state@)),
    {
        let encoded: Vec<u8> = status_packet(&state);
        SystemStateFrame { state, encoded }
    }
}

impl WireEncoder for SystemStateFrame {
    /// The packet that the frame was made with, also after a change of `state`.
    fn encode(&self) -> (bytes: &[u8])
        ensures
            bytes@ == self.packet(),
    {
        &self.encoded
    }
}

} // verus!
