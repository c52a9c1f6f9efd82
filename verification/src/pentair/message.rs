//! The messages on the bus.
use crate::pentair::circuit::Circuit;
use vstd::prelude::*;

verus! {

#[derive(Debug, Clone, Copy, PartialEq, Eq, Structural)]
pub enum Error {
    InvalidMessage,
    CheckSumError,
}

/// A trait that must be implemented by all structures that can be decoded from what was sent over
/// the serial interface.
pub trait WireDecoder: Sized {
    /// Decodes a value from the front of `data`, and hands back the bytes behind it.
    fn decode(data: &[u8]) -> Result<(Self, &[u8]), Error>;
}

/// A trait that must be implemented for all types that can be serialized to the serial interface.
pub trait WireEncoder {
    fn encode(&self) -> &[u8];
}

/// The decoded package with the system state.
#[derive(Debug, PartialEq, Eq)]
pub struct SystemState {
    // Different switches, usually in the state on/off
    pub pool_on: bool,
    pub spa_on: bool,
    pub aux_circuits: Vec<bool>,
    pub feature_circuits: Vec<bool>,
    // Block of temperatures
    pub water_temp: u32,
    pub air_temp: u32,
    pub solar_temp: u32,
}

#[derive(Clone, Copy, Debug, PartialEq, Eq, Structural)]
pub struct ClockCalendar {
    pub hour: u8,
    pub minute: u8,
    pub day_of_week: u8,
    pub day_of_month: u8,
    pub month: u8,
    pub year: u8,
    pub clock_adjust: u8,
    pub dst: u8,
}

#[derive(Clone, Copy, Debug, PartialEq, Eq, Structural)]
pub struct PumpStatus {
    pub running: bool,
    pub mode: u8,
    pub state: u8,
    pub power_watts: u32,
    pub speed_rpm: u32,
    pub flow_gpm: u8,
    pub filter_percent_used: u8,
    pub error_code: u8,
    pub time_remaining_hours: u8,
    pub time_remaining_minutes: u8,
    pub clock_hours: u8,
    pub clock_minutes: u8,
}

#[derive(Debug, PartialEq, Eq)]
pub enum PentairMessage {
    Status(SystemState),
    CircuitChange(Circuit, bool),
    CircuitChangeResponse,
    RemoteLayoutRequest,
    RemoteLayoutResponse { row1: Circuit, row2: Circuit, row3: Circuit, row4: Circuit },
    ClockBroadcast(ClockCalendar),
    PumpStatusRequestOrProvide(PumpStatus),
}

/// What a [`SystemState`] says.
#[verifier::ext_equal]
pub struct StateModel {
    pub pool_on: bool,
    pub spa_on: bool,
    pub aux_circuits: Seq<bool>,
    pub feature_circuits: Seq<bool>,
    pub water_temp: u32,
    pub air_temp: u32,
    pub solar_temp: u32,
}

/// What a [`PentairMessage`] says.
#[verifier::ext_equal]
pub enum MessageModel {
    Status(StateModel),
    CircuitChange(Circuit, bool),
    CircuitChangeResponse,
    RemoteLayoutRequest,
    RemoteLayoutResponse { row1: Circuit, row2: Circuit, row3: Circuit, row4: Circuit },
    ClockBroadcast(ClockCalendar),
    PumpStatusRequestOrProvide(PumpStatus),
}

impl View for SystemState {
    type V = StateModel;

    open spec fn view(&self) -> StateModel {
        StateModel {
            pool_on: self.pool_on,
            spa_on: self.spa_on,
            aux_circuits: self.aux_circuits@,
            feature_circuits: self.feature_circuits@,
            water_temp: self.water_temp,
            air_temp: self.air_temp,
            solar_temp: self.solar_temp,
        }
    }
}

impl View for PentairMessage {
    type V = MessageModel;

    open spec fn view(&self) -> MessageModel {
        match *self {
            PentairMessage::Status(state) => MessageModel::Status(state@),
            PentairMessage::CircuitChange(circuit, on) => MessageModel::CircuitChange(circuit, on),
            PentairMessage::CircuitChangeResponse => MessageModel::CircuitChangeResponse,
            PentairMessage::RemoteLayoutRequest => MessageModel::RemoteLayoutRequest,
            PentairMessage::RemoteLayoutResponse { row1, row2, row3, row4 } =>
                MessageModel::RemoteLayoutResponse { row1, row2, row3, row4 },
            PentairMessage::ClockBroadcast(clock) => MessageModel::ClockBroadcast(clock),
            PentairMessage::PumpStatusRequestOrProvide(pump) =>
                MessageModel::PumpStatusRequestOrProvide(pump),
        }
    }
}

impl Clone for SystemState {
    fn clone(&self) -> (copy: Self)
        ensures
            copy@ == self@,
    {
        let copy = SystemState {
            pool_on: self.pool_on,
            spa_on: self.spa_on,
            aux_circuits: self.aux_circuits.clone(),
            feature_circuits: self.feature_circuits.clone(),
            water_temp: self.water_temp,
            air_temp: self.air_temp,
            solar_temp: self.solar_temp,
        };
        assert(copy@ =~= self@);
        copy
    }
}

impl Clone for PentairMessage {
    fn clone(&self) -> (copy: Self)
        ensures
            copy@ == self@,
    {
        match self {
            PentairMessage::Status(state) => PentairMessage::Status(state.clone()),
            PentairMessage::CircuitChange(circuit, on) =>
                PentairMessage::CircuitChange(*circuit, *on),
            PentairMessage::CircuitChangeResponse => PentairMessage::CircuitChangeResponse,
            PentairMessage::RemoteLayoutRequest => PentairMessage::RemoteLayoutRequest,
            PentairMessage::RemoteLayoutResponse { row1, row2, row3, row4 } =>
                PentairMessage::RemoteLayoutResponse {
                    row1: *row1,
                    row2: *row2,
                    row3: *row3,
                    row4: *row4,
                },
            PentairMessage::ClockBroadcast(clock) => PentairMessage::ClockBroadcast(*clock),
            PentairMessage::PumpStatusRequestOrProvide(pump) =>
                PentairMessage::PumpStatusRequestOrProvide(*pump),
        }
    }
}

/// The model of a state says what the fields say, switch by switch and number by number.
pub proof fn law_model_says_what_the_state_says(state: SystemState)
    ensures
        state@.pool_on == state.pool_on,
        state@.spa_on == state.spa_on,
        state@.aux_circuits == state.aux_circuits@,
        state@.feature_circuits == state.feature_circuits@,
        state@.water_temp == state.water_temp,
        state@.air_temp == state.air_temp,
        state@.solar_temp == state.solar_temp,
{
}

/// The model of a message is of the same kind and says the same.
pub proof fn law_model_says_what_the_message_says(message: PentairMessage)
    ensures
        match (message, message@) {
            (PentairMessage::Status(a), MessageModel::Status(b)) => a@ == b,
            (PentairMessage::CircuitChange(a, on), MessageModel::CircuitChange(b, other)) => a == b
                && on == other,
            (PentairMessage::CircuitChangeResponse, MessageModel::CircuitChangeResponse) => true,
            (PentairMessage::RemoteLayoutRequest, MessageModel::RemoteLayoutRequest) => true,
            (
                PentairMessage::RemoteLayoutResponse { row1: a, row2: b, row3: c, row4: d },
                MessageModel::RemoteLayoutResponse { row1, row2, row3, row4 },
            ) => a == row1 && b == row2 && c == row3 && d == row4,
            (PentairMessage::ClockBroadcast(a), MessageModel::ClockBroadcast(b)) => a == b,
            (
                PentairMessage::PumpStatusRequestOrProvide(a),
                MessageModel::PumpStatusRequestOrProvide(b),
            ) => a == b,
            _ => false,
        },
{
}

} // verus!
