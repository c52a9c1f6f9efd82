//! Pentair system interface.
pub mod circuit;
pub mod decode;
pub mod encode;
pub mod laws;
pub mod message;
pub mod packet;
pub mod wire;

pub use circuit::Circuit;
pub use encode::{PentairMessageFrame, SystemStateFrame};
pub use message::{
    ClockCalendar, Error, PentairMessage, PumpStatus, SystemState, WireDecoder, WireEncoder,
};
pub use packet::encode_pentair_packet;
