//! Talks to a Pentair pool controller over its RS-485 bus.
//!
//! The library holds everything that can be decided without touching hardware: the packet
//! format and its messages ([`pentair`]), the receiving and sending state machines of the bus
//! worker ([`pool_worker`]), the MQTT commands and reports ([`mqtt`]) and the reader of recorded
//! bus logs ([`parse_log`]).
pub mod mqtt;
pub mod parse_log;
pub mod pentair;
pub mod pool_worker;
pub mod text;
