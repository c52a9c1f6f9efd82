//! The worker that reads the bus, acts on the messages it finds, and sends what is queued.
//!
//! The hardware stays outside: a reader of the serial port hands each outcome to the worker, and
//! the worker says what to do next.
pub mod error;
pub mod link;
pub mod orders;
pub mod queue;
pub mod reader;
pub mod run;
pub mod scanner;
pub mod worker;

pub use error::{read_byte, PentairError};
pub use link::{
    finish_send, handle_message, manage_outgoing, process_package, Outgoing, UartState,
};
pub use queue::MessageQueue;
pub use reader::PacketReader;
pub use scanner::{HeaderScan, HeaderScanner};
pub use worker::{PoolWorker, WorkerAction};
