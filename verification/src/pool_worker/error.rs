//! What can go wrong on the bus.
use crate::pentair::message::Error;
use vstd::prelude::*;
use vstd::std_specs::convert::FromSpec;

verus! {

/// Errors that can occur while reading and decoding Pentair protocol traffic off the UART.
#[derive(Debug, Clone, Copy, PartialEq, Eq, Structural)]
pub enum PentairError {
    /// Invalid Pentair message.
    InvalidMessage,
    /// Checksum mismatch.
    CrcError,
    /// Timed out waiting for more bytes mid-packet.
    Timeout,
    /// The UART driver failed with this code.
    Uart(i32),
}

impl From<Error> for PentairError {
    fn from(err: Error) -> (converted: Self) {
        match err {
            Error::InvalidMessage => PentairError::InvalidMessage,
            Error::CheckSumError => PentairError::CrcError,
        }
    }
}

impl vstd::std_specs::convert::FromSpecImpl<Error> for PentairError {
    open spec fn obeys_from_spec() -> bool {
        true
    }

    open spec fn from_spec(err: Error) -> Self {
        match err {
            Error::InvalidMessage => PentairError::InvalidMessage,
            Error::CheckSumError => PentairError::CrcError,
        }
    }
}

/// What the driver's answer and the byte in the buffer come to.
pub open spec fn read_outcome(outcome: Result<usize, i32>, byte: u8, timeout_code: i32) -> Result<
    Option<u8>,
    PentairError,
> {
    match outcome {
        Ok(count) => if count == 0 {
            Ok(None)
        } else {
            Ok(Some(byte))
        },
        Err(code) => if code == timeout_code {
            Ok(None)
        } else {
            Err(PentairError::Uart(code))
        },
    }
}

/// What a read of one byte with a short timeout brought.
///
/// `outcome` is the driver's answer, a count of bytes or an error code, and `byte` what stands in
/// the buffer. Returns `Ok(None)` when nothing arrived in time (not an error - the bus is simply
/// idle), and `Err` only for a genuine UART driver failure.
pub fn read_byte(outcome: Result<usize, i32>, byte: u8, timeout_code: i32) -> (read: Result<
    Option<u8>,
    PentairError,
>)
    ensures
        read == (match outcome {
            Ok(count) => if count == 0 {
                Ok(None)
            } else {
                Ok(Some(byte))
            },
            Err(code) => if code == timeout_code {
                Ok(None)
            } else {
                Err(PentairError::Uart(code))
            },
        }),
        read == read_outcome(outcome, byte, timeout_code),
{
    match outcome {
        Ok(0) => Ok(None),
        Ok(_) => Ok(Some(byte)),
        Err(code) => {
            if code == timeout_code {
                Ok(None)
            } else {
                Err(PentairError::Uart(code))
            }
        },
    }
}

/// A byte came in where the driver counts one, and it is the one in the buffer. Nothing came in
/// where the driver counts none or says that time is up. Any other answer is a failure, and the
/// code of the driver is kept.
pub proof fn law_meaning_of_a_read(outcome: Result<usize, i32>, byte: u8, timeout_code: i32)
    ensures
        match read_outcome(outcome, byte, timeout_code) {
            Ok(Some(read)) => read == byte && (outcome matches Ok(count) && count > 0),
            Ok(None) => outcome == Ok::<usize, i32>(0) || outcome == Err::<usize, i32>(
                timeout_code,
            ),
            Err(PentairError::Uart(code)) => outcome == Err::<usize, i32>(code) && code
                != timeout_code,
            Err(_) => false,
        },
{
}

/// Errors of decoding keep their meaning: no message, or a wrong checksum.
pub proof fn law_errors_keep_their_meaning(err: Error)
    ensures
        <PentairError as FromSpec<Error>>::from_spec(err) == PentairError::InvalidMessage
            <==> err == Error::InvalidMessage,
        <PentairError as FromSpec<Error>>::from_spec(err) == PentairError::CrcError <==> err
            == Error::CheckSumError,
{
}

} // verus!
