//! The STTS22H temperature sensor protocol.
//!
//! The sensor sits on I2C at address 0x3F.  Its identity is checked once
//! (WHOAMI must read 0xA0); a measurement resets the sensor, starts a
//! one-shot conversion, polls the status register until the conversion is no
//! longer busy (giving up after 200 more polls), and reads the 16-bit
//! little-endian result, in hundredths of a degree Celsius.
//!
//! The bus transfers themselves belong to the caller: this module says which
//! transfer comes next and what each reply leads to.
use vstd::prelude::*;
use crate::decimal::{decimal, decimal_string};

verus! {

/// The sensor's I2C address.
pub const ADDR: u8 = 0x3F;

pub const REG_WHOAMI: u8 = 0x01;
pub const REG_CTRL: u8 = 0x04;
pub const REG_STATUS: u8 = 0x05;
pub const REG_TEMP_L_OUT: u8 = 0x06;
pub const REG_SOFTWARE_RESET: u8 = 0x0C;

pub const WHOAMI_VALUE: u8 = 0xA0;
pub const CTRL_IF_ADD_INC: u8 = 0x08;
pub const CTRL_ONE_SHOT: u8 = 0x01;
pub const STATUS_BUSY: u8 = 0x01;

/// Values written to the software-reset register: first asserted, then released.
pub const SOFTWARE_RESET_ASSERT: u8 = 0x02;
pub const SOFTWARE_RESET_RELEASE: u8 = 0x00;

/// Further status polls allowed after the first one before giving up.
pub const POLL_RETRIES: u16 = 200;

/// A failed I2C transfer, as the bus driver reports it.
#[derive(Clone, Copy, Debug, PartialEq, Eq, Structural)]
pub enum I2cError {
    Bus,
    Arbitration,
    Nack,
    Timeout,
    Crc,
    Overrun,
    ZeroLengthTransfer,
}

/// Why talking to the sensor failed.
#[derive(Clone, Copy, Debug, PartialEq, Eq, Structural)]
pub enum Stts22hError {
    /// An I2C transfer failed.
    I2c(I2cError),
    /// The identity register did not read 0xA0; it read this.
    WhoAmI(u8),
    /// The conversion stayed busy for every poll.
    Timeout,
}

/// How an error reads; `bus` is how the bus driver words an I2C failure.
pub open spec fn error_text(e: Stts22hError, bus: Seq<char>) -> Seq<char> {
    match e {
        Stts22hError::I2c(_) => "I2C communication failed: "@ + bus,
        Stts22hError::WhoAmI(id) => "WhoAmI failed: "@ + decimal(id as nat),
        Stts22hError::Timeout => "Timeout"@,
    }
}

impl Stts22hError {
    /// The error's text, for the log and the LCD.  `bus_text` is how the bus
    /// driver words the I2C failure; it is used for `I2c` errors only.
    pub fn message(&self, bus_text: &str) -> (s: String)
        ensures
            s@ == error_text(*self, bus_text@),
    {
        match self {
            Stts22hError::I2c(_) => {
                let mut s = String::from_str("I2C communication failed: ");
                s.append(bus_text);
                s
            },
            Stts22hError::WhoAmI(id) => {
                let mut s = String::from_str("WhoAmI failed: ");
                let n = decimal_string(*id as u32);
                s.append(n.as_str());
                s
            },
            Stts22hError::Timeout => String::from_str("Timeout"),
        }
    }
}

/// Checks the sensor's identity from the reply to reading `REG_WHOAMI`.
pub fn check_whoami(reply: Result<u8, I2cError>) -> (r: Result<(), Stts22hError>)
    ensures
        r == (match reply {
            Err(e) => Err(Stts22hError::I2c(e)),
            Ok(id) => if id == WHOAMI_VALUE {
                Ok(())
            } else {
                Err(Stts22hError::WhoAmI(id))
            },
        }),
{
    match reply {
        Err(e) => Err(Stts22hError::I2c(e)),
        Ok(id) => if id != WHOAMI_VALUE {
            Err(Stts22hError::WhoAmI(id))
        } else {
            Ok(())
        },
    }
}

/// The signed 16-bit value of two little-endian bytes.
pub open spec fn le_i16(lo: u8, hi: u8) -> int {
    let u = hi as int * 256 + lo as int;
    if u < 0x8000 {
        u
    } else {
        u - 0x10000
    }
}

/// Decodes the temperature registers: hundredths of a degree Celsius.
pub fn i16_from_le_bytes(bytes: [u8; 2]) -> (v: i16)
    ensures
        v as int == le_i16(bytes@[0], bytes@[1]),
{
    let lo = bytes[0];
    let hi = bytes[1];
    let u: u16 = ((hi as u16) << 8u16) | (lo as u16);
    assert(u as int == hi as int * 256 + lo as int) by (bit_vector)
        requires
            u == ((hi as u16) << 8u16) | (lo as u16),
    ;
    let v = u as i16;
    assert(v as int == (if u < 0x8000 { u as int } else { u as int - 0x10000 })) by (bit_vector)
        requires
            v == u as i16,
    ;
    v
}

/// One I2C transfer with the sensor.
#[derive(Clone, Copy, Debug, PartialEq, Eq, Structural)]
pub enum I2cRequest {
    /// Write `value` into register `reg`.
    WriteReg { reg: u8, value: u8 },
    /// Read one byte from register `reg`.
    ReadReg { reg: u8 },
    /// Read the two temperature bytes, starting at `REG_TEMP_L_OUT`.
    ReadTemperature,
}

/// Where a measurement stands.
#[derive(Clone, Copy, Debug, PartialEq, Eq, Structural)]
pub enum Measurement {
    /// About to assert the software reset.
    ResetAssert,
    /// About to release the software reset.
    ResetRelease,
    /// About to start a one-shot conversion.
    StartOneShot,
    /// About to poll the status; `retries` more polls are allowed after this one.
    Poll { retries: u16 },
    /// About to read the result.
    ReadResult,
}

/// What a reply leads to.
#[derive(Clone, Copy, Debug, PartialEq, Eq)]
pub enum MeasureOutcome {
    /// The measurement goes on.
    Next(Measurement),
    /// The measurement is over: the temperature in hundredths of a degree
    /// Celsius, or why it failed.
    Done(Result<i16, Stts22hError>),
}

/// The transfer a measurement asks for in each state.
pub open spec fn request_of(m: Measurement) -> I2cRequest {
    match m {
        Measurement::ResetAssert => I2cRequest::WriteReg {
            reg: REG_SOFTWARE_RESET,
            value: SOFTWARE_RESET_ASSERT,
        },
        Measurement::ResetRelease => I2cRequest::WriteReg {
            reg: REG_SOFTWARE_RESET,
            value: SOFTWARE_RESET_RELEASE,
        },
        Measurement::StartOneShot => I2cRequest::WriteReg {
            reg: REG_CTRL,
            value: CTRL_IF_ADD_INC | CTRL_ONE_SHOT,
        },
        Measurement::Poll { .. } => I2cRequest::ReadReg { reg: REG_STATUS },
        Measurement::ReadResult => I2cRequest::ReadTemperature,
    }
}

/// What the reply to the transfer of state `m` leads to.  `data` holds the
/// bytes the transfer read (the first for a register read, both for the
/// temperature; a write reads none and its `data` is not looked at).
pub open spec fn outcome_of(m: Measurement, reply: Result<[u8; 2], I2cError>) -> MeasureOutcome {
    match reply {
        Err(e) => MeasureOutcome::Done(Err(Stts22hError::I2c(e))),
        Ok(data) => match m {
            Measurement::ResetAssert => MeasureOutcome::Next(Measurement::ResetRelease),
            Measurement::ResetRelease => MeasureOutcome::Next(Measurement::StartOneShot),
            Measurement::StartOneShot => MeasureOutcome::Next(
                Measurement::Poll { retries: POLL_RETRIES },
            ),
            Measurement::Poll { retries } => if data@[0] & STATUS_BUSY == 0 {
                MeasureOutcome::Next(Measurement::ReadResult)
            } else if retries == 0 {
                MeasureOutcome::Done(Err(Stts22hError::Timeout))
            } else {
                MeasureOutcome::Next(Measurement::Poll { retries: (retries - 1) as u16 })
            },
            Measurement::ReadResult => MeasureOutcome::Done(
                Ok(le_i16(data@[0], data@[1]) as i16),
            ),
        },
    }
}

/// An upper bound on the transfers a measurement still makes, this one included.
pub open spec fn transfers_left(m: Measurement) -> nat {
    match m {
        Measurement::ResetAssert => (POLL_RETRIES + 5) as nat,
        Measurement::ResetRelease => (POLL_RETRIES + 4) as nat,
        Measurement::StartOneShot => (POLL_RETRIES + 3) as nat,
        Measurement::Poll { retries } => (retries + 2) as nat,
        Measurement::ReadResult => 1,
    }
}

impl Measurement {
    /// A measurement from its beginning.
    pub fn start() -> (m: Measurement)
        ensures
            m == Measurement::ResetAssert,
    {
        Measurement::ResetAssert
    }

    /// The transfer to perform next.
    pub fn request(&self) -> (r: I2cRequest)
        ensures
            r == request_of(*self),
    {
        match self {
            Measurement::ResetAssert => I2cRequest::WriteReg {
                reg: REG_SOFTWARE_RESET,
                value: SOFTWARE_RESET_ASSERT,
            },
            Measurement::ResetRelease => I2cRequest::WriteReg {
                reg: REG_SOFTWARE_RESET,
                value: SOFTWARE_RESET_RELEASE,
            },
            Measurement::StartOneShot => I2cRequest::WriteReg {
                reg: REG_CTRL,
                value: CTRL_IF_ADD_INC | CTRL_ONE_SHOT,
            },
            Measurement::Poll { .. } => I2cRequest::ReadReg { reg: REG_STATUS },
            Measurement::ReadResult => I2cRequest::ReadTemperature,
        }
    }

    /// Takes the reply to `self.request()`.
    pub fn on_reply(&self, reply: Result<[u8; 2], I2cError>) -> (o: MeasureOutcome)
        ensures
            o == outcome_of(*self, reply),
    {
        match reply {
            Err(e) => MeasureOutcome::Done(Err(Stts22hError::I2c(e))),
            Ok(data) => match self {
                Measurement::ResetAssert => MeasureOutcome::Next(Measurement::ResetRelease),
                Measurement::ResetRelease => MeasureOutcome::Next(Measurement::StartOneShot),
                Measurement::StartOneShot => MeasureOutcome::Next(
                    Measurement::Poll { retries: POLL_RETRIES },
                ),
                Measurement::Poll { retries } => {
                    if data[0] & STATUS_BUSY == 0 {
                        MeasureOutcome::Next(Measurement::ReadResult)
                    } else {
                        match retries.checked_sub(1) {
                            None => MeasureOutcome::Done(Err(Stts22hError::Timeout)),
                            Some(r) => MeasureOutcome::Next(Measurement::Poll { retries: r }),
                        }
                    }
                },
                Measurement::ReadResult => {
                    let raw = i16_from_le_bytes(data);
                    MeasureOutcome::Done(Ok(raw))
                },
            },
        }
    }
}

/// A measurement always ends: every reply either ends it or leads to a
/// state with fewer transfers left, and it starts with 205 at most (three
/// writes, at most 201 status polls, one result read).
pub proof fn lemma_measurement_ends(m: Measurement, reply: Result<[u8; 2], I2cError>)
    ensures
        transfers_left(Measurement::ResetAssert) == 205,
        outcome_of(m, reply) matches MeasureOutcome::Next(n) ==> transfers_left(n) < transfers_left(
            m,
        ),
{
}

/// A failed transfer ends the measurement with that failure, whatever the state.
pub proof fn lemma_bus_error_aborts(m: Measurement, e: I2cError)
    ensures
        outcome_of(m, Err(e)) == MeasureOutcome::Done(Err(Stts22hError::I2c(e))),
{
}

} // verus!
