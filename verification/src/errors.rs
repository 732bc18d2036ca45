//! Error taxonomy of the flasher: parse-time errors for Intel HEX input,
//! transport-level errors for the retrying I2C layer, and protocol-level
//! errors for the bootloader session.

use vstd::prelude::*;

verus! {

/// Why an Intel HEX image could not be decoded.
#[derive(Debug, Clone, Copy, PartialEq, Eq, Structural)]
pub enum HexParseError {
    /// The input is not valid UTF-8 text.
    Encoding,
    /// A record header field or a data byte is not valid hexadecimal.
    Malformed,
    /// A data record starts at or above the bootloader boundary; flashing it
    /// would corrupt the bootloader. Carries the record's start address.
    AddressConflict(u16),
}

/// One raw I2C transaction failed; `code` is the endpoint's error number.
#[derive(Debug, Clone, Copy, PartialEq, Eq, Structural)]
pub struct BusFault {
    pub code: i32,
}

/// A failure of the retrying transport layer.
#[derive(Debug, Clone, Copy, PartialEq, Eq, Structural)]
pub enum TransportError {
    /// Every write attempt failed; `attempts` is how many were made and
    /// `last` the fault of the final one.
    WriteRetriesExhausted { attempts: usize, last: BusFault },
    /// The single read attempt failed.
    ReadFailed(BusFault),
}

/// The device answered, but not in the shape the protocol calls for.
#[derive(Debug, Clone, Copy, PartialEq, Eq, Structural)]
pub enum ProtocolError {
    /// A fixed-length response came back with the wrong number of bytes.
    WrongResponseLength { expected: usize, got: usize },
    /// The chip-info record reports a page size of zero, which no flash
    /// device has; paged programming would be meaningless.
    ZeroPageSize,
}

/// The protocol interaction an error came from, so a failure names the
/// step that broke, not just its kind.
#[derive(Debug, Clone, Copy, PartialEq, Eq, Structural)]
pub enum ProtocolStep {
    /// The mode-switch command.
    SwitchMode,
    /// Reading the version string.
    ReadVersion,
    /// Reading the chip-info record.
    ReadChipInfo,
    /// Writing one flash page.
    WritePage,
    /// Reading flash back for verification.
    ReadFlash,
}

/// A failure of a bootloader session operation, naming the step it hit.
#[derive(Debug, Clone, Copy, PartialEq, Eq, Structural)]
pub enum FlashError {
    /// The transport gave up (write retries exhausted, or a read failed).
    Transport(ProtocolStep, TransportError),
    /// The device's response was malformed.
    Protocol(ProtocolStep, ProtocolError),
    /// Read-back flash contents differ from the expected image; `address`
    /// is the first address whose byte differs.
    Verification { address: usize },
}

} // verus!
