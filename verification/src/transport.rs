//! The retrying I2C transport.
//!
//! The library never opens a bus itself: it is handed an [`I2cEndpoint`],
//! a minimal capability for single write and read transactions against one
//! slave address plus a blocking delay. [`TwiI2CDevice`] wraps such an
//! endpoint with the bounded write-retry policy the bootloader needs:
//! writes collide with a busy slave all the time and are retried, reads
//! fail fast and are handled at the protocol layer.

use vstd::prelude::*;

use crate::errors::{BusFault, TransportError};

verus! {

/// How many attempts a write gets before the transport gives up.
pub const WRITE_RETRY_COUNT: usize = 50;

/// Milliseconds between two write attempts.
pub const WRITE_RETRY_DELAY_MS: u64 = 2;

/// A raw, byte-oriented I2C endpoint bound to one slave address.
///
/// Implementations live outside the library: the command-line front end
/// binds one to a real I2C device file, tests use deterministic doubles.
/// Each call is a single transaction; no method makes any promise about
/// the device's behaviour, so everything proved against this trait holds
/// whatever an endpoint does.
pub trait I2cEndpoint {
    /// One write transaction; no retry.
    fn bus_write(&mut self, data: &Vec<u8>) -> Result<(), BusFault>;

    /// One read transaction asking for `len` bytes.
    fn bus_read(&mut self, len: usize) -> Result<Vec<u8>, BusFault>;

    /// Blocks the calling thread for `ms` milliseconds.
    fn delay_ms(&mut self, ms: u64);
}

/// An I2C endpoint together with the bounded-retry write policy.
pub struct TwiI2CDevice<E: I2cEndpoint> {
    endpoint: E,
    /// The slave address the endpoint is bound to; kept for reporting.
    pub address: u8,
}

impl<E: I2cEndpoint> TwiI2CDevice<E> {
    /// The slave address, as contracts speak of it.
    pub closed spec fn spec_address(&self) -> u8 {
        self.address
    }

    /// Binds the retry policy to an endpoint.
    pub fn new(endpoint: E, address: u8) -> (r: Self)
        ensures
            r.spec_address() == address,
    {
        TwiI2CDevice { endpoint, address }
    }

    /// Writes `data`, retrying on failure: up to [`WRITE_RETRY_COUNT`]
    /// attempts in all, [`WRITE_RETRY_DELAY_MS`] milliseconds apart.
    /// Every endpoint error counts as transient (a slave that is busy
    /// acknowledging or mid-erase); only exhausting every attempt fails,
    /// reporting the attempt count and the last underlying fault.
    pub fn write_with_retry(&mut self, data: &Vec<u8>) -> (r: Result<(), TransportError>)
        ensures
            final(self).spec_address() == old(self).spec_address(),
            r matches Err(e) ==> e matches TransportError::WriteRetriesExhausted {
                attempts,
                last: _,
            } && attempts == WRITE_RETRY_COUNT,
    {
        let mut attempt: usize = 0;
        let mut last = BusFault { code: 0 };
        while attempt < WRITE_RETRY_COUNT
            invariant
                attempt <= WRITE_RETRY_COUNT,
                self.spec_address() == old(self).spec_address(),
            decreases WRITE_RETRY_COUNT - attempt,
        {
            match self.endpoint.bus_write(data) {
                Ok(_) => {
                    return Ok(());
                },
                Err(fault) => {
                    last = fault;
                },
            }
            attempt = attempt + 1;
            if attempt < WRITE_RETRY_COUNT {
                self.endpoint.delay_ms(WRITE_RETRY_DELAY_MS);
            }
        }
        Err(TransportError::WriteRetriesExhausted { attempts: WRITE_RETRY_COUNT, last })
    }

    /// One read of `len` bytes; a single attempt, never retried. Reads
    /// that fail signal a protocol-level state mismatch, which the caller
    /// must handle, not the transport.
    pub fn read(&mut self, len: usize) -> (r: Result<Vec<u8>, TransportError>)
        ensures
            final(self).spec_address() == old(self).spec_address(),
            r matches Err(e) ==> e is ReadFailed,
    {
        match self.endpoint.bus_read(len) {
            Ok(bytes) => Ok(bytes),
            Err(fault) => Err(TransportError::ReadFailed(fault)),
        }
    }

    /// A combined transaction: the write side inherits the retry policy,
    /// the read side does not.
    pub fn write_then_read(&mut self, write_data: &Vec<u8>, read_len: usize) -> (r: Result<
        Vec<u8>,
        TransportError,
    >)
        ensures
            final(self).spec_address() == old(self).spec_address(),
            r matches Err(e) ==> (e matches TransportError::WriteRetriesExhausted {
                attempts,
                last: _,
            } && attempts == WRITE_RETRY_COUNT) || e is ReadFailed,
    {
        match self.write_with_retry(write_data) {
            Ok(_) => {},
            Err(e) => {
                return Err(e);
            },
        }
        self.read(read_len)
    }

    /// Writes one large block (a full flash-page command) through the
    /// same retry policy.
    pub fn write_large_data(&mut self, data: &Vec<u8>) -> (r: Result<(), TransportError>)
        ensures
            final(self).spec_address() == old(self).spec_address(),
            r matches Err(e) ==> e matches TransportError::WriteRetriesExhausted {
                attempts,
                last: _,
            } && attempts == WRITE_RETRY_COUNT,
    {
        self.write_with_retry(data)
    }

    /// Blocks for `ms` milliseconds; settle delays of the protocol layer.
    pub fn delay_ms(&mut self, ms: u64)
        ensures
            final(self).spec_address() == old(self).spec_address(),
    {
        self.endpoint.delay_ms(ms);
    }
}

} // verus!
