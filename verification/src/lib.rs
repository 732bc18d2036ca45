//! Library for flashing AVR microcontrollers that run a TWI/I2C bootloader.
//!
//! The crate decodes Intel HEX firmware images into flat buffers bounded by
//! the bootloader reservation address, wraps a raw I2C endpoint with a
//! bounded retry policy, and drives the bootloader's command protocol:
//! mode switches, device identification, paged flash programming, and
//! read-back verification with one-shot fault recovery.
//!
//! All bus access goes through the [`transport::I2cEndpoint`] capability
//! trait; the binary front end supplies an endpoint backed by a real I2C
//! device, while tests supply deterministic doubles.

pub mod address;
pub mod errors;
pub mod files;
pub mod hex;
pub mod protocol;
pub mod transport;
