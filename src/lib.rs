//! Verified core of a flash programmer for small PIC microcontrollers.
//!
//! - `hex_instruction`: the Intel HEX record parser, one byte at a time.
//! - `programmer`, `commands`, `osccal_bits`: the ICSP engine over a board
//!   given as a `PinDriver`, with a log of every protocol step it issues.
//! - `target`: a model of the target chip that gives those steps a meaning.
//! - `session`: the controller between the host link and the engine.

pub mod commands;
pub mod hex_instruction;
pub mod operations;
pub mod osccal_bits;
pub mod programmer;
pub mod session;
pub mod special_addresses;
pub mod target;
pub mod timing_configurations;
