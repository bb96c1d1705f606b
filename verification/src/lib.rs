//! Radix-64 text under an alphabet that a secret key arranges.
//!
//! A key fixes an order of the 64 symbols `A-Z a-z 0-9 - _`; bytes are then
//! written, and read back, with that order as the table of 6-bit values.
//! This hides data from casual inspection. It is not encryption.

pub mod alphabet;
pub mod checksum;
pub mod codec;
pub mod error;
pub mod order;
pub mod radix64;
pub mod symbols;

pub use codec::Base64;
pub use error::Error;
