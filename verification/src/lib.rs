//! Sigil + ID: 26-character identifiers in Crockford Base32.
//!
//! An identifier holds 128 bits: timestamp (48 bits), worker id (16 bits),
//! counter (14 bits) and random part (50 bits). The `flexible` module shapes
//! identifier strings; the `enterprise` module adds worker ids, inspection and
//! UUID/ULID conversion.
use vstd::prelude::*;

pub mod checksum;
pub mod clock;
pub mod consts;
pub mod encoder;
pub mod enterprise;
pub mod flexible;
pub mod generator;
pub mod id;
pub mod layout;
pub mod radix;
pub mod rng;
pub mod text;

pub use checksum::{crc16, iso7064_checksum};
pub use consts::{
    ALPHABET, ALPHABET_LOWER, COUNTER_BITS, COUNTER_MAX, EPOCH, ID_BYTES, ID_LENGTH, RANDOM_BITS,
    RANDOM_MAX, TIMESTAMP_BITS, TIMESTAMP_MAX, WORKER_BITS, WORKER_MAX,
};
pub use encoder::{decode_crockford32, encode_crockford32};
pub use generator::Generator;
pub use id::{ParseError, SigId26};

verus! {

/// Errors of decoding and generation.
#[derive(Debug, Clone, Copy, PartialEq, Eq, Structural)]
pub enum Error {
    /// The text does not have 26 characters.
    InvalidLength,
    /// The text holds a character outside the Crockford Base32 alphabet.
    InvalidCharacter,
    /// A checksum does not match.
    ChecksumMismatch,
    /// The timestamp does not fit in 48 bits.
    TimestampOverflow,
    /// All counter values of the current millisecond are used.
    CounterOverflow,
}

/// Result with the crate's error.
pub type Result<T> = core::result::Result<T, Error>;

} // verus!
