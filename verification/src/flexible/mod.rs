//! Configurable identifiers: length, alphabet, prefix and check character.
pub mod alphabet;
pub mod checksum;
pub mod prefix;
pub mod generator;
