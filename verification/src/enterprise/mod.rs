//! Cluster-scale identifiers: worker ids, inspection, UUID and ULID conversion.
pub mod worker;
pub mod inspect;
pub mod convert;
pub mod generator;
