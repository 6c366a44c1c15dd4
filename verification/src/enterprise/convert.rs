//! Conversion between identifiers and UUIDs or ULIDs: the same 128 bits.
use vstd::pervasive::arbitrary;
use vstd::prelude::*;
use vstd::std_specs::convert::{FromSpecImpl, TryFromSpecImpl};

use ulid::Ulid;
use uuid::Uuid;

use crate::encoder::crockford_encode;
use crate::encoder::is_canonical_crockford;
use crate::id::{lemma_raw_round_trip, SigId26};
use crate::layout::be_bytes;
use crate::Error;

verus! {

#[verifier::external_type_specification]
#[verifier::external_body]
pub struct ExUuid(Uuid);

#[verifier::external_type_specification]
#[verifier::external_body]
pub struct ExUlid(Ulid);

/// The 16 bytes a UUID holds.
pub uninterp spec fn uuid_bytes(uuid: Uuid) -> Seq<u8>;

/// The 16 big-endian bytes of a ULID.
pub uninterp spec fn ulid_bytes(ulid: Ulid) -> Seq<u8>;

/// `Uuid::from_bytes`: the UUID holding these 16 bytes as they are.
#[verifier::external_body]
fn uuid_from_bytes(bytes: [u8; 16]) -> (uuid: Uuid)
    ensures
        uuid_bytes(uuid) == bytes@,
{
    Uuid::from_bytes(bytes)
}

/// `Uuid::as_bytes`: the 16 bytes the UUID holds.
#[verifier::external_body]
fn uuid_as_bytes(uuid: &Uuid) -> (bytes: [u8; 16])
    ensures
        bytes@ == uuid_bytes(*uuid),
{
    *uuid.as_bytes()
}

/// `Ulid::from_bytes`: the ULID whose big-endian bytes are these.
#[verifier::external_body]
fn ulid_from_bytes(bytes: [u8; 16]) -> (ulid: Ulid)
    ensures
        ulid_bytes(ulid) == bytes@,
{
    Ulid::from_bytes(bytes)
}

/// `Ulid::to_bytes`: the big-endian bytes of the ULID.
#[verifier::external_body]
fn ulid_to_bytes(ulid: &Ulid) -> (bytes: [u8; 16])
    ensures
        bytes@ == ulid_bytes(*ulid),
{
    ulid.to_bytes()
}

/// Conversion of identifiers to and from UUIDs.
pub trait SigIdUuidExt: Sized {
    /// The UUID holding the identifier's 16 raw bytes.
    fn to_uuid(&self) -> Uuid;

    /// The UUID of the raw bytes with version 7 and the RFC 4122 variant set
    /// (6 random bits are lost).
    fn to_uuid_v7(&self) -> Uuid;

    /// The identifier of the UUID's 16 bytes.
    fn from_uuid(uuid: Uuid) -> Self;
}

impl SigIdUuidExt for SigId26 {
    fn to_uuid(&self) -> (uuid: Uuid)
        ensures
            uuid_bytes(uuid) == be_bytes(self.number()),
    {
        uuid_from_bytes(self.as_raw_bytes())
    }

    fn to_uuid_v7(&self) -> (uuid: Uuid)
        ensures
            uuid_bytes(uuid) == be_bytes(self.number()).update(
                6,
                (be_bytes(self.number())[6] & 0x0F) | 0x70,
            ).update(8, (be_bytes(self.number())[8] & 0x3F) | 0x80),
    {
        let mut bytes = self.as_raw_bytes();
        bytes[6] = (bytes[6] & 0x0F) | 0x70;
        bytes[8] = (bytes[8] & 0x3F) | 0x80;
        uuid_from_bytes(bytes)
    }

    fn from_uuid(uuid: Uuid) -> (id: Self)
        ensures
            id@ == crockford_encode(uuid_bytes(uuid)),
    {
        let raw = uuid_as_bytes(&uuid);
        Self::from_raw_bytes(raw)
    }
}

/// Conversion of identifiers to and from ULIDs.
pub trait SigIdUlidExt: Sized {
    /// The ULID of the identifier's 16 raw bytes.
    fn to_ulid(&self) -> Ulid;

    /// The identifier of the ULID's 16 bytes.
    fn from_ulid(ulid: Ulid) -> Self;
}

impl SigIdUlidExt for SigId26 {
    fn to_ulid(&self) -> (ulid: Ulid)
        ensures
            ulid_bytes(ulid) == be_bytes(self.number()),
    {
        let raw = self.as_raw_bytes();
        ulid_from_bytes(raw)
    }

    fn from_ulid(ulid: Ulid) -> (id: Self)
        ensures
            id@ == crockford_encode(ulid_bytes(ulid)),
    {
        let bytes = ulid_to_bytes(&ulid);
        Self::from_raw_bytes(bytes)
    }
}

/// An identifier with canonical text comes back from the UUID or ULID made of it:
/// the bytes of either, turned back into an identifier, give the same text.
pub proof fn lemma_uuid_ulid_round_trip(id: SigId26, uuid: Uuid, ulid: Ulid)
    requires
        is_canonical_crockford(id@),
        uuid_bytes(uuid) == be_bytes(id.number()),
        ulid_bytes(ulid) == be_bytes(id.number()),
    ensures
        crockford_encode(uuid_bytes(uuid)) == id@,
        crockford_encode(ulid_bytes(ulid)) == id@,
{
    lemma_raw_round_trip(id@);
}

/// The UUID of an identifier: the one holding its 16 raw bytes.
impl From<SigId26> for Uuid {
    fn from(id: SigId26) -> (uuid: Uuid)
        ensures
            uuid_bytes(uuid) == be_bytes(id.number()),
    {
        uuid_from_bytes(id.as_raw_bytes())
    }
}

/// Two UUIDs with the same bytes are not known to be one value here, so the
/// conversion is not tied to a spec function; its own `ensures` states the bytes.
impl FromSpecImpl<SigId26> for Uuid {
    open spec fn obeys_from_spec() -> bool {
        false
    }

    closed spec fn from_spec(id: SigId26) -> Uuid {
        arbitrary()
    }
}

/// The identifier of a UUID's 16 bytes; every UUID gives one.
impl TryFrom<Uuid> for SigId26 {
    type Error = Error;

    fn try_from(uuid: Uuid) -> (r: Result<Self, Error>)
        ensures
            r matches Ok(id) && id@ == crockford_encode(uuid_bytes(uuid)),
    {
        let raw = uuid_as_bytes(&uuid);
        Ok(SigId26::from_raw_bytes(raw))
    }
}

/// The conversion always succeeds; its own `ensures` states the identifier.
impl TryFromSpecImpl<Uuid> for SigId26 {
    open spec fn obeys_try_from_spec() -> bool {
        false
    }

    closed spec fn try_from_spec(uuid: Uuid) -> Result<SigId26, Error> {
        arbitrary()
    }
}

} // verus!
