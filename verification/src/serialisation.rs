//! Binary serialisation of messages and frame headers, done by
//! `maidsafe_utilities::serialisation` (bincode underneath).

use vstd::prelude::*;
use vstd::bytes::{spec_u32_from_le_bytes, spec_u32_to_le_bytes};

use maidsafe_utilities::serialisation::{deserialise, serialise, SerialisationError};
use serde::de::DeserializeOwned;
use serde::ser::Serialize;

verus! {

/// The error of `maidsafe_utilities::serialisation`.
#[verifier::external_type_specification]
#[verifier::external_body]
pub struct ExSerialisationError(maidsafe_utilities::serialisation::SerialisationError);

/// Calls `maidsafe_utilities::serialisation::serialise` on a `u32`. Bincode writes a `u32` as its
/// 4 bytes in little-endian order into a growing vector, which cannot fail; the contract says so.
#[verifier::external_body]
pub(crate) fn serialise_u32(value: u32) -> (r: Result<Vec<u8>, SerialisationError>)
    ensures
        r is Ok,
        r matches Ok(v) ==> v@ == spec_u32_to_le_bytes(value),
{
    serialise(&value)
}

/// Calls `maidsafe_utilities::serialisation::deserialise` for a `u32`. Bincode reads the 4
/// little-endian bytes of a `u32` and fails on fewer; `deserialise` then fails unless exactly
/// those 4 bytes were given. The contract says: it succeeds exactly on 4 bytes, with their
/// little-endian value.
#[verifier::external_body]
pub(crate) fn deserialise_u32(bytes: &[u8]) -> (r: Result<u32, SerialisationError>)
    ensures
        r is Ok <==> bytes@.len() == 4,
        r matches Ok(v) ==> v == spec_u32_from_le_bytes(bytes@),
{
    deserialise::<u32>(bytes)
}

/// Calls `maidsafe_utilities::serialisation::serialise` on a message of the user's type. What it
/// writes depends on that type's `Serialize` impl, so nothing is promised of it.
#[verifier::external_body]
pub(crate) fn serialise_value<T: Serialize>(value: &T) -> Result<Vec<u8>, SerialisationError> {
    serialise(value)
}

/// Calls `maidsafe_utilities::serialisation::deserialise` for a message of the user's type. What
/// it reads depends on that type's `Deserialize` impl, so nothing is promised of it.
#[verifier::external_body]
pub(crate) fn deserialise_value<T: Serialize + DeserializeOwned>(bytes: &[u8]) -> Result<T, SerialisationError> {
    deserialise::<T>(bytes)
}

/// `r` is what `serialise_value` may give for `v`: the result of serialising the message.
pub closed spec fn encodes_to<T: Serialize>(v: T, r: Result<Vec<u8>, SerialisationError>) -> bool {
    call_ensures(serialise_value::<T>, (&v,), r)
}

/// `r` is what `deserialise_value` may give for the bytes `b`: the result of deserialising exactly
/// those bytes as a message.
pub closed spec fn decodes_to<T: Serialize + DeserializeOwned>(b: Seq<u8>, r: Result<T, SerialisationError>) -> bool {
    exists|a: &[u8]| a@ == b && #[trigger] call_ensures(deserialise_value::<T>, (a,), r)
}

/// Serialises a message: what `serialise_value` gives for it.
pub(crate) fn encode<T: Serialize>(v: &T) -> (r: Result<Vec<u8>, SerialisationError>)
    ensures
        encodes_to(*v, r),
{
    serialise_value(v)
}

/// Deserialises exactly the bytes `b` as a message: what `deserialise_value` gives for them.
pub(crate) fn decode<T: Serialize + DeserializeOwned>(b: &[u8]) -> (r: Result<T, SerialisationError>)
    ensures
        decodes_to(b@, r),
{
    deserialise_value(b)
}

} // verus!
