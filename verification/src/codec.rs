//! The default payload codec: MessagePack over a record holding one unsigned
//! 64-bit field. Encoding and decoding are done by `rmp_serde`; this module
//! gives the encoding a name and states of the two calls only what the crate
//! documents, namely that deserializing the serializer's own output returns
//! the value that was serialized.

use vstd::prelude::*;

verus! {

/// The MessagePack encoding of a record holding the single field `id`: a
/// function of `id` alone.
pub uninterp spec fn msgpack_of_u64(id: u64) -> Seq<u8>;

/// Relies on `rmp_serde::encode::to_vec`: the encoding of a record depends on
/// its fields alone, and writing a record of one integer into a fresh byte
/// vector cannot fail.
#[verifier::external_body]
pub(crate) fn rmp_encode_u64(id: u64) -> (r: Vec<u8>)
    ensures
        r@ == msgpack_of_u64(id),
{
    rmp_serde::encode::to_vec(&(id,)).unwrap()
}

/// Relies on `rmp_serde::decode::from_slice`: deserializing bytes produced by
/// `rmp_serde::encode::to_vec` returns the record that was serialized.
/// Nothing is assumed about bytes that are not such an encoding.
#[verifier::external_body]
pub(crate) fn rmp_decode_u64(b: &[u8]) -> (r: Option<u64>)
    ensures
        forall|id: u64| b@ == #[trigger] msgpack_of_u64(id) ==> r == Some(id),
{
    rmp_serde::decode::from_slice::<(u64,)>(b).ok().map(|t| t.0)
}

} // verus!
