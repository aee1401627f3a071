//! The transport reply type. A reply from the wire either carries a byte
//! payload or it does not; the one accessor below tells the two cases apart,
//! and `payload_of` names the bytes a reply carries so that contracts can
//! speak about them.

use vstd::prelude::*;

verus! {

#[verifier::external_type_specification]
#[verifier::external_body]
pub struct ExValue(redis::Value);

/// The byte payload a transport reply carries: `Some` exactly for a bulk-data
/// reply, holding its bytes.
pub uninterp spec fn payload_of(v: redis::Value) -> Option<Seq<u8>>;

/// Relies on `redis::Value`: the `Data` variant holds the reply's bytes and
/// no other variant carries a byte payload.
#[verifier::external_body]
pub(crate) fn value_bytes(v: &redis::Value) -> (r: Option<Vec<u8>>)
    ensures
        match r {
            Some(b) => payload_of(*v) == Some(b@),
            None => payload_of(*v) is None,
        },
{
    match v {
        redis::Value::Data(d) => Some(d.clone()),
        _ => None,
    }
}

} // verus!
