//! Shape identifiers. A shape id is the 128-bit value of a UUID; the nil
//! UUID identifies the root of a shape tree.

use vstd::prelude::*;

verus! {

/// The id of the root shape: the value of `uuid::Uuid::nil()`.
///
/// Trusted: calls `uuid::Uuid::nil` and `uuid::Uuid::as_u128`; the contract
/// claims that the nil UUID (all sixteen bytes zero) has the value 0.
#[verifier::external_body]
pub fn nil_shape_id() -> (id: u128)
    ensures
        id == 0,
{
    uuid::Uuid::nil().as_u128()
}

/// Whether the UUID with value `id` is the nil UUID.
///
/// Trusted: calls `uuid::Uuid::from_u128` and `uuid::Uuid::is_nil`; the
/// contract claims that a UUID is nil exactly when its value is 0.
#[verifier::external_body]
pub fn shape_id_is_nil(id: u128) -> (nil: bool)
    ensures
        nil == (id == 0),
{
    uuid::Uuid::from_u128(id).is_nil()
}

} // verus!
