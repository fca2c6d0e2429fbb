//! Minting of client identifiers.

use vstd::prelude::*;

verus! {

/// Relies on `uuid::Uuid::new_v4` and its `Display` impl: a freshly drawn
/// random UUID, rendered in the 36-character hyphenated form. The value is
/// random, so nothing is promised beyond its length.
#[verifier::external_body]
pub fn fresh_client_id() -> (r: String)
    ensures
        r@.len() == 36,
{
    uuid::Uuid::new_v4().to_string()
}

} // verus!
