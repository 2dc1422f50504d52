//! Fresh record identifiers.
use vstd::prelude::*;

verus! {

/// Relies on `uuid::Uuid::new_v4`, a random version-4 UUID, and on its
/// `Display` form, the 36-character hyphenated lower-case text.
#[verifier::external_body]
pub(crate) fn new_record_id() -> (r: String)
    ensures
        r@.len() == 36,
{
    uuid::Uuid::new_v4().to_string()
}

} // verus!
