//! Identifiers.

use vstd::prelude::*;

verus! {

/// `uuid::Uuid::new_v4`, as a text.
///
/// Nothing is claimed of the identifier that comes back.
#[verifier::external_body]
pub(crate) fn new_id() -> (r: String) {
    uuid::Uuid::new_v4().to_string()
}

} // verus!
