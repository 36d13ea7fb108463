use vstd::prelude::*;

verus! {

/// Relies on uuid's `Uuid::new_v4` in its hyphenated `Display` form: a
/// freshly drawn random identifier. The result is random, so nothing is
/// promised of it; callers check for themselves whatever they need.
#[verifier::external_body]
pub(crate) fn fresh_id() -> String {
    uuid::Uuid::new_v4().to_string()
}

} // verus!
