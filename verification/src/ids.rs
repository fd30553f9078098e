//! Session identifier generation.
use vstd::prelude::*;

verus! {

/// Relies on `uuid::Uuid::new_v4` and its `Display` form: a randomly drawn
/// version-4 UUID rendered as 36 hyphenated lower-case hexadecimal
/// characters. Nothing more is assumed of the draw.
#[verifier::external_body]
pub(crate) fn uuid_string() -> (r: String)
    ensures
        r@.len() == 36,
{
    uuid::Uuid::new_v4().to_string()
}

} // verus!
