//! Fresh identifier generation.
//!
//! Claiming an identifier draws a version-4 UUID: 122 random bits, rendered
//! in the hyphenated textual form. Randomness cannot be reasoned about, so
//! the only stated fact is the length of the rendering; in particular two
//! draws are never proved distinct, only overwhelmingly likely to be.

use vstd::prelude::*;

verus! {

/// Relies on `uuid::Uuid::new_v4` and the `Display` rendering of a `Uuid`:
/// a fresh random version-4 UUID in the hyphenated form, which is always 36
/// characters. The value is random; nothing else is assumed of it.
#[verifier::external_body]
pub(crate) fn fresh_uuid_string() -> (r: String)
    ensures
        r@.len() == 36,
{
    uuid::Uuid::new_v4().to_string()
}

} // verus!
