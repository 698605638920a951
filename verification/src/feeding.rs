//! Feeding strings to a hasher.

use std::hash::{Hash, Hasher};
use vstd::prelude::*;

verus! {

/// `String`'s own `Hash::hash`, from the standard library: feeds a string to a hasher. Nothing is
/// claimed of what that makes of the hasher; contracts speak of it as of what `feed` may do.
#[verifier::external_body]
pub fn feed<H: Hasher>(value: &String, state: &mut H) {
    value.hash(state)
}

} // verus!
