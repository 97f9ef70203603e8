use vstd::prelude::*;

use rand::RngExt;

verus! {

/// Whether a character is an ASCII letter or digit.
pub open spec fn is_alnum_char(c: char) -> bool {
    (48 <= c as u32 && c as u32 <= 57) || (65 <= c as u32 && c as u32 <= 90) || (97 <= c as u32
        && c as u32 <= 122)
}

/// Creates a random string 16 characters long.
///
/// Relies on `rand::rng` sampling `rand::distr::Alphanumeric`: every
/// character is drawn uniformly from A-Z, a-z and 0-9. Nothing more is
/// assumed of the draw; two calls may or may not differ.
#[verifier::external_body]
pub fn random_string() -> (r: String)
    ensures
        r@.len() == 16,
        forall|i: int| 0 <= i < r@.len() ==> is_alnum_char(#[trigger] r@[i]),
{
    rand::rng().sample_iter(&rand::distr::Alphanumeric).take(16).map(char::from).collect()
}

} // verus!
