//! Random names and tokens.
use vstd::prelude::*;

use rand::distr::SampleString;

use crate::text::is_alphanumeric;

verus! {

/// Relies on rand's `Alphanumeric::sample_string` with the thread-local
/// generator: `len` characters, each an ASCII letter or digit.
#[verifier::external_body]
pub(crate) fn random_alphanumeric(len: usize) -> (r: String)
    ensures
        r@.len() == len,
        forall|i: int| 0 <= i < r@.len() ==> is_alphanumeric(#[trigger] r@[i]),
{
    rand::distr::Alphanumeric.sample_string(&mut rand::rng(), len)
}

} // verus!
