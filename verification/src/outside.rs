//! What the library takes on trust from code that is not verified here: the
//! random number generator of the `rand` crate, and one method of `String`.

use rand::rngs::StdRng;
use rand::Rng;
use vstd::prelude::*;

verus! {

/// The standard generator of the `rand` crate. Nothing is known of what it
/// holds.
#[verifier::external_type_specification]
#[verifier::external_body]
pub struct ExStdRng(rand::rngs::StdRng);

/// Draws a number with `Rng::gen_range` from the half-open range
/// `low..high`. That method panics on an empty range, which `requires`
/// leaves out, and returns a value of the range; which one is not known.
#[verifier::external_body]
pub(crate) fn gen_range(rng: &mut StdRng, low: usize, high: usize) -> (n: usize)
    requires
        low < high,
    ensures
        low <= n < high,
{
    rng.gen_range(low..high)
}

/// `String::push` appends the character to the end of the string.
pub assume_specification[ String::push ](s: &mut String, c: char)
    ensures
        final(s)@ == old(s)@.push(c),
;

} // verus!
