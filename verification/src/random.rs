//! Random letters and digits, drawn with the `rand` crate.

use vstd::prelude::*;

verus! {

/// Whether `c` is an ASCII letter or digit.
pub open spec fn is_alphanumeric(c: char) -> bool {
    ||| '0' <= c <= '9'
    ||| 'A' <= c <= 'Z'
    ||| 'a' <= c <= 'z'
}

/// Whether `s` holds ASCII letters and digits only.
pub open spec fn all_alphanumeric(s: Seq<char>) -> bool {
    forall|i: int| 0 <= i < s.len() ==> is_alphanumeric(#[trigger] s[i])
}

/// Draws one byte from `rand::distributions::Alphanumeric` with the
/// generator that `rand::thread_rng` returns, through `Rng::sample`. The
/// distribution picks from the 62 ASCII letters and digits, which is all the
/// contract claims. `rand` panics where the generator cannot be seeded.
#[verifier::external_body]
pub(crate) fn random_char() -> (c: char)
    ensures
        is_alphanumeric(c),
{
    char::from(rand::Rng::sample(&mut rand::thread_rng(), rand::distributions::Alphanumeric))
}

/// A string of `length` letters and digits, each drawn on its own.
pub fn random_string(length: usize) -> (s: String)
    ensures
        s@.len() == length,
        all_alphanumeric(s@),
{
    let mut s = String::new();
    let mut i: usize = 0;
    while i < length
        invariant
            i <= length,
            s@.len() == i,
            all_alphanumeric(s@),
        decreases length - i,
    {
        let c = random_char();
        s.push(c);
        i += 1;
    }
    s
}

} // verus!
