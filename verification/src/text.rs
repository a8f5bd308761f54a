//! Character-level text utilities: conversions between `str`, `Vec<char>`
//! and `String`, and UTF-8 decoding of raw bytes.

use vstd::prelude::*;
use vstd::string::*;
use vstd::utf8::{decode_utf8, is_scalar, valid_utf8};

verus! {

/// The characters of `s`, collected into a vector.
pub(crate) fn str_to_chars(s: &str) -> (r: Vec<char>)
    ensures
        r@ == s@,
{
    let n = s.unicode_len();
    let mut r: Vec<char> = Vec::new();
    let mut i: usize = 0;
    while i < n
        invariant
            n == s@.len(),
            i <= n,
            r@ == s@.take(i as int),
        decreases n - i,
    {
        r.push(s.get_char(i));
        i = i + 1;
        proof {
            assert(r@ =~= s@.take(i as int));
        }
    }
    proof {
        assert(s@.take(n as int) =~= s@);
    }
    r
}

/// Relies on `String`'s `FromIterator` over `char`: the collected string
/// holds exactly the given characters, in order.
#[verifier::external_body]
pub(crate) fn chars_to_string(v: &Vec<char>) -> (r: String)
    ensures
        r@ == v@,
{
    v.iter().collect()
}

/// Relies on `std::str::from_utf8`: it succeeds exactly on valid UTF-8 and
/// views the bytes as their decoded characters.
#[verifier::external_body]
pub(crate) fn utf8_to_str(v: &[u8]) -> (r: Option<&str>)
    ensures
        r is Some <==> valid_utf8(v@),
        r matches Some(s) ==> s@ == decode_utf8(v@),
{
    std::str::from_utf8(v).ok()
}

/// Relies on `char::from_u32`: it succeeds exactly on Unicode scalar values
/// and returns that scalar.
#[verifier::external_body]
pub(crate) fn char_from_u32(u: u32) -> (r: Option<char>)
    ensures
        r is Some <==> is_scalar(u),
        r matches Some(c) ==> c == u as char,
{
    char::from_u32(u)
}

} // verus!
