//! The trusted boundary: the few outside computations the interpreter leans
//! on (Unicode case mapping, UTF-8 decoding, base64 decoding), each behind a
//! wrapper whose contract names its result.

use vstd::prelude::*;

verus! {

/// The character sequence that `str::to_lowercase` returns for `s`:
/// full-Unicode lowercasing, a function of the characters alone.
pub uninterp spec fn lowercased(s: Seq<char>) -> Seq<char>;

/// The character sequence that `str::to_uppercase` returns for `s`:
/// full-Unicode uppercasing, a function of the characters alone.
pub uninterp spec fn uppercased(s: Seq<char>) -> Seq<char>;

/// What `base64::decode` returns for `s`: the decoded bytes exactly when `s`
/// is well-formed base64 in the standard alphabet with padding, and nothing
/// otherwise. A function of the input bytes alone.
pub uninterp spec fn base64_decoded(s: Seq<u8>) -> Option<Seq<u8>>;

/// Relies on `String::from_utf8`: it succeeds exactly on valid UTF-8 and
/// returns the string whose byte encoding is the input.
#[verifier::external_body]
pub(crate) fn utf8_decode(bytes: &Vec<u8>) -> (r: Option<String>)
    ensures
        r is Some <==> vstd::utf8::valid_utf8(bytes@),
        r matches Some(s) ==> s@ == vstd::utf8::decode_utf8(bytes@),
{
    String::from_utf8(bytes.clone()).ok()
}

/// Relies on `str::to_lowercase`: its result depends on the characters alone.
#[verifier::external_body]
pub(crate) fn lowercase(s: &str) -> (r: String)
    ensures
        r@ == lowercased(s@),
{
    s.to_lowercase()
}

/// Relies on `str::to_uppercase`: its result depends on the characters alone.
#[verifier::external_body]
pub(crate) fn uppercase(s: &str) -> (r: String)
    ensures
        r@ == uppercased(s@),
{
    s.to_uppercase()
}

/// Relies on `base64::decode`: standard alphabet with padding, deterministic
/// in the input bytes.
#[verifier::external_body]
pub(crate) fn b64_decode(input: &Vec<u8>) -> (r: Option<Vec<u8>>)
    ensures
        r matches Some(v) ==> base64_decoded(input@) == Some(v@),
        r is None ==> base64_decoded(input@) is None,
{
    base64::decode(input.as_slice()).ok()
}

} // verus!
