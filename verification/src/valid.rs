//! Validity checks that lean on outside parsers: UTF-8 well-formedness,
//! URI syntax and HTTP header name/value syntax.
//!
//! The URI and header checks are pure parsers of the `http` crate; their
//! outcomes are functions of the input bytes alone and are given names
//! here so that contracts can speak of them.

use vstd::prelude::*;

verus! {

/// Whether the UTF-8 string spelled by these bytes parses as an HTTP URI.
/// Names the outcome of `str::parse::<http::Uri>`.
pub uninterp spec fn uri_parsable(s: Seq<u8>) -> bool;

/// Whether these bytes form a valid HTTP header name.
/// Names the outcome of `http::header::HeaderName::from_bytes`.
pub uninterp spec fn header_name_ok(s: Seq<u8>) -> bool;

/// Whether these bytes form a valid HTTP header value.
/// Names the outcome of `http::header::HeaderValue::from_bytes`.
pub uninterp spec fn header_value_ok(s: Seq<u8>) -> bool;

/// Relies on std's `str::from_utf8`: it returns `Ok` exactly on valid
/// UTF-8 input, the property `vstd::utf8::valid_utf8` states.
#[verifier::external_body]
pub(crate) fn check_utf8(v: &[u8]) -> (r: bool)
    ensures
        r == vstd::utf8::valid_utf8(v@),
{
    std::str::from_utf8(v).is_ok()
}

/// Relies on `http::Uri`'s `FromStr` impl: a pure parser, so whether it
/// accepts the input is a function of the bytes alone.
#[verifier::external_body]
pub(crate) fn check_uri(v: &[u8]) -> (r: bool)
    requires
        vstd::utf8::valid_utf8(v@),
    ensures
        r == uri_parsable(v@),
{
    match std::str::from_utf8(v) {
        Ok(s) => s.parse::<http::Uri>().is_ok(),
        Err(_) => false,
    }
}

/// Relies on `http::header::HeaderName::from_bytes`: a pure validity
/// check of the byte string.
#[verifier::external_body]
pub(crate) fn check_header_name(v: &[u8]) -> (r: bool)
    ensures
        r == header_name_ok(v@),
{
    http::header::HeaderName::from_bytes(v).is_ok()
}

/// Relies on `http::header::HeaderValue::from_bytes`: a pure validity
/// check of the byte string.
#[verifier::external_body]
pub(crate) fn check_header_value(v: &[u8]) -> (r: bool)
    ensures
        r == header_value_ok(v@),
{
    http::header::HeaderValue::from_bytes(v).is_ok()
}

/// A byte string of ASCII bytes is valid UTF-8.
pub proof fn lemma_ascii_valid_utf8(s: Seq<u8>)
    requires
        forall|i: int| 0 <= i < s.len() ==> s[i] < 128,
    ensures
        vstd::utf8::valid_utf8(s),
    decreases s.len(),
{
    if s.len() > 0 {
        let b = s[0];
        assert(b & 0x7F == b) by (bit_vector)
            requires
                b < 128,
        ;
        assert(vstd::utf8::valid_first_scalar(s));
        assert(vstd::utf8::length_of_first_scalar(s) == 1);
        assert(vstd::utf8::pop_first_scalar(s) =~= s.skip(1));
        lemma_ascii_valid_utf8(s.skip(1));
    }
}

} // verus!
