//! Building a URL with one query pair through the `url` crate.
use vstd::prelude::*;

verus! {

/// `url::ParseError`, carried through as it is.
#[verifier::external_type_specification]
#[verifier::external_body]
pub struct ExUrlParseError(url::ParseError);

/// What `url::Url::parse_with_params(input, [(key, value)])` yields, serialized
/// with `Url::as_str`: `None` where `input` does not parse as a URL.
pub uninterp spec fn url_with_query_pair(input: Seq<char>, key: Seq<char>, value: Seq<char>) -> Option<Seq<char>>;

/// Calls `url::Url::parse_with_params` with the single pair `(key, value)` and
/// returns the URL's serialization. The contract claims only that success and
/// the serialized URL are a function of the three strings (named
/// `url_with_query_pair`); how `url` parses `input` and form-encodes the pair
/// is not stated.
#[verifier::external_body]
pub(crate) fn parse_with_query_pair(input: &str, key: &str, value: &str) -> (r: Result<String, url::ParseError>)
    ensures
        r is Ok <==> url_with_query_pair(input@, key@, value@) is Some,
        r matches Ok(s) ==> url_with_query_pair(input@, key@, value@) == Some(s@),
{
    match url::Url::parse_with_params(input, [(key, value)]) {
        Ok(url) => Ok(url.into()),
        Err(e) => Err(e),
    }
}

} // verus!
