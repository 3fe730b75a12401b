//! Parsing and joining of URLs, done by the `url` crate.

use url::Url;
use vstd::prelude::*;

verus! {

/// What `Url::parse` makes of `text`: the serialization of the parsed URL, or
/// nothing where `text` is no absolute URL.
pub uninterp spec fn parsed_url(text: Seq<char>) -> Option<Seq<char>>;

/// What `Url::join` makes of `reference` against the URL that `base` parses
/// to: the serialization of the joined URL, or nothing where `base` is no
/// absolute URL or `reference` cannot be resolved against it.
pub uninterp spec fn joined_url(base: Seq<char>, reference: Seq<char>) -> Option<Seq<char>>;

/// Trusted: `Url::parse`. Hands back the parsed URL's serialization, as
/// `String::from` gives it, or nothing on a parse error. The contract only
/// names that result; it claims that parsing depends on the text alone.
#[verifier::external_body]
pub(crate) fn parse_url(text: &str) -> (url: Option<String>)
    ensures
        match url {
            Some(u) => parsed_url(text@) == Some(u@),
            None => parsed_url(text@) is None,
        },
{
    match Url::parse(text) {
        Ok(url) => Some(String::from(url)),
        Err(_) => None,
    }
}

/// Trusted: `Url::join`, called on the URL that `Url::parse` makes of `base`.
/// Hands back the joined URL's serialization, or nothing where either step
/// reports an error. The contract only names that result; it claims that it
/// depends on the two texts alone.
#[verifier::external_body]
pub(crate) fn join_url(base: &str, reference: &str) -> (url: Option<String>)
    ensures
        match url {
            Some(u) => joined_url(base@, reference@) == Some(u@),
            None => joined_url(base@, reference@) is None,
        },
{
    match Url::parse(base) {
        Ok(base) => match base.join(reference) {
            Ok(url) => Some(String::from(url)),
            Err(_) => None,
        },
        Err(_) => None,
    }
}

} // verus!
