//! The normalized record of one mirror.

use crate::countries::Country;
use crate::urls::{join_url, joined_url, parse_url, parsed_url};
use vstd::prelude::*;

verus! {

/// One candidate mirror, ready for speed measurement.
#[derive(Clone, Debug, PartialEq, Eq)]
pub struct Mirror {
    /// The mirror's country, where the source names one that is recognized.
    pub country: Option<Country>,
    /// The mirror's base URL, as serialized after parsing.
    pub url: String,
    /// The base URL joined with the target's test path.
    pub url_to_test: String,
}

/// A mirror as plain values: the country by its code, the URLs by their text.
pub struct MirrorView {
    pub country: Option<Seq<char>>,
    pub url: Seq<char>,
    pub url_to_test: Seq<char>,
}

/// The code of a country, where there is one.
pub open spec fn code_of(country: Option<Country>) -> Option<Seq<char>> {
    match country {
        Some(c) => Some(c@),
        None => None,
    }
}

impl View for Mirror {
    type V = MirrorView;

    open spec fn view(&self) -> MirrorView {
        MirrorView { country: code_of(self.country), url: self.url@, url_to_test: self.url_to_test@ }
    }
}

/// The mirror that a raw URL and a test path resolve to: the raw URL must parse
/// and the test path must join onto the parsed URL; otherwise there is none.
pub open spec fn resolved(country: Option<Seq<char>>, raw_url: Seq<char>, path_to_test: Seq<char>) -> Option<MirrorView> {
    match parsed_url(raw_url) {
        Some(url) => match joined_url(url, path_to_test) {
            Some(url_to_test) => Some(MirrorView { country, url, url_to_test }),
            None => None,
        },
        None => None,
    }
}

/// The views of a sequence of mirrors.
pub open spec fn mirror_views(mirrors: Seq<Mirror>) -> Seq<MirrorView> {
    mirrors.map_values(|m: Mirror| m@)
}

impl MirrorView {
    /// Whether both URLs are results of parsing: `url` is the serialization of
    /// some parsed text, and `url_to_test` is `url` joined with some path.
    pub open spec fn well_formed(self) -> bool {
        &&& exists|raw: Seq<char>| #[trigger] parsed_url(raw) == Some(self.url)
        &&& exists|path: Seq<char>| #[trigger] joined_url(self.url, path) == Some(self.url_to_test)
    }
}

/// What resolves is kept: the mirror of an item that resolves stands among
/// the mirrors of the sequence that holds the item.
pub proof fn lemma_resolving_item_is_kept<A>(items: Seq<A>, resolve: spec_fn(A) -> Option<MirrorView>, j: int)
    requires
        0 <= j < items.len(),
        resolve(items[j]) is Some,
    ensures
        items.filter_map(resolve).contains(resolve(items[j])->0),
    decreases items.len(),
{
    let mirrors = items.filter_map(resolve);
    let mirror = resolve(items[j])->0;
    let rest = items.drop_last();
    if j == items.len() - 1 {
        assert(mirrors[mirrors.len() - 1] == mirror);
    } else {
        assert(rest[j] == items[j]);
        lemma_resolving_item_is_kept(rest, resolve, j);
        let k = choose|k: int| 0 <= k < rest.filter_map(resolve).len() && rest.filter_map(resolve)[k] == mirror;
        assert(mirrors[k] == mirror);
    }
}

impl Mirror {
    /// The record of a mirror whose URLs are already resolved.
    pub fn new(country: Option<Country>, url: String, url_to_test: String) -> (mirror: Mirror)
        ensures
            mirror.country == country,
            mirror.url == url,
            mirror.url_to_test == url_to_test,
    {
        Mirror { country, url, url_to_test }
    }

    /// Parses `raw_url` and joins `path_to_test` onto it. Yields the mirror
    /// where both succeed, and nothing where either fails.
    pub fn resolve(country: Option<Country>, raw_url: &str, path_to_test: &str) -> (mirror: Option<Mirror>)
        ensures
            match mirror {
                Some(m) => resolved(code_of(country), raw_url@, path_to_test@) == Some(m@),
                None => resolved(code_of(country), raw_url@, path_to_test@) is None,
            },
            mirror matches Some(m) ==> m.country == country && m@.well_formed(),
    {
        match parse_url(raw_url) {
            Some(url) => match join_url(url.as_str(), path_to_test) {
                Some(url_to_test) => Some(Mirror::new(country, url, url_to_test)),
                None => None,
            },
            None => None,
        }
    }
}

} // verus!
