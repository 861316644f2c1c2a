//! Absolute URLs, as the `url` crate parses, joins and compares them.
//!
//! A `Url` is opaque to the verifier. What the rest of the crate knows of one
//! is its serialization, [`url_text`], and every other notion here is a
//! function of that text.

use url::ParseError;
use url::Url;
use vstd::prelude::*;

verus! {

#[verifier::external_type_specification]
#[verifier::external_body]
pub struct ExUrl(Url);

#[verifier::external_type_specification]
#[verifier::external_body]
pub struct ExParseError(ParseError);

/// The serialization of a URL: the string that `Url::as_str` returns and by
/// which two URLs compare.
pub uninterp spec fn url_text(url: Url) -> Seq<char>;

/// What `Url::parse` makes of an input: the serialization of the parsed URL,
/// or `None` where the input is no absolute URL.
pub uninterp spec fn parsed_text(input: Seq<char>) -> Option<Seq<char>>;

/// What `Url::join` makes of a reference against a base URL: the
/// serialization of the resolved URL, or `None` where the reference does not
/// resolve.
pub uninterp spec fn joined_text(base: Seq<char>, reference: Seq<char>) -> Option<Seq<char>>;

/// The `/`-separated segments of a URL's path as `Url::path_segments` yields
/// them, or `None` for a URL that cannot be a base.
pub uninterp spec fn path_segments_of(text: Seq<char>) -> Option<Seq<Seq<char>>>;

/// The last path segment of a URL, the name under which it is saved.
pub open spec fn file_name_of(text: Seq<char>) -> Option<Seq<char>> {
    match path_segments_of(text) {
        Some(segments) => if segments.len() > 0 {
            Some(segments.last())
        } else {
            None
        },
        None => None,
    }
}

/// The serializations of a sequence of URLs.
pub open spec fn texts(urls: Seq<Url>) -> Seq<Seq<char>> {
    urls.map_values(|u: Url| url_text(u))
}

/// `Url::parse`. The outcome is a function of the input alone; which inputs
/// parse is left to the `url` crate.
#[verifier::external_body]
pub(crate) fn parse_url(input: &str) -> (r: Result<Url, ParseError>)
    ensures
        match r {
            Ok(url) => parsed_text(input@) == Some(url_text(url)),
            Err(_) => parsed_text(input@) is None,
        },
{
    Url::parse(input)
}

/// `Url::join`: resolves `reference` against `base`. The outcome is a
/// function of the base's serialization and the reference.
#[verifier::external_body]
pub(crate) fn join_url(base: &Url, reference: &str) -> (r: Result<Url, ParseError>)
    ensures
        match r {
            Ok(url) => joined_text(url_text(*base), reference@) == Some(url_text(url)),
            Err(_) => joined_text(url_text(*base), reference@) is None,
        },
{
    base.join(reference)
}

/// `Url::path_segments`, with the segments copied out. Where the URL has
/// segments at all it has at least one, which may be empty.
#[verifier::external_body]
pub(crate) fn path_segments(url: &Url) -> (r: Option<Vec<String>>)
    ensures
        r.deep_view() == path_segments_of(url_text(*url)),
        r matches Some(segments) ==> segments@.len() >= 1,
{
    url.path_segments().map(|segments| segments.map(|s| s.to_owned()).collect())
}

/// `Url`'s `==`, which compares the two serializations.
#[verifier::external_body]
pub(crate) fn same_url(a: &Url, b: &Url) -> (r: bool)
    ensures
        r == (url_text(*a) == url_text(*b)),
{
    a == b
}

/// `Url::clone`: the copy has the same serialization.
#[verifier::external_body]
pub(crate) fn copy_url(url: &Url) -> (r: Url)
    ensures
        url_text(r) == url_text(*url),
{
    url.clone()
}

/// `Url::as_str`: the serialization.
#[verifier::external_body]
pub(crate) fn url_str(url: &Url) -> (r: &str)
    ensures
        r@ == url_text(*url),
{
    url.as_str()
}

/// The name under which a URL is saved: its last path segment, which is
/// empty where the path ends in `/`. A URL that cannot be a base has none.
pub fn file_name_from_url(url: &Url) -> (r: Option<String>)
    ensures
        r.deep_view() == file_name_of(url_text(*url)),
{
    match path_segments(url) {
        Some(mut segments) => {
            let last = segments.pop();
            proof {
                let all = path_segments_of(url_text(*url)).unwrap();
                assert(last.deep_view() == Some(all.last()));
            }
            last
        },
        None => None,
    }
}

} // verus!
