//! Anchors of an HTML document, as the `soup` crate finds them.

use soup::NodeExt;
use soup::QueryBuilderExt;
use soup::Soup;
use vstd::prelude::*;

verus! {

/// For each `a` element of a document, in document order, the value of its
/// `href` attribute, or `None` where it has none: what `Soup::new`, a query
/// for the tag `a` and `NodeExt::get` give.
pub uninterp spec fn anchor_hrefs(html: Seq<char>) -> Seq<Option<Seq<char>>>;

/// Parses `html` with `Soup::new`, finds every `a` element with
/// `tag("a").find_all()` and reads each one's `href` with `get`. The result
/// depends on the document alone.
#[verifier::external_body]
pub(crate) fn find_anchor_hrefs(html: &str) -> (r: Vec<Option<String>>)
    ensures
        r.deep_view() == anchor_hrefs(html@),
{
    Soup::new(html).tag("a").find_all().map(|a| a.get("href")).collect()
}

} // verus!
