//! Scan mode: which links a fetched page reports.

use crate::args::ScanArgs;
use crate::executor::{Executor, Pool};
use crate::html::{anchor_hrefs, find_anchor_hrefs};
use crate::utils::{dedup_urls, first_occurrences};
use crate::pattern::{
    compile, compiled, is_match, pattern_matches, pattern_of, pattern_str, pattern_valid,
};
use crate::error::ConfigError;
use crate::web::{copy_url, join_url, joined_text, texts, url_str, url_text};
use regex::Regex;
use url::Url;
use vstd::prelude::*;
use vstd::string::*;

verus! {

/// The content type of a page whose links are extracted.
pub open spec fn html_type() -> Seq<char> {
    seq!['t', 'e', 'x', 't', '/', 'h', 't', 'm', 'l']
}

/// Whether a text passes a list of patterns: an empty list lets everything
/// pass, any other list what at least one of its patterns matches.
pub open spec fn accepts(patterns: Seq<Seq<char>>, text: Seq<char>) -> bool {
    patterns.len() == 0 || exists|i: int|
        0 <= i < patterns.len() && pattern_matches(#[trigger] patterns[i], text)
}

/// What a reference found in a page of URL `base` points to, if it
/// resolves.
pub open spec fn link_target(base: Seq<char>, href: Option<Seq<char>>) -> Option<Seq<char>> {
    match href {
        Some(reference) => joined_text(base, reference),
        None => None,
    }
}

/// The URLs that the anchors of a page point to: one for each `href` that
/// resolves against the page's URL, in document order.
pub open spec fn resolved_links(base: Seq<char>, hrefs: Seq<Option<Seq<char>>>) -> Seq<Seq<char>> {
    hrefs.filter_map(|href: Option<Seq<char>>| link_target(base, href))
}

/// The links that a response reports: those of its anchors that pass the
/// patterns where the content type is exactly `text/html`, none otherwise.
pub open spec fn page_links(
    content_type: Option<Seq<char>>,
    body: Seq<char>,
    base: Seq<char>,
    patterns: Seq<Seq<char>>,
) -> Seq<Seq<char>> {
    if content_type == Some(html_type()) {
        resolved_links(base, anchor_hrefs(body)).filter(|t: Seq<char>| accepts(patterns, t))
    } else {
        Seq::empty()
    }
}

/// The patterns of which a reported URL must match one.
pub struct Filters {
    filter_url: Vec<Regex>,
}

impl View for Filters {
    type V = Seq<Seq<char>>;

    /// The patterns, in the order given.
    closed spec fn view(&self) -> Seq<Seq<char>> {
        self.filter_url@.map_values(|r: Regex| pattern_of(r))
    }
}

impl Filters {
    /// Each expression is what its pattern compiles to.
    #[verifier::type_invariant]
    spec fn inv(&self) -> bool {
        forall|i: int|
            0 <= i < self.filter_url@.len() ==> compiled(pattern_of(#[trigger] self.filter_url@[i]))
                == Some(self.filter_url@[i])
    }

    /// Compiles the patterns. The first one that is no valid regular
    /// expression is reported with its position.
    pub fn new(patterns: &Vec<String>) -> (r: Result<Filters, ConfigError>)
        ensures
            match r {
                Ok(filters) => {
                    &&& filters@ == patterns.deep_view()
                    &&& forall|i: int| 0 <= i < patterns@.len() ==> pattern_valid(patterns@[i]@)
                },
                Err(e) => {
                    &&& e matches ConfigError::InvalidFilter { index }
                    &&& index < patterns@.len()
                    &&& !pattern_valid(patterns@[index as int]@)
                    &&& forall|j: int| 0 <= j < index ==> pattern_valid(patterns@[j]@)
                },
            },
    {
        let mut made: Vec<Regex> = Vec::new();
        let mut i: usize = 0;
        while i < patterns.len()
            invariant
                i <= patterns.len(),
                made@.len() == i,
                forall|j: int| 0 <= j < i ==> pattern_valid(patterns@[j]@),
                forall|j: int| 0 <= j < i ==> pattern_of(#[trigger] made@[j]) == patterns@[j]@,
                forall|j: int| 0 <= j < i ==> compiled(patterns@[j]@) == Some(#[trigger] made@[j]),
            decreases patterns.len() - i,
        {
            match compile(patterns[i].as_str()) {
                Ok(regex) => {
                    made.push(regex);
                },
                Err(_) => {
                    return Err(ConfigError::InvalidFilter { index: i });
                },
            }
            i += 1;
        }
        let filters = Filters { filter_url: made };
        assert(filters@ =~= patterns.deep_view());
        Ok(filters)
    }

    /// Whether a URL is reported: its serialization passes the patterns.
    pub fn is_match(&self, url: &Url) -> (r: bool)
        ensures
            r == accepts(self@, url_text(*url)),
    {
        proof {
            use_type_invariant(self);
        }
        if self.filter_url.len() == 0 {
            return true;
        }
        let text = url_str(url);
        let mut i: usize = 0;
        while i < self.filter_url.len()
            invariant
                i <= self.filter_url.len(),
                text@ == url_text(*url),
                forall|j: int| 0 <= j < i ==> !pattern_matches(self@[j], text@),
                forall|j: int|
                    0 <= j < self.filter_url@.len() ==> compiled(
                        pattern_of(#[trigger] self.filter_url@[j]),
                    ) == Some(self.filter_url@[j]),
            decreases self.filter_url.len() - i,
        {
            if is_match(&self.filter_url[i], text) {
                assert(pattern_matches(self@[i as int], text@));
                return true;
            }
            i += 1;
        }
        false
    }

    /// The patterns as they were written, in the order given.
    pub fn patterns(&self) -> (r: Vec<String>)
        ensures
            r.deep_view() == self@,
    {
        let mut r: Vec<String> = Vec::new();
        let mut i: usize = 0;
        while i < self.filter_url.len()
            invariant
                i <= self.filter_url.len(),
                r@.len() == i,
                forall|j: int| 0 <= j < i ==> (#[trigger] r@[j])@ == self@[j],
            decreases self.filter_url.len() - i,
        {
            r.push(String::from_str(pattern_str(&self.filter_url[i])));
            i += 1;
        }
        assert(r.deep_view() =~= self@);
        r
    }

    /// How many patterns there are.
    pub fn len(&self) -> (n: usize)
        ensures
            n == self@.len(),
    {
        self.filter_url.len()
    }
}

/// One page to fetch.
pub struct Job {
    /// The job's number in this run, counted from zero.
    pub id: usize,
    pub url: Url,
}

/// A planned scan run.
pub struct Plan {
    pub jobs: Vec<Job>,
    pub executor: Executor,
}

/// Whether `jobs` are the jobs for the URLs `from`: one for each, in order
/// and numbered from zero.
pub open spec fn jobs_for(jobs: Seq<Job>, from: Seq<Seq<char>>) -> bool {
    &&& jobs.len() == from.len()
    &&& forall|k: int|
        0 <= k < jobs.len() ==> (#[trigger] jobs[k]).id == k && url_text(jobs[k].url) == from[k]
}

/// Plans a scan run: one job for each distinct URL, in input order, and an
/// executor that runs at most `args.parallel` of them at once. A limit of
/// zero is refused.
pub fn scan(args: &ScanArgs, urls: Vec<Url>) -> (r: Result<Plan, ConfigError>)
    ensures
        match r {
            Ok(plan) => {
                &&& args.parallel >= 1
                &&& jobs_for(plan.jobs@, first_occurrences(texts(urls@)))
                &&& plan.executor@ == Pool::fresh(args.parallel as nat, plan.jobs@.len())
            },
            Err(e) => args.parallel == 0 && e == ConfigError::ZeroParallel,
        },
{
    if args.parallel == 0 {
        return Err(ConfigError::ZeroParallel);
    }
    let distinct = dedup_urls(urls);
    let ghost from = texts(distinct@);
    let mut jobs: Vec<Job> = Vec::new();
    let mut i: usize = 0;
    while i < distinct.len()
        invariant
            i <= distinct.len(),
            from == texts(distinct@),
            jobs_for(jobs@, from.take(i as int)),
        decreases distinct.len() - i,
    {
        let ghost before = jobs@;
        jobs.push(Job { id: i, url: copy_url(&distinct[i]) });
        proof {
            assert forall|k: int| 0 <= k < jobs@.len() implies (#[trigger] jobs@[k]).id == k
                && url_text(jobs@[k].url) == from.take(i + 1)[k] by {
                if k < before.len() {
                    assert(jobs@[k] == before[k]);
                    assert(from.take(i as int)[k] == from[k]);
                }
            }
        }
        i += 1;
    }
    proof {
        assert(from.take(i as int) =~= from);
    }
    match Executor::new(args.parallel, jobs.len()) {
        Ok(executor) => Ok(Plan { jobs, executor }),
        Err(e) => Err(e),
    }
}

/// Whether a response's links are extracted: its content type is exactly
/// `text/html`. A response without content type is not scanned.
pub fn is_html(content_type: Option<&str>) -> (r: bool)
    ensures
        r == (content_type matches Some(c) && c@ == html_type()),
{
    match content_type {
        Some(c) => {
            proof {
                reveal_strlit("text/html");
                assert("text/html"@ =~= html_type());
            }
            same_text(c, "text/html")
        },
        None => false,
    }
}

/// `str`'s `==`: whether two strings hold the same characters.
#[verifier::external_body]
fn same_text(a: &str, b: &str) -> (r: bool)
    ensures
        r == (a@ == b@),
{
    a == b
}

/// Resolves the references found in a page against the page's URL. One that
/// does not resolve is dropped, as is an anchor without reference.
pub fn resolve_links(hrefs: &Vec<Option<String>>, base_url: &Url) -> (urls: Vec<Url>)
    ensures
        texts(urls@) == resolved_links(url_text(*base_url), hrefs.deep_view()),
{
    let mut urls: Vec<Url> = Vec::new();
    let ghost base = url_text(*base_url);
    let ghost all = hrefs.deep_view();
    let ghost target = |href: Option<Seq<char>>| link_target(base, href);
    let mut i: usize = 0;
    proof {
        assert(all.take(0) =~= Seq::<Option<Seq<char>>>::empty());
        assert(texts(urls@) =~= Seq::<Seq<char>>::empty());
    }
    while i < hrefs.len()
        invariant
            i <= hrefs.len(),
            base == url_text(*base_url),
            all == hrefs.deep_view(),
            target == |href: Option<Seq<char>>| link_target(base, href),
            texts(urls@) == all.take(i as int).filter_map(target),
        decreases hrefs.len() - i,
    {
        let ghost found = texts(urls@);
        proof {
            assert(all.take(i + 1).drop_last() =~= all.take(i as int));
            assert(all.take(i + 1).last() == all[i as int]);
            assert(all[i as int] == hrefs@[i as int].deep_view());
        }
        match &hrefs[i] {
            Some(href) => {
                match join_url(base_url, href.as_str()) {
                    Ok(url) => {
                        urls.push(url);
                        assert(texts(urls@) =~= found + seq![url_text(url)]);
                    },
                    Err(_) => {},
                }
            },
            None => {},
        }
        i += 1;
    }
    proof {
        assert(all.take(i as int) =~= all);
    }
    urls
}

/// The URLs that the anchors of an HTML document point to, resolved against
/// the document's own URL.
pub fn scan_html(html: &str, base_url: &Url) -> (urls: Vec<Url>)
    ensures
        texts(urls@) == resolved_links(url_text(*base_url), anchor_hrefs(html@)),
{
    let hrefs = find_anchor_hrefs(html);
    resolve_links(&hrefs, base_url)
}

/// Keeps the URLs that pass the filters, in their order.
pub fn keep_matching(urls: Vec<Url>, filters: &Filters) -> (kept: Vec<Url>)
    ensures
        texts(kept@) == texts(urls@).filter(|t: Seq<char>| accepts(filters@, t)),
{
    let mut kept: Vec<Url> = Vec::new();
    let ghost all = texts(urls@);
    let ghost pass = |t: Seq<char>| accepts(filters@, t);
    let mut i: usize = 0;
    proof {
        assert(all.take(0) =~= Seq::<Seq<char>>::empty());
        assert(texts(kept@) =~= Seq::<Seq<char>>::empty());
    }
    while i < urls.len()
        invariant
            i <= urls.len(),
            all == texts(urls@),
            pass == |t: Seq<char>| accepts(filters@, t),
            texts(kept@) == all.take(i as int).filter(pass),
        decreases urls.len() - i,
    {
        let ghost found = texts(kept@);
        proof {
            assert(all.take(i + 1).drop_last() =~= all.take(i as int));
            assert(all.take(i + 1).last() == all[i as int]);
            assert(all[i as int] == url_text(urls@[i as int]));
            reveal_with_fuel(Seq::filter, 2);
        }
        if filters.is_match(&urls[i]) {
            kept.push(copy_url(&urls[i]));
            assert(texts(kept@) =~= found.push(all[i as int]));
        }
        i += 1;
    }
    proof {
        assert(all.take(i as int) =~= all);
    }
    kept
}

/// The links that a fetched page reports. Only a response whose content
/// type is exactly `text/html` is read; of its anchors' targets those that
/// pass the filters are reported. Any other response reports nothing,
/// whatever its body holds.
pub fn scan_page(content_type: Option<&str>, body: &str, url: &Url, filters: &Filters) -> (found:
    Vec<Url>)
    ensures
        texts(found@) == page_links(
            match content_type {
                Some(c) => Some(c@),
                None => None,
            },
            body@,
            url_text(*url),
            filters@,
        ),
{
    if is_html(content_type) {
        keep_matching(scan_html(body, url), filters)
    } else {
        let found: Vec<Url> = Vec::new();
        assert(texts(found@) =~= Seq::<Seq<char>>::empty());
        found
    }
}

/// A response that is not `text/html` reports no link, whatever its body and
/// whatever the filters.
pub proof fn lemma_only_html_is_scanned(
    content_type: Option<Seq<char>>,
    body: Seq<char>,
    base: Seq<char>,
    patterns: Seq<Seq<char>>,
)
    requires
        content_type != Some(html_type()),
    ensures
        page_links(content_type, body, base, patterns).len() == 0,
{
}

/// Every reported link passes the filters, and every target that passes is
/// reported.
pub proof fn lemma_reported_links_pass(
    body: Seq<char>,
    base: Seq<char>,
    patterns: Seq<Seq<char>>,
    text: Seq<char>,
)
    ensures
        page_links(Some(html_type()), body, base, patterns).contains(text) <==> (resolved_links(
            base,
            anchor_hrefs(body),
        ).contains(text) && accepts(patterns, text)),
{
    let all = resolved_links(base, anchor_hrefs(body));
    let pass = |t: Seq<char>| accepts(patterns, t);
    if all.filter(pass).contains(text) {
        let i = choose|i: int| 0 <= i < all.filter(pass).len() && all.filter(pass)[i] == text;
        all.lemma_filter_pred(pass, i);
        all.lemma_filter_contains_rev(pass, text);
    }
    if all.contains(text) && accepts(patterns, text) {
        let i = choose|i: int| 0 <= i < all.len() && all[i] == text;
        all.lemma_filter_contains(pass, i);
    }
}

/// Without filters every target is reported.
pub proof fn lemma_no_filter_passes_all(links: Seq<Seq<char>>)
    ensures
        links.filter(|t: Seq<char>| accepts(Seq::empty(), t)) == links,
    decreases links.len(),
{
    reveal_with_fuel(Seq::filter, 2);
    if links.len() > 0 {
        lemma_no_filter_passes_all(links.drop_last());
        assert(links.drop_last().push(links.last()) =~= links);
    } else {
        assert(links =~= Seq::<Seq<char>>::empty());
    }
}

} // verus!
