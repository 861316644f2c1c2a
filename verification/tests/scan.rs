use fire_dl::args::{ScanArgs, Urls};
use fire_dl::error::ConfigError;
use fire_dl::scan::{is_html, keep_matching, resolve_links, scan, scan_html, scan_page, Filters};
use fire_dl::sink::Sink;
use url::Url;

fn url(s: &str) -> Url {
    Url::parse(s).unwrap()
}

fn filters(patterns: &[&str]) -> Filters {
    Filters::new(&patterns.iter().map(|p| (*p).to_owned()).collect()).ok().unwrap()
}

fn strings(urls: &[Url]) -> Vec<&str> {
    urls.iter().map(|u| u.as_str()).collect()
}

const PAGE: &str = r#"<html><body>
<a href="/a">one</a>
<p><a href="b">two</a></p>
<a href="https://x.test/c">three</a>
</body></html>"#;

#[test]
fn anchors_resolve_against_the_page() {
    let found = scan_html(PAGE, &url("https://site.test/p/"));
    assert_eq!(
        strings(&found),
        vec!["https://site.test/a", "https://site.test/p/b", "https://x.test/c"]
    );
}

#[test]
fn anchors_without_href_and_other_elements_give_nothing() {
    let html = r#"<a name="top">top</a><link href="/style.css"><a HREF="/x">x</a><img src="/i.png">"#;
    assert_eq!(strings(&scan_html(html, &url("https://site.test/"))), vec!["https://site.test/x"]);
    assert!(scan_html("", &url("https://site.test/")).is_empty());
    assert!(scan_html("no markup at all", &url("https://site.test/")).is_empty());
}

#[test]
fn href_that_does_not_resolve_is_dropped() {
    let hrefs = vec![
        Some("/a".to_owned()),
        None,
        Some("https://[bad".to_owned()),
        Some("b".to_owned()),
    ];
    assert_eq!(
        strings(&resolve_links(&hrefs, &url("https://site.test/p/q"))),
        vec!["https://site.test/a", "https://site.test/p/b"]
    );
    let relative = vec![Some("b".to_owned()), Some("https://x.test/c".to_owned())];
    assert_eq!(
        strings(&resolve_links(&relative, &url("mailto:someone@example.com"))),
        vec!["https://x.test/c"]
    );
}

#[test]
fn repeated_anchors_are_all_reported() {
    let html = r#"<a href="/a">1</a><a href="/a">2</a>"#;
    assert_eq!(
        strings(&scan_html(html, &url("https://site.test/"))),
        vec!["https://site.test/a", "https://site.test/a"]
    );
}

#[test]
fn filter_lets_pdf_pass() {
    let f = filters(&[r"\.pdf$"]);
    assert!(f.is_match(&url("https://site.test/a.pdf")));
    assert!(!f.is_match(&url("https://site.test/b.html")));
    let kept = keep_matching(vec![url("https://site.test/a.pdf"), url("https://site.test/b.html")], &f);
    assert_eq!(strings(&kept), vec!["https://site.test/a.pdf"]);
}

#[test]
fn any_of_several_filters_suffices() {
    let f = filters(&[r"\.pdf$", r"^https://x\.test/"]);
    assert_eq!(f.len(), 2);
    assert!(f.is_match(&url("https://site.test/a.pdf")));
    assert!(f.is_match(&url("https://x.test/b.html")));
    assert!(!f.is_match(&url("https://site.test/b.html")));
}

#[test]
fn no_filter_lets_everything_pass() {
    let f = filters(&[]);
    assert_eq!(f.len(), 0);
    assert!(f.is_match(&url("https://site.test/a.pdf")));
    assert!(f.is_match(&url("mailto:someone@example.com")));
    let all = vec![url("https://site.test/a.pdf"), url("https://site.test/b.html")];
    assert_eq!(strings(&keep_matching(all, &f)), vec!["https://site.test/a.pdf", "https://site.test/b.html"]);
}

#[test]
fn filter_sees_the_whole_serialization() {
    let f = filters(&[r"^https://site\.test/p\?q=1#f$"]);
    assert!(f.is_match(&url("https://site.test/p?q=1#f")));
    assert!(!f.is_match(&url("https://site.test/p?q=1")));
    let host = filters(&[r"^https://example\.com/$"]);
    assert!(host.is_match(&url("https://EXAMPLE.com")));
}

#[test]
fn invalid_filter_is_reported_with_its_position() {
    let r = Filters::new(&vec![r"\.pdf$".to_owned(), "foo(bar".to_owned(), "[".to_owned()]);
    assert_eq!(r.err(), Some(ConfigError::InvalidFilter { index: 1 }));
    let r = Filters::new(&vec!["(".to_owned()]);
    assert_eq!(r.err(), Some(ConfigError::InvalidFilter { index: 0 }));
}

#[test]
fn only_text_html_is_scanned() {
    assert!(is_html(Some("text/html")));
    assert!(!is_html(None));
    assert!(!is_html(Some("application/json")));
    assert!(!is_html(Some("text/html; charset=utf-8")));
    assert!(!is_html(Some("TEXT/HTML")));
    assert!(!is_html(Some("")));
}

#[test]
fn json_response_reports_nothing() {
    let f = filters(&[]);
    let base = url("https://site.test/p/");
    assert!(scan_page(Some("application/json"), PAGE, &base, &f).is_empty());
    assert!(scan_page(None, PAGE, &base, &f).is_empty());
    assert!(scan_page(Some("text/html; charset=utf-8"), PAGE, &base, &f).is_empty());
    assert_eq!(scan_page(Some("text/html"), PAGE, &base, &f).len(), 3);
}

#[test]
fn page_reports_filtered_links() {
    let html = r#"<a href="a.pdf">a</a><a href="b.html">b</a><a href="/c.pdf">c</a>"#;
    let found = scan_page(Some("text/html"), html, &url("https://site.test/p/"), &filters(&[r"\.pdf$"]));
    assert_eq!(strings(&found), vec!["https://site.test/p/a.pdf", "https://site.test/c.pdf"]);
}

fn scan_args(parallel: usize) -> ScanArgs {
    ScanArgs {
        output: None,
        filters: filters(&[]),
        parallel,
        urls: Urls { list: Vec::new(), url: Vec::new() },
    }
}

#[test]
fn scan_plans_one_job_per_distinct_url() {
    let plan = scan(
        &scan_args(3),
        vec![url("https://a.test/"), url("https://b.test/"), url("https://a.test/")],
    )
    .ok()
    .unwrap();
    assert_eq!(plan.jobs.len(), 2);
    assert_eq!(plan.jobs[0].id, 0);
    assert_eq!(plan.jobs[0].url.as_str(), "https://a.test/");
    assert_eq!(plan.jobs[1].id, 1);
    assert_eq!(plan.jobs[1].url.as_str(), "https://b.test/");
    assert_eq!(plan.executor.limit(), 3);
    assert_eq!(plan.executor.total(), 2);
}

#[test]
fn scan_refuses_zero_parallel() {
    let r = scan(&scan_args(0), vec![url("https://a.test/")]);
    assert_eq!(r.err(), Some(ConfigError::ZeroParallel));
}

#[test]
fn sink_hands_out_only_after_close() {
    let mut sink = Sink::new();
    assert!(sink.push(url("https://a.test/")));
    assert!(sink.drain().is_none());
    assert!(sink.push(url("https://b.test/")));
    assert!(sink.push(url("https://a.test/")));
    assert!(sink.drain().is_none());
    sink.close();
    let out = sink.drain().unwrap();
    assert_eq!(strings(&out), vec!["https://a.test/", "https://b.test/", "https://a.test/"]);
    assert!(sink.drain().unwrap().is_empty());
}

#[test]
fn closed_sink_takes_nothing() {
    let mut sink = Sink::new();
    sink.close();
    assert!(!sink.push(url("https://a.test/")));
    assert!(sink.drain().unwrap().is_empty());
}

#[test]
fn filters_remember_their_patterns() {
    let f = filters(&[r"\.pdf$", "^https://", "a|b"]);
    assert_eq!(f.patterns(), vec![r"\.pdf$".to_owned(), "^https://".to_owned(), "a|b".to_owned()]);
    assert!(filters(&[]).patterns().is_empty());
}
