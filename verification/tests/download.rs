use fire_dl::args::{DownloadArgs, Urls};
use fire_dl::download::{destinations, download, jobs, temp_file_name, Candidate, Probed};
use fire_dl::error::ConfigError;
use fire_dl::naming::NameCounter;
use fire_dl::web::file_name_from_url;
use url::Url;

fn url(s: &str) -> Url {
    Url::parse(s).unwrap()
}

fn names(urls: &[&str]) -> Vec<String> {
    let d = destinations(urls.iter().map(|s| url(s)).collect());
    d.candidates.into_iter().map(|c| c.file_name).collect()
}

fn probed(entries: &[(&str, &str, bool)]) -> Vec<Probed> {
    entries
        .iter()
        .map(|(u, n, exists)| Probed {
            candidate: Candidate { url: url(u), file_name: (*n).to_owned() },
            exists: *exists,
        })
        .collect()
}

fn args(parallel: usize, redownload_existing: bool) -> DownloadArgs {
    DownloadArgs {
        output: None,
        redownload_existing,
        parallel,
        urls: Urls { list: Vec::new(), url: Vec::new() },
    }
}

#[test]
fn file_name_is_last_path_segment() {
    assert_eq!(file_name_from_url(&url("https://example.com/a/b/c.png")), Some("c.png".to_owned()));
    assert_eq!(file_name_from_url(&url("https://example.com/c.png?x=1#top")), Some("c.png".to_owned()));
    assert_eq!(file_name_from_url(&url("https://example.com/a%20b")), Some("a%20b".to_owned()));
}

#[test]
fn file_name_is_empty_where_path_ends_in_slash() {
    assert_eq!(file_name_from_url(&url("https://example.com/a/")), Some(String::new()));
    assert_eq!(file_name_from_url(&url("https://example.com")), Some(String::new()));
}

#[test]
fn url_that_cannot_be_a_base_has_no_file_name() {
    assert_eq!(file_name_from_url(&url("mailto:someone@example.com")), None);
    assert_eq!(file_name_from_url(&url("data:text/plain,HelloWorld")), None);
}

#[test]
fn three_jobs_named_index_html() {
    assert_eq!(
        names(&["https://a.test/index.html", "https://b.test/index.html", "https://c.test/index.html"]),
        vec!["index.html".to_owned(), "index.html.2".to_owned(), "index.html.3".to_owned()]
    );
}

#[test]
fn suffix_counts_per_base_name() {
    assert_eq!(
        names(&[
            "https://a.test/x",
            "https://a.test/y",
            "https://b.test/x",
            "https://b.test/y",
            "https://c.test/z",
            "https://c.test/x",
        ]),
        vec!["x", "y", "x.2", "y.2", "z", "x.3"]
    );
}

#[test]
fn suffix_is_written_in_decimal() {
    let mut counter = NameCounter::new();
    let mut last = String::new();
    for _ in 0..1203 {
        last = counter.assign("f".to_owned()).unwrap();
    }
    assert_eq!(last, "f.1203");
    assert_eq!(counter.assign("f".to_owned()), Some("f.1204".to_owned()));
    assert_eq!(counter.assign("g".to_owned()), Some("g".to_owned()));
    assert_eq!(counter.assign("g".to_owned()), Some("g.2".to_owned()));
    let mut ten = NameCounter::new();
    let given: Vec<String> = (0..11).map(|_| ten.assign("a".to_owned()).unwrap()).collect();
    assert_eq!(given[0], "a");
    assert_eq!(given[8], "a.9");
    assert_eq!(given[9], "a.10");
    assert_eq!(given[10], "a.11");
}

#[test]
fn empty_base_name_is_numbered_too() {
    let mut counter = NameCounter::new();
    assert_eq!(counter.assign(String::new()), Some(String::new()));
    assert_eq!(counter.assign(String::new()), Some(".2".to_owned()));
}

#[test]
fn repeated_url_takes_no_name() {
    let d = destinations(vec![
        url("https://a.test/index.html"),
        url("https://a.test/index.html"),
        url("https://b.test/index.html"),
    ]);
    assert_eq!(d.candidates.len(), 2);
    assert_eq!(d.candidates[0].url.as_str(), "https://a.test/index.html");
    assert_eq!(d.candidates[0].file_name, "index.html");
    assert_eq!(d.candidates[1].url.as_str(), "https://b.test/index.html");
    assert_eq!(d.candidates[1].file_name, "index.html.2");
    assert!(d.rejected.is_empty());
}

#[test]
fn url_without_file_name_is_rejected() {
    let d = destinations(vec![
        url("https://a.test/x"),
        url("mailto:someone@example.com"),
        url("https://b.test/x"),
        url("mailto:someone@example.com"),
    ]);
    let given: Vec<&str> = d.candidates.iter().map(|c| c.file_name.as_str()).collect();
    assert_eq!(given, vec!["x", "x.2"]);
    let rejected: Vec<&str> = d.rejected.iter().map(|u| u.as_str()).collect();
    assert_eq!(rejected, vec!["mailto:someone@example.com"]);
}

#[test]
fn existing_files_are_skipped_by_default() {
    let made = jobs(
        &probed(&[
            ("https://a.test/x", "x", true),
            ("https://a.test/y", "y", false),
            ("https://b.test/x", "x.2", true),
            ("https://b.test/z", "z", false),
        ]),
        false,
    );
    assert_eq!(made.len(), 2);
    assert_eq!(made[0].id, 0);
    assert_eq!(made[0].url.as_str(), "https://a.test/y");
    assert_eq!(made[0].file_name, "y");
    assert!(!made[0].unlink_existing);
    assert_eq!(made[1].id, 1);
    assert_eq!(made[1].url.as_str(), "https://b.test/z");
    assert_eq!(made[1].file_name, "z");
    assert!(!made[1].unlink_existing);
}

#[test]
fn second_run_has_nothing_to_fetch() {
    let urls = ["https://a.test/x", "https://b.test/x", "https://a.test/y"];
    let first = destinations(urls.iter().map(|s| url(s)).collect());
    let first_jobs = jobs(
        &first.candidates.into_iter().map(|candidate| Probed { candidate, exists: false }).collect(),
        false,
    );
    assert_eq!(first_jobs.len(), 3);
    let second = destinations(urls.iter().map(|s| url(s)).collect());
    let second_names: Vec<String> = second.candidates.iter().map(|c| c.file_name.clone()).collect();
    let first_names: Vec<String> = first_jobs.iter().map(|j| j.file_name.clone()).collect();
    assert_eq!(second_names, first_names);
    let second_jobs = jobs(
        &second.candidates.into_iter().map(|candidate| Probed { candidate, exists: true }).collect(),
        false,
    );
    assert!(second_jobs.is_empty());
}

#[test]
fn redownload_fetches_existing_files_and_unlinks_them() {
    let made = jobs(
        &probed(&[("https://a.test/x", "x", true), ("https://a.test/y", "y", false)]),
        true,
    );
    assert_eq!(made.len(), 2);
    assert_eq!(made[0].id, 0);
    assert_eq!(made[0].file_name, "x");
    assert!(made[0].unlink_existing);
    assert_eq!(made[1].id, 1);
    assert_eq!(made[1].file_name, "y");
    assert!(!made[1].unlink_existing);
}

#[test]
fn download_plans_jobs_and_executor() {
    let plan = download(
        &args(2, false),
        &probed(&[
            ("https://a.test/x", "x", false),
            ("https://a.test/y", "y", true),
            ("https://a.test/z", "z", false),
        ]),
    )
    .ok()
    .unwrap();
    assert_eq!(plan.jobs.len(), 2);
    assert_eq!(plan.jobs[1].file_name, "z");
    assert_eq!(plan.executor.limit(), 2);
    assert_eq!(plan.executor.total(), 2);
    assert_eq!(plan.executor.running(), 0);
}

#[test]
fn download_refuses_zero_parallel() {
    let r = download(&args(0, false), &probed(&[("https://a.test/x", "x", false)]));
    assert_eq!(r.err(), Some(ConfigError::ZeroParallel));
}

#[test]
fn temp_file_is_hidden_and_marked() {
    assert_eq!(temp_file_name("index.html"), ".index.html.part");
    assert_eq!(temp_file_name("x.2"), ".x.2.part");
    assert_eq!(temp_file_name(""), "..part");
}
