use fire_dl::args::{GlobalArgs, Urls};
use fire_dl::error::ListError;
use fire_dl::list::{is_whitespace, parse_list, split_lines, trim};
use fire_dl::DEFAULT_USER_AGENT;
use url::Url;

fn url(s: &str) -> Url {
    Url::parse(s).unwrap()
}

fn strings(urls: &[Url]) -> Vec<&str> {
    urls.iter().map(|u| u.as_str()).collect()
}

fn chars(s: &str) -> Vec<char> {
    s.chars().collect()
}

fn text(v: &[char]) -> String {
    v.iter().collect()
}

#[test]
fn whitespace_is_what_std_calls_whitespace() {
    for n in 0..=0x10FFFFu32 {
        if let Some(c) = char::from_u32(n) {
            assert_eq!(is_whitespace(c), c.is_whitespace(), "U+{:04X}", n);
        }
    }
}

#[test]
fn trim_agrees_with_std() {
    for s in ["", " ", "a", "  a b  ", "\t\r\n x \u{3000}", "\u{a0}\u{2003}", "x\u{200b}", " # c "] {
        assert_eq!(text(&trim(&chars(s))), s.trim());
    }
}

#[test]
fn lines_are_split_at_newlines() {
    let split = |s: &str| -> Vec<String> { split_lines(&chars(s)).iter().map(|l| text(l)).collect() };
    assert_eq!(split(""), vec![""]);
    assert_eq!(split("a"), vec!["a"]);
    assert_eq!(split("a\n"), vec!["a", ""]);
    assert_eq!(split("a\nb"), vec!["a", "b"]);
    assert_eq!(split("\n\na\r\nb\n"), vec!["", "", "a\r", "b", ""]);
}

#[test]
fn list_skips_comments_and_empty_lines() {
    let content = "# a list\nhttps://a.test/x\n\n   \n  https://b.test/y  \r\n\t# indented comment\nhttps://c.test/z";
    let urls = parse_list(content).unwrap();
    assert_eq!(strings(&urls), vec!["https://a.test/x", "https://b.test/y", "https://c.test/z"]);
}

#[test]
fn list_keeps_repeats_and_order() {
    let urls = parse_list("https://b.test/\nhttps://a.test/\nhttps://b.test/\n").unwrap();
    assert_eq!(strings(&urls), vec!["https://b.test/", "https://a.test/", "https://b.test/"]);
}

#[test]
fn empty_list_has_no_urls() {
    assert!(parse_list("").unwrap().is_empty());
    assert!(parse_list("\n\n# nothing\n").unwrap().is_empty());
}

#[test]
fn malformed_line_is_reported_with_its_position() {
    assert_eq!(parse_list("https://a.test/\nnot a url\nalso bad\n").err(), Some(1));
    assert_eq!(parse_list("relative/path").err(), Some(0));
    assert_eq!(parse_list("#c\n\nhttps://a.test/ https://b.test/\n").ok().map(|u| u.len()), Some(1));
    assert_eq!(parse_list("x #not-a-comment").err(), Some(0));
}

#[test]
fn collect_puts_direct_urls_before_lists() {
    let urls = Urls {
        list: vec!["one.txt".to_owned(), "two.txt".to_owned()],
        url: vec![url("https://direct.test/1"), url("https://direct.test/2")],
    };
    let contents = vec![
        "https://one.test/a\n# c\nhttps://one.test/b\n".to_owned(),
        "\nhttps://two.test/a".to_owned(),
    ];
    let all = urls.collect(&contents).ok().unwrap();
    assert_eq!(
        strings(&all),
        vec![
            "https://direct.test/1",
            "https://direct.test/2",
            "https://one.test/a",
            "https://one.test/b",
            "https://two.test/a",
        ]
    );
}

#[test]
fn collect_without_lists_gives_the_direct_urls() {
    let urls = Urls { list: Vec::new(), url: vec![url("https://direct.test/1")] };
    assert_eq!(strings(&urls.collect(&Vec::new()).ok().unwrap()), vec!["https://direct.test/1"]);
}

#[test]
fn collect_stops_at_the_first_malformed_line() {
    let urls = Urls { list: Vec::new(), url: vec![url("https://direct.test/1")] };
    let contents = vec![
        "https://one.test/a\n".to_owned(),
        "https://two.test/a\n\n::\nnope\n".to_owned(),
        "bad".to_owned(),
    ];
    assert_eq!(urls.collect(&contents).err(), Some(ListError::MalformedUrl { list: 1, line: 2 }));
}

#[test]
fn default_user_agent_names_the_tool() {
    assert_eq!(DEFAULT_USER_AGENT, "fire-dl");
    assert_eq!(GlobalArgs::default().user_agent, "fire-dl");
}
