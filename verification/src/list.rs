//! URL lists: text with one URL per line.
//!
//! Lines are separated by `\n`. White space around a line does not count.
//! A line that is then empty, or that starts with `#`, is skipped; every
//! other line must be an absolute URL.

use crate::web::{parse_url, parsed_text, texts, url_text};
use url::Url;
use vstd::prelude::*;

verus! {

/// White space as Unicode defines it, which is what `str::trim` removes.
pub open spec fn is_space(c: char) -> bool {
    let n = c as u32;
    ||| 0x09 <= n <= 0x0D
    ||| n == 0x20
    ||| n == 0x85
    ||| n == 0xA0
    ||| n == 0x1680
    ||| 0x2000 <= n <= 0x200A
    ||| n == 0x2028
    ||| n == 0x2029
    ||| n == 0x202F
    ||| n == 0x205F
    ||| n == 0x3000
}

/// A text without the white space at its start.
pub open spec fn trim_start(s: Seq<char>) -> Seq<char>
    decreases s.len(),
{
    if s.len() > 0 && is_space(s.first()) {
        trim_start(s.drop_first())
    } else {
        s
    }
}

/// A text without the white space at its end.
pub open spec fn trim_end(s: Seq<char>) -> Seq<char>
    decreases s.len(),
{
    if s.len() > 0 && is_space(s.last()) {
        trim_end(s.drop_last())
    } else {
        s
    }
}

/// A text without the white space at either end.
pub open spec fn trimmed(s: Seq<char>) -> Seq<char> {
    trim_end(trim_start(s))
}

/// The lines of a text: the pieces between its `\n` characters. A text
/// without `\n` is one line, and a text that ends in `\n` ends with an
/// empty line.
pub open spec fn lines(s: Seq<char>) -> Seq<Seq<char>>
    decreases s.len(),
{
    if s.len() == 0 {
        seq![Seq::empty()]
    } else if s.last() == '\n' {
        lines(s.drop_last()).push(Seq::empty())
    } else {
        let before = lines(s.drop_last());
        before.drop_last().push(before.last().push(s.last()))
    }
}

/// What a line asks to be read as a URL: the line without surrounding
/// white space, or `None` for an empty line and for a comment.
pub open spec fn entry(line: Seq<char>) -> Option<Seq<char>> {
    let t = trimmed(line);
    if t.len() == 0 || t.first() == '#' {
        None
    } else {
        Some(t)
    }
}

/// Whether a line holds something that is no absolute URL.
pub open spec fn malformed(line: Seq<char>) -> bool {
    entry(line) matches Some(e) && parsed_text(e) is None
}

/// The URL that a line gives, if it gives one.
pub open spec fn line_url(line: Seq<char>) -> Option<Seq<char>> {
    match entry(line) {
        Some(e) => parsed_text(e),
        None => None,
    }
}

/// The URLs of a list, in the order of their lines.
pub open spec fn list_urls(content: Seq<char>) -> Seq<Seq<char>> {
    lines(content).filter_map(|line: Seq<char>| line_url(line))
}

/// The position of the first malformed line of a list, if there is one.
pub open spec fn first_malformed(content: Seq<char>) -> Option<int> {
    let all = lines(content);
    if exists|i: int| 0 <= i < all.len() && malformed(#[trigger] all[i]) {
        Some(
            choose|i: int|
                0 <= i < all.len() && malformed(#[trigger] all[i]) && forall|j: int|
                    0 <= j < i ==> !malformed(#[trigger] all[j]),
        )
    } else {
        None
    }
}

/// The characters held by each of a sequence of vectors.
pub open spec fn rows(v: Seq<Vec<char>>) -> Seq<Seq<char>> {
    v.map_values(|r: Vec<char>| r@)
}

/// `str::chars`, collected: the characters of a string.
#[verifier::external_body]
fn chars_of(s: &str) -> (r: Vec<char>)
    ensures
        r@ == s@,
{
    s.chars().collect()
}

/// `String::from_iter` over characters: the string that holds them.
#[verifier::external_body]
fn string_of(chars: &Vec<char>) -> (r: String)
    ensures
        r@ == chars@,
{
    chars.iter().collect()
}

/// Whether a character is white space.
pub fn is_whitespace(c: char) -> (r: bool)
    ensures
        r == is_space(c),
{
    let n = c as u32;
    (0x09 <= n && n <= 0x0D) || n == 0x20 || n == 0x85 || n == 0xA0 || n == 0x1680 || (0x2000 <= n
        && n <= 0x200A) || n == 0x2028 || n == 0x2029 || n == 0x202F || n == 0x205F || n == 0x3000
}

/// Splits a text into its lines.
pub fn split_lines(text: &Vec<char>) -> (r: Vec<Vec<char>>)
    ensures
        rows(r@) == lines(text@),
{
    let mut done: Vec<Vec<char>> = Vec::new();
    let mut current: Vec<char> = Vec::new();
    let mut i: usize = 0;
    proof {
        assert(text@.take(0) =~= Seq::<char>::empty());
        assert(rows(done@).push(current@) =~= seq![Seq::<char>::empty()]);
    }
    while i < text.len()
        invariant
            i <= text.len(),
            lines(text@.take(i as int)) == rows(done@).push(current@),
        decreases text.len() - i,
    {
        let ghost before = rows(done@).push(current@);
        let ghost old_done = done@;
        let ghost old_current = current@;
        proof {
            assert(text@.take(i + 1).drop_last() =~= text@.take(i as int));
            assert(text@.take(i + 1).last() == text@[i as int]);
            assert(before.drop_last() =~= rows(old_done));
            assert(before.last() == old_current);
        }
        let c = text[i];
        if c == '\n' {
            done.push(current);
            current = Vec::new();
            proof {
                assert(rows(done@) =~= rows(old_done).push(old_current));
            }
        } else {
            current.push(c);
        }
        i += 1;
    }
    proof {
        assert(text@.take(i as int) =~= text@);
    }
    let ghost old_done = done@;
    done.push(current);
    proof {
        assert(rows(done@) =~= rows(old_done).push(current@));
    }
    done
}

/// Removes the white space at both ends of a line.
pub fn trim(line: &Vec<char>) -> (r: Vec<char>)
    ensures
        r@ == trimmed(line@),
{
    let mut start: usize = 0;
    proof {
        assert(line@.subrange(0, line@.len() as int) =~= line@);
    }
    while start < line.len() && is_whitespace(line[start])
        invariant
            start <= line.len(),
            trim_start(line@) == trim_start(line@.subrange(start as int, line@.len() as int)),
        decreases line.len() - start,
    {
        proof {
            let rest = line@.subrange(start as int, line@.len() as int);
            assert(rest.first() == line@[start as int]);
            assert(rest.drop_first() =~= line@.subrange(start + 1, line@.len() as int));
        }
        start += 1;
    }
    let ghost tail = line@.subrange(start as int, line@.len() as int);
    proof {
        assert(line@.subrange(0, line@.len() as int) =~= line@);
        if start < line.len() {
            assert(tail.first() == line@[start as int]);
        }
        assert(trim_start(line@) == tail);
    }
    let mut end: usize = line.len();
    while end > start && is_whitespace(line[end - 1])
        invariant
            start <= end <= line.len(),
            tail == line@.subrange(start as int, line@.len() as int),
            trim_end(tail) == trim_end(line@.subrange(start as int, end as int)),
        decreases end,
    {
        proof {
            let rest = line@.subrange(start as int, end as int);
            assert(rest.last() == line@[end - 1]);
            assert(rest.drop_last() =~= line@.subrange(start as int, end - 1));
        }
        end -= 1;
    }
    proof {
        let rest = line@.subrange(start as int, end as int);
        if end > start {
            assert(rest.last() == line@[end - 1]);
        }
        assert(trim_end(tail) == rest);
    }
    let mut r: Vec<char> = Vec::new();
    let mut i: usize = start;
    while i < end
        invariant
            start <= i <= end <= line.len(),
            r@ == line@.subrange(start as int, i as int),
        decreases end - i,
    {
        r.push(line[i]);
        assert(r@ =~= line@.subrange(start as int, i + 1));
        i += 1;
    }
    r
}

/// Reads a list of URLs. Where every line is empty, a comment or an
/// absolute URL, the URLs come back in the order of their lines; otherwise
/// the position of the first line that is none of these.
pub fn parse_list(content: &str) -> (r: Result<Vec<Url>, usize>)
    ensures
        match r {
            Ok(urls) => first_malformed(content@) is None && texts(urls@) == list_urls(content@),
            Err(line) => first_malformed(content@) == Some(line as int),
        },
{
    let text = chars_of(content);
    let all = split_lines(&text);
    let mut urls: Vec<Url> = Vec::new();
    let ghost every = lines(content@);
    let ghost url_of = |line: Seq<char>| line_url(line);
    let mut i: usize = 0;
    proof {
        assert(every.take(0) =~= Seq::<Seq<char>>::empty());
        assert(texts(urls@) =~= Seq::<Seq<char>>::empty());
    }
    while i < all.len()
        invariant
            i <= all.len(),
            every == lines(content@),
            rows(all@) == every,
            url_of == |line: Seq<char>| line_url(line),
            texts(urls@) == every.take(i as int).filter_map(url_of),
            forall|j: int| 0 <= j < i ==> !malformed(#[trigger] every[j]),
        decreases all.len() - i,
    {
        let ghost found = texts(urls@);
        proof {
            assert(every.take(i + 1).drop_last() =~= every.take(i as int));
            assert(every.take(i + 1).last() == every[i as int]);
            assert(every[i as int] == all@[i as int]@);
        }
        let t = trim(&all[i]);
        if t.len() > 0 && t[0] != '#' {
            let s = string_of(&t);
            match parse_url(s.as_str()) {
                Ok(url) => {
                    urls.push(url);
                    assert(texts(urls@) =~= found + seq![url_text(url)]);
                },
                Err(_) => {
                    proof {
                        assert(malformed(every[i as int]));
                        lemma_first_malformed(content@, i as int);
                    }
                    return Err(i);
                },
            }
        }
        i += 1;
    }
    proof {
        assert(every.take(i as int) =~= every);
    }
    Ok(urls)
}

/// The first malformed line is the one before which no line is malformed.
proof fn lemma_first_malformed(content: Seq<char>, i: int)
    requires
        0 <= i < lines(content).len(),
        malformed(lines(content)[i]),
        forall|j: int| 0 <= j < i ==> !malformed(#[trigger] lines(content)[j]),
    ensures
        first_malformed(content) == Some(i),
{
    let all = lines(content);
    let k = choose|k: int|
        0 <= k < all.len() && malformed(#[trigger] all[k]) && forall|j: int|
            0 <= j < k ==> !malformed(#[trigger] all[j]);
    assert(k == i) by {
        if k < i {
            assert(!malformed(all[k]));
        }
        if i < k {
            assert(!malformed(all[i]));
        }
    }
}

} // verus!
