//! The settings of a run, as plain values.

use crate::error::ListError;
use crate::list::{first_malformed, list_urls, parse_list};
use crate::scan::Filters;
use crate::web::{copy_url, texts, url_text};
use url::Url;
use vstd::prelude::*;
use vstd::string::*;

verus! {

/// Settings shared by both modes.
pub struct GlobalArgs {
    /// The `User-Agent` header sent with every request.
    pub user_agent: String,
}

/// The `User-Agent` header of a run that names none.
pub open spec fn default_user_agent() -> Seq<char> {
    seq!['f', 'i', 'r', 'e', '-', 'd', 'l']
}

impl Default for GlobalArgs {
    /// The settings of a run that names none.
    fn default() -> (r: Self)
        ensures
            r.user_agent@ == default_user_agent(),
    {
        proof {
            reveal_strlit("fire-dl");
            assert("fire-dl"@ =~= default_user_agent());
        }
        GlobalArgs { user_agent: String::from_str(crate::DEFAULT_USER_AGENT) }
    }
}

/// What to do.
pub enum Command {
    Download(DownloadArgs),
    Scan(ScanArgs),
}

/// Everything a run is started with.
pub struct Args {
    pub global_args: GlobalArgs,
    pub command: Command,
}

/// Settings of a download run.
pub struct DownloadArgs {
    /// The directory that receives the files; the current one if `None`.
    pub output: Option<String>,
    /// Whether a file that is already there is fetched again.
    pub redownload_existing: bool,
    /// How many downloads may run at once.
    pub parallel: usize,
    pub urls: Urls,
}

/// Settings of a scan run.
pub struct ScanArgs {
    /// Where the report goes; standard output if `None`.
    pub output: Option<String>,
    /// The patterns of which a reported URL must match one.
    pub filters: Filters,
    /// How many pages may be fetched at once.
    pub parallel: usize,
    pub urls: Urls,
}

/// Where the URLs of a run come from.
pub struct Urls {
    /// Paths of list files that hold one URL per line.
    pub list: Vec<String>,
    /// URLs given directly.
    pub url: Vec<Url>,
}

/// The URLs of several lists, one list after the other.
pub open spec fn all_list_urls(contents: Seq<Seq<char>>) -> Seq<Seq<char>>
    decreases contents.len(),
{
    if contents.len() == 0 {
        Seq::empty()
    } else {
        all_list_urls(contents.drop_last()) + list_urls(contents.last())
    }
}

impl Urls {
    /// All URLs of a run: those given directly, then those of each list
    /// file in turn. `contents` holds the text of each list file, in the
    /// order of `list`. The first line of the first list that is neither
    /// empty, a comment nor an absolute URL stops the run.
    pub fn collect(&self, contents: &Vec<String>) -> (r: Result<Vec<Url>, ListError>)
        ensures
            match r {
                Ok(urls) => {
                    &&& forall|k: int|
                        0 <= k < contents@.len() ==> first_malformed(#[trigger] contents@[k]@)
                            is None
                    &&& texts(urls@) == texts(self.url@) + all_list_urls(contents.deep_view())
                },
                Err(ListError::MalformedUrl { list, line }) => {
                    &&& list < contents@.len()
                    &&& first_malformed(contents@[list as int]@) == Some(line as int)
                    &&& forall|k: int|
                        0 <= k < list ==> first_malformed(#[trigger] contents@[k]@) is None
                },
            },
    {
        let mut urls: Vec<Url> = Vec::new();
        let mut i: usize = 0;
        while i < self.url.len()
            invariant
                i <= self.url.len(),
                texts(urls@) == texts(self.url@).take(i as int),
            decreases self.url.len() - i,
        {
            let ghost before = texts(urls@);
            urls.push(copy_url(&self.url[i]));
            assert(texts(urls@) =~= before.push(url_text(self.url@[i as int])));
            assert(texts(self.url@).take(i + 1) =~= texts(self.url@).take(i as int).push(
                url_text(self.url@[i as int]),
            ));
            i += 1;
        }
        let ghost direct = texts(self.url@);
        let ghost all = contents.deep_view();
        let mut k: usize = 0;
        proof {
            assert(direct.take(i as int) =~= direct);
            assert(all.take(0) =~= Seq::<Seq<char>>::empty());
            assert(texts(urls@) =~= direct + all_list_urls(all.take(0)));
        }
        while k < contents.len()
            invariant
                k <= contents.len(),
                direct == texts(self.url@),
                all == contents.deep_view(),
                texts(urls@) == direct + all_list_urls(all.take(k as int)),
                forall|j: int| 0 <= j < k ==> first_malformed(#[trigger] contents@[j]@) is None,
            decreases contents.len() - k,
        {
            proof {
                assert(all.take(k + 1).drop_last() =~= all.take(k as int));
                assert(all.take(k + 1).last() == contents@[k as int]@);
            }
            match parse_list(contents[k].as_str()) {
                Ok(mut found) => {
                    let ghost before = texts(urls@);
                    let ghost added = texts(found@);
                    urls.append(&mut found);
                    assert(texts(urls@) =~= before + added);
                },
                Err(line) => {
                    return Err(ListError::MalformedUrl { list: k, line });
                },
            }
            k += 1;
        }
        proof {
            assert(all.take(k as int) =~= all);
        }
        Ok(urls)
    }
}

} // verus!
