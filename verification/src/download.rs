//! Download mode: which URLs become jobs and where each file lands.
//!
//! A run is planned in two steps around one look at the output directory.
//! [`destinations`] names the file for every distinct URL; the caller finds
//! out which of these files exist; [`jobs`] then decides what is fetched.

use crate::args::DownloadArgs;
use crate::count::{lemma_occurrences_bound, lemma_occurrences_push, occurrences};
use crate::error::ConfigError;
use crate::executor::{Executor, Pool};
use crate::naming::{resolved, NameCounter};
use crate::utils::{first_occurrences, Deduplicator};
use crate::web::{copy_url, file_name_from_url, file_name_of, texts, url_text};
use url::Url;
use vstd::prelude::*;
use vstd::string::*;

verus! {

/// A URL that will be fetched unless its file is already there.
pub struct Candidate {
    pub url: Url,
    /// The name of the file in the output directory.
    pub file_name: String,
}

/// What a list of URLs asks for.
pub struct Destinations {
    /// One entry for each distinct URL that has a file name, in input order.
    pub candidates: Vec<Candidate>,
    /// The distinct URLs without a file name; nothing is fetched for them.
    pub rejected: Vec<Url>,
}

/// A candidate together with what the output directory holds.
pub struct Probed {
    pub candidate: Candidate,
    /// Whether a file of the candidate's name exists already.
    pub exists: bool,
}

/// One download.
pub struct Job {
    /// The job's number in this run, counted from zero.
    pub id: usize,
    pub url: Url,
    pub file_name: String,
    /// Whether a file of this name exists and must be removed before the
    /// new one takes its place.
    pub unlink_existing: bool,
}

/// A planned download run.
pub struct Plan {
    pub jobs: Vec<Job>,
    pub executor: Executor,
}

/// Whether a URL has a file name.
pub open spec fn has_name(text: Seq<char>) -> bool {
    file_name_of(text) is Some
}

/// The distinct URLs of `input` that have a file name, in input order.
pub open spec fn named(input: Seq<Seq<char>>) -> Seq<Seq<char>> {
    first_occurrences(input).filter(|t: Seq<char>| has_name(t))
}

/// The distinct URLs of `input` that have no file name, in input order.
pub open spec fn unnamed(input: Seq<Seq<char>>) -> Seq<Seq<char>> {
    first_occurrences(input).filter(|t: Seq<char>| !has_name(t))
}

/// The file names of the URLs of `named(input)`, before any suffix.
pub open spec fn base_names(input: Seq<Seq<char>>) -> Seq<Seq<char>> {
    named(input).map_values(|t: Seq<char>| file_name_of(t).unwrap())
}

/// The URLs of a sequence of candidates.
pub open spec fn candidate_urls(candidates: Seq<Candidate>) -> Seq<Url> {
    candidates.map_values(|c: Candidate| c.url)
}

/// Whether a probed candidate is fetched: always where no file exists, and
/// over an existing file only on request.
pub open spec fn wanted(probed: Probed, redownload_existing: bool) -> bool {
    !probed.exists || redownload_existing
}

/// The probed candidates that are fetched, in order.
pub open spec fn fetched(probed: Seq<Probed>, redownload_existing: bool) -> Seq<Probed> {
    probed.filter(|p: Probed| wanted(p, redownload_existing))
}

/// Whether `jobs` are the jobs for the candidates `from`: numbered from
/// zero in order, each with its candidate's URL and file name, and removing
/// the old file exactly where one exists.
pub open spec fn jobs_for(jobs: Seq<Job>, from: Seq<Probed>) -> bool {
    &&& jobs.len() == from.len()
    &&& forall|k: int|
        0 <= k < jobs.len() ==> {
            &&& (#[trigger] jobs[k]).id == k
            &&& url_text(jobs[k].url) == url_text(from[k].candidate.url)
            &&& jobs[k].file_name@ == from[k].candidate.file_name@
            &&& jobs[k].unlink_existing == from[k].exists
        }
}

/// The name of the temporary file that a download is written to: the file
/// name between a leading `.` and a trailing `.part`.
pub open spec fn temp_name(file_name: Seq<char>) -> Seq<char> {
    seq!['.'] + file_name + seq!['.', 'p', 'a', 'r', 't']
}

/// Names the file for every distinct URL of `urls`.
///
/// A URL that repeats an earlier one is dropped. The file name is the last
/// path segment; the `n`-th URL with the same segment `x` gets `x.n`. A URL
/// without path segments is rejected and takes no name.
pub fn destinations(urls: Vec<Url>) -> (d: Destinations)
    ensures
        texts(candidate_urls(d.candidates@)) == named(texts(urls@)),
        forall|k: int|
            0 <= k < d.candidates@.len() ==> (#[trigger] d.candidates@[k]).file_name@ == resolved(
                base_names(texts(urls@)),
                k,
            ),
        texts(d.rejected@) == unnamed(texts(urls@)),
{
    let mut seen = Deduplicator::new();
    let mut names = NameCounter::new();
    let mut candidates: Vec<Candidate> = Vec::new();
    let mut rejected: Vec<Url> = Vec::new();
    let ghost input = texts(urls@);
    let mut i: usize = 0;
    proof {
        assert(input.take(0) =~= Seq::<Seq<char>>::empty());
        assert(texts(candidate_urls(candidates@)) =~= named(input.take(0)));
        assert(texts(rejected@) =~= unnamed(input.take(0)));
        assert(base_names(input.take(0)) =~= Seq::<Seq<char>>::empty());
    }
    while i < urls.len()
        invariant
            i <= urls.len(),
            input == texts(urls@),
            seen@ == first_occurrences(input.take(i as int)),
            texts(candidate_urls(candidates@)) == named(input.take(i as int)),
            texts(rejected@) == unnamed(input.take(i as int)),
            candidates@.len() <= i,
            forall|k: int|
                0 <= k < candidates@.len() ==> (#[trigger] candidates@[k]).file_name@ == resolved(
                    base_names(input.take(i as int)),
                    k,
                ),
            forall|base: Seq<char>|
                names.issued(base) == occurrences(base_names(input.take(i as int)), base),
        decreases urls.len() - i,
    {
        let ghost before = input.take(i as int);
        let ghost after = input.take(i + 1);
        let ghost text = input[i as int];
        let ghost bases = base_names(before);
        proof {
            crate::utils::lemma_first_occurrences_members(before, text);
            assert(after =~= before.push(text));
            assert(after.drop_last() =~= before);
            assert(after.last() == text);
            assert(text == url_text(urls@[i as int]));
            lemma_grow(before, text);
        }
        if seen.observe(&urls[i]) {
            match file_name_from_url(&urls[i]) {
                Some(base) => {
                    proof {
                        assert(file_name_of(text) == Some(base@));
                        lemma_occurrences_bound(bases, base@);
                        assert(bases.len() == candidates@.len());
                        assert forall|other: Seq<char>|
                            occurrences(bases.push(base@), other) == occurrences(bases, other)
                                + if other == base@ {
                                1nat
                            } else {
                                0nat
                            } by {
                            lemma_occurrences_push(bases, base@, other);
                        }
                    }
                    let ghost old_candidates = candidates@;
                    let file_name = match names.assign(base) {
                        Some(file_name) => file_name,
                        None => {
                            proof {
                                assert(false);
                            }
                            String::new()
                        },
                    };
                    candidates.push(Candidate { url: copy_url(&urls[i]), file_name });
                    proof {
                        assert(texts(candidate_urls(candidates@)) =~= texts(
                            candidate_urls(old_candidates),
                        ).push(text));
                        assert(base_names(after) == bases.push(base@));
                        assert forall|k: int| 0 <= k < candidates@.len() implies (
                        #[trigger] candidates@[k]).file_name@ == resolved(base_names(after), k) by {
                            if k < old_candidates.len() {
                                lemma_resolved_push(bases, base@, k);
                                assert(candidates@[k] == old_candidates[k]);
                            } else {
                                assert(bases.push(base@).take(k) =~= bases);
                            }
                        }
                    }
                },
                None => {
                    let ghost old_rejected = rejected@;
                    rejected.push(copy_url(&urls[i]));
                    proof {
                        assert(texts(rejected@) =~= texts(old_rejected).push(text));
                    }
                },
            }
        }
        i += 1;
    }
    proof {
        assert(input.take(i as int) =~= input);
    }
    Destinations { candidates, rejected }
}

/// Decides what is fetched: every candidate whose file does not exist, and
/// with `redownload_existing` the others too. The jobs are numbered from
/// zero in the order of the candidates.
pub fn jobs(probed: &Vec<Probed>, redownload_existing: bool) -> (jobs: Vec<Job>)
    ensures
        jobs_for(jobs@, fetched(probed@, redownload_existing)),
{
    let mut jobs: Vec<Job> = Vec::new();
    let mut i: usize = 0;
    let ghost keep = |p: Probed| wanted(p, redownload_existing);
    proof {
        assert(probed@.take(0) =~= Seq::<Probed>::empty());
    }
    while i < probed.len()
        invariant
            i <= probed.len(),
            jobs@.len() <= i,
            keep == |p: Probed| wanted(p, redownload_existing),
            jobs_for(jobs@, probed@.take(i as int).filter(keep)),
        decreases probed.len() - i,
    {
        let ghost before = probed@.take(i as int);
        let ghost old_jobs = jobs@;
        proof {
            assert(probed@.take(i + 1) =~= before.push(probed@[i as int]));
            assert(before.push(probed@[i as int]).drop_last() =~= before);
            reveal_with_fuel(Seq::filter, 2);
        }
        let entry = &probed[i];
        if !entry.exists || redownload_existing {
            let id = jobs.len();
            jobs.push(
                Job {
                    id,
                    url: copy_url(&entry.candidate.url),
                    file_name: entry.candidate.file_name.clone(),
                    unlink_existing: entry.exists,
                },
            );
            proof {
                let kept = probed@.take(i + 1).filter(keep);
                assert(kept == before.filter(keep).push(probed@[i as int]));
                assert forall|k: int| 0 <= k < jobs@.len() implies {
                    &&& (#[trigger] jobs@[k]).id == k
                    &&& url_text(jobs@[k].url) == url_text(kept[k].candidate.url)
                    &&& jobs@[k].file_name@ == kept[k].candidate.file_name@
                    &&& jobs@[k].unlink_existing == kept[k].exists
                } by {
                    if k < old_jobs.len() {
                        assert(jobs@[k] == old_jobs[k]);
                    }
                }
            }
        }
        i += 1;
    }
    proof {
        assert(probed@.take(i as int) =~= probed@);
    }
    jobs
}

/// Plans a download run from its settings and the probed candidates: the
/// jobs as [`jobs`] decides them, and an executor that runs at most
/// `args.parallel` of them at once. A limit of zero is refused.
pub fn download(args: &DownloadArgs, probed: &Vec<Probed>) -> (r: Result<Plan, ConfigError>)
    ensures
        match r {
            Ok(plan) => {
                &&& args.parallel >= 1
                &&& jobs_for(plan.jobs@, fetched(probed@, args.redownload_existing))
                &&& plan.executor@ == Pool::fresh(args.parallel as nat, plan.jobs@.len())
            },
            Err(e) => args.parallel == 0 && e == ConfigError::ZeroParallel,
        },
{
    let jobs = jobs(probed, args.redownload_existing);
    match Executor::new(args.parallel, jobs.len()) {
        Ok(executor) => Ok(Plan { jobs, executor }),
        Err(e) => Err(e),
    }
}

/// The name of the temporary file for a download, which lies beside the
/// final file: `.` before the file name and `.part` after it.
pub fn temp_file_name(file_name: &str) -> (r: String)
    ensures
        r@ == temp_name(file_name@),
{
    proof {
        reveal_strlit(".");
        reveal_strlit(".part");
    }
    let r = String::from_str(".").concat(file_name).concat(".part");
    assert(r@ =~= temp_name(file_name@));
    r
}

/// Without `redownload_existing` nothing is fetched for a file that exists:
/// every job is for a file that was absent, and where all files exist there
/// is no job at all.
pub proof fn lemma_existing_files_are_skipped(probed: Seq<Probed>)
    ensures
        forall|k: int|
            0 <= k < fetched(probed, false).len() ==> !(#[trigger] fetched(probed, false)[k]).exists,
        (forall|k: int| 0 <= k < probed.len() ==> (#[trigger] probed[k]).exists) ==> fetched(
            probed,
            false,
        ).len() == 0,
    decreases probed.len(),
{
    reveal_with_fuel(Seq::filter, 2);
    if probed.len() > 0 {
        lemma_existing_files_are_skipped(probed.drop_last());
        if forall|k: int| 0 <= k < probed.len() ==> (#[trigger] probed[k]).exists {
            assert(probed[probed.len() - 1].exists);
            assert forall|k: int| 0 <= k < probed.drop_last().len() implies (
            #[trigger] probed.drop_last()[k]).exists by {
                assert(probed[k].exists);
            }
        }
    }
}

/// With `redownload_existing` every candidate is fetched, whether or not
/// its file exists.
pub proof fn lemma_redownload_fetches_all(probed: Seq<Probed>)
    ensures
        fetched(probed, true) == probed,
    decreases probed.len(),
{
    reveal_with_fuel(Seq::filter, 2);
    if probed.len() > 0 {
        lemma_redownload_fetches_all(probed.drop_last());
        assert(probed.drop_last().push(probed.last()) =~= probed);
    } else {
        assert(probed =~= Seq::<Probed>::empty());
    }
}

/// How the named and unnamed URLs and the base names grow when one more
/// URL is read.
proof fn lemma_grow(before: Seq<Seq<char>>, text: Seq<char>)
    ensures
        ({
            let after = before.push(text);
            if before.contains(text) {
                &&& named(after) == named(before)
                &&& unnamed(after) == unnamed(before)
                &&& base_names(after) == base_names(before)
            } else if has_name(text) {
                &&& named(after) == named(before).push(text)
                &&& unnamed(after) == unnamed(before)
                &&& base_names(after) == base_names(before).push(file_name_of(text).unwrap())
            } else {
                &&& named(after) == named(before)
                &&& unnamed(after) == unnamed(before).push(text)
                &&& base_names(after) == base_names(before)
            }
        }),
{
    let after = before.push(text);
    assert(after.drop_last() =~= before);
    assert(after.last() == text);
    let kept = first_occurrences(before);
    if !before.contains(text) {
        assert(first_occurrences(after) == kept.push(text));
        assert(kept.push(text).drop_last() =~= kept);
        let yes = |t: Seq<char>| has_name(t);
        let no = |t: Seq<char>| !has_name(t);
        assert(kept.push(text).filter(yes) == if yes(text) {
            kept.filter(yes).push(text)
        } else {
            kept.filter(yes)
        }) by {
            reveal_with_fuel(Seq::filter, 2);
        }
        assert(kept.push(text).filter(no) == if no(text) {
            kept.filter(no).push(text)
        } else {
            kept.filter(no)
        }) by {
            reveal_with_fuel(Seq::filter, 2);
        }
        if has_name(text) {
            assert(base_names(after) =~= base_names(before).push(file_name_of(text).unwrap()));
        }
    }
}

/// The name given at a position does not depend on what is requested later.
proof fn lemma_resolved_push(bases: Seq<Seq<char>>, base: Seq<char>, k: int)
    requires
        0 <= k < bases.len(),
    ensures
        resolved(bases.push(base), k) == resolved(bases, k),
{
    assert(bases.push(base).take(k) =~= bases.take(k));
}

} // verus!
