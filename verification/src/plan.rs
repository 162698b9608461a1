//! The fetch plan: which manifest entries the fetcher must still download, in
//! manifest order, each with its destination filename; the temp-name scheme of
//! the atomic write protocol; and how a task's outcome and the stage's
//! aggregate result are decided. The network work itself stands outside: it is
//! handed `FetchJob` values and hands back one `FetchOutcome` per job.

use vstd::prelude::*;
use crate::ident::PageIdentity;
use crate::name::{encode_name, ext_of, extension_of, find_first, format_filename, lemma_find_first, parse_name};

verus! {

/// A parsed manifest: the remote page identifiers of each chapter in order,
/// with the session credentials that authorize their fetches.
pub struct DownloadTask {
    pub book_real_id: String,
    pub botu_read_kernel: String,
    pub page_urls: Vec<Vec<String>>,
}

/// One fetch the planner issued: the page identity, the remote resource
/// identifier to request, and the destination filename that persists the
/// identity.
pub struct FetchJob {
    pub id: PageIdentity,
    pub url: String,
    pub filename: String,
}

impl View for FetchJob {
    type V = (PageIdentity, Seq<char>, Seq<char>);

    open spec fn view(&self) -> (PageIdentity, Seq<char>, Seq<char>) {
        (self.id, self.url@, self.filename@)
    }
}

/// The job for the page at one chapter/page slot of the manifest.
pub open spec fn job_at(c: int, p: int, url: Seq<char>) -> (PageIdentity, Seq<char>, Seq<char>) {
    let id = PageIdentity { chapter: c as u32, page: p as u32 };
    (id, url, encode_name(id, ext_of(url)))
}

/// The jobs planned for the first `p` pages of chapter `c`: one per page whose
/// destination filename does not already exist, in page order.
pub open spec fn chapter_plan(
    urls: Seq<Seq<char>>,
    c: int,
    existing: Seq<Seq<char>>,
    p: int,
) -> Seq<(PageIdentity, Seq<char>, Seq<char>)>
    decreases p,
{
    if p <= 0 {
        Seq::empty()
    } else {
        let prev = chapter_plan(urls, c, existing, p - 1);
        let job = job_at(c, p - 1, urls[p - 1]);
        if existing.contains(job.2) {
            prev
        } else {
            prev.push(job)
        }
    }
}

/// The jobs planned for the first `c` chapters of the manifest, in chapter
/// order.
pub open spec fn manifest_plan(
    chapters: Seq<Seq<Seq<char>>>,
    existing: Seq<Seq<char>>,
    c: int,
) -> Seq<(PageIdentity, Seq<char>, Seq<char>)>
    decreases c,
{
    if c <= 0 {
        Seq::empty()
    } else {
        manifest_plan(chapters, existing, c - 1)
            + chapter_plan(chapters[c - 1], c - 1, existing, chapters[c - 1].len() as int)
    }
}

/// Every planned job's destination is absent: the planner issues no request
/// for an entry whose destination filename already exists, which is what makes
/// a re-run resume instead of re-downloading.
pub proof fn lemma_chapter_plan_skips_existing(
    urls: Seq<Seq<char>>,
    c: int,
    existing: Seq<Seq<char>>,
    p: int,
)
    ensures
        forall|i: int| 0 <= i < chapter_plan(urls, c, existing, p).len()
            ==> !existing.contains((#[trigger] chapter_plan(urls, c, existing, p)[i]).2),
    decreases p,
{
    if p > 0 {
        lemma_chapter_plan_skips_existing(urls, c, existing, p - 1);
        let prev = chapter_plan(urls, c, existing, p - 1);
        let job = job_at(c, p - 1, urls[p - 1]);
        assert forall|i: int| 0 <= i < chapter_plan(urls, c, existing, p).len()
            implies !existing.contains((#[trigger] chapter_plan(urls, c, existing, p)[i]).2) by {
            if !existing.contains(job.2) {
                assert(chapter_plan(urls, c, existing, p) == prev.push(job));
                if i < prev.len() {
                    assert(prev.push(job)[i] == prev[i]);
                } else {
                    assert(prev.push(job)[i] == job);
                }
            }
        }
    }
}

/// Idempotent resume, the whole manifest: no planned job names an existing
/// destination file.
pub proof fn lemma_plan_skips_existing(
    chapters: Seq<Seq<Seq<char>>>,
    existing: Seq<Seq<char>>,
    c: int,
)
    ensures
        forall|i: int| 0 <= i < manifest_plan(chapters, existing, c).len()
            ==> !existing.contains((#[trigger] manifest_plan(chapters, existing, c)[i]).2),
    decreases c,
{
    if c > 0 {
        lemma_plan_skips_existing(chapters, existing, c - 1);
        lemma_chapter_plan_skips_existing(
            chapters[c - 1],
            c - 1,
            existing,
            chapters[c - 1].len() as int,
        );
        let a = manifest_plan(chapters, existing, c - 1);
        let b = chapter_plan(chapters[c - 1], c - 1, existing, chapters[c - 1].len() as int);
        assert(manifest_plan(chapters, existing, c) == a + b);
        assert forall|i: int| 0 <= i < manifest_plan(chapters, existing, c).len()
            implies !existing.contains((#[trigger] manifest_plan(chapters, existing, c)[i]).2) by {
            if i < a.len() {
                assert((a + b)[i] == a[i]);
            } else {
                assert((a + b)[i] == b[i - a.len()]);
            }
        }
    }
}

/// Completeness of the resume plan for one chapter: every page slot whose
/// destination filename is absent has its job in the chapter's plan.
pub proof fn lemma_chapter_plan_covers_missing(
    urls: Seq<Seq<char>>,
    c: int,
    existing: Seq<Seq<char>>,
    p: int,
)
    ensures
        forall|q: int| 0 <= q < p && !existing.contains((#[trigger] job_at(c, q, urls[q])).2)
            ==> chapter_plan(urls, c, existing, p).contains(job_at(c, q, urls[q])),
    decreases p,
{
    if p > 0 {
        lemma_chapter_plan_covers_missing(urls, c, existing, p - 1);
        let prev = chapter_plan(urls, c, existing, p - 1);
        let job = job_at(c, p - 1, urls[p - 1]);
        assert forall|q: int| 0 <= q < p && !existing.contains((#[trigger] job_at(c, q, urls[q])).2)
            implies chapter_plan(urls, c, existing, p).contains(job_at(c, q, urls[q])) by {
            if q < p - 1 {
                let k = choose|k: int| 0 <= k < prev.len() && prev[k] == job_at(c, q, urls[q]);
                if existing.contains(job.2) {
                    assert(chapter_plan(urls, c, existing, p)[k] == job_at(c, q, urls[q]));
                } else {
                    assert(chapter_plan(urls, c, existing, p)[k] == job_at(c, q, urls[q]));
                }
            } else {
                assert(chapter_plan(urls, c, existing, p) == prev.push(job));
                assert(chapter_plan(urls, c, existing, p)[prev.len() as int] == job);
            }
        }
    }
}

/// Completeness of the resume plan, the whole manifest: every manifest slot
/// whose destination filename is absent has its job in the plan. Together with
/// the skip law, a re-run fetches exactly the missing entries.
pub proof fn lemma_plan_covers_missing(
    chapters: Seq<Seq<Seq<char>>>,
    existing: Seq<Seq<char>>,
    c: int,
)
    ensures
        forall|cc: int, q: int| 0 <= cc < c && 0 <= q < chapters[cc].len()
            && !existing.contains((#[trigger] job_at(cc, q, chapters[cc][q])).2)
            ==> manifest_plan(chapters, existing, c).contains(job_at(cc, q, chapters[cc][q])),
    decreases c,
{
    if c > 0 {
        lemma_plan_covers_missing(chapters, existing, c - 1);
        lemma_chapter_plan_covers_missing(
            chapters[c - 1],
            c - 1,
            existing,
            chapters[c - 1].len() as int,
        );
        let a = manifest_plan(chapters, existing, c - 1);
        let b = chapter_plan(chapters[c - 1], c - 1, existing, chapters[c - 1].len() as int);
        assert(manifest_plan(chapters, existing, c) == a + b);
        assert forall|cc: int, q: int| 0 <= cc < c && 0 <= q < chapters[cc].len()
            && !existing.contains((#[trigger] job_at(cc, q, chapters[cc][q])).2)
            implies manifest_plan(chapters, existing, c).contains(job_at(cc, q, chapters[cc][q])) by {
            let job = job_at(cc, q, chapters[cc][q]);
            if cc < c - 1 {
                let k = choose|k: int| 0 <= k < a.len() && a[k] == job;
                assert((a + b)[k] == job);
            } else {
                let k = choose|k: int| 0 <= k < b.len() && b[k] == job;
                assert((a + b)[a.len() + k] == job);
            }
        }
    }
}

/// Is this name among the existing destination filenames?
pub fn contains_name(existing: &Vec<String>, name: &String) -> (r: bool)
    ensures
        r == existing.deep_view().contains(name@),
{
    let mut i: usize = 0;
    while i < existing.len()
        invariant
            0 <= i <= existing@.len(),
            forall|j: int| 0 <= j < i ==> existing.deep_view()[j] != name@,
        decreases existing@.len() - i,
    {
        assert(existing.deep_view()[i as int] == existing@[i as int]@);
        if existing[i] == *name {
            return true;
        }
        i += 1;
    }
    false
}

/// Plan the fetches a run must still perform: one job per manifest entry whose
/// destination filename is not already present, in manifest order. The chapter
/// and page components are the entry's position in the manifest.
pub fn plan_fetches(task: &DownloadTask, existing: &Vec<String>) -> (r: Vec<FetchJob>)
    requires
        task.page_urls@.len() <= u32::MAX,
        forall|c: int| 0 <= c < task.page_urls@.len()
            ==> (#[trigger] task.page_urls@[c])@.len() <= u32::MAX,
    ensures
        r@.len() == manifest_plan(
            task.page_urls.deep_view(),
            existing.deep_view(),
            task.page_urls@.len() as int,
        ).len(),
        forall|i: int| 0 <= i < r@.len()
            ==> (#[trigger] r@[i])@ == manifest_plan(
                task.page_urls.deep_view(),
                existing.deep_view(),
                task.page_urls@.len() as int,
            )[i],
{
    let ghost chapters = task.page_urls.deep_view();
    let ghost ex = existing.deep_view();
    let mut r: Vec<FetchJob> = Vec::new();
    let ghost mut planned: Seq<(PageIdentity, Seq<char>, Seq<char>)> = Seq::empty();
    let mut c: usize = 0;
    while c < task.page_urls.len()
        invariant
            0 <= c <= task.page_urls@.len(),
            task.page_urls@.len() <= u32::MAX,
            forall|c2: int| 0 <= c2 < task.page_urls@.len()
                ==> (#[trigger] task.page_urls@[c2])@.len() <= u32::MAX,
            chapters == task.page_urls.deep_view(),
            ex == existing.deep_view(),
            planned == manifest_plan(chapters, ex, c as int),
            r@.len() == planned.len(),
            forall|i: int| 0 <= i < r@.len() ==> (#[trigger] r@[i])@ == planned[i],
        decreases task.page_urls@.len() - c,
    {
        let urls = &task.page_urls[c];
        let ghost curls = chapters[c as int];
        proof {
            assert(curls == task.page_urls@[c as int].deep_view());
        }
        let mut p: usize = 0;
        while p < urls.len()
            invariant
                0 <= p <= urls@.len(),
                0 <= c < task.page_urls@.len(),
                task.page_urls@.len() <= u32::MAX,
                urls@.len() <= u32::MAX,
                urls == &task.page_urls@[c as int],
                curls == urls.deep_view(),
                ex == existing.deep_view(),
                planned == manifest_plan(chapters, ex, c as int)
                    + chapter_plan(curls, c as int, ex, p as int),
                r@.len() == planned.len(),
                forall|i: int| 0 <= i < r@.len() ==> (#[trigger] r@[i])@ == planned[i],
            decreases urls@.len() - p,
        {
            let url = &urls[p];
            proof {
                assert(curls[p as int] == urls@[p as int]@);
            }
            let id = PageIdentity { chapter: c as u32, page: p as u32 };
            let ext = extension_of(url.as_str());
            let filename = format_filename(&id, ext);
            proof {
                assert(filename@ == job_at(c as int, p as int, curls[p as int]).2);
            }
            if !contains_name(existing, &filename) {
                let job = FetchJob { id, url: url.clone(), filename };
                proof {
                    assert(job@ == job_at(c as int, p as int, curls[p as int]));
                }
                r.push(job);
                proof {
                    planned = planned.push(job_at(c as int, p as int, curls[p as int]));
                }
            }
            proof {
                assert(chapter_plan(curls, c as int, ex, p as int + 1) == (
                    if ex.contains(job_at(c as int, p as int, curls[p as int]).2) {
                        chapter_plan(curls, c as int, ex, p as int)
                    } else {
                        chapter_plan(curls, c as int, ex, p as int).push(
                            job_at(c as int, p as int, curls[p as int]),
                        )
                    }
                ));
                assert(planned == manifest_plan(chapters, ex, c as int)
                    + chapter_plan(curls, c as int, ex, p as int + 1));
            }
            p += 1;
        }
        proof {
            assert(chapter_plan(curls, c as int, ex, p as int)
                == chapter_plan(chapters[c as int], c as int, ex, chapters[c as int].len() as int));
            assert(manifest_plan(chapters, ex, c as int + 1) == manifest_plan(chapters, ex, c as int)
                + chapter_plan(chapters[c as int], c as int, ex, chapters[c as int].len() as int));
        }
        c += 1;
    }
    proof {
        assert(planned == manifest_plan(chapters, ex, task.page_urls@.len() as int));
    }
    r
}

/// How one fetch task resolved.
#[derive(Clone, Copy, PartialEq, Eq, Structural, Debug)]
pub enum FetchOutcome {
    /// The payload was fetched and committed to its destination name.
    Fetched,
    /// The request or response failed; siblings continue.
    NetworkFailure,
    /// The cancellation signal came first; no destination file was written.
    Cancelled,
    /// The payload could not be written or renamed into place.
    IoFailure,
}

/// What a fetch task reported before its outcome was resolved.
#[derive(Clone, Copy, PartialEq, Eq, Structural, Debug)]
pub enum FetchError {
    /// The request or response failed.
    Network,
    /// The local write or rename failed.
    Io,
}

/// Resolve one task: a cancellation that fires before the task's commit point
/// wins the race and yields the distinguished cancelled outcome — never a
/// network failure — and otherwise the task's own result decides.
pub fn resolve_fetch(cancelled_first: bool, result: Result<(), FetchError>) -> (r: FetchOutcome)
    ensures
        cancelled_first ==> r is Cancelled,
        !cancelled_first ==> match result {
            Ok(()) => r is Fetched,
            Err(FetchError::Network) => r is NetworkFailure,
            Err(FetchError::Io) => r is IoFailure,
        },
{
    if cancelled_first {
        FetchOutcome::Cancelled
    } else {
        match result {
            Ok(()) => FetchOutcome::Fetched,
            Err(FetchError::Network) => FetchOutcome::NetworkFailure,
            Err(FetchError::Io) => FetchOutcome::IoFailure,
        }
    }
}

/// Did the whole stage succeed? True exactly when every task fetched its page.
pub open spec fn all_fetched(outcomes: Seq<FetchOutcome>) -> bool {
    forall|i: int| 0 <= i < outcomes.len() ==> (#[trigger] outcomes[i]) is Fetched
}

/// Aggregate the per-task outcomes into the stage's single success flag: any
/// failed or cancelled task makes the whole run a failure.
pub fn aggregate_success(outcomes: &Vec<FetchOutcome>) -> (r: bool)
    ensures
        r == all_fetched(outcomes@),
{
    let mut i: usize = 0;
    while i < outcomes.len()
        invariant
            0 <= i <= outcomes@.len(),
            forall|j: int| 0 <= j < i ==> (#[trigger] outcomes@[j]) is Fetched,
        decreases outcomes@.len() - i,
    {
        if !matches!(outcomes[i], FetchOutcome::Fetched) {
            assert(!((outcomes@[i as int]) is Fetched));
            return false;
        }
        i += 1;
    }
    true
}

/// Is this character an ASCII letter or digit?
pub open spec fn is_alnum(c: char) -> bool {
    ('a' <= c && c <= 'z') || ('A' <= c && c <= 'Z') || ('0' <= c && c <= '9')
}

/// Relies on rand's `Alphanumeric` distribution: `SampleString::sample_string`
/// appends exactly `len` characters, each sampled from a-z, A-Z and 0-9.
#[verifier::external_body]
fn random_alphanumeric(len: usize) -> (r: String)
    ensures
        r@.len() == len,
        forall|i: int| 0 <= i < r@.len() ==> is_alnum(#[trigger] r@[i]),
{
    rand::distr::SampleString::sample_string(&rand::distr::Alphanumeric, &mut rand::rng(), len)
}

/// No partial page file ever appears under a stored-page name: a temporary
/// name never parses as a page identity, because it holds no underscore, so
/// the stages that recover identities from filenames can never pick up an
/// uncommitted file. Only the atomic rename makes a destination name visible.
pub proof fn lemma_temp_name_is_no_identity(s: Seq<char>)
    requires
        s.len() == 20,
        s.take(4) == ".tmp"@,
        forall|i: int| 4 <= i < 20 ==> is_alnum(#[trigger] s[i]),
    ensures
        parse_name(s) is None,
{
    reveal_strlit(".tmp");
    assert forall|j: int| 0 <= j < s.len() implies s[j] != '_' by {
        if j < 4 {
            assert(s[j] == s.take(4)[j]);
        }
    }
    lemma_find_first(s, '_');
    if let Some(i) = find_first(s, '_') {
        assert(s[i] != '_');
    }
}

/// A candidate name for the uniquely named temporary file of the atomic write
/// protocol: a fixed hidden prefix and sixteen random alphanumeric characters,
/// so it can never collide with a destination filename, which starts with a
/// digit. The caller draws fresh candidates until one names no existing file.
pub fn temp_name() -> (r: String)
    ensures
        r@.len() == 20,
        r@.take(4) == ".tmp"@,
        forall|i: int| 4 <= i < 20 ==> is_alnum(#[trigger] r@[i]),
{
    let mut s = String::from_str(".tmp");
    let suffix = random_alphanumeric(16);
    s.append(suffix.as_str());
    proof {
        reveal_strlit(".tmp");
        assert(s@.len() == 20);
        assert(s@.take(4) =~= ".tmp"@);
        assert(forall|i: int| 4 <= i < 20 ==> #[trigger] s@[i] == suffix@[i - 4]);
    }
    s
}

} // verus!
