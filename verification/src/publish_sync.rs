//! `knit publish sync`: how each repo's review object is looked up, and
//! when its PR body needs rewriting to carry the current cross-links.
use vstd::prelude::*;

use crate::model::{has_publication, is_publication_index, publication_for_repo, ChangeGroup, PublicationEntry};
use crate::pr_body::{block_text, upsert_knit_pr_block, upsert_spec};
use crate::publish_scope::{render_scoped_knit_pr_block, scoped_repos};
use crate::text::{append_str, chars_of, join_seq, join_strings, str_eq, string_from_chars, strings_view};

verus! {

/// Why a repo's review object cannot be looked up.
#[derive(Debug, Clone)]
pub enum SyncLookupError {
    NoFeatureBranch { repo: String, artifact: bool },
    NoCheckout { repo: String },
    NoRemote { repo: String },
}

impl SyncLookupError {
    pub open spec fn text(&self) -> Seq<char> {
        match self {
            SyncLookupError::NoFeatureBranch { repo, artifact } => repo@ + (if *artifact {
                ": no feature branch recorded in the bundle artifact."@
            } else {
                ": no feature branch recorded. Run `knit bundle worktree`."@
            }),
            SyncLookupError::NoCheckout { repo } => repo@ + ": no feature checkout is recorded."@,
            SyncLookupError::NoRemote { repo } => repo@ + ": no git remote recorded in the bundle artifact."@,
        }
    }

    pub fn message(&self) -> (out: String)
        ensures
            out@ == self.text(),
    {
        let mut v: Vec<char> = Vec::new();
        match self {
            SyncLookupError::NoFeatureBranch { repo, artifact } => {
                append_str(&mut v, repo.as_str());
                if *artifact {
                    append_str(&mut v, ": no feature branch recorded in the bundle artifact.");
                } else {
                    append_str(&mut v, ": no feature branch recorded. Run `knit bundle worktree`.");
                }
            },
            SyncLookupError::NoCheckout { repo } => {
                append_str(&mut v, repo.as_str());
                append_str(&mut v, ": no feature checkout is recorded.");
            },
            SyncLookupError::NoRemote { repo } => {
                append_str(&mut v, repo.as_str());
                append_str(&mut v, ": no git remote recorded in the bundle artifact.");
            },
        }
        string_from_chars(&v)
    }
}

/// How a repo's review object is found.
#[derive(Debug, Clone)]
pub enum SyncLookup {
    /// Read the recorded publication at this URL.
    View { url: String },
    /// Look for an open review object from the feature branch into the base.
    FindExisting { branch: String, base: String },
}

/// How repo `i`'s review object is found: its recorded publication when it
/// has one, else an existing review object from its feature branch. From a
/// workspace the repo needs a feature branch, then a checkout (`cwd`); from
/// a bundle artifact it needs a feature branch, then a git remote.
pub fn sync_lookup(b: &ChangeGroup, i: usize, cwd: &Option<String>, artifact: bool) -> (r: Result<SyncLookup, SyncLookupError>)
    requires
        i < b.repos@.len(),
    ensures
        ({
            let repo = b.repos@[i as int];
            if repo.feature_branch is None {
                r matches Err(SyncLookupError::NoFeatureBranch { repo: id, artifact: a }) && id@ == repo.id@ && a == artifact
            } else if !artifact && cwd is None {
                r matches Err(SyncLookupError::NoCheckout { repo: id }) && id@ == repo.id@
            } else if artifact && repo.remote is None {
                r matches Err(SyncLookupError::NoRemote { repo: id }) && id@ == repo.id@
            } else if has_publication(*b, repo.id@) {
                r matches Ok(SyncLookup::View { url }) && exists|p: int| is_publication_index(*b, repo.id@, p) && url@ == b.publications@[p].url@
            } else {
                r matches Ok(SyncLookup::FindExisting { branch, base }) && branch@ == repo.feature_branch->0@ && base@ == repo.base_branch@
            }
        }),
{
    let repo = &b.repos[i];
    let branch = match &repo.feature_branch {
        Some(f) => f,
        None => return Err(SyncLookupError::NoFeatureBranch { repo: repo.id.clone(), artifact }),
    };
    if !artifact && cwd.is_none() {
        return Err(SyncLookupError::NoCheckout { repo: repo.id.clone() });
    }
    if artifact && repo.remote.is_none() {
        return Err(SyncLookupError::NoRemote { repo: repo.id.clone() });
    }
    match publication_for_repo(b, repo.id.as_str()) {
        Some(p) => {
            proof {
                assert(is_publication_index(*b, repo.id@, p as int));
            }
            Ok(SyncLookup::View { url: b.publications[p].url.clone() })
        },
        None => Ok(SyncLookup::FindExisting { branch: branch.clone(), base: repo.base_branch.clone() }),
    }
}

/// The PR body of repo `repo_id` with the bundle's current managed block;
/// none when the body already carries exactly that.
pub open spec fn next_body_spec(b: ChangeGroup, repo_id: Seq<char>, current: Seq<char>) -> Option<Seq<char>> {
    let next = upsert_spec(current, block_text(b, Some(repo_id), scoped_repos(b, b.repos@)));
    if next == current {
        None
    } else {
        Some(next)
    }
}

/// The rewritten PR body for a repo, or none when it is already in sync. An
/// absent body counts as empty.
pub fn next_pr_body(b: &ChangeGroup, repo_id: &str, current: &Option<String>) -> (r: Option<String>)
    ensures
        ({
            let cur = match current {
                Some(c) => c@,
                None => Seq::empty(),
            };
            match r {
                Some(n) => next_body_spec(*b, repo_id@, cur) == Some(n@),
                None => next_body_spec(*b, repo_id@, cur) is None,
            }
        }),
{
    let body = match current {
        Some(c) => c.clone(),
        None => string_from_chars(&Vec::new()),
    };
    let block = render_scoped_knit_pr_block(b, Some(repo_id));
    let next = upsert_knit_pr_block(body.as_str(), block.as_str());
    if str_eq(next.as_str(), body.as_str()) {
        None
    } else {
        Some(next)
    }
}

/// What fetching one repo's review object came to.
pub enum SyncFetchOutcome {
    /// The repo has no review object recorded.
    NoReviewObject,
    /// The review object was read; the publication to record for repo
    /// `repo_index`.
    Summary { repo_index: usize, publication: PublicationEntry },
    /// The fetch failed, with this error.
    Failed(String),
}

/// The first publication of repo `id` is at `i`.
pub open spec fn first_pub(pubs: Seq<PublicationEntry>, id: Seq<char>, i: int) -> bool {
    0 <= i < pubs.len() && pubs[i].repo_id@ == id && forall|j: int| 0 <= j < i ==> pubs[j].repo_id@ != id
}

/// Recording a publication: it replaces the repo's first publication, or
/// is appended when the repo has none.
pub open spec fn upsert_pub(pubs: Seq<PublicationEntry>, p: PublicationEntry) -> Seq<PublicationEntry> {
    if exists|i: int| first_pub(pubs, p.repo_id@, i) {
        pubs.update(choose|i: int| first_pub(pubs, p.repo_id@, i), p)
    } else {
        pubs.push(p)
    }
}

/// The publications, the repos synced and the failure lines after the
/// fetch results, in order.
pub open spec fn fetch_fold(pubs: Seq<PublicationEntry>, rs: Seq<(String, SyncFetchOutcome)>) -> (Seq<PublicationEntry>, Seq<usize>, Seq<Seq<char>>)
    decreases rs.len(),
{
    if rs.len() == 0 {
        (pubs, Seq::empty(), Seq::empty())
    } else {
        let (p, s, f) = fetch_fold(pubs, rs.drop_last());
        match rs.last().1 {
            SyncFetchOutcome::NoReviewObject => (p, s, f),
            SyncFetchOutcome::Summary { repo_index, publication } => (upsert_pub(p, publication), s.push(repo_index), f),
            SyncFetchOutcome::Failed(e) => (p, s, f.push(rs.last().0@ + ": "@ + e@)),
        }
    }
}

proof fn lemma_first_pub_unique(pubs: Seq<PublicationEntry>, id: Seq<char>, i: int, j: int)
    requires
        first_pub(pubs, id, i),
        first_pub(pubs, id, j),
    ensures
        i == j,
{
    if i < j {
        assert(pubs[i].repo_id@ != id);
    } else if j < i {
        assert(pubs[j].repo_id@ != id);
    }
}

/// Records `p` as its repo's publication.
pub fn upsert_publication(pubs: &mut Vec<PublicationEntry>, p: PublicationEntry)
    ensures
        final(pubs)@ == upsert_pub(old(pubs)@, p),
{
    let mut i: usize = 0;
    while i < pubs.len()
        invariant
            i <= pubs@.len(),
            pubs@ == old(pubs)@,
            forall|j: int| 0 <= j < i ==> pubs@[j].repo_id@ != p.repo_id@,
        decreases pubs.len() - i,
    {
        if str_eq(pubs[i].repo_id.as_str(), p.repo_id.as_str()) {
            proof {
                assert(first_pub(old(pubs)@, p.repo_id@, i as int));
                let c = choose|k: int| first_pub(old(pubs)@, p.repo_id@, k);
                lemma_first_pub_unique(old(pubs)@, p.repo_id@, i as int, c);
            }
            pubs.set(i, p);
            return;
        }
        i += 1;
    }
    proof {
        assert(!exists|k: int| first_pub(old(pubs)@, p.repo_id@, k));
    }
    pubs.push(p);
}

/// Applies the fetch results of a publication sync to the bundle, in
/// order: each summary is recorded as its repo's publication, repos without
/// a review object are passed over, and each failed fetch gives a failure
/// line. Returns the repos synced (whose PR bodies are then synced) and the
/// failure lines; every result is applied whatever the others came to.
pub fn apply_sync_fetches(bundle: &mut ChangeGroup, results: Vec<(String, SyncFetchOutcome)>) -> (r: (Vec<usize>, Vec<String>))
    ensures
        final(bundle).publications@ == fetch_fold(old(bundle).publications@, results@).0,
        r.0@ == fetch_fold(old(bundle).publications@, results@).1,
        strings_view(r.1@) == fetch_fold(old(bundle).publications@, results@).2,
        final(bundle).repos@ == old(bundle).repos@,
        final(bundle).nodes@ == old(bundle).nodes@,
        final(bundle).id == old(bundle).id,
{
    let ghost orig = results@;
    let ghost pubs0 = bundle.publications@;
    let mut results = results;
    let mut synced: Vec<usize> = Vec::new();
    let mut failures: Vec<String> = Vec::new();
    let mut i: usize = 0;
    let n = results.len();
    proof {
        assert(orig.skip(0) =~= orig);
        assert(orig.len() == n);
    }
    while results.len() > 0
        invariant
            i <= orig.len(),
            orig.len() <= usize::MAX,
            i + results@.len() == orig.len(),
            results@ == orig.skip(i as int),
            bundle.publications@ == fetch_fold(pubs0, orig.take(i as int)).0,
            synced@ == fetch_fold(pubs0, orig.take(i as int)).1,
            strings_view(failures@) == fetch_fold(pubs0, orig.take(i as int)).2,
            bundle.repos@ == old(bundle).repos@,
            bundle.nodes@ == old(bundle).nodes@,
            bundle.id == old(bundle).id,
            pubs0 == old(bundle).publications@,
        decreases results.len(),
    {
        proof {
            assert(orig.take(i + 1).drop_last() =~= orig.take(i as int));
            assert(orig.take(i + 1).last() == orig[i as int]);
            assert(results@[0] == orig[i as int]);
        }
        let (id, outcome) = results.remove(0);
        match outcome {
            SyncFetchOutcome::NoReviewObject => {},
            SyncFetchOutcome::Summary { repo_index, publication } => {
                upsert_publication(&mut bundle.publications, publication);
                synced.push(repo_index);
            },
            SyncFetchOutcome::Failed(e) => {
                let mut v = chars_of(id.as_str());
                append_str(&mut v, ": ");
                append_str(&mut v, e.as_str());
                let line = string_from_chars(&v);
                proof {
                    assert(strings_view(failures@.push(line)) =~= strings_view(failures@).push(line@));
                }
                failures.push(line);
            },
        }
        proof {
            assert(results@ =~= orig.skip(i + 1));
        }
        i += 1;
    }
    proof {
        assert(orig.take(i as int) =~= orig);
    }
    (synced, failures)
}

/// What syncing one repo's PR body came to.
pub enum BodySyncOutcome {
    /// The body was rewritten; the PR's URL.
    Synced(String),
    /// The body already carried the current block.
    AlreadySynced,
    /// Rewriting failed, with this error.
    Failed(String),
}

/// The failure lines of the body syncs, in order.
pub open spec fn body_failures_spec(rs: Seq<(String, BodySyncOutcome)>) -> Seq<Seq<char>>
    decreases rs.len(),
{
    if rs.len() == 0 {
        Seq::empty()
    } else {
        let f = body_failures_spec(rs.drop_last());
        match rs.last().1 {
            BodySyncOutcome::Failed(e) => f.push(rs.last().0@ + ": "@ + e@),
            _ => f,
        }
    }
}

pub fn body_failures(results: &Vec<(String, BodySyncOutcome)>) -> (out: Vec<String>)
    ensures
        strings_view(out@) == body_failures_spec(results@),
{
    let mut out: Vec<String> = Vec::new();
    let mut i: usize = 0;
    while i < results.len()
        invariant
            i <= results@.len(),
            strings_view(out@) == body_failures_spec(results@.take(i as int)),
        decreases results.len() - i,
    {
        proof {
            assert(results@.take(i + 1).drop_last() =~= results@.take(i as int));
        }
        match &results[i].1 {
            BodySyncOutcome::Failed(e) => {
                let mut v = chars_of(results[i].0.as_str());
                append_str(&mut v, ": ");
                append_str(&mut v, e.as_str());
                let line = string_from_chars(&v);
                proof {
                    assert(strings_view(out@.push(line)) =~= strings_view(out@).push(line@));
                }
                out.push(line);
            },
            _ => {},
        }
        i += 1;
    }
    proof {
        assert(results@.take(results@.len() as int) =~= results@);
    }
    out
}

/// A publication sync fails exactly when some repo's fetch or body sync
/// failed, listing the failures.
pub fn sync_publications_result(failures: &Vec<String>) -> (r: Result<(), String>)
    ensures
        failures@.len() == 0 <==> r is Ok,
        r matches Err(m) ==> m@ == "PR sync completed with failures:\n"@ + join_seq(strings_view(failures@), "\n"@),
{
    if failures.len() == 0 {
        return Ok(());
    }
    let mut v = chars_of("PR sync completed with failures:\n");
    append_str(&mut v, join_strings(failures, "\n").as_str());
    Err(string_from_chars(&v))
}

/// The publications after recording each of `ps` in order.
pub open spec fn upsert_all(pubs: Seq<PublicationEntry>, ps: Seq<PublicationEntry>) -> Seq<PublicationEntry>
    decreases ps.len(),
{
    if ps.len() == 0 {
        pubs
    } else {
        upsert_pub(upsert_all(pubs, ps.drop_last()), ps.last())
    }
}

/// Records the refreshed state of reviewed PRs (as a land step that merged
/// or checked a PR read it back) as their repos' publications, in order.
pub fn record_refreshed_publications(bundle: &mut ChangeGroup, refreshed: Vec<PublicationEntry>)
    ensures
        final(bundle).publications@ == upsert_all(old(bundle).publications@, refreshed@),
        final(bundle).repos@ == old(bundle).repos@,
        final(bundle).nodes@ == old(bundle).nodes@,
        final(bundle).id == old(bundle).id,
{
    let ghost orig = refreshed@;
    let ghost pubs0 = bundle.publications@;
    let mut refreshed = refreshed;
    let n = refreshed.len();
    let mut i: usize = 0;
    proof {
        assert(orig.skip(0) =~= orig);
    }
    while refreshed.len() > 0
        invariant
            i <= orig.len(),
            orig.len() == n,
            i + refreshed@.len() == orig.len(),
            refreshed@ == orig.skip(i as int),
            bundle.publications@ == upsert_all(pubs0, orig.take(i as int)),
            bundle.repos@ == old(bundle).repos@,
            bundle.nodes@ == old(bundle).nodes@,
            bundle.id == old(bundle).id,
            pubs0 == old(bundle).publications@,
        decreases refreshed.len(),
    {
        proof {
            assert(orig.take(i + 1).drop_last() =~= orig.take(i as int));
            assert(refreshed@[0] == orig[i as int]);
        }
        let p = refreshed.remove(0);
        upsert_publication(&mut bundle.publications, p);
        proof {
            assert(refreshed@ =~= orig.skip(i + 1));
        }
        i += 1;
    }
    proof {
        assert(orig.take(i as int) =~= orig);
    }
}

} // verus!
