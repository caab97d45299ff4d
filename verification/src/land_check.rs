//! `knit land check`: how landable each published PR is, and the tally
//! over a bundle.
use vstd::prelude::*;

use crate::checks::{checks_label, checks_outcome, opt_is, opt_str_is, outcome_label, ChecksOutcome};
use crate::model::{
    is_conflicting, is_publication_index, has_publication, pr_conflicting, pr_state, publication_for_repo,
    ChangeGroup, CheckRun, PullRequest,
};
use crate::text::{append_str, chars_of, str_eq, string_from_chars};

verus! {

/// One row of the readiness table.
#[derive(Debug, Clone)]
pub struct LandReadiness {
    pub repo_id: String,
    pub number: u64,
    pub state: String,
    /// `clean`, `conflict`, `unknown`, or `-` when not assessed.
    pub mergeable: String,
    /// `passed`, `failed`, `pending`, `none`, `unknown`, or `-`.
    pub checks: String,
    /// `approved`, `changes`, `none`, or `-`.
    pub review: String,
    pub verdict: String,
    /// The PR is not landable yet.
    pub blocked: bool,
}

/// What the code host said about a publication's PR.
#[derive(Debug, Clone)]
pub enum PrLookup {
    /// No provider could be chosen for the repo; carries the error.
    ProviderUnavailable(String),
    /// The PR could not be read; carries the error.
    PrUnavailable(String),
    Found(PullRequest),
}

pub open spec fn mergeable_label(pr: PullRequest) -> Seq<char> {
    if pr_conflicting(pr) {
        "conflict"@
    } else if opt_is(pr.mergeable, "MERGEABLE"@) {
        "clean"@
    } else {
        "unknown"@
    }
}

pub open spec fn review_label(pr: PullRequest) -> Seq<char> {
    if opt_is(pr.review_decision, "APPROVED"@) {
        "approved"@
    } else if opt_is(pr.review_decision, "CHANGES_REQUESTED"@) {
        "changes"@
    } else {
        "none"@
    }
}

/// The outcome of the PR's checks; unknown when they could not be read.
pub open spec fn runs_outcome(runs: Option<Seq<CheckRun>>) -> ChecksOutcome {
    match runs {
        Some(r) => checks_outcome(r),
        None => ChecksOutcome::Unknown,
    }
}

/// The verdict on an open, non-draft PR, and whether it blocks landing.
pub open spec fn open_verdict(pr: PullRequest, outcome: ChecksOutcome) -> (Seq<char>, bool) {
    if pr_conflicting(pr) {
        ("conflict — run knit land update"@, true)
    } else if outcome == ChecksOutcome::Failed {
        ("checks failing"@, true)
    } else if outcome == ChecksOutcome::Pending {
        ("checks pending"@, true)
    } else if review_label(pr) == "changes"@ {
        ("changes requested"@, true)
    } else {
        ("ready"@, false)
    }
}

/// The PR is merged, closed or a draft: nothing more is assessed.
pub open spec fn settled_pr(pr: PullRequest) -> bool {
    pr_state(pr) == "MERGED"@ || pr_state(pr) == "CLOSED"@ || pr.is_draft == Some(true)
}

/// `r` shows nothing but the repo, the number from the URL, the state and
/// the verdict, and is blocked unless said otherwise.
pub open spec fn bare_row(r: LandReadiness, repo_id: Seq<char>, number: u64, state: Seq<char>, verdict: Seq<char>, blocked: bool) -> bool {
    &&& r.repo_id@ == repo_id
    &&& r.number == number
    &&& r.state@ == state
    &&& r.mergeable@ == "-"@
    &&& r.checks@ == "-"@
    &&& r.review@ == "-"@
    &&& r.verdict@ == verdict
    &&& r.blocked == blocked
}

/// Whether the checks of `pr` must be read to assess it.
pub fn readiness_needs_checks(pr: &PullRequest) -> (b: bool)
    ensures
        b == !settled_pr(*pr),
{
    proof {
        reveal_strlit("UNKNOWN");
        reveal_strlit("MERGED");
        reveal_strlit("CLOSED");
        assert("UNKNOWN"@.len() == 7 && "MERGED"@.len() == 6 && "CLOSED"@.len() == 6);
    }
    let merged = opt_str_is(&pr.state, "MERGED");
    let closed = opt_str_is(&pr.state, "CLOSED");
    let draft = match pr.is_draft {
        Some(d) => d,
        None => false,
    };
    !(merged || closed || draft)
}

fn text_of(s: &str) -> (out: String)
    ensures
        out@ == s@,
{
    string_from_chars(&chars_of(s))
}

fn prefixed(prefix: &str, s: &str) -> (out: String)
    ensures
        out@ == prefix@ + s@,
{
    let mut v: Vec<char> = Vec::new();
    append_str(&mut v, prefix);
    append_str(&mut v, s);
    string_from_chars(&v)
}

/// The readiness row of one publication: from what the host said about its
/// PR and, for an open non-draft PR, its check runs (`None` when they could
/// not be read). `url_number` is the PR number read from the publication
/// URL (0 when it has none).
pub fn assess_landing_readiness(repo_id: &str, url_number: u64, lookup: &PrLookup, runs: &Option<Vec<CheckRun>>) -> (r: LandReadiness)
    ensures
        match lookup {
            PrLookup::ProviderUnavailable(e) => bare_row(r, repo_id@, url_number, "?"@, "provider unavailable: "@ + e@, true),
            PrLookup::PrUnavailable(e) => bare_row(r, repo_id@, url_number, "?"@, "PR unavailable: "@ + e@, true),
            PrLookup::Found(pr) => if pr_state(*pr) == "MERGED"@ {
                bare_row(r, repo_id@, url_number, "MERGED"@, "already landed"@, false)
            } else if pr_state(*pr) == "CLOSED"@ {
                bare_row(r, repo_id@, url_number, "CLOSED"@, "closed"@, true)
            } else if pr.is_draft == Some(true) {
                bare_row(r, repo_id@, url_number, pr_state(*pr), "draft"@, true)
            } else {
                let outcome = runs_outcome(match runs {
                    Some(v) => Some(v@),
                    None => None,
                });
                &&& r.repo_id@ == repo_id@
                &&& r.number == pr.number
                &&& r.state@ == pr_state(*pr)
                &&& r.mergeable@ == mergeable_label(*pr)
                &&& r.checks@ == outcome_label(outcome)
                &&& r.review@ == review_label(*pr)
                &&& r.verdict@ == open_verdict(*pr, outcome).0
                &&& r.blocked == open_verdict(*pr, outcome).1
            },
        },
{
    proof {
        reveal_strlit("UNKNOWN");
        reveal_strlit("MERGED");
        reveal_strlit("CLOSED");
        reveal_strlit("changes");
        reveal_strlit("approved");
        reveal_strlit("none");
    }
    let pr = match lookup {
        PrLookup::ProviderUnavailable(e) => {
            return LandReadiness {
                repo_id: text_of(repo_id),
                number: url_number,
                state: text_of("?"),
                mergeable: text_of("-"),
                checks: text_of("-"),
                review: text_of("-"),
                verdict: prefixed("provider unavailable: ", e.as_str()),
                blocked: true,
            };
        },
        PrLookup::PrUnavailable(e) => {
            return LandReadiness {
                repo_id: text_of(repo_id),
                number: url_number,
                state: text_of("?"),
                mergeable: text_of("-"),
                checks: text_of("-"),
                review: text_of("-"),
                verdict: prefixed("PR unavailable: ", e.as_str()),
                blocked: true,
            };
        },
        PrLookup::Found(pr) => pr,
    };
    let state = match &pr.state {
        Some(s) => s.clone(),
        None => text_of("UNKNOWN"),
    };
    if str_eq(state.as_str(), "MERGED") {
        return LandReadiness {
            repo_id: text_of(repo_id),
            number: url_number,
            state,
            mergeable: text_of("-"),
            checks: text_of("-"),
            review: text_of("-"),
            verdict: text_of("already landed"),
            blocked: false,
        };
    }
    if str_eq(state.as_str(), "CLOSED") {
        return LandReadiness {
            repo_id: text_of(repo_id),
            number: url_number,
            state,
            mergeable: text_of("-"),
            checks: text_of("-"),
            review: text_of("-"),
            verdict: text_of("closed"),
            blocked: true,
        };
    }
    let draft = match pr.is_draft {
        Some(d) => d,
        None => false,
    };
    if draft {
        return LandReadiness {
            repo_id: text_of(repo_id),
            number: url_number,
            state,
            mergeable: text_of("-"),
            checks: text_of("-"),
            review: text_of("-"),
            verdict: text_of("draft"),
            blocked: true,
        };
    }
    let conflicting = is_conflicting(pr);
    let mergeable = if conflicting {
        "conflict"
    } else if opt_str_is(&pr.mergeable, "MERGEABLE") {
        "clean"
    } else {
        "unknown"
    };
    let review = if opt_str_is(&pr.review_decision, "APPROVED") {
        "approved"
    } else if opt_str_is(&pr.review_decision, "CHANGES_REQUESTED") {
        "changes"
    } else {
        "none"
    };
    let (checks, outcome) = match runs {
        Some(v) => checks_label(v),
        None => (text_of("unknown"), ChecksOutcome::Unknown),
    };
    let (verdict, blocked) = if conflicting {
        ("conflict — run knit land update", true)
    } else if outcome == ChecksOutcome::Failed {
        ("checks failing", true)
    } else if outcome == ChecksOutcome::Pending {
        ("checks pending", true)
    } else if str_eq(review, "changes") {
        ("changes requested", true)
    } else {
        ("ready", false)
    };
    LandReadiness {
        repo_id: text_of(repo_id),
        number: pr.number,
        state,
        mergeable: text_of(mergeable),
        checks,
        review: text_of(review),
        verdict: text_of(verdict),
        blocked,
    }
}

/// How a row counts in the tally: landed (merged), blocked, or ready.
pub open spec fn row_landed(r: LandReadiness) -> bool {
    r.state@ == "MERGED"@
}

pub open spec fn count_rows(rows: Seq<LandReadiness>, kind: int) -> nat
    decreases rows.len(),
{
    if rows.len() == 0 {
        0
    } else {
        let r = rows.last();
        let k = if row_landed(r) { 2int } else if r.blocked { 1int } else { 0int };
        count_rows(rows.drop_last(), kind) + (if k == kind { 1nat } else { 0nat })
    }
}

/// The tally of a readiness table: (ready, blocked, already landed).
pub fn readiness_tally(rows: &Vec<LandReadiness>) -> (t: (usize, usize, usize))
    ensures
        t.0 == count_rows(rows@, 0),
        t.1 == count_rows(rows@, 1),
        t.2 == count_rows(rows@, 2),
        t.0 + t.1 + t.2 == rows@.len(),
{
    let mut ready: usize = 0;
    let mut blocked: usize = 0;
    let mut landed: usize = 0;
    let mut i: usize = 0;
    while i < rows.len()
        invariant
            i <= rows@.len(),
            ready == count_rows(rows@.take(i as int), 0),
            blocked == count_rows(rows@.take(i as int), 1),
            landed == count_rows(rows@.take(i as int), 2),
            ready + blocked + landed == i,
        decreases rows.len() - i,
    {
        proof {
            assert(rows@.take(i + 1).drop_last() =~= rows@.take(i as int));
            assert(rows@.take(i + 1).last() == rows@[i as int]);
        }
        if str_eq(rows[i].state.as_str(), "MERGED") {
            landed += 1;
        } else if rows[i].blocked {
            blocked += 1;
        } else {
            ready += 1;
        }
        i += 1;
    }
    proof {
        assert(rows@.take(rows@.len() as int) =~= rows@);
    }
    (ready, blocked, landed)
}

/// The published repos of a bundle, each with its publication's URL, in
/// repo order.
pub fn landing_publications(b: &ChangeGroup) -> (out: Vec<(usize, String)>)
    ensures
        forall|k: int| 0 <= k < out@.len() ==> {
            let (i, url) = #[trigger] out@[k];
            &&& i < b.repos@.len()
            &&& exists|p: int| is_publication_index(*b, b.repos@[i as int].id@, p) && url@ == b.publications@[p].url@
        },
        forall|k: int, l: int| 0 <= k < l < out@.len() ==> #[trigger] out@[k].0 < #[trigger] out@[l].0,
        forall|i: int| 0 <= i < b.repos@.len() ==> (has_publication(*b, b.repos@[i].id@) <==> exists|k: int|
            0 <= k < out@.len() && #[trigger] out@[k].0 == i),
{
    let mut out: Vec<(usize, String)> = Vec::new();
    let mut i: usize = 0;
    while i < b.repos.len()
        invariant
            i <= b.repos@.len(),
            forall|k: int| 0 <= k < out@.len() ==> {
                let (j, url) = #[trigger] out@[k];
                &&& j < i
                &&& exists|p: int| is_publication_index(*b, b.repos@[j as int].id@, p) && url@ == b.publications@[p].url@
            },
            forall|k: int, l: int| 0 <= k < l < out@.len() ==> #[trigger] out@[k].0 < #[trigger] out@[l].0,
            forall|j: int| 0 <= j < i ==> (has_publication(*b, b.repos@[j].id@) <==> exists|k: int|
                0 <= k < out@.len() && #[trigger] out@[k].0 == j),
        decreases b.repos.len() - i,
    {
        let ghost prev = out@;
        match publication_for_repo(b, b.repos[i].id.as_str()) {
            Some(p) => {
                out.push((i, b.publications[p].url.clone()));
                proof {
                    assert(is_publication_index(*b, b.repos@[i as int].id@, p as int));
                    assert(has_publication(*b, b.repos@[i as int].id@));
                    assert forall|j: int| 0 <= j < i + 1 implies (has_publication(*b, b.repos@[j].id@) <==> exists|k: int|
                        0 <= k < out@.len() && #[trigger] out@[k].0 == j) by {
                        if j < i {
                            if exists|k: int| 0 <= k < prev.len() && #[trigger] prev[k].0 == j {
                                let k = choose|k: int| 0 <= k < prev.len() && #[trigger] prev[k].0 == j;
                                assert(out@[k].0 == j);
                            }
                            if exists|k: int| 0 <= k < out@.len() && #[trigger] out@[k].0 == j {
                                let k = choose|k: int| 0 <= k < out@.len() && #[trigger] out@[k].0 == j;
                                assert(k < prev.len());
                                assert(prev[k].0 == j);
                            }
                        } else {
                            assert(out@[prev.len() as int].0 == j);
                        }
                    }
                }
            },
            None => {
                proof {
                    assert forall|j: int| 0 <= j < i + 1 implies (has_publication(*b, b.repos@[j].id@) <==> exists|k: int|
                        0 <= k < out@.len() && #[trigger] out@[k].0 == j) by {
                        if j == i {
                            if exists|k: int| 0 <= k < out@.len() && #[trigger] out@[k].0 == j {
                                let k = choose|k: int| 0 <= k < out@.len() && #[trigger] out@[k].0 == j;
                                assert(out@[k].0 < i);
                            }
                        }
                    }
                }
            },
        }
        i += 1;
    }
    out
}

} // verus!
