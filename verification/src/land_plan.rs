//! Building the default land plan from a bundle and its project's landing
//! template (one merge step per recorded PR, then the project deployments),
//! and validating a plan's shape before it runs.
use vstd::prelude::*;

use crate::land_order::{ordered_step_ids, plan_is_orderable, PlanError};
use crate::land_run::{has_repo_id, required_repo_id};
use crate::land_types::{
    DeployCheckoutUpdate, DeployMode, LandCheckout, LandOnFailure, LandPlan, LandStep,
    LandStepKind, MergeMethod, DEFAULT_LAND_PROVIDER, LAND_PLAN_KIND, SCHEMA_VERSION,
};
use crate::model::{has_publication, publication_for_repo, ChangeGroup, RepoEntry};
use crate::text::{
    append_str, chars_of, contains_string, copy_strings, is_blank, str_eq, string_from_chars,
    strings_view, trim_seq,
};

verus! {

/// How a project merges its bundle PRs.
#[derive(Debug, Clone)]
pub struct ProjectLandingMergePlan {
    pub repo_order: Vec<String>,
    pub include_unlisted: Option<bool>,
    pub needs: Vec<(String, Vec<String>)>,
    pub method: Option<MergeMethod>,
    pub wait_for_checks: Option<bool>,
    pub required_checks_only: Option<bool>,
    pub delete_branch: Option<bool>,
    pub timeout_seconds: Option<u64>,
    pub interval_seconds: Option<u64>,
}

/// A deployment checkout named by the project template.
#[derive(Debug, Clone)]
pub struct ProjectDeployCheckout {
    pub branch: String,
    pub remote: Option<String>,
    pub update: Option<DeployCheckoutUpdate>,
}

/// One deployment of the project template.
#[derive(Debug, Clone)]
pub struct ProjectDeployment {
    pub id: String,
    pub repo_id: Option<String>,
    pub mode: Option<DeployMode>,
    pub needs: Vec<String>,
    pub cwd: Option<String>,
    pub command: Vec<String>,
    pub env: Vec<(String, String)>,
    pub checkout: Option<ProjectDeployCheckout>,
}

/// A project's landing template.
#[derive(Debug, Clone)]
pub struct ProjectLandingPlan {
    pub provider: Option<String>,
    pub merge: ProjectLandingMergePlan,
    pub deployments: Vec<ProjectDeployment>,
    pub on_failure: Option<LandOnFailure>,
    pub require_checks: Vec<String>,
}

pub open spec fn opt_bool_or(o: Option<bool>, d: bool) -> bool {
    match o {
        Some(b) => b,
        None => d,
    }
}

pub open spec fn opt_u64_or(o: Option<u64>, d: u64) -> u64 {
    match o {
        Some(b) => b,
        None => d,
    }
}

pub fn merge_method(merge: Option<&ProjectLandingMergePlan>) -> (m: MergeMethod)
    ensures
        m == (match merge {
            Some(p) => match p.method {
                Some(x) => x,
                None => MergeMethod::Merge,
            },
            None => MergeMethod::Merge,
        }),
{
    match merge {
        Some(p) => match p.method {
            Some(x) => x,
            None => MergeMethod::default_method(),
        },
        None => MergeMethod::default_method(),
    }
}

pub fn merge_wait_for_checks(merge: Option<&ProjectLandingMergePlan>) -> (b: bool)
    ensures
        b == (match merge {
            Some(p) => opt_bool_or(p.wait_for_checks, true),
            None => true,
        }),
{
    match merge {
        Some(p) => match p.wait_for_checks {
            Some(b) => b,
            None => true,
        },
        None => true,
    }
}

pub fn merge_required_checks_only(merge: Option<&ProjectLandingMergePlan>) -> (b: bool)
    ensures
        b == (match merge {
            Some(p) => opt_bool_or(p.required_checks_only, true),
            None => true,
        }),
{
    match merge {
        Some(p) => match p.required_checks_only {
            Some(b) => b,
            None => true,
        },
        None => true,
    }
}

pub fn merge_delete_branch(merge: Option<&ProjectLandingMergePlan>) -> (b: bool)
    ensures
        b == (match merge {
            Some(p) => opt_bool_or(p.delete_branch, false),
            None => false,
        }),
{
    match merge {
        Some(p) => match p.delete_branch {
            Some(b) => b,
            None => false,
        },
        None => false,
    }
}

pub fn merge_timeout_seconds(merge: Option<&ProjectLandingMergePlan>) -> (t: u64)
    ensures
        t == (match merge {
            Some(p) => opt_u64_or(p.timeout_seconds, 1800),
            None => 1800,
        }),
{
    match merge {
        Some(p) => match p.timeout_seconds {
            Some(t) => t,
            None => 1800,
        },
        None => 1800,
    }
}

pub fn merge_interval_seconds(merge: Option<&ProjectLandingMergePlan>) -> (t: u64)
    ensures
        t == (match merge {
            Some(p) => opt_u64_or(p.interval_seconds, 10),
            None => 10,
        }),
{
    match merge {
        Some(p) => match p.interval_seconds {
            Some(t) => t,
            None => 10,
        },
        None => 10,
    }
}

/// The repo ids of the bundle.
pub open spec fn repo_ids(repos: Seq<RepoEntry>) -> Seq<Seq<char>> {
    repos.map_values(|r: RepoEntry| r.id@)
}

/// Index of the first repo with id `x`, or -1.
pub open spec fn first_repo(repos: Seq<RepoEntry>, x: Seq<char>) -> int
    decreases repos.len(),
{
    if repos.len() == 0 {
        -1
    } else {
        let p = first_repo(repos.drop_last(), x);
        if p >= 0 {
            p
        } else if repos.last().id@ == x {
            repos.len() - 1
        } else {
            -1
        }
    }
}

/// The candidate repo positions: each listed repo (first match), in list
/// order, then every repo when unlisted repos are included.
pub open spec fn listed_candidates(repos: Seq<RepoEntry>, order: Seq<Seq<char>>) -> Seq<int>
    decreases order.len(),
{
    if order.len() == 0 {
        Seq::empty()
    } else {
        let p = listed_candidates(repos, order.drop_last());
        let i = first_repo(repos, order.last());
        if i >= 0 {
            p.push(i)
        } else {
            p
        }
    }
}

pub open spec fn all_positions(n: int) -> Seq<int> {
    Seq::new(n as nat, |i: int| i)
}

pub open spec fn include_unlisted(merge: Option<ProjectLandingMergePlan>) -> bool {
    match merge {
        Some(m) => opt_bool_or(m.include_unlisted, true),
        None => true,
    }
}

pub open spec fn merge_candidates(repos: Seq<RepoEntry>, merge: Option<ProjectLandingMergePlan>) -> Seq<int> {
    let listed = match merge {
        Some(m) => listed_candidates(repos, strings_view(m.repo_order@)),
        None => Seq::empty(),
    };
    if include_unlisted(merge) {
        listed + all_positions(repos.len() as int)
    } else {
        listed
    }
}

/// The candidates, keeping only the first position of each repo id.
pub open spec fn dedup_by_id(repos: Seq<RepoEntry>, cands: Seq<int>) -> Seq<int>
    decreases cands.len(),
{
    if cands.len() == 0 {
        Seq::empty()
    } else {
        let p = dedup_by_id(repos, cands.drop_last());
        let c = cands.last();
        if exists|j: int| 0 <= j < p.len() && repos[#[trigger] p[j]].id@ == repos[c].id@ {
            p
        } else {
            p.push(c)
        }
    }
}

/// The repos to merge, in merge order: listed repos first, then (unless the
/// template excludes them) the rest, each repo id once.
pub open spec fn merge_repo_order(repos: Seq<RepoEntry>, merge: Option<ProjectLandingMergePlan>) -> Seq<int> {
    dedup_by_id(repos, merge_candidates(repos, merge))
}

proof fn lemma_first_repo_found(repos: Seq<RepoEntry>, x: Seq<char>)
    ensures
        first_repo(repos, x) >= 0 ==> first_repo(repos, x) < repos.len() && repos[first_repo(repos, x)].id@ == x,
        first_repo(repos, x) >= -1,
    decreases repos.len(),
{
    if repos.len() > 0 {
        lemma_first_repo_found(repos.drop_last(), x);
    }
}

proof fn lemma_listed_candidates_listed(repos: Seq<RepoEntry>, order: Seq<Seq<char>>)
    ensures
        forall|t: int| 0 <= t < listed_candidates(repos, order).len() ==> {
            let c = #[trigger] listed_candidates(repos, order)[t];
            0 <= c < repos.len() && order.contains(repos[c].id@)
        },
    decreases order.len(),
{
    if order.len() > 0 {
        lemma_listed_candidates_listed(repos, order.drop_last());
        lemma_first_repo_found(repos, order.last());
        let p = listed_candidates(repos, order.drop_last());
        assert forall|t: int| 0 <= t < listed_candidates(repos, order).len() implies {
            let c = #[trigger] listed_candidates(repos, order)[t];
            0 <= c < repos.len() && order.contains(repos[c].id@)
        } by {
            if t < p.len() {
                let c = p[t];
                assert(listed_candidates(repos, order)[t] == c);
                assert(order.drop_last().contains(repos[c].id@));
                let k = choose|k: int| 0 <= k < order.drop_last().len() && order.drop_last()[k] == repos[c].id@;
                assert(order[k] == repos[c].id@);
            } else {
                assert(order[order.len() - 1] == order.last());
            }
        }
    }
}

/// Each candidate's repo id is kept.
proof fn lemma_dedup_covers(repos: Seq<RepoEntry>, cands: Seq<int>, k: int)
    requires
        0 <= k < cands.len(),
    ensures
        exists|j: int| 0 <= j < dedup_by_id(repos, cands).len() && repos[#[trigger] dedup_by_id(repos, cands)[j]].id@ == repos[cands[k]].id@,
    decreases cands.len(),
{
    let q = cands.drop_last();
    let p = dedup_by_id(repos, q);
    let c = cands.last();
    let d = dedup_by_id(repos, cands);
    assert(d == (if exists|j: int| 0 <= j < p.len() && repos[#[trigger] p[j]].id@ == repos[c].id@ { p } else { p.push(c) }));
    if k < q.len() {
        lemma_dedup_covers(repos, q, k);
        assert(cands[k] == q[k]);
        let j = choose|j: int| 0 <= j < p.len() && repos[#[trigger] p[j]].id@ == repos[q[k]].id@;
        assert(d[j] == p[j]);
    } else if exists|j: int| 0 <= j < p.len() && repos[#[trigger] p[j]].id@ == repos[c].id@ {
        let j = choose|j: int| 0 <= j < p.len() && repos[#[trigger] p[j]].id@ == repos[c].id@;
        assert(d[j] == p[j]);
    } else {
        assert(d[p.len() as int] == c);
    }
}

/// Every kept position is a candidate.
proof fn lemma_dedup_from_cands(repos: Seq<RepoEntry>, cands: Seq<int>, j: int)
    requires
        0 <= j < dedup_by_id(repos, cands).len(),
    ensures
        exists|k: int| 0 <= k < cands.len() && cands[k] == dedup_by_id(repos, cands)[j],
    decreases cands.len(),
{
    let q = cands.drop_last();
    let p = dedup_by_id(repos, q);
    let c = cands.last();
    let d = dedup_by_id(repos, cands);
    assert(d == (if exists|i: int| 0 <= i < p.len() && repos[#[trigger] p[i]].id@ == repos[c].id@ { p } else { p.push(c) }));
    if j < p.len() {
        lemma_dedup_from_cands(repos, q, j);
        let k = choose|k: int| 0 <= k < q.len() && q[k] == p[j];
        assert(cands[k] == q[k]);
        assert(d[j] == p[j]);
    } else {
        assert(cands[cands.len() - 1] == c);
    }
}

/// No repo id is kept twice.
proof fn lemma_dedup_distinct(repos: Seq<RepoEntry>, cands: Seq<int>)
    ensures
        forall|j1: int, j2: int| 0 <= j1 < j2 < dedup_by_id(repos, cands).len() ==> repos[#[trigger] dedup_by_id(repos, cands)[j1]].id@
            != repos[#[trigger] dedup_by_id(repos, cands)[j2]].id@,
    decreases cands.len(),
{
    if cands.len() > 0 {
        let q = cands.drop_last();
        lemma_dedup_distinct(repos, q);
        let p = dedup_by_id(repos, q);
        let c = cands.last();
        let d = dedup_by_id(repos, cands);
        assert(d == (if exists|i: int| 0 <= i < p.len() && repos[#[trigger] p[i]].id@ == repos[c].id@ { p } else { p.push(c) }));
        assert forall|j1: int, j2: int| 0 <= j1 < j2 < d.len() implies repos[#[trigger] d[j1]].id@ != repos[#[trigger] d[j2]].id@ by {
            assert(d[j1] == p[j1]);
            if j2 < p.len() {
                assert(d[j2] == p[j2]);
            }
        }
    }
}

proof fn lemma_candidates_in_range(repos: Seq<RepoEntry>, merge: Option<ProjectLandingMergePlan>, k: int)
    requires
        0 <= k < merge_candidates(repos, merge).len(),
    ensures
        0 <= merge_candidates(repos, merge)[k] < repos.len(),
{
    let listed = match merge {
        Some(m) => listed_candidates(repos, strings_view(m.repo_order@)),
        None => Seq::empty(),
    };
    let cands = merge_candidates(repos, merge);
    if k < listed.len() {
        let m = merge->0;
        lemma_listed_candidates_listed(repos, strings_view(m.repo_order@));
        assert(cands[k] == listed[k]);
    } else {
        assert(cands[k] == all_positions(repos.len() as int)[k - listed.len()]);
    }
}

proof fn lemma_order_in_range(repos: Seq<RepoEntry>, merge: Option<ProjectLandingMergePlan>, j: int)
    requires
        0 <= j < merge_repo_order(repos, merge).len(),
    ensures
        0 <= merge_repo_order(repos, merge)[j] < repos.len(),
{
    let cands = merge_candidates(repos, merge);
    lemma_dedup_from_cands(repos, cands, j);
    let k = choose|k: int| 0 <= k < cands.len() && cands[k] == dedup_by_id(repos, cands)[j];
    lemma_candidates_in_range(repos, merge, k);
}

proof fn lemma_order_covers(repos: Seq<RepoEntry>, merge: Option<ProjectLandingMergePlan>, i: int)
    requires
        0 <= i < repos.len(),
        include_unlisted(merge),
    ensures
        exists|j: int| 0 <= j < merge_repo_order(repos, merge).len() && repos[#[trigger] merge_repo_order(repos, merge)[j]].id@ == repos[i].id@,
{
    let listed = match merge {
        Some(m) => listed_candidates(repos, strings_view(m.repo_order@)),
        None => Seq::empty(),
    };
    let cands = merge_candidates(repos, merge);
    assert(cands == listed + all_positions(repos.len() as int));
    assert(cands[listed.len() + i] == i);
    lemma_dedup_covers(repos, cands, listed.len() + i);
    let d = dedup_by_id(repos, cands);
    assert(merge_repo_order(repos, merge) == d);
    let j = choose|j: int| 0 <= j < d.len() && repos[#[trigger] d[j]].id@ == repos[cands[listed.len() + i]].id@;
    assert(repos[merge_repo_order(repos, merge)[j]].id@ == repos[i].id@);
}

proof fn lemma_order_listed(repos: Seq<RepoEntry>, merge: Option<ProjectLandingMergePlan>, j: int)
    requires
        merge is Some,
        !include_unlisted(merge),
        0 <= j < merge_repo_order(repos, merge).len(),
    ensures
        strings_view(merge->0.repo_order@).contains(repos[merge_repo_order(repos, merge)[j]].id@),
{
    let m = merge->0;
    let listed = listed_candidates(repos, strings_view(m.repo_order@));
    let cands = merge_candidates(repos, merge);
    assert(cands == listed);
    lemma_listed_candidates_listed(repos, strings_view(m.repo_order@));
    lemma_dedup_from_cands(repos, cands, j);
    let k = choose|k: int| 0 <= k < cands.len() && cands[k] == dedup_by_id(repos, cands)[j];
    assert(listed[k] == cands[k]);
}

proof fn lemma_first_repo_present(repos: Seq<RepoEntry>, x: Seq<char>, i: int)
    requires
        0 <= i < repos.len(),
        repos[i].id@ == x,
    ensures
        first_repo(repos, x) >= 0,
    decreases repos.len(),
{
    if i < repos.len() - 1 {
        lemma_first_repo_present(repos.drop_last(), x, i);
    }
}

proof fn lemma_listed_candidates_has(repos: Seq<RepoEntry>, order: Seq<Seq<char>>, x: Seq<char>)
    requires
        order.contains(x),
        first_repo(repos, x) >= 0,
    ensures
        exists|t: int| 0 <= t < listed_candidates(repos, order).len() && listed_candidates(repos, order)[t] == first_repo(repos, x),
    decreases order.len(),
{
    let q = order.drop_last();
    let l = listed_candidates(repos, order);
    let p = listed_candidates(repos, q);
    if order.last() == x {
        assert(l[p.len() as int] == first_repo(repos, x));
    } else {
        let k = choose|k: int| 0 <= k < order.len() && order[k] == x;
        assert(k < q.len());
        assert(q[k] == x);
        lemma_listed_candidates_has(repos, q, x);
        let t = choose|t: int| 0 <= t < p.len() && p[t] == first_repo(repos, x);
        assert(l[t] == p[t]);
    }
}

/// Candidate `k` is the first candidate with its repo id.
pub open spec fn first_occurrence(repos: Seq<RepoEntry>, cands: Seq<int>, k: int) -> bool {
    0 <= k < cands.len() && forall|k2: int| 0 <= k2 < k ==> repos[#[trigger] cands[k2]].id@ != repos[cands[k]].id@
}

/// Position `x` is a candidate that is the first with its repo id.
pub open spec fn first_kept(repos: Seq<RepoEntry>, cands: Seq<int>, x: int) -> bool {
    exists|k: int| #[trigger] first_occurrence(repos, cands, k) && cands[k] == x
}

/// Each kept position is the first candidate with its id, and kept
/// positions keep the candidates' order.
proof fn lemma_dedup_first(repos: Seq<RepoEntry>, cands: Seq<int>)
    ensures
        forall|j: int| 0 <= j < dedup_by_id(repos, cands).len() ==> first_kept(repos, cands, #[trigger] dedup_by_id(repos, cands)[j]),
        forall|j1: int, j2: int, k1: int, k2: int|
            0 <= j1 < j2 < dedup_by_id(repos, cands).len() && #[trigger] first_occurrence(repos, cands, k1)
                && #[trigger] first_occurrence(repos, cands, k2) && cands[k1] == #[trigger] dedup_by_id(repos, cands)[j1]
                && cands[k2] == #[trigger] dedup_by_id(repos, cands)[j2] ==> k1 < k2,
    decreases cands.len(),
{
    if cands.len() > 0 {
        let q = cands.drop_last();
        lemma_dedup_first(repos, q);
        let p = dedup_by_id(repos, q);
        let c = cands.last();
        let n = q.len() as int;
        let d = dedup_by_id(repos, cands);
        let seen = exists|i: int| 0 <= i < p.len() && repos[#[trigger] p[i]].id@ == repos[c].id@;
        assert(d == (if seen { p } else { p.push(c) }));
        assert forall|j: int| 0 <= j < p.len() implies d[j] == p[j] by {}
        // A first occurrence in `cands` of a kept id of `p` lies in `q`.
        assert forall|j: int, k: int| 0 <= j < p.len() && first_occurrence(repos, cands, k) && cands[k] == p[j]
            implies k < n && first_occurrence(repos, q, k) by {
            lemma_dedup_from_cands(repos, q, j);
            let k0 = choose|k0: int| 0 <= k0 < q.len() && q[k0] == p[j];
            assert(cands[k0] == q[k0]);
            if k == n {
                assert(repos[cands[k0]].id@ == repos[cands[k]].id@);
            }
            assert forall|k2: int| 0 <= k2 < k implies repos[#[trigger] q[k2]].id@ != repos[q[k]].id@ by {
                assert(q[k2] == cands[k2]);
            }
        }
        assert forall|j: int| 0 <= j < d.len() implies first_kept(repos, cands, #[trigger] d[j]) by {
            if j < p.len() {
                assert(first_kept(repos, q, p[j]));
                let k = choose|k: int| #[trigger] first_occurrence(repos, q, k) && q[k] == p[j];
                assert(cands[k] == q[k]);
                assert forall|k2: int| 0 <= k2 < k implies repos[#[trigger] cands[k2]].id@ != repos[cands[k]].id@ by {
                    assert(q[k2] == cands[k2]);
                }
                assert(first_occurrence(repos, cands, k));
            } else {
                assert(!seen);
                assert(d[j] == c);
                assert forall|k2: int| 0 <= k2 < n implies repos[#[trigger] cands[k2]].id@ != repos[cands[n]].id@ by {
                    assert(cands[k2] == q[k2]);
                    if repos[cands[k2]].id@ == repos[c].id@ {
                        lemma_dedup_covers(repos, q, k2);
                    }
                }
                assert(first_occurrence(repos, cands, n));
            }
        }
        assert forall|j1: int, j2: int, k1: int, k2: int|
            0 <= j1 < j2 < d.len() && #[trigger] first_occurrence(repos, cands, k1)
                && #[trigger] first_occurrence(repos, cands, k2) && cands[k1] == #[trigger] d[j1] && cands[k2] == #[trigger] d[j2] implies k1 < k2 by {
            assert(d[j1] == p[j1]);
            assert(k1 < n && first_occurrence(repos, q, k1));
            if j2 < p.len() {
                assert(d[j2] == p[j2]);
                assert(k2 < n && first_occurrence(repos, q, k2));
                assert(q[k1] == cands[k1]);
                assert(q[k2] == cands[k2]);
            } else {
                assert(!seen);
                if k2 < n {
                    assert(repos[cands[k2]].id@ == repos[c].id@);
                    assert(cands[k2] == q[k2]);
                    lemma_dedup_covers(repos, q, k2);
                }
            }
        }
    }
}

/// In the merge order of a landing template, every repo the template lists
/// comes before every repo it does not list.
pub proof fn lemma_listed_first(repos: Seq<RepoEntry>, m: ProjectLandingMergePlan, j1: int, j2: int)
    requires
        0 <= j1 < merge_repo_order(repos, Some(m)).len(),
        0 <= j2 < merge_repo_order(repos, Some(m)).len(),
        strings_view(m.repo_order@).contains(repos[merge_repo_order(repos, Some(m))[j2]].id@),
        !strings_view(m.repo_order@).contains(repos[merge_repo_order(repos, Some(m))[j1]].id@),
    ensures
        j2 < j1,
{
    let merge = Some(m);
    let t = strings_view(m.repo_order@);
    let cands = merge_candidates(repos, merge);
    let listed = listed_candidates(repos, t);
    let d = merge_repo_order(repos, merge);
    assert(d == dedup_by_id(repos, cands));
    lemma_dedup_first(repos, cands);
    lemma_listed_candidates_listed(repos, t);
    lemma_order_in_range(repos, merge, j1);
    lemma_order_in_range(repos, merge, j2);
    assert(cands == (if include_unlisted(merge) { listed + all_positions(repos.len() as int) } else { listed }));
    assert forall|k: int| 0 <= k < listed.len() implies cands[k] == listed[k] by {}
    assert(first_kept(repos, cands, d[j1]));
    assert(first_kept(repos, cands, d[j2]));
    let k1 = choose|k: int| #[trigger] first_occurrence(repos, cands, k) && cands[k] == d[j1];
    let k2 = choose|k: int| #[trigger] first_occurrence(repos, cands, k) && cands[k] == d[j2];
    // The listed repo's id is among the listed candidates, so its first
    // occurrence is there too.
    let x = repos[d[j2]].id@;
    lemma_first_repo_present(repos, x, d[j2]);
    lemma_first_repo_found(repos, x);
    lemma_listed_candidates_has(repos, t, x);
    let tt = choose|tt: int| 0 <= tt < listed.len() && listed[tt] == first_repo(repos, x);
    assert(cands[tt] == listed[tt]);
    assert(repos[cands[tt]].id@ == x);
    if k2 > tt {
        assert(repos[cands[tt]].id@ != repos[cands[k2]].id@);
    }
    assert(k2 < listed.len());
    // The unlisted repo's id is not among the listed candidates.
    if k1 < listed.len() {
        assert(cands[k1] == listed[k1]);
        assert(t.contains(repos[listed[k1]].id@));
    }
    assert(k2 < k1);
    if j1 < j2 {
        assert(k1 < k2);
    }
    assert(j1 != j2);
}

/// The merge order of a bundle's repos names bundle repos only, no repo id
/// twice. Unless the landing template sets `includeUnlisted` to false
/// (unset means true, as does having no template), every bundle repo's id
/// is in it, so every repo is merged; when the template does set it to
/// false, only repos the template lists are.
#[verifier::rlimit(60)]
pub proof fn lemma_merge_order_covers_repos(repos: Seq<RepoEntry>, merge: Option<ProjectLandingMergePlan>)
    ensures
        forall|j: int| 0 <= j < merge_repo_order(repos, merge).len() ==> 0 <= #[trigger] merge_repo_order(repos, merge)[j]
            < repos.len(),
        forall|j1: int, j2: int| 0 <= j1 < j2 < merge_repo_order(repos, merge).len() ==> repos[#[trigger] merge_repo_order(repos, merge)[j1]].id@
            != repos[#[trigger] merge_repo_order(repos, merge)[j2]].id@,
        !(merge matches Some(m) && m.include_unlisted == Some(false)) ==> forall|i: int| 0 <= i < repos.len() ==> exists|j: int|
            0 <= j < merge_repo_order(repos, merge).len() && repos[#[trigger] merge_repo_order(repos, merge)[j]].id@ == (#[trigger] repos[i]).id@,
        (merge matches Some(m) && m.include_unlisted == Some(false)) ==> forall|j: int| 0 <= j < merge_repo_order(repos, merge).len()
            ==> strings_view(merge->0.repo_order@).contains(repos[#[trigger] merge_repo_order(repos, merge)[j]].id@),
{
    lemma_dedup_distinct(repos, merge_candidates(repos, merge));
    assert forall|j: int| 0 <= j < merge_repo_order(repos, merge).len() implies 0 <= #[trigger] merge_repo_order(repos, merge)[j]
        < repos.len() by {
        lemma_order_in_range(repos, merge, j);
    }
    if !(merge matches Some(m) && m.include_unlisted == Some(false)) {
        assert forall|i: int| 0 <= i < repos.len() implies exists|j: int|
            0 <= j < merge_repo_order(repos, merge).len() && repos[#[trigger] merge_repo_order(repos, merge)[j]].id@ == (#[trigger] repos[i]).id@ by {
            lemma_order_covers(repos, merge, i);
        }
    } else {
        assert forall|j: int| 0 <= j < merge_repo_order(repos, merge).len() implies strings_view(merge->0.repo_order@).contains(
            repos[#[trigger] merge_repo_order(repos, merge)[j]].id@) by {
            lemma_order_listed(repos, merge, j);
        }
    }
}

pub open spec fn usizes_view(v: Seq<usize>) -> Seq<int> {
    v.map_values(|x: usize| x as int)
}

fn first_repo_exec(repos: &Vec<RepoEntry>, x: &String) -> (r: Option<usize>)
    ensures
        match r {
            Some(i) => first_repo(repos@, x@) == i as int && i < repos@.len(),
            None => first_repo(repos@, x@) == -1,
        },
{
    let mut i: usize = 0;
    while i < repos.len()
        invariant
            i <= repos@.len(),
            first_repo(repos@.take(i as int), x@) == -1,
        decreases repos.len() - i,
    {
        proof {
            assert(repos@.take(i + 1).drop_last() =~= repos@.take(i as int));
        }
        if repos[i].id == *x {
            proof {
                lemma_first_repo_prefix(repos@, x@, i as int + 1);
            }
            return Some(i);
        }
        i += 1;
    }
    proof {
        assert(repos@.take(repos@.len() as int) =~= repos@);
    }
    None
}

/// Once found in a prefix, the first position stays put.
proof fn lemma_first_repo_prefix(repos: Seq<RepoEntry>, x: Seq<char>, n: int)
    requires
        0 <= n <= repos.len(),
        first_repo(repos.take(n), x) >= 0,
    ensures
        first_repo(repos, x) == first_repo(repos.take(n), x),
    decreases repos.len() - n,
{
    if n < repos.len() {
        assert(repos.take(n + 1).drop_last() =~= repos.take(n));
        lemma_first_repo_prefix(repos, x, n + 1);
    } else {
        assert(repos.take(n) =~= repos);
    }
}

/// The bundle repos to merge, as positions in `bundle.repos`.
pub fn ordered_merge_repos(bundle: &ChangeGroup, merge: Option<&ProjectLandingMergePlan>) -> (out: Vec<usize>)
    ensures
        usizes_view(out@) == merge_repo_order(bundle.repos@, match merge {
            Some(m) => Some(*m),
            None => None,
        }),
        forall|j: int| 0 <= j < out@.len() ==> out@[j] < bundle.repos@.len(),
{
    let ghost m = match merge {
        Some(m) => Some(*m),
        None => None::<ProjectLandingMergePlan>,
    };
    let repos = &bundle.repos;
    let mut cands: Vec<usize> = Vec::new();
    match merge {
        Some(mp) => {
            let mut k: usize = 0;
            while k < mp.repo_order.len()
                invariant
                    k <= mp.repo_order@.len(),
                    usizes_view(cands@) == listed_candidates(repos@, strings_view(mp.repo_order@).take(k as int)),
                    forall|j: int| 0 <= j < cands@.len() ==> cands@[j] < repos@.len(),
                decreases mp.repo_order.len() - k,
            {
                let ghost prev = cands@;
                proof {
                    assert(strings_view(mp.repo_order@).take(k + 1).drop_last() =~= strings_view(mp.repo_order@).take(k as int));
                    assert(strings_view(mp.repo_order@).take(k + 1).last() == mp.repo_order@[k as int]@);
                }
                match first_repo_exec(repos, &mp.repo_order[k]) {
                    Some(i) => {
                        cands.push(i);
                        proof {
                            assert(usizes_view(cands@) =~= usizes_view(prev).push(i as int));
                        }
                    },
                    None => {},
                }
                k += 1;
            }
            proof {
                assert(strings_view(mp.repo_order@).take(mp.repo_order@.len() as int) =~= strings_view(mp.repo_order@));
            }
        },
        None => {
            proof {
                assert(usizes_view(cands@) =~= Seq::<int>::empty());
            }
        },
    }
    let keep_unlisted = match merge {
        Some(mp) => match mp.include_unlisted {
            Some(b) => b,
            None => true,
        },
        None => true,
    };
    if keep_unlisted {
        let mut i: usize = 0;
        let ghost listed = usizes_view(cands@);
        while i < repos.len()
            invariant
                i <= repos@.len(),
                usizes_view(cands@) == listed + all_positions(i as int),
                forall|j: int| 0 <= j < cands@.len() ==> cands@[j] < repos@.len(),
            decreases repos.len() - i,
        {
            let ghost prev = cands@;
            cands.push(i);
            proof {
                assert(usizes_view(cands@) =~= usizes_view(prev).push(i as int));
                assert(all_positions(i + 1) =~= all_positions(i as int).push(i as int));
                assert(listed + all_positions(i + 1) =~= (listed + all_positions(i as int)).push(i as int));
            }
            i += 1;
        }
    }
    assert(usizes_view(cands@) == merge_candidates(repos@, m));
    let mut out: Vec<usize> = Vec::new();
    let mut c: usize = 0;
    while c < cands.len()
        invariant
            c <= cands@.len(),
            forall|j: int| 0 <= j < cands@.len() ==> cands@[j] < repos@.len(),
            forall|j: int| 0 <= j < out@.len() ==> out@[j] < repos@.len(),
            usizes_view(out@) == dedup_by_id(repos@, usizes_view(cands@).take(c as int)),
        decreases cands.len() - c,
    {
        let ghost prev = out@;
        let x = cands[c];
        proof {
            assert(usizes_view(cands@).take(c + 1).drop_last() =~= usizes_view(cands@).take(c as int));
            assert(usizes_view(cands@).take(c + 1).last() == x as int);
        }
        let mut seen = false;
        let mut j: usize = 0;
        while j < out.len()
            invariant
                j <= out@.len(),
                x < repos@.len(),
                forall|q: int| 0 <= q < out@.len() ==> out@[q] < repos@.len(),
                seen == exists|q: int| 0 <= q < j && repos@[out@[q] as int].id@ == repos@[x as int].id@,
            decreases out.len() - j,
        {
            if repos[out[j]].id == repos[x].id {
                seen = true;
            }
            j += 1;
        }
        proof {
            let p = usizes_view(prev);
            assert(seen == exists|q: int| 0 <= q < p.len() && repos@[#[trigger] p[q]].id@ == repos@[x as int].id@) by {
                if seen {
                    let q = choose|q: int| 0 <= q < out@.len() && repos@[out@[q] as int].id@ == repos@[x as int].id@;
                    assert(p[q] == out@[q] as int);
                }
                if exists|q: int| 0 <= q < p.len() && repos@[#[trigger] p[q]].id@ == repos@[x as int].id@ {
                    let q = choose|q: int| 0 <= q < p.len() && repos@[#[trigger] p[q]].id@ == repos@[x as int].id@;
                    assert(p[q] == out@[q] as int);
                }
            }
        }
        if !seen {
            out.push(x);
            proof {
                assert(usizes_view(out@) =~= usizes_view(prev).push(x as int));
            }
        }
        c += 1;
    }
    proof {
        assert(usizes_view(cands@).take(cands@.len() as int) =~= usizes_view(cands@));
    }
    out
}

/// Why the default plan cannot be built.
#[derive(Debug)]
pub enum PlanBuildError {
    UnsupportedProvider(String),
    NoSteps,
}

impl PlanBuildError {
    pub open spec fn text(&self) -> Seq<char> {
        match self {
            PlanBuildError::UnsupportedProvider(p) => "unsupported land provider `"@ + p@
                + "`. Supported: github, gitlab, forgejo."@,
            PlanBuildError::NoSteps => "No PR publications or project landing deployments are available for this bundle. Run `knit publish create` first or configure project landing deployments."@,
        }
    }

    pub fn message(&self) -> (out: String)
        ensures
            out@ == self.text(),
    {
        let mut v: Vec<char> = Vec::new();
        match self {
            PlanBuildError::UnsupportedProvider(p) => {
                append_str(&mut v, "unsupported land provider `");
                append_str(&mut v, p.as_str());
                append_str(&mut v, "`. Supported: github, gitlab, forgejo.");
            },
            PlanBuildError::NoSteps => {
                append_str(
                    &mut v,
                    "No PR publications or project landing deployments are available for this bundle. Run `knit publish create` first or configure project landing deployments.",
                );
            },
        }
        string_from_chars(&v)
    }
}

/// Code hosts that landing supports, by id or alias.
pub open spec fn provider_known(p: Seq<char>) -> bool {
    p == "github"@ || p == "gitlab"@ || p == "forgejo"@ || p == "codeberg"@ || p == "gitea"@
}

/// Refuses a provider that landing does not support.
pub fn ensure_provider(provider: &str) -> (r: Result<(), PlanBuildError>)
    ensures
        r is Ok <==> provider_known(provider@),
        match r {
            Err(PlanBuildError::UnsupportedProvider(p)) => p@ == provider@,
            Err(_) => false,
            Ok(()) => true,
        },
{
    if str_eq(provider, "github") || str_eq(provider, "gitlab") || str_eq(provider, "forgejo")
        || str_eq(provider, "codeberg") || str_eq(provider, "gitea") {
        Ok(())
    } else {
        Err(PlanBuildError::UnsupportedProvider(string_from_chars(&chars_of(provider))))
    }
}

/// Index of the first `(key, value)` pair with key `x`, or -1.
pub open spec fn first_key<V>(pairs: Seq<(String, V)>, x: Seq<char>) -> int
    decreases pairs.len(),
{
    if pairs.len() == 0 {
        -1
    } else {
        let p = first_key(pairs.drop_last(), x);
        if p >= 0 {
            p
        } else if pairs.last().0@ == x {
            pairs.len() - 1
        } else {
            -1
        }
    }
}

proof fn lemma_first_key_prefix<V>(pairs: Seq<(String, V)>, x: Seq<char>, n: int)
    requires
        0 <= n <= pairs.len(),
        first_key(pairs.take(n), x) >= 0,
    ensures
        first_key(pairs, x) == first_key(pairs.take(n), x),
    decreases pairs.len() - n,
{
    if n < pairs.len() {
        assert(pairs.take(n + 1).drop_last() =~= pairs.take(n));
        lemma_first_key_prefix(pairs, x, n + 1);
    } else {
        assert(pairs.take(n) =~= pairs);
    }
}

/// Position of the first pair whose key is `x`.
pub fn find_key<V>(pairs: &Vec<(String, V)>, x: &str) -> (r: Option<usize>)
    ensures
        match r {
            Some(i) => first_key(pairs@, x@) == i as int && i < pairs@.len(),
            None => first_key(pairs@, x@) == -1,
        },
{
    let mut i: usize = 0;
    while i < pairs.len()
        invariant
            i <= pairs@.len(),
            first_key(pairs@.take(i as int), x@) == -1,
        decreases pairs.len() - i,
    {
        proof {
            assert(pairs@.take(i + 1).drop_last() =~= pairs@.take(i as int));
        }
        if str_eq(pairs[i].0.as_str(), x) {
            proof {
                lemma_first_key_prefix(pairs@, x@, i as int + 1);
            }
            return Some(i);
        }
        i += 1;
    }
    proof {
        assert(pairs@.take(pairs@.len() as int) =~= pairs@);
    }
    None
}

/// The needs of a deployment that names none: the merge step of its repo,
/// else every merge step.
pub open spec fn default_needs_spec(
    repo_id: Option<Seq<char>>,
    merge_step_ids: Seq<(Seq<char>, Seq<char>)>,
    all_merge_ids: Seq<Seq<char>>,
) -> Seq<Seq<char>> {
    match repo_id {
        Some(r) => if first_key_view(merge_step_ids, r) >= 0 {
            seq![merge_step_ids[first_key_view(merge_step_ids, r)].1]
        } else {
            all_merge_ids
        },
        None => all_merge_ids,
    }
}

/// Index of the first pair with key `x`, or -1.
pub open spec fn first_key_view(pairs: Seq<(Seq<char>, Seq<char>)>, x: Seq<char>) -> int
    decreases pairs.len(),
{
    if pairs.len() == 0 {
        -1
    } else {
        let p = first_key_view(pairs.drop_last(), x);
        if p >= 0 {
            p
        } else if pairs.last().0 == x {
            pairs.len() - 1
        } else {
            -1
        }
    }
}

pub open spec fn pair_views(v: Seq<(String, String)>) -> Seq<(Seq<char>, Seq<char>)> {
    v.map_values(|p: (String, String)| (p.0@, p.1@))
}

proof fn lemma_first_key_views(pairs: Seq<(String, String)>, x: Seq<char>)
    ensures
        first_key_view(pair_views(pairs), x) == first_key(pairs, x),
    decreases pairs.len(),
{
    if pairs.len() > 0 {
        lemma_first_key_views(pairs.drop_last(), x);
        assert(pair_views(pairs).drop_last() =~= pair_views(pairs.drop_last()));
    }
}

/// The needs of a deployment that names none: the merge step of its repo
/// when there is one, else every merge step.
pub fn default_deployment_needs(
    repo_id: Option<&str>,
    merge_step_ids: &Vec<(String, String)>,
    all_merge_ids: &Vec<String>,
) -> (out: Vec<String>)
    ensures
        strings_view(out@) == default_needs_spec(
            match repo_id {
                Some(r) => Some(r@),
                None => None,
            },
            pair_views(merge_step_ids@),
            strings_view(all_merge_ids@),
        ),
{
    if let Some(r) = repo_id {
        proof {
            lemma_first_key_views(merge_step_ids@, r@);
        }
        if let Some(i) = find_key(merge_step_ids, r) {
            let mut out: Vec<String> = Vec::new();
            let v = merge_step_ids[i].1.clone();
            out.push(v);
            proof {
                assert(strings_view(out@) =~= seq![pair_views(merge_step_ids@)[i as int].1]);
            }
            return out;
        }
    }
    copy_strings(all_merge_ids)
}

pub open spec fn env_view(v: Seq<(String, String)>) -> Seq<(Seq<char>, Seq<char>)> {
    pair_views(v)
}

pub open spec fn opt_str_view(o: Option<String>) -> Option<Seq<char>> {
    match o {
        Some(s) => Some(s@),
        None => None,
    }
}

/// Owned copies of `(key, value)` string pairs.
pub fn copy_pairs(v: &Vec<(String, String)>) -> (out: Vec<(String, String)>)
    ensures
        pair_views(out@) == pair_views(v@),
{
    let mut out: Vec<(String, String)> = Vec::new();
    let mut i: usize = 0;
    while i < v.len()
        invariant
            i <= v@.len(),
            out@.len() == i,
            pair_views(out@) == pair_views(v@).take(i as int),
        decreases v.len() - i,
    {
        let ghost prev = out@;
        let pair = (v[i].0.clone(), v[i].1.clone());
        out.push(pair);
        proof {
            assert(pair_views(out@) =~= pair_views(prev).push((v@[i as int].0@, v@[i as int].1@)));
            assert(pair_views(v@).take(i + 1) =~= pair_views(v@).take(i as int).push((v@[i as int].0@, v@[i as int].1@)));
        }
        i += 1;
    }
    proof {
        assert(pair_views(v@).take(v@.len() as int) =~= pair_views(v@));
    }
    out
}

fn copy_opt_string(o: &Option<String>) -> (r: Option<String>)
    ensures
        opt_str_view(r) == opt_str_view(*o),
{
    match o {
        Some(s) => Some(s.clone()),
        None => None,
    }
}

/// A deployment applies when it names no repo or a repo the bundle tracks.
pub open spec fn deployment_applies(b: ChangeGroup, d: ProjectDeployment) -> bool {
    d.repo_id is None || repo_ids(b.repos@).contains(d.repo_id->0@)
}

/// The template deployments that apply to the bundle, in order.
pub open spec fn applicable_deployments(b: ChangeGroup, ds: Seq<ProjectDeployment>) -> Seq<ProjectDeployment>
    decreases ds.len(),
{
    if ds.len() == 0 {
        Seq::empty()
    } else {
        let p = applicable_deployments(b, ds.drop_last());
        if deployment_applies(b, ds.last()) {
            p.push(ds.last())
        } else {
            p
        }
    }
}

/// The `(repo id, step id)` pairs of the merge steps.
pub open spec fn merge_pairs_of(steps: Seq<LandStep>) -> Seq<(Seq<char>, Seq<char>)>
    decreases steps.len(),
{
    if steps.len() == 0 {
        Seq::empty()
    } else {
        let p = merge_pairs_of(steps.drop_last());
        let s = steps.last();
        if s.step_type == LandStepKind::MergePr && s.repo_id is Some {
            p.push((s.repo_id->0@, s.id@))
        } else {
            p
        }
    }
}

/// The ids of the merge steps.
pub open spec fn merge_ids_of(steps: Seq<LandStep>) -> Seq<Seq<char>>
    decreases steps.len(),
{
    if steps.len() == 0 {
        Seq::empty()
    } else {
        let p = merge_ids_of(steps.drop_last());
        if steps.last().step_type == LandStepKind::MergePr {
            p.push(steps.last().id@)
        } else {
            p
        }
    }
}

/// The deploy mode of a template deployment: its own, else command mode
/// when it has a command and push mode otherwise.
pub open spec fn deploy_mode_spec(mode: Option<DeployMode>, command_len: nat) -> DeployMode {
    match mode {
        Some(m) => m,
        None => if command_len == 0 {
            DeployMode::Push
        } else {
            DeployMode::Command
        },
    }
}

/// `s` is the plan step made from template deployment `d`.
pub open spec fn is_deploy_step(
    s: LandStep,
    d: ProjectDeployment,
    pairs: Seq<(Seq<char>, Seq<char>)>,
    all: Seq<Seq<char>>,
) -> bool {
    &&& s.id@ == d.id@
    &&& s.step_type == LandStepKind::Deploy
    &&& strings_view(s.needs@) == (if d.needs@.len() == 0 {
        default_needs_spec(opt_str_view(d.repo_id), pairs, all)
    } else {
        strings_view(d.needs@)
    })
    &&& opt_str_view(s.repo_id) == opt_str_view(d.repo_id)
    &&& s.method is None && s.wait_for_checks is None && s.required_checks_only is None
    &&& s.delete_branch is None && s.required_only is None && s.timeout_seconds is None
    &&& s.interval_seconds is None
    &&& opt_str_view(s.cwd) == opt_str_view(d.cwd)
    &&& strings_view(s.command@) == strings_view(d.command@)
    &&& env_view(s.env@) == env_view(d.env@)
    &&& s.deployment_mode == Some(deploy_mode_spec(d.mode, d.command@.len()))
    &&& match d.checkout {
        Some(c) => s.checkout is Some && s.checkout->0.branch@ == c.branch@ && opt_str_view(
            s.checkout->0.remote,
        ) == opt_str_view(c.remote) && s.checkout->0.update == c.update,
        None => s.checkout is None,
    }
}

fn merge_pairs_exec(steps: &Vec<LandStep>) -> (r: (Vec<(String, String)>, Vec<String>))
    ensures
        pair_views(r.0@) == merge_pairs_of(steps@),
        strings_view(r.1@) == merge_ids_of(steps@),
{
    let mut pairs: Vec<(String, String)> = Vec::new();
    let mut ids: Vec<String> = Vec::new();
    let mut i: usize = 0;
    while i < steps.len()
        invariant
            i <= steps@.len(),
            pair_views(pairs@) == merge_pairs_of(steps@.take(i as int)),
            strings_view(ids@) == merge_ids_of(steps@.take(i as int)),
        decreases steps.len() - i,
    {
        let ghost pp = pairs@;
        let ghost pi = ids@;
        proof {
            assert(steps@.take(i + 1).drop_last() =~= steps@.take(i as int));
        }
        let s = &steps[i];
        if s.step_type == LandStepKind::MergePr {
            let id = s.id.clone();
            ids.push(id);
            proof {
                assert(strings_view(ids@) =~= strings_view(pi).push(s.id@));
            }
            if let Some(r) = &s.repo_id {
                let pair = (r.clone(), s.id.clone());
                pairs.push(pair);
                proof {
                    assert(pair_views(pairs@) =~= pair_views(pp).push((r@, s.id@)));
                }
            }
        }
        i += 1;
    }
    proof {
        assert(steps@.take(steps@.len() as int) =~= steps@);
    }
    (pairs, ids)
}

/// Whether the bundle tracks a repo with id `x`.
pub fn tracks_repo(b: &ChangeGroup, x: &String) -> (r: bool)
    ensures
        r == repo_ids(b.repos@).contains(x@),
{
    let mut i: usize = 0;
    while i < b.repos.len()
        invariant
            i <= b.repos@.len(),
            forall|j: int| 0 <= j < i ==> b.repos@[j].id@ != x@,
        decreases b.repos.len() - i,
    {
        if b.repos[i].id == *x {
            proof {
                assert(repo_ids(b.repos@)[i as int] == x@);
            }
            return true;
        }
        i += 1;
    }
    proof {
        if repo_ids(b.repos@).contains(x@) {
            let j = choose|j: int| 0 <= j < repo_ids(b.repos@).len() && repo_ids(b.repos@)[j] == x@;
            assert(b.repos@[j].id@ == x@);
        }
    }
    false
}

fn deploy_step_from(d: &ProjectDeployment, pairs: &Vec<(String, String)>, all: &Vec<String>) -> (s: LandStep)
    ensures
        is_deploy_step(s, *d, pair_views(pairs@), strings_view(all@)),
{
    let mode = match d.mode {
        Some(m) => m,
        None => if d.command.len() == 0 {
            DeployMode::Push
        } else {
            DeployMode::Command
        },
    };
    let needs = if d.needs.len() == 0 {
        match &d.repo_id {
            Some(r) => default_deployment_needs(Some(r.as_str()), pairs, all),
            None => default_deployment_needs(None, pairs, all),
        }
    } else {
        copy_strings(&d.needs)
    };
    proof {
        assert(strings_view(d.needs@).len() == d.needs@.len());
    }
    let checkout = match &d.checkout {
        Some(c) => Some(
            LandCheckout { branch: c.branch.clone(), remote: copy_opt_string(&c.remote), update: c.update },
        ),
        None => None,
    };
    LandStep {
        id: d.id.clone(),
        step_type: LandStepKind::Deploy,
        needs,
        repo_id: copy_opt_string(&d.repo_id),
        method: None,
        wait_for_checks: None,
        required_checks_only: None,
        delete_branch: None,
        required_only: None,
        timeout_seconds: None,
        interval_seconds: None,
        cwd: copy_opt_string(&d.cwd),
        command: copy_strings(&d.command),
        env: copy_pairs(&d.env),
        deployment_mode: Some(mode),
        checkout,
    }
}

/// Appends the project's deployments that apply to this bundle, each needing
/// the steps it names or, by default, its repo's merge step (else every
/// merge step).
pub fn append_project_deployments(
    bundle: &ChangeGroup,
    landing: Option<&ProjectLandingPlan>,
    steps: &mut Vec<LandStep>,
)
    ensures
        match landing {
            None => final(steps)@ == old(steps)@,
            Some(l) => {
                let ds = applicable_deployments(*bundle, l.deployments@);
                &&& final(steps)@.len() == old(steps)@.len() + ds.len()
                &&& final(steps)@.take(old(steps)@.len() as int) == old(steps)@
                &&& forall|j: int|
                    0 <= j < ds.len() ==> is_deploy_step(
                        #[trigger] final(steps)@[old(steps)@.len() + j],
                        ds[j],
                        merge_pairs_of(old(steps)@),
                        merge_ids_of(old(steps)@),
                    )
            },
        },
{
    let l = match landing {
        Some(l) => l,
        None => return ,
    };
    let ghost start = steps@;
    let (pairs, all) = merge_pairs_exec(steps);
    let mut i: usize = 0;
    while i < l.deployments.len()
        invariant
            i <= l.deployments@.len(),
            pair_views(pairs@) == merge_pairs_of(start),
            strings_view(all@) == merge_ids_of(start),
            steps@.len() == start.len() + applicable_deployments(*bundle, l.deployments@.take(i as int)).len(),
            steps@.take(start.len() as int) == start,
            forall|j: int|
                0 <= j < applicable_deployments(*bundle, l.deployments@.take(i as int)).len() ==> is_deploy_step(
                    #[trigger] steps@[start.len() + j],
                    applicable_deployments(*bundle, l.deployments@.take(i as int))[j],
                    merge_pairs_of(start),
                    merge_ids_of(start),
                ),
        decreases l.deployments.len() - i,
    {
        let ghost prev = steps@;
        let d = &l.deployments[i];
        proof {
            assert(l.deployments@.take(i + 1).drop_last() =~= l.deployments@.take(i as int));
            assert(l.deployments@.take(i + 1).last() == *d);
        }
        let applies = match &d.repo_id {
            Some(r) => tracks_repo(bundle, r),
            None => true,
        };
        if applies {
            let s = deploy_step_from(d, &pairs, &all);
            steps.push(s);
            proof {
                assert(steps@.take(start.len() as int) =~= prev.take(start.len() as int));
            }
        }
        i += 1;
    }
    proof {
        assert(l.deployments@.take(l.deployments@.len() as int) =~= l.deployments@);
    }
}

pub open spec fn merge_method_spec(merge: Option<ProjectLandingMergePlan>) -> MergeMethod {
    match merge {
        Some(p) => match p.method {
            Some(x) => x,
            None => MergeMethod::Merge,
        },
        None => MergeMethod::Merge,
    }
}

pub open spec fn merge_flag(merge: Option<ProjectLandingMergePlan>, pick: spec_fn(ProjectLandingMergePlan) -> Option<bool>, d: bool) -> bool {
    match merge {
        Some(p) => opt_bool_or(pick(p), d),
        None => d,
    }
}

pub open spec fn merge_number(merge: Option<ProjectLandingMergePlan>, pick: spec_fn(ProjectLandingMergePlan) -> Option<u64>, d: u64) -> u64 {
    match merge {
        Some(p) => opt_u64_or(pick(p), d),
        None => d,
    }
}

/// The repo is listed in the template's merge order.
pub open spec fn is_listed(merge: Option<ProjectLandingMergePlan>, id: Seq<char>) -> bool {
    match merge {
        Some(m) => strings_view(m.repo_order@).contains(id),
        None => false,
    }
}

/// The needs the template names for the repo's merge step, if any.
pub open spec fn explicit_needs(merge: Option<ProjectLandingMergePlan>, id: Seq<char>) -> Option<Seq<Seq<char>>> {
    match merge {
        Some(m) => {
            let k = first_key(m.needs@, id);
            if k >= 0 {
                Some(strings_view(m.needs@[k].1@))
            } else {
                None
            }
        },
        None => None,
    }
}

/// The merge steps (id, needs, repo) for the repos at positions `pos`,
/// with the id of the last listed repo's step: a published repo gets a
/// step; its needs are the template's, else the previous listed step when
/// the repo is listed, else none.
pub open spec fn merge_plan(
    b: ChangeGroup,
    merge: Option<ProjectLandingMergePlan>,
    pos: Seq<int>,
) -> (Seq<(Seq<char>, Seq<Seq<char>>, Seq<char>)>, Option<Seq<char>>)
    decreases pos.len(),
{
    if pos.len() == 0 {
        (Seq::empty(), None)
    } else {
        let prev = merge_plan(b, merge, pos.drop_last());
        let repo = b.repos@[pos.last()];
        if !has_publication(b, repo.id@) {
            prev
        } else {
            let id = "merge-"@ + repo.id@;
            let listed = is_listed(merge, repo.id@);
            let needs = match explicit_needs(merge, repo.id@) {
                Some(n) => n,
                None => if listed {
                    match prev.1 {
                        Some(p) => seq![p],
                        None => Seq::empty(),
                    }
                } else {
                    Seq::empty()
                },
            };
            (prev.0.push((id, needs, repo.id@)), if listed {
                Some(id)
            } else {
                prev.1
            })
        }
    }
}

/// `s` is the merge step described by `t` under the template `merge`.
pub open spec fn is_merge_step(
    s: LandStep,
    t: (Seq<char>, Seq<Seq<char>>, Seq<char>),
    merge: Option<ProjectLandingMergePlan>,
) -> bool {
    &&& s.id@ == t.0
    &&& s.step_type == LandStepKind::MergePr
    &&& strings_view(s.needs@) == t.1
    &&& opt_str_view(s.repo_id) == Some(t.2)
    &&& s.method == Some(merge_method_spec(merge))
    &&& s.wait_for_checks == Some(merge_flag(merge, |p: ProjectLandingMergePlan| p.wait_for_checks, true))
    &&& s.required_checks_only == Some(merge_flag(merge, |p: ProjectLandingMergePlan| p.required_checks_only, true))
    &&& s.delete_branch == Some(merge_flag(merge, |p: ProjectLandingMergePlan| p.delete_branch, false))
    &&& s.required_only is None
    &&& s.timeout_seconds == Some(merge_number(merge, |p: ProjectLandingMergePlan| p.timeout_seconds, 1800))
    &&& s.interval_seconds == Some(merge_number(merge, |p: ProjectLandingMergePlan| p.interval_seconds, 10))
    &&& s.cwd is None && s.command@.len() == 0 && s.env@.len() == 0
    &&& s.deployment_mode is None && s.checkout is None
}

pub open spec fn landing_merge(landing: Option<ProjectLandingPlan>) -> Option<ProjectLandingMergePlan> {
    match landing {
        Some(l) => Some(l.merge),
        None => None,
    }
}

/// The provider a plan uses: the requested one, else the template's, else
/// the default.
pub open spec fn chosen_provider(requested: Option<Seq<char>>, landing: Option<ProjectLandingPlan>) -> Seq<char> {
    match requested {
        Some(p) => p,
        None => match landing {
            Some(l) => match l.provider {
                Some(p) => p@,
                None => DEFAULT_LAND_PROVIDER@,
            },
            None => DEFAULT_LAND_PROVIDER@,
        },
    }
}

/// `steps` are the merge steps for the bundle, then the template deployments.
pub open spec fn is_default_plan_steps(b: ChangeGroup, landing: Option<ProjectLandingPlan>, steps: Seq<LandStep>) -> bool {
    let merge = landing_merge(landing);
    let ms = merge_plan(b, merge, merge_repo_order(b.repos@, merge)).0;
    let n = ms.len();
    &&& n <= steps.len()
    &&& forall|j: int| 0 <= j < n ==> is_merge_step(#[trigger] steps[j], ms[j], merge)
    &&& match landing {
        None => steps.len() == n,
        Some(l) => {
            let ds = applicable_deployments(b, l.deployments@);
            &&& steps.len() == n + ds.len()
            &&& forall|j: int|
                0 <= j < ds.len() ==> is_deploy_step(
                    #[trigger] steps[n + j],
                    ds[j],
                    merge_pairs_of(steps.take(n as int)),
                    merge_ids_of(steps.take(n as int)),
                )
        },
    }
}

fn merge_step_for(repo_id: &String, needs: Vec<String>, merge: Option<&ProjectLandingMergePlan>) -> (s: LandStep)
    ensures
        s.id@ == "merge-"@ + repo_id@,
        strings_view(s.needs@) == strings_view(needs@),
        is_merge_step(s, ("merge-"@ + repo_id@, strings_view(needs@), repo_id@), match merge {
            Some(m) => Some(*m),
            None => None,
        }),
{
    let mut id: Vec<char> = Vec::new();
    append_str(&mut id, "merge-");
    append_str(&mut id, repo_id.as_str());
    LandStep {
        id: string_from_chars(&id),
        step_type: LandStepKind::MergePr,
        needs,
        repo_id: Some(repo_id.clone()),
        method: Some(merge_method(merge)),
        wait_for_checks: Some(merge_wait_for_checks(merge)),
        required_checks_only: Some(merge_required_checks_only(merge)),
        delete_branch: Some(merge_delete_branch(merge)),
        required_only: None,
        timeout_seconds: Some(merge_timeout_seconds(merge)),
        interval_seconds: Some(merge_interval_seconds(merge)),
        cwd: None,
        command: Vec::new(),
        env: Vec::new(),
        deployment_mode: None,
        checkout: None,
    }
}

/// The merge steps of the default plan.
fn default_merge_steps(bundle: &ChangeGroup, merge: Option<&ProjectLandingMergePlan>) -> (steps: Vec<LandStep>)
    ensures
        ({
            let m = match merge {
                Some(m) => Some(*m),
                None => None,
            };
            let ms = merge_plan(*bundle, m, merge_repo_order(bundle.repos@, m)).0;
            &&& steps@.len() == ms.len()
            &&& forall|j: int| 0 <= j < ms.len() ==> is_merge_step(#[trigger] steps@[j], ms[j], m)
        }),
{
    let ghost m = match merge {
        Some(m) => Some(*m),
        None => None::<ProjectLandingMergePlan>,
    };
    let order = ordered_merge_repos(bundle, merge);
    let mut steps: Vec<LandStep> = Vec::new();
    let mut prev: Option<String> = None;
    let mut k: usize = 0;
    while k < order.len()
        invariant
            k <= order@.len(),
            forall|j: int| 0 <= j < order@.len() ==> order@[j] < bundle.repos@.len(),
            usizes_view(order@) == merge_repo_order(bundle.repos@, m),
            m == (match merge {
                Some(mm) => Some(*mm),
                None => None::<ProjectLandingMergePlan>,
            }),
            merge_plan(*bundle, m, usizes_view(order@).take(k as int)).0.len() == steps@.len(),
            merge_plan(*bundle, m, usizes_view(order@).take(k as int)).1 == opt_str_view(prev),
            forall|j: int| 0 <= j < steps@.len() ==> is_merge_step(
                #[trigger] steps@[j],
                merge_plan(*bundle, m, usizes_view(order@).take(k as int)).0[j],
                m,
            ),
        decreases order.len() - k,
    {
        let ghost pos = usizes_view(order@).take(k + 1);
        proof {
            assert(pos.drop_last() =~= usizes_view(order@).take(k as int));
            assert(pos.last() == order@[k as int] as int);
        }
        let repo = &bundle.repos[order[k]];
        if publication_for_repo(bundle, repo.id.as_str()).is_some() {
            let listed = match merge {
                Some(mp) => contains_string(&mp.repo_order, &repo.id),
                None => false,
            };
            let needs: Vec<String> = match merge {
                Some(mp) => match find_key(&mp.needs, repo.id.as_str()) {
                    Some(i) => copy_strings(&mp.needs[i].1),
                    None => {
                        let mut n: Vec<String> = Vec::new();
                        if listed {
                            if let Some(p) = &prev {
                                n.push(p.clone());
                            }
                        }
                        proof {
                            if listed && prev is Some {
                                assert(strings_view(n@) =~= seq![prev->0@]);
                            } else {
                                assert(strings_view(n@) =~= Seq::<Seq<char>>::empty());
                            }
                        }
                        n
                    },
                },
                None => Vec::new(),
            };
            proof {
                if merge is None {
                    assert(strings_view(needs@) =~= Seq::<Seq<char>>::empty());
                }
            }
            let step = merge_step_for(&repo.id, needs, merge);
            let new_prev = if listed {
                Some(step.id.clone())
            } else {
                prev
            };
            steps.push(step);
            prev = new_prev;
        }
        k += 1;
    }
    proof {
        assert(usizes_view(order@).take(order@.len() as int) =~= usizes_view(order@));
    }
    steps
}

/// Builds the default land plan: one merge step per repo with a recorded
/// publication (in the template's merge order), then the template's
/// deployments that apply to the bundle.
pub fn build_default_plan(
    bundle: &ChangeGroup,
    project_id: Option<&str>,
    landing: Option<&ProjectLandingPlan>,
    requested_provider: Option<&str>,
    target_branch: Option<&str>,
    now: &str,
) -> (r: Result<LandPlan, PlanBuildError>)
    ensures
        ({
            let l = match landing {
                Some(l) => Some(*l),
                None => None,
            };
            let provider = chosen_provider(
                match requested_provider {
                    Some(p) => Some(p@),
                    None => None,
                },
                l,
            );
            match r {
                Ok(plan) => {
                    &&& provider_known(provider)
                    &&& plan.steps@.len() > 0
                    &&& is_default_plan_steps(*bundle, l, plan.steps@)
                    &&& plan.schema_version@ == SCHEMA_VERSION@
                    &&& plan.kind@ == LAND_PLAN_KIND@
                    &&& plan.id@ == "land-"@ + bundle.id@
                    &&& plan.provider@ == provider
                    &&& plan.bundle_id@ == bundle.id@
                    &&& opt_str_view(plan.source_project_id) == (match project_id {
                        Some(p) => Some(p@),
                        None => None,
                    })
                    &&& plan.created_at@ == now@
                    &&& plan.on_failure == (match l {
                        Some(x) => x.on_failure,
                        None => None,
                    })
                    &&& opt_str_view(plan.target_branch) == (match target_branch {
                        Some(t) => Some(t@),
                        None => None,
                    })
                    &&& strings_view(plan.require_checks@) == (match l {
                        Some(x) => strings_view(x.require_checks@),
                        None => Seq::empty(),
                    })
                },
                Err(PlanBuildError::UnsupportedProvider(p)) => !provider_known(provider) && p@ == provider,
                Err(PlanBuildError::NoSteps) => provider_known(provider) && forall|steps: Seq<LandStep>|
                    is_default_plan_steps(*bundle, l, steps) ==> steps.len() == 0,
            }
        }),
{
    let provider: String = match requested_provider {
        Some(p) => string_from_chars(&chars_of(p)),
        None => match landing {
            Some(l) => match &l.provider {
                Some(p) => p.clone(),
                None => string_from_chars(&chars_of(DEFAULT_LAND_PROVIDER)),
            },
            None => string_from_chars(&chars_of(DEFAULT_LAND_PROVIDER)),
        },
    };
    match ensure_provider(provider.as_str()) {
        Ok(()) => {},
        Err(e) => return Err(e),
    }
    let merge = match landing {
        Some(l) => Some(&l.merge),
        None => None,
    };
    let mut steps = default_merge_steps(bundle, merge);
    let ghost merge_steps = steps@;
    append_project_deployments(bundle, landing, &mut steps);
    proof {
        let l = match landing {
            Some(l) => Some(*l),
            None => None::<ProjectLandingPlan>,
        };
        let n = merge_steps.len();
        assert(steps@.take(n as int) == merge_steps);
        assert forall|j: int| 0 <= j < n implies is_merge_step(
            #[trigger] steps@[j],
            merge_plan(*bundle, landing_merge(l), merge_repo_order(bundle.repos@, landing_merge(l))).0[j],
            landing_merge(l),
        ) by {
            assert(steps@[j] == steps@.take(n as int)[j]);
        }
        assert(is_default_plan_steps(*bundle, l, steps@));
        assert forall|other: Seq<LandStep>| is_default_plan_steps(*bundle, l, other) implies other.len()
            == steps@.len() by {}
    }
    if steps.len() == 0 {
        return Err(PlanBuildError::NoSteps);
    }
    let mut id: Vec<char> = Vec::new();
    append_str(&mut id, "land-");
    append_str(&mut id, bundle.id.as_str());
    let require_checks = match landing {
        Some(l) => copy_strings(&l.require_checks),
        None => Vec::new(),
    };
    proof {
        if landing is None {
            assert(strings_view(require_checks@) =~= Seq::<Seq<char>>::empty());
        }
    }
    Ok(LandPlan {
        schema_version: string_from_chars(&chars_of(SCHEMA_VERSION)),
        kind: string_from_chars(&chars_of(LAND_PLAN_KIND)),
        id: string_from_chars(&id),
        provider,
        bundle_id: bundle.id.clone(),
        source_project_id: match project_id {
            Some(p) => Some(string_from_chars(&chars_of(p))),
            None => None,
        },
        created_at: string_from_chars(&chars_of(now)),
        on_failure: match landing {
            Some(l) => l.on_failure,
            None => None,
        },
        target_branch: match target_branch {
            Some(t) => Some(string_from_chars(&chars_of(t))),
            None => None,
        },
        require_checks,
        steps,
    })
}

/// Why a land plan does not fit the bundle or is malformed.
#[derive(Debug)]
pub enum PlanCheckError {
    SchemaVersion { found: String },
    Kind { found: String },
    WrongBundle { plan: String, resolved: String },
    Provider(PlanBuildError),
    Order(PlanError),
    MissingRepoId { step: String },
    RunWithoutCommand { step: String },
    DeployWithoutCommand { step: String },
    PushWithCommand { step: String },
    EmptyCheckoutBranch { step: String },
    Path(String),
}

impl PlanCheckError {
    pub open spec fn text(&self) -> Seq<char> {
        match self {
            PlanCheckError::SchemaVersion { found } => "Land plan schemaVersion must be `"@ + SCHEMA_VERSION@
                + "`, found `"@ + found@ + "`."@,
            PlanCheckError::Kind { found } => "Land plan kind must be `"@ + LAND_PLAN_KIND@ + "`, found `"@
                + found@ + "`."@,
            PlanCheckError::WrongBundle { plan, resolved } => "Land plan belongs to bundle "@ + plan@
                + ", but resolved bundle is "@ + resolved@ + "."@,
            PlanCheckError::Provider(e) => e.text(),
            PlanCheckError::Order(e) => e.text(),
            PlanCheckError::MissingRepoId { step } => "step `"@ + step@ + "` must provide repoId"@,
            PlanCheckError::RunWithoutCommand { step } => "run step `"@ + step@ + "` must provide command"@,
            PlanCheckError::DeployWithoutCommand { step } => "deploy step `"@ + step@
                + "` must provide command"@,
            PlanCheckError::PushWithCommand { step } => "deploy step `"@ + step@
                + "` uses push mode and must not provide command"@,
            PlanCheckError::EmptyCheckoutBranch { step } => "deploy step `"@ + step@
                + "` checkout branch must not be empty"@,
            PlanCheckError::Path(m) => m@,
        }
    }

    pub fn message(&self) -> (out: String)
        ensures
            out@ == self.text(),
    {
        let mut v: Vec<char> = Vec::new();
        match self {
            PlanCheckError::SchemaVersion { found } => {
                append_str(&mut v, "Land plan schemaVersion must be `");
                append_str(&mut v, SCHEMA_VERSION);
                append_str(&mut v, "`, found `");
                append_str(&mut v, found.as_str());
                append_str(&mut v, "`.");
            },
            PlanCheckError::Kind { found } => {
                append_str(&mut v, "Land plan kind must be `");
                append_str(&mut v, LAND_PLAN_KIND);
                append_str(&mut v, "`, found `");
                append_str(&mut v, found.as_str());
                append_str(&mut v, "`.");
            },
            PlanCheckError::WrongBundle { plan, resolved } => {
                append_str(&mut v, "Land plan belongs to bundle ");
                append_str(&mut v, plan.as_str());
                append_str(&mut v, ", but resolved bundle is ");
                append_str(&mut v, resolved.as_str());
                append_str(&mut v, ".");
            },
            PlanCheckError::Provider(e) => return e.message(),
            PlanCheckError::Order(e) => return e.message(),
            PlanCheckError::MissingRepoId { step } => {
                append_str(&mut v, "step `");
                append_str(&mut v, step.as_str());
                append_str(&mut v, "` must provide repoId");
            },
            PlanCheckError::RunWithoutCommand { step } => {
                append_str(&mut v, "run step `");
                append_str(&mut v, step.as_str());
                append_str(&mut v, "` must provide command");
            },
            PlanCheckError::DeployWithoutCommand { step } => {
                append_str(&mut v, "deploy step `");
                append_str(&mut v, step.as_str());
                append_str(&mut v, "` must provide command");
            },
            PlanCheckError::PushWithCommand { step } => {
                append_str(&mut v, "deploy step `");
                append_str(&mut v, step.as_str());
                append_str(&mut v, "` uses push mode and must not provide command");
            },
            PlanCheckError::EmptyCheckoutBranch { step } => {
                append_str(&mut v, "deploy step `");
                append_str(&mut v, step.as_str());
                append_str(&mut v, "` checkout branch must not be empty");
            },
            PlanCheckError::Path(m) => {
                append_str(&mut v, m.as_str());
            },
        }
        string_from_chars(&v)
    }
}

/// The first problem of a step, as a code: 0 none, 1 missing repo id,
/// 2 run step without command, 3 the working-directory problem reported for
/// the step, 4 command-mode deploy without command, 5 push-mode deploy with
/// a command, 6 blank checkout branch.
pub open spec fn step_issue(step: LandStep, path_problem: Option<String>) -> int {
    match step.step_type {
        LandStepKind::MergePr | LandStepKind::WaitChecks => if has_repo_id(step) {
            0
        } else {
            1
        },
        LandStepKind::Run => if step.command@.len() == 0 {
            2
        } else if path_problem is Some {
            3
        } else {
            0
        },
        LandStepKind::Deploy => if !has_repo_id(step) {
            1
        } else {
            let mode = deploy_mode_spec(step.deployment_mode, step.command@.len());
            if mode == DeployMode::Command && step.command@.len() == 0 {
                4
            } else if mode == DeployMode::Push && step.command@.len() > 0 {
                5
            } else {
                match step.checkout {
                    Some(c) => if trim_seq(c.branch@).len() == 0 {
                        6
                    } else {
                        0
                    },
                    None => if step.cwd is Some && path_problem is Some {
                        3
                    } else {
                        0
                    },
                }
            }
        },
    }
}

/// The error a step issue is reported as.
pub open spec fn issue_matches(e: PlanCheckError, code: int, step: LandStep, path_problem: Option<String>) -> bool {
    match e {
        PlanCheckError::MissingRepoId { step: s } => code == 1 && s@ == step.id@,
        PlanCheckError::RunWithoutCommand { step: s } => code == 2 && s@ == step.id@,
        PlanCheckError::Path(m) => code == 3 && path_problem is Some && m@ == path_problem->0@,
        PlanCheckError::DeployWithoutCommand { step: s } => code == 4 && s@ == step.id@,
        PlanCheckError::PushWithCommand { step: s } => code == 5 && s@ == step.id@,
        PlanCheckError::EmptyCheckoutBranch { step: s } => code == 6 && s@ == step.id@,
        _ => false,
    }
}

fn check_step(step: &LandStep, path_problem: &Option<String>) -> (r: Result<(), PlanCheckError>)
    ensures
        match r {
            Ok(()) => step_issue(*step, *path_problem) == 0,
            Err(e) => step_issue(*step, *path_problem) != 0 && issue_matches(e, step_issue(*step, *path_problem), *step, *path_problem),
        },
{
    match step.step_type {
        LandStepKind::MergePr | LandStepKind::WaitChecks => {
            match required_repo_id(step) {
                Ok(_) => Ok(()),
                Err(_) => Err(PlanCheckError::MissingRepoId { step: step.id.clone() }),
            }
        },
        LandStepKind::Run => {
            if step.command.len() == 0 {
                return Err(PlanCheckError::RunWithoutCommand { step: step.id.clone() });
            }
            match path_problem {
                Some(m) => Err(PlanCheckError::Path(m.clone())),
                None => Ok(()),
            }
        },
        LandStepKind::Deploy => {
            match required_repo_id(step) {
                Ok(_) => {},
                Err(_) => return Err(PlanCheckError::MissingRepoId { step: step.id.clone() }),
            }
            let mode = match step.deployment_mode {
                Some(m) => m,
                None => if step.command.len() == 0 {
                    DeployMode::Push
                } else {
                    DeployMode::Command
                },
            };
            if mode == DeployMode::Command && step.command.len() == 0 {
                return Err(PlanCheckError::DeployWithoutCommand { step: step.id.clone() });
            }
            if mode == DeployMode::Push && step.command.len() > 0 {
                return Err(PlanCheckError::PushWithCommand { step: step.id.clone() });
            }
            match &step.checkout {
                Some(c) => {
                    if is_blank(c.branch.as_str()) {
                        return Err(PlanCheckError::EmptyCheckoutBranch { step: step.id.clone() });
                    }
                    Ok(())
                },
                None => {
                    if step.cwd.is_some() {
                        match path_problem {
                            Some(m) => return Err(PlanCheckError::Path(m.clone())),
                            None => {},
                        }
                    }
                    Ok(())
                },
            }
        },
    }
}

/// The plan file's header fits the bundle it is applied to.
pub open spec fn header_ok(bundle_id: Seq<char>, plan: LandPlan) -> bool {
    plan.schema_version@ == SCHEMA_VERSION@ && plan.kind@ == LAND_PLAN_KIND@ && plan.bundle_id@ == bundle_id
        && provider_known(plan.provider@)
}

/// Validates a land plan against the resolved bundle. `path_problems[i]`
/// is the working-directory error found for step `i` (a run step's cwd, or
/// a deploy step's cwd inside its checkout), if any; it is reported only
/// where the plan's checks reach it, in step order.
pub fn validate_plan_for_bundle(
    bundle_id: &str,
    plan: &LandPlan,
    path_problems: &Vec<Option<String>>,
) -> (r: Result<(), PlanCheckError>)
    requires
        path_problems@.len() == plan.steps@.len(),
    ensures
        r is Ok <==> (header_ok(bundle_id@, *plan) && plan_is_orderable(plan.steps@) && forall|i: int|
            0 <= i < plan.steps@.len() ==> step_issue(plan.steps@[i], path_problems@[i]) == 0),
        match r {
            Ok(()) => true,
            Err(PlanCheckError::SchemaVersion { found }) => plan.schema_version@ != SCHEMA_VERSION@
                && found@ == plan.schema_version@,
            Err(PlanCheckError::Kind { found }) => plan.schema_version@ == SCHEMA_VERSION@
                && plan.kind@ != LAND_PLAN_KIND@ && found@ == plan.kind@,
            Err(PlanCheckError::WrongBundle { plan: p, resolved }) => plan.schema_version@
                == SCHEMA_VERSION@ && plan.kind@ == LAND_PLAN_KIND@ && plan.bundle_id@ != bundle_id@ && p@
                == plan.bundle_id@ && resolved@ == bundle_id@,
            Err(PlanCheckError::Provider(PlanBuildError::UnsupportedProvider(p))) => plan.schema_version@
                == SCHEMA_VERSION@ && plan.kind@ == LAND_PLAN_KIND@ && plan.bundle_id@ == bundle_id@
                && !provider_known(plan.provider@) && p@ == plan.provider@,
            Err(PlanCheckError::Order(_)) => header_ok(bundle_id@, *plan) && !plan_is_orderable(plan.steps@),
            Err(e) => header_ok(bundle_id@, *plan) && plan_is_orderable(plan.steps@) && exists|i: int|
                0 <= i < plan.steps@.len() && step_issue(plan.steps@[i], path_problems@[i]) != 0
                    && issue_matches(e, step_issue(plan.steps@[i], path_problems@[i]), plan.steps@[i], path_problems@[i])
                    && forall|j: int| 0 <= j < i ==> step_issue(plan.steps@[j], path_problems@[j]) == 0,
        },
{
    if !str_eq(plan.schema_version.as_str(), SCHEMA_VERSION) {
        return Err(PlanCheckError::SchemaVersion { found: plan.schema_version.clone() });
    }
    if !str_eq(plan.kind.as_str(), LAND_PLAN_KIND) {
        return Err(PlanCheckError::Kind { found: plan.kind.clone() });
    }
    if !str_eq(plan.bundle_id.as_str(), bundle_id) {
        return Err(
            PlanCheckError::WrongBundle {
                plan: plan.bundle_id.clone(),
                resolved: string_from_chars(&chars_of(bundle_id)),
            },
        );
    }
    match ensure_provider(plan.provider.as_str()) {
        Ok(()) => {},
        Err(e) => return Err(PlanCheckError::Provider(e)),
    }
    match ordered_step_ids(&plan.steps) {
        Ok(_) => {},
        Err(e) => return Err(PlanCheckError::Order(e)),
    }
    let mut i: usize = 0;
    while i < plan.steps.len()
        invariant
            i <= plan.steps@.len(),
            path_problems@.len() == plan.steps@.len(),
            header_ok(bundle_id@, *plan),
            plan_is_orderable(plan.steps@),
            forall|j: int| 0 <= j < i ==> step_issue(plan.steps@[j], path_problems@[j]) == 0,
        decreases plan.steps.len() - i,
    {
        match check_step(&plan.steps[i], &path_problems[i]) {
            Ok(()) => {},
            Err(e) => {
                return Err(e);
            },
        }
        i += 1;
    }
    Ok(())
}

} // verus!
