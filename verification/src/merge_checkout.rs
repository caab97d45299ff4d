//! `knit merge`: the refs a merge takes from its source, the checkout of the
//! target it works in, and what the merged heads do to a target bundle.
use vstd::prelude::*;

use crate::merge_run::MergeStepRecord;
use crate::model::{opt_view, ChangeGroup, RepoEntry};
use crate::text::{append_str, chars_of, str_eq, string_from_chars, trim_chars, trim_seq};

verus! {

/// What git reports before a target checkout is prepared.
pub struct MergeCheckoutProbe {
    /// The merge worktree's path exists.
    pub path_exists: bool,
    /// That path is a git worktree.
    pub is_worktree: bool,
    /// The branch checked out there (none when detached).
    pub worktree_branch: Option<String>,
    /// The target branch exists in the repo.
    pub branch_exists: bool,
    /// The ref the branch would be created from exists.
    pub base_ref_exists: bool,
}

/// How the target checkout is obtained.
#[derive(Debug, Clone, Copy, PartialEq, Eq, Structural)]
pub enum MergeCheckoutStep {
    /// The merge worktree is already there, on the branch.
    Reuse,
    /// Add a worktree for the existing branch.
    AddWorktree,
    /// Add a worktree on a new branch made from the base ref.
    CreateBranch,
}

pub open spec fn branch_label(b: Option<String>) -> Seq<char> {
    match b {
        Some(s) => s@,
        None => "(detached HEAD)"@,
    }
}

/// The step for `probe`, or the refusal (for repo `repo_id`, target
/// `branch`, merge worktree at `path`).
pub open spec fn checkout_step_spec(repo_id: Seq<char>, branch: Seq<char>, path: Seq<char>, probe: MergeCheckoutProbe) -> Result<MergeCheckoutStep, Seq<char>> {
    if probe.path_exists {
        if !probe.is_worktree {
            Err(repo_id + ": "@ + path + " exists but is not a git worktree."@)
        } else if branch_label(probe.worktree_branch) != branch {
            Err(repo_id + ": merge checkout "@ + path + " is on "@ + branch_label(probe.worktree_branch) + ", expected "@
                + branch + "."@)
        } else {
            Ok(MergeCheckoutStep::Reuse)
        }
    } else if probe.branch_exists {
        Ok(MergeCheckoutStep::AddWorktree)
    } else if probe.base_ref_exists {
        Ok(MergeCheckoutStep::CreateBranch)
    } else {
        Err(repo_id + ": target branch "@ + branch + " does not exist locally or as origin/"@ + branch + "."@)
    }
}

pub fn merge_checkout_step(repo_id: &str, branch: &str, path: &str, probe: &MergeCheckoutProbe) -> (r: Result<
    MergeCheckoutStep,
    String,
>)
    ensures
        match checkout_step_spec(repo_id@, branch@, path@, *probe) {
            Ok(s) => r == Ok::<MergeCheckoutStep, String>(s),
            Err(m) => r matches Err(e) && e@ == m,
        },
{
    if probe.path_exists {
        if !probe.is_worktree {
            let mut v = chars_of(repo_id);
            append_str(&mut v, ": ");
            append_str(&mut v, path);
            append_str(&mut v, " exists but is not a git worktree.");
            return Err(string_from_chars(&v));
        }
        let current = match &probe.worktree_branch {
            Some(b) => string_from_chars(&chars_of(b.as_str())),
            None => string_from_chars(&chars_of("(detached HEAD)")),
        };
        if !str_eq(current.as_str(), branch) {
            let mut v = chars_of(repo_id);
            append_str(&mut v, ": merge checkout ");
            append_str(&mut v, path);
            append_str(&mut v, " is on ");
            append_str(&mut v, current.as_str());
            append_str(&mut v, ", expected ");
            append_str(&mut v, branch);
            append_str(&mut v, ".");
            return Err(string_from_chars(&v));
        }
        return Ok(MergeCheckoutStep::Reuse);
    }
    if probe.branch_exists {
        return Ok(MergeCheckoutStep::AddWorktree);
    }
    if probe.base_ref_exists {
        return Ok(MergeCheckoutStep::CreateBranch);
    }
    let mut v = chars_of(repo_id);
    append_str(&mut v, ": target branch ");
    append_str(&mut v, branch);
    append_str(&mut v, " does not exist locally or as origin/");
    append_str(&mut v, branch);
    append_str(&mut v, ".");
    Err(string_from_chars(&v))
}

/// When adding a worktree for an existing branch fails because the repo's
/// own checkout is on that branch, the merge works in the repo's checkout.
pub fn use_repo_checkout_after_failed_add(repo_branch: Option<&str>, branch: &str) -> (b: bool)
    ensures
        b == (repo_branch matches Some(c) && c@ == branch@),
{
    match repo_branch {
        Some(c) => str_eq(c, branch),
        None => false,
    }
}

/// The refspec that fetches the target branch into `origin/<branch>`.
pub fn target_fetch_refspec(branch: &str) -> (s: String)
    ensures
        s@ == branch@ + ":refs/remotes/origin/"@ + branch@,
{
    let mut v = chars_of(branch);
    append_str(&mut v, ":refs/remotes/origin/");
    append_str(&mut v, branch);
    string_from_chars(&v)
}

pub open spec fn pairs_view(p: Seq<(String, String)>) -> Seq<(Seq<char>, Seq<char>)> {
    p.map_values(|x: (String, String)| (x.0@, x.1@))
}

/// The first repo of `repos` (in order) without a feature branch, if any.
pub open spec fn first_without_branch(repos: Seq<RepoEntry>, k: int) -> bool {
    0 <= k < repos.len() && repos[k].feature_branch is None && forall|j: int| 0 <= j < k ==> repos[j].feature_branch is Some
}

/// The refs a source bundle merges: each repo's feature branch, in order.
/// Refused when the bundle has no repos, or for the first repo that has no
/// feature branch yet.
pub fn bundle_source_refs(bundle: &ChangeGroup) -> (r: Result<Vec<(String, String)>, String>)
    ensures
        bundle.repos@.len() == 0 ==> (r matches Err(m) && m@ == "Source bundle "@ + bundle.id@ + " has no repos."@),
        r is Ok <==> (bundle.repos@.len() > 0 && forall|j: int| 0 <= j < bundle.repos@.len() ==> (#[trigger] bundle.repos@[j]).feature_branch is Some),
        r matches Ok(v) ==> pairs_view(v@).len() == bundle.repos@.len() && forall|j: int| 0 <= j < bundle.repos@.len() ==> pairs_view(v@)[j] == (
            bundle.repos@[j].id@,
            (#[trigger] bundle.repos@[j]).feature_branch->0@,
        ),
        bundle.repos@.len() > 0 && r is Err ==> exists|k: int| first_without_branch(bundle.repos@, k) && (r matches Err(m) && m@ == bundle.repos@[k].id@
            + ": source bundle has no feature branch. Run `knit bundle worktree --bundle "@ + bundle.id@ + "`."@),
{
    if bundle.repos.len() == 0 {
        let mut v = chars_of("Source bundle ");
        append_str(&mut v, bundle.id.as_str());
        append_str(&mut v, " has no repos.");
        return Err(string_from_chars(&v));
    }
    let mut out: Vec<(String, String)> = Vec::new();
    let mut i: usize = 0;
    while i < bundle.repos.len()
        invariant
            i <= bundle.repos@.len(),
            bundle.repos@.len() > 0,
            pairs_view(out@).len() == i,
            forall|j: int| 0 <= j < i ==> (#[trigger] bundle.repos@[j]).feature_branch is Some,
            forall|j: int| 0 <= j < i ==> pairs_view(out@)[j] == (bundle.repos@[j].id@, (#[trigger] bundle.repos@[j]).feature_branch->0@),
        decreases bundle.repos.len() - i,
    {
        let repo = &bundle.repos[i];
        match &repo.feature_branch {
            Some(b) => {
                let pair = (string_from_chars(&chars_of(repo.id.as_str())), string_from_chars(&chars_of(b.as_str())));
                proof {
                    assert(pairs_view(out@.push(pair)) =~= pairs_view(out@).push((pair.0@, pair.1@)));
                }
                out.push(pair);
            },
            None => {
                proof {
                    assert(first_without_branch(bundle.repos@, i as int));
                }
                let mut v = chars_of(repo.id.as_str());
                append_str(&mut v, ": source bundle has no feature branch. Run `knit bundle worktree --bundle ");
                append_str(&mut v, bundle.id.as_str());
                append_str(&mut v, "`.");
                return Err(string_from_chars(&v));
            },
        }
        i += 1;
    }
    Ok(out)
}

/// The refs a plain source ref merges: the same ref in every repo of the
/// resolved bundle. Refused when that bundle has no repos.
pub fn ref_across_repos(repos: &Vec<RepoEntry>, source: &str) -> (r: Result<Vec<(String, String)>, String>)
    ensures
        repos@.len() == 0 <==> r is Err,
        r matches Err(m) ==> m@ == "The resolved bundle has no repos to apply source ref "@ + source@ + " across."@,
        r matches Ok(v) ==> pairs_view(v@).len() == repos@.len() && forall|j: int| 0 <= j < repos@.len() ==> pairs_view(v@)[j] == (
            (#[trigger] repos@[j]).id@,
            source@,
        ),
{
    if repos.len() == 0 {
        let mut v = chars_of("The resolved bundle has no repos to apply source ref ");
        append_str(&mut v, source);
        append_str(&mut v, " across.");
        return Err(string_from_chars(&v));
    }
    let mut out: Vec<(String, String)> = Vec::new();
    let mut i: usize = 0;
    while i < repos.len()
        invariant
            i <= repos@.len(),
            pairs_view(out@).len() == i,
            forall|j: int| 0 <= j < i ==> pairs_view(out@)[j] == ((#[trigger] repos@[j]).id@, source@),
        decreases repos.len() - i,
    {
        let pair = (string_from_chars(&chars_of(repos[i].id.as_str())), string_from_chars(&chars_of(source)));
        proof {
            assert(pairs_view(out@.push(pair)) =~= pairs_view(out@).push((pair.0@, pair.1@)));
        }
        out.push(pair);
        i += 1;
    }
    Ok(out)
}

/// The target bundle's repo that a source repo merges into: the first with
/// its id; refused when the target bundle does not track it.
pub fn target_repo_index(bundle: &ChangeGroup, repo_id: &str) -> (r: Result<usize, String>)
    ensures
        match r {
            Ok(k) => k < bundle.repos@.len() && bundle.repos@[k as int].id@ == repo_id@ && forall|j: int|
                0 <= j < k ==> bundle.repos@[j].id@ != repo_id@,
            Err(m) => (forall|j: int| 0 <= j < bundle.repos@.len() ==> (#[trigger] bundle.repos@[j]).id@ != repo_id@) && m@
                == "Target bundle "@ + bundle.id@ + " does not include repo "@ + repo_id@ + "."@,
        },
{
    let mut i: usize = 0;
    while i < bundle.repos.len()
        invariant
            i <= bundle.repos@.len(),
            forall|j: int| 0 <= j < i ==> (#[trigger] bundle.repos@[j]).id@ != repo_id@,
        decreases bundle.repos.len() - i,
    {
        if str_eq(bundle.repos[i].id.as_str(), repo_id) {
            return Ok(i);
        }
        i += 1;
    }
    let mut v = chars_of("Target bundle ");
    append_str(&mut v, bundle.id.as_str());
    append_str(&mut v, " does not include repo ");
    append_str(&mut v, repo_id);
    append_str(&mut v, ".");
    Err(string_from_chars(&v))
}

/// A merge step needs a clean target checkout: `status` is what
/// `git status --porcelain` printed there.
pub fn check_clean_target(repo_id: &str, status: &str, path: &str) -> (r: Result<(), String>)
    ensures
        trim_seq(status@).len() == 0 <==> r is Ok,
        r matches Err(m) ==> m@ == repo_id@ + ": target checkout is not clean at "@ + path@ + "."@,
{
    if trim_chars(&chars_of(status)).len() == 0 {
        return Ok(());
    }
    let mut v = chars_of(repo_id);
    append_str(&mut v, ": target checkout is not clean at ");
    append_str(&mut v, path);
    append_str(&mut v, ".");
    Err(string_from_chars(&v))
}

/// The refusal when a target bundle's checkout of a repo is missing.
pub fn unmaterialized_target_message(repo_id: &str, bundle_id: &str) -> (m: String)
    ensures
        m@ == repo_id@ + ": target bundle checkout is not materialized. Run `knit bundle worktree --bundle "@ + bundle_id@
            + "`."@,
{
    let mut v = chars_of(repo_id);
    append_str(&mut v, ": target bundle checkout is not materialized. Run `knit bundle worktree --bundle ");
    append_str(&mut v, bundle_id);
    append_str(&mut v, "`.");
    string_from_chars(&v)
}

/// The steps of a run that merged something: those with a head after the merge.
pub open spec fn merged_step_indexes(steps: Seq<MergeStepRecord>, n: int) -> Seq<int>
    decreases n,
{
    if n <= 0 {
        Seq::empty()
    } else if steps[n - 1].after_sha is Some {
        merged_step_indexes(steps, n - 1).push(n - 1)
    } else {
        merged_step_indexes(steps, n - 1)
    }
}

/// The positions of the steps whose merges go on the target bundle's ledger,
/// in order.
pub fn merged_steps(steps: &Vec<MergeStepRecord>) -> (out: Vec<usize>)
    ensures
        out@.map_values(|k: usize| k as int) == merged_step_indexes(steps@, steps@.len() as int),
{
    let mut out: Vec<usize> = Vec::new();
    let mut i: usize = 0;
    while i < steps.len()
        invariant
            i <= steps@.len(),
            out@.map_values(|k: usize| k as int) == merged_step_indexes(steps@, i as int),
        decreases steps.len() - i,
    {
        if steps[i].after_sha.is_some() {
            proof {
                assert(out@.push(i).map_values(|k: usize| k as int) =~= out@.map_values(|k: usize| k as int).push(i as int));
            }
            out.push(i);
        }
        i += 1;
    }
    out
}

/// The repo at `k` is the first with its id.
pub open spec fn first_with_id(repos: Seq<RepoEntry>, k: int) -> bool {
    forall|j: int| 0 <= j < k ==> repos[j].id@ != repos[k].id@
}

/// The head recorded for repo `k` after the first `n` steps: the head a
/// merged step left in it (the last such step wins), when it is the first
/// repo with the step's repo id; else the head it had.
pub open spec fn head_after(repos: Seq<RepoEntry>, steps: Seq<MergeStepRecord>, n: int, k: int) -> Option<Seq<char>>
    decreases n,
{
    if n <= 0 {
        opt_view(repos[k].head_sha)
    } else if steps[n - 1].after_sha is Some && repos[k].id@ == steps[n - 1].repo_id@ && first_with_id(repos, k) {
        Some(steps[n - 1].after_sha->0@)
    } else {
        head_after(repos, steps, n - 1, k)
    }
}

/// `b` is `a` with at most its head changed.
pub open spec fn same_but_head(a: RepoEntry, b: RepoEntry) -> bool {
    &&& b.id == a.id
    &&& b.path == a.path
    &&& b.remote == a.remote
    &&& b.base_branch == a.base_branch
    &&& b.checkout_mode == a.checkout_mode
    &&& b.base_sha == a.base_sha
    &&& b.feature_branch == a.feature_branch
    &&& b.worktree_path == a.worktree_path
}

/// Records in the target bundle the heads that the run's merges left.
pub fn record_merged_heads(bundle: &mut ChangeGroup, steps: &Vec<MergeStepRecord>)
    ensures
        final(bundle).repos@.len() == old(bundle).repos@.len(),
        forall|k: int| 0 <= k < old(bundle).repos@.len() ==> same_but_head(old(bundle).repos@[k], #[trigger] final(bundle).repos@[k])
            && opt_view(final(bundle).repos@[k].head_sha) == head_after(old(bundle).repos@, steps@, steps@.len() as int, k),
        final(bundle).id == old(bundle).id,
        final(bundle).nodes@ == old(bundle).nodes@,
        final(bundle).publications@ == old(bundle).publications@,
{
    let ghost orig = bundle.repos@;
    let mut i: usize = 0;
    while i < steps.len()
        invariant
            i <= steps@.len(),
            bundle.repos@.len() == orig.len(),
            bundle.id == old(bundle).id,
            bundle.nodes@ == old(bundle).nodes@,
            bundle.publications@ == old(bundle).publications@,
            orig == old(bundle).repos@,
            forall|k: int| 0 <= k < orig.len() ==> same_but_head(orig[k], #[trigger] bundle.repos@[k])
                && opt_view(bundle.repos@[k].head_sha) == head_after(orig, steps@, i as int, k),
        decreases steps.len() - i,
    {
        if let Some(after) = &steps[i].after_sha {
            let mut k: usize = 0;
            while k < bundle.repos.len() && !str_eq(bundle.repos[k].id.as_str(), steps[i].repo_id.as_str())
                invariant
                    k <= bundle.repos@.len(),
                    i < steps@.len(),
                    bundle.repos@.len() == orig.len(),
                    forall|j: int| 0 <= j < orig.len() ==> same_but_head(orig[j], #[trigger] bundle.repos@[j]),
                    forall|j: int| 0 <= j < k ==> orig[j].id@ != steps@[i as int].repo_id@,
                decreases bundle.repos.len() - k,
            {
                k += 1;
            }
            let found = k < bundle.repos.len();
            if found {
                let ghost before = bundle.repos@;
                let mut e = bundle.repos.remove(k);
                e.head_sha = Some(string_from_chars(&chars_of(after.as_str())));
                bundle.repos.insert(k, e);
                proof {
                    assert(first_with_id(orig, k as int));
                    assert forall|j: int| 0 <= j < orig.len() implies same_but_head(orig[j], #[trigger] bundle.repos@[j])
                        && opt_view(bundle.repos@[j].head_sha) == head_after(orig, steps@, i + 1, j) by {
                        if j != k {
                            assert(bundle.repos@[j] == before[j]);
                            if orig[j].id@ == steps@[i as int].repo_id@ && first_with_id(orig, j) {
                                if j < k {
                                    assert(false);
                                } else {
                                    assert(orig[k as int].id@ == orig[j].id@);
                                    assert(false);
                                }
                            }
                        }
                    }
                }
            } else {
                proof {
                    assert forall|j: int| 0 <= j < orig.len() implies opt_view(#[trigger] bundle.repos@[j].head_sha)
                        == head_after(orig, steps@, i + 1, j) by {
                        assert(orig[j].id@ != steps@[i as int].repo_id@);
                    }
                }
            }
        }
        i += 1;
    }
}

} // verus!
