//! `knit land update`: which feature checkouts a base update touches, and
//! what each needs recorded before it can be updated.
use vstd::prelude::*;

use crate::model::{has_publication, is_publication_index, opt_view, publication_for_repo, BundleNode, ChangeGroup, RepoChange};
use crate::text::{append_str, chars_of, is_blank, str_eq, string_from_chars, trim_seq};

verus! {

/// Why a repo cannot take a base update.
#[derive(Debug, Clone)]
pub enum UpdateError {
    NoRepos,
    NoPublication { repo: String },
    NoCheckout { repo: String },
    NoFeatureBranch { repo: String },
    NoRecordedHead { repo: String },
}

impl UpdateError {
    pub open spec fn text(&self) -> Seq<char> {
        match self {
            UpdateError::NoRepos => "The resolved bundle has no repos. Run `knit bundle add <repo-path>` first."@,
            UpdateError::NoPublication { repo } => repo@ + ": no PR publication recorded. Run `knit publish create` first."@,
            UpdateError::NoCheckout { repo } => repo@ + ": no feature checkout is recorded."@,
            UpdateError::NoFeatureBranch { repo } => repo@ + ": no feature branch recorded. Run `knit bundle worktree`."@,
            UpdateError::NoRecordedHead { repo } => repo@ + ": no recorded feature head. Run `knit sync` before updating."@,
        }
    }

    pub fn message(&self) -> (out: String)
        ensures
            out@ == self.text(),
    {
        let mut v: Vec<char> = Vec::new();
        match self {
            UpdateError::NoRepos => append_str(&mut v, "The resolved bundle has no repos. Run `knit bundle add <repo-path>` first."),
            UpdateError::NoPublication { repo } => {
                append_str(&mut v, repo.as_str());
                append_str(&mut v, ": no PR publication recorded. Run `knit publish create` first.");
            },
            UpdateError::NoCheckout { repo } => {
                append_str(&mut v, repo.as_str());
                append_str(&mut v, ": no feature checkout is recorded.");
            },
            UpdateError::NoFeatureBranch { repo } => {
                append_str(&mut v, repo.as_str());
                append_str(&mut v, ": no feature branch recorded. Run `knit bundle worktree`.");
            },
            UpdateError::NoRecordedHead { repo } => {
                append_str(&mut v, repo.as_str());
                append_str(&mut v, ": no recorded feature head. Run `knit sync` before updating.");
            },
        }
        string_from_chars(&v)
    }
}

/// One feature checkout to update from its PR's base branch.
#[derive(Debug, Clone)]
pub struct LandUpdateTarget {
    pub repo_index: usize,
    pub repo_id: String,
    pub cwd: String,
    pub feature_branch: String,
    pub base_branch: String,
    pub publication_url: String,
    pub recorded_head: String,
}

/// What repo `i` lacks for an update, checked in order: a PR publication,
/// a checkout, a feature branch, a recorded head (0 when nothing).
pub open spec fn update_blocker(b: ChangeGroup, i: int, cwd: Option<String>) -> int {
    let r = b.repos@[i];
    if !has_publication(b, r.id@) {
        1
    } else if cwd is None {
        2
    } else if r.feature_branch is None {
        3
    } else if r.head_sha is None {
        4
    } else {
        0
    }
}

/// `e` reports blocker `code` for repo `repo`.
pub open spec fn update_error_is(e: UpdateError, code: int, repo: Seq<char>) -> bool {
    match e {
        UpdateError::NoPublication { repo: r } => code == 1 && r@ == repo,
        UpdateError::NoCheckout { repo: r } => code == 2 && r@ == repo,
        UpdateError::NoFeatureBranch { repo: r } => code == 3 && r@ == repo,
        UpdateError::NoRecordedHead { repo: r } => code == 4 && r@ == repo,
        UpdateError::NoRepos => false,
    }
}

/// `t` is the update target of repo `i`: its checkout, feature branch and
/// recorded head, with the base branch and URL of its first publication.
pub open spec fn is_update_target(t: LandUpdateTarget, b: ChangeGroup, i: int, cwd: Option<String>) -> bool {
    let r = b.repos@[i];
    &&& t.repo_index == i
    &&& t.repo_id@ == r.id@
    &&& opt_view(cwd) == Some(t.cwd@)
    &&& opt_view(r.feature_branch) == Some(t.feature_branch@)
    &&& opt_view(r.head_sha) == Some(t.recorded_head@)
    &&& exists|p: int| is_publication_index(b, r.id@, p) && t.base_branch@ == b.publications@[p].base_branch@
        && t.publication_url@ == b.publications@[p].url@
}

/// The update target of repo `i`, given its checkout directory if one is
/// recorded and present.
pub fn update_target(b: &ChangeGroup, i: usize, cwd: &Option<String>) -> (r: Result<LandUpdateTarget, UpdateError>)
    requires
        i < b.repos@.len(),
    ensures
        match r {
            Ok(t) => update_blocker(*b, i as int, *cwd) == 0 && is_update_target(t, *b, i as int, *cwd),
            Err(e) => update_blocker(*b, i as int, *cwd) != 0 && update_error_is(e, update_blocker(*b, i as int, *cwd), b.repos@[i as int].id@),
        },
{
    let repo = &b.repos[i];
    let p = match publication_for_repo(b, repo.id.as_str()) {
        Some(p) => p,
        None => return Err(UpdateError::NoPublication { repo: repo.id.clone() }),
    };
    let dir = match cwd {
        Some(d) => d.clone(),
        None => return Err(UpdateError::NoCheckout { repo: repo.id.clone() }),
    };
    let feature_branch = match &repo.feature_branch {
        Some(f) => f.clone(),
        None => return Err(UpdateError::NoFeatureBranch { repo: repo.id.clone() }),
    };
    let recorded_head = match &repo.head_sha {
        Some(h) => h.clone(),
        None => return Err(UpdateError::NoRecordedHead { repo: repo.id.clone() }),
    };
    let t = LandUpdateTarget {
        repo_index: i,
        repo_id: repo.id.clone(),
        cwd: dir,
        feature_branch,
        base_branch: b.publications[p].base_branch.clone(),
        publication_url: b.publications[p].url.clone(),
        recorded_head,
    };
    proof {
        assert(is_publication_index(*b, b.repos@[i as int].id@, p as int));
    }
    Ok(t)
}

/// The update targets of the selected repos, in selection order; the first
/// selected repo that cannot be updated is reported. `checkouts` holds, per
/// bundle repo, its feature checkout directory when one exists.
pub fn update_land_branches(b: &ChangeGroup, indexes: &Vec<usize>, checkouts: &Vec<Option<String>>) -> (r: Result<Vec<LandUpdateTarget>, UpdateError>)
    requires
        checkouts@.len() == b.repos@.len(),
        forall|k: int| 0 <= k < indexes@.len() ==> #[trigger] indexes@[k] < b.repos@.len(),
    ensures
        b.repos@.len() == 0 ==> r matches Err(UpdateError::NoRepos),
        b.repos@.len() > 0 ==> match r {
            Ok(ts) => ts@.len() == indexes@.len() && forall|k: int| 0 <= k < indexes@.len() ==> is_update_target(
                #[trigger] ts@[k], *b, indexes@[k] as int, checkouts@[indexes@[k] as int]),
            Err(e) => exists|k: int|
                0 <= k < indexes@.len() && (forall|j: int| 0 <= j < k ==> update_blocker(*b, #[trigger] indexes@[j] as int, checkouts@[indexes@[j] as int]) == 0)
                    && update_blocker(*b, #[trigger] indexes@[k] as int, checkouts@[indexes@[k] as int]) != 0
                    && update_error_is(e, update_blocker(*b, indexes@[k] as int, checkouts@[indexes@[k] as int]), b.repos@[indexes@[k] as int].id@),
        },
{
    if b.repos.len() == 0 {
        return Err(UpdateError::NoRepos);
    }
    let mut out: Vec<LandUpdateTarget> = Vec::new();
    let mut k: usize = 0;
    while k < indexes.len()
        invariant
            k <= indexes@.len(),
            checkouts@.len() == b.repos@.len(),
            forall|j: int| 0 <= j < indexes@.len() ==> #[trigger] indexes@[j] < b.repos@.len(),
            out@.len() == k,
            forall|j: int| 0 <= j < k ==> is_update_target(#[trigger] out@[j], *b, indexes@[j] as int, checkouts@[indexes@[j] as int]),
            forall|j: int| 0 <= j < k ==> update_blocker(*b, #[trigger] indexes@[j] as int, checkouts@[indexes@[j] as int]) == 0,
        decreases indexes.len() - k,
    {
        let i = indexes[k];
        match update_target(b, i, &checkouts[i]) {
            Ok(t) => {
                out.push(t);
            },
            Err(e) => {
                proof {
                    assert(indexes@[k as int] == i);
                }
                return Err(e);
            },
        }
        k += 1;
    }
    Ok(out)
}

/// Why a feature checkout cannot take a base update as it stands.
#[derive(Debug, Clone)]
pub enum PreflightError {
    WrongBranch { repo: String, expected: String, found: String, cwd: String },
    Uncommitted { repo: String, cwd: String },
    HeadMoved { repo: String, actual: String, recorded: String },
}

impl PreflightError {
    pub open spec fn text(&self) -> Seq<char> {
        match self {
            PreflightError::WrongBranch { repo, expected, found, cwd } => repo@ + ": expected feature branch `"@ + expected@
                + "`, found `"@ + found@ + "` in "@ + cwd@ + "."@,
            PreflightError::Uncommitted { repo, cwd } => repo@ + ": feature checkout has uncommitted changes in "@ + cwd@
                + ". Commit or clean them before updating."@,
            PreflightError::HeadMoved { repo, actual, recorded } => repo@ + ": feature checkout is at "@ + actual@
                + ", but the bundle records "@ + recorded@
                + ". Run `knit sync` first, or use `knit land update --continue-merge` after resolving an update merge."@,
        }
    }

    pub fn message(&self) -> (out: String)
        ensures
            out@ == self.text(),
    {
        let mut v: Vec<char> = Vec::new();
        match self {
            PreflightError::WrongBranch { repo, expected, found, cwd } => {
                append_str(&mut v, repo.as_str());
                append_str(&mut v, ": expected feature branch `");
                append_str(&mut v, expected.as_str());
                append_str(&mut v, "`, found `");
                append_str(&mut v, found.as_str());
                append_str(&mut v, "` in ");
                append_str(&mut v, cwd.as_str());
                append_str(&mut v, ".");
            },
            PreflightError::Uncommitted { repo, cwd } => {
                append_str(&mut v, repo.as_str());
                append_str(&mut v, ": feature checkout has uncommitted changes in ");
                append_str(&mut v, cwd.as_str());
                append_str(&mut v, ". Commit or clean them before updating.");
            },
            PreflightError::HeadMoved { repo, actual, recorded } => {
                append_str(&mut v, repo.as_str());
                append_str(&mut v, ": feature checkout is at ");
                append_str(&mut v, actual.as_str());
                append_str(&mut v, ", but the bundle records ");
                append_str(&mut v, recorded.as_str());
                append_str(&mut v, ". Run `knit sync` first, or use `knit land update --continue-merge` after resolving an update merge.");
            },
        }
        string_from_chars(&v)
    }
}

/// What git reports of a feature checkout before it is updated: its current
/// branch (none when HEAD is detached), its `git status --short` text, its
/// HEAD, and the abbreviated HEAD and recorded head shown in messages.
#[derive(Debug, Clone)]
pub struct CheckoutState {
    pub branch: Option<String>,
    pub status: String,
    pub head: String,
    pub head_short: String,
    pub recorded_short: String,
}

/// The branch a checkout is on, as reported.
pub open spec fn branch_shown(branch: Option<String>) -> Seq<char> {
    match branch {
        Some(b) => b@,
        None => "(detached HEAD)"@,
    }
}

/// What keeps checkout `s` of target `t` from an update, checked in order:
/// another branch checked out (1), uncommitted changes (2), and, unless a
/// resolved update merge is being continued, a HEAD other than the recorded
/// head (3); 0 when nothing does.
pub open spec fn preflight_blocker(t: LandUpdateTarget, s: CheckoutState, continue_merge: bool) -> int {
    if branch_shown(s.branch) != t.feature_branch@ {
        1
    } else if trim_seq(s.status@).len() != 0 {
        2
    } else if !continue_merge && s.head@ != t.recorded_head@ {
        3
    } else {
        0
    }
}

/// `e` reports blocker `code` of checkout `s` of target `t`.
pub open spec fn preflight_error_is(e: PreflightError, t: LandUpdateTarget, s: CheckoutState, code: int) -> bool {
    match e {
        PreflightError::WrongBranch { repo, expected, found, cwd } => code == 1 && repo@ == t.repo_id@ && expected@
            == t.feature_branch@ && found@ == branch_shown(s.branch) && cwd@ == t.cwd@,
        PreflightError::Uncommitted { repo, cwd } => code == 2 && repo@ == t.repo_id@ && cwd@ == t.cwd@,
        PreflightError::HeadMoved { repo, actual, recorded } => code == 3 && repo@ == t.repo_id@ && actual@
            == s.head_short@ && recorded@ == s.recorded_short@,
    }
}

/// Checks that a feature checkout can take a base update: on its feature
/// branch, clean, and (unless `continue_merge`) at the recorded head.
pub fn preflight_target(t: &LandUpdateTarget, s: &CheckoutState, continue_merge: bool) -> (r: Result<(), PreflightError>)
    ensures
        r is Ok <==> preflight_blocker(*t, *s, continue_merge) == 0,
        r matches Err(e) ==> preflight_error_is(e, *t, *s, preflight_blocker(*t, *s, continue_merge)),
{
    let found = match &s.branch {
        Some(b) => b.clone(),
        None => string_from_chars(&chars_of("(detached HEAD)")),
    };
    if !str_eq(found.as_str(), t.feature_branch.as_str()) {
        return Err(PreflightError::WrongBranch {
            repo: t.repo_id.clone(),
            expected: t.feature_branch.clone(),
            found,
            cwd: t.cwd.clone(),
        });
    }
    if !is_blank(s.status.as_str()) {
        return Err(PreflightError::Uncommitted { repo: t.repo_id.clone(), cwd: t.cwd.clone() });
    }
    if !continue_merge && !str_eq(s.head.as_str(), t.recorded_head.as_str()) {
        return Err(PreflightError::HeadMoved {
            repo: t.repo_id.clone(),
            actual: s.head_short.clone(),
            recorded: s.recorded_short.clone(),
        });
    }
    Ok(())
}

/// Checks every target's checkout before any is updated, in order;
/// `states` holds what git reports of each target's checkout. The first
/// checkout that cannot take the update is reported, and then nothing is
/// merged.
pub fn preflight_update_targets(targets: &Vec<LandUpdateTarget>, states: &Vec<CheckoutState>, continue_merge: bool) -> (r: Result<(), PreflightError>)
    requires
        states@.len() == targets@.len(),
    ensures
        r is Ok <==> forall|k: int| 0 <= k < targets@.len() ==> preflight_blocker(#[trigger] targets@[k], states@[k], continue_merge) == 0,
        r matches Err(e) ==> exists|k: int|
            0 <= k < targets@.len() && (forall|j: int| 0 <= j < k ==> preflight_blocker(#[trigger] targets@[j], states@[j], continue_merge) == 0)
                && preflight_blocker(#[trigger] targets@[k], states@[k], continue_merge) != 0
                && preflight_error_is(e, targets@[k], states@[k], preflight_blocker(targets@[k], states@[k], continue_merge)),
{
    let mut k: usize = 0;
    while k < targets.len()
        invariant
            k <= targets@.len(),
            states@.len() == targets@.len(),
            forall|j: int| 0 <= j < k ==> preflight_blocker(#[trigger] targets@[j], states@[j], continue_merge) == 0,
        decreases targets.len() - k,
    {
        match preflight_target(&targets[k], &states[k], continue_merge) {
            Ok(()) => {},
            Err(e) => {
                proof {
                    assert(preflight_blocker(targets@[k as int], states@[k as int], continue_merge) != 0);
                }
                return Err(e);
            },
        }
        k += 1;
    }
    Ok(())
}

/// The error reported when merging the base into a feature checkout failed.
pub open spec fn update_failure_spec(repo: Seq<char>, error: Seq<char>, cwd: Seq<char>, push: bool) -> Seq<char> {
    repo + ": failed to update from base: "@ + error + "\nResolve the merge in "@ + cwd
        + ", commit it, then run `knit land update --continue-merge"@ + (if push { " --push"@ } else { ""@ }) + "`."@
}

pub fn update_failure_message(repo: &str, error: &str, cwd: &str, push: bool) -> (out: String)
    ensures
        out@ == update_failure_spec(repo@, error@, cwd@, push),
{
    let mut v: Vec<char> = Vec::new();
    append_str(&mut v, repo);
    append_str(&mut v, ": failed to update from base: ");
    append_str(&mut v, error);
    append_str(&mut v, "\nResolve the merge in ");
    append_str(&mut v, cwd);
    append_str(&mut v, ", commit it, then run `knit land update --continue-merge");
    if push {
        append_str(&mut v, " --push");
    } else {
        append_str(&mut v, "");
    }
    append_str(&mut v, "`.");
    string_from_chars(&v)
}

/// The change recorded for a repo whose feature branch an update moved
/// from `before` to `after`: refused unless the move is forward (`forward`:
/// `before` is an ancestor of `after`); `commits` are those between them,
/// and `before_short`/`after_short` the abbreviated shas reported.
pub fn advanced_change(
    repo_id: &str,
    before: &str,
    after: &str,
    forward: bool,
    commits: Vec<String>,
    before_short: &str,
    after_short: &str,
) -> (r: Result<RepoChange, String>)
    ensures
        forward <==> r is Ok,
        r matches Ok(c) ==> c.repo_id@ == repo_id@ && c.movement@ == "advanced"@ && (c.before_sha matches Some(b) && b@
            == before@) && c.after_sha@ == after@ && c.commits@ == commits@ && c.dropped_commits@.len() == 0,
        r matches Err(m) ==> m@ == repo_id@ + ": update moved the branch in a non-forward direction from "@ + before_short@
            + " to "@ + after_short@,
{
    if !forward {
        let mut v = chars_of(repo_id);
        append_str(&mut v, ": update moved the branch in a non-forward direction from ");
        append_str(&mut v, before_short);
        append_str(&mut v, " to ");
        append_str(&mut v, after_short);
        return Err(string_from_chars(&v));
    }
    Ok(RepoChange {
        repo_id: string_from_chars(&chars_of(repo_id)),
        movement: string_from_chars(&chars_of("advanced")),
        before_sha: Some(string_from_chars(&chars_of(before))),
        after_sha: string_from_chars(&chars_of(after)),
        commits,
        dropped_commits: Vec::new(),
    })
}

/// The position of the last change for the repo `id` (meaningful when it
/// has one), or none.
pub open spec fn last_change_for(changes: Seq<RepoChange>, id: Seq<char>) -> Option<int> {
    if exists|y: int| 0 <= y < changes.len() && changes[y].repo_id@ == id {
        Some(choose|y: int| 0 <= y < changes.len() && changes[y].repo_id@ == id && forall|z: int|
            y < z < changes.len() ==> changes[z].repo_id@ != id)
    } else {
        None
    }
}

/// Repo `k` after the update: as before, with its head moved to the last
/// change recorded for it, if any.
pub open spec fn update_head_holds(repos: Seq<crate::model::RepoEntry>, r: crate::model::RepoEntry, changes: Seq<RepoChange>, k: int) -> bool {
    let o = repos[k];
    &&& r.id == o.id && r.path == o.path && r.remote == o.remote && r.base_branch == o.base_branch
    &&& r.checkout_mode == o.checkout_mode && r.base_sha == o.base_sha && r.feature_branch == o.feature_branch
    &&& r.worktree_path == o.worktree_path
    &&& match last_change_for(changes, o.id@) {
        Some(x) => opt_view(r.head_sha) == Some(changes[x].after_sha@),
        None => r.head_sha == o.head_sha,
    }
}

/// Records a base update on the ledger: a `land.update` node with the
/// repos' changes is appended and becomes the head, the bundle is marked
/// updated at `now`, and each changed repo's recorded head moves to the
/// change's new head. Nothing is recorded when no repo changed.
pub fn record_land_update(bundle: &mut ChangeGroup, node_id: String, now: String, provider: Option<String>, changes: Vec<RepoChange>)
    ensures
        changes@.len() == 0 ==> *final(bundle) == *old(bundle),
        changes@.len() > 0 ==> {
            &&& final(bundle).nodes@.len() == old(bundle).nodes@.len() + 1
            &&& final(bundle).nodes@.take(old(bundle).nodes@.len() as int) == old(bundle).nodes@
            &&& final(bundle).nodes@.last().id@ == node_id@
            &&& final(bundle).nodes@.last().node_type@ == "land.update"@
            &&& final(bundle).nodes@.last().repo_changes@ == changes@
            &&& final(bundle).nodes@.last().provider == provider
            &&& final(bundle).head_node_id matches Some(h) && h@ == node_id@
            &&& final(bundle).updated_at@ == now@
            &&& final(bundle).repos@.len() == old(bundle).repos@.len()
            &&& forall|k: int| 0 <= k < old(bundle).repos@.len() ==> update_head_holds(
                old(bundle).repos@,
                #[trigger] final(bundle).repos@[k],
                changes@,
                k,
            )
        },
        final(bundle).id == old(bundle).id,
        final(bundle).publications@ == old(bundle).publications@,
{
    if changes.len() == 0 {
        return;
    }
    let ghost orig = bundle.repos@;
    let mut k: usize = 0;
    while k < bundle.repos.len()
        invariant
            k <= bundle.repos@.len(),
            bundle.repos@.len() == orig.len(),
            forall|j: int| k <= j < orig.len() ==> #[trigger] bundle.repos@[j] == orig[j],
            forall|j: int| 0 <= j < k ==> update_head_holds(orig, #[trigger] bundle.repos@[j], changes@, j),
            bundle.id == old(bundle).id,
            bundle.publications@ == old(bundle).publications@,
            bundle.nodes@ == old(bundle).nodes@,
        decreases bundle.repos.len() - k,
    {
        let mut c: usize = changes.len();
        let mut found: Option<usize> = None;
        while c > 0
            invariant
                c <= changes@.len(),
                k < bundle.repos@.len(),
                bundle.repos@[k as int] == orig[k as int],
                match found {
                    Some(x) => x < changes@.len() && changes@[x as int].repo_id@ == orig[k as int].id@ && forall|y: int|
                        x < y < changes@.len() ==> (#[trigger] changes@[y]).repo_id@ != orig[k as int].id@,
                    None => forall|y: int| c <= y < changes@.len() ==> (#[trigger] changes@[y]).repo_id@ != orig[k as int].id@,
                },
            decreases c,
        {
            if found.is_none() && str_eq(changes[c - 1].repo_id.as_str(), bundle.repos[k].id.as_str()) {
                found = Some(c - 1);
            }
            c -= 1;
        }
        if let Some(x) = found {
            let ghost before = bundle.repos@;
            let mut e = bundle.repos.remove(k);
            e.head_sha = Some(string_from_chars(&chars_of(changes[x].after_sha.as_str())));
            bundle.repos.insert(k, e);
            proof {
                assert forall|j: int| k < j < orig.len() implies #[trigger] bundle.repos@[j] == orig[j] by {
                    assert(bundle.repos@[j] == before[j]);
                }
                assert forall|j: int| 0 <= j < k implies update_head_holds(orig, #[trigger] bundle.repos@[j], changes@, j) by {
                    assert(bundle.repos@[j] == before[j]);
                }
                assert(last_change_for(changes@, orig[k as int].id@) == Some(x as int));
            }
        } else {
            proof {
                assert(last_change_for(changes@, orig[k as int].id@) is None);
            }
        }
        k += 1;
    }
    let node = BundleNode {
        id: string_from_chars(&chars_of(node_id.as_str())),
        node_type: string_from_chars(&chars_of("land.update")),
        title: None,
        message: None,
        commit_group_id: None,
        commits: Vec::new(),
        repo_changes: changes,
        repo_ids: None,
        publication_urls: Vec::new(),
        provider,
        target_node_id: None,
        plan_id: None,
        run_id: None,
    };
    let ghost nodes0 = bundle.nodes@;
    bundle.nodes.push(node);
    proof {
        assert(bundle.nodes@.take(nodes0.len() as int) =~= nodes0);
    }
    bundle.head_node_id = Some(node_id);
    bundle.updated_at = now;
}

} // verus!
