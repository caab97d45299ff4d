//! `knit revert`: which ledger nodes can be reverted and the git or
//! provider operations a revert plan holds for each repo.
use vstd::prelude::*;

use crate::land_plan::repo_ids;
use crate::model::{has_publication, is_publication_index, publication_for_repo, BundleNode, ChangeGroup, CommitRef, RepoChange};
use crate::order::{sorted_strict, sorted_unique};
use crate::text::{append_str, chars_of, contains_string, str_eq, string_from_chars, strings_view};

verus! {

/// `knit revert <target>` writes a plan; with `--apply` it applies one.
#[derive(Debug, Clone, Copy, PartialEq, Eq, Structural)]
pub enum RevertMode {
    Plan,
    Apply,
}

/// The mode of `knit revert <target> [--apply]`.
pub fn revert_target(apply: bool) -> (m: RevertMode)
    ensures
        m == (if apply { RevertMode::Apply } else { RevertMode::Plan }),
{
    if apply {
        RevertMode::Apply
    } else {
        RevertMode::Plan
    }
}

/// The ids a recorded revert plan was made for.
pub struct RecordedRevertPlan {
    pub bundle_id: String,
    pub target_node_id: String,
}

/// The refusal, if any, before a recorded plan is applied.
pub open spec fn plan_check_spec(
    plan: Option<RecordedRevertPlan>,
    bundle_id: Seq<char>,
    node_id: Seq<char>,
    target: Seq<char>,
) -> Option<Seq<char>> {
    match plan {
        None => Some("No revert plan found for "@ + node_id + ". Run `knit revert "@ + target
            + "` first, inspect the plan, then run `knit revert "@ + target + " --apply`."@),
        Some(p) => if p.bundle_id@ != bundle_id {
            Some("Revert plan belongs to bundle "@ + p.bundle_id@ + ", but resolved bundle is "@ + bundle_id + "."@)
        } else if p.target_node_id@ != node_id {
            Some("Revert plan targets "@ + p.target_node_id@ + ", but "@ + target + " resolves to "@ + node_id
                + " now. Re-run the plan."@)
        } else {
            None
        },
    }
}

/// `knit revert <target> --apply` applies only a plan recorded for the
/// resolved bundle and for the node `target` resolves to now.
pub fn check_revert_plan(plan: Option<&RecordedRevertPlan>, bundle_id: &str, node_id: &str, target: &str) -> (r: Result<
    (),
    String,
>)
    ensures
        match plan_check_spec(
            match plan {
                Some(p) => Some(*p),
                None => None,
            },
            bundle_id@,
            node_id@,
            target@,
        ) {
            None => r is Ok,
            Some(m) => r matches Err(e) && e@ == m,
        },
{
    let mut v: Vec<char> = Vec::new();
    match plan {
        None => {
            append_str(&mut v, "No revert plan found for ");
            append_str(&mut v, node_id);
            append_str(&mut v, ". Run `knit revert ");
            append_str(&mut v, target);
            append_str(&mut v, "` first, inspect the plan, then run `knit revert ");
            append_str(&mut v, target);
            append_str(&mut v, " --apply`.");
        },
        Some(p) => {
            if !str_eq(p.bundle_id.as_str(), bundle_id) {
                append_str(&mut v, "Revert plan belongs to bundle ");
                append_str(&mut v, p.bundle_id.as_str());
                append_str(&mut v, ", but resolved bundle is ");
                append_str(&mut v, bundle_id);
                append_str(&mut v, ".");
            } else if !str_eq(p.target_node_id.as_str(), node_id) {
                append_str(&mut v, "Revert plan targets ");
                append_str(&mut v, p.target_node_id.as_str());
                append_str(&mut v, ", but ");
                append_str(&mut v, target);
                append_str(&mut v, " resolves to ");
                append_str(&mut v, node_id);
                append_str(&mut v, " now. Re-run the plan.");
            } else {
                return Ok(());
            }
        },
    }
    Err(string_from_chars(&v))
}

/// One operation in a revert plan.
#[derive(Debug, Clone, Copy, PartialEq, Eq, Structural)]
pub enum RevertOpKind {
    Revert,
    CherryPick,
    PrRevert,
}

impl RevertOpKind {
    pub open spec fn label(self) -> Seq<char> {
        match self {
            RevertOpKind::Revert => "revert"@,
            RevertOpKind::CherryPick => "cherryPick"@,
            RevertOpKind::PrRevert => "prRevert"@,
        }
    }

    pub fn as_str(self) -> (s: &'static str)
        ensures
            s@ == self.label(),
    {
        match self {
            RevertOpKind::Revert => "revert",
            RevertOpKind::CherryPick => "cherryPick",
            RevertOpKind::PrRevert => "prRevert",
        }
    }
}

/// A git operation on a commit (`sha`), or a provider revert of a merged
/// PR (`selector`, its URL).
#[derive(Debug, Clone)]
pub struct RevertOperation {
    pub kind: RevertOpKind,
    pub sha: Option<String>,
    pub selector: Option<String>,
}

/// The operations a revert plan holds for one repo.
#[derive(Debug, Clone)]
pub struct RepoRevertOps {
    pub repo_id: String,
    pub operations: Vec<RevertOperation>,
}

/// Why a node cannot be reverted.
#[derive(Debug, Clone)]
pub enum RevertError {
    MetadataNode { node: String },
    UnsupportedNodeType { node: String, node_type: String },
    UnsupportedMovement { movement: String, repo: String },
    NoRepoIds { node: String },
    NoPublication { repo: String, node: String },
    NotLandedPublication { repo: String, url: String, node: String },
    ProviderMismatch { repo: String, provider: String, url: String, used: String },
    NotTracked { repo: String },
    NothingToRevert { node: String },
    MixedOperations { repo: String },
}

impl RevertError {
    pub open spec fn text(&self) -> Seq<char> {
        match self {
            RevertError::MetadataNode { node } => node@
                + " is a metadata node. Knit cannot safely restore a removed repo entry because bundle nodes do not yet store the full removed repo record."@,
            RevertError::UnsupportedNodeType { node, node_type } => "Cannot revert node "@ + node@ + " of type "@ + node_type@ + "."@,
            RevertError::UnsupportedMovement { movement, repo } => "Cannot revert observed movement `"@ + movement@ + "` for repo "@ + repo@ + "."@,
            RevertError::NoRepoIds { node } => "landed node "@ + node@ + " does not record repo ids"@,
            RevertError::NoPublication { repo, node } => repo@ + ": no current review publication recorded for landed node "@ + node@,
            RevertError::NotLandedPublication { repo, url, node } => repo@ + ": current review publication "@ + url@
                + " is not one of the PRs recorded on landed node "@ + node@
                + ". Knit can only provider-revert the current landed PR group."@,
            RevertError::ProviderMismatch { repo, provider, url, used } => repo@ + ": landed node provider is "@ + provider@
                + ", but publication "@ + url@ + " uses "@ + used@ + "."@,
            RevertError::NotTracked { repo } => repo@ + ": repo is no longer tracked in this bundle"@,
            RevertError::NothingToRevert { node } => "Node "@ + node@ + " has no revertable repo operations."@,
            RevertError::MixedOperations { repo } => repo@ + ": provider PR revert operations cannot be mixed with local git operations."@,
        }
    }

    pub fn message(&self) -> (out: String)
        ensures
            out@ == self.text(),
    {
        let mut v: Vec<char> = Vec::new();
        match self {
            RevertError::MetadataNode { node } => {
                append_str(&mut v, node.as_str());
                append_str(&mut v, " is a metadata node. Knit cannot safely restore a removed repo entry because bundle nodes do not yet store the full removed repo record.");
            },
            RevertError::UnsupportedNodeType { node, node_type } => {
                append_str(&mut v, "Cannot revert node ");
                append_str(&mut v, node.as_str());
                append_str(&mut v, " of type ");
                append_str(&mut v, node_type.as_str());
                append_str(&mut v, ".");
            },
            RevertError::UnsupportedMovement { movement, repo } => {
                append_str(&mut v, "Cannot revert observed movement `");
                append_str(&mut v, movement.as_str());
                append_str(&mut v, "` for repo ");
                append_str(&mut v, repo.as_str());
                append_str(&mut v, ".");
            },
            RevertError::NoRepoIds { node } => {
                append_str(&mut v, "landed node ");
                append_str(&mut v, node.as_str());
                append_str(&mut v, " does not record repo ids");
            },
            RevertError::NoPublication { repo, node } => {
                append_str(&mut v, repo.as_str());
                append_str(&mut v, ": no current review publication recorded for landed node ");
                append_str(&mut v, node.as_str());
            },
            RevertError::NotLandedPublication { repo, url, node } => {
                append_str(&mut v, repo.as_str());
                append_str(&mut v, ": current review publication ");
                append_str(&mut v, url.as_str());
                append_str(&mut v, " is not one of the PRs recorded on landed node ");
                append_str(&mut v, node.as_str());
                append_str(&mut v, ". Knit can only provider-revert the current landed PR group.");
            },
            RevertError::ProviderMismatch { repo, provider, url, used } => {
                append_str(&mut v, repo.as_str());
                append_str(&mut v, ": landed node provider is ");
                append_str(&mut v, provider.as_str());
                append_str(&mut v, ", but publication ");
                append_str(&mut v, url.as_str());
                append_str(&mut v, " uses ");
                append_str(&mut v, used.as_str());
                append_str(&mut v, ".");
            },
            RevertError::NotTracked { repo } => {
                append_str(&mut v, repo.as_str());
                append_str(&mut v, ": repo is no longer tracked in this bundle");
            },
            RevertError::NothingToRevert { node } => {
                append_str(&mut v, "Node ");
                append_str(&mut v, node.as_str());
                append_str(&mut v, " has no revertable repo operations.");
            },
            RevertError::MixedOperations { repo } => {
                append_str(&mut v, repo.as_str());
                append_str(&mut v, ": provider PR revert operations cannot be mixed with local git operations.");
            },
        }
        string_from_chars(&v)
    }
}

/// Where the operations of a revert plan come from.
#[derive(Debug, Clone, Copy, PartialEq, Eq, Structural)]
pub enum RevertSource {
    /// Revert the commits a commit or revert group recorded.
    Commits,
    /// Undo the branch movements an observation or land update recorded.
    Observed,
    /// Provider-revert the PRs a landing merged.
    LandedPrs,
}

/// The source of a revert of a node of type `t`, if such nodes can be
/// reverted.
pub open spec fn source_of(t: Seq<char>) -> Option<RevertSource> {
    if t == "commit.group"@ || t == "revert.group"@ {
        Some(RevertSource::Commits)
    } else if t == "git.observed"@ || t == "land.update"@ {
        Some(RevertSource::Observed)
    } else if t == "feature.landed"@ {
        Some(RevertSource::LandedPrs)
    } else {
        None
    }
}

/// How the revert of `node` is planned; removed-repo nodes and nodes of
/// other types cannot be reverted.
pub fn revert_source(node: &BundleNode) -> (r: Result<RevertSource, RevertError>)
    ensures
        match source_of(node.node_type@) {
            Some(s) => r == Ok::<RevertSource, RevertError>(s),
            None => if node.node_type@ == "repo.removed"@ {
                r matches Err(RevertError::MetadataNode { node: n }) && n@ == node.id@
            } else {
                r matches Err(RevertError::UnsupportedNodeType { node: n, node_type: t }) && n@ == node.id@ && t@ == node.node_type@
            },
        },
{
    proof {
        reveal_strlit("commit.group");
        reveal_strlit("revert.group");
        reveal_strlit("git.observed");
        reveal_strlit("land.update");
        reveal_strlit("feature.landed");
        reveal_strlit("repo.removed");
    }
    let t = node.node_type.as_str();
    if str_eq(t, "commit.group") || str_eq(t, "revert.group") {
        Ok(RevertSource::Commits)
    } else if str_eq(t, "git.observed") || str_eq(t, "land.update") {
        Ok(RevertSource::Observed)
    } else if str_eq(t, "feature.landed") {
        Ok(RevertSource::LandedPrs)
    } else if str_eq(t, "repo.removed") {
        Err(RevertError::MetadataNode { node: node.id.clone() })
    } else {
        Err(RevertError::UnsupportedNodeType { node: node.id.clone(), node_type: node.node_type.clone() })
    }
}

/// `op` is a `kind` operation on commit `sha`.
pub open spec fn op_on(op: RevertOperation, kind: RevertOpKind, sha: Seq<char>) -> bool {
    &&& op.kind == kind
    &&& op.sha is Some
    &&& op.sha->0@ == sha
    &&& op.selector is None
}

/// `ops` are `kind` operations on `shas`, one each, in order.
pub open spec fn ops_on(ops: Seq<RevertOperation>, kind: RevertOpKind, shas: Seq<Seq<char>>) -> bool {
    &&& ops.len() == shas.len()
    &&& forall|k: int| 0 <= k < ops.len() ==> op_on(#[trigger] ops[k], kind, shas[k])
}

fn git_op(kind: RevertOpKind, sha: &String) -> (op: RevertOperation)
    ensures
        op_on(op, kind, sha@),
{
    RevertOperation { kind, sha: Some(sha.clone()), selector: None }
}

/// `kind` operations on `shas`, in order (`reversed`: last to first).
fn ops_for(kind: RevertOpKind, shas: &Vec<String>, reversed: bool) -> (ops: Vec<RevertOperation>)
    ensures
        ops_on(ops@, kind, if reversed { strings_view(shas@).reverse() } else { strings_view(shas@) }),
{
    let ghost target = if reversed { strings_view(shas@).reverse() } else { strings_view(shas@) };
    let mut ops: Vec<RevertOperation> = Vec::new();
    let mut k: usize = 0;
    while k < shas.len()
        invariant
            k <= shas@.len(),
            target.len() == shas@.len(),
            target == (if reversed { strings_view(shas@).reverse() } else { strings_view(shas@) }),
            ops@.len() == k,
            forall|j: int| 0 <= j < k ==> op_on(#[trigger] ops@[j], kind, target[j]),
        decreases shas.len() - k,
    {
        let idx = if reversed { shas.len() - 1 - k } else { k };
        let op = git_op(kind, &shas[idx]);
        proof {
            assert(target[k as int] == shas@[idx as int]@);
        }
        ops.push(op);
        k += 1;
    }
    ops
}

/// The commits of `cs` in repo `x`, last recorded first.
pub open spec fn rev_shas(cs: Seq<CommitRef>, x: Seq<char>) -> Seq<Seq<char>>
    decreases cs.len(),
{
    if cs.len() == 0 {
        Seq::empty()
    } else {
        let rest = rev_shas(cs.drop_last(), x);
        if cs.last().repo_id@ == x {
            seq![cs.last().sha@] + rest
        } else {
            rest
        }
    }
}

pub open spec fn commit_repo_ids(cs: Seq<CommitRef>) -> Seq<Seq<char>> {
    cs.map_values(|c: CommitRef| c.repo_id@)
}

/// The revert operations for a commit group's commits: per repo, in repo id
/// order, a revert of each of the repo's commits, last recorded first.
pub fn commit_revert_ops(commits: &Vec<CommitRef>) -> (out: Vec<RepoRevertOps>)
    ensures
        sorted_strict(out@.map_values(|p: RepoRevertOps| p.repo_id@)),
        forall|x: Seq<char>| out@.map_values(|p: RepoRevertOps| p.repo_id@).contains(x) <==> commit_repo_ids(commits@).contains(x),
        forall|k: int| 0 <= k < out@.len() ==> ops_on(#[trigger] out@[k].operations@, RevertOpKind::Revert, rev_shas(commits@, out@[k].repo_id@)),
{
    let mut ids: Vec<String> = Vec::new();
    let mut i: usize = 0;
    while i < commits.len()
        invariant
            i <= commits@.len(),
            strings_view(ids@) == commit_repo_ids(commits@).take(i as int),
        decreases commits.len() - i,
    {
        let ghost prev = ids@;
        ids.push(commits[i].repo_id.clone());
        proof {
            assert(strings_view(ids@) =~= strings_view(prev).push(commits@[i as int].repo_id@));
            assert(commit_repo_ids(commits@).take(i + 1) =~= commit_repo_ids(commits@).take(i as int).push(commits@[i as int].repo_id@));
        }
        i += 1;
    }
    proof {
        assert(commit_repo_ids(commits@).take(commits@.len() as int) =~= commit_repo_ids(commits@));
    }
    let sorted = sorted_unique(&ids);
    let mut out: Vec<RepoRevertOps> = Vec::new();
    let mut k: usize = 0;
    while k < sorted.len()
        invariant
            k <= sorted@.len(),
            out@.len() == k,
            forall|j: int| 0 <= j < k ==> (#[trigger] out@[j]).repo_id@ == sorted@[j]@,
            forall|j: int| 0 <= j < k ==> ops_on(#[trigger] out@[j].operations@, RevertOpKind::Revert, rev_shas(commits@, out@[j].repo_id@)),
        decreases sorted.len() - k,
    {
        let x = &sorted[k];
        let mut ops: Vec<RevertOperation> = Vec::new();
        let mut c: usize = 0;
        proof {
            assert(commits@.take(0) =~= Seq::<CommitRef>::empty());
        }
        while c < commits.len()
            invariant
                c <= commits@.len(),
                ops_on(ops@, RevertOpKind::Revert, rev_shas(commits@.take(c as int), x@)),
            decreases commits.len() - c,
        {
            proof {
                assert(commits@.take(c + 1).drop_last() =~= commits@.take(c as int));
                assert(commits@.take(c + 1).last() == commits@[c as int]);
            }
            if commits[c].repo_id == *x {
                let ghost prev = ops@;
                let op = git_op(RevertOpKind::Revert, &commits[c].sha);
                ops.insert(0, op);
                proof {
                    let t = rev_shas(commits@.take(c + 1), x@);
                    assert(t =~= seq![commits@[c as int].sha@] + rev_shas(commits@.take(c as int), x@));
                    assert forall|j: int| 0 <= j < ops@.len() implies op_on(#[trigger] ops@[j], RevertOpKind::Revert, t[j]) by {
                        if j > 0 {
                            assert(ops@[j] == prev[j - 1]);
                        }
                    }
                }
            }
            c += 1;
        }
        proof {
            assert(commits@.take(commits@.len() as int) =~= commits@);
        }
        out.push(RepoRevertOps { repo_id: x.clone(), operations: ops });
        k += 1;
    }
    proof {
        let ov = out@.map_values(|p: RepoRevertOps| p.repo_id@);
        assert(ov =~= strings_view(sorted@));
    }
    out
}

/// The operations that undo one observed branch movement: reverts of the
/// gained commits (last first) for `advanced`; cherry-picks of the dropped
/// commits for `rewound`; both, reverts first, for `diverged`.
pub fn observed_change_ops(change: &RepoChange) -> (r: Result<Vec<RevertOperation>, RevertError>)
    ensures
        ({
            let gained = strings_view(change.commits@).reverse();
            let dropped = strings_view(change.dropped_commits@);
            let m = change.movement@;
            if m == "advanced"@ {
                r matches Ok(ops) && ops_on(ops@, RevertOpKind::Revert, gained)
            } else if m == "rewound"@ {
                r matches Ok(ops) && ops_on(ops@, RevertOpKind::CherryPick, dropped)
            } else if m == "diverged"@ {
                r matches Ok(ops) && ops_on(ops@.take(gained.len() as int), RevertOpKind::Revert, gained)
                    && ops_on(ops@.skip(gained.len() as int), RevertOpKind::CherryPick, dropped)
            } else {
                r matches Err(RevertError::UnsupportedMovement { movement: mv, repo }) && mv@ == m && repo@ == change.repo_id@
            }
        }),
{
    let m = change.movement.as_str();
    if str_eq(m, "advanced") {
        Ok(ops_for(RevertOpKind::Revert, &change.commits, true))
    } else if str_eq(m, "rewound") {
        Ok(ops_for(RevertOpKind::CherryPick, &change.dropped_commits, false))
    } else if str_eq(m, "diverged") {
        let mut ops = ops_for(RevertOpKind::Revert, &change.commits, true);
        let ghost a = ops@;
        let mut b = ops_for(RevertOpKind::CherryPick, &change.dropped_commits, false);
        let ghost bv = b@;
        ops.append(&mut b);
        proof {
            assert(ops@ =~= a + bv);
            assert(ops@.take(a.len() as int) =~= a);
            assert(ops@.skip(a.len() as int) =~= bv);
        }
        Ok(ops)
    } else {
        Err(RevertError::UnsupportedMovement { movement: change.movement.clone(), repo: change.repo_id.clone() })
    }
}

/// The message a revert records for the node it reverts: the node's own
/// message, else a description of its type.
pub open spec fn node_message_spec(node: BundleNode) -> Seq<char> {
    match node.message {
        Some(m) => m@,
        None => {
            let t = node.node_type@;
            if t == "git.observed"@ {
                "observed git changes"@
            } else if t == "land.update"@ {
                "feature branch update"@
            } else if t == "feature.landed"@ {
                "landed PR group"@
            } else if t == "pr.revert"@ {
                "provider PR revert"@
            } else if t == "repo.removed"@ {
                "removed repos"@
            } else {
                t
            }
        },
    }
}

pub fn node_message(node: &BundleNode) -> (out: String)
    ensures
        out@ == node_message_spec(*node),
{
    if let Some(m) = &node.message {
        return m.clone();
    }
    let t = node.node_type.as_str();
    let s = if str_eq(t, "git.observed") {
        "observed git changes"
    } else if str_eq(t, "land.update") {
        "feature branch update"
    } else if str_eq(t, "feature.landed") {
        "landed PR group"
    } else if str_eq(t, "pr.revert") {
        "provider PR revert"
    } else if str_eq(t, "repo.removed") {
        "removed repos"
    } else {
        t
    };
    string_from_chars(&chars_of(s))
}

/// The commit message of a local revert: the logical message `Revert
/// <message>`, then the trailers naming the reverted node, the revert
/// group and the bundle.
pub open spec fn revert_commit_spec(target_message: Seq<char>, target_node: Seq<char>, group: Seq<char>, bundle: Seq<char>) -> Seq<char> {
    "Revert "@ + target_message + "\n\nKnit-Reverts: "@ + target_node + "\nKnit-Group: "@ + group + "\nKnit-Bundle: "@ + bundle
}

pub fn revert_commit_message(target_message: &str, target_node: &str, group: &str, bundle: &str) -> (out: String)
    ensures
        out@ == revert_commit_spec(target_message@, target_node@, group@, bundle@),
{
    let mut v: Vec<char> = Vec::new();
    append_str(&mut v, "Revert ");
    append_str(&mut v, target_message);
    append_str(&mut v, "\n\nKnit-Reverts: ");
    append_str(&mut v, target_node);
    append_str(&mut v, "\nKnit-Group: ");
    append_str(&mut v, group);
    append_str(&mut v, "\nKnit-Bundle: ");
    append_str(&mut v, bundle);
    string_from_chars(&v)
}

/// The plans of `s` that hold operations, in order.
pub open spec fn nonempty_plans(s: Seq<RepoRevertOps>) -> Seq<RepoRevertOps>
    decreases s.len(),
{
    if s.len() == 0 {
        Seq::empty()
    } else {
        let p = nonempty_plans(s.drop_last());
        if s.last().operations@.len() > 0 {
            p.push(s.last())
        } else {
            p
        }
    }
}

/// The plans that hold operations, in order; a node whose plans hold none
/// cannot be reverted.
pub fn keep_nonempty_plans(plans: Vec<RepoRevertOps>, node_id: &str) -> (r: Result<Vec<RepoRevertOps>, RevertError>)
    ensures
        match r {
            Ok(kept) => kept@.len() > 0 && kept@ == nonempty_plans(plans@),
            Err(e) => nonempty_plans(plans@).len() == 0
                && (e matches RevertError::NothingToRevert { node } && node@ == node_id@),
        },
{
    let ghost src = plans@;
    let mut kept: Vec<RepoRevertOps> = Vec::new();
    for p in it: plans
        invariant
            it.seq() == src,
            kept@ == nonempty_plans(src.take(it.index() as int)),
    {
        proof {
            assert(src.take(it.index() + 1).drop_last() =~= src.take(it.index() as int));
            assert(src.take(it.index() + 1).last() == p);
        }
        if p.operations.len() > 0 {
            kept.push(p);
        }
    }
    proof {
        assert(src.take(src.len() as int) =~= src);
    }
    if kept.len() == 0 {
        return Err(RevertError::NothingToRevert { node: string_from_chars(&chars_of(node_id)) });
    }
    Ok(kept)
}

/// The plan for a repo mixes provider PR reverts with local git operations.
pub open spec fn mixes_operations(ops: Seq<RevertOperation>) -> bool {
    (exists|i: int| 0 <= i < ops.len() && (#[trigger] ops[i]).kind == RevertOpKind::PrRevert)
        && (exists|j: int| 0 <= j < ops.len() && (#[trigger] ops[j]).kind != RevertOpKind::PrRevert)
}

/// Refuses a repo plan that mixes provider PR reverts with git operations.
pub fn check_operation_mix(plan: &RepoRevertOps) -> (r: Result<(), RevertError>)
    ensures
        r is Ok <==> !mixes_operations(plan.operations@),
        r matches Err(e) ==> (e matches RevertError::MixedOperations { repo } && repo@ == plan.repo_id@),
{
    let mut has_pr = false;
    let mut has_git = false;
    let mut i: usize = 0;
    while i < plan.operations.len()
        invariant
            i <= plan.operations@.len(),
            has_pr == exists|k: int| 0 <= k < i && (#[trigger] plan.operations@[k]).kind == RevertOpKind::PrRevert,
            has_git == exists|k: int| 0 <= k < i && (#[trigger] plan.operations@[k]).kind != RevertOpKind::PrRevert,
        decreases plan.operations.len() - i,
    {
        if plan.operations[i].kind == RevertOpKind::PrRevert {
            has_pr = true;
        } else {
            has_git = true;
        }
        i += 1;
    }
    if has_pr && has_git {
        Err(RevertError::MixedOperations { repo: plan.repo_id.clone() })
    } else {
        Ok(())
    }
}

/// The plan uses provider PR reverts.
pub fn plan_uses_provider_revert(plans: &Vec<RepoRevertOps>) -> (b: bool)
    ensures
        b == exists|p: int, i: int| 0 <= p < plans@.len() && 0 <= i < plans@[p].operations@.len()
            && (#[trigger] plans@[p].operations@[i]).kind == RevertOpKind::PrRevert,
{
    let mut p: usize = 0;
    while p < plans.len()
        invariant
            p <= plans@.len(),
            forall|q: int, i: int| 0 <= q < p && 0 <= i < plans@[q].operations@.len()
                ==> (#[trigger] plans@[q].operations@[i]).kind != RevertOpKind::PrRevert,
        decreases plans.len() - p,
    {
        let ops = &plans[p].operations;
        let mut i: usize = 0;
        while i < ops.len()
            invariant
                p < plans@.len(),
                ops == plans@[p as int].operations,
                i <= ops@.len(),
                forall|q: int, k: int| 0 <= q < p && 0 <= k < plans@[q].operations@.len()
                    ==> (#[trigger] plans@[q].operations@[k]).kind != RevertOpKind::PrRevert,
                forall|k: int| 0 <= k < i ==> (#[trigger] ops@[k]).kind != RevertOpKind::PrRevert,
            decreases ops.len() - i,
        {
            if ops[i].kind == RevertOpKind::PrRevert {
                return true;
            }
            i += 1;
        }
        p += 1;
    }
    false
}

/// The position of the first publication recorded for repo `x`.
pub open spec fn first_publication(b: ChangeGroup, x: Seq<char>) -> int {
    choose|p: int| is_publication_index(b, x, p)
}

/// What stops a provider revert of repo `x`'s landed PR, checked in order:
/// no publication (1), a publication that is not among the node's landed
/// PRs (2), one on another provider than the node's (3), a repo no longer
/// tracked (4); 0 when nothing does.
pub open spec fn landed_blocker(b: ChangeGroup, node: BundleNode, x: Seq<char>) -> int {
    if !has_publication(b, x) {
        1
    } else {
        let p = b.publications@[first_publication(b, x)];
        if node.publication_urls@.len() > 0 && !strings_view(node.publication_urls@).contains(p.url@) {
            2
        } else if node.provider is Some && node.provider->0@ != p.provider@ {
            3
        } else if !repo_ids(b.repos@).contains(x) {
            4
        } else {
            0
        }
    }
}

/// `e` reports blocker `code` for repo `x` of landed node `node`.
pub open spec fn landed_error_is(e: RevertError, code: int, b: ChangeGroup, node: BundleNode, x: Seq<char>) -> bool {
    let p = b.publications@[first_publication(b, x)];
    match e {
        RevertError::NoPublication { repo, node: n } => code == 1 && repo@ == x && n@ == node.id@,
        RevertError::NotLandedPublication { repo, url, node: n } => code == 2 && repo@ == x && url@ == p.url@ && n@ == node.id@,
        RevertError::ProviderMismatch { repo, provider, url, used } => code == 3 && repo@ == x && provider@ == node.provider->0@
            && url@ == p.url@ && used@ == p.provider@,
        RevertError::NotTracked { repo } => code == 4 && repo@ == x,
        _ => false,
    }
}

/// `plan` provider-reverts the PR at the first publication of its repo.
pub open spec fn is_pr_revert_plan(plan: RepoRevertOps, b: ChangeGroup) -> bool {
    let op = plan.operations@[0];
    &&& plan.operations@.len() == 1
    &&& op.kind == RevertOpKind::PrRevert
    &&& op.sha is None
    &&& op.selector is Some
    &&& op.selector->0@ == b.publications@[first_publication(b, plan.repo_id@)].url@
}

fn pr_revert_plan(b: &ChangeGroup, node: &BundleNode, repo_id: &String) -> (r: Result<RepoRevertOps, RevertError>)
    ensures
        match r {
            Ok(plan) => landed_blocker(*b, *node, repo_id@) == 0 && plan.repo_id@ == repo_id@ && is_pr_revert_plan(plan, *b),
            Err(e) => landed_blocker(*b, *node, repo_id@) != 0 && landed_error_is(e, landed_blocker(*b, *node, repo_id@), *b, *node, repo_id@),
        },
{
    let p = match publication_for_repo(b, repo_id.as_str()) {
        Some(p) => p,
        None => return Err(RevertError::NoPublication { repo: repo_id.clone(), node: node.id.clone() }),
    };
    proof {
        assert(is_publication_index(*b, repo_id@, p as int));
        let f = first_publication(*b, repo_id@);
        assert(is_publication_index(*b, repo_id@, f));
        if f < p {
            assert(b.publications@[f].repo_id@ != repo_id@);
        } else if p < f {
            assert(b.publications@[p as int].repo_id@ != repo_id@);
        }
        assert(f == p);
    }
    let url = &b.publications[p].url;
    if node.publication_urls.len() > 0 && !contains_string(&node.publication_urls, url) {
        return Err(RevertError::NotLandedPublication { repo: repo_id.clone(), url: url.clone(), node: node.id.clone() });
    }
    if let Some(provider) = &node.provider {
        if !str_eq(b.publications[p].provider.as_str(), provider.as_str()) {
            return Err(RevertError::ProviderMismatch {
                repo: repo_id.clone(),
                provider: provider.clone(),
                url: url.clone(),
                used: b.publications[p].provider.clone(),
            });
        }
    }
    let mut known = false;
    let mut i: usize = 0;
    while i < b.repos.len()
        invariant
            i <= b.repos@.len(),
            known == repo_ids(b.repos@).take(i as int).contains(repo_id@),
        decreases b.repos.len() - i,
    {
        proof {
            assert(repo_ids(b.repos@).take(i + 1) =~= repo_ids(b.repos@).take(i as int).push(b.repos@[i as int].id@));
        }
        if b.repos[i].id == *repo_id {
            known = true;
        }
        proof {
            let t = repo_ids(b.repos@).take(i as int);
            let t2 = repo_ids(b.repos@).take(i + 1);
            if t.contains(repo_id@) {
                let j = choose|j: int| 0 <= j < t.len() && t[j] == repo_id@;
                assert(t2[j] == repo_id@);
            }
            if t2.contains(repo_id@) {
                let j = choose|j: int| 0 <= j < t2.len() && t2[j] == repo_id@;
                if j < i {
                    assert(t[j] == repo_id@);
                }
            }
            if b.repos@[i as int].id@ == repo_id@ {
                assert(t2[i as int] == repo_id@);
            }
        }
        i += 1;
    }
    proof {
        assert(repo_ids(b.repos@).take(b.repos@.len() as int) =~= repo_ids(b.repos@));
    }
    if !known {
        return Err(RevertError::NotTracked { repo: repo_id.clone() });
    }
    let mut ops: Vec<RevertOperation> = Vec::new();
    ops.push(RevertOperation { kind: RevertOpKind::PrRevert, sha: None, selector: Some(url.clone()) });
    Ok(RepoRevertOps { repo_id: repo_id.clone(), operations: ops })
}

/// The provider reverts planned for a landed PR group: for each repo the
/// node recorded, in order, a revert of the PR at the repo's publication.
/// The first repo that cannot be reverted is reported.
pub fn landed_pr_revert_ops(b: &ChangeGroup, node: &BundleNode) -> (r: Result<Vec<RepoRevertOps>, RevertError>)
    ensures
        match node.repo_ids {
            None => r matches Err(RevertError::NoRepoIds { node: n }) && n@ == node.id@,
            Some(ids) => if ids@.len() == 0 {
                r matches Err(RevertError::NoRepoIds { node: n }) && n@ == node.id@
            } else {
                match r {
                    Ok(plans) => plans@.len() == ids@.len() && forall|k: int| 0 <= k < plans@.len() ==> {
                        &&& (#[trigger] plans@[k]).repo_id@ == ids@[k]@
                        &&& landed_blocker(*b, *node, ids@[k]@) == 0
                        &&& is_pr_revert_plan(plans@[k], *b)
                    },
                    Err(e) => exists|k: int|
                        0 <= k < ids@.len() && (forall|j: int| 0 <= j < k ==> landed_blocker(*b, *node, (#[trigger] ids@[j])@) == 0)
                            && landed_blocker(*b, *node, (#[trigger] ids@[k])@) != 0
                            && landed_error_is(e, landed_blocker(*b, *node, ids@[k]@), *b, *node, ids@[k]@),
                }
            },
        },
{
    let ids = match &node.repo_ids {
        Some(ids) => ids,
        None => return Err(RevertError::NoRepoIds { node: node.id.clone() }),
    };
    if ids.len() == 0 {
        return Err(RevertError::NoRepoIds { node: node.id.clone() });
    }
    let mut plans: Vec<RepoRevertOps> = Vec::new();
    let mut k: usize = 0;
    while k < ids.len()
        invariant
            node.repo_ids == Some(*ids),
            k <= ids@.len(),
            plans@.len() == k,
            forall|j: int| 0 <= j < k ==> {
                &&& (#[trigger] plans@[j]).repo_id@ == ids@[j]@
                &&& landed_blocker(*b, *node, ids@[j]@) == 0
                &&& is_pr_revert_plan(plans@[j], *b)
            },
        decreases ids.len() - k,
    {
        match pr_revert_plan(b, node, &ids[k]) {
            Ok(plan) => plans.push(plan),
            Err(e) => {
                proof {
                    assert forall|j: int| 0 <= j < k implies landed_blocker(*b, *node, (#[trigger] ids@[j])@) == 0 by {
                        assert(plans@[j].repo_id@ == ids@[j]@);
                    }
                }
                return Err(e);
            },
        }
        k += 1;
    }
    Ok(plans)
}

} // verus!
