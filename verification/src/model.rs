//! The bundle data model: repos, publications, commit groups, ledger nodes,
//! and the pull-request and check-run summaries read from a code host.
use vstd::prelude::*;

use crate::text::str_eq;

verus! {

/// `kind` of a review publication that is a pull request.
pub const PULL_REQUEST_KIND: &'static str = "pull_request";

/// `kind` of a review publication that is a merge request.
pub const MERGE_REQUEST_KIND: &'static str = "merge_request";

/// How a repo's feature work is checked out.
#[derive(Debug, Clone, Copy, PartialEq, Eq, Structural)]
pub enum CheckoutMode {
    Worktree,
    InPlace,
}

/// Lifecycle state of a bundle.
#[derive(Debug, Clone, Copy, PartialEq, Eq, Structural)]
pub enum BundleState {
    Open,
    Landed,
    Archived,
}

impl BundleState {
    pub open spec fn label(self) -> Seq<char> {
        match self {
            BundleState::Open => "open"@,
            BundleState::Landed => "landed"@,
            BundleState::Archived => "archived"@,
        }
    }

    pub fn as_str(self) -> (s: &'static str)
        ensures
            s@ == self.label(),
    {
        match self {
            BundleState::Open => "open",
            BundleState::Landed => "landed",
            BundleState::Archived => "archived",
        }
    }
}

/// One repository tracked by a bundle.
#[derive(Debug, Clone)]
pub struct RepoEntry {
    pub id: String,
    pub path: String,
    pub remote: Option<String>,
    pub base_branch: String,
    pub checkout_mode: CheckoutMode,
    pub base_sha: Option<String>,
    pub feature_branch: Option<String>,
    pub worktree_path: Option<String>,
    pub head_sha: Option<String>,
}

/// A review object (pull or merge request) recorded for a repo.
#[derive(Debug, Clone)]
pub struct PublicationEntry {
    pub repo_id: String,
    pub provider: String,
    pub kind: String,
    pub number: u64,
    pub url: String,
    pub base_branch: String,
    pub head_branch: String,
    pub state: String,
    pub title: Option<String>,
    pub updated_at: String,
}

/// A commit recorded in one repo.
#[derive(Debug, Clone)]
pub struct CommitRef {
    pub repo_id: String,
    pub sha: String,
}

/// One logical commit across repos.
#[derive(Debug, Clone)]
pub struct CommitGroup {
    pub id: String,
    pub message: String,
    pub created_at: String,
    pub commits: Vec<CommitRef>,
    pub author: Option<String>,
}

/// How a repo's branch moved between two observations: `advanced`,
/// `rewound` or `diverged`, with the commits gained and the ones dropped.
#[derive(Debug, Clone)]
pub struct RepoChange {
    pub repo_id: String,
    pub movement: String,
    pub before_sha: Option<String>,
    pub after_sha: String,
    pub commits: Vec<String>,
    pub dropped_commits: Vec<String>,
}

/// One entry of the bundle ledger.
#[derive(Debug, Clone)]
pub struct BundleNode {
    pub id: String,
    pub node_type: String,
    pub title: Option<String>,
    pub message: Option<String>,
    pub commit_group_id: Option<String>,
    pub commits: Vec<CommitRef>,
    pub repo_changes: Vec<RepoChange>,
    pub repo_ids: Option<Vec<String>>,
    pub publication_urls: Vec<String>,
    pub provider: Option<String>,
    pub target_node_id: Option<String>,
    pub plan_id: Option<String>,
    pub run_id: Option<String>,
}

/// A bundle: the cross-repo analogue of a branch.
#[derive(Debug, Clone)]
pub struct ChangeGroup {
    pub schema_version: String,
    pub kind: String,
    pub id: String,
    pub title: String,
    pub state: Option<BundleState>,
    pub closed_at: Option<String>,
    pub archived_at: Option<String>,
    pub deleted_at: Option<String>,
    pub project_id: Option<String>,
    pub created_at: String,
    pub updated_at: String,
    pub head_node_id: Option<String>,
    pub repos: Vec<RepoEntry>,
    pub commit_groups: Vec<CommitGroup>,
    pub nodes: Vec<BundleNode>,
    pub publications: Vec<PublicationEntry>,
    pub work_item_ids: Vec<String>,
}

/// A pull request as the code host reports it.
#[derive(Debug, Clone)]
pub struct PullRequest {
    pub number: u64,
    pub url: String,
    pub state: Option<String>,
    pub title: Option<String>,
    pub base_ref_name: Option<String>,
    pub head_ref_name: Option<String>,
    pub body: Option<String>,
    pub is_draft: Option<bool>,
    pub head_ref_oid: Option<String>,
    pub mergeable: Option<String>,
    pub review_decision: Option<String>,
}

/// One check run on a pull request.
#[derive(Debug, Clone)]
pub struct CheckRun {
    pub name: String,
    pub bucket: Option<String>,
    pub state: Option<String>,
}

/// The view of an optional string, with `None` as the empty option.
pub open spec fn opt_view(o: Option<String>) -> Option<Seq<char>> {
    match o {
        Some(s) => Some(s@),
        None => None,
    }
}

/// Index of the first publication recorded for `repo_id`.
pub open spec fn is_publication_index(b: ChangeGroup, repo_id: Seq<char>, i: int) -> bool {
    0 <= i < b.publications@.len() && b.publications@[i].repo_id@ == repo_id && forall|j: int|
        0 <= j < i ==> b.publications@[j].repo_id@ != repo_id
}

/// `repo_id` has a recorded publication.
pub open spec fn has_publication(b: ChangeGroup, repo_id: Seq<char>) -> bool {
    exists|i: int| 0 <= i < b.publications@.len() && b.publications@[i].repo_id@ == repo_id
}

/// The position of the publication recorded for `repo_id`: the first one
/// whose repo id matches.
pub fn publication_for_repo(b: &ChangeGroup, repo_id: &str) -> (r: Option<usize>)
    ensures
        match r {
            Some(i) => is_publication_index(*b, repo_id@, i as int),
            None => !has_publication(*b, repo_id@),
        },
{
    let mut i: usize = 0;
    while i < b.publications.len()
        invariant
            i <= b.publications@.len(),
            forall|j: int| 0 <= j < i ==> b.publications@[j].repo_id@ != repo_id@,
        decreases b.publications.len() - i,
    {
        if str_eq(b.publications[i].repo_id.as_str(), repo_id) {
            return Some(i);
        }
        i += 1;
    }
    None
}

/// Whether a publication kind is a review object (pull or merge request).
pub open spec fn review_kind(kind: Seq<char>) -> bool {
    kind == PULL_REQUEST_KIND@ || kind == MERGE_REQUEST_KIND@
}

pub fn is_review_kind(kind: &str) -> (b: bool)
    ensures
        b == review_kind(kind@),
{
    str_eq(kind, PULL_REQUEST_KIND) || str_eq(kind, MERGE_REQUEST_KIND)
}

/// The PR state, `UNKNOWN` when the host reported none.
pub open spec fn pr_state(pr: PullRequest) -> Seq<char> {
    match pr.state {
        Some(s) => s@,
        None => "UNKNOWN"@,
    }
}

/// The PR cannot merge cleanly into its base.
pub open spec fn pr_conflicting(pr: PullRequest) -> bool {
    match pr.mergeable {
        Some(m) => m@ == "CONFLICTING"@,
        None => false,
    }
}

pub fn is_conflicting(pr: &PullRequest) -> (b: bool)
    ensures
        b == pr_conflicting(*pr),
{
    match &pr.mergeable {
        Some(m) => str_eq(m.as_str(), "CONFLICTING"),
        None => false,
    }
}

/// The PR was merged.
pub fn state_is_merged(pr: &PullRequest) -> (b: bool)
    ensures
        b == (pr.state is Some && pr.state->0@ == "MERGED"@),
{
    match &pr.state {
        Some(s) => str_eq(s.as_str(), "MERGED"),
        None => false,
    }
}

} // verus!
