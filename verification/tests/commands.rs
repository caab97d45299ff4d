use knit::land_check::{assess_landing_readiness, landing_publications, readiness_needs_checks, readiness_tally, PrLookup};
use knit::land_update::{update_failure_message, update_land_branches, UpdateError};
use knit::log::{node_detail, show_target, NodeDetail, ShowSource};
use knit::merge::{create_compat_bundle, merge_command, union_source_repo_ids, CompatPlan, MergeAction, MergeError};
use knit::model::{
    BundleNode, BundleState, ChangeGroup, CheckRun, CheckoutMode, CommitRef, PublicationEntry, PullRequest,
    RepoChange, RepoEntry, PULL_REQUEST_KIND,
};
use knit::pull::{pull, pull_in_context, PullAction};
use knit::revert::{
    check_operation_mix, commit_revert_ops, keep_nonempty_plans, landed_pr_revert_ops, node_message,
    observed_change_ops, plan_uses_provider_revert, revert_commit_message, revert_source, revert_target,
    RepoRevertOps, RevertError, RevertMode, RevertOpKind, RevertOperation, RevertSource,
};

fn repo(id: &str) -> RepoEntry {
    RepoEntry {
        id: id.to_string(),
        path: format!("/tmp/{id}"),
        remote: None,
        base_branch: "main".to_string(),
        checkout_mode: CheckoutMode::Worktree,
        base_sha: None,
        feature_branch: Some("knit/f".to_string()),
        worktree_path: None,
        head_sha: Some("h1".to_string()),
    }
}

fn publication(repo_id: &str, url: &str, provider: &str) -> PublicationEntry {
    PublicationEntry {
        repo_id: repo_id.to_string(),
        provider: provider.to_string(),
        kind: PULL_REQUEST_KIND.to_string(),
        number: 1,
        url: url.to_string(),
        base_branch: "develop".to_string(),
        head_branch: "knit/f".to_string(),
        state: "OPEN".to_string(),
        title: None,
        updated_at: "t".to_string(),
    }
}

fn bundle(repos: Vec<RepoEntry>, publications: Vec<PublicationEntry>) -> ChangeGroup {
    ChangeGroup {
        schema_version: "1".to_string(),
        kind: "KnitBundle".to_string(),
        id: "f".to_string(),
        title: "f".to_string(),
        state: Some(BundleState::Open),
        closed_at: None,
        archived_at: None,
        deleted_at: None,
        project_id: None,
        created_at: "t".to_string(),
        updated_at: "t".to_string(),
        head_node_id: None,
        repos,
        commit_groups: Vec::new(),
        nodes: Vec::new(),
        publications,
        work_item_ids: Vec::new(),
    }
}

fn node(id: &str, node_type: &str) -> BundleNode {
    BundleNode {
        id: id.to_string(),
        node_type: node_type.to_string(),
        title: None,
        message: None,
        commit_group_id: None,
        commits: Vec::new(),
        repo_changes: Vec::new(),
        repo_ids: None,
        publication_urls: Vec::new(),
        provider: None,
        target_node_id: None,
        plan_id: None,
        run_id: None,
    }
}

fn strings(values: &[&str]) -> Vec<String> {
    values.iter().map(|s| s.to_string()).collect()
}

#[test]
fn merge_command_modes() {
    assert!(matches!(merge_command(Some("status"), None, false, false, false), Ok(MergeAction::ShowStatus)));
    assert!(matches!(merge_command(Some("show"), None, false, false, false), Ok(MergeAction::ShowRun)));
    assert!(matches!(merge_command(Some("push"), None, false, false, false), Ok(MergeAction::PushRun)));
    assert!(matches!(merge_command(None, None, false, false, true), Ok(MergeAction::Abort)));
    assert!(matches!(merge_command(None, None, false, true, false), Ok(MergeAction::Continue)));
    match merge_command(Some("feature"), Some("main"), true, false, false) {
        Ok(MergeAction::Start { source, into }) => {
            assert_eq!(source, "feature");
            assert_eq!(into, "main");
        }
        _ => panic!("expected a merge start"),
    }
    assert_eq!(merge_command(None, None, false, false, false).unwrap_err(), MergeError::WrongModes);
    assert_eq!(merge_command(Some("feature"), None, false, true, false).unwrap_err(), MergeError::WrongModes);
    assert_eq!(merge_command(Some("feature"), None, false, false, false).unwrap_err(), MergeError::NeedsInto);
    assert_eq!(merge_command(None, Some("main"), false, true, false).unwrap_err(), MergeError::StartOnlyFlags);
    assert_eq!(
        MergeError::NeedsInto.message(),
        "`knit merge <source>` requires --into <target>."
    );
}

#[test]
fn compat_bundle_plans() {
    let a = bundle(vec![repo("api"), repo("web")], Vec::new());
    let b = bundle(vec![repo("web"), repo("docs")], Vec::new());
    let sources = vec![a, b];
    assert_eq!(union_source_repo_ids(&sources), strings(&["api", "web", "docs"]));
    match create_compat_bundle(&strings(&["one", "two"]), None, Some("proj"), false, &sources).unwrap() {
        CompatPlan::Project { title, project_id, repo_ids, all_repos } => {
            assert_eq!(title, "compat one two");
            assert_eq!(project_id, "proj");
            assert_eq!(repo_ids, strings(&["api", "web", "docs"]));
            assert!(!all_repos);
        }
        _ => panic!("expected a project plan"),
    }
    match create_compat_bundle(&strings(&["one"]), Some("T"), None, false, &sources).unwrap() {
        CompatPlan::FromSources { title } => assert_eq!(title, "T"),
        _ => panic!("expected a source plan"),
    }
    assert_eq!(
        create_compat_bundle(&Vec::new(), None, None, false, &Vec::new()).unwrap_err().message(),
        "Pass at least one source bundle for a compatibility bundle."
    );
    assert_eq!(
        create_compat_bundle(&strings(&["one"]), None, None, true, &sources).unwrap_err(),
        MergeError::AllReposNeedsProject
    );
}

#[test]
fn pull_decisions() {
    assert_eq!(
        pull(&Vec::new(), false, false, true, false, false, false),
        PullAction::Aggregate { base: false, current: true, bundles: false }
    );
    assert_eq!(pull(&Vec::new(), false, false, false, false, false, false), PullAction::ResolveContext);
    assert_eq!(pull(&strings(&["api"]), false, false, false, false, false, false), PullAction::Bundle);
    assert_eq!(pull_in_context(true), PullAction::Aggregate { base: false, current: true, bundles: true });
    assert_eq!(pull_in_context(false), PullAction::Bundle);
}

#[test]
fn show_decisions() {
    let mut b = bundle(Vec::new(), Vec::new());
    assert_eq!(show_target(&b), ShowSource::CommitGroup);
    b.nodes.push(node("n1", "commit.group"));
    assert_eq!(show_target(&b), ShowSource::Node);
    assert_eq!(node_detail(&node("n", "land.update")), NodeDetail::Observed);
    assert_eq!(node_detail(&node("n", "pr.revert")), NodeDetail::Landing);
    assert_eq!(node_detail(&node("n", "worktree.materialized")), NodeDetail::NoDetails);
}

fn pr(state: Option<&str>, draft: Option<bool>, mergeable: Option<&str>, review: Option<&str>) -> PullRequest {
    PullRequest {
        number: 42,
        url: "u".to_string(),
        state: state.map(|s| s.to_string()),
        title: None,
        base_ref_name: None,
        head_ref_name: None,
        body: None,
        is_draft: draft,
        head_ref_oid: None,
        mergeable: mergeable.map(|s| s.to_string()),
        review_decision: review.map(|s| s.to_string()),
    }
}

fn run(bucket: &str) -> CheckRun {
    CheckRun { name: "ci".to_string(), bucket: Some(bucket.to_string()), state: None }
}

#[test]
fn readiness_rows() {
    let merged = assess_landing_readiness("api", 7, &PrLookup::Found(pr(Some("MERGED"), None, None, None)), &None);
    assert_eq!(merged.verdict, "already landed");
    assert!(!merged.blocked);
    assert_eq!(merged.number, 7);
    let unavailable = assess_landing_readiness("api", 7, &PrLookup::PrUnavailable("boom".to_string()), &None);
    assert_eq!(unavailable.verdict, "PR unavailable: boom");
    assert_eq!(unavailable.state, "?");
    let provider = assess_landing_readiness("api", 0, &PrLookup::ProviderUnavailable("none".to_string()), &None);
    assert_eq!(provider.verdict, "provider unavailable: none");
    let draft = pr(Some("OPEN"), Some(true), None, None);
    assert!(!readiness_needs_checks(&draft));
    assert_eq!(assess_landing_readiness("api", 7, &PrLookup::Found(draft), &None).verdict, "draft");
    let open = pr(Some("OPEN"), None, Some("MERGEABLE"), Some("APPROVED"));
    assert!(readiness_needs_checks(&open));
    let ready = assess_landing_readiness("api", 7, &PrLookup::Found(open.clone()), &Some(vec![run("pass")]));
    assert_eq!((ready.mergeable.as_str(), ready.checks.as_str(), ready.review.as_str()), ("clean", "passed", "approved"));
    assert_eq!(ready.verdict, "ready");
    assert_eq!(ready.number, 42);
    let pending = assess_landing_readiness("api", 7, &PrLookup::Found(open.clone()), &Some(vec![run("pending")]));
    assert_eq!(pending.verdict, "checks pending");
    let unknown = assess_landing_readiness("api", 7, &PrLookup::Found(open), &None);
    assert_eq!(unknown.checks, "unknown");
    let conflict = pr(Some("OPEN"), None, Some("CONFLICTING"), Some("CHANGES_REQUESTED"));
    let row = assess_landing_readiness("api", 7, &PrLookup::Found(conflict), &Some(vec![run("fail")]));
    assert_eq!(row.verdict, "conflict — run knit land update");
    assert!(row.blocked);
    assert_eq!(readiness_tally(&vec![merged, ready, row]), (1, 1, 1));
}

#[test]
fn landing_publication_list() {
    let b = bundle(
        vec![repo("api"), repo("web"), repo("docs")],
        vec![publication("docs", "https://x/docs/1", "github"), publication("api", "https://x/api/1", "github")],
    );
    assert_eq!(landing_publications(&b), vec![(0, "https://x/api/1".to_string()), (2, "https://x/docs/1".to_string())]);
}

#[test]
fn land_update_targets() {
    let b = bundle(vec![repo("api"), repo("web")], vec![publication("api", "https://x/api/1", "github")]);
    let checkouts = vec![Some("/w/api".to_string()), Some("/w/web".to_string())];
    let targets = update_land_branches(&b, &vec![0], &checkouts).unwrap();
    assert_eq!(targets[0].base_branch, "develop");
    assert_eq!(targets[0].cwd, "/w/api");
    assert_eq!(targets[0].recorded_head, "h1");
    let err = update_land_branches(&b, &vec![0, 1], &checkouts).unwrap_err();
    assert_eq!(err.message(), "web: no PR publication recorded. Run `knit publish create` first.");
    let no_checkout = vec![None, None];
    assert!(matches!(update_land_branches(&b, &vec![0], &no_checkout), Err(UpdateError::NoCheckout { .. })));
    let empty = bundle(Vec::new(), Vec::new());
    assert!(matches!(update_land_branches(&empty, &Vec::new(), &Vec::new()), Err(UpdateError::NoRepos)));
    assert_eq!(
        update_failure_message("api", "conflict", "/w/api", true),
        "api: failed to update from base: conflict\nResolve the merge in /w/api, commit it, then run `knit land update --continue-merge --push`."
    );
}

fn commit(repo_id: &str, sha: &str) -> CommitRef {
    CommitRef { repo_id: repo_id.to_string(), sha: sha.to_string() }
}

fn shas(ops: &[RevertOperation]) -> Vec<(RevertOpKind, String)> {
    ops.iter().map(|op| (op.kind, op.sha.clone().unwrap_or_default())).collect()
}

#[test]
fn revert_plans_for_commits_group_by_sorted_repo_last_first() {
    let commits = vec![commit("web", "w1"), commit("api", "a1"), commit("web", "w2"), commit("api", "a2")];
    let plans = commit_revert_ops(&commits);
    assert_eq!(plans.len(), 2);
    assert_eq!(plans[0].repo_id, "api");
    assert_eq!(shas(&plans[0].operations), vec![(RevertOpKind::Revert, "a2".to_string()), (RevertOpKind::Revert, "a1".to_string())]);
    assert_eq!(plans[1].repo_id, "web");
    assert_eq!(shas(&plans[1].operations), vec![(RevertOpKind::Revert, "w2".to_string()), (RevertOpKind::Revert, "w1".to_string())]);
}

fn change(movement: &str, commits: &[&str], dropped: &[&str]) -> RepoChange {
    RepoChange {
        repo_id: "api".to_string(),
        movement: movement.to_string(),
        before_sha: None,
        after_sha: "x".to_string(),
        commits: strings(commits),
        dropped_commits: strings(dropped),
    }
}

#[test]
fn revert_plans_for_observed_movements() {
    let ops = observed_change_ops(&change("diverged", &["c1", "c2"], &["d1", "d2"])).unwrap();
    assert_eq!(
        shas(&ops),
        vec![
            (RevertOpKind::Revert, "c2".to_string()),
            (RevertOpKind::Revert, "c1".to_string()),
            (RevertOpKind::CherryPick, "d1".to_string()),
            (RevertOpKind::CherryPick, "d2".to_string()),
        ]
    );
    assert_eq!(shas(&observed_change_ops(&change("rewound", &["c1"], &["d1"])).unwrap()), vec![(RevertOpKind::CherryPick, "d1".to_string())]);
    let err = observed_change_ops(&change("sideways", &[], &[])).unwrap_err();
    assert_eq!(err.message(), "Cannot revert observed movement `sideways` for repo api.");
}

#[test]
fn revert_sources_and_messages() {
    assert_eq!(revert_target(true), RevertMode::Apply);
    assert_eq!(revert_target(false), RevertMode::Plan);
    assert_eq!(revert_source(&node("n", "revert.group")).unwrap(), RevertSource::Commits);
    assert_eq!(revert_source(&node("n", "git.observed")).unwrap(), RevertSource::Observed);
    assert_eq!(revert_source(&node("n", "feature.landed")).unwrap(), RevertSource::LandedPrs);
    assert!(matches!(revert_source(&node("n", "repo.removed")), Err(RevertError::MetadataNode { .. })));
    assert_eq!(revert_source(&node("n", "odd")).unwrap_err().message(), "Cannot revert node n of type odd.");
    assert_eq!(node_message(&node("n", "land.update")), "feature branch update");
    let mut custom = node("n", "commit.group");
    custom.message = Some("ship it".to_string());
    assert_eq!(node_message(&custom), "ship it");
    assert_eq!(
        revert_commit_message("ship it", "n1", "g1", "b1"),
        "Revert ship it\n\nKnit-Reverts: n1\nKnit-Group: g1\nKnit-Bundle: b1"
    );
}

#[test]
fn landed_pr_reverts() {
    let b = bundle(
        vec![repo("api"), repo("web")],
        vec![publication("api", "https://x/api/1", "github"), publication("web", "https://x/web/1", "gitlab")],
    );
    let mut landed = node("land1", "feature.landed");
    assert!(matches!(landed_pr_revert_ops(&b, &landed), Err(RevertError::NoRepoIds { .. })));
    landed.repo_ids = Some(strings(&["api"]));
    landed.publication_urls = strings(&["https://x/api/1"]);
    landed.provider = Some("github".to_string());
    let plans = landed_pr_revert_ops(&b, &landed).unwrap();
    assert_eq!(plans[0].operations[0].kind, RevertOpKind::PrRevert);
    assert_eq!(plans[0].operations[0].selector, Some("https://x/api/1".to_string()));
    assert!(plan_uses_provider_revert(&plans));
    landed.repo_ids = Some(strings(&["api", "web"]));
    assert_eq!(
        landed_pr_revert_ops(&b, &landed).unwrap_err().message(),
        "web: current review publication https://x/web/1 is not one of the PRs recorded on landed node land1. Knit can only provider-revert the current landed PR group."
    );
    landed.publication_urls = Vec::new();
    assert_eq!(
        landed_pr_revert_ops(&b, &landed).unwrap_err().message(),
        "web: landed node provider is github, but publication https://x/web/1 uses gitlab."
    );
    landed.repo_ids = Some(strings(&["gone"]));
    assert!(matches!(landed_pr_revert_ops(&b, &landed), Err(RevertError::NoPublication { .. })));
}

#[test]
fn revert_plan_checks() {
    let git = RevertOperation { kind: RevertOpKind::Revert, sha: Some("a".to_string()), selector: None };
    let pr = RevertOperation { kind: RevertOpKind::PrRevert, sha: None, selector: Some("u".to_string()) };
    let mixed = RepoRevertOps { repo_id: "api".to_string(), operations: vec![git.clone(), pr] };
    assert_eq!(
        check_operation_mix(&mixed).unwrap_err().message(),
        "api: provider PR revert operations cannot be mixed with local git operations."
    );
    let plain = RepoRevertOps { repo_id: "api".to_string(), operations: vec![git] };
    assert!(check_operation_mix(&plain).is_ok());
    let empty = RepoRevertOps { repo_id: "web".to_string(), operations: Vec::new() };
    let kept = keep_nonempty_plans(vec![empty.clone(), plain], "n1").unwrap();
    assert_eq!(kept.len(), 1);
    assert_eq!(kept[0].repo_id, "api");
    assert_eq!(
        keep_nonempty_plans(vec![empty], "n1").unwrap_err().message(),
        "Node n1 has no revertable repo operations."
    );
    assert_eq!(RevertOpKind::CherryPick.as_str(), "cherryPick");
}

use knit::merge::union_source_repos;

#[test]
fn compat_repos_are_the_sorted_union_of_first_entries() {
    let mut api = repo("api");
    api.feature_branch = Some("knit/x".to_string());
    api.base_sha = Some("b1".to_string());
    let a = bundle(vec![repo("web"), api], Vec::new());
    let mut api_again = repo("api");
    api_again.base_sha = Some("b2".to_string());
    let b = bundle(vec![api_again, repo("docs")], Vec::new());
    let repos = union_source_repos(&vec![a, b], CheckoutMode::InPlace).unwrap();
    let ids: Vec<&str> = repos.iter().map(|r| r.id.as_str()).collect();
    assert_eq!(ids, vec!["api", "docs", "web"]);
    assert_eq!(repos[0].base_sha, Some("b1".to_string()));
    assert_eq!(repos[0].feature_branch, None);
    assert_eq!(repos[0].head_sha, None);
    assert_eq!(repos[0].checkout_mode, CheckoutMode::InPlace);
    let mut moved = repo("web");
    moved.path = "/elsewhere/web".to_string();
    let c = bundle(vec![repo("web")], Vec::new());
    let d = bundle(vec![moved], Vec::new());
    assert_eq!(
        union_source_repos(&vec![c, d], CheckoutMode::Worktree).unwrap_err().message(),
        "Repo id web points at different paths in source bundles: /tmp/web and /elsewhere/web."
    );
}
