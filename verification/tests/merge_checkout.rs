use knit::merge_checkout::{
    bundle_source_refs, check_clean_target, merge_checkout_step, merged_steps, record_merged_heads, ref_across_repos,
    target_fetch_refspec, target_repo_index, unmaterialized_target_message, use_repo_checkout_after_failed_add,
    MergeCheckoutProbe, MergeCheckoutStep,
};
use knit::merge_run::{MergeStepRecord, MergeStepStatus};
use knit::model::{BundleState, ChangeGroup, CheckoutMode, RepoEntry};

fn repo(id: &str, branch: Option<&str>) -> RepoEntry {
    RepoEntry {
        id: id.to_string(),
        path: format!("/src/{id}"),
        remote: None,
        base_branch: "main".to_string(),
        checkout_mode: CheckoutMode::Worktree,
        base_sha: None,
        feature_branch: branch.map(|b| b.to_string()),
        worktree_path: None,
        head_sha: Some("h0".to_string()),
    }
}

fn bundle(id: &str, repos: Vec<RepoEntry>) -> ChangeGroup {
    ChangeGroup {
        schema_version: "1".to_string(),
        kind: "KnitBundle".to_string(),
        id: id.to_string(),
        title: id.to_string(),
        state: Some(BundleState::Open),
        closed_at: None,
        archived_at: None,
        deleted_at: None,
        project_id: None,
        created_at: "t".to_string(),
        updated_at: "t".to_string(),
        head_node_id: None,
        repos,
        commit_groups: Vec::new(),
        nodes: Vec::new(),
        publications: Vec::new(),
        work_item_ids: Vec::new(),
    }
}

fn pair(a: &str, b: &str) -> (String, String) {
    (a.to_string(), b.to_string())
}

fn step(repo_id: &str, after: Option<&str>) -> MergeStepRecord {
    MergeStepRecord {
        repo_id: repo_id.to_string(),
        checkout_path: format!(".knit/merge-worktrees/main/{repo_id}"),
        before_sha: "b".to_string(),
        after_sha: after.map(|a| a.to_string()),
        status: if after.is_some() { MergeStepStatus::Succeeded } else { MergeStepStatus::Pending },
        message: None,
    }
}

#[test]
fn a_source_bundle_merges_each_feature_branch() {
    let b = bundle("venue", vec![repo("api", Some("knit/venue")), repo("web", Some("knit/venue-web"))]);
    assert_eq!(bundle_source_refs(&b), Ok(vec![pair("api", "knit/venue"), pair("web", "knit/venue-web")]));
    let b = bundle("venue", vec![repo("api", Some("knit/venue")), repo("web", None), repo("docs", None)]);
    assert_eq!(
        bundle_source_refs(&b),
        Err("web: source bundle has no feature branch. Run `knit bundle worktree --bundle venue`.".to_string())
    );
    assert_eq!(bundle_source_refs(&bundle("empty", Vec::new())), Err("Source bundle empty has no repos.".to_string()));
}

#[test]
fn a_plain_ref_applies_across_the_resolved_bundle() {
    let repos = vec![repo("api", None), repo("web", None)];
    assert_eq!(ref_across_repos(&repos, "release"), Ok(vec![pair("api", "release"), pair("web", "release")]));
    assert_eq!(
        ref_across_repos(&Vec::new(), "release"),
        Err("The resolved bundle has no repos to apply source ref release across.".to_string())
    );
}

#[test]
fn target_bundle_repos_and_checkouts() {
    let b = bundle("target", vec![repo("api", None), repo("web", None)]);
    assert_eq!(target_repo_index(&b, "web"), Ok(1));
    assert_eq!(target_repo_index(&b, "docs"), Err("Target bundle target does not include repo docs.".to_string()));
    assert_eq!(check_clean_target("api", " \n", "/w/api"), Ok(()));
    assert_eq!(check_clean_target("api", " M src/lib.rs\n", "/w/api"), Err("api: target checkout is not clean at /w/api.".to_string()));
    assert_eq!(
        unmaterialized_target_message("api", "target"),
        "api: target bundle checkout is not materialized. Run `knit bundle worktree --bundle target`."
    );
}

#[test]
fn merged_heads_go_on_the_target_bundle() {
    let steps = vec![step("api", Some("a1")), step("web", None), step("docs", Some("d1")), step("api", Some("a2"))];
    assert_eq!(merged_steps(&steps), vec![0, 2, 3]);
    let mut b = bundle("target", vec![repo("api", None), repo("web", None), repo("api", None)]);
    record_merged_heads(&mut b, &steps);
    assert_eq!(b.repos[0].head_sha.as_deref(), Some("a2"));
    assert_eq!(b.repos[1].head_sha.as_deref(), Some("h0"));
    assert_eq!(b.repos[2].head_sha.as_deref(), Some("h0"));
    assert_eq!(b.repos[0].path, "/src/api");
}


fn probe(path_exists: bool, is_worktree: bool, on: Option<&str>, branch_exists: bool, base_ref_exists: bool) -> MergeCheckoutProbe {
    MergeCheckoutProbe {
        path_exists,
        is_worktree,
        worktree_branch: on.map(|b| b.to_string()),
        branch_exists,
        base_ref_exists,
    }
}

#[test]
fn an_existing_merge_worktree_on_the_branch_is_reused() {
    let p = probe(true, true, Some("main"), true, true);
    assert_eq!(merge_checkout_step("api", "main", "/w/.knit/merge-worktrees/main/api", &p), Ok(MergeCheckoutStep::Reuse));
}

#[test]
fn an_existing_path_must_be_a_worktree_on_the_branch() {
    let p = probe(true, false, None, true, true);
    assert_eq!(
        merge_checkout_step("api", "main", "/w/m/api", &p),
        Err("api: /w/m/api exists but is not a git worktree.".to_string())
    );
    let p = probe(true, true, None, true, true);
    assert_eq!(
        merge_checkout_step("api", "main", "/w/m/api", &p),
        Err("api: merge checkout /w/m/api is on (detached HEAD), expected main.".to_string())
    );
    let p = probe(true, true, Some("dev"), true, true);
    assert_eq!(
        merge_checkout_step("api", "main", "/w/m/api", &p),
        Err("api: merge checkout /w/m/api is on dev, expected main.".to_string())
    );
}

#[test]
fn a_new_checkout_uses_the_branch_or_creates_it() {
    assert_eq!(merge_checkout_step("api", "main", "/p", &probe(false, false, None, true, true)), Ok(MergeCheckoutStep::AddWorktree));
    assert_eq!(merge_checkout_step("api", "main", "/p", &probe(false, false, None, false, true)), Ok(MergeCheckoutStep::CreateBranch));
    assert_eq!(
        merge_checkout_step("api", "release", "/p", &probe(false, false, None, false, false)),
        Err("api: target branch release does not exist locally or as origin/release.".to_string())
    );
}

#[test]
fn a_failed_add_falls_back_to_the_repo_checkout_on_the_branch() {
    assert!(use_repo_checkout_after_failed_add(Some("main"), "main"));
    assert!(!use_repo_checkout_after_failed_add(Some("dev"), "main"));
    assert!(!use_repo_checkout_after_failed_add(None, "main"));
    assert_eq!(target_fetch_refspec("main"), "main:refs/remotes/origin/main");
}
