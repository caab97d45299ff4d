use knit::land_run::latest_run_for_bundle;
use knit::land_update::{
    advanced_change, preflight_target, preflight_update_targets, record_land_update, CheckoutState, LandUpdateTarget, PreflightError,
};
use knit::model::{BundleState, ChangeGroup, CheckoutMode, RepoChange, RepoEntry};
use knit::revert::{check_revert_plan, RecordedRevertPlan};

fn repo(id: &str) -> RepoEntry {
    RepoEntry {
        id: id.to_string(),
        path: format!("/src/{id}"),
        remote: None,
        base_branch: "main".to_string(),
        checkout_mode: CheckoutMode::Worktree,
        base_sha: None,
        feature_branch: Some("knit/venue".to_string()),
        worktree_path: None,
        head_sha: Some("h0".to_string()),
    }
}

fn bundle() -> ChangeGroup {
    ChangeGroup {
        schema_version: "1".to_string(),
        kind: "KnitBundle".to_string(),
        id: "venue".to_string(),
        title: "venue".to_string(),
        state: Some(BundleState::Open),
        closed_at: None,
        archived_at: None,
        deleted_at: None,
        project_id: None,
        created_at: "t".to_string(),
        updated_at: "t".to_string(),
        head_node_id: None,
        repos: vec![repo("api"), repo("web")],
        commit_groups: Vec::new(),
        nodes: Vec::new(),
        publications: Vec::new(),
        work_item_ids: Vec::new(),
    }
}

#[test]
fn a_forward_move_is_an_advanced_change() {
    let c = advanced_change("api", "b1", "a1", true, vec!["c1".to_string()], "b1", "a1").ok().unwrap();
    assert_eq!(c.repo_id, "api");
    assert_eq!(c.movement, "advanced");
    assert_eq!(c.before_sha.as_deref(), Some("b1"));
    assert_eq!(c.after_sha, "a1");
    assert_eq!(c.commits, vec!["c1".to_string()]);
    assert!(c.dropped_commits.is_empty());
    let err = advanced_change("api", "b1", "a1", false, Vec::new(), "b1", "a1").err().unwrap();
    assert_eq!(err, "api: update moved the branch in a non-forward direction from b1 to a1");
}

#[test]
fn a_land_update_is_recorded_on_the_ledger() {
    let mut b = bundle();
    let change = advanced_change("web", "h0", "w2", true, vec!["w1".to_string(), "w2".to_string()], "h0", "w2").ok().unwrap();
    record_land_update(&mut b, "land_update-1".to_string(), "now".to_string(), Some("github".to_string()), vec![change]);
    assert_eq!(b.nodes.len(), 1);
    assert_eq!(b.nodes[0].id, "land_update-1");
    assert_eq!(b.nodes[0].node_type, "land.update");
    assert_eq!(b.nodes[0].repo_changes.len(), 1);
    assert_eq!(b.nodes[0].provider.as_deref(), Some("github"));
    assert_eq!(b.head_node_id.as_deref(), Some("land_update-1"));
    assert_eq!(b.updated_at, "now");
    assert_eq!(b.repos[0].head_sha.as_deref(), Some("h0"));
    assert_eq!(b.repos[1].head_sha.as_deref(), Some("w2"));
}

#[test]
fn an_update_without_changes_records_nothing() {
    let mut b = bundle();
    let empty: Vec<RepoChange> = Vec::new();
    record_land_update(&mut b, "n".to_string(), "now".to_string(), None, empty);
    assert!(b.nodes.is_empty());
    assert_eq!(b.head_node_id, None);
    assert_eq!(b.updated_at, "t");
}

#[test]
fn a_revert_plan_must_match_the_bundle_and_node() {
    let plan = RecordedRevertPlan { bundle_id: "venue".to_string(), target_node_id: "commit-2".to_string() };
    assert_eq!(check_revert_plan(Some(&plan), "venue", "commit-2", "HEAD"), Ok(()));
    assert_eq!(
        check_revert_plan(None, "venue", "commit-2", "HEAD"),
        Err("No revert plan found for commit-2. Run `knit revert HEAD` first, inspect the plan, then run `knit revert HEAD --apply`.".to_string())
    );
    assert_eq!(
        check_revert_plan(Some(&plan), "shop", "commit-2", "HEAD"),
        Err("Revert plan belongs to bundle venue, but resolved bundle is shop.".to_string())
    );
    assert_eq!(
        check_revert_plan(Some(&plan), "venue", "commit-3", "HEAD"),
        Err("Revert plan targets commit-2, but HEAD resolves to commit-3 now. Re-run the plan.".to_string())
    );
}

fn run(name: &str, bundle: &str) -> (String, String) {
    (name.to_string(), bundle.to_string())
}

#[test]
fn latest_run_path_ignores_other_bundles() {
    let runs = vec![run("001.run.json", "other"), run("002.run.json", "target"), run("003.run.json", "other")];
    let k = latest_run_for_bundle(&runs, "target").unwrap();
    assert_eq!(runs[k].0, "002.run.json");
}

#[test]
fn the_latest_run_is_the_last_by_name() {
    let runs = vec![run("land-b-2.run.json", "b"), run("land-b-10.run.json", "b"), run("land-b-3.run.json", "b")];
    assert_eq!(latest_run_for_bundle(&runs, "b"), Some(2));
    assert_eq!(latest_run_for_bundle(&runs, "c"), None);
}

fn update_target(repo: &str) -> LandUpdateTarget {
    LandUpdateTarget {
        repo_index: 0,
        repo_id: repo.to_string(),
        cwd: format!("/w/{repo}"),
        feature_branch: "feature/x".to_string(),
        base_branch: "main".to_string(),
        publication_url: "https://x/pr/1".to_string(),
        recorded_head: "aaaaaaaaaa".to_string(),
    }
}

fn checkout(branch: Option<&str>, status: &str, head: &str) -> CheckoutState {
    CheckoutState {
        branch: branch.map(|b| b.to_string()),
        status: status.to_string(),
        head: head.to_string(),
        head_short: head.chars().take(7).collect(),
        recorded_short: "aaaaaaa".to_string(),
    }
}

#[test]
fn an_update_needs_the_feature_branch_checked_out() {
    let t = update_target("api");
    let e = preflight_target(&t, &checkout(Some("main"), "", "aaaaaaaaaa"), false).unwrap_err();
    assert_eq!(e.message(), "api: expected feature branch `feature/x`, found `main` in /w/api.");
    let e = preflight_target(&t, &checkout(None, "", "aaaaaaaaaa"), true).unwrap_err();
    assert_eq!(e.message(), "api: expected feature branch `feature/x`, found `(detached HEAD)` in /w/api.");
}

#[test]
fn an_update_needs_a_clean_checkout() {
    let t = update_target("api");
    let e = preflight_target(&t, &checkout(Some("feature/x"), " M src/lib.rs\n", "aaaaaaaaaa"), true).unwrap_err();
    assert!(matches!(e, PreflightError::Uncommitted { .. }));
    assert_eq!(
        e.message(),
        "api: feature checkout has uncommitted changes in /w/api. Commit or clean them before updating."
    );
    assert!(preflight_target(&t, &checkout(Some("feature/x"), "  \n", "aaaaaaaaaa"), false).is_ok());
}

#[test]
fn an_update_needs_the_recorded_head_unless_continuing_a_merge() {
    let t = update_target("api");
    let moved = checkout(Some("feature/x"), "", "bbbbbbbbbb");
    let e = preflight_target(&t, &moved, false).unwrap_err();
    assert_eq!(
        e.message(),
        "api: feature checkout is at bbbbbbb, but the bundle records aaaaaaa. Run `knit sync` first, or use `knit land update --continue-merge` after resolving an update merge."
    );
    assert!(preflight_target(&t, &moved, true).is_ok());
}

#[test]
fn the_first_unready_checkout_stops_an_update() {
    let targets = vec![update_target("api"), update_target("web"), update_target("docs")];
    let states = vec![
        checkout(Some("feature/x"), "", "aaaaaaaaaa"),
        checkout(Some("feature/x"), "?? new.txt", "aaaaaaaaaa"),
        checkout(Some("main"), "", "aaaaaaaaaa"),
    ];
    match preflight_update_targets(&targets, &states, false) {
        Err(PreflightError::Uncommitted { repo, cwd }) => {
            assert_eq!(repo, "web");
            assert_eq!(cwd, "/w/web");
        }
        _ => panic!("expected the dirty checkout to be reported"),
    }
    assert!(preflight_update_targets(&targets[..1].to_vec(), &states[..1].to_vec(), false).is_ok());
}
