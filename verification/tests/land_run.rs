use knit::checks::check_status_label;
use knit::land_run::{
    ensure_checks_ready, ensure_requested_target_matches_plan, land_default, new_run, non_empty,
    normalize_target_branch, safe_timestamp, LandDefaultAction, LandError,
};
use knit::land_types::{LandPlan, LandRun, LandStatus, LandStep, LandStepKind};
use knit::model::{state_is_merged, BundleState, ChangeGroup, CheckRun, CheckoutMode, PublicationEntry, PullRequest, RepoEntry};

fn check(name: &str, bucket: Option<&str>, state: Option<&str>) -> CheckRun {
    CheckRun { name: name.to_string(), bucket: bucket.map(|s| s.to_string()), state: state.map(|s| s.to_string()) }
}

#[test]
fn checks_must_be_green_before_landing() {
    assert!(ensure_checks_ready("api", &Vec::new()).is_ok());
    let green = vec![check("ci", Some("pass"), None), check("lint", None, Some("SKIPPED"))];
    assert!(ensure_checks_ready("api", &green).is_ok());
    let failed = vec![check("ci", Some("fail"), None), check("e2e", None, None), check("lint", None, Some("CANCELLED"))];
    let err = ensure_checks_ready("api", &failed).err().unwrap();
    assert_eq!(err.message(), "api: required checks failed: ci, lint");
    let pending = vec![check("ci", Some("pass"), None), check("e2e", Some("pending"), None)];
    let err = ensure_checks_ready("api", &pending).err().unwrap();
    assert!(matches!(err, LandError::ChecksPending { .. }));
    assert_eq!(err.message(), "api: required checks are pending.");
}

#[test]
fn check_status_labels() {
    assert_eq!(check_status_label(&Vec::new()), "passed (no required checks)");
    assert_eq!(check_status_label(&vec![check("ci", Some("pass"), None)]), "passed");
    assert_eq!(check_status_label(&vec![check("ci", None, None)]), "pending");
    assert_eq!(
        check_status_label(&vec![check("ci", Some("fail"), None), check("e2e", None, Some("FAILURE"))]),
        "failed (ci, e2e)"
    );
}

#[test]
fn target_branches_are_trimmed_and_must_not_be_blank() {
    assert!(matches!(normalize_target_branch(None), Ok(None)));
    assert_eq!(normalize_target_branch(Some(" release ")).ok().unwrap(), Some("release".to_string()));
    let err = normalize_target_branch(Some("   ")).err().unwrap();
    assert_eq!(err.message(), "--target must name a non-empty branch");
}

fn plan(target: Option<&str>) -> LandPlan {
    LandPlan {
        schema_version: "1".to_string(),
        kind: "KnitLandPlan".to_string(),
        id: "land-venue".to_string(),
        provider: "github".to_string(),
        bundle_id: "venue".to_string(),
        source_project_id: None,
        created_at: "t".to_string(),
        on_failure: None,
        target_branch: target.map(|t| t.to_string()),
        require_checks: Vec::new(),
        steps: vec![
            LandStep {
                id: "merge-api".to_string(),
                step_type: LandStepKind::MergePr,
                needs: Vec::new(),
                repo_id: Some("api".to_string()),
                method: None,
                wait_for_checks: None,
                required_checks_only: None,
                delete_branch: None,
                required_only: None,
                timeout_seconds: None,
                interval_seconds: None,
                cwd: None,
                command: Vec::new(),
                env: Vec::new(),
                deployment_mode: None,
                checkout: None,
            },
            LandStep {
                id: "smoke".to_string(),
                step_type: LandStepKind::Run,
                needs: vec!["merge-api".to_string()],
                repo_id: None,
                method: None,
                wait_for_checks: None,
                required_checks_only: None,
                delete_branch: None,
                required_only: None,
                timeout_seconds: None,
                interval_seconds: None,
                cwd: None,
                command: vec!["./smoke".to_string()],
                env: Vec::new(),
                deployment_mode: None,
                checkout: None,
            },
        ],
    }
}

#[test]
fn a_requested_target_must_match_the_plan() {
    assert!(ensure_requested_target_matches_plan(None, &plan(None)).is_ok());
    assert!(ensure_requested_target_matches_plan(Some("release"), &plan(Some("release"))).is_ok());
    let err = ensure_requested_target_matches_plan(Some("release"), &plan(None)).err().unwrap();
    assert_eq!(
        err.message(),
        "Land plan targets recorded PR bases, not `release`. Regenerate it with `knit land --target release plan --force`, inspect it, then apply again."
    );
    let err = ensure_requested_target_matches_plan(Some("release"), &plan(Some("main"))).err().unwrap();
    assert!(err.message().starts_with("Land plan targets main, not `release`."));
}

#[test]
fn empty_text_is_none() {
    assert_eq!(non_empty(String::new()), None);
    assert_eq!(non_empty("out".to_string()), Some("out".to_string()));
}

#[test]
fn run_stamps_are_file_safe() {
    assert_eq!(safe_timestamp("2024-05-01T10:20:30.123Z"), "2024-05-01-102030123");
    assert_eq!(safe_timestamp("2024-05-01T10:20:30ZZ"), "2024-05-01-102030");
}

fn bundle() -> ChangeGroup {
    ChangeGroup {
        schema_version: "1".to_string(),
        kind: "KnitBundle".to_string(),
        id: "venue".to_string(),
        title: "venue".to_string(),
        state: Some(BundleState::Open),
        closed_at: None,
        archived_at: None,
        deleted_at: None,
        project_id: None,
        created_at: "t".to_string(),
        updated_at: "t".to_string(),
        head_node_id: None,
        repos: vec![RepoEntry {
            id: "api".to_string(),
            path: "/src/api".to_string(),
            remote: None,
            base_branch: "main".to_string(),
            checkout_mode: CheckoutMode::Worktree,
            base_sha: None,
            feature_branch: None,
            worktree_path: None,
            head_sha: None,
        }],
        commit_groups: Vec::new(),
        nodes: Vec::new(),
        publications: vec![PublicationEntry {
            repo_id: "api".to_string(),
            provider: "github".to_string(),
            kind: "pull_request".to_string(),
            number: 4,
            url: "https://github.com/acme/api/pull/4".to_string(),
            base_branch: "main".to_string(),
            head_branch: "knit/venue".to_string(),
            state: "OPEN".to_string(),
            title: None,
            updated_at: "t".to_string(),
        }],
        work_item_ids: Vec::new(),
    }
}

#[test]
fn a_new_run_starts_every_step_pending() {
    let run = new_run(&bundle(), &plan(None), ".knit/land/plan.json", "2024-05-01-102030", "now");
    assert_eq!(run.id, "run-2024-05-01-102030");
    assert_eq!(run.kind, "KnitLandRun");
    assert_eq!(run.plan_id, "land-venue");
    assert_eq!(run.status, LandStatus::Running);
    assert_eq!(run.created_at, "now");
    assert_eq!(run.steps.len(), 2);
    assert_eq!(run.steps[0].status, LandStatus::Pending);
    assert_eq!(run.steps[0].publication_url.as_deref(), Some("https://github.com/acme/api/pull/4"));
    assert_eq!(run.steps[1].publication_url, None);
    assert_eq!(run.steps[1].step_type, LandStepKind::Run);
}

fn latest(status: LandStatus, rolled_back: bool) -> LandRun {
    let mut run = new_run(&bundle(), &plan(None), "p", "s", "now");
    run.status = status;
    run.rolled_back_at = if rolled_back { Some("later".to_string()) } else { None };
    run
}

#[test]
fn land_without_a_subcommand_shows_what_exists() {
    assert_eq!(land_default(None, false), LandDefaultAction::GeneratePlan);
    assert_eq!(land_default(None, true), LandDefaultAction::ShowPlan);
    assert_eq!(land_default(Some(&latest(LandStatus::Succeeded, false)), true), LandDefaultAction::ShowSucceededRun);
    assert_eq!(land_default(Some(&latest(LandStatus::Failed, true)), true), LandDefaultAction::ShowRolledBackRun);
    assert_eq!(land_default(Some(&latest(LandStatus::Failed, false)), false), LandDefaultAction::ShowIncompleteRun);
}

#[test]
fn merged_pull_requests() {
    let pr = |state: Option<&str>| PullRequest {
        number: 1,
        url: "u".to_string(),
        state: state.map(|s| s.to_string()),
        title: None,
        base_ref_name: None,
        head_ref_name: None,
        body: None,
        is_draft: None,
        head_ref_oid: None,
        mergeable: None,
        review_decision: None,
    };
    assert!(state_is_merged(&pr(Some("MERGED"))));
    assert!(!state_is_merged(&pr(Some("OPEN"))));
    assert!(!state_is_merged(&pr(None)));
}
