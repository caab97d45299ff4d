use knit::land_steps::{
    already_merged_outcome, check_run_command, checks_outcome, checks_wait, command_outcome, deploy_checkout_detail,
    deploy_checkout_plan, deploy_outcome, deploy_start, merge_pr_start, merge_wait, merged_outcome, CheckWait,
};
use knit::land_steps::{expect_merged, preflight_checks, preflight_steps};
use knit::land_types::{
    DeployCheckoutUpdate, DeployMode, LandCheckout, LandRun, LandRunStep, LandStatus, LandStep, LandStepKind, MergeMethod,
};
use knit::model::PullRequest;

fn step(kind: LandStepKind, command: &[&str]) -> LandStep {
    LandStep {
        id: "deploy-api".to_string(),
        step_type: kind,
        needs: Vec::new(),
        repo_id: Some("api".to_string()),
        method: None,
        wait_for_checks: None,
        required_checks_only: None,
        delete_branch: None,
        required_only: None,
        timeout_seconds: None,
        interval_seconds: None,
        cwd: None,
        command: command.iter().map(|c| c.to_string()).collect(),
        env: Vec::new(),
        deployment_mode: None,
        checkout: None,
    }
}

fn pr(state: &str) -> PullRequest {
    PullRequest {
        number: 3,
        url: "https://h/pr/3".to_string(),
        state: Some(state.to_string()),
        title: None,
        base_ref_name: None,
        head_ref_name: None,
        body: None,
        is_draft: Some(false),
        head_ref_oid: None,
        mergeable: Some("MERGEABLE".to_string()),
        review_decision: None,
    }
}

#[test]
fn waits_default_to_required_checks() {
    let mut s = step(LandStepKind::MergePr, &[]);
    assert_eq!(merge_wait(&s), Some(CheckWait { required_only: true, timeout_seconds: 1800, interval_seconds: 10 }));
    s.timeout_seconds = Some(60);
    s.required_checks_only = Some(false);
    assert_eq!(merge_wait(&s), Some(CheckWait { required_only: false, timeout_seconds: 60, interval_seconds: 10 }));
    s.wait_for_checks = Some(false);
    assert_eq!(merge_wait(&s), None);
    let w = step(LandStepKind::WaitChecks, &[]);
    assert_eq!(checks_wait(&w), CheckWait { required_only: true, timeout_seconds: 1800, interval_seconds: 10 });
}

#[test]
fn merge_step_outcomes() {
    assert_eq!(merge_pr_start("api", &pr("MERGED")).unwrap(), true);
    assert_eq!(merge_pr_start("api", &pr("OPEN")).unwrap(), false);
    assert_eq!(merge_pr_start("api", &pr("CLOSED")).unwrap_err().message(), "api: PR #3 is CLOSED, expected OPEN.");
    assert_eq!(already_merged_outcome("u").detail, "already merged");
    assert_eq!(merged_outcome("u", Some("passed"), MergeMethod::Squash).detail, "checks passed; merged with squash");
    assert_eq!(merged_outcome("u", None, MergeMethod::Merge).detail, "merged with merge");
    assert_eq!(checks_outcome("u", "passed", 0).detail, "passed");
    assert_eq!(checks_outcome("u", "passed", 4).detail, "passed (4 check(s))");
}

#[test]
fn command_step_outcomes() {
    assert_eq!(check_run_command(&step(LandStepKind::Run, &[])).unwrap_err(), "run step `deploy-api` has an empty command");
    let cmd: Vec<String> = vec!["make".to_string(), "test".to_string()];
    let ok = command_outcome(&cmd, true, Some(0), "out".to_string(), String::new());
    assert_eq!(ok.detail, "ran `make test`");
    assert_eq!(ok.stdout.as_deref(), Some("out"));
    assert_eq!(ok.stderr, None);
    assert_eq!(command_outcome(&cmd, false, Some(2), String::new(), "e".to_string()).detail, "`make test` exited with 2");
    assert_eq!(command_outcome(&cmd, false, None, String::new(), String::new()).detail, "`make test` exited with signal");
    assert_eq!(command_outcome(&cmd, false, Some(-1), String::new(), String::new()).detail, "`make test` exited with -1");
    assert_eq!(deploy_outcome("api", "origin/prod", &cmd, true, Some(0), String::new(), String::new()).detail, "deployed api from origin/prod");
    assert_eq!(deploy_outcome("api", "x", &cmd, false, Some(1), String::new(), String::new()).detail, "deploy `make test` exited with 1");
}

#[test]
fn deploy_modes() {
    let push = step(LandStepKind::Deploy, &[]);
    let o = deploy_start(&push, "api").unwrap().unwrap();
    assert_eq!(o.detail, "api deployment triggered by merge");
    let mut bad = step(LandStepKind::Deploy, &["./deploy.sh"]);
    bad.deployment_mode = Some(DeployMode::Push);
    assert_eq!(deploy_start(&bad, "api").unwrap_err(), "deploy step `deploy-api` uses push mode and must not provide command");
    let mut empty = step(LandStepKind::Deploy, &[]);
    empty.deployment_mode = Some(DeployMode::Command);
    assert_eq!(deploy_start(&empty, "api").unwrap_err(), "deploy step `deploy-api` must provide command in command mode");
    assert!(deploy_start(&step(LandStepKind::Deploy, &["./deploy.sh"]), "api").unwrap().is_none());
}

#[test]
fn deployment_checkouts() {
    let c = LandCheckout { branch: "Release/Prod".to_string(), remote: None, update: None };
    assert_eq!(deploy_checkout_detail(Some(&c)), "origin/Release/Prod");
    assert_eq!(deploy_checkout_detail(None), "bundle checkout");
    let p = deploy_checkout_plan("venue", "api", &c).unwrap();
    assert_eq!(p.relative_path, ".knit/land-worktrees/venue/api/release-prod");
    assert!(p.fetch);
    assert_eq!(p.target_ref, "FETCH_HEAD");
    let pinned = LandCheckout { branch: "prod".to_string(), remote: Some("up".to_string()), update: Some(DeployCheckoutUpdate::NoUpdate) };
    let p = deploy_checkout_plan("venue", "api", &pinned).unwrap();
    assert!(!p.fetch);
    assert_eq!(p.target_ref, "up/prod");
    let blank = LandCheckout { branch: "  ".to_string(), remote: None, update: None };
    assert_eq!(deploy_checkout_plan("venue", "api", &blank).unwrap_err(), "deploy checkout branch must not be empty");
}

fn with_repo(id: &str, kind: LandStepKind, repo: Option<&str>) -> LandStep {
    let mut s = step(kind, &[]);
    s.id = id.to_string();
    s.repo_id = repo.map(|r| r.to_string());
    s
}

fn land_run(done: &[&str]) -> LandRun {
    LandRun {
        schema_version: "1".to_string(),
        kind: "KnitLandRun".to_string(),
        id: "run-1".to_string(),
        plan_id: "plan".to_string(),
        bundle_id: "b".to_string(),
        provider: "github".to_string(),
        plan_path: "plan.json".to_string(),
        status: LandStatus::Running,
        created_at: "t0".to_string(),
        updated_at: "t0".to_string(),
        rolled_back_at: None,
        steps: done
            .iter()
            .map(|id| LandRunStep {
                id: id.to_string(),
                step_type: LandStepKind::MergePr,
                status: LandStatus::Succeeded,
                repo_id: None,
                publication_url: None,
                started_at: None,
                finished_at: None,
                detail: None,
                stdout: None,
                stderr: None,
                exit_code: None,
            })
            .collect(),
    }
}

#[test]
fn preflight_checks_each_repo_once() {
    let steps = vec![
        with_repo("merge-api", LandStepKind::MergePr, Some("api")),
        with_repo("wait-api", LandStepKind::WaitChecks, Some("api")),
        with_repo("smoke", LandStepKind::Run, None),
        with_repo("merge-web", LandStepKind::MergePr, Some("web")),
    ];
    let got = preflight_steps(&steps, None).unwrap();
    assert_eq!(got, vec![(0, "api".to_string()), (3, "web".to_string())]);
    let resumed = land_run(&["merge-api"]);
    let got = preflight_steps(&steps, Some(&resumed)).unwrap();
    assert_eq!(got, vec![(1, "api".to_string()), (3, "web".to_string())]);
    let bad = vec![with_repo("merge-x", LandStepKind::MergePr, None)];
    assert_eq!(preflight_steps(&bad, None).unwrap_err().message(), "step `merge-x` must provide repoId");
}

#[test]
fn preflight_check_selection_and_merged_expectation() {
    let mut merge = with_repo("m", LandStepKind::MergePr, Some("api"));
    assert_eq!(preflight_checks(&merge), Some(true));
    merge.required_only = Some(false);
    assert_eq!(preflight_checks(&merge), Some(false));
    merge.required_checks_only = Some(true);
    assert_eq!(preflight_checks(&merge), Some(true));
    merge.wait_for_checks = Some(false);
    assert_eq!(preflight_checks(&merge), None);
    let mut wait = with_repo("w", LandStepKind::WaitChecks, Some("api"));
    wait.wait_for_checks = Some(false);
    assert_eq!(preflight_checks(&wait), Some(true));
    assert!(expect_merged("api", &pr("MERGED")).is_ok());
    assert_eq!(
        expect_merged("api", &pr("OPEN")).unwrap_err(),
        "api: PR #3 is OPEN, expected MERGED. The run recorded this merge as succeeded; refresh with `knit land status` and retry."
    );
}
