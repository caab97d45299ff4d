use knit::land_plan::{
    build_default_plan, validate_plan_for_bundle, PlanBuildError, PlanCheckError, ProjectDeployCheckout,
    ProjectDeployment, ProjectLandingMergePlan, ProjectLandingPlan,
};
use knit::land_types::{DeployMode, LandCheckout, LandOnFailure, LandPlan, LandStep, LandStepKind, MergeMethod};
use knit::model::{BundleState, ChangeGroup, CheckoutMode, PublicationEntry, RepoEntry};

fn repo(id: &str) -> RepoEntry {
    RepoEntry {
        id: id.to_string(),
        path: format!("/src/{id}"),
        remote: None,
        base_branch: "main".to_string(),
        checkout_mode: CheckoutMode::Worktree,
        base_sha: None,
        feature_branch: None,
        worktree_path: None,
        head_sha: None,
    }
}

fn publication(repo_id: &str) -> PublicationEntry {
    PublicationEntry {
        repo_id: repo_id.to_string(),
        provider: "github".to_string(),
        kind: "pull_request".to_string(),
        number: 7,
        url: format!("https://github.com/acme/{repo_id}/pull/7"),
        base_branch: "main".to_string(),
        head_branch: "knit/venue".to_string(),
        state: "OPEN".to_string(),
        title: None,
        updated_at: "t".to_string(),
    }
}

fn bundle(published: &[&str]) -> ChangeGroup {
    ChangeGroup {
        schema_version: "1".to_string(),
        kind: "KnitBundle".to_string(),
        id: "venue".to_string(),
        title: "venue".to_string(),
        state: Some(BundleState::Open),
        closed_at: None,
        archived_at: None,
        deleted_at: None,
        project_id: Some("shop".to_string()),
        created_at: "t".to_string(),
        updated_at: "t".to_string(),
        head_node_id: None,
        repos: vec![repo("api"), repo("web"), repo("docs")],
        commit_groups: Vec::new(),
        nodes: Vec::new(),
        publications: published.iter().map(|r| publication(r)).collect(),
        work_item_ids: Vec::new(),
    }
}

fn deployment(id: &str, repo_id: Option<&str>, command: &[&str]) -> ProjectDeployment {
    ProjectDeployment {
        id: id.to_string(),
        repo_id: repo_id.map(|r| r.to_string()),
        mode: None,
        needs: Vec::new(),
        cwd: None,
        command: command.iter().map(|c| c.to_string()).collect(),
        env: Vec::new(),
        checkout: None,
    }
}

fn landing() -> ProjectLandingPlan {
    ProjectLandingPlan {
        provider: None,
        merge: ProjectLandingMergePlan {
            repo_order: vec!["web".to_string(), "api".to_string()],
            include_unlisted: None,
            needs: Vec::new(),
            method: Some(MergeMethod::Squash),
            wait_for_checks: None,
            required_checks_only: None,
            delete_branch: None,
            timeout_seconds: None,
            interval_seconds: None,
        },
        deployments: vec![
            deployment("deploy-api", Some("api"), &[]),
            deployment("deploy-all", None, &["make", "ship"]),
            deployment("deploy-mobile", Some("mobile"), &[]),
        ],
        on_failure: Some(LandOnFailure::Rollback),
        require_checks: vec!["ci".to_string()],
    }
}

fn strings(v: &[&str]) -> Vec<String> {
    v.iter().map(|s| s.to_string()).collect()
}

#[test]
fn default_plan_merges_in_project_order_then_deploys() {
    let plan = build_default_plan(&bundle(&["api", "web"]), Some("shop"), Some(&landing()), None, Some("release"), "now")
        .ok()
        .unwrap();
    assert_eq!(plan.id, "land-venue");
    assert_eq!(plan.provider, "github");
    assert_eq!(plan.bundle_id, "venue");
    assert_eq!(plan.source_project_id.as_deref(), Some("shop"));
    assert_eq!(plan.created_at, "now");
    assert_eq!(plan.on_failure, Some(LandOnFailure::Rollback));
    assert_eq!(plan.target_branch.as_deref(), Some("release"));
    assert_eq!(plan.require_checks, strings(&["ci"]));
    let ids: Vec<String> = plan.steps.iter().map(|s| s.id.clone()).collect();
    assert_eq!(ids, strings(&["merge-web", "merge-api", "deploy-api", "deploy-all"]));
    let web = &plan.steps[0];
    assert_eq!(web.step_type, LandStepKind::MergePr);
    assert!(web.needs.is_empty());
    assert_eq!(web.repo_id.as_deref(), Some("web"));
    assert_eq!(web.method, Some(MergeMethod::Squash));
    assert_eq!(web.wait_for_checks, Some(true));
    assert_eq!(web.required_checks_only, Some(true));
    assert_eq!(web.delete_branch, Some(false));
    assert_eq!(web.timeout_seconds, Some(1800));
    assert_eq!(web.interval_seconds, Some(10));
    assert_eq!(plan.steps[1].needs, strings(&["merge-web"]));
    let deploy_api = &plan.steps[2];
    assert_eq!(deploy_api.step_type, LandStepKind::Deploy);
    assert_eq!(deploy_api.deployment_mode, Some(DeployMode::Push));
    assert_eq!(deploy_api.needs, strings(&["merge-api"]));
    let deploy_all = &plan.steps[3];
    assert_eq!(deploy_all.deployment_mode, Some(DeployMode::Command));
    assert_eq!(deploy_all.needs, strings(&["merge-web", "merge-api"]));
    assert_eq!(deploy_all.command, strings(&["make", "ship"]));
}

#[test]
fn default_plan_without_a_template() {
    let plan = build_default_plan(&bundle(&["docs", "api"]), None, None, Some("gitlab"), None, "now").ok().unwrap();
    assert_eq!(plan.provider, "gitlab");
    assert_eq!(plan.source_project_id, None);
    assert_eq!(plan.on_failure, None);
    assert!(plan.require_checks.is_empty());
    let ids: Vec<String> = plan.steps.iter().map(|s| s.id.clone()).collect();
    assert_eq!(ids, strings(&["merge-api", "merge-docs"]));
    assert_eq!(plan.steps[0].method, Some(MergeMethod::Merge));
    assert!(plan.steps[1].needs.is_empty());
}

#[test]
fn default_plan_refusals() {
    let err = build_default_plan(&bundle(&["api"]), None, None, Some("svn"), None, "now").err().unwrap();
    assert!(matches!(err, PlanBuildError::UnsupportedProvider(_)));
    assert_eq!(err.message(), "unsupported land provider `svn`. Supported: github, gitlab, forgejo.");
    let err = build_default_plan(&bundle(&[]), None, None, None, None, "now").err().unwrap();
    assert!(matches!(err, PlanBuildError::NoSteps));
    assert_eq!(
        err.message(),
        "No PR publications or project landing deployments are available for this bundle. Run `knit publish create` first or configure project landing deployments."
    );
}

fn valid_plan() -> LandPlan {
    let mut plan =
        build_default_plan(&bundle(&["api", "web"]), Some("shop"), Some(&landing()), None, None, "now").ok().unwrap();
    plan.steps[3].repo_id = Some("web".to_string());
    plan
}

#[test]
fn a_generated_plan_validates() {
    let plan = valid_plan();
    let problems = vec![None; plan.steps.len()];
    assert!(validate_plan_for_bundle("venue", &plan, &problems).is_ok());
}

#[test]
fn a_deployment_without_a_repo_does_not_validate() {
    let plan =
        build_default_plan(&bundle(&["api", "web"]), Some("shop"), Some(&landing()), None, None, "now").ok().unwrap();
    let problems = vec![None; plan.steps.len()];
    let err = validate_plan_for_bundle("venue", &plan, &problems).err().unwrap();
    assert_eq!(err.message(), "step `deploy-all` must provide repoId");
}

#[test]
fn plan_header_is_checked_first() {
    let mut plan = valid_plan();
    let problems = vec![None; plan.steps.len()];
    plan.schema_version = "2".to_string();
    let err = validate_plan_for_bundle("venue", &plan, &problems).err().unwrap();
    assert_eq!(err.message(), "Land plan schemaVersion must be `1`, found `2`.");
    plan.schema_version = "1".to_string();
    plan.kind = "Other".to_string();
    let err = validate_plan_for_bundle("venue", &plan, &problems).err().unwrap();
    assert_eq!(err.message(), "Land plan kind must be `KnitLandPlan`, found `Other`.");
    plan.kind = "KnitLandPlan".to_string();
    let err = validate_plan_for_bundle("shop-redo", &plan, &problems).err().unwrap();
    assert!(matches!(err, PlanCheckError::WrongBundle { .. }));
    assert_eq!(err.message(), "Land plan belongs to bundle venue, but resolved bundle is shop-redo.");
    plan.provider = "svn".to_string();
    let err = validate_plan_for_bundle("venue", &plan, &problems).err().unwrap();
    assert_eq!(err.message(), "unsupported land provider `svn`. Supported: github, gitlab, forgejo.");
}

#[test]
fn plan_steps_are_checked_in_order() {
    let mut plan = valid_plan();
    let problems = vec![None; plan.steps.len()];
    plan.steps[2].command = strings(&["echo"]);
    let err = validate_plan_for_bundle("venue", &plan, &problems).err().unwrap();
    assert_eq!(err.message(), "deploy step `deploy-api` uses push mode and must not provide command");
    plan.steps[2].command = Vec::new();
    plan.steps[3].command = Vec::new();
    let err = validate_plan_for_bundle("venue", &plan, &problems).err().unwrap();
    assert_eq!(err.message(), "deploy step `deploy-all` must provide command");
    plan.steps[3].command = strings(&["make"]);
    plan.steps[2].checkout = Some(LandCheckout { branch: "  ".to_string(), remote: None, update: None });
    let err = validate_plan_for_bundle("venue", &plan, &problems).err().unwrap();
    assert_eq!(err.message(), "deploy step `deploy-api` checkout branch must not be empty");
    plan.steps[2].checkout = None;
    plan.steps[0].repo_id = None;
    let err = validate_plan_for_bundle("venue", &plan, &problems).err().unwrap();
    assert_eq!(err.message(), "step `merge-web` must provide repoId");
}

fn run_step(id: &str, cwd: Option<&str>, command: &[&str]) -> LandStep {
    LandStep {
        id: id.to_string(),
        step_type: LandStepKind::Run,
        needs: Vec::new(),
        repo_id: None,
        method: None,
        wait_for_checks: None,
        required_checks_only: None,
        delete_branch: None,
        required_only: None,
        timeout_seconds: None,
        interval_seconds: None,
        cwd: cwd.map(|c| c.to_string()),
        command: command.iter().map(|c| c.to_string()).collect(),
        env: Vec::new(),
        deployment_mode: None,
        checkout: None,
    }
}

#[test]
fn run_steps_need_a_command_and_an_existing_directory() {
    let mut plan = valid_plan();
    plan.steps = vec![run_step("smoke", Some("tools"), &[])];
    let err = validate_plan_for_bundle("venue", &plan, &vec![None]).err().unwrap();
    assert_eq!(err.message(), "run step `smoke` must provide command");
    plan.steps = vec![run_step("smoke", Some("tools"), &["./smoke"])];
    let problem = Some("run step `smoke` cwd does not exist: /w/tools".to_string());
    let err = validate_plan_for_bundle("venue", &plan, &vec![problem]).err().unwrap();
    assert_eq!(err.message(), "run step `smoke` cwd does not exist: /w/tools");
}

#[test]
fn plan_steps_must_be_orderable() {
    let mut plan = valid_plan();
    let mut a = run_step("a", None, &["x"]);
    a.needs = vec!["b".to_string()];
    let mut b = run_step("b", None, &["x"]);
    b.needs = vec!["a".to_string()];
    plan.steps = vec![a, b];
    let err = validate_plan_for_bundle("venue", &plan, &vec![None, None]).err().unwrap();
    assert!(matches!(err, PlanCheckError::Order(_)));
}

#[test]
fn deployment_checkouts_carry_over() {
    let mut l = landing();
    l.deployments = vec![ProjectDeployment {
        checkout: Some(ProjectDeployCheckout { branch: "deploy".to_string(), remote: Some("prod".to_string()), update: None }),
        mode: Some(DeployMode::Push),
        needs: vec!["merge-web".to_string()],
        ..deployment("ship", Some("api"), &[])
    }];
    let plan = build_default_plan(&bundle(&["api", "web"]), None, Some(&l), None, None, "now").ok().unwrap();
    let ship = &plan.steps[2];
    assert_eq!(ship.needs, strings(&["merge-web"]));
    let checkout = ship.checkout.as_ref().unwrap();
    assert_eq!(checkout.branch, "deploy");
    assert_eq!(checkout.remote.as_deref(), Some("prod"));
}
