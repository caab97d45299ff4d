use knit::land_display::{
    apply_hint, deployment_note, has_deploy_step, landing_targets, merge_step_repo_ids, planned_step_target,
};
use knit::land_types::{DeployMode, LandStep, LandStepKind};
use knit::model::{BundleState, ChangeGroup, CheckoutMode, PublicationEntry, RepoEntry};

fn step(id: &str, kind: LandStepKind, repo: Option<&str>, command: &[&str]) -> LandStep {
    LandStep {
        id: id.to_string(),
        step_type: kind,
        needs: Vec::new(),
        repo_id: repo.map(|r| r.to_string()),
        method: None,
        wait_for_checks: None,
        required_checks_only: None,
        delete_branch: None,
        required_only: None,
        timeout_seconds: None,
        interval_seconds: None,
        cwd: None,
        command: command.iter().map(|c| c.to_string()).collect(),
        env: Vec::new(),
        deployment_mode: None,
        checkout: None,
    }
}

fn repo(id: &str) -> RepoEntry {
    RepoEntry {
        id: id.to_string(),
        path: format!("/src/{id}"),
        remote: None,
        base_branch: "main".to_string(),
        checkout_mode: CheckoutMode::Worktree,
        base_sha: None,
        feature_branch: None,
        worktree_path: None,
        head_sha: None,
    }
}

fn publication(repo_id: &str, base: &str) -> PublicationEntry {
    PublicationEntry {
        repo_id: repo_id.to_string(),
        provider: "github".to_string(),
        kind: "pull_request".to_string(),
        number: 1,
        url: format!("https://h/{repo_id}/1"),
        base_branch: base.to_string(),
        head_branch: "h".to_string(),
        state: "OPEN".to_string(),
        title: None,
        updated_at: "t".to_string(),
    }
}

fn bundle() -> ChangeGroup {
    ChangeGroup {
        schema_version: "1".to_string(),
        kind: "KnitBundle".to_string(),
        id: "venue".to_string(),
        title: "venue".to_string(),
        state: Some(BundleState::Open),
        closed_at: None,
        archived_at: None,
        deleted_at: None,
        project_id: None,
        created_at: "t".to_string(),
        updated_at: "t".to_string(),
        head_node_id: None,
        repos: vec![repo("api"), repo("web"), repo("docs")],
        commit_groups: Vec::new(),
        nodes: Vec::new(),
        publications: vec![publication("api", "main"), publication("web", "release")],
        work_item_ids: Vec::new(),
    }
}

#[test]
fn plan_steps_are_summarized() {
    let steps = vec![
        step("merge-api", LandStepKind::MergePr, Some("api"), &[]),
        step("merge-docs", LandStepKind::MergePr, Some("docs"), &[]),
        step("smoke", LandStepKind::Run, None, &["make", "smoke"]),
        step("deploy", LandStepKind::Deploy, None, &[]),
    ];
    assert_eq!(merge_step_repo_ids(&steps), vec!["api".to_string(), "docs".to_string()]);
    assert!(has_deploy_step(&steps));
    assert!(!has_deploy_step(&steps[..3].to_vec()));
    assert_eq!(planned_step_target(&steps[0]), "api");
    assert_eq!(planned_step_target(&steps[2]), "make smoke");
    assert_eq!(planned_step_target(&steps[3]), "workspace push");
    let mut d = step("deploy-api", LandStepKind::Deploy, Some("api"), &["./deploy"]);
    assert_eq!(planned_step_target(&d), "api command");
    d.deployment_mode = Some(DeployMode::Push);
    assert_eq!(planned_step_target(&d), "api push");
    assert_eq!(apply_hint(Some("release")), "knit land --target release apply");
    assert_eq!(apply_hint(None), "knit land apply");
}

#[test]
fn landing_targets_follow_publications() {
    let b = bundle();
    let ids: Vec<String> = vec!["api".to_string(), "docs".to_string(), "web".to_string()];
    let t = landing_targets(&b, &ids, None);
    assert_eq!(t.len(), 2);
    assert_eq!((t[0].repo_id.as_str(), t[0].branch.as_str(), t[0].alternate), ("api", "main", false));
    assert_eq!((t[1].repo_id.as_str(), t[1].branch.as_str(), t[1].alternate), ("web", "release", true));
    assert_eq!(
        deployment_note(&t, false),
        Some("no deployment steps matched these branches; declare them under `landing.targets.<branch>.deployments` or add an explicit step to this plan.")
    );
    assert_eq!(deployment_note(&t, true), Some("matching `landing.targets.<branch>` deployment steps are included below."));
    let explicit = landing_targets(&b, &ids, Some("main"));
    assert!(explicit.iter().all(|x| x.branch == "main" && !x.alternate));
    assert_eq!(deployment_note(&explicit, true), None);
}
