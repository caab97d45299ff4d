use knit::land_order::{ordered_step_ids, step_waves};
use knit::land_plan::default_deployment_needs;
use knit::land_run::ensure_needs_succeeded;
use knit::land_types::{LandRun, LandRunStep, LandStatus, LandStep, LandStepKind, LAND_RUN_KIND, SCHEMA_VERSION};

fn step(id: &str, needs: &[&str]) -> LandStep {
    LandStep {
        id: id.to_string(),
        step_type: LandStepKind::Run,
        needs: needs.iter().map(|need| need.to_string()).collect(),
        repo_id: None,
        method: None,
        wait_for_checks: None,
        required_checks_only: None,
        delete_branch: None,
        required_only: None,
        timeout_seconds: None,
        interval_seconds: None,
        cwd: Some(".".to_string()),
        command: vec!["true".to_string()],
        env: Vec::new(),
        deployment_mode: None,
        checkout: None,
    }
}

#[test]
fn orders_steps_by_dependencies() {
    let steps = vec![
        step("deploy", &["merge-a", "merge-b"]),
        step("merge-a", &[]),
        step("merge-b", &[]),
    ];
    let order = ordered_step_ids(&steps).unwrap();
    assert!(order.iter().position(|id| id == "merge-a") < order.iter().position(|id| id == "deploy"));
    assert!(order.iter().position(|id| id == "merge-b") < order.iter().position(|id| id == "deploy"));
}

#[test]
fn rejects_dependency_cycles() {
    let steps = vec![step("a", &["b"]), step("b", &["a"])];
    assert!(ordered_step_ids(&steps).unwrap_err().message().contains("cycle"));
}

#[test]
fn resume_dependencies_must_have_succeeded() {
    let run = LandRun {
        schema_version: SCHEMA_VERSION.to_string(),
        kind: LAND_RUN_KIND.to_string(),
        id: "run".to_string(),
        plan_id: "plan".to_string(),
        bundle_id: "bundle".to_string(),
        provider: "github".to_string(),
        plan_path: "plan.json".to_string(),
        status: LandStatus::Running,
        created_at: "2026-05-05T00:00:00.000Z".to_string(),
        updated_at: "2026-05-05T00:00:00.000Z".to_string(),
        rolled_back_at: None,
        steps: vec![LandRunStep {
            id: "a".to_string(),
            step_type: LandStepKind::Run,
            status: LandStatus::Failed,
            repo_id: None,
            publication_url: None,
            started_at: None,
            finished_at: None,
            detail: None,
            stdout: None,
            stderr: None,
            exit_code: None,
        }],
    };
    assert!(ensure_needs_succeeded(&run, &step("b", &["a"])).unwrap_err().message().contains("waiting"));
}

#[test]
fn step_waves_groups_independent_steps() {
    let steps = vec![
        step("merge-a", &[]),
        step("merge-b", &[]),
        step("deploy", &["merge-a", "merge-b"]),
    ];
    let order = ordered_step_ids(&steps).unwrap();
    let waves = step_waves(&steps, &order).unwrap();
    assert_eq!(waves.len(), 2);
    assert_eq!(waves[0].len(), 2);
    assert!(waves[0].contains(&"merge-a".to_string()));
    assert!(waves[0].contains(&"merge-b".to_string()));
    assert_eq!(waves[1], vec!["deploy".to_string()]);
}

#[test]
fn step_waves_respects_sequential_chain() {
    let steps = vec![
        step("merge-a", &[]),
        step("merge-b", &["merge-a"]),
        step("merge-c", &["merge-b"]),
    ];
    let order = ordered_step_ids(&steps).unwrap();
    let waves = step_waves(&steps, &order).unwrap();
    assert_eq!(waves.len(), 3);
    assert_eq!(waves[0], vec!["merge-a".to_string()]);
    assert_eq!(waves[1], vec!["merge-b".to_string()]);
    assert_eq!(waves[2], vec!["merge-c".to_string()]);
}

#[test]
fn step_waves_mixed_parallel_and_sequential() {
    let steps = vec![
        step("merge-a", &[]),
        step("merge-b", &["merge-a"]),
        step("merge-c", &[]),
        step("deploy", &["merge-b", "merge-c"]),
    ];
    let order = ordered_step_ids(&steps).unwrap();
    let waves = step_waves(&steps, &order).unwrap();
    assert_eq!(waves.len(), 3);
    assert!(waves[0].contains(&"merge-a".to_string()));
    assert!(waves[0].contains(&"merge-c".to_string()));
    assert_eq!(waves[1], vec!["merge-b".to_string()]);
    assert_eq!(waves[2], vec!["deploy".to_string()]);
}

#[test]
fn default_deployment_needs_uses_repo_merge_step() {
    let merge_ids = vec![("backend".to_string(), "merge-backend".to_string())];
    let all_merge = vec!["merge-backend".to_string(), "merge-frontend".to_string()];
    let needs = default_deployment_needs(Some("backend"), &merge_ids, &all_merge);
    assert_eq!(needs, vec!["merge-backend".to_string()]);
}

#[test]
fn default_deployment_needs_falls_back_to_all_merges() {
    let merge_ids: Vec<(String, String)> = Vec::new();
    let all_merge = vec!["merge-a".to_string(), "merge-b".to_string()];
    let needs = default_deployment_needs(None, &merge_ids, &all_merge);
    assert_eq!(needs, vec!["merge-a".to_string(), "merge-b".to_string()]);
}

#[test]
fn step_waves_merge_depends_on_deploy() {
    let steps = vec![
        step("merge-a", &[]),
        step("deploy-a", &["merge-a"]),
        step("merge-b", &["deploy-a"]),
    ];
    let order = ordered_step_ids(&steps).unwrap();
    let waves = step_waves(&steps, &order).unwrap();
    assert_eq!(waves.len(), 3);
    assert_eq!(waves[0], vec!["merge-a".to_string()]);
    assert_eq!(waves[1], vec!["deploy-a".to_string()]);
    assert_eq!(waves[2], vec!["merge-b".to_string()]);
}
