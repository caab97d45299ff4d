use knit::land_exec::{after_wave, AfterWave};
use knit::land_exec::{finish_run, mark_started, plan_wave, record_wave_results, run_stop_message, run_waves, StepOutcome};
use knit::land_run::LandError;
use knit::land_types::{LandRun, LandRunStep, LandStatus, LandStep, LandStepKind};

fn step(id: &str, needs: &[&str]) -> LandStep {
    LandStep {
        id: id.to_string(),
        step_type: LandStepKind::Run,
        needs: needs.iter().map(|need| need.to_string()).collect(),
        repo_id: None,
        method: None,
        wait_for_checks: None,
        required_checks_only: None,
        delete_branch: None,
        required_only: None,
        timeout_seconds: None,
        interval_seconds: None,
        cwd: None,
        command: vec!["true".to_string()],
        env: Vec::new(),
        deployment_mode: None,
        checkout: None,
    }
}

fn record(id: &str, status: LandStatus) -> LandRunStep {
    LandRunStep {
        id: id.to_string(),
        step_type: LandStepKind::Run,
        status,
        repo_id: None,
        publication_url: None,
        started_at: None,
        finished_at: Some("old".to_string()),
        detail: Some("old".to_string()),
        stdout: None,
        stderr: None,
        exit_code: Some(3),
    }
}

fn run(steps: Vec<LandRunStep>) -> LandRun {
    LandRun {
        schema_version: "1".to_string(),
        kind: "KnitLandRun".to_string(),
        id: "run-1".to_string(),
        plan_id: "plan".to_string(),
        bundle_id: "b".to_string(),
        provider: "github".to_string(),
        plan_path: "plan.json".to_string(),
        status: LandStatus::Pending,
        created_at: "t0".to_string(),
        updated_at: "t0".to_string(),
        rolled_back_at: None,
        steps,
    }
}

fn ids(values: &[&str]) -> Vec<String> {
    values.iter().map(|s| s.to_string()).collect()
}

#[test]
fn a_wave_starts_the_steps_not_yet_succeeded() {
    let steps = vec![step("a", &[]), step("b", &[]), step("c", &["a"])];
    let mut r = run(vec![
        record("a", LandStatus::Succeeded),
        record("b", LandStatus::Failed),
        record("c", LandStatus::Pending),
    ]);
    let starts = plan_wave(&r, &steps, &ids(&["a", "b"])).unwrap();
    assert_eq!(starts, vec![(1, 1)]);
    let now = "t1".to_string();
    mark_started(&mut r, &starts, &now);
    assert_eq!(r.status, LandStatus::Running);
    assert_eq!(r.steps[1].status, LandStatus::Running);
    assert_eq!(r.steps[1].started_at, Some("t1".to_string()));
    assert_eq!(r.steps[1].detail, None);
    assert_eq!(r.steps[1].exit_code, None);
    assert_eq!(r.steps[0].status, LandStatus::Succeeded);
    let later = plan_wave(&r, &steps, &ids(&["c"])).unwrap();
    assert_eq!(later, vec![(2, 2)]);
}

#[test]
fn a_wave_step_waits_for_unfinished_needs() {
    let steps = vec![step("a", &[]), step("c", &["a"])];
    let r = run(vec![record("a", LandStatus::Failed), record("c", LandStatus::Pending)]);
    match plan_wave(&r, &steps, &ids(&["c"])) {
        Err(LandError::WaitingFor { step, need, status }) => {
            assert_eq!(step, "c");
            assert_eq!(need, "a");
            assert_eq!(status, LandStatus::Failed);
        }
        _ => panic!("expected the step to wait"),
    }
}

#[test]
fn wave_results_are_recorded_and_failures_stop_the_run() {
    let mut r = run(vec![record("a", LandStatus::Running), record("b", LandStatus::Running)]);
    let results = vec![
        ("a".to_string(), StepOutcome {
            success: true,
            detail: "merged".to_string(),
            publication_url: Some("u".to_string()),
            stdout: None,
            stderr: None,
            exit_code: None,
        }),
        ("b".to_string(), StepOutcome {
            success: false,
            detail: "exit 1".to_string(),
            publication_url: None,
            stdout: Some("out".to_string()),
            stderr: Some("err".to_string()),
            exit_code: Some(1),
        }),
    ];
    let now = "t2".to_string();
    let failed = record_wave_results(&mut r, &results, &now);
    assert_eq!(failed, ids(&["b"]));
    assert_eq!(r.status, LandStatus::Failed);
    assert_eq!(r.steps[0].status, LandStatus::Succeeded);
    assert_eq!(r.steps[0].publication_url, Some("u".to_string()));
    assert_eq!(r.steps[1].exit_code, Some(1));
    assert_eq!(r.steps[1].finished_at, Some("t2".to_string()));
    assert_eq!(
        run_stop_message(&r.id, &failed),
        "Land run run-1 stopped at step b. Fix the issue and run `knit land resume`."
    );
    assert_eq!(
        run_stop_message("r", &ids(&["x", "y"])),
        "Land run r stopped at steps x, y. Fix the issue and run `knit land resume`."
    );
    assert!(!finish_run(&mut r, &"t3".to_string()));
    assert_eq!(r.status, LandStatus::Failed);
    assert_eq!(r.updated_at, "t2");
    r.steps[1].status = LandStatus::Succeeded;
    assert!(finish_run(&mut r, &"t3".to_string()));
    assert_eq!(r.status, LandStatus::Succeeded);
    assert_eq!(r.updated_at, "t3");
}

use knit::land_rollback::{check_rollback, landed_node_fields, record_landed_node, RollbackError};
use knit::land_types::LandPlan;
use knit::model::{BundleNode, BundleState, ChangeGroup, PublicationEntry, PULL_REQUEST_KIND};

fn merged_record(id: &str, repo: &str, url: &str) -> LandRunStep {
    LandRunStep {
        id: id.to_string(),
        step_type: LandStepKind::MergePr,
        status: LandStatus::Succeeded,
        repo_id: Some(repo.to_string()),
        publication_url: Some(url.to_string()),
        started_at: None,
        finished_at: None,
        detail: None,
        stdout: None,
        stderr: None,
        exit_code: None,
    }
}

#[test]
fn rollback_needs_a_failed_run_that_merged_something() {
    let mut r = run(vec![merged_record("merge-api", "api", "https://x/api/1"), record("deploy", LandStatus::Failed)]);
    r.status = LandStatus::Failed;
    assert_eq!(check_rollback(&r, "b").unwrap(), vec![("api".to_string(), "https://x/api/1".to_string())]);
    assert_eq!(
        check_rollback(&r, "other").unwrap_err().message(),
        "Land run run-1 belongs to bundle b, but resolved bundle is other."
    );
    r.status = LandStatus::Running;
    assert_eq!(
        check_rollback(&r, "b").unwrap_err().message(),
        "Land run run-1 is running, expected failed. Only failed runs can be rolled back."
    );
    r.status = LandStatus::Succeeded;
    assert!(matches!(check_rollback(&r, "b"), Err(RollbackError::Succeeded { .. })));
    r.rolled_back_at = Some("t9".to_string());
    assert_eq!(check_rollback(&r, "b").unwrap_err().message(), "Land run run-1 was already rolled back at t9.");
    let mut idle = run(vec![record("deploy", LandStatus::Failed)]);
    idle.status = LandStatus::Failed;
    assert!(matches!(check_rollback(&idle, "b"), Err(RollbackError::NothingMerged { .. })));
}

fn publication(repo_id: &str, url: &str) -> PublicationEntry {
    PublicationEntry {
        repo_id: repo_id.to_string(),
        provider: "github".to_string(),
        kind: PULL_REQUEST_KIND.to_string(),
        number: 1,
        url: url.to_string(),
        base_branch: "main".to_string(),
        head_branch: "f".to_string(),
        state: "MERGED".to_string(),
        title: None,
        updated_at: "t".to_string(),
    }
}

fn bundle(publications: Vec<PublicationEntry>, nodes: Vec<BundleNode>) -> ChangeGroup {
    ChangeGroup {
        schema_version: "1".to_string(),
        kind: "KnitBundle".to_string(),
        id: "b".to_string(),
        title: "b".to_string(),
        state: Some(BundleState::Open),
        closed_at: None,
        archived_at: None,
        deleted_at: None,
        project_id: None,
        created_at: "t".to_string(),
        updated_at: "t".to_string(),
        head_node_id: None,
        repos: Vec::new(),
        commit_groups: Vec::new(),
        nodes,
        publications,
        work_item_ids: Vec::new(),
    }
}

#[test]
fn landed_node_lists_sorted_repos_and_urls_once() {
    let mut merge_web = step("merge-web", &[]);
    merge_web.repo_id = Some("web".to_string());
    let mut merge_api = step("merge-api", &[]);
    merge_api.repo_id = Some("api".to_string());
    let mut deploy_api = step("deploy-api", &["merge-api"]);
    deploy_api.repo_id = Some("api".to_string());
    let plan = LandPlan {
        schema_version: "1".to_string(),
        kind: "KnitLandPlan".to_string(),
        id: "plan".to_string(),
        provider: "github".to_string(),
        bundle_id: "b".to_string(),
        source_project_id: None,
        created_at: "t".to_string(),
        on_failure: None,
        target_branch: None,
        require_checks: Vec::new(),
        steps: vec![merge_web, merge_api, deploy_api, step("notify", &[])],
    };
    let r = run(vec![merged_record("merge-api", "api", "https://x/api/1"), merged_record("merge-web", "web", "https://x/web/2")]);
    let b = bundle(vec![publication("api", "https://x/api/1"), publication("web", "https://x/web/1")], Vec::new());
    let (repos, urls) = landed_node_fields(&b, &plan, &r).unwrap();
    assert_eq!(repos, ids(&["api", "web"]));
    assert_eq!(urls, ids(&["https://x/api/1", "https://x/web/1", "https://x/web/2"]));
    let landed = BundleNode {
        id: "land-1".to_string(),
        node_type: "feature.landed".to_string(),
        title: None,
        message: None,
        commit_group_id: None,
        commits: Vec::new(),
        repo_changes: Vec::new(),
        repo_ids: None,
        publication_urls: Vec::new(),
        provider: None,
        target_node_id: None,
        plan_id: None,
        run_id: Some("run-1".to_string()),
    };
    let recorded = bundle(Vec::new(), vec![landed]);
    assert!(landed_node_fields(&recorded, &plan, &r).is_none());
}

#[test]
fn a_failed_wave_stops_the_run() {
    assert_eq!(after_wave(&vec!["merge-api".to_string()], 2), AfterWave::Stop);
    assert_eq!(after_wave(&vec!["merge-api".to_string()], 0), AfterWave::Stop);
    assert_eq!(after_wave(&Vec::new(), 1), AfterWave::NextWave);
    assert_eq!(after_wave(&Vec::new(), 0), AfterWave::Finish);
}

fn outcome(success: bool, detail: &str) -> StepOutcome {
    StepOutcome {
        success,
        detail: detail.to_string(),
        publication_url: None,
        stdout: None,
        stderr: None,
        exit_code: if success { Some(0) } else { Some(1) },
    }
}

#[test]
fn a_run_stops_at_its_first_failed_wave() {
    let mut r = run(vec![
        record("a", LandStatus::Running),
        record("b", LandStatus::Running),
        record("c", LandStatus::Pending),
    ]);
    let waves = vec![
        vec![("a".to_string(), outcome(true, "ok"))],
        vec![("b".to_string(), outcome(false, "exit 1"))],
        vec![("c".to_string(), outcome(true, "ok"))],
    ];
    let result = run_waves(&mut r, &waves, &"t5".to_string());
    assert_eq!(result, Err(ids(&["b"])));
    assert_eq!(r.status, LandStatus::Failed);
    assert_eq!(r.updated_at, "t5");
    assert_eq!(r.steps[0].status, LandStatus::Succeeded);
    assert_eq!(r.steps[1].status, LandStatus::Failed);
    assert_eq!(r.steps[1].detail, Some("exit 1".to_string()));
    assert_eq!(r.steps[2].status, LandStatus::Pending);
    assert_eq!(r.steps[2].detail, Some("old".to_string()));
}

#[test]
fn a_run_succeeds_when_every_step_has() {
    let mut r = run(vec![
        record("a", LandStatus::Succeeded),
        record("b", LandStatus::Running),
        record("c", LandStatus::Running),
    ]);
    let waves = vec![vec![("b".to_string(), outcome(true, "merged"))], vec![("c".to_string(), outcome(true, "deployed"))]];
    assert_eq!(run_waves(&mut r, &waves, &"t6".to_string()), Ok(()));
    assert_eq!(r.status, LandStatus::Succeeded);
    assert_eq!(r.updated_at, "t6");
    assert_eq!(r.steps[0].detail, Some("old".to_string()));
    assert_eq!(r.steps[2].detail, Some("deployed".to_string()));

    let mut partial = run(vec![record("a", LandStatus::Pending), record("b", LandStatus::Running)]);
    let only_b = vec![vec![("b".to_string(), outcome(true, "ok"))]];
    assert_eq!(run_waves(&mut partial, &only_b, &"t7".to_string()), Ok(()));
    assert_eq!(partial.status, LandStatus::Running);
}

fn landing_plan() -> LandPlan {
    let mut merge_api = step("merge-api", &[]);
    merge_api.repo_id = Some("api".to_string());
    LandPlan {
        schema_version: "1".to_string(),
        kind: "KnitLandPlan".to_string(),
        id: "plan-7".to_string(),
        provider: "github".to_string(),
        bundle_id: "b".to_string(),
        source_project_id: None,
        created_at: "t".to_string(),
        on_failure: None,
        target_branch: None,
        require_checks: Vec::new(),
        steps: vec![merge_api, step("notify", &[])],
    }
}

#[test]
fn a_landing_is_recorded_once() {
    let plan = landing_plan();
    let mut r = run(vec![merged_record("merge-api", "api", "https://x/api/1")]);
    let mut b = bundle(vec![publication("api", "https://x/api/1")], Vec::new());
    r.status = LandStatus::Failed;
    assert!(!record_landed_node(&mut b, &plan, &r, "land-1".to_string(), "t8".to_string()));
    assert!(b.nodes.is_empty());
    r.status = LandStatus::Succeeded;
    assert!(record_landed_node(&mut b, &plan, &r, "land-1".to_string(), "t8".to_string()));
    assert_eq!(b.nodes.len(), 1);
    let node = &b.nodes[0];
    assert_eq!(node.id, "land-1");
    assert_eq!(node.node_type, "feature.landed");
    assert_eq!(node.run_id, Some("run-1".to_string()));
    assert_eq!(node.plan_id, Some("plan-7".to_string()));
    assert_eq!(node.provider, Some("github".to_string()));
    assert_eq!(node.repo_ids, Some(ids(&["api"])));
    assert_eq!(node.publication_urls, ids(&["https://x/api/1"]));
    assert_eq!(b.head_node_id, Some("land-1".to_string()));
    assert_eq!(b.updated_at, "t8");
    assert!(!record_landed_node(&mut b, &plan, &r, "land-2".to_string(), "t9".to_string()));
    assert_eq!(b.nodes.len(), 1);
    assert_eq!(b.head_node_id, Some("land-1".to_string()));
    assert_eq!(b.updated_at, "t8");
}
