use knit::merge_push::{check_run_status, head_mismatch, merge_push_result, push_decision, MergePushStep, PushDecision};
use knit::merge_run::{MergeRunStatus, MergeStepStatus};

fn step(repo: &str, branch: bool, status: MergeStepStatus, after: Option<&str>) -> MergePushStep {
    MergePushStep {
        repo_id: repo.to_string(),
        target: "main".to_string(),
        target_is_branch: branch,
        status,
        after_sha: after.map(|a| a.to_string()),
    }
}

fn label(d: PushDecision) -> String {
    match d {
        PushDecision::Skip => "skip".to_string(),
        PushDecision::Refuse(m) => format!("refuse {m}"),
        PushDecision::Push { after_sha } => format!("push {after_sha}"),
    }
}

#[test]
fn only_selected_branch_targets_are_pushed() {
    let none: Vec<String> = Vec::new();
    assert_eq!(label(push_decision(&step("api", false, MergeStepStatus::Succeeded, Some("a")), &none)), "skip");
    assert_eq!(label(push_decision(&step("api", true, MergeStepStatus::Succeeded, Some("a")), &none)), "push a");
    let filter = vec!["Web".to_string()];
    assert_eq!(label(push_decision(&step("api", true, MergeStepStatus::Succeeded, Some("a")), &filter)), "skip");
    assert_eq!(label(push_decision(&step("web", true, MergeStepStatus::Succeeded, Some("w")), &filter)), "push w");
}

#[test]
fn unfinished_steps_are_refused() {
    let none: Vec<String> = Vec::new();
    assert_eq!(
        label(push_decision(&step("api", true, MergeStepStatus::Conflicted, None), &none)),
        "refuse api: step is conflicted, expected succeeded"
    );
    assert_eq!(
        label(push_decision(&step("api", true, MergeStepStatus::Succeeded, None), &none)),
        "refuse api: no afterSha recorded"
    );
    assert_eq!(head_mismatch("api", "abc", "abc", "abc", "abc"), None);
    assert_eq!(
        head_mismatch("api", "abc123", "def456", "abc", "def"),
        Some("api: checkout HEAD abc does not match merge run afterSha def".to_string())
    );
}

#[test]
fn push_results_and_run_status() {
    assert_eq!(merge_push_result(&Vec::new(), 2), Ok(()));
    assert_eq!(merge_push_result(&Vec::new(), 0), Err("Merge run has no branch-target steps to push.".to_string()));
    assert_eq!(
        merge_push_result(&vec!["api: down".to_string(), "web: x".to_string()], 2),
        Err("merge push failed:\napi: down\nweb: x".to_string())
    );
    assert_eq!(check_run_status("m1", MergeRunStatus::Running, &Vec::new()), Ok(()));
    let allowed = vec![MergeRunStatus::Succeeded, MergeRunStatus::PushFailed];
    assert_eq!(check_run_status("m1", MergeRunStatus::PushFailed, &allowed), Ok(()));
    assert_eq!(
        check_run_status("m1", MergeRunStatus::Conflicted, &allowed),
        Err("Merge run m1 is conflicted, expected one of succeeded, push_failed.".to_string())
    );
}
