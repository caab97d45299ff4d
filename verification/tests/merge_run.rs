use knit::merge_run::{
    aborted_run_message, apply_step_result, conflicted_step, finish_run, next_pending, resolve_conflicted,
    roll_back, run_complete, MergeProgress, MergeRunStatus, MergeStepRecord, MergeStepStatus, StepAction,
    StepResult,
};

fn step(repo: &str, status: MergeStepStatus) -> MergeStepRecord {
    MergeStepRecord {
        repo_id: repo.to_string(),
        checkout_path: format!("/w/{repo}"),
        before_sha: format!("{repo}-before"),
        after_sha: if status == MergeStepStatus::Succeeded { Some(format!("{repo}-after")) } else { None },
        status,
        message: None,
    }
}

fn progress(manual: bool, steps: Vec<MergeStepRecord>) -> MergeProgress {
    MergeProgress { manual, status: MergeRunStatus::Running, steps }
}

#[test]
fn steps_run_in_order_and_finish() {
    let mut p = progress(false, vec![step("api", MergeStepStatus::Pending), step("web", MergeStepStatus::Pending)]);
    assert_eq!(next_pending(&p, 0), Some(0));
    assert!(matches!(apply_step_result(&mut p, 0, StepResult::Merged { after_sha: "a1".to_string() }), StepAction::Continue));
    assert_eq!(p.steps[0].status, MergeStepStatus::Succeeded);
    assert_eq!(p.steps[0].after_sha.as_deref(), Some("a1"));
    assert_eq!(next_pending(&p, 0), Some(1));
    assert!(!run_complete(&p));
    apply_step_result(&mut p, 1, StepResult::Merged { after_sha: "w1".to_string() });
    assert_eq!(next_pending(&p, 0), None);
    assert!(run_complete(&p));
    assert_eq!(finish_run(&mut p, None), Ok(()));
    assert_eq!(p.status.as_str(), "succeeded");
}

#[test]
fn push_failure_marks_the_run() {
    let mut p = progress(false, vec![step("api", MergeStepStatus::Succeeded)]);
    assert_eq!(
        finish_run(&mut p, Some("remote rejected".to_string())).unwrap_err(),
        "Merge succeeded locally, but push failed:\nremote rejected"
    );
    assert_eq!(p.status, MergeRunStatus::PushFailed);
    assert_eq!(p.status.as_str(), "push_failed");
}

#[test]
fn manual_conflict_stops_for_resolution() {
    let mut p = progress(true, vec![step("api", MergeStepStatus::Succeeded), step("web", MergeStepStatus::Pending)]);
    match apply_step_result(&mut p, 1, StepResult::Conflict("CONFLICT in a.rs".to_string())) {
        StepAction::StopForConflict(e) => assert_eq!(
            e,
            "Merge stopped for manual conflict resolution. Resolve and commit in /w/web, then run `knit merge --continue`, or run `knit merge --abort`."
        ),
        other => panic!("unexpected {other:?}"),
    }
    assert_eq!(p.status, MergeRunStatus::Conflicted);
    assert_eq!(p.steps[1].status, MergeStepStatus::Conflicted);
    assert_eq!(p.steps[1].message.as_deref(), Some("CONFLICT in a.rs"));
    assert_eq!(p.steps[0].status, MergeStepStatus::Succeeded);

    assert_eq!(conflicted_step(&p).unwrap(), 1);
    assert_eq!(
        resolve_conflicted(&mut p, 1, "web-before".to_string()).unwrap_err().message(),
        "web: HEAD did not move. Complete the merge commit before continuing."
    );
    assert!(resolve_conflicted(&mut p, 1, "w2".to_string()).is_ok());
    assert_eq!(p.status, MergeRunStatus::Running);
    assert_eq!(p.steps[1].status, MergeStepStatus::Succeeded);
    assert_eq!(p.steps[1].message, None);
    assert!(run_complete(&p));
    assert_eq!(conflicted_step(&p).unwrap_err().message(), "Latest conflicted merge run has no conflicted step.");
}

#[test]
fn automatic_conflict_rolls_everything_back() {
    let mut p = progress(
        false,
        vec![
            step("api", MergeStepStatus::Succeeded),
            step("web", MergeStepStatus::Succeeded),
            step("docs", MergeStepStatus::Pending),
            step("ops", MergeStepStatus::Pending),
        ],
    );
    match apply_step_result(&mut p, 2, StepResult::Conflict("CONFLICT".to_string())) {
        StepAction::RolledBack { reset, failure } => {
            assert_eq!(reset, vec![2, 1, 0]);
            assert_eq!(failure, "docs: CONFLICT");
        }
        other => panic!("unexpected {other:?}"),
    }
    assert_eq!(p.status, MergeRunStatus::Aborted);
    for i in 0..3 {
        assert_eq!(p.steps[i].status, MergeStepStatus::Aborted);
        assert_eq!(p.steps[i].after_sha, None);
    }
    assert_eq!(p.steps[3].status, MergeStepStatus::Pending);
    assert_eq!(p.steps[2].message.as_deref(), Some("CONFLICT"));
    assert_eq!(
        aborted_run_message(&vec!["docs: CONFLICT".to_string()]),
        "Merge aborted and this run was rolled back:\ndocs: CONFLICT"
    );
}

#[test]
fn fatal_failure_rolls_back_and_abort_resets_what_ran() {
    let mut p = progress(true, vec![step("api", MergeStepStatus::Pending)]);
    match apply_step_result(&mut p, 0, StepResult::Fatal("target checkout is not clean: /w/api".to_string())) {
        StepAction::RolledBack { reset, failure } => {
            assert_eq!(reset, vec![0]);
            assert_eq!(failure, "api: target checkout is not clean: /w/api");
        }
        other => panic!("unexpected {other:?}"),
    }
    let mut q = progress(true, vec![step("a", MergeStepStatus::Succeeded), step("b", MergeStepStatus::Conflicted), step("c", MergeStepStatus::Pending)]);
    assert_eq!(roll_back(&mut q), vec![1, 0]);
    assert_eq!(q.status.as_str(), "aborted");
    assert_eq!(q.steps[1].status.as_str(), "aborted");
    assert_eq!(q.steps[2].status.as_str(), "pending");
}
