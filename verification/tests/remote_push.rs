use knit::remote_push::{
    classify_artifact_push, refused_push_message, sweep_item, sweep_result, sweep_skipped_warning, tally_sweep,
    ArtifactPushVerdict, SweepItem, SweepResult,
};

#[test]
fn artifact_push_answers() {
    assert!(matches!(classify_artifact_push(201, None, None), ArtifactPushVerdict::Accepted));
    assert!(matches!(classify_artifact_push(500, Some("leaseMismatch"), None), ArtifactPushVerdict::Accepted));
    assert!(matches!(classify_artifact_push(409, None, None), ArtifactPushVerdict::RemoteAhead));
    assert!(matches!(classify_artifact_push(409, Some("ahead"), None), ArtifactPushVerdict::RemoteAhead));
    match classify_artifact_push(409, Some("leaseMismatch"), Some("h9".to_string())) {
        ArtifactPushVerdict::LeaseMismatch { current } => assert_eq!(current.as_deref(), Some("h9")),
        other => panic!("unexpected {other:?}"),
    }
}

#[test]
fn refused_pushes_explain_themselves() {
    assert_eq!(refused_push_message("venue", &ArtifactPushVerdict::Accepted), None);
    assert_eq!(
        refused_push_message("venue", &ArtifactPushVerdict::RemoteAhead).unwrap(),
        "venue: the remote has recorded bundle work this workspace does not include. Run `knit pull` to fast-forward (or `knit pull --merge` if the ledgers diverged), then push again, or overwrite the remote ledger with `knit sync push --bundles --force-with-lease`."
    );
    assert_eq!(
        refused_push_message("venue", &ArtifactPushVerdict::LeaseMismatch { current: Some("h2".to_string()) }).unwrap(),
        "venue: remote artifact changed since fetch (remote artifact is now h2). Run `knit sync pull --bundles` to see the new state, then force-push again."
    );
}

#[test]
fn sweep_items_pick_a_project() {
    assert!(matches!(sweep_item("a", Some("p"), Some("a"), None, None), SweepItem::Excluded));
    assert!(matches!(sweep_item("a", Some("p"), Some("b"), Some("Q"), None), SweepItem::Push { project_id } if project_id == "p"));
    assert!(matches!(sweep_item("a", None, None, Some("My Project"), Some("act")), SweepItem::Push { project_id } if project_id == "my-project"));
    assert!(matches!(sweep_item("a", None, None, None, Some("act")), SweepItem::Push { project_id } if project_id == "act"));
    assert!(matches!(sweep_item("a", None, None, None, None), SweepItem::NoProject(m) if m == "a: no project recorded on the bundle"));
}

#[test]
fn sweep_tally_and_report() {
    let results = vec![
        ("a".to_string(), SweepResult::Pushed),
        ("b".to_string(), SweepResult::RemoteAhead),
        ("c".to_string(), SweepResult::Failed("c: boom".to_string())),
        ("d".to_string(), SweepResult::RemoteAhead),
        ("e".to_string(), SweepResult::Pushed),
    ];
    let t = tally_sweep(&results);
    assert_eq!(t.pushed, 2);
    assert_eq!(t.remote_ahead, vec!["b".to_string(), "d".to_string()]);
    assert_eq!(t.pushed + t.remote_ahead.len() + t.failures.len(), results.len());
    assert_eq!(
        sweep_skipped_warning(&t).unwrap(),
        "b, d: the remote ledger is ahead; run `knit sync pull --bundles` to fast-forward, then push again, or overwrite the remote ledger with `knit sync push --bundles --force-with-lease`"
    );
    assert_eq!(sweep_result(&t).unwrap_err(), "failed to push 1 bundle artifact(s):\nc: boom");
    let clean = tally_sweep(&vec![("a".to_string(), SweepResult::Pushed)]);
    assert_eq!(sweep_skipped_warning(&clean), None);
    assert!(sweep_result(&clean).is_ok());
}
