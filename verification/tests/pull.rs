use knit::pull::{
    aggregate_project, aggregate_result, base_outcome, bundle_outcome, condense, failed_outcome, materialize_flags, path_outcome,
    tally_outcomes, totals_line, PullOutcome,
};
use knit::remote::RemoteBundleOutcome;

#[test]
fn outcomes_of_checkouts() {
    assert!(matches!(base_outcome(None, "abc".to_string()),
        PullOutcome::Advanced { before, after } if before == "(missing)" && after == "abc"));
    assert!(matches!(base_outcome(Some("abc".to_string()), "abc".to_string()), PullOutcome::Unchanged(s) if s == "abc"));
    assert!(matches!(path_outcome("a1".to_string(), "b2".to_string()),
        PullOutcome::Advanced { before, after } if before == "a1" && after == "b2"));
}

#[test]
fn outcomes_of_bundles() {
    assert!(matches!(bundle_outcome(None), PullOutcome::Skipped(s) if s == "no sync remote available"));
    assert!(matches!(bundle_outcome(Some(RemoteBundleOutcome::Merged("h1".to_string()))),
        PullOutcome::Synced(s) if s == "h1 (merged ledgers)"));
    assert!(matches!(bundle_outcome(Some(RemoteBundleOutcome::Pulled("h2".to_string()))),
        PullOutcome::Synced(s) if s == "h2"));
    assert!(matches!(bundle_outcome(Some(RemoteBundleOutcome::Refreshed("r".to_string()))),
        PullOutcome::Refreshed(s) if s == "r"));
}

#[test]
fn errors_condense_to_one_line() {
    let text = "git pull failed\n  fatal: Not possible to fast-forward\nhint: Diverging branches\n\n  aborting  \n";
    assert_eq!(condense(text), "git pull failed; fatal: Not possible to fast-forward; aborting");
    assert_eq!(condense(""), "");
    assert!(matches!(failed_outcome("a\r\nhint: b"), PullOutcome::Failed(s) if s == "a"));
}

#[test]
fn totals_count_every_outcome() {
    let outcomes = vec![
        PullOutcome::Unchanged("a".to_string()),
        PullOutcome::Failed("x".to_string()),
        PullOutcome::Skipped("y".to_string()),
        PullOutcome::Unchanged("b".to_string()),
    ];
    let t = tally_outcomes(&outcomes);
    assert_eq!((t.advanced, t.unchanged, t.synced, t.refreshed, t.skipped, t.failed), (0, 2, 0, 0, 1, 1));
}

#[test]
fn the_report_closes_with_the_totals() {
    let outcomes = vec![
        PullOutcome::Unchanged("a".to_string()),
        PullOutcome::Failed("x".to_string()),
        PullOutcome::Unchanged("b".to_string()),
    ];
    assert_eq!(
        totals_line(&tally_outcomes(&outcomes)),
        "Pulled: 0 advanced, 2 unchanged, 0 synced, 0 refreshed, 0 skipped, 1 failed"
    );
}

#[test]
fn only_the_active_bundle_is_materialized() {
    let ids = vec!["b1".to_string(), "b2".to_string(), "b3".to_string()];
    assert_eq!(materialize_flags(&ids, &Some("b2".to_string())), vec![false, true, false]);
    assert_eq!(materialize_flags(&ids, &None), vec![false, false, false]);
    assert_eq!(aggregate_project(true, false, &Some("p".to_string())), Some("p".to_string()));
    assert_eq!(aggregate_project(false, true, &None), None);
    assert_eq!(aggregate_project(false, false, &Some("p".to_string())), None);
}

#[test]
fn a_pull_fails_only_when_a_base_branch_failed() {
    let fine = vec![
        ("api".to_string(), PullOutcome::Unchanged("abc".to_string())),
        ("web".to_string(), PullOutcome::Advanced { before: "a".to_string(), after: "b".to_string() }),
    ];
    assert_eq!(aggregate_result(&fine), Ok(()));
    let mut failing = fine.clone();
    failing.push(("docs".to_string(), PullOutcome::Failed("no remote".to_string())));
    assert_eq!(
        aggregate_result(&failing),
        Err("one or more configured base branches could not be updated".to_string())
    );
    assert_eq!(aggregate_result(&Vec::new()), Ok(()));
}
