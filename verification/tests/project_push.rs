use knit::project_push::{
    architecture_summary, kg_graph_summary, missing_artifact_note, project_push_remotes, project_push_result,
};
use knit::sync::{KnitConfig, KnitRemote};

fn config(sync_remotes: &[&str]) -> KnitConfig {
    KnitConfig {
        active_project: None,
        remotes: vec![("mirror".to_string(), KnitRemote { url: "https://m".to_string(), token: None })],
        sync_remote: None,
        sync_remotes: sync_remotes.iter().map(|s| s.to_string()).collect(),
        push_sync: true,
    }
}

#[test]
fn an_explicit_remote_is_slugged() {
    assert_eq!(project_push_remotes(&config(&[]), Some("Team Hub")), Ok(vec!["team-hub".to_string()]));
}

#[test]
fn configured_sync_remotes_are_used_otherwise() {
    assert_eq!(
        project_push_remotes(&config(&["mirror", "Backup"]), None),
        Ok(vec!["mirror".to_string(), "backup".to_string()])
    );
    assert_eq!(
        project_push_remotes(&config(&[]), None),
        Ok(vec!["mirror".to_string()])
    );
    let mut two = config(&[]);
    two.remotes.push(("other".to_string(), KnitRemote { url: "https://o".to_string(), token: None }));
    assert_eq!(
        project_push_remotes(&two, None),
        Err("No sync remote configured. Run `knit remote add <name> <url>` first.".to_string())
    );
}

#[test]
fn a_project_push_fails_only_everywhere() {
    assert_eq!(project_push_result(2, &vec!["a".to_string()]), Ok(()));
    assert_eq!(
        project_push_result(2, &vec!["a".to_string(), "b".to_string()]),
        Err("project push failed for every remote: a, b".to_string())
    );
}

#[test]
fn graph_summaries() {
    assert_eq!(architecture_summary(3, 12), "3 repo(s), 12 edge(s)");
    assert_eq!(kg_graph_summary(40, 7, false), "40 node(s), 7 edge(s)");
    assert_eq!(kg_graph_summary(0, 0, true), "0 node(s), 0 edge(s) (truncated)");
    assert_eq!(
        missing_artifact_note("architecture", "/w/.urdir/kg/p/architecture.json", "urdir kg architecture --project <slug>"),
        "no architecture artifact at /w/.urdir/kg/p/architecture.json; skipped (run `urdir kg architecture --project <slug>` to produce one)"
    );
}
