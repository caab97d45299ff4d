use knit::remote_repos::{
    delete_failure, fallback_repo_identity, prune_result, prune_targets, repo_identity, DeleteReply,
    RemoteRepositoryRecord,
};

#[test]
fn github_remote_gives_owner_and_name() {
    let id = repo_identity("api", Some("  git@github.com:acme/api.git  "));
    assert_eq!(id.provider, "github");
    assert_eq!(id.owner.as_deref(), Some("acme"));
    assert_eq!(id.name, "api");
    assert_eq!(id.full_name, "acme/api");
}

#[test]
fn https_remote_with_repeated_git_suffix() {
    let id = repo_identity("web", Some("https://github.com/acme/web.git.git"));
    assert_eq!(id.full_name, "acme/web");
    let id = repo_identity("web", Some("https://github.com//acme/web/extra"));
    assert_eq!(id.owner.as_deref(), Some("acme"));
    assert_eq!(id.name, "web");
}

#[test]
fn other_remotes_fall_back_to_the_repo_id() {
    for remote in [Some("https://gitlab.com/acme/api.git"), Some("https://github.com/acme"), None] {
        let id = repo_identity("api", remote);
        assert_eq!(id.provider, "git");
        assert_eq!(id.owner, None);
        assert_eq!(id.name, "api");
        assert_eq!(id.full_name, "api");
    }
    let id = fallback_repo_identity("docs");
    assert_eq!(id.full_name, "docs");
}

fn record(id: &str, local: Option<&str>, meta: Option<&str>, name: Option<&str>) -> RemoteRepositoryRecord {
    RemoteRepositoryRecord {
        id: id.to_string(),
        local_id: local.map(|s| s.to_string()),
        metadata_local_id: meta.map(|s| s.to_string()),
        name: name.map(|s| s.to_string()),
    }
}

#[test]
fn record_local_id_prefers_top_level_then_metadata_then_name() {
    assert_eq!(record("r1", Some("a"), Some("b"), Some("c")).local_id().as_deref(), Some("a"));
    assert_eq!(record("r1", None, Some("b"), Some("c")).local_id().as_deref(), Some("b"));
    assert_eq!(record("r1", None, None, Some("c")).local_id().as_deref(), Some("c"));
    assert_eq!(record("r1", None, None, None).local_id(), None);
}

#[test]
fn records_not_in_the_project_are_pruned() {
    let records = vec![
        record("r1", Some("api"), None, None),
        record("r2", None, Some("old"), None),
        record("r3", None, None, None),
        record("r4", None, None, Some("web")),
    ];
    let keep = vec!["api".to_string(), "web".to_string()];
    let targets = prune_targets(&records, &keep);
    let got: Vec<(String, String)> = targets.iter().map(|t| (t.record_id.clone(), t.label.clone())).collect();
    assert_eq!(got, vec![("r2".to_string(), "old".to_string()), ("r3".to_string(), "r3".to_string())]);
}

#[test]
fn delete_replies_become_failures() {
    let ok = DeleteReply::Response { status: 204, body: String::new() };
    assert_eq!(delete_failure("old", &ok), None);
    let gone = DeleteReply::Response { status: 404, body: "missing".to_string() };
    assert_eq!(delete_failure("old", &gone), None);
    let bad = DeleteReply::Response { status: 500, body: " boom \n".to_string() };
    assert_eq!(delete_failure("old", &bad).as_deref(), Some("old: HTTP 500 boom"));
    let err = DeleteReply::Failed { error: "connection refused".to_string() };
    assert_eq!(delete_failure("r3", &err).as_deref(), Some("r3: connection refused"));
}

#[test]
fn prune_fails_only_when_a_delete_failed() {
    assert_eq!(prune_result(&Vec::new()), Ok(()));
    let failures = vec!["a: HTTP 500 x".to_string(), "b: down".to_string()];
    assert_eq!(
        prune_result(&failures),
        Err("failed to prune remote repositories:\na: HTTP 500 x\nb: down".to_string())
    );
}
