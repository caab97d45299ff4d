use knit::model::{BundleState, ChangeGroup, PublicationEntry};
use knit::publish_sync::{
    apply_sync_fetches, body_failures, record_refreshed_publications, sync_publications_result, upsert_publication, BodySyncOutcome, SyncFetchOutcome,
};
use knit::push_force::PushForce;
use knit::remote::lifecycle_remote;
use knit::remote_push::{
    artifact_post_after_lease, artifact_push_start, lease_from_index, remote_sync_failures, single_push_reply,
    ArtifactPushStart,
};
use knit::sync::{KnitConfig, KnitRemote};

fn publication(repo_id: &str, state: &str) -> PublicationEntry {
    PublicationEntry {
        repo_id: repo_id.to_string(),
        provider: "github".to_string(),
        kind: "pull_request".to_string(),
        number: 3,
        url: format!("https://github.com/acme/{repo_id}/pull/3"),
        base_branch: "main".to_string(),
        head_branch: "knit/venue".to_string(),
        state: state.to_string(),
        title: None,
        updated_at: "t".to_string(),
    }
}

fn bundle(publications: Vec<PublicationEntry>) -> ChangeGroup {
    ChangeGroup {
        schema_version: "1".to_string(),
        kind: "KnitBundle".to_string(),
        id: "venue".to_string(),
        title: "venue".to_string(),
        state: Some(BundleState::Open),
        closed_at: None,
        archived_at: None,
        deleted_at: None,
        project_id: None,
        created_at: "t".to_string(),
        updated_at: "t".to_string(),
        head_node_id: None,
        repos: Vec::new(),
        commit_groups: Vec::new(),
        nodes: Vec::new(),
        publications,
        work_item_ids: Vec::new(),
    }
}

#[test]
fn upserting_replaces_or_appends() {
    let mut pubs = vec![publication("api", "OPEN")];
    upsert_publication(&mut pubs, publication("api", "MERGED"));
    upsert_publication(&mut pubs, publication("web", "OPEN"));
    assert_eq!(pubs.len(), 2);
    assert_eq!(pubs[0].state, "MERGED");
    assert_eq!(pubs[1].repo_id, "web");
}

#[test]
fn every_fetch_result_is_applied() {
    let mut b = bundle(vec![publication("api", "OPEN")]);
    let results = vec![
        ("api".to_string(), SyncFetchOutcome::Failed("HTTP 502".to_string())),
        ("web".to_string(), SyncFetchOutcome::Summary { repo_index: 1, publication: publication("web", "OPEN") }),
        ("docs".to_string(), SyncFetchOutcome::NoReviewObject),
        ("api".to_string(), SyncFetchOutcome::Summary { repo_index: 0, publication: publication("api", "MERGED") }),
    ];
    let (synced, failures) = apply_sync_fetches(&mut b, results);
    assert_eq!(synced, vec![1, 0]);
    assert_eq!(failures, vec!["api: HTTP 502".to_string()]);
    assert_eq!(b.publications.len(), 2);
    assert_eq!(b.publications[0].state, "MERGED");
    assert_eq!(b.publications[1].repo_id, "web");
}

#[test]
fn body_sync_failures_fail_the_sync() {
    let results = vec![
        ("api".to_string(), BodySyncOutcome::Synced("u".to_string())),
        ("web".to_string(), BodySyncOutcome::AlreadySynced),
        ("docs".to_string(), BodySyncOutcome::Failed("denied".to_string())),
    ];
    let failures = body_failures(&results);
    assert_eq!(failures, vec!["docs: denied".to_string()]);
    assert_eq!(sync_publications_result(&Vec::new()), Ok(()));
    assert_eq!(
        sync_publications_result(&vec!["api: HTTP 502".to_string(), "docs: denied".to_string()]),
        Err("PR sync completed with failures:\napi: HTTP 502\ndocs: denied".to_string())
    );
}

#[test]
fn a_lease_is_fetched_only_when_wanted() {
    assert!(matches!(artifact_push_start(PushForce::WithLease), ArtifactPushStart::FetchLease));
    match artifact_push_start(PushForce::Unconditional) {
        ArtifactPushStart::Post(f) => {
            assert!(f.force);
            assert_eq!(f.expected_artifact_hash, None);
        }
        ArtifactPushStart::FetchLease => panic!("no lease for an unconditional push"),
    }
    match artifact_push_start(PushForce::No) {
        ArtifactPushStart::Post(f) => assert!(!f.force),
        ArtifactPushStart::FetchLease => panic!("no lease for a plain push"),
    }
    assert_eq!(lease_from_index(&vec!["h2".to_string(), "h1".to_string()]), Some("h2".to_string()));
    assert_eq!(lease_from_index(&Vec::new()), None);
    let f = artifact_post_after_lease(Some("h2"));
    assert!(f.force);
    assert_eq!(f.expected_artifact_hash.as_deref(), Some("h2"));
    let f = artifact_post_after_lease(None);
    assert!(!f.force);
}

#[test]
fn refused_pushes_name_the_bundle() {
    assert_eq!(single_push_reply("venue", 201, None, None), Ok(()));
    assert_eq!(
        single_push_reply("venue", 409, Some("leaseMismatch"), Some("h9".to_string())),
        Err("venue: remote artifact changed since fetch (remote artifact is now h9). Run `knit sync pull --bundles` to see the new state, then force-push again.".to_string())
    );
    let err = single_push_reply("venue", 409, None, None).unwrap_err();
    assert!(err.starts_with("venue: the remote has recorded bundle work this workspace does not include. Run `knit pull`"));
}

#[test]
fn remote_failures_are_all_kept() {
    let results = vec![
        ("hub".to_string(), None),
        ("mirror".to_string(), Some("No KnitHub remote named `mirror`.".to_string())),
        ("backup".to_string(), Some("HTTP 500".to_string())),
    ];
    assert_eq!(
        remote_sync_failures(&results),
        vec!["mirror: No KnitHub remote named `mirror`.".to_string(), "backup: HTTP 500".to_string()]
    );
}

#[test]
fn no_sync_remote_means_no_lifecycle_lookup() {
    let mut c = KnitConfig { active_project: None, remotes: Vec::new(), sync_remote: None, sync_remotes: Vec::new(), push_sync: true };
    assert_eq!(lifecycle_remote(&c), None);
    c.remotes.push(("hosted".to_string(), KnitRemote { url: "https://h".to_string(), token: None }));
    assert_eq!(lifecycle_remote(&c), Some("hosted".to_string()));
}

#[test]
fn a_land_run_records_the_refreshed_prs() {
    let mut b = bundle(vec![publication("api", "OPEN"), publication("web", "OPEN")]);
    record_refreshed_publications(&mut b, vec![publication("web", "MERGED"), publication("api", "MERGED")]);
    assert_eq!(b.publications.len(), 2);
    assert_eq!(b.publications[0].state, "MERGED");
    assert_eq!(b.publications[1].state, "MERGED");
}
