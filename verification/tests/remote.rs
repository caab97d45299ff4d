use knit::sync::{family_failure, pull_families, push_families, resolve_remotes, SyncFamily};
use knit::model::{BundleState, ChangeGroup};
use knit::push_force::PushForce;
use knit::remote::{
    archive_remote_bundle_by_id, check_response_status, delete_remote_bundle_by_id, list_remote_bundles,
    project_export_path, push_bundle_to_remote, push_label, remote_bundle_lifecycle, remote_token_env_name,
    resolve_token, RemoteBundle,
};
use knit::sync::{
    api_base_url, configured_sync_remote_names, maybe_sync_bundle_to_remote, normalize_base_url,
    resolve_sync_remote_names, split_project_identifier, sync_active_bundle_to_remote_if_enabled,
    sync_bundle_to_remote_if_enabled, sync_failure_message, KnitConfig, KnitRemote, SyncError, SyncTargets,
};

#[test]
fn splits_owner_and_slug() {
    assert_eq!(split_project_identifier("marc/knit-tools"), (Some("marc".to_string()), "knit-tools".to_string()));
}

#[test]
fn bare_slug_has_no_owner() {
    assert_eq!(split_project_identifier("knit-tools"), (None, "knit-tools".to_string()));
}

#[test]
fn slugifies_each_segment() {
    assert_eq!(
        split_project_identifier("Ada Lovelace/Knit Tools"),
        (Some("ada-lovelace".to_string()), "knit-tools".to_string())
    );
}

#[test]
fn empty_side_falls_back_to_bare_slug() {
    assert_eq!(split_project_identifier("/knit-tools"), (None, "knit-tools".to_string()));
    assert_eq!(split_project_identifier("marc/"), (None, "marc".to_string()));
}

fn remote(url: &str, token: Option<&str>) -> KnitRemote {
    KnitRemote { url: url.to_string(), token: token.map(|t| t.to_string()) }
}

fn config(remotes: &[&str], sync_remote: Option<&str>, sync_remotes: &[&str], push_sync: bool) -> KnitConfig {
    KnitConfig {
        active_project: Some("demo".to_string()),
        remotes: remotes.iter().map(|name| (name.to_string(), remote("https://hub.example", None))).collect(),
        sync_remote: sync_remote.map(|s| s.to_string()),
        sync_remotes: sync_remotes.iter().map(|s| s.to_string()).collect(),
        push_sync,
    }
}

fn strings(values: &[&str]) -> Vec<String> {
    values.iter().map(|s| s.to_string()).collect()
}

#[test]
fn sync_remotes_take_priority_and_are_deduplicated() {
    let c = config(&["a", "b"], Some("legacy"), &["B", "a", "b"], true);
    assert_eq!(configured_sync_remote_names(&c), strings(&["b", "a"]));
    let legacy = config(&["a"], Some("Legacy One"), &[], true);
    assert_eq!(configured_sync_remote_names(&legacy), strings(&["legacy-one"]));
    let hub = config(&["knithub"], None, &[], true);
    assert_eq!(configured_sync_remote_names(&hub), strings(&["knithub"]));
    let hub_among_others = config(&["knithub", "other"], None, &[], true);
    assert_eq!(configured_sync_remote_names(&hub_among_others), strings(&["knithub"]));
    let sole = config(&["hosted"], None, &[], true);
    assert_eq!(configured_sync_remote_names(&sole), strings(&["hosted"]));
    let nothing = config(&["other", "more"], None, &[], true);
    assert!(configured_sync_remote_names(&nothing).is_empty());
    assert_eq!(resolve_sync_remote_names(&c, &strings(&["X", "x"])), strings(&["x"]));
}

#[test]
fn push_sync_rules() {
    let off = config(&["knithub"], None, &[], false);
    assert!(maybe_sync_bundle_to_remote(Some(&off), &Vec::new(), false).is_empty());
    assert_eq!(maybe_sync_bundle_to_remote(Some(&off), &strings(&["knithub"]), false), strings(&["knithub"]));
    assert!(sync_bundle_to_remote_if_enabled(Some(&off), &strings(&["knithub"]), true).is_empty());
    assert!(sync_bundle_to_remote_if_enabled(None, &strings(&["knithub"]), false).is_empty());
    let on = config(&["knithub"], None, &[], true);
    assert_eq!(sync_active_bundle_to_remote_if_enabled(&on, &Vec::new(), false), strings(&["knithub"]));
}

#[test]
fn sync_targets_default_to_everything() {
    let all = SyncTargets::resolve(false, false, false, false, false, false);
    assert!(all.bundles && all.history && all.views && all.architecture && all.kg);
    let some = SyncTargets::resolve(true, false, true, false, false, false);
    assert_eq!(some, SyncTargets { bundles: true, history: false, views: true, architecture: false, kg: false });
    assert_eq!(SyncTargets::resolve(true, false, false, false, false, true), all);
}

#[test]
fn sync_failure_message_counts_failures() {
    assert_eq!(sync_failure_message(&Vec::new()), None);
    assert_eq!(
        sync_failure_message(&strings(&["a: down", "b: gone"])),
        Some("Sync failed for 2 remote(s):\na: down\nb: gone".to_string())
    );
}

#[test]
fn base_urls_are_normalized() {
    assert_eq!(normalize_base_url("  https://hub.example//  "), "https://hub.example");
    assert_eq!(api_base_url("https://hub.example/"), "https://hub.example/api/v1");
    assert_eq!(api_base_url("https://hub.example/api/v1/"), "https://hub.example/api/v1");
}

fn remote_bundle(id: &str, slug: &str, state: &str) -> RemoteBundle {
    RemoteBundle { id: id.to_string(), slug: slug.to_string(), lifecycle_state: state.to_string(), payload: None }
}

#[test]
fn lifecycle_skips_deleted_records() {
    let bundles = vec![
        remote_bundle("1", "feature", "deleted"),
        remote_bundle("2", "feature", "landed"),
        remote_bundle("3", "feature", "open"),
    ];
    assert_eq!(remote_bundle_lifecycle(&bundles, "feature"), Some("landed".to_string()));
    assert_eq!(remote_bundle_lifecycle(&bundles, "other"), None);
    assert_eq!(remote_bundle_lifecycle(&bundles[..1].to_vec(), "feature"), None);
}

#[test]
fn listing_keeps_every_record_in_order() {
    let records = list_remote_bundles(vec![remote_bundle("1", "a", "open"), remote_bundle("2", "b", "archived")]);
    assert_eq!(records.len(), 2);
    assert_eq!(records[0].remote_id, "1");
    assert_eq!(records[1].slug, "b");
    assert_eq!(records[1].lifecycle_state, "archived");
    assert!(records[1].payload.is_none());
}

#[test]
fn bundle_record_requests_target_the_primary_sync_remote() {
    let c = config(&["hub"], Some("hub"), &[], true);
    let archive = archive_remote_bundle_by_id(&c, "r-1").unwrap();
    assert_eq!(archive.remote_name, "hub");
    assert_eq!(archive.remote, 0);
    assert_eq!(archive.method, "PATCH");
    assert_eq!(archive.path, "/bundles/r-1/archive");
    let delete = delete_remote_bundle_by_id(&c, "r-1").unwrap();
    assert_eq!(delete.method, "DELETE");
    assert_eq!(delete.path, "/bundles/r-1");
    let none = config(&["other", "more"], None, &[], true);
    assert!(matches!(archive_remote_bundle_by_id(&none, "r-1"), Err(SyncError::NoSyncRemote)));
    let missing = config(&[], Some("hub"), &[], true);
    assert_eq!(
        delete_remote_bundle_by_id(&missing, "r").unwrap_err().message(),
        "No KnitHub remote named `hub`. Run `knit remote add hub <url>` first."
    );
}

#[test]
fn export_paths_scope_by_owner() {
    assert_eq!(project_export_path("Marc/Knit Tools"), "/projects/knit-tools/export?owner=marc");
    assert_eq!(project_export_path("knit-tools"), "/projects/knit-tools/export");
}

#[test]
fn token_variable_and_resolution() {
    assert_eq!(remote_token_env_name("My Hub.2"), "KNIT_REMOTE_MY_HUB_2_TOKEN");
    let stored = remote("u", Some("stored"));
    assert_eq!(resolve_token(Some("own".to_string()), Some("shared".to_string()), &stored).unwrap(), "own");
    assert_eq!(resolve_token(Some("  ".to_string()), Some("shared".to_string()), &stored).unwrap(), "shared");
    assert_eq!(resolve_token(None, Some(" ".to_string()), &stored).unwrap(), "stored");
    let bare = remote("u", None);
    assert_eq!(
        resolve_token(None, None, &bare).unwrap_err().message(),
        "No KnitHub token configured. Set KNITHUB_TOKEN, KNIT_REMOTE_<NAME>_TOKEN, or `knit remote token <name> <token>`."
    );
}

fn bundle(project_id: Option<&str>) -> ChangeGroup {
    ChangeGroup {
        schema_version: "1".to_string(),
        kind: "KnitBundle".to_string(),
        id: "feature".to_string(),
        title: "feature".to_string(),
        state: Some(BundleState::Open),
        closed_at: None,
        archived_at: None,
        deleted_at: None,
        project_id: project_id.map(|p| p.to_string()),
        created_at: "t".to_string(),
        updated_at: "t".to_string(),
        head_node_id: None,
        repos: Vec::new(),
        commit_groups: Vec::new(),
        nodes: Vec::new(),
        publications: Vec::new(),
        work_item_ids: Vec::new(),
    }
}

#[test]
fn bundle_push_target_resolution() {
    let c = config(&["hub"], None, &[], true);
    let t = push_bundle_to_remote(&c, &bundle(Some("bundled")), "Hub", Some("My Project")).unwrap();
    assert_eq!(t.project_id, "my-project");
    assert_eq!(t.remote, 0);
    assert_eq!(push_bundle_to_remote(&c, &bundle(Some("bundled")), "hub", None).unwrap().project_id, "bundled");
    assert_eq!(push_bundle_to_remote(&c, &bundle(None), "hub", None).unwrap().project_id, "demo");
    let mut no_project = config(&["hub"], None, &[], true);
    no_project.active_project = None;
    assert_eq!(
        push_bundle_to_remote(&no_project, &bundle(None), "hub", None).unwrap_err().message(),
        "No project selected. Pass --project or run `knit init <name>`."
    );
    assert!(matches!(push_bundle_to_remote(&c, &bundle(None), "nope", None), Err(SyncError::NoRemoteNamed { .. })));
    assert_eq!(push_label(PushForce::No), "pushed");
    assert_eq!(push_label(PushForce::WithLease), "pushed (forced)");
}

#[test]
fn response_status_is_judged() {
    assert!(check_response_status(204, "").is_ok());
    let err = check_response_status(404, "  not found\n").unwrap_err();
    assert_eq!(err.message(), "KnitHub remote returned HTTP 404: not found");
}

#[test]
fn families_pushed_and_pulled_per_remote() {
    let all = SyncTargets::resolve(false, false, false, false, false, false);
    assert_eq!(
        push_families(all),
        vec![SyncFamily::Bundle, SyncFamily::Views, SyncFamily::Architecture, SyncFamily::Kg]
    );
    assert_eq!(pull_families(all), vec![SyncFamily::Bundle, SyncFamily::History, SyncFamily::Views]);
    let history_only = SyncTargets::resolve(false, true, false, false, false, false);
    assert_eq!(push_families(history_only), vec![SyncFamily::History]);
    assert_eq!(pull_families(history_only), vec![SyncFamily::History]);
    let kg = SyncTargets::resolve(false, false, false, false, true, false);
    assert_eq!(push_families(kg), vec![SyncFamily::Kg]);
    assert!(pull_families(kg).is_empty());
    assert_eq!(family_failure("knithub", SyncFamily::Views, "HTTP 500"), "knithub views: HTTP 500");
}

#[test]
fn sync_needs_at_least_one_remote() {
    let c = config(&["mirror"], None, &["mirror"], true);
    assert_eq!(resolve_remotes(&c, &Vec::new()).ok(), Some(vec!["mirror".to_string()]));
    assert_eq!(resolve_remotes(&c, &vec!["Other One".to_string()]).ok(), Some(vec!["other-one".to_string()]));
    let sole = config(&["hosted"], None, &[], true);
    assert_eq!(resolve_remotes(&sole, &Vec::new()).ok(), Some(vec!["hosted".to_string()]));
    let none = config(&["mirror", "backup"], None, &[], true);
    let err = resolve_remotes(&none, &Vec::new()).err().unwrap();
    assert!(matches!(err, SyncError::NoRemoteConfigured));
    assert_eq!(
        err.message(),
        "No KnitHub remote configured. Run `knit remote add --global <name> <url>`, `knit remote add <name> <url>`, or `knit config set sync-remotes <name>[,<name>...]` first."
    );
}
