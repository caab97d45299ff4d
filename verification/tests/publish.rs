use knit::model::{
    BundleState, ChangeGroup, CheckoutMode, CommitGroup, CommitRef, PublicationEntry, RepoEntry,
    PULL_REQUEST_KIND,
};
use knit::land_types::SCHEMA_VERSION;
use knit::pr_body::{
    append_knit_pr_block, initial_pr_body, render_knit_pr_block, upsert_knit_pr_block,
    KNIT_PR_BLOCK_BEGIN, KNIT_PR_BLOCK_END,
};
use knit::publish_scope::{
    filter_indexes_by_provider, publish_scope_repo_ids, render_scoped_knit_pr_block,
    resolve_publish_repo_indexes, resolve_publish_repo_indexes_for_bundle, sync_publications,
    BaseOverrides, PublishError,
};

use knit::publish_sync::{next_pr_body, sync_lookup, SyncLookup};
use knit::publish_scope::landing_reminder;
use knit::model::BundleNode;

const CHANGE_GROUP_KIND: &str = "KnitBundle";

fn repo(id: &str) -> RepoEntry {
    RepoEntry {
        id: id.to_string(),
        path: format!("/tmp/{id}"),
        remote: None,
        base_branch: "main".to_string(),
        checkout_mode: CheckoutMode::Worktree,
        base_sha: None,
        feature_branch: Some("knit/venue-capacity".to_string()),
        worktree_path: None,
        head_sha: None,
    }
}

fn pr_publication(repo_id: &str, number: u64, url: &str) -> PublicationEntry {
    PublicationEntry {
        repo_id: repo_id.to_string(),
        provider: "github".to_string(),
        kind: PULL_REQUEST_KIND.to_string(),
        number,
        url: url.to_string(),
        base_branch: "main".to_string(),
        head_branch: "knit/venue-capacity".to_string(),
        state: "OPEN".to_string(),
        title: None,
        updated_at: "2026-05-05T00:00:00.000Z".to_string(),
    }
}

fn bundle(repos: Vec<RepoEntry>, commit_groups: Vec<CommitGroup>, publications: Vec<PublicationEntry>) -> ChangeGroup {
    ChangeGroup {
        schema_version: SCHEMA_VERSION.to_string(),
        kind: CHANGE_GROUP_KIND.to_string(),
        id: "venue-capacity".to_string(),
        title: "venue capacity".to_string(),
        state: Some(BundleState::Open),
        closed_at: None,
        archived_at: None,
        deleted_at: None,
        project_id: None,
        created_at: "2026-05-05T00:00:00.000Z".to_string(),
        updated_at: "2026-05-05T00:00:00.000Z".to_string(),
        head_node_id: None,
        repos,
        commit_groups,
        nodes: Vec::new(),
        publications,
        work_item_ids: Vec::new(),
    }
}

fn backend_change() -> CommitGroup {
    CommitGroup {
        id: "kg_123".to_string(),
        message: "change backend".to_string(),
        created_at: "2026-05-05T00:00:00.000Z".to_string(),
        commits: vec![CommitRef { repo_id: "backend".to_string(), sha: "abc123".to_string() }],
        author: None,
    }
}

#[test]
fn publish_managed_block_is_replaced_without_touching_user_body() {
    let previous = format!("Intro\n\n{KNIT_PR_BLOCK_BEGIN}\nold\n{KNIT_PR_BLOCK_END}\n\nTail");
    let next = upsert_knit_pr_block(&previous, "new block");
    assert_eq!(next, "Intro\n\nnew block\n\nTail");
}

#[test]
fn publish_rendered_block_lists_known_and_pending_prs() {
    let mut bundle = bundle(
        vec![repo("backend"), repo("frontend")],
        Vec::new(),
        vec![pr_publication("backend", 123, "https://github.com/acme/backend/pull/123")],
    );
    let block = render_knit_pr_block(&bundle, Some("backend"));
    assert!(block.contains("This PR is part of Knit bundle `venue-capacity`."));
    assert!(block.contains("`backend`: https://github.com/acme/backend/pull/123 (this PR)"));
    assert!(block.contains("`frontend`: pending"));

    bundle.publications.push(pr_publication("frontend", 456, "https://github.com/acme/frontend/pull/456"));
    let synced = render_knit_pr_block(&bundle, Some("backend"));
    assert!(synced.contains("`frontend`: https://github.com/acme/frontend/pull/456"));
}

#[test]
fn mod_managed_block_is_replaced_without_touching_user_body() {
    let previous = format!("Intro\n\n{KNIT_PR_BLOCK_BEGIN}\nold\n{KNIT_PR_BLOCK_END}\n\nTail");
    let next = upsert_knit_pr_block(&previous, "new block");
    assert_eq!(next, "Intro\n\nnew block\n\nTail");
}

#[test]
fn mod_rendered_block_lists_known_and_pending_prs() {
    let mut bundle = bundle(
        vec![repo("backend"), repo("frontend"), repo("docs")],
        vec![CommitGroup {
            id: "kg_123".to_string(),
            message: "change backend and frontend".to_string(),
            created_at: "2026-05-05T00:00:00.000Z".to_string(),
            commits: vec![
                CommitRef { repo_id: "backend".to_string(), sha: "abc123".to_string() },
                CommitRef { repo_id: "frontend".to_string(), sha: "def456".to_string() },
            ],
            author: None,
        }],
        vec![pr_publication("backend", 123, "https://github.com/acme/backend/pull/123")],
    );
    let block = render_scoped_knit_pr_block(&bundle, Some("backend"));
    assert!(block.contains("This PR is part of Knit bundle `venue-capacity`."));
    assert!(block.contains("`backend`: https://github.com/acme/backend/pull/123 (this PR)"));
    assert!(block.contains("`frontend`: pending"));
    assert!(!block.contains("`docs`: pending"));

    bundle.publications.push(pr_publication("frontend", 456, "https://github.com/acme/frontend/pull/456"));
    let synced = render_scoped_knit_pr_block(&bundle, Some("backend"));
    assert!(synced.contains("`frontend`: https://github.com/acme/frontend/pull/456"));
    assert!(!synced.contains("`docs`: pending"));
}

#[test]
fn publish_scope_excludes_tracked_repos_without_recorded_work() {
    let bundle = bundle(vec![repo("backend"), repo("docs")], vec![backend_change()], Vec::new());
    let scope = publish_scope_repo_ids(&bundle);
    assert!(scope.contains(&"backend".to_string()));
    assert!(!scope.contains(&"docs".to_string()));
}

#[test]
fn publish_scope_is_sorted_and_includes_publications() {
    let mut commits = backend_change();
    commits.commits.push(CommitRef { repo_id: "api".to_string(), sha: "f00".to_string() });
    let bundle = bundle(
        vec![repo("backend"), repo("api"), repo("web"), repo("docs")],
        vec![commits],
        vec![pr_publication("web", 7, "https://github.com/acme/web/pull/7")],
    );
    assert_eq!(publish_scope_repo_ids(&bundle), vec!["api".to_string(), "backend".to_string(), "web".to_string()]);
}

#[test]
fn upsert_appends_when_no_block_and_replaces_once() {
    let block = format!("{KNIT_PR_BLOCK_BEGIN}\nbody\n{KNIT_PR_BLOCK_END}");
    let first = upsert_knit_pr_block("User text  ", &block);
    assert_eq!(first, format!("User text\n\n{block}"));
    let again = upsert_knit_pr_block(&first, &block);
    assert_eq!(again, first);
    assert_eq!(upsert_knit_pr_block("   ", "b"), "b");
    assert_eq!(append_knit_pr_block("", "b"), "b");
}

#[test]
fn initial_body_is_the_block() {
    let bundle = bundle(vec![repo("backend")], Vec::new(), Vec::new());
    assert_eq!(
        initial_pr_body(&bundle, "backend"),
        format!(
            "Generated by Knit. Cross-links will be refreshed after all PRs are created.\n\n{}",
            render_knit_pr_block(&bundle, Some("backend"))
        )
    );
}

#[test]
fn artifact_scope_refuses_selectors_and_empty_scope() {
    let empty = bundle(vec![repo("backend")], Vec::new(), Vec::new());
    let err = resolve_publish_repo_indexes_for_bundle(&empty, &Vec::new(), false).unwrap_err();
    assert_eq!(
        err.message(),
        "Bundle `venue-capacity` has no repos eligible for publishing. Pass --all to force publishing every repo."
    );
    let err = resolve_publish_repo_indexes_for_bundle(&empty, &vec!["backend".to_string()], false).unwrap_err();
    assert!(matches!(err, PublishError::SelectorsUnsupported));
    let scoped = bundle(vec![repo("docs"), repo("backend")], vec![backend_change()], Vec::new());
    assert_eq!(resolve_publish_repo_indexes_for_bundle(&scoped, &Vec::new(), true).unwrap(), vec![1]);
}

#[test]
fn sync_publications_picks_scope_and_filters_by_provider() {
    let scoped = bundle(vec![repo("docs"), repo("backend")], vec![backend_change()], Vec::new());
    let hosts = vec!["gitlab".to_string(), "forgejo".to_string()];
    assert_eq!(sync_publications(&scoped, None, None, &hosts).unwrap(), vec![1]);
    assert_eq!(sync_publications(&scoped, None, Some("codeberg"), &hosts).unwrap(), vec![1]);
    let err = sync_publications(&scoped, None, Some("github"), &hosts).unwrap_err();
    assert_eq!(err.message(), "No repos in the selected set are hosted on `github`.");
    let err = sync_publications(&scoped, None, Some("bitbucket"), &hosts).unwrap_err();
    assert_eq!(err.message(), "unknown provider `bitbucket`. Known providers: github, gitlab, forgejo.");
    let all = vec![0usize, 1];
    assert_eq!(sync_publications(&scoped, Some(&all), Some("gitlab"), &hosts).unwrap(), vec![0]);
    let none = bundle(Vec::new(), Vec::new(), Vec::new());
    assert!(matches!(sync_publications(&none, None, None, &Vec::new()), Err(PublishError::NoRepos)));
    let idle = bundle(vec![repo("docs")], Vec::new(), Vec::new());
    assert!(matches!(resolve_publish_repo_indexes(&idle, None), Err(PublishError::NoScopedWork { .. })));
    let stray = bundle(vec![repo("docs")], vec![backend_change()], Vec::new());
    assert_eq!(
        resolve_publish_repo_indexes(&stray, None).unwrap_err().message(),
        "Bundle `venue-capacity` has recorded work, but none of it matches the tracked repos."
    );
    assert_eq!(filter_indexes_by_provider(vec![0, 1], None, &hosts).unwrap(), vec![0, 1]);
}

#[test]
fn base_overrides_parse_and_validate() {
    let values = vec!["develop".to_string(), "backend = release".to_string()];
    let overrides = BaseOverrides::parse(&values).unwrap();
    assert_eq!(overrides.branch_for(&repo("backend"), None), "release");
    assert_eq!(overrides.branch_for(&repo("frontend"), None), "develop");
    let none = BaseOverrides::parse(&Vec::new()).unwrap();
    let publication = pr_publication("backend", 1, "u");
    assert_eq!(none.branch_for(&repo("backend"), Some(&publication)), "main");
    let bundle = bundle(vec![repo("frontend")], Vec::new(), Vec::new());
    let err = overrides.validate_tracked_repos(&bundle).unwrap_err();
    assert_eq!(err.message(), "--base references unknown repo `backend`.");
    assert!(matches!(BaseOverrides::parse(&vec!["  ".to_string()]), Err(PublishError::EmptyBase)));
    assert!(matches!(BaseOverrides::parse(&vec!["a=".to_string()]), Err(PublishError::BaseNeedsBothSides)));
    assert!(matches!(
        BaseOverrides::parse(&vec!["a".to_string(), "b".to_string()]),
        Err(PublishError::MultipleDefaultBases)
    ));
}

#[test]
fn validate_reports_the_least_unknown_repo() {
    let values = vec!["zeta=main".to_string(), "alpha=main".to_string()];
    let overrides = BaseOverrides::parse(&values).unwrap();
    let bundle = bundle(vec![repo("frontend")], Vec::new(), Vec::new());
    assert_eq!(overrides.validate_tracked_repos(&bundle).unwrap_err().message(), "--base references unknown repo `alpha`.");
}

#[test]
fn sync_lookup_views_recorded_publication_or_finds_by_branch() {
    let mut with_remote = repo("frontend");
    with_remote.remote = Some("git@github.com:acme/frontend.git".to_string());
    let b = bundle(
        vec![repo("backend"), with_remote],
        vec![backend_change()],
        vec![pr_publication("backend", 123, "https://github.com/acme/backend/pull/123")],
    );
    let cwd = Some("/tmp/backend".to_string());
    match sync_lookup(&b, 0, &cwd, false) {
        Ok(SyncLookup::View { url }) => assert_eq!(url, "https://github.com/acme/backend/pull/123"),
        other => panic!("unexpected {other:?}"),
    }
    match sync_lookup(&b, 1, &None, true) {
        Ok(SyncLookup::FindExisting { branch, base }) => {
            assert_eq!(branch, "knit/venue-capacity");
            assert_eq!(base, "main");
        }
        other => panic!("unexpected {other:?}"),
    }
}

#[test]
fn sync_lookup_errors_name_the_missing_piece() {
    let mut no_branch = repo("docs");
    no_branch.feature_branch = None;
    let b = bundle(vec![repo("backend"), no_branch], Vec::new(), Vec::new());
    let e = sync_lookup(&b, 1, &None, false).unwrap_err();
    assert_eq!(e.message(), "docs: no feature branch recorded. Run `knit bundle worktree`.");
    let e = sync_lookup(&b, 1, &None, true).unwrap_err();
    assert_eq!(e.message(), "docs: no feature branch recorded in the bundle artifact.");
    let e = sync_lookup(&b, 0, &None, false).unwrap_err();
    assert_eq!(e.message(), "backend: no feature checkout is recorded.");
    let e = sync_lookup(&b, 0, &None, true).unwrap_err();
    assert_eq!(e.message(), "backend: no git remote recorded in the bundle artifact.");
}

#[test]
fn next_pr_body_rewrites_then_reports_in_sync() {
    let b = bundle(
        vec![repo("backend"), repo("docs")],
        vec![backend_change()],
        vec![pr_publication("backend", 123, "https://github.com/acme/backend/pull/123")],
    );
    let current = Some("Intro text".to_string());
    let next = next_pr_body(&b, "backend", &current).expect("body changes");
    assert!(next.starts_with("Intro text\n\n"));
    assert!(next.contains("`backend`: https://github.com/acme/backend/pull/123 (this PR)"));
    assert!(!next.contains("`docs`"));
    assert_eq!(next_pr_body(&b, "backend", &Some(next.clone())), None);
    let from_empty = next_pr_body(&b, "backend", &None).expect("body changes");
    assert_eq!(from_empty, render_scoped_knit_pr_block(&b, Some("backend")));
}

#[test]
fn landing_reminder_counts_unlanded_review_objects() {
    let mut b = bundle(vec![repo("backend")], Vec::new(), Vec::new());
    assert_eq!(landing_reminder(&b), None);
    b.publications.push(pr_publication("backend", 1, "https://h/1"));
    let mut other = pr_publication("docs", 2, "https://h/2");
    other.kind = "wiki".to_string();
    b.publications.push(other);
    assert_eq!(landing_reminder(&b), Some(1));
    b.nodes.push(BundleNode {
        id: "n1".to_string(),
        node_type: "feature.landed".to_string(),
        title: None,
        message: None,
        commit_group_id: None,
        commits: Vec::new(),
        repo_changes: Vec::new(),
        repo_ids: None,
        publication_urls: Vec::new(),
        provider: None,
        target_node_id: None,
        plan_id: None,
        run_id: None,
    });
    assert_eq!(landing_reminder(&b), None);
}

#[test]
fn resyncing_an_unchanged_block_changes_nothing() {
    let block = "<!-- BEGIN KNIT BUNDLE -->\n- `api`: pending\n<!-- END KNIT BUNDLE -->";
    for body in ["", "  \n", "User text.\n\n", "Intro\n\n<!-- BEGIN KNIT BUNDLE -->\nold\n<!-- END KNIT BUNDLE -->\n\nOutro"] {
        let once = knit::pr_body::upsert_knit_pr_block(body, block);
        assert_eq!(knit::pr_body::upsert_knit_pr_block(&once, block), once, "{body:?}");
    }
}
