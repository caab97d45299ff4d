use knit::land_target::{confirm_retarget, landed_on_alternate_target, retarget_from, tag_decision, TagDecision};
use knit::model::{BundleState, ChangeGroup, CheckoutMode, PublicationEntry, PullRequest, RepoEntry};

fn pr(state: &str, draft: bool, base: Option<&str>) -> PullRequest {
    PullRequest {
        number: 12,
        url: "https://h/pr/12".to_string(),
        state: Some(state.to_string()),
        title: None,
        base_ref_name: base.map(|b| b.to_string()),
        head_ref_name: None,
        body: None,
        is_draft: Some(draft),
        head_ref_oid: None,
        mergeable: None,
        review_decision: None,
    }
}

fn repo(id: &str) -> RepoEntry {
    RepoEntry {
        id: id.to_string(),
        path: format!("/src/{id}"),
        remote: None,
        base_branch: "main".to_string(),
        checkout_mode: CheckoutMode::Worktree,
        base_sha: None,
        feature_branch: None,
        worktree_path: None,
        head_sha: None,
    }
}

fn publication(repo_id: &str, base: &str) -> PublicationEntry {
    PublicationEntry {
        repo_id: repo_id.to_string(),
        provider: "github".to_string(),
        kind: "pull_request".to_string(),
        number: 1,
        url: "u".to_string(),
        base_branch: base.to_string(),
        head_branch: "h".to_string(),
        state: "OPEN".to_string(),
        title: None,
        updated_at: "t".to_string(),
    }
}

fn bundle(publications: Vec<PublicationEntry>) -> ChangeGroup {
    ChangeGroup {
        schema_version: "1".to_string(),
        kind: "KnitBundle".to_string(),
        id: "venue".to_string(),
        title: "venue".to_string(),
        state: Some(BundleState::Open),
        closed_at: None,
        archived_at: None,
        deleted_at: None,
        project_id: None,
        created_at: "t".to_string(),
        updated_at: "t".to_string(),
        head_node_id: None,
        repos: vec![repo("api"), repo("web")],
        commit_groups: Vec::new(),
        nodes: Vec::new(),
        publications,
        work_item_ids: Vec::new(),
    }
}

#[test]
fn retarget_only_open_prs_off_target() {
    assert_eq!(retarget_from("api", &pr("OPEN", false, Some("release")), "main", "release").unwrap(), None);
    assert_eq!(retarget_from("api", &pr("OPEN", false, None), "release", "release").unwrap(), None);
    assert_eq!(
        retarget_from("api", &pr("OPEN", false, Some("main")), "main", "release").unwrap(),
        Some("main".to_string())
    );
    assert_eq!(
        retarget_from("api", &pr("MERGED", false, Some("main")), "main", "release").unwrap_err().message(),
        "api: PR #12 already merged into `main` and cannot be landed into `release`."
    );
    assert_eq!(
        retarget_from("api", &pr("OPEN", true, None), "main", "release").unwrap_err().message(),
        "api: PR #12 is a draft."
    );
    assert_eq!(
        retarget_from("api", &pr("CLOSED", false, None), "main", "release").unwrap_err().message(),
        "api: PR #12 is CLOSED, expected OPEN."
    );
}

#[test]
fn retarget_is_confirmed_from_the_refreshed_pr() {
    assert!(confirm_retarget("api", 12, &pr("OPEN", false, Some("release")), "release").is_ok());
    assert_eq!(
        confirm_retarget("api", 12, &pr("OPEN", false, Some("main")), "release").unwrap_err().message(),
        "api: provider did not retarget PR #12 to `release`"
    );
}

#[test]
fn alternate_target_is_seen_from_publications() {
    assert!(!landed_on_alternate_target(&bundle(vec![publication("api", "main")])));
    assert!(landed_on_alternate_target(&bundle(vec![publication("api", "main"), publication("web", "release")])));
    assert!(!landed_on_alternate_target(&bundle(Vec::new())));
}

#[test]
fn landed_bundle_tagging() {
    assert!(matches!(tag_decision("venue", false, Some(String::new()), false),
        TagDecision::Tag { name, warn_alternate: false } if name == "venue"));
    assert!(matches!(tag_decision("venue", true, Some("v1".to_string()), false),
        TagDecision::Tag { name, warn_alternate: true } if name == "v1"));
    assert!(matches!(tag_decision("venue", false, None, true),
        TagDecision::Tag { name, warn_alternate: false } if name == "venue"));
    assert!(matches!(tag_decision("venue", false, None, false), TagDecision::Advise));
    assert!(matches!(tag_decision("venue", true, None, true), TagDecision::SkipAlternate { warn: true }));
    assert!(matches!(tag_decision("venue", true, None, false), TagDecision::SkipAlternate { warn: false }));
}
