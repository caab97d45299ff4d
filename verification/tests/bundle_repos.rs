use knit::bundle_repos::remove_bundle_repos;
use knit::model::{BundleState, ChangeGroup, CheckoutMode, RepoEntry};

fn repo(id: &str, path: &str) -> RepoEntry {
    RepoEntry {
        id: id.to_string(),
        path: path.to_string(),
        remote: None,
        base_branch: "main".to_string(),
        checkout_mode: CheckoutMode::Worktree,
        base_sha: None,
        feature_branch: None,
        worktree_path: None,
        head_sha: None,
    }
}

fn bundle(repos: Vec<RepoEntry>) -> ChangeGroup {
    ChangeGroup {
        schema_version: "1".to_string(),
        kind: "KnitBundle".to_string(),
        id: "venue".to_string(),
        title: "venue".to_string(),
        state: Some(BundleState::Open),
        closed_at: None,
        archived_at: None,
        deleted_at: None,
        project_id: None,
        created_at: "t".to_string(),
        updated_at: "t".to_string(),
        head_node_id: None,
        repos,
        commit_groups: Vec::new(),
        nodes: Vec::new(),
        publications: Vec::new(),
        work_item_ids: Vec::new(),
    }
}

fn ids(v: &[&str]) -> Vec<String> {
    v.iter().map(|s| s.to_string()).collect()
}

fn repo_ids(repos: &[RepoEntry]) -> Vec<String> {
    repos.iter().map(|r| r.id.clone()).collect()
}

#[test]
fn removing_repos_keeps_the_rest_in_order() {
    let mut b = bundle(vec![repo("api", "/a"), repo("web", "/w"), repo("docs", "/d")]);
    let removed = remove_bundle_repos(&mut b, &ids(&["api", "docs"])).unwrap();
    assert_eq!(repo_ids(&removed), ids(&["docs", "api"]));
    assert_eq!(repo_ids(&b.repos), ids(&["web"]));
}

#[test]
fn removing_a_repo_given_twice_is_refused() {
    let mut b = bundle(vec![repo("api", "/a"), repo("web", "/w")]);
    let err = remove_bundle_repos(&mut b, &ids(&["api", "api"])).unwrap_err();
    assert_eq!(err, "Repo api was provided more than once.");
    assert_eq!(repo_ids(&b.repos), ids(&["api", "web"]));
}

#[test]
fn removing_an_untracked_repo_is_refused() {
    let mut b = bundle(vec![repo("api", "/a"), repo("web", "/w")]);
    let err = remove_bundle_repos(&mut b, &ids(&["web", "mobile"])).unwrap_err();
    assert_eq!(err, "Repo mobile is not tracked in this bundle.");
    assert_eq!(repo_ids(&b.repos), ids(&["api", "web"]));
}

#[test]
fn only_the_first_repo_with_an_id_is_removed() {
    let mut b = bundle(vec![repo("api", "/a1"), repo("web", "/w"), repo("api", "/a2")]);
    let removed = remove_bundle_repos(&mut b, &ids(&["api"])).unwrap();
    assert_eq!(removed.len(), 1);
    assert_eq!(removed[0].path, "/a1");
    assert_eq!(b.repos.len(), 2);
    assert_eq!(b.repos[1].path, "/a2");
}

#[test]
fn removing_nothing_changes_nothing() {
    let mut b = bundle(vec![repo("api", "/a")]);
    let removed = remove_bundle_repos(&mut b, &Vec::new()).unwrap();
    assert!(removed.is_empty());
    assert_eq!(repo_ids(&b.repos), ids(&["api"]));
}
