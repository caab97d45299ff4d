use knit::model::{BundleState, ChangeGroup, CheckoutMode, PublicationEntry, RepoEntry};
use knit::push_force::PushForce;
use knit::repo_git::{
    check_base_branch, check_feature_branch, check_feature_pull, publication_title, pull_args, push_args,
    pushed_upstream, record_pulled_base, recorded_publication, BranchCheck,
};

fn strings(values: &[&str]) -> Vec<String> {
    values.iter().map(|s| s.to_string()).collect()
}

fn repo(id: &str, feature: Option<&str>) -> RepoEntry {
    RepoEntry {
        id: id.to_string(),
        path: format!("/src/{id}"),
        remote: None,
        base_branch: "main".to_string(),
        checkout_mode: CheckoutMode::InPlace,
        base_sha: None,
        feature_branch: feature.map(|f| f.to_string()),
        worktree_path: None,
        head_sha: None,
    }
}

fn publication(repo_id: &str, base: &str, url: &str) -> PublicationEntry {
    PublicationEntry {
        repo_id: repo_id.to_string(),
        provider: "github".to_string(),
        kind: "pull_request".to_string(),
        number: 7,
        url: url.to_string(),
        base_branch: base.to_string(),
        head_branch: "knit/x".to_string(),
        state: "OPEN".to_string(),
        title: None,
        updated_at: "t".to_string(),
    }
}

fn bundle(repos: Vec<RepoEntry>, publications: Vec<PublicationEntry>) -> ChangeGroup {
    ChangeGroup {
        schema_version: "1".to_string(),
        kind: "KnitBundle".to_string(),
        id: "x".to_string(),
        title: "Venue capacity".to_string(),
        state: Some(BundleState::Open),
        closed_at: None,
        archived_at: None,
        deleted_at: None,
        project_id: None,
        created_at: "t".to_string(),
        updated_at: "t".to_string(),
        head_node_id: None,
        repos,
        commit_groups: Vec::new(),
        nodes: Vec::new(),
        publications,
        work_item_ids: Vec::new(),
    }
}

#[test]
fn feature_branch_checks_name_the_command() {
    assert!(check_feature_branch(BranchCheck::Push, "api", "knit/x", Some("knit/x"), "/w/api").is_ok());
    assert_eq!(
        check_feature_branch(BranchCheck::Push, "api", "knit/x", Some("main"), "/w/api").unwrap_err(),
        "api: push expected feature branch `knit/x`, found `main` in /w/api."
    );
    assert_eq!(
        check_feature_branch(BranchCheck::Publish, "api", "knit/x", None, "/w/api").unwrap_err(),
        "api: PR publishing expected feature branch `knit/x`, found `(detached HEAD)` in /w/api."
    );
    assert_eq!(
        check_feature_pull(&repo("api", Some("knit/x")), Some("dev"), "/w/api").unwrap_err(),
        "api: feature pull expected branch `knit/x`, found `dev` in /w/api."
    );
    assert_eq!(
        check_feature_pull(&repo("api", None), Some("dev"), "/w/api").unwrap_err(),
        "api: no feature branch is recorded."
    );
}

#[test]
fn default_pull_needs_the_base_branch() {
    let r = repo("api", Some("knit/x"));
    assert!(check_base_branch(&r, Some("main"), "/src/api").is_ok());
    assert_eq!(
        check_base_branch(&r, Some("knit/x"), "/src/api").unwrap_err(),
        "api: default pull does not operate on the feature branch. Use `knit pull --feature api` if that is intentional."
    );
    assert_eq!(
        check_base_branch(&r, None, "/src/api").unwrap_err(),
        "api: default pull expected base branch `main`, found `(detached HEAD)` in /src/api. Checkout the base branch or use `knit pull --feature api`."
    );
}

#[test]
fn git_arguments() {
    assert_eq!(push_args("knit/x", false, PushForce::No), strings(&["push", "origin", "knit/x"]));
    assert_eq!(
        push_args("knit/x", true, PushForce::WithLease),
        strings(&["push", "--set-upstream", "--force-with-lease", "origin", "knit/x"])
    );
    assert_eq!(push_args("knit/x", false, PushForce::Unconditional), strings(&["push", "--force", "origin", "knit/x"]));
    assert_eq!(pull_args(true), strings(&["pull", "--rebase"]));
    assert_eq!(pull_args(false), strings(&["pull", "--ff-only"]));
}

#[test]
fn upstream_falls_back_to_origin_branch() {
    assert_eq!(pushed_upstream("knit/x", true, Some("up/knit/x".to_string())), "up/knit/x");
    assert_eq!(pushed_upstream("knit/x", true, None), "origin/knit/x");
    assert_eq!(pushed_upstream("knit/x", false, Some("up/knit/x".to_string())), "origin/knit/x");
}

#[test]
fn recorded_publication_must_keep_its_base() {
    let b = bundle(vec![repo("api", Some("knit/x"))], vec![publication("api", "main", "https://h/pr/7")]);
    assert_eq!(recorded_publication(&b, "api", "main"), Ok(Some("https://h/pr/7".to_string())));
    assert_eq!(recorded_publication(&b, "web", "main"), Ok(None));
    assert_eq!(
        recorded_publication(&b, "api", "release").unwrap_err(),
        "api: review object already recorded against main. Knit records one review object per repo in a bundle; create a new bundle or publish before changing the base."
    );
    assert_eq!(publication_title(&b.title, "api"), "Venue capacity (api)");
}

#[test]
fn pulled_base_is_recorded_once() {
    let mut b = bundle(vec![repo("api", None), repo("web", None)], Vec::new());
    assert!(record_pulled_base(&mut b, 1, "abc"));
    assert_eq!(b.repos[1].base_sha.as_deref(), Some("abc"));
    assert_eq!(b.repos[0].base_sha, None);
    assert!(!record_pulled_base(&mut b, 1, "abc"));
    assert!(record_pulled_base(&mut b, 1, "def"));
    assert_eq!(b.repos[1].base_sha.as_deref(), Some("def"));
}
