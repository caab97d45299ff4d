use knit::model::CheckoutMode;
use knit::project_repos::{
    blocking_message, check_repos_listed, remove_target_repos, set_repo_base, upsert_project_repo, ProjectRepoEntry,
};

fn repo(id: &str, base: &str) -> ProjectRepoEntry {
    ProjectRepoEntry {
        id: id.to_string(),
        path: format!("/src/{id}"),
        remote: None,
        base_branch: base.to_string(),
        checkout_mode: CheckoutMode::Worktree,
        include_by_default: true,
    }
}

fn strings(values: &[&str]) -> Vec<String> {
    values.iter().map(|s| s.to_string()).collect()
}

#[test]
fn repos_are_added_or_replaced() {
    let mut repos = vec![repo("api", "main")];
    assert!(!upsert_project_repo(&mut repos, repo("web", "main")));
    assert!(upsert_project_repo(&mut repos, repo("api", "develop")));
    assert_eq!(repos.len(), 2);
    assert_eq!(repos[0].base_branch, "develop");
    assert_eq!(repos[1].id, "web");
}

#[test]
fn removal_checks_and_retains() {
    let mut repos = vec![repo("api", "main"), repo("web", "main"), repo("docs", "main")];
    assert!(check_repos_listed("acme", &repos, &strings(&["web", "api"])).is_ok());
    assert_eq!(
        check_repos_listed("acme", &repos, &strings(&["web", "ops", "x"])).unwrap_err(),
        "Project `acme` has no repo `ops`."
    );
    assert_eq!(
        blocking_message(&vec![("b1".to_string(), "api".to_string()), ("b2".to_string(), "web".to_string())]),
        "Cannot remove repo(s) tracked by open bundle(s):\n  api tracked by b1\n  web tracked by b2"
    );
    remove_target_repos(&mut repos, &strings(&["web", "ops"]));
    assert_eq!(repos.iter().map(|r| r.id.as_str()).collect::<Vec<_>>(), vec!["api", "docs"]);
}

#[test]
fn setting_a_repo_base_trims_it_and_returns_the_previous() {
    let mut repos = vec![repo("api", "main"), repo("web", "develop")];
    assert_eq!(set_repo_base(&mut repos, "venue", "web", "  release/2 \n"), Ok("develop".to_string()));
    assert_eq!(repos[1].base_branch, "release/2");
    assert_eq!(repos[1].path, "/src/web");
    assert_eq!(repos[0].base_branch, "main");
}

#[test]
fn setting_the_base_of_an_unknown_repo_is_refused() {
    let mut repos = vec![repo("api", "main")];
    assert_eq!(
        set_repo_base(&mut repos, "venue", "docs", "main"),
        Err("Project `venue` has no repo `docs`.".to_string())
    );
    assert_eq!(repos.len(), 1);
}
