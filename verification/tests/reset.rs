use knit::model::CheckoutMode;
use knit::project_repos::ProjectRepoEntry;
use knit::reset::{reset_failure, reset_result, reset_target, select_project_repos, ResetMode, SelectError};

fn repo(id: &str, path: &str) -> ProjectRepoEntry {
    ProjectRepoEntry {
        id: id.to_string(),
        path: path.to_string(),
        remote: None,
        base_branch: "main".to_string(),
        checkout_mode: CheckoutMode::Worktree,
        include_by_default: true,
    }
}

fn strings(values: &[&str]) -> Vec<String> {
    values.iter().map(|s| s.to_string()).collect()
}

#[test]
fn reset_modes_and_reports() {
    assert_eq!(ResetMode::resolve(true, true).flag(), "--soft");
    assert_eq!(ResetMode::resolve(false, true).flag(), "--hard");
    assert_eq!(ResetMode::resolve(false, false).flag(), "--mixed");
    assert_eq!(reset_target(None), "HEAD");
    assert_eq!(reset_target(Some("abc")), "abc");
    assert_eq!(reset_failure("api", Some(128)), "api exited 128");
    assert_eq!(reset_failure("api", None), "api terminated by signal");
    assert!(reset_result(&Vec::new()).is_ok());
    assert_eq!(
        reset_result(&strings(&["api exited 1", "web terminated by signal"])).unwrap_err(),
        "git reset failed: api exited 1, web terminated by signal"
    );
}

#[test]
fn project_repos_are_selected_by_id_path_or_canonical_path() {
    let repos = vec![repo("api", "/src/api"), repo("web", "/src/web"), repo("docs", "/src/docs")];
    let canonical = vec![Some("/real/api".to_string()), Some("/real/web".to_string()), None];
    assert_eq!(select_project_repos(&repos, &canonical, &Vec::new(), &Vec::new(), false).unwrap(), vec![0, 1, 2]);
    assert!(matches!(
        select_project_repos(&repos, &canonical, &strings(&["api"]), &vec![None], true),
        Err(SelectError::AllAndSelectors)
    ));
    let sel = strings(&["web", "/src/api", "./link-to-web", "api"]);
    let sel_canonical = vec![None, None, Some("/real/web".to_string()), None];
    assert_eq!(select_project_repos(&repos, &canonical, &sel, &sel_canonical, false).unwrap(), vec![1, 0]);
    let err = select_project_repos(&repos, &canonical, &strings(&["web", "ops"]), &vec![None, None], false).unwrap_err();
    assert_eq!(err.message(), "No project repo matched `ops`.");
    assert_eq!(SelectError::AllAndSelectors.message(), "Use either --all or repo selectors, not both.");
}
