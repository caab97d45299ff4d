use knit::remote_clone::{export_base_branch, export_repo_local_id, select_active_bundle, ImportedBundle};

fn imported(id: &str, state: Option<&str>) -> ImportedBundle {
    ImportedBundle { id: id.to_string(), state: state.map(|s| s.to_string()) }
}

#[test]
fn exported_repositories_are_named_and_based() {
    assert_eq!(export_repo_local_id(Some("api"), Some("x"), "API Server"), "api");
    assert_eq!(export_repo_local_id(None, Some("web"), "Web App"), "web");
    assert_eq!(export_repo_local_id(None, Some("  "), "Web App"), "web-app");
    assert_eq!(export_repo_local_id(None, None, "Docs"), "docs");
    assert_eq!(export_base_branch(Some("develop")), "develop");
    assert_eq!(export_base_branch(Some(" ")), "main");
    assert_eq!(export_base_branch(None), "main");
}

#[test]
fn active_bundle_after_clone() {
    let bundles = vec![imported("old", Some("landed")), imported("venue", None), imported("x", Some("open"))];
    assert_eq!(select_active_bundle(&bundles, None).unwrap(), Some("venue".to_string()));
    assert_eq!(select_active_bundle(&bundles, Some("X")).unwrap(), Some("x".to_string()));
    assert_eq!(
        select_active_bundle(&bundles, Some("Nope Here")).unwrap_err(),
        "Remote export has no bundle named `nope-here`."
    );
    let closed = vec![imported("a", Some("landed")), imported("b", Some("archived"))];
    assert_eq!(select_active_bundle(&closed, None).unwrap(), Some("a".to_string()));
    assert_eq!(select_active_bundle(&Vec::new(), None).unwrap(), None);
}
