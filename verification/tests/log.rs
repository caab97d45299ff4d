use knit::log::{limited_start, node_lines, resolve_limit, LimitError, Segment, Style};
use knit::model::{BundleNode, CommitRef, RepoChange};

fn node(id: &str, node_type: &str) -> BundleNode {
    BundleNode {
        id: id.to_string(),
        node_type: node_type.to_string(),
        title: None,
        message: None,
        commit_group_id: None,
        commits: Vec::new(),
        repo_changes: Vec::new(),
        repo_ids: None,
        publication_urls: Vec::new(),
        provider: None,
        target_node_id: None,
        plan_id: None,
        run_id: None,
    }
}

fn text(line: &[Segment]) -> String {
    line.iter().map(|s| s.text.as_str()).collect()
}

#[test]
fn log_limits() {
    assert_eq!(resolve_limit(Some(3), None), Ok(Some(3)));
    assert_eq!(resolve_limit(None, Some(" -2 ")), Ok(Some(2)));
    assert_eq!(resolve_limit(None, Some("15")), Ok(Some(15)));
    assert_eq!(resolve_limit(Some(1), Some("-2")), Err(LimitError::BothLimits));
    assert_eq!(resolve_limit(None, Some("-")), Err(LimitError::NotACount));
    assert_eq!(resolve_limit(None, Some("-2x")), Err(LimitError::NotACount));
    assert_eq!(resolve_limit(None, Some("-99999999999999999999999")), Err(LimitError::TooLarge));
    assert_eq!(LimitError::NotACount.message(), "Expected a log count like `-2`.");
    assert_eq!(limited_start(10, Some(3)), 7);
    assert_eq!(limited_start(2, Some(3)), 0);
    assert_eq!(limited_start(5, None), 0);
}

#[test]
fn commit_group_lines() {
    let mut n = node("n1", "commit.group");
    n.commits = vec![CommitRef { repo_id: "api".to_string(), sha: "abc".to_string() }];
    let lines = node_lines(&n);
    assert_eq!(lines.len(), 2);
    assert_eq!(text(&lines[0]), "n1  Commit group");
    assert_eq!(lines[0][0].style, Style::Node);
    assert_eq!(text(&lines[1]), "  api abc");
    assert_eq!(lines[1][1].style, Style::RepoField);
    assert_eq!(lines[1][3].style, Style::Sha);
}

#[test]
fn observed_movement_lines() {
    let mut n = node("n2", "land.update");
    n.repo_changes = vec![RepoChange {
        repo_id: "api".to_string(),
        movement: "diverged".to_string(),
        before_sha: None,
        after_sha: "new".to_string(),
        commits: vec!["c1".to_string()],
        dropped_commits: vec!["d1".to_string()],
    }];
    let lines = node_lines(&n);
    let rendered: Vec<String> = lines.iter().map(|l| text(l)).collect();
    assert_eq!(
        rendered,
        vec![
            "n2  updated from base".to_string(),
            "  api diverged - -> new".to_string(),
            "   added    c1".to_string(),
            "   dropped  d1".to_string(),
        ]
    );
    assert_eq!(lines[1][5].style, Style::Muted);
}

#[test]
fn check_and_landing_lines() {
    let mut check = node("n3", "check.recorded");
    check.title = Some("ci".to_string());
    check.message = Some("passed in 3s".to_string());
    let lines = node_lines(&check);
    assert_eq!(text(&lines[0]), "n3  check ci pass  passed in 3s");
    assert_eq!(lines[0][4].style, Style::Good);
    let mut landed = node("n4", "feature.landed");
    landed.repo_ids = Some(vec!["api".to_string(), "web".to_string()]);
    let rendered: Vec<String> = node_lines(&landed).iter().map(|l| text(l)).collect();
    assert_eq!(rendered, vec!["n4  landed  provider".to_string(), "  api".to_string(), "  web".to_string()]);
    assert!(node_lines(&node("n5", "worktree.materialized")).is_empty());
}
