use knit::remote_pull::pull_remote_name;
use knit::sync::{KnitConfig, KnitRemote};
use knit::model::{BundleNode, BundleState, ChangeGroup, CheckoutMode, RepoEntry};
use knit::project_repos::ProjectRepoEntry;
use knit::remote_pull::{head_moves, localize_bundle, not_fast_forward_message};
use knit::remote_pull::{
    bundle_branch_mapping, carry_worktree_paths, fetch_action, fetch_considers, fetch_tally, ledger_relation,
    node_id_sequence, plan_checkout_refresh, pull_skip_reason, pull_step, reconcile_repositories,
    refresh_summary, CheckoutProbe, FetchAction, LedgerRelation, PullStep,
};

fn strings(values: &[&str]) -> Vec<String> {
    values.iter().map(|s| s.to_string()).collect()
}

fn node(id: &str) -> BundleNode {
    BundleNode {
        id: id.to_string(),
        node_type: "commit".to_string(),
        title: None,
        message: None,
        commit_group_id: None,
        commits: Vec::new(),
        repo_changes: Vec::new(),
        repo_ids: None,
        publication_urls: Vec::new(),
        provider: None,
        target_node_id: None,
        plan_id: None,
        run_id: None,
    }
}

fn repo(id: &str, branch: Option<&str>, worktree: Option<&str>) -> RepoEntry {
    RepoEntry {
        id: id.to_string(),
        path: format!("/src/{id}"),
        remote: None,
        base_branch: "main".to_string(),
        checkout_mode: CheckoutMode::Worktree,
        base_sha: None,
        feature_branch: branch.map(|b| b.to_string()),
        worktree_path: worktree.map(|w| w.to_string()),
        head_sha: None,
    }
}

fn bundle(repos: Vec<RepoEntry>, nodes: Vec<BundleNode>) -> ChangeGroup {
    ChangeGroup {
        schema_version: "1".to_string(),
        kind: "KnitBundle".to_string(),
        id: "venue".to_string(),
        title: "venue".to_string(),
        state: Some(BundleState::Open),
        closed_at: None,
        archived_at: None,
        deleted_at: None,
        project_id: None,
        created_at: "t".to_string(),
        updated_at: "t".to_string(),
        head_node_id: None,
        repos,
        commit_groups: Vec::new(),
        nodes,
        publications: Vec::new(),
        work_item_ids: Vec::new(),
    }
}

#[test]
fn ledger_relation_by_prefix() {
    let ab = strings(&["a", "b"]);
    let abc = strings(&["a", "b", "c"]);
    let abd = strings(&["a", "b", "d"]);
    assert_eq!(ledger_relation(&ab, &ab), LedgerRelation::Equal);
    assert_eq!(ledger_relation(&abc, &ab), LedgerRelation::LocalAhead);
    assert_eq!(ledger_relation(&ab, &abc), LedgerRelation::RemoteAhead);
    assert_eq!(ledger_relation(&abc, &abd), LedgerRelation::Diverged);
    assert_eq!(ledger_relation(&Vec::new(), &Vec::new()), LedgerRelation::Equal);
    assert_eq!(ledger_relation(&Vec::new(), &ab), LedgerRelation::RemoteAhead);
}

#[test]
fn relation_mirrors_when_sides_swap() {
    let ab = strings(&["a", "b"]);
    let abc = strings(&["a", "b", "c"]);
    let x = strings(&["x"]);
    assert_eq!(ledger_relation(&abc, &ab), LedgerRelation::LocalAhead);
    assert_eq!(ledger_relation(&ab, &abc), LedgerRelation::RemoteAhead);
    assert_eq!(ledger_relation(&x, &ab), LedgerRelation::Diverged);
    assert_eq!(ledger_relation(&ab, &x), LedgerRelation::Diverged);
}

#[test]
fn node_ids_follow_the_ledger() {
    let b = bundle(Vec::new(), vec![node("n1"), node("n2")]);
    assert_eq!(node_id_sequence(&b), strings(&["n1", "n2"]));
}

#[test]
fn fetch_creates_only_open_bundles_not_deleted_here() {
    let remote = strings(&["a"]);
    assert!(fetch_considers("open", true));
    assert!(!fetch_considers("deleted", true));
    assert!(!fetch_considers("open", false));
    assert_eq!(fetch_action("landed", None, false, &remote), FetchAction::Skip);
    assert_eq!(fetch_action("open", None, true, &remote), FetchAction::LeaveDeleted);
    assert_eq!(fetch_action("open", None, false, &remote), FetchAction::New);
    assert_eq!(FetchAction::New.status(), Some("new"));
    assert_eq!(FetchAction::Skip.status(), None);
}

#[test]
fn fetch_overwrites_local_only_on_fast_forward() {
    let ab = strings(&["a", "b"]);
    let abc = strings(&["a", "b", "c"]);
    let ax = strings(&["a", "x"]);
    assert_eq!(fetch_action("landed", Some(&ab), false, &abc), FetchAction::Update);
    assert_eq!(fetch_action("open", Some(&ab), false, &ab), FetchAction::UpToDate);
    assert_eq!(fetch_action("open", Some(&abc), false, &ab), FetchAction::LocalAhead);
    assert_eq!(fetch_action("open", Some(&ab), false, &ax), FetchAction::KeepDiverged);
    assert_eq!(
        FetchAction::KeepDiverged.status(),
        Some("diverged; kept local (run `knit pull --merge` to combine the ledgers)")
    );
    assert_eq!(FetchAction::Update.status(), Some("updated"));
    let tally = fetch_tally(&vec![FetchAction::New, FetchAction::LeaveDeleted, FetchAction::Update, FetchAction::UpToDate]);
    assert_eq!(tally, (2, 1));
}

#[test]
fn pull_skips_with_a_reason() {
    assert_eq!(pull_skip_reason(false, true, true), Some("no local bundle artifact"));
    assert_eq!(pull_skip_reason(true, false, true), Some("not present on remote"));
    assert_eq!(pull_skip_reason(true, true, false), Some("no remote artifact"));
    assert_eq!(pull_skip_reason(true, true, true), None);
}

#[test]
fn pull_step_by_relation() {
    let ab = strings(&["a", "b"]);
    let abc = strings(&["a", "b", "c"]);
    let ax = strings(&["a", "x"]);
    assert!(matches!(pull_step("venue", &ab, &ab, false), PullStep::Refresh(r) if r == "up to date"));
    assert!(matches!(pull_step("venue", &abc, &ab, false), PullStep::Refresh(r) if r == "local is ahead of remote"));
    assert!(matches!(pull_step("venue", &ab, &abc, false), PullStep::FastForward));
    assert!(matches!(pull_step("venue", &ab, &ax, true), PullStep::Merge));
    match pull_step("venue", &ab, &ax, false) {
        PullStep::Skip(r) => assert_eq!(
            r,
            "bundle venue: local and remote ledgers have diverged; run `knit pull --merge` to combine them"
        ),
        _ => panic!("expected a skip"),
    }
}

#[test]
fn refresh_summary_parts() {
    assert_eq!(refresh_summary(0, 0, 0), None);
    assert_eq!(refresh_summary(2, 0, 0), Some("materialized 2 checkout(s)".to_string()));
    assert_eq!(
        refresh_summary(1, 12, 3),
        Some("materialized 1 checkout(s), fast-forwarded 12 checkout(s)".to_string())
    );
    assert_eq!(refresh_summary(0, 0, 1), Some("re-recorded existing checkout(s)".to_string()));
}

fn probe(id: &str, has_branch: bool, recorded: bool, conventional: bool) -> CheckoutProbe {
    CheckoutProbe {
        repo_id: id.to_string(),
        has_branch,
        recorded_exists: recorded,
        conventional_exists: conventional,
    }
}

#[test]
fn checkout_refresh_plan() {
    let probes = vec![
        probe("api", true, true, false),
        probe("web", true, false, true),
        probe("docs", true, false, false),
        probe("ops", false, false, true),
    ];
    let plan = plan_checkout_refresh(&probes, false);
    assert_eq!(plan.existing, strings(&["api", "web"]));
    assert_eq!(plan.unrecorded, strings(&["web"]));
    assert_eq!(plan.absent, strings(&["docs"]));
    assert_eq!(plan.to_materialize, strings(&["web"]));
    let plan = plan_checkout_refresh(&probes, true);
    assert_eq!(plan.to_materialize, strings(&["web", "docs"]));
}

#[test]
fn repository_reconcile() {
    let project = strings(&["api", "legacy", "web"]);
    let export = strings(&["web", "api", "mobile"]);
    let r = reconcile_repositories(&project, &export, None);
    assert_eq!(r.kept, strings(&["api", "web"]));
    assert_eq!(r.removed, strings(&["legacy"]));
    assert_eq!(r.to_add, strings(&["mobile"]));
    let r = reconcile_repositories(&project, &export, Some(2));
    assert_eq!(r.kept, project);
    assert!(r.removed.is_empty());
    assert_eq!(r.to_add, strings(&["mobile"]));
    let r = reconcile_repositories(&project, &Vec::new(), Some(0));
    assert_eq!(r.kept, project);
    assert!(r.removed.is_empty() && r.to_add.is_empty());
}

#[test]
fn worktree_paths_carry_over_on_fast_forward() {
    let mut fetched = bundle(
        vec![repo("api", Some("knit/venue"), None), repo("web", None, Some("/remote/web")), repo("docs", None, None)],
        vec![node("n1")],
    );
    let local = bundle(
        vec![repo("api", None, Some("/here/api")), repo("web", None, Some("/here/web"))],
        Vec::new(),
    );
    carry_worktree_paths(&mut fetched, &local);
    assert_eq!(fetched.repos[0].worktree_path.as_deref(), Some("/here/api"));
    assert_eq!(fetched.repos[1].worktree_path.as_deref(), Some("/remote/web"));
    assert_eq!(fetched.repos[2].worktree_path, None);
    assert_eq!(fetched.repos[0].feature_branch.as_deref(), Some("knit/venue"));
    assert_eq!(fetched.nodes.len(), 1);
}

#[test]
fn branch_mapping_defaults_to_bundle_branch() {
    let b = bundle(vec![repo("api", Some("feat/x"), None), repo("web", None, None)], Vec::new());
    assert_eq!(
        bundle_branch_mapping(&b),
        vec![
            ("api".to_string(), "feat/x".to_string()),
            ("web".to_string(), "knit/venue".to_string())
        ]
    );
}

fn project_repo(id: &str, remote: Option<&str>) -> ProjectRepoEntry {
    ProjectRepoEntry {
        id: id.to_string(),
        path: format!("/home/me/{id}"),
        remote: remote.map(|r| r.to_string()),
        base_branch: "develop".to_string(),
        checkout_mode: CheckoutMode::InPlace,
        include_by_default: true,
    }
}

#[test]
fn remote_bundles_are_localized_onto_the_project() {
    let mut web = repo("frontend", None, Some("/remote/wt"));
    web.remote = Some("git@h:acme/web.git".to_string());
    let b = bundle(vec![repo("api", Some("knit/venue"), Some("/remote/api")), web], vec![node("n1")]);
    let project = vec![project_repo("web", Some("git@h:acme/web.git")), project_repo("api", None)];
    let l = localize_bundle(b.clone(), "acme", &project).unwrap();
    assert_eq!(l.project_id.as_deref(), Some("acme"));
    assert_eq!(l.repos[0].path, "/home/me/api");
    assert_eq!(l.repos[0].base_branch, "develop");
    assert_eq!(l.repos[0].worktree_path, None);
    assert_eq!(l.repos[0].feature_branch.as_deref(), Some("knit/venue"));
    assert_eq!(l.repos[1].path, "/home/me/web");
    assert_eq!(l.repos[1].id, "frontend");
    assert_eq!(l.repos[1].remote.as_deref(), Some("git@h:acme/web.git"));
    let e = localize_bundle(b, "acme", &vec![project_repo("api", None)]).unwrap_err();
    assert_eq!(e, "frontend: remote bundle references a repo that is not in local project `acme`.");
}

#[test]
fn moved_heads_need_a_fast_forward_check() {
    let mut a_local = repo("api", None, None);
    a_local.head_sha = Some("1111111111111111".to_string());
    let mut w_local = repo("web", None, None);
    w_local.head_sha = Some("same".to_string());
    let local = bundle(vec![a_local, w_local], Vec::new());
    let mut a_remote = repo("api", None, None);
    a_remote.head_sha = Some("2222222222222222".to_string());
    let mut w_remote = repo("web", None, None);
    w_remote.head_sha = Some("same".to_string());
    let mut d_remote = repo("docs", None, None);
    d_remote.head_sha = Some("x".to_string());
    let remote = bundle(vec![a_remote, w_remote, d_remote], Vec::new());
    let moves = head_moves(&local, &remote);
    assert_eq!(moves.len(), 1);
    assert_eq!(moves[0].repo_id, "api");
    assert_eq!(moves[0].local_head, "1111111111111111");
    assert_eq!(
        not_fast_forward_message(&moves[0]),
        "api: remote bundle head 222222222222 is not a fast-forward from local head 111111111111. Push or reconcile local work before remote pull."
    );
}

#[test]
fn a_pull_uses_the_sole_configured_remote() {
    let mut c = KnitConfig {
        active_project: Some("demo".to_string()),
        remotes: vec![("hosted".to_string(), KnitRemote { url: "https://h".to_string(), token: None })],
        sync_remote: None,
        sync_remotes: Vec::new(),
        push_sync: true,
    };
    assert_eq!(pull_remote_name(&c, None), Some("hosted".to_string()));
    assert_eq!(pull_remote_name(&c, Some("Other")), Some("other".to_string()));
    c.remotes.push(("mirror".to_string(), KnitRemote { url: "https://m".to_string(), token: None }));
    assert_eq!(pull_remote_name(&c, None), None);
}
