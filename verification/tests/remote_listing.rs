use knit::remote_listing::{remote_detail, remote_rows, remote_sources};
use knit::sync::{KnitConfig, KnitRemote};

fn config() -> KnitConfig {
    KnitConfig {
        active_project: None,
        remotes: vec![
            ("knithub".to_string(), KnitRemote { url: "https://hub.example".to_string(), token: None }),
            ("mirror".to_string(), KnitRemote { url: "https://mirror.example".to_string(), token: Some("t".to_string()) }),
            ("team".to_string(), KnitRemote { url: "https://team.example".to_string(), token: None }),
        ],
        sync_remote: None,
        sync_remotes: vec!["mirror".to_string()],
        push_sync: false,
    }
}

#[test]
fn sources_prefer_the_workspace() {
    let sources = remote_sources(
        &vec!["knithub".to_string(), "mirror".to_string()],
        &vec!["mirror".to_string(), "team".to_string()],
    );
    let got: Vec<(String, String)> = sources.clone();
    assert_eq!(
        got,
        vec![
            ("knithub".to_string(), "global".to_string()),
            ("mirror".to_string(), "workspace".to_string()),
            ("team".to_string(), "workspace".to_string()),
        ]
    );
}

#[test]
fn rows_report_source_token_and_sync() {
    let sources = remote_sources(&vec!["knithub".to_string()], &vec!["mirror".to_string()]);
    let rows = remote_rows(&config(), &sources, &vec!["team".to_string()]);
    let got: Vec<(String, String, String, String, String)> = rows
        .into_iter()
        .map(|r| (r.name, r.url, r.source, r.token, r.sync))
        .collect();
    let row = |a: &str, b: &str, c: &str, d: &str, e: &str| (a.to_string(), b.to_string(), c.to_string(), d.to_string(), e.to_string());
    assert_eq!(
        got,
        vec![
            row("knithub", "https://hub.example", "global", "no token", "not sync"),
            row("mirror", "https://mirror.example", "workspace", "stored token", "sync"),
            row("team", "https://team.example", "workspace", "token from env", "not sync"),
        ]
    );
}

#[test]
fn detail_of_a_configured_remote() {
    let sources = remote_sources(&vec!["mirror".to_string()], &Vec::new());
    let d = remote_detail(&config(), &sources, "Mirror", false).ok().unwrap();
    assert_eq!(d.name, "mirror");
    assert_eq!(d.url, "https://mirror.example");
    assert_eq!(d.scope, "global");
    assert_eq!(d.sync, "enabled");
    assert_eq!(d.token, "stored");
    let d = remote_detail(&config(), &sources, "team", true).ok().unwrap();
    assert_eq!(d.scope, "workspace");
    assert_eq!(d.sync, "disabled");
    assert_eq!(d.token, "from environment");
    let d = remote_detail(&config(), &sources, "knithub", false).ok().unwrap();
    assert_eq!(d.token, "not configured");
}

#[test]
fn detail_of_an_unknown_remote_is_refused() {
    let err = remote_detail(&config(), &Vec::new(), "nowhere", false).err().unwrap();
    assert_eq!(err.message(), "No remote named `nowhere`.");
}
