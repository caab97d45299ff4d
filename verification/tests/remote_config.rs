use knit::remote_config::{
    add_remote_config, check_add_remote, remove_remote_config, set_remote_token_config, workspace_token_warning,
    RemoteConfigError, TokenChange,
};
use knit::sync::{KnitConfig, KnitRemote};

fn remote(url: &str, token: Option<&str>) -> KnitRemote {
    KnitRemote { url: url.to_string(), token: token.map(|t| t.to_string()) }
}

fn config() -> KnitConfig {
    KnitConfig {
        active_project: None,
        remotes: vec![
            ("knithub".to_string(), remote("https://hub.example", None)),
            ("mirror".to_string(), remote("https://mirror.example", Some("t1"))),
        ],
        sync_remote: Some("Mirror".to_string()),
        sync_remotes: vec!["mirror".to_string(), "knithub".to_string()],
        push_sync: true,
    }
}

fn names(c: &KnitConfig) -> Vec<String> {
    c.remotes.iter().map(|(k, _)| k.clone()).collect()
}

#[test]
fn token_stdin_needs_global() {
    assert!(check_add_remote(false, false).is_ok());
    assert!(check_add_remote(true, true).is_ok());
    let err = check_add_remote(true, false).unwrap_err();
    assert!(matches!(err, RemoteConfigError::TokenStdinNeedsGlobal));
    assert_eq!(
        err.message(),
        "--token-stdin requires --global so a user credential is never stored in workspace config"
    );
}

#[test]
fn adding_a_remote_slugs_its_name_and_normalizes_its_url() {
    let mut c = config();
    let name = add_remote_config(&mut c, "Back Up", " https://backup.example/// ", Some("tok"));
    assert_eq!(name, "back-up");
    assert_eq!(names(&c), vec!["back-up", "knithub", "mirror"]);
    assert_eq!(c.remotes[0].1.url, "https://backup.example");
    assert_eq!(c.remotes[0].1.token.as_deref(), Some("tok"));
    let name = add_remote_config(&mut c, "mirror", "https://new.example", None);
    assert_eq!(name, "mirror");
    assert_eq!(names(&c), vec!["back-up", "knithub", "mirror"]);
    assert_eq!(c.remotes[2].1.url, "https://new.example");
    assert_eq!(c.remotes[2].1.token, None);
}

#[test]
fn removing_the_sync_remote_moves_it_on() {
    let mut c = config();
    assert_eq!(remove_remote_config(&mut c, "Mirror").ok(), Some("mirror".to_string()));
    assert_eq!(names(&c), vec!["knithub"]);
    assert_eq!(c.sync_remotes, vec!["knithub".to_string()]);
    assert_eq!(c.sync_remote.as_deref(), Some("knithub"));
}

#[test]
fn removing_another_remote_keeps_the_sync_remote() {
    let mut c = config();
    remove_remote_config(&mut c, "knithub").ok().unwrap();
    assert_eq!(c.sync_remotes, vec!["mirror".to_string()]);
    assert_eq!(c.sync_remote.as_deref(), Some("Mirror"));
    remove_remote_config(&mut c, "mirror").ok().unwrap();
    assert!(c.sync_remotes.is_empty());
    assert_eq!(c.sync_remote, None);
}

#[test]
fn removing_an_unknown_remote_is_refused() {
    let mut c = config();
    let err = remove_remote_config(&mut c, "Nowhere").err().unwrap();
    assert_eq!(err.message(), "No remote named `nowhere`.");
    assert_eq!(names(&c), vec!["knithub", "mirror"]);
}

#[test]
fn setting_and_clearing_a_token() {
    let mut c = config();
    let change = set_remote_token_config(&mut c, "knithub", Some("abc"), false).ok().unwrap();
    assert!(change == TokenChange::Stored);
    assert_eq!(c.remotes[0].1.token.as_deref(), Some("abc"));
    assert_eq!(c.remotes[0].1.url, "https://hub.example");
    let change = set_remote_token_config(&mut c, "mirror", None, true).ok().unwrap();
    assert!(change == TokenChange::Cleared);
    assert_eq!(c.remotes[1].1.token, None);
    let err = set_remote_token_config(&mut c, "mirror", None, false).err().unwrap();
    assert_eq!(err.message(), "Pass a token value or use --clear.");
    let err = set_remote_token_config(&mut c, "gone", Some("x"), false).err().unwrap();
    assert_eq!(err.message(), "No remote named `gone`.");
}

#[test]
fn workspace_token_warning_names_the_environment_variable() {
    assert_eq!(
        workspace_token_warning("back-up"),
        "token stored in workspace .knit/config.json. Prefer `--global` or the KNIT_REMOTE_BACK_UP_TOKEN environment variable so credentials never live in files a collaborator might receive."
    );
}
