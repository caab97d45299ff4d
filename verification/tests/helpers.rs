use knit::credentials::{connected_forge_hosts, ForgeDescriptor};
use knit::helpers::{helper_command, is_knit_helper, is_knit_helper_for, shell_quote};

#[test]
fn knit_helper_shape_is_recognized_across_names_and_paths() {
    assert!(is_knit_helper("!'/usr/local/bin/knit' git-credential --remote 'hosted'"));
    assert!(is_knit_helper("!'/other/knit' git-credential --remote 'moonbase'"));
    assert!(!is_knit_helper("osxkeychain"));
    assert!(!is_knit_helper("!git-credential-manager"));
    assert!(is_knit_helper_for("!'/usr/local/bin/knit' git-credential --remote 'hosted'", "hosted"));
    assert!(!is_knit_helper_for("!'/usr/local/bin/knit' git-credential --remote 'hosted'", "moonbase"));
}

#[test]
fn helper_command_quotes_the_remote_name() {
    let command = helper_command("/usr/local/bin/knit", "moon base");
    assert!(command.starts_with('!'));
    assert!(command.ends_with(" git-credential --remote 'moon base'"));
}

#[test]
fn shell_quote_escapes_single_quotes() {
    assert_eq!(shell_quote("it's"), "'it'\"'\"'s'");
    assert_eq!(shell_quote(""), "''");
    assert_eq!(helper_command("/bin/knit", "a'b"), "!'/bin/knit' git-credential --remote 'a'\"'\"'b'");
    assert!(is_knit_helper_for(&helper_command("/x", "a'b"), "a'b"));
}

use knit::credentials::{accept_parsed_host, normalize_git_target};

#[test]
fn target_normalization_rejects_credential_forwarding_shapes() {
    assert_eq!(normalize_git_target("https", "FORGE.EXAMPLE"), Some("forge.example".to_string()));
    for (protocol, host) in [
        ("http", "forge.example"),
        ("https", "forge.example:443"),
        ("https", "forge.example."),
        ("https", "forge..example"),
        ("https", "forge._example"),
        ("https", "forge.-example"),
        ("https", "fоrge.example"),
        ("https", "user@forge.example"),
    ] {
        assert_eq!(normalize_git_target(protocol, host), None, "{host}");
    }
}

#[test]
fn target_normalization_edge_labels() {
    assert_eq!(normalize_git_target("https", " forge.example"), None);
    assert_eq!(normalize_git_target("https", ""), None);
    assert_eq!(normalize_git_target("https", "a-b.c9"), Some("a-b.c9".to_string()));
    let long_label = "a".repeat(64);
    assert_eq!(normalize_git_target("https", &format!("{long_label}.example")), None);
    assert_eq!(normalize_git_target("https", &"a".repeat(63)), Some("a".repeat(63)));
}

#[test]
fn parsed_host_must_match_without_port() {
    assert_eq!(accept_parsed_host("h.example", None, Some("h.example".to_string())), Some("h.example".to_string()));
    assert_eq!(accept_parsed_host("h.example", Some(8443), Some("h.example".to_string())), None);
    assert_eq!(accept_parsed_host("h.example", None, Some("other".to_string())), None);
    assert_eq!(accept_parsed_host("h.example", None, None), None);
}

use knit::helpers::{converge_edits, converged_values, helper_key, host_of_key, parse_helper_entries, RemoveScope};

fn strings(values: &[&str]) -> Vec<String> {
    values.iter().map(|s| s.to_string()).collect()
}

#[test]
fn helper_entries_are_parsed_by_key() {
    let output = "credential.https://b.example.helper\nosxkeychain\0credential.https://a.example.helper\n!x\0credential.https://b.example.helper\nstore\0\0lonely";
    let entries = parse_helper_entries(output);
    assert_eq!(
        entries,
        vec![
            ("credential.https://a.example.helper".to_string(), strings(&["!x"])),
            ("credential.https://b.example.helper".to_string(), strings(&["osxkeychain", "store"])),
            ("lonely".to_string(), strings(&[""])),
        ]
    );
    assert!(parse_helper_entries("").is_empty());
}

#[test]
fn helper_keys_round_trip() {
    assert_eq!(helper_key("forge.example"), "credential.https://forge.example.helper");
    assert_eq!(host_of_key("credential.https://forge.example.helper"), Some("forge.example".to_string()));
    assert_eq!(host_of_key("credential.helper"), None);
}

#[test]
fn convergence_puts_our_helper_first_and_drops_stale_ones() {
    let ours = "!'/bin/knit' git-credential --remote 'hub'";
    let stale = "!'/old/knit' git-credential --remote 'old'";
    let existing = strings(&["osxkeychain", stale, ours]);
    assert_eq!(
        converged_values(&existing, &RemoveScope::AnyRemote, Some(&ours.to_string())),
        strings(&[ours, "osxkeychain"])
    );
    assert_eq!(
        converged_values(&existing, &RemoveScope::Remote("hub".to_string()), None),
        strings(&["osxkeychain", stale])
    );
    let entries = vec![
        ("credential.https://a.example.helper".to_string(), strings(&[ours])),
        ("credential.https://gone.example.helper".to_string(), strings(&["store", stale])),
    ];
    let desired = vec![("a.example".to_string(), ours.to_string()), ("new.example".to_string(), ours.to_string())];
    let edits = converge_edits(&entries, &desired, &RemoveScope::AnyRemote);
    assert_eq!(edits.len(), 2);
    assert_eq!(edits[0].key, "credential.https://gone.example.helper");
    assert!(edits[0].unset);
    assert_eq!(edits[0].values, strings(&["store"]));
    assert_eq!(edits[1].key, "credential.https://new.example.helper");
    assert!(!edits[1].unset);
    assert_eq!(edits[1].values, strings(&[ours]));
}

#[test]
fn connected_forge_hosts_are_validated_sorted_and_unique() {
    let ds = vec![
        ForgeDescriptor { connected: true, hosts: vec!["GitHub.com".to_string(), "evil.com:443".to_string()] },
        ForgeDescriptor { connected: false, hosts: vec!["gitlab.com".to_string()] },
        ForgeDescriptor { connected: true, hosts: vec!["codeberg.org".to_string(), "github.com".to_string()] },
    ];
    assert_eq!(connected_forge_hosts(&ds), vec!["codeberg.org".to_string(), "github.com".to_string()]);
}

#[test]
fn the_url_parser_must_read_the_host_back_unchanged() {
    assert_eq!(normalize_git_target("https", "123"), None);
    assert_eq!(normalize_git_target("https", "1.2.3.4"), Some("1.2.3.4".to_string()));
    let ds = vec![ForgeDescriptor { connected: true, hosts: vec!["123".to_string(), "Git.Example".to_string()] }];
    assert_eq!(connected_forge_hosts(&ds), vec!["git.example".to_string()]);
}
