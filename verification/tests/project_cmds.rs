use knit::project_cmds::{
    check_pulled_project_id, command_repo_label, merge_pulled_commands, parse_env, remove_run_command,
    set_run_command, ProjectRunCommand,
};
use knit::str_map::{map_get, map_remove, map_set};

fn strings(values: &[&str]) -> Vec<String> {
    values.iter().map(|s| s.to_string()).collect()
}

fn cmd(command: &[&str]) -> ProjectRunCommand {
    ProjectRunCommand { repos: Vec::new(), cwd: None, command: strings(command), env: Vec::new() }
}

#[test]
fn sorted_map_sets_gets_and_removes() {
    let mut m: Vec<(String, u32)> = Vec::new();
    map_set(&mut m, "web".to_string(), 1);
    map_set(&mut m, "api".to_string(), 2);
    map_set(&mut m, "web".to_string(), 3);
    map_set(&mut m, "docs".to_string(), 4);
    assert_eq!(m, vec![("api".to_string(), 2), ("docs".to_string(), 4), ("web".to_string(), 3)]);
    assert_eq!(map_get(&m, "web"), Some(&3));
    assert_eq!(map_get(&m, "ops"), None);
    assert!(map_remove(&mut m, "docs"));
    assert!(!map_remove(&mut m, "docs"));
    assert_eq!(m.len(), 2);
}

#[test]
fn env_entries_parse_into_a_sorted_map() {
    let env = parse_env(&strings(&["PORT=8080", "A=x=y", "PORT=9090", "EMPTY="])).unwrap();
    assert_eq!(
        env,
        vec![
            ("A".to_string(), "x=y".to_string()),
            ("EMPTY".to_string(), String::new()),
            ("PORT".to_string(), "9090".to_string())
        ]
    );
    assert_eq!(
        parse_env(&strings(&["A=1", "NOVALUE", "=x"])).unwrap_err(),
        "Environment entries must use KEY=VALUE syntax: NOVALUE"
    );
    assert_eq!(parse_env(&strings(&[" =x"])).unwrap_err(), "Environment variable names cannot be empty.");
}

#[test]
fn project_commands_are_set_and_removed_by_slug() {
    let mut commands: Vec<(String, ProjectRunCommand)> = Vec::new();
    assert_eq!(
        set_run_command(&mut commands, "dev", &Vec::new(), None, &Vec::new(), Vec::new()).unwrap_err(),
        "Pass a command after the name, for example `knit project command set dev -- docker compose up`."
    );
    assert_eq!(
        set_run_command(&mut commands, "Dev Server", &strings(&["Web App"]), None, &strings(&["X=1"]), strings(&["npm", "start"])).unwrap(),
        "dev-server"
    );
    assert_eq!(commands[0].0, "dev-server");
    assert_eq!(commands[0].1.repos, strings(&["web-app"]));
    assert_eq!(commands[0].1.env, vec![("X".to_string(), "1".to_string())]);
    assert_eq!(
        set_run_command(&mut commands, "x", &Vec::new(), None, &strings(&["bad"]), strings(&["ls"])).unwrap_err(),
        "Environment entries must use KEY=VALUE syntax: bad"
    );
    assert_eq!(commands.len(), 1);
    assert_eq!(remove_run_command(&mut commands, "Dev Server").unwrap(), "dev-server");
    assert_eq!(remove_run_command(&mut commands, "dev-server").unwrap_err(), "Project command `dev-server` does not exist.");
    assert_eq!(command_repo_label(&Vec::new()), "(select at run time)");
    assert_eq!(command_repo_label(&strings(&["api", "web"])), "api,web");
}

#[test]
fn pulled_commands_never_replace_local_ones() {
    let mut local = vec![("dev".to_string(), cmd(&["local"]))];
    let incoming = vec![("dev".to_string(), cmd(&["remote"])), ("test".to_string(), cmd(&["cargo", "test"]))];
    merge_pulled_commands(&mut local, incoming);
    assert_eq!(local.len(), 2);
    assert_eq!(local[0].1.command, strings(&["local"]));
    assert_eq!(local[1].0, "test");
    assert_eq!(local[1].1.command, strings(&["cargo", "test"]));
    assert!(check_pulled_project_id("acme", "/r/knit.project.json", "acme").is_ok());
    assert_eq!(
        check_pulled_project_id("acme", "/r/knit.project.json", "other").unwrap_err(),
        "Project id mismatch: workspace has `acme` but `/r/knit.project.json` declares `other`."
    );
}
