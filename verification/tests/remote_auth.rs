use knit::remote_auth::{auth_lines, forge_reply, revoke_failed_message, revoke_path, revoke_reply, AuthStatus};

#[test]
fn forge_reply_is_decoded_on_success() {
    assert_eq!(forge_reply(200, "[]", &Vec::new()), Ok(true));
}

#[test]
fn forge_reply_failure_matters_only_with_the_scope() {
    assert_eq!(forge_reply(403, "no", &vec!["sync".to_string()]), Ok(false));
    assert_eq!(
        forge_reply(403, " denied \n", &vec!["sync".to_string(), "forge:credential".to_string()]),
        Err("Sync remote returned HTTP 403 while checking forge credential capabilities: denied".to_string())
    );
}

#[test]
fn auth_lines_fill_in_defaults() {
    let status = AuthStatus {
        token_kind: None,
        subject_user_id: Some("u1".to_string()),
        environment_id: None,
        expires_at: None,
        scopes: Some(vec!["sync".to_string(), "forge:credential".to_string()]),
    };
    assert_eq!(
        auth_lines("knithub", &status),
        vec![
            "Remote: knithub".to_string(),
            "Token kind: legacy".to_string(),
            "Subject: u1".to_string(),
            "Environment: unbound".to_string(),
            "Expires: none".to_string(),
            "Scopes: sync, forge:credential".to_string(),
        ]
    );
    let bare = AuthStatus { token_kind: Some("user".to_string()), subject_user_id: None, environment_id: None, expires_at: Some("2030".to_string()), scopes: None };
    let lines = auth_lines("m", &bare);
    assert_eq!(lines[1], "Token kind: user");
    assert_eq!(lines[4], "Expires: 2030");
    assert_eq!(lines[5], "Scopes: ");
}

#[test]
fn revoking_needs_a_token_id_and_a_success() {
    assert_eq!(revoke_path(Some("tok_1")), Ok("/tokens/tok_1".to_string()));
    assert_eq!(revoke_path(None), Err("remote token introspection returned no token id".to_string()));
    assert_eq!(revoke_reply(204, ""), Ok(()));
    assert_eq!(revoke_reply(401, " nope "), Err("Sync remote returned HTTP 401: nope".to_string()));
    assert_eq!(
        revoke_failed_message("HTTP 401"),
        "remote removed locally, but its token could not be revoked: HTTP 401"
    );
}
