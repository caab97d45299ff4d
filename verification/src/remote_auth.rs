//! `knit remote auth|remove --revoke`: reading what a sync remote says about
//! its token, and revoking it.
use vstd::prelude::*;

use crate::text::{
    append_chars, append_str, chars_of, contains_string, decimal_seq, join_seq, join_strings, push_decimal,
    string_from_chars, strings_view, trim_chars, trim_seq,
};

verus! {

/// Whether a status is a success.
pub open spec fn is_success(status: u16) -> bool {
    200 <= status < 300
}

/// What to make of the forge-credentials reply: decode it on success
/// (`Ok(true)`), report none when the token may not hold forge credentials
/// anyway (`Ok(false)`), and fail when it may.
pub open spec fn forge_reply_spec(status: u16, body: Seq<char>, scopes: Seq<Seq<char>>) -> Result<bool, Seq<char>> {
    if is_success(status) {
        Ok(true)
    } else if scopes.contains("forge:credential"@) {
        Err("Sync remote returned HTTP "@ + decimal_seq(status as nat) + " while checking forge credential capabilities: "@
            + trim_seq(body))
    } else {
        Ok(false)
    }
}

pub fn forge_reply(status: u16, body: &str, scopes: &Vec<String>) -> (r: Result<bool, String>)
    ensures
        match forge_reply_spec(status, body@, strings_view(scopes@)) {
            Ok(b) => r == Ok::<bool, String>(b),
            Err(m) => r matches Err(s) && s@ == m,
        },
{
    if 200 <= status && status < 300 {
        return Ok(true);
    }
    let scope = string_from_chars(&chars_of("forge:credential"));
    if contains_string(scopes, &scope) {
        let mut v = chars_of("Sync remote returned HTTP ");
        push_decimal(&mut v, status as u64);
        append_str(&mut v, " while checking forge credential capabilities: ");
        append_chars(&mut v, &trim_chars(&chars_of(body)));
        Err(string_from_chars(&v))
    } else {
        Ok(false)
    }
}

/// What a sync remote reports about the token it was sent.
pub struct AuthStatus {
    pub token_kind: Option<String>,
    pub subject_user_id: Option<String>,
    pub environment_id: Option<String>,
    pub expires_at: Option<String>,
    pub scopes: Option<Vec<String>>,
}

pub open spec fn or_default(o: Option<String>, d: Seq<char>) -> Seq<char> {
    match o {
        Some(s) => s@,
        None => d,
    }
}

pub open spec fn scopes_text(o: Option<Vec<String>>) -> Seq<char> {
    match o {
        Some(v) => join_seq(strings_view(v@), ", "@),
        None => Seq::empty(),
    }
}

/// The lines `knit remote auth` prints for a remote's token.
pub open spec fn auth_lines_spec(remote_name: Seq<char>, s: AuthStatus) -> Seq<Seq<char>> {
    seq![
        "Remote: "@ + remote_name,
        "Token kind: "@ + or_default(s.token_kind, "legacy"@),
        "Subject: "@ + or_default(s.subject_user_id, "unbound"@),
        "Environment: "@ + or_default(s.environment_id, "unbound"@),
        "Expires: "@ + or_default(s.expires_at, "none"@),
        "Scopes: "@ + scopes_text(s.scopes),
    ]
}

fn line(label: &str, value: &str) -> (out: String)
    ensures
        out@ == label@ + value@,
{
    let mut v = chars_of(label);
    append_str(&mut v, value);
    string_from_chars(&v)
}

fn value_or(o: &Option<String>, d: &str) -> (out: String)
    ensures
        out@ == or_default(*o, d@),
{
    match o {
        Some(s) => string_from_chars(&chars_of(s.as_str())),
        None => string_from_chars(&chars_of(d)),
    }
}

pub fn auth_lines(remote_name: &str, status: &AuthStatus) -> (out: Vec<String>)
    ensures
        strings_view(out@) == auth_lines_spec(remote_name@, *status),
{
    let scopes = match &status.scopes {
        Some(v) => join_strings(v, ", "),
        None => String::new(),
    };
    let mut out: Vec<String> = Vec::new();
    out.push(line("Remote: ", remote_name));
    out.push(line("Token kind: ", value_or(&status.token_kind, "legacy").as_str()));
    out.push(line("Subject: ", value_or(&status.subject_user_id, "unbound").as_str()));
    out.push(line("Environment: ", value_or(&status.environment_id, "unbound").as_str()));
    out.push(line("Expires: ", value_or(&status.expires_at, "none").as_str()));
    out.push(line("Scopes: ", scopes.as_str()));
    proof {
        assert(strings_view(out@) =~= auth_lines_spec(remote_name@, *status));
    }
    out
}

/// The path that revokes the introspected token; refused when the remote
/// named no token id.
pub fn revoke_path(token_id: Option<&str>) -> (r: Result<String, String>)
    ensures
        match token_id {
            Some(id) => r matches Ok(p) && p@ == "/tokens/"@ + id@,
            None => r matches Err(m) && m@ == "remote token introspection returned no token id"@,
        },
{
    match token_id {
        Some(id) => Ok(line("/tokens/", id)),
        None => Err(string_from_chars(&chars_of("remote token introspection returned no token id"))),
    }
}

/// A revocation succeeds on a 2xx reply; otherwise it fails with the status
/// and the trimmed body.
pub fn revoke_reply(status: u16, body: &str) -> (r: Result<(), String>)
    ensures
        is_success(status) ==> r is Ok,
        !is_success(status) ==> (r matches Err(m) && m@ == "Sync remote returned HTTP "@ + decimal_seq(status as nat) + ": "@
            + trim_seq(body@)),
{
    if 200 <= status && status < 300 {
        return Ok(());
    }
    let mut v = chars_of("Sync remote returned HTTP ");
    push_decimal(&mut v, status as u64);
    append_str(&mut v, ": ");
    append_chars(&mut v, &trim_chars(&chars_of(body)));
    Err(string_from_chars(&v))
}

/// The failure reported after a remote was removed but its token could not
/// be revoked.
pub fn revoke_failed_message(error: &str) -> (m: String)
    ensures
        m@ == "remote removed locally, but its token could not be revoked: "@ + error@,
{
    line("remote removed locally, but its token could not be revoked: ", error)
}

} // verus!
