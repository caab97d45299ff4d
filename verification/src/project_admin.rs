//! `knit project list|show|remove`: which project a command means, how the
//! projects are listed, and what removing one does to the workspace config.
use vstd::prelude::*;

use crate::text::{append_str, chars_of, decimal_seq, push_decimal, slugify, slugify_seq, str_eq, string_from_chars};

verus! {

pub open spec fn opt_view(o: Option<String>) -> Option<Seq<char>> {
    match o {
        Some(s) => Some(s@),
        None => None,
    }
}

/// The project a command means: the slug of the name given, else the
/// workspace's active project.
pub fn select_project(name: Option<&str>, active: Option<String>) -> (r: Option<String>)
    ensures
        opt_view(r) == match name {
            Some(n) => Some(slugify_seq(n@)),
            None => opt_view(active),
        },
{
    match name {
        Some(n) => Some(slugify(n)),
        None => active,
    }
}

/// One line of `knit project list`: a `*` marks the active project.
pub fn project_list_line(active: Option<&str>, project_id: &str, repo_count: u64) -> (line: String)
    ensures
        line@ == (if active matches Some(a) && a@ == project_id@ {
            "*"@
        } else {
            " "@
        }) + " "@ + project_id@ + " "@ + decimal_seq(repo_count as nat) + " repo(s)"@,
{
    let is_active = match active {
        Some(a) => str_eq(a, project_id),
        None => false,
    };
    let mut v = if is_active {
        chars_of("*")
    } else {
        chars_of(" ")
    };
    append_str(&mut v, " ");
    append_str(&mut v, project_id);
    append_str(&mut v, " ");
    push_decimal(&mut v, repo_count);
    append_str(&mut v, " repo(s)");
    string_from_chars(&v)
}

/// Removing a project must be forced.
pub fn check_remove_project(force: bool) -> (r: Result<(), String>)
    ensures
        force <==> r is Ok,
        r matches Err(m) ==> m@ == "Removing a project requires --force."@,
{
    if force {
        Ok(())
    } else {
        Err(string_from_chars(&chars_of("Removing a project requires --force.")))
    }
}

/// The workspace's active project after `project_id` is removed: cleared
/// when it was that project. Reports whether it changed.
pub fn active_after_removal(active: Option<String>, project_id: &str) -> (r: (Option<String>, bool))
    ensures
        r.1 == (active matches Some(a) && a@ == project_id@),
        r.1 ==> r.0 is None,
        !r.1 ==> opt_view(r.0) == opt_view(active),
{
    let hit = match &active {
        Some(a) => str_eq(a.as_str(), project_id),
        None => false,
    };
    if hit {
        (None, true)
    } else {
        (active, false)
    }
}

/// The refusal when no project file exists under the slug.
pub fn no_project_message(project_id: &str) -> (m: String)
    ensures
        m@ == "No Knit project named `"@ + project_id@ + "` found."@,
{
    let mut v = chars_of("No Knit project named `");
    append_str(&mut v, project_id);
    append_str(&mut v, "` found.");
    string_from_chars(&v)
}

} // verus!
