//! `knit remote push` of a project and of its graph artifacts: which remotes
//! are pushed to, when the push as a whole fails, and what is reported.
use vstd::prelude::*;

use crate::sync::{configured_names, configured_sync_remote_names, KnitConfig};
use crate::text::{
    append_str, chars_of, decimal_seq, join_seq, join_strings, push_decimal, slugify, slugify_seq,
    string_from_chars, strings_view,
};

verus! {

/// The remotes a project push goes to: the slug of the one named, else the
/// configured sync remotes; refused when that leaves none.
pub fn project_push_remotes(config: &KnitConfig, remote_name: Option<&str>) -> (r: Result<Vec<String>, String>)
    ensures
        match remote_name {
            Some(n) => r matches Ok(v) && strings_view(v@) == seq![slugify_seq(n@)],
            None => if configured_names(*config).len() > 0 {
                r matches Ok(v) && strings_view(v@) == configured_names(*config)
            } else {
                r matches Err(m) && m@ == "No sync remote configured. Run `knit remote add <name> <url>` first."@
            },
        },
{
    match remote_name {
        Some(n) => {
            let mut v: Vec<String> = Vec::new();
            v.push(slugify(n));
            proof {
                assert(strings_view(v@) =~= seq![slugify_seq(n@)]);
            }
            Ok(v)
        },
        None => {
            let v = configured_sync_remote_names(config);
            if v.len() == 0 {
                Err(string_from_chars(&chars_of("No sync remote configured. Run `knit remote add <name> <url>` first.")))
            } else {
                Ok(v)
            }
        },
    }
}

/// A project push fails only when it failed for every remote tried.
pub fn project_push_result(remote_count: usize, failures: &Vec<String>) -> (r: Result<(), String>)
    ensures
        failures@.len() == remote_count ==> (r matches Err(m) && m@ == "project push failed for every remote: "@
            + join_seq(strings_view(failures@), ", "@)),
        failures@.len() != remote_count ==> r is Ok,
{
    if failures.len() == remote_count {
        let mut v = chars_of("project push failed for every remote: ");
        append_str(&mut v, join_strings(failures, ", ").as_str());
        Err(string_from_chars(&v))
    } else {
        Ok(())
    }
}

/// The summary reported after pushing the architecture artifact.
pub fn architecture_summary(repos: u64, edges: u64) -> (m: String)
    ensures
        m@ == decimal_seq(repos as nat) + " repo(s), "@ + decimal_seq(edges as nat) + " edge(s)"@,
{
    let mut v: Vec<char> = Vec::new();
    push_decimal(&mut v, repos);
    append_str(&mut v, " repo(s), ");
    push_decimal(&mut v, edges);
    append_str(&mut v, " edge(s)");
    string_from_chars(&v)
}

/// The summary reported after pushing the knowledge-graph slice.
pub fn kg_graph_summary(nodes: u64, edges: u64, truncated: bool) -> (m: String)
    ensures
        m@ == decimal_seq(nodes as nat) + " node(s), "@ + decimal_seq(edges as nat) + " edge(s)"@ + (if truncated {
            " (truncated)"@
        } else {
            Seq::empty()
        }),
{
    let mut v: Vec<char> = Vec::new();
    push_decimal(&mut v, nodes);
    append_str(&mut v, " node(s), ");
    push_decimal(&mut v, edges);
    append_str(&mut v, " edge(s)");
    if truncated {
        append_str(&mut v, " (truncated)");
    }
    string_from_chars(&v)
}

/// The note printed when a graph artifact has not been produced yet.
pub fn missing_artifact_note(label: &str, path: &str, hint: &str) -> (m: String)
    ensures
        m@ == "no "@ + label@ + " artifact at "@ + path@ + "; skipped (run `"@ + hint@ + "` to produce one)"@,
{
    let mut v = chars_of("no ");
    append_str(&mut v, label);
    append_str(&mut v, " artifact at ");
    append_str(&mut v, path);
    append_str(&mut v, "; skipped (run `");
    append_str(&mut v, hint);
    append_str(&mut v, "` to produce one)");
    string_from_chars(&v)
}

} // verus!
