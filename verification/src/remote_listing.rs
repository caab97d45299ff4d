//! `knit remote list|show`: what is reported for each configured remote.
use vstd::prelude::*;

use crate::remote_config::RemoteConfigError;
use crate::str_map::{map_get, map_of, map_set, well_keyed};
use crate::sync::{configured_names, configured_sync_remote_names, KnitConfig, KnitRemote};
use crate::text::{chars_of, contains_string, slugify, slugify_seq, string_from_chars, strings_view};

verus! {

/// Where a configured remote comes from, `workspace` when not recorded.
pub open spec fn source_spec(sources: Seq<(String, String)>, name: Seq<char>) -> Seq<char> {
    if map_of(sources).dom().contains(name) {
        map_of(sources)[name]@
    } else {
        "workspace"@
    }
}

/// How a remote's token is reported in the listing.
pub open spec fn token_label_spec(from_env: bool, stored: bool) -> Seq<char> {
    if from_env {
        "token from env"@
    } else if stored {
        "stored token"@
    } else {
        "no token"@
    }
}

/// One line of `knit remote list`.
pub struct RemoteRow {
    pub name: String,
    pub url: String,
    pub source: String,
    pub token: String,
    pub sync: String,
}

/// The row holds what the listing reports for `entry`.
pub open spec fn row_holds(
    row: RemoteRow,
    entry: (String, KnitRemote),
    config: KnitConfig,
    sources: Seq<(String, String)>,
    env_names: Seq<Seq<char>>,
) -> bool {
    &&& row.name@ == entry.0@
    &&& row.url@ == entry.1.url@
    &&& row.source@ == source_spec(sources, entry.0@)
    &&& row.token@ == token_label_spec(env_names.contains(entry.0@), entry.1.token is Some)
    &&& row.sync@ == (if configured_names(config).contains(entry.0@) {
        "sync"@
    } else {
        "not sync"@
    })
}

fn copy_str(s: &str) -> (out: String)
    ensures
        out@ == s@,
{
    string_from_chars(&chars_of(s))
}

fn source_of(sources: &Vec<(String, String)>, name: &str) -> (out: String)
    requires
        well_keyed(sources@),
    ensures
        out@ == source_spec(sources@, name@),
{
    match map_get(sources, name) {
        Some(s) => copy_str(s.as_str()),
        None => copy_str("workspace"),
    }
}

fn token_label(from_env: bool, stored: bool) -> (out: String)
    ensures
        out@ == token_label_spec(from_env, stored),
{
    if from_env {
        copy_str("token from env")
    } else if stored {
        copy_str("stored token")
    } else {
        copy_str("no token")
    }
}

/// The rows of `knit remote list`, one per configured remote, in order.
/// `env_names` are the remotes whose token comes from the environment.
pub fn remote_rows(config: &KnitConfig, sources: &Vec<(String, String)>, env_names: &Vec<String>) -> (out: Vec<RemoteRow>)
    requires
        well_keyed(sources@),
    ensures
        out@.len() == config.remotes@.len(),
        forall|i: int| 0 <= i < out@.len() ==> row_holds(#[trigger] out@[i], config.remotes@[i], *config, sources@, strings_view(env_names@)),
{
    let sync = configured_sync_remote_names(config);
    let mut out: Vec<RemoteRow> = Vec::new();
    let mut i: usize = 0;
    while i < config.remotes.len()
        invariant
            i <= config.remotes@.len(),
            out@.len() == i,
            well_keyed(sources@),
            strings_view(sync@) == configured_names(*config),
            forall|j: int| 0 <= j < i ==> row_holds(#[trigger] out@[j], config.remotes@[j], *config, sources@, strings_view(env_names@)),
        decreases config.remotes.len() - i,
    {
        let (name, remote) = &config.remotes[i];
        let from_env = contains_string(env_names, name);
        let in_sync = contains_string(&sync, name);
        let row = RemoteRow {
            name: copy_str(name.as_str()),
            url: copy_str(remote.url.as_str()),
            source: source_of(sources, name.as_str()),
            token: token_label(from_env, remote.token.is_some()),
            sync: if in_sync {
                copy_str("sync")
            } else {
                copy_str("not sync")
            },
        };
        out.push(row);
        i += 1;
    }
    out
}

/// Where each listed remote comes from: `global` for the user's
/// configuration, overridden by `workspace` for the workspace's.
pub fn remote_sources(global_names: &Vec<String>, workspace_names: &Vec<String>) -> (out: Vec<(String, String)>)
    ensures
        well_keyed(out@),
        forall|k: Seq<char>| #[trigger] map_of(out@).dom().contains(k)
            <==> (strings_view(global_names@).contains(k) || strings_view(workspace_names@).contains(k)),
        forall|k: Seq<char>| #[trigger] map_of(out@).dom().contains(k) ==> map_of(out@)[k]@ == (
            if strings_view(workspace_names@).contains(k) {
                "workspace"@
            } else {
                "global"@
            }),
{
    let mut out: Vec<(String, String)> = Vec::new();
    let ghost g = strings_view(global_names@);
    let ghost w = strings_view(workspace_names@);
    let mut i: usize = 0;
    while i < global_names.len()
        invariant
            i <= global_names@.len(),
            g == strings_view(global_names@),
            well_keyed(out@),
            forall|k: Seq<char>| #[trigger] map_of(out@).dom().contains(k) <==> g.take(i as int).contains(k),
            forall|k: Seq<char>| #[trigger] map_of(out@).dom().contains(k) ==> map_of(out@)[k]@ == "global"@,
        decreases global_names.len() - i,
    {
        let ghost before = map_of(out@);
        map_set(&mut out, copy_str(global_names[i].as_str()), copy_str("global"));
        proof {
            assert forall|k: Seq<char>| #[trigger] map_of(out@).dom().contains(k) <==> g.take(i + 1).contains(k) by {
                lemma_take_next_contains(g, i as int, k);
            }
        }
        i += 1;
    }
    proof {
        assert(g.take(g.len() as int) =~= g);
    }
    let mut t: usize = 0;
    while t < workspace_names.len()
        invariant
            t <= workspace_names@.len(),
            g == strings_view(global_names@),
            w == strings_view(workspace_names@),
            well_keyed(out@),
            forall|k: Seq<char>| #[trigger] map_of(out@).dom().contains(k) <==> (g.contains(k) || w.take(t as int).contains(k)),
            forall|k: Seq<char>| #[trigger] map_of(out@).dom().contains(k) ==> map_of(out@)[k]@ == (if w.take(t as int).contains(k) {
                "workspace"@
            } else {
                "global"@
            }),
        decreases workspace_names.len() - t,
    {
        map_set(&mut out, copy_str(workspace_names[t].as_str()), copy_str("workspace"));
        proof {
            assert forall|k: Seq<char>| #[trigger] w.take(t + 1).contains(k) <==> (w.take(t as int).contains(k) || k == w[t as int]) by {
                lemma_take_next_contains(w, t as int, k);
            }
        }
        t += 1;
    }
    proof {
        assert(w.take(w.len() as int) =~= w);
    }
    out
}

proof fn lemma_take_next_contains(s: Seq<Seq<char>>, i: int, k: Seq<char>)
    requires
        0 <= i < s.len(),
    ensures
        s.take(i + 1).contains(k) <==> (s.take(i).contains(k) || k == s[i]),
{
    if s.take(i + 1).contains(k) && k != s[i] {
        let j = choose|j: int| 0 <= j < i + 1 && #[trigger] s.take(i + 1)[j] == k;
        assert(s.take(i)[j] == k);
    }
    if s.take(i).contains(k) {
        let j = choose|j: int| 0 <= j < i && #[trigger] s.take(i)[j] == k;
        assert(s.take(i + 1)[j] == k);
    }
    assert(s.take(i + 1)[i] == s[i]);
}

/// What `knit remote show` reports for one remote.
pub struct RemoteDetail {
    pub name: String,
    pub url: String,
    pub scope: String,
    pub sync: String,
    pub token: String,
}

/// The details of the remote named by the slug of `name`; refused when no
/// such remote is configured. `from_env` tells whether its token comes
/// from the environment.
pub fn remote_detail(config: &KnitConfig, sources: &Vec<(String, String)>, name: &str, from_env: bool) -> (r: Result<
    RemoteDetail,
    RemoteConfigError,
>)
    requires
        well_keyed(config.remotes@),
        well_keyed(sources@),
    ensures
        match r {
            Ok(d) => {
                let n = slugify_seq(name@);
                &&& map_of(config.remotes@).dom().contains(n)
                &&& d.name@ == n
                &&& d.url@ == map_of(config.remotes@)[n].url@
                &&& d.scope@ == source_spec(sources@, n)
                &&& d.sync@ == (if configured_names(*config).contains(n) {
                    "enabled"@
                } else {
                    "disabled"@
                })
                &&& d.token@ == (if from_env {
                    "from environment"@
                } else if map_of(config.remotes@)[n].token is Some {
                    "stored"@
                } else {
                    "not configured"@
                })
            },
            Err(e) => !map_of(config.remotes@).dom().contains(slugify_seq(name@)) && (e matches RemoteConfigError::NoRemote {
                name: n,
            } && n@ == slugify_seq(name@)),
        },
{
    let remote_name = slugify(name);
    let remote = match map_get(&config.remotes, remote_name.as_str()) {
        Some(r) => r,
        None => return Err(RemoteConfigError::NoRemote { name: remote_name }),
    };
    let sync = configured_sync_remote_names(config);
    let in_sync = contains_string(&sync, &remote_name);
    Ok(RemoteDetail {
        url: copy_str(remote.url.as_str()),
        scope: source_of(sources, remote_name.as_str()),
        sync: if in_sync {
            copy_str("enabled")
        } else {
            copy_str("disabled")
        },
        token: if from_env {
            copy_str("from environment")
        } else if remote.token.is_some() {
            copy_str("stored")
        } else {
            copy_str("not configured")
        },
        name: remote_name,
    })
}

} // verus!
