//! `knit remote add|remove|token`: the changes these commands make to the
//! configured remotes.
use vstd::prelude::*;

use crate::remote::{remote_token_env_name, token_env_spec};
use crate::str_map::{map_get, map_of, map_remove, map_set, well_keyed};
use crate::sync::{normalize_base_url, strip_slashes, KnitConfig, KnitRemote};
use crate::text::{
    append_str, chars_of, slugify, slugify_seq, str_eq, string_from_chars, strings_view, trim_seq,
};

verus! {

/// Why a remote configuration change is refused.
pub enum RemoteConfigError {
    TokenStdinNeedsGlobal,
    NoRemote { name: String },
    NoTokenValue,
}

impl RemoteConfigError {
    pub open spec fn message_spec(&self) -> Seq<char> {
        match self {
            RemoteConfigError::TokenStdinNeedsGlobal =>
                "--token-stdin requires --global so a user credential is never stored in workspace config"@,
            RemoteConfigError::NoRemote { name } => "No remote named `"@ + name@ + "`."@,
            RemoteConfigError::NoTokenValue => "Pass a token value or use --clear."@,
        }
    }

    pub fn message(&self) -> (m: String)
        ensures
            m@ == self.message_spec(),
    {
        match self {
            RemoteConfigError::TokenStdinNeedsGlobal => string_from_chars(
                &chars_of("--token-stdin requires --global so a user credential is never stored in workspace config"),
            ),
            RemoteConfigError::NoRemote { name } => {
                let mut v = chars_of("No remote named `");
                append_str(&mut v, name.as_str());
                append_str(&mut v, "`.");
                string_from_chars(&v)
            },
            RemoteConfigError::NoTokenValue => string_from_chars(&chars_of("Pass a token value or use --clear.")),
        }
    }
}

/// A token read from standard input is only ever stored in the user's
/// global configuration.
pub fn check_add_remote(token_stdin: bool, global: bool) -> (r: Result<(), RemoteConfigError>)
    ensures
        r is Err <==> (token_stdin && !global),
        r is Err ==> r matches Err(RemoteConfigError::TokenStdinNeedsGlobal),
{
    if token_stdin && !global {
        Err(RemoteConfigError::TokenStdinNeedsGlobal)
    } else {
        Ok(())
    }
}

pub open spec fn opt_str(o: Option<&str>) -> Option<Seq<char>> {
    match o {
        Some(s) => Some(s@),
        None => None,
    }
}

pub open spec fn opt_view(o: Option<String>) -> Option<Seq<char>> {
    match o {
        Some(s) => Some(s@),
        None => None,
    }
}

/// The remote holds this url and token.
pub open spec fn remote_is(r: KnitRemote, url: Seq<char>, token: Option<Seq<char>>) -> bool {
    r.url@ == url && opt_view(r.token) == token
}

fn copy_str(s: &str) -> (out: String)
    ensures
        out@ == s@,
{
    string_from_chars(&chars_of(s))
}

/// Adds (or replaces) the remote under the slug of `name`, with its url
/// trimmed of whitespace and trailing slashes. Returns the slug.
pub fn add_remote_config(config: &mut KnitConfig, name: &str, url: &str, token: Option<&str>) -> (remote_name: String)
    requires
        well_keyed(old(config).remotes@),
    ensures
        remote_name@ == slugify_seq(name@),
        well_keyed(final(config).remotes@),
        map_of(final(config).remotes@).dom() == map_of(old(config).remotes@).dom().insert(remote_name@),
        remote_is(map_of(final(config).remotes@)[remote_name@], strip_slashes(trim_seq(url@)), opt_str(token)),
        forall|k: Seq<char>| k != remote_name@ && #[trigger] map_of(old(config).remotes@).dom().contains(k)
            ==> map_of(final(config).remotes@)[k] == map_of(old(config).remotes@)[k],
        final(config).sync_remotes@ == old(config).sync_remotes@,
        final(config).sync_remote == old(config).sync_remote,
        final(config).active_project == old(config).active_project,
        final(config).push_sync == old(config).push_sync,
{
    let remote_name = slugify(name);
    let tok = match token {
        Some(t) => Some(copy_str(t)),
        None => None,
    };
    let remote = KnitRemote { url: normalize_base_url(url), token: tok };
    map_set(&mut config.remotes, copy_str(remote_name.as_str()), remote);
    remote_name
}

/// `names` without the entries whose slug is `slug`, in order.
pub open spec fn without_slug(names: Seq<Seq<char>>, slug: Seq<char>) -> Seq<Seq<char>>
    decreases names.len(),
{
    if names.len() == 0 {
        Seq::empty()
    } else if slugify_seq(names.last()) == slug {
        without_slug(names.drop_last(), slug)
    } else {
        without_slug(names.drop_last(), slug).push(names.last())
    }
}

/// No entry left by `without_slug` names `slug`, and every other entry stays.
pub proof fn lemma_without_slug(names: Seq<Seq<char>>, slug: Seq<char>)
    ensures
        forall|i: int| 0 <= i < without_slug(names, slug).len() ==> slugify_seq(#[trigger] without_slug(names, slug)[i]) != slug
            && names.contains(without_slug(names, slug)[i]),
        forall|i: int| 0 <= i < names.len() && slugify_seq(#[trigger] names[i]) != slug ==> without_slug(names, slug).contains(names[i]),
    decreases names.len(),
{
    if names.len() > 0 {
        let rest = names.drop_last();
        lemma_without_slug(rest, slug);
        let prev = without_slug(rest, slug);
        let cur = without_slug(names, slug);
        assert forall|i: int| 0 <= i < cur.len() implies slugify_seq(#[trigger] cur[i]) != slug && names.contains(cur[i]) by {
            if i < prev.len() {
                assert(cur[i] == prev[i]);
                let k = choose|k: int| 0 <= k < rest.len() && rest[k] == prev[i];
                assert(names[k] == rest[k]);
            } else {
                assert(cur[i] == names.last());
                assert(names[names.len() - 1] == names.last());
            }
        }
        assert forall|i: int| 0 <= i < names.len() && slugify_seq(#[trigger] names[i]) != slug implies cur.contains(names[i]) by {
            if i < names.len() - 1 {
                assert(rest[i] == names[i]);
                let k = choose|k: int| 0 <= k < prev.len() && prev[k] == names[i];
                assert(cur[k] == names[i]);
            } else {
                assert(cur[cur.len() - 1] == names[i]);
            }
        }
    }
}

/// The sync remote after removing `slug`: unchanged unless it named that
/// remote, in which case the first remaining sync remote (if any).
pub open spec fn sync_remote_after(sync_remote: Option<Seq<char>>, remaining: Seq<Seq<char>>, slug: Seq<char>) -> Option<Seq<char>> {
    let current = match sync_remote {
        Some(s) => slugify_seq(s),
        None => Seq::empty(),
    };
    if current == slug {
        if remaining.len() > 0 {
            Some(remaining[0])
        } else {
            None
        }
    } else {
        sync_remote
    }
}

/// Removes the remote named by the slug of `name`, drops it from the sync
/// remotes, and moves the sync remote on when it was that one. Returns the
/// slug; refuses, changing nothing, when no such remote is configured.
pub fn remove_remote_config(config: &mut KnitConfig, name: &str) -> (r: Result<String, RemoteConfigError>)
    requires
        well_keyed(old(config).remotes@),
    ensures
        well_keyed(final(config).remotes@),
        map_of(old(config).remotes@).dom().contains(slugify_seq(name@)) <==> r is Ok,
        r matches Err(e) ==> e matches RemoteConfigError::NoRemote { name: n } && n@ == slugify_seq(name@)
            && final(config).remotes@ == old(config).remotes@ && final(config).sync_remotes@ == old(config).sync_remotes@
            && final(config).sync_remote == old(config).sync_remote,
        r matches Ok(s) ==> s@ == slugify_seq(name@)
            && map_of(final(config).remotes@) == map_of(old(config).remotes@).remove(s@)
            && strings_view(final(config).sync_remotes@) == without_slug(strings_view(old(config).sync_remotes@), s@)
            && (forall|i: int| 0 <= i < final(config).sync_remotes@.len() ==> slugify_seq(
                #[trigger] final(config).sync_remotes@[i]@,
            ) != s@)
            && opt_view(final(config).sync_remote) == sync_remote_after(
                opt_view(old(config).sync_remote),
                strings_view(final(config).sync_remotes@),
                s@,
            ),
        final(config).active_project == old(config).active_project,
        final(config).push_sync == old(config).push_sync,
{
    let remote_name = slugify(name);
    if !map_remove(&mut config.remotes, remote_name.as_str()) {
        return Err(RemoteConfigError::NoRemote { name: remote_name });
    }
    let ghost old_names = strings_view(config.sync_remotes@);
    let mut kept: Vec<String> = Vec::new();
    let mut i: usize = 0;
    while i < config.sync_remotes.len()
        invariant
            i <= config.sync_remotes@.len(),
            old_names == strings_view(config.sync_remotes@),
            strings_view(kept@) == without_slug(old_names.take(i as int), remote_name@),
        decreases config.sync_remotes.len() - i,
    {
        proof {
            assert(old_names.take(i + 1).drop_last() =~= old_names.take(i as int));
        }
        let entry = &config.sync_remotes[i];
        if !str_eq(slugify(entry.as_str()).as_str(), remote_name.as_str()) {
            let c = copy_str(entry.as_str());
            proof {
                assert(strings_view(kept@.push(c)) =~= strings_view(kept@).push(c@));
            }
            kept.push(c);
        }
        i += 1;
    }
    proof {
        assert(old_names.take(old_names.len() as int) =~= old_names);
    }
    let current = match &config.sync_remote {
        Some(s) => slugify(s.as_str()),
        None => String::new(),
    };
    if str_eq(current.as_str(), remote_name.as_str()) {
        config.sync_remote = if kept.len() > 0 {
            Some(copy_str(kept[0].as_str()))
        } else {
            None
        };
    }
    config.sync_remotes = kept;
    proof {
        lemma_without_slug(old_names, remote_name@);
        assert forall|i: int| 0 <= i < config.sync_remotes@.len() implies slugify_seq(
            #[trigger] config.sync_remotes@[i]@,
        ) != remote_name@ by {
            assert(strings_view(config.sync_remotes@)[i] == config.sync_remotes@[i]@);
        }
    }
    Ok(remote_name)
}

/// What `knit remote token` did to a remote's token.
#[derive(PartialEq, Eq, Structural)]
pub enum TokenChange {
    Cleared,
    Stored,
}

/// Clears or stores the token of the remote named by the slug of `name`.
/// Refuses, changing nothing, when no such remote is configured, or when
/// neither a token nor `clear` is given.
pub fn set_remote_token_config(config: &mut KnitConfig, name: &str, token: Option<&str>, clear: bool) -> (r: Result<
    TokenChange,
    RemoteConfigError,
>)
    requires
        well_keyed(old(config).remotes@),
    ensures
        well_keyed(final(config).remotes@),
        !map_of(old(config).remotes@).dom().contains(slugify_seq(name@)) ==> (r matches Err(
            RemoteConfigError::NoRemote { name: n },
        ) && n@ == slugify_seq(name@)),
        map_of(old(config).remotes@).dom().contains(slugify_seq(name@)) && !clear && token is None ==> r matches Err(
            RemoteConfigError::NoTokenValue,
        ),
        r is Err ==> final(config).remotes@ == old(config).remotes@,
        r is Ok ==> map_of(old(config).remotes@).dom().contains(slugify_seq(name@))
            && map_of(final(config).remotes@).dom() == map_of(old(config).remotes@).dom()
            && remote_is(
                map_of(final(config).remotes@)[slugify_seq(name@)],
                map_of(old(config).remotes@)[slugify_seq(name@)].url@,
                if clear { None } else { opt_str(token) },
            )
            && (forall|k: Seq<char>| k != slugify_seq(name@) && #[trigger] map_of(old(config).remotes@).dom().contains(k)
                ==> map_of(final(config).remotes@)[k] == map_of(old(config).remotes@)[k]),
        r matches Ok(c) ==> (c == TokenChange::Cleared <==> clear),
        final(config).sync_remotes@ == old(config).sync_remotes@,
        final(config).sync_remote == old(config).sync_remote,
        final(config).active_project == old(config).active_project,
        final(config).push_sync == old(config).push_sync,
{
    let remote_name = slugify(name);
    let url = match map_get(&config.remotes, remote_name.as_str()) {
        Some(remote) => copy_str(remote.url.as_str()),
        None => return Err(RemoteConfigError::NoRemote { name: remote_name }),
    };
    let (token, change) = if clear {
        (None, TokenChange::Cleared)
    } else {
        match token {
            Some(t) => (Some(copy_str(t)), TokenChange::Stored),
            None => return Err(RemoteConfigError::NoTokenValue),
        }
    };
    proof {
        assert(map_of(config.remotes@).dom().insert(remote_name@) =~= map_of(config.remotes@).dom());
    }
    map_set(&mut config.remotes, copy_str(remote_name.as_str()), KnitRemote { url, token });
    Ok(change)
}

/// The advice printed when a token lands in workspace configuration.
pub fn workspace_token_warning(remote_name: &str) -> (m: String)
    ensures
        m@ == "token stored in workspace .knit/config.json. Prefer `--global` or the "@ + token_env_spec(remote_name@)
            + " environment variable so credentials never live in files a collaborator might receive."@,
{
    let mut v = chars_of("token stored in workspace .knit/config.json. Prefer `--global` or the ");
    append_str(&mut v, remote_token_env_name(remote_name).as_str());
    append_str(&mut v, " environment variable so credentials never live in files a collaborator might receive.");
    string_from_chars(&v)
}

} // verus!
