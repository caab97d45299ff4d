//! Choosing KnitHub sync remotes and artifact families, naming projects on
//! a remote, and the small rules applied to what a remote reports.
use vstd::prelude::*;

use crate::text::{
    append_chars, append_str, chars_of, contains_string, ends_with_chars, join_strings,
    join_seq, push_decimal, decimal_seq, slugify_chars, slugify_seq, split_once_char, string_from_chars, strings_view, trim_chars, trim_seq, slice_chars, ends_with_seq,
};

verus! {

/// A configured KnitHub remote.
#[derive(Debug, Clone)]
pub struct KnitRemote {
    pub url: String,
    pub token: Option<String>,
}

/// The parts of the Knit configuration that sync reads.
#[derive(Debug, Clone)]
pub struct KnitConfig {
    pub active_project: Option<String>,
    pub remotes: Vec<(String, KnitRemote)>,
    pub sync_remote: Option<String>,
    pub sync_remotes: Vec<String>,
    pub push_sync: bool,
}

/// `names` with `slugify(name)` appended unless it is empty or present.
pub open spec fn push_unique_name(names: Seq<Seq<char>>, name: Seq<char>) -> Seq<Seq<char>> {
    let s = slugify_seq(name);
    if s.len() > 0 && !names.contains(s) {
        names.push(s)
    } else {
        names
    }
}

/// The slugs of `names`, each once and none empty, in first-seen order.
pub open spec fn unique_names(names: Seq<Seq<char>>) -> Seq<Seq<char>>
    decreases names.len(),
{
    if names.len() == 0 {
        Seq::empty()
    } else {
        push_unique_name(unique_names(names.drop_last()), names.last())
    }
}

/// Adds the slug of `name` unless it is empty or already present.
pub fn push_unique_remote_name(names: &mut Vec<String>, name: &str)
    ensures
        strings_view(final(names)@) == push_unique_name(strings_view(old(names)@), name@),
{
    let v = chars_of(name);
    let slug = string_from_chars(&slugify_chars(&v));
    let ghost prev = strings_view(names@);
    let empty = chars_of(slug.as_str()).len() == 0;
    if !empty && !contains_string(names, &slug) {
        names.push(slug);
        proof {
            assert(strings_view(names@) =~= prev.push(slug@));
        }
    }
}

/// The slugs of `names`, each once, in first-seen order.
pub fn explicit_remote_names(remote_overrides: &Vec<String>) -> (out: Vec<String>)
    ensures
        strings_view(out@) == unique_names(strings_view(remote_overrides@)),
{
    let mut out: Vec<String> = Vec::new();
    let mut i: usize = 0;
    proof {
        assert(strings_view(remote_overrides@).take(0) =~= Seq::<Seq<char>>::empty());
        assert(strings_view(out@) =~= Seq::<Seq<char>>::empty());
    }
    while i < remote_overrides.len()
        invariant
            i <= remote_overrides@.len(),
            strings_view(out@) == unique_names(strings_view(remote_overrides@).take(i as int)),
        decreases remote_overrides.len() - i,
    {
        proof {
            assert(strings_view(remote_overrides@).take(i + 1).drop_last() =~= strings_view(remote_overrides@).take(i as int));
        }
        push_unique_remote_name(&mut out, remote_overrides[i].as_str());
        i += 1;
    }
    proof {
        assert(strings_view(remote_overrides@).take(remote_overrides@.len() as int) =~= strings_view(remote_overrides@));
    }
    out
}

pub open spec fn remote_names(c: KnitConfig) -> Seq<Seq<char>> {
    c.remotes@.map_values(|p: (String, KnitRemote)| p.0@)
}

/// The configured sync remotes in priority order: `syncRemotes`, else the
/// legacy `syncRemote`, else a remote named `knithub`, else the sole
/// configured remote.
pub open spec fn configured_names(c: KnitConfig) -> Seq<Seq<char>> {
    let a = unique_names(strings_view(c.sync_remotes@));
    if a.len() > 0 {
        a
    } else {
        let b = match c.sync_remote {
            Some(n) => push_unique_name(Seq::empty(), n@),
            None => Seq::empty(),
        };
        if b.len() > 0 {
            b
        } else if remote_names(c).contains("knithub"@) {
            seq!["knithub"@]
        } else if c.remotes@.len() == 1 {
            seq![c.remotes@[0].0@]
        } else {
            Seq::empty()
        }
    }
}

/// With no sync remote set and exactly one remote configured, that remote
/// is the one sync uses.
pub proof fn lemma_sole_remote_is_used(c: KnitConfig)
    requires
        c.sync_remotes@.len() == 0,
        c.sync_remote is None,
        c.remotes@.len() == 1,
    ensures
        configured_names(c) == seq![c.remotes@[0].0@],
{
    assert(strings_view(c.sync_remotes@) =~= Seq::<Seq<char>>::empty());
    if remote_names(c).contains("knithub"@) {
        let i = choose|i: int| 0 <= i < remote_names(c).len() && remote_names(c)[i] == "knithub"@;
        assert(i == 0);
        assert(remote_names(c)[0] == c.remotes@[0].0@);
    }
}

/// Position of the remote configured under `name`.
pub fn find_remote(config: &KnitConfig, name: &String) -> (r: Option<usize>)
    ensures
        match r {
            Some(i) => i < config.remotes@.len() && config.remotes@[i as int].0@ == name@ && forall|j: int| 0 <= j < i ==> config.remotes@[j].0@ != name@,
            None => !remote_names(*config).contains(name@),
        },
{
    let mut i: usize = 0;
    while i < config.remotes.len()
        invariant
            i <= config.remotes@.len(),
            forall|j: int| 0 <= j < i ==> config.remotes@[j].0@ != name@,
        decreases config.remotes.len() - i,
    {
        if config.remotes[i].0 == *name {
            return Some(i);
        }
        i += 1;
    }
    proof {
        if remote_names(*config).contains(name@) {
            let j = choose|j: int| 0 <= j < remote_names(*config).len() && remote_names(*config)[j] == name@;
            assert(config.remotes@[j].0@ == name@);
        }
    }
    None
}

/// The configured sync remotes in priority order.
pub fn configured_sync_remote_names(config: &KnitConfig) -> (out: Vec<String>)
    ensures
        strings_view(out@) == configured_names(*config),
{
    let mut names = explicit_remote_names(&config.sync_remotes);
    if names.len() > 0 {
        return names;
    }
    proof {
        assert(strings_view(names@) =~= Seq::<Seq<char>>::empty());
    }
    if let Some(n) = &config.sync_remote {
        push_unique_remote_name(&mut names, n.as_str());
    }
    if names.len() > 0 {
        return names;
    }
    let k = string_from_chars(&chars_of("knithub"));
    if find_remote(config, &k).is_some() {
        proof {
            let i = choose|i: int| 0 <= i < config.remotes@.len() && config.remotes@[i].0@ == k@;
            assert(remote_names(*config)[i] == k@);
        }
        names.push(k);
        proof {
            assert(strings_view(names@) =~= seq!["knithub"@]);
        }
        return names;
    }
    if config.remotes.len() == 1 {
        names.push(string_from_chars(&chars_of(config.remotes[0].0.as_str())));
        proof {
            assert(strings_view(names@) =~= seq![config.remotes@[0].0@]);
        }
    }
    names
}

/// The remotes a sync targets: the explicit ones when given, else the
/// configured ones.
pub open spec fn sync_names(c: KnitConfig, overrides: Seq<Seq<char>>) -> Seq<Seq<char>> {
    if overrides.len() == 0 {
        configured_names(c)
    } else {
        unique_names(overrides)
    }
}

pub fn resolve_sync_remote_names(config: &KnitConfig, remote_overrides: &Vec<String>) -> (out: Vec<String>)
    ensures
        strings_view(out@) == sync_names(*config, strings_view(remote_overrides@)),
{
    if remote_overrides.len() == 0 {
        configured_sync_remote_names(config)
    } else {
        explicit_remote_names(remote_overrides)
    }
}

/// Why a sync cannot pick a remote.
#[derive(Debug)]
pub enum SyncError {
    NoSyncRemote,
    NoRemoteNamed { name: String },
    NoRemoteConfigured,
    NoToken,
    NoProjectForPush,
    HttpStatus { status: u16, body: String },
}

impl SyncError {
    pub open spec fn text(&self) -> Seq<char> {
        match self {
            SyncError::NoSyncRemote => "No KnitHub sync remote configured. Run `knit remote add knithub <url>`, `knit config set sync-remote <name>`, or use explicit prune flags instead of --all."@,
            SyncError::NoRemoteNamed { name } => "No KnitHub remote named `"@ + name@ + "`. Run `knit remote add "@
                + name@ + " <url>` first."@,
            SyncError::NoRemoteConfigured => "No KnitHub remote configured. Run `knit remote add --global <name> <url>`, `knit remote add <name> <url>`, or `knit config set sync-remotes <name>[,<name>...]` first."@,
            SyncError::NoToken => "No KnitHub token configured. Set KNITHUB_TOKEN, KNIT_REMOTE_<NAME>_TOKEN, or `knit remote token <name> <token>`."@,
            SyncError::NoProjectForPush => "No project selected. Pass --project or run `knit init <name>`."@,
            SyncError::HttpStatus { status, body } => "KnitHub remote returned HTTP "@ + decimal_seq(*status as nat) + ": "@ + trim_seq(body@),
        }
    }

    pub fn message(&self) -> (out: String)
        ensures
            out@ == self.text(),
    {
        let mut v: Vec<char> = Vec::new();
        match self {
            SyncError::NoSyncRemote => append_str(
                &mut v,
                "No KnitHub sync remote configured. Run `knit remote add knithub <url>`, `knit config set sync-remote <name>`, or use explicit prune flags instead of --all.",
            ),
            SyncError::NoRemoteNamed { name } => {
                append_str(&mut v, "No KnitHub remote named `");
                append_str(&mut v, name.as_str());
                append_str(&mut v, "`. Run `knit remote add ");
                append_str(&mut v, name.as_str());
                append_str(&mut v, " <url>` first.");
            },
            SyncError::NoRemoteConfigured => append_str(
                &mut v,
                "No KnitHub remote configured. Run `knit remote add --global <name> <url>`, `knit remote add <name> <url>`, or `knit config set sync-remotes <name>[,<name>...]` first.",
            ),
            SyncError::NoToken => append_str(
                &mut v,
                "No KnitHub token configured. Set KNITHUB_TOKEN, KNIT_REMOTE_<NAME>_TOKEN, or `knit remote token <name> <token>`.",
            ),
            SyncError::NoProjectForPush => append_str(
                &mut v,
                "No project selected. Pass --project or run `knit init <name>`.",
            ),
            SyncError::HttpStatus { status, body } => {
                append_str(&mut v, "KnitHub remote returned HTTP ");
                push_decimal(&mut v, *status as u64);
                append_str(&mut v, ": ");
                let t = trim_chars(&chars_of(body.as_str()));
                append_chars(&mut v, &t);
            },
        }
        string_from_chars(&v)
    }
}

/// The primary sync remote: the first configured one.
pub fn resolve_sync_remote_name(config: &KnitConfig) -> (r: Result<String, SyncError>)
    ensures
        match r {
            Ok(n) => configured_names(*config).len() > 0 && n@ == configured_names(*config)[0],
            Err(SyncError::NoSyncRemote) => configured_names(*config).len() == 0,
            Err(_) => false,
        },
{
    let names = configured_sync_remote_names(config);
    if names.len() == 0 {
        return Err(SyncError::NoSyncRemote);
    }
    proof {
        assert(strings_view(names@)[0] == names@[0]@);
    }
    Ok(names[0].clone())
}

/// The configured remote named (after slugifying) `name`.
pub fn resolve_remote(config: &KnitConfig, name: &str) -> (r: Result<usize, SyncError>)
    ensures
        match r {
            Ok(i) => i < config.remotes@.len() && config.remotes@[i as int].0@ == slugify_seq(name@)
                && forall|j: int| 0 <= j < i ==> config.remotes@[j].0@ != slugify_seq(name@),
            Err(SyncError::NoRemoteNamed { name: n }) => n@ == slugify_seq(name@) && !remote_names(*config).contains(n@),
            Err(_) => false,
        },
{
    let slug = string_from_chars(&slugify_chars(&chars_of(name)));
    match find_remote(config, &slug) {
        Some(i) => Ok(i),
        None => Err(SyncError::NoRemoteNamed { name: slug }),
    }
}

/// The remotes every sync of the resolved names targets (see `sync_names`).
pub fn resolve_remotes(config: &KnitConfig, remote_overrides: &Vec<String>) -> (r: Result<Vec<String>, SyncError>)
    ensures
        match r {
            Ok(v) => strings_view(v@) == sync_names(*config, strings_view(remote_overrides@)) && v@.len() > 0,
            Err(SyncError::NoRemoteConfigured) => sync_names(*config, strings_view(remote_overrides@)).len() == 0,
            Err(_) => false,
        },
{
    let names = resolve_sync_remote_names(config, remote_overrides);
    if names.len() == 0 {
        proof {
            assert(strings_view(names@).len() == 0);
        }
        return Err(SyncError::NoRemoteConfigured);
    }
    Ok(names)
}

/// The remotes a bundle artifact is pushed to after a git push or a land:
/// none with `--no-remote`, without a workspace config, or when push-sync is
/// off and no remote is named explicitly; otherwise the resolved ones.
pub open spec fn auto_sync_names(config: Option<KnitConfig>, overrides: Seq<Seq<char>>, no_remote: bool) -> Seq<Seq<char>> {
    if no_remote {
        Seq::empty()
    } else {
        match config {
            None => Seq::empty(),
            Some(c) => if !c.push_sync && overrides.len() == 0 {
                Seq::empty()
            } else {
                sync_names(c, overrides)
            },
        }
    }
}

fn auto_sync(config: Option<&KnitConfig>, remote_overrides: &Vec<String>, no_remote: bool) -> (out: Vec<String>)
    ensures
        strings_view(out@) == auto_sync_names(match config {
            Some(c) => Some(*c),
            None => None,
        }, strings_view(remote_overrides@), no_remote),
{
    if no_remote {
        let v: Vec<String> = Vec::new();
        proof {
            assert(strings_view(v@) =~= Seq::<Seq<char>>::empty());
        }
        return v;
    }
    match config {
        None => {
            let v: Vec<String> = Vec::new();
            proof {
                assert(strings_view(v@) =~= Seq::<Seq<char>>::empty());
            }
            v
        },
        Some(c) => {
            if !c.push_sync && remote_overrides.len() == 0 {
                let v: Vec<String> = Vec::new();
                proof {
                    assert(strings_view(v@) =~= Seq::<Seq<char>>::empty());
                }
                return v;
            }
            resolve_sync_remote_names(c, remote_overrides)
        },
    }
}

/// The remotes to push the bundle artifact to after a git push (an empty
/// list means no sync). `config` is the effective workspace config, if one
/// could be loaded.
pub fn maybe_sync_bundle_to_remote(config: Option<&KnitConfig>, remote_overrides: &Vec<String>, no_remote: bool) -> (out: Vec<String>)
    ensures
        strings_view(out@) == auto_sync_names(match config {
            Some(c) => Some(*c),
            None => None,
        }, strings_view(remote_overrides@), no_remote),
{
    auto_sync(config, remote_overrides, no_remote)
}

/// The remotes to push the bundle artifact to when push-sync is enabled
/// (an empty list means no sync). `config` is the effective workspace
/// config, if one could be loaded.
pub fn sync_bundle_to_remote_if_enabled(config: Option<&KnitConfig>, remote_overrides: &Vec<String>, no_remote: bool) -> (out: Vec<String>)
    ensures
        strings_view(out@) == auto_sync_names(match config {
            Some(c) => Some(*c),
            None => None,
        }, strings_view(remote_overrides@), no_remote),
{
    auto_sync(config, remote_overrides, no_remote)
}

/// The remotes to push the active bundle to when push-sync is enabled,
/// given the config of the active bundle's workspace.
pub fn sync_active_bundle_to_remote_if_enabled(config: &KnitConfig, remote_overrides: &Vec<String>, no_remote: bool) -> (out: Vec<String>)
    ensures
        strings_view(out@) == auto_sync_names(Some(*config), strings_view(remote_overrides@), no_remote),
{
    auto_sync(Some(config), remote_overrides, no_remote)
}

pub open spec fn failure_report(prefix: Seq<char>, failures: Seq<Seq<char>>, unit: Seq<char>) -> Seq<char> {
    prefix + decimal_seq(failures.len()) + unit + join_seq(failures, "\n"@)
}

/// The error reported when syncing to some remotes failed, if any did.
pub fn sync_failure_message(failures: &Vec<String>) -> (r: Option<String>)
    ensures
        match r {
            Some(m) => failures@.len() > 0 && m@ == failure_report("Sync failed for "@, strings_view(failures@), " remote(s):\n"@),
            None => failures@.len() == 0,
        },
{
    if failures.len() == 0 {
        return None;
    }
    let mut v: Vec<char> = Vec::new();
    append_str(&mut v, "Sync failed for ");
    push_decimal(&mut v, failures.len() as u64);
    append_str(&mut v, " remote(s):\n");
    let joined = join_strings(failures, "\n");
    append_str(&mut v, joined.as_str());
    Some(string_from_chars(&v))
}

/// The outcome of a `knit sync push`/`pull` over all remotes.
pub fn finish(failures: &Vec<String>, verb: &str) -> (r: Result<(), String>)
    ensures
        match r {
            Ok(()) => failures@.len() == 0,
            Err(m) => failures@.len() > 0 && m@ == failure_report("KnitHub "@ + verb@ + " failed for "@, strings_view(failures@), " target(s):\n"@),
        },
{
    if failures.len() == 0 {
        return Ok(());
    }
    let mut v: Vec<char> = Vec::new();
    append_str(&mut v, "KnitHub ");
    append_str(&mut v, verb);
    append_str(&mut v, " failed for ");
    push_decimal(&mut v, failures.len() as u64);
    append_str(&mut v, " target(s):\n");
    let joined = join_strings(failures, "\n");
    append_str(&mut v, joined.as_str());
    Err(string_from_chars(&v))
}

/// Which artifact families a `knit sync push`/`pull` moves.
#[derive(Debug, Clone, Copy, PartialEq, Eq, Structural)]
pub struct SyncTargets {
    pub bundles: bool,
    pub history: bool,
    pub views: bool,
    pub architecture: bool,
    pub kg: bool,
}

impl SyncTargets {
    /// The selection from the CLI flags: `--all`, or no flag at all, means
    /// every family.
    pub fn resolve(bundles: bool, history: bool, views: bool, architecture: bool, kg: bool, all: bool) -> (t: SyncTargets)
        ensures
            (all || !(bundles || history || views || architecture || kg)) ==> t == (SyncTargets { bundles: true, history: true, views: true, architecture: true, kg: true }),
            !(all || !(bundles || history || views || architecture || kg)) ==> t == (SyncTargets { bundles, history, views, architecture, kg }),
    {
        if all || !(bundles || history || views || architecture || kg) {
            SyncTargets { bundles: true, history: true, views: true, architecture: true, kg: true }
        } else {
            SyncTargets { bundles, history, views, architecture, kg }
        }
    }
}

/// `owner/slug` split into slugified parts; a bare identifier, or one with
/// an empty side, is a slug alone.
pub open spec fn split_identifier_spec(id: Seq<char>) -> (Option<Seq<char>>, Seq<char>) {
    if id.contains('/') {
        let i = choose|i: int| 0 <= i < id.len() && id[i] == '/' && forall|j: int| 0 <= j < i ==> id[j] != '/';
        let owner = id.take(i);
        let slug = id.skip(i + 1);
        if trim_seq(owner).len() > 0 && trim_seq(slug).len() > 0 {
            (Some(slugify_seq(owner)), slugify_seq(slug))
        } else {
            (None, slugify_seq(id))
        }
    } else {
        (None, slugify_seq(id))
    }
}

/// Splits an `owner/slug` clone reference into slugified parts.
pub fn split_project_identifier(identifier: &str) -> (r: (Option<String>, String))
    ensures
        ({
            let s = split_identifier_spec(identifier@);
            &&& (match r.0 {
                Some(o) => s.0 == Some(o@),
                None => s.0 is None,
            })
            &&& r.1@ == s.1
        }),
{
    let v = chars_of(identifier);
    match split_once_char(&v, '/') {
        Some((a, b)) => {
            proof {
                let c = choose|c: int| 0 <= c < v@.len() && v@[c] == '/' && forall|j: int| 0 <= j < c ==> v@[j] != '/';
                let w = choose|w: int| 0 <= w < v@.len() && v@[w] == '/' && (forall|j: int| 0 <= j < w ==> v@[j] != '/') && a@ == v@.take(w) && b@ == v@.skip(w + 1);
                if c < w {
                    assert(v@[c] != '/');
                } else if w < c {
                    assert(v@[w] != '/');
                }
            }
            let ta = trim_chars(&a);
            let tb = trim_chars(&b);
            if ta.len() > 0 && tb.len() > 0 {
                (Some(string_from_chars(&slugify_chars(&a))), string_from_chars(&slugify_chars(&b)))
            } else {
                (None, string_from_chars(&slugify_chars(&v)))
            }
        },
        None => (None, string_from_chars(&slugify_chars(&v))),
    }
}

/// A base URL trimmed and without trailing slashes.
pub open spec fn strip_slashes(s: Seq<char>) -> Seq<char>
    decreases s.len(),
{
    if s.len() > 0 && s.last() == '/' {
        strip_slashes(s.drop_last())
    } else {
        s
    }
}

pub fn normalize_base_url(url: &str) -> (out: String)
    ensures
        out@ == strip_slashes(trim_seq(url@)),
{
    let v = trim_chars(&chars_of(url));
    let mut end = v.len();
    proof {
        assert(v@.take(v@.len() as int) =~= v@);
    }
    while end > 0 && v[end - 1] == '/'
        invariant
            end <= v@.len(),
            strip_slashes(v@) == strip_slashes(v@.take(end as int)),
        decreases end,
    {
        proof {
            assert(v@.take(end as int).drop_last() =~= v@.take(end - 1));
        }
        end -= 1;
    }
    let out = slice_chars(&v, 0, end);
    proof {
        assert(out@ =~= v@.take(end as int));
    }
    string_from_chars(&out)
}

/// The API root of a remote URL: the normalized URL ending in `/api/v1`.
pub open spec fn api_base_spec(url: Seq<char>) -> Seq<char> {
    let n = strip_slashes(trim_seq(url));
    if ends_with_seq(n, "/api/v1"@) {
        n
    } else {
        n + "/api/v1"@
    }
}

pub fn api_base_url(url: &str) -> (out: String)
    ensures
        out@ == api_base_spec(url@),
{
    let n = normalize_base_url(url);
    let nv = chars_of(n.as_str());
    let suffix = chars_of("/api/v1");
    if ends_with_chars(&nv, &suffix) {
        n
    } else {
        let mut v = nv;
        append_chars(&mut v, &suffix);
        string_from_chars(&v)
    }
}

/// One artifact family moved to or from a remote.
#[derive(Debug, Clone, Copy, PartialEq, Eq, Structural)]
pub enum SyncFamily {
    Bundle,
    History,
    Views,
    Architecture,
    Kg,
}

impl SyncFamily {
    pub open spec fn name_spec(self) -> Seq<char> {
        match self {
            SyncFamily::Bundle => "bundle"@,
            SyncFamily::History => "history"@,
            SyncFamily::Views => "views"@,
            SyncFamily::Architecture => "architecture"@,
            SyncFamily::Kg => "kg"@,
        }
    }

    pub fn as_str(self) -> (s: &'static str)
        ensures
            s@ == self.name_spec(),
    {
        match self {
            SyncFamily::Bundle => "bundle",
            SyncFamily::History => "history",
            SyncFamily::Views => "views",
            SyncFamily::Architecture => "architecture",
            SyncFamily::Kg => "kg",
        }
    }
}

pub open spec fn opt_family(b: bool, f: SyncFamily) -> Seq<SyncFamily> {
    if b {
        seq![f]
    } else {
        Seq::empty()
    }
}

/// What a push does on each remote, in order: the bundle (which carries the
/// project's history along), else the history alone; then views, the
/// architecture artifact and the knowledge graph.
pub open spec fn push_families_spec(t: SyncTargets) -> Seq<SyncFamily> {
    (if t.bundles {
        seq![SyncFamily::Bundle]
    } else {
        opt_family(t.history, SyncFamily::History)
    }) + opt_family(t.views, SyncFamily::Views) + opt_family(t.architecture, SyncFamily::Architecture) + opt_family(
        t.kg,
        SyncFamily::Kg,
    )
}

/// What a pull does on each remote, in order: bundle, history, views.
pub open spec fn pull_families_spec(t: SyncTargets) -> Seq<SyncFamily> {
    opt_family(t.bundles, SyncFamily::Bundle) + opt_family(t.history, SyncFamily::History) + opt_family(
        t.views,
        SyncFamily::Views,
    )
}

pub fn push_families(t: SyncTargets) -> (out: Vec<SyncFamily>)
    ensures
        out@ == push_families_spec(t),
{
    let mut out: Vec<SyncFamily> = Vec::new();
    if t.bundles {
        out.push(SyncFamily::Bundle);
    } else if t.history {
        out.push(SyncFamily::History);
    }
    if t.views {
        out.push(SyncFamily::Views);
    }
    if t.architecture {
        out.push(SyncFamily::Architecture);
    }
    if t.kg {
        out.push(SyncFamily::Kg);
    }
    proof {
        assert(out@ =~= push_families_spec(t));
    }
    out
}

pub fn pull_families(t: SyncTargets) -> (out: Vec<SyncFamily>)
    ensures
        out@ == pull_families_spec(t),
{
    let mut out: Vec<SyncFamily> = Vec::new();
    if t.bundles {
        out.push(SyncFamily::Bundle);
    }
    if t.history {
        out.push(SyncFamily::History);
    }
    if t.views {
        out.push(SyncFamily::Views);
    }
    proof {
        assert(out@ =~= pull_families_spec(t));
    }
    out
}

/// The failure recorded when one family fails on one remote.
pub fn family_failure(remote: &str, family: SyncFamily, error: &str) -> (m: String)
    ensures
        m@ == remote@ + " "@ + family.name_spec() + ": "@ + error@,
{
    let mut v = chars_of(remote);
    append_str(&mut v, " ");
    append_str(&mut v, family.as_str());
    append_str(&mut v, ": ");
    append_str(&mut v, error);
    string_from_chars(&v)
}

} // verus!
