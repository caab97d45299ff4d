//! The KnitHub remote as the library sees it: the bundles a project export
//! lists, the requests sent for one bundle, the token a request carries, and
//! how a response status is judged.
use vstd::prelude::*;

use crate::model::ChangeGroup;
use crate::push_force::PushForce;
use crate::sync::{resolve_remote, resolve_sync_remote_name, configured_names, remote_names, KnitConfig, KnitRemote, SyncError, split_identifier_spec, split_project_identifier};
use crate::text::{
    append_str, chars_of, is_ascii_alnum, is_ascii_alnum_exec, is_blank, slugify, slugify_seq,
    str_eq, string_from_chars, trim_seq, upper_char, upper_char_exec,
};

verus! {

/// A bundle as a project export lists it, with its current artifact
/// payload when it decoded as a Knit bundle.
#[derive(Debug, Clone)]
pub struct RemoteBundle {
    pub id: String,
    pub slug: String,
    pub lifecycle_state: String,
    pub payload: Option<ChangeGroup>,
}

/// Outcome of pulling a single bundle's recorded state from the remote.
#[derive(Debug, Clone)]
pub enum RemoteBundleOutcome {
    /// The artifact was applied; carries its hash.
    Pulled(String),
    /// Diverged ledgers were union-merged; carries the remote artifact hash.
    Merged(String),
    /// The artifact was current but checkouts were refreshed; carries a summary.
    Refreshed(String),
    /// Nothing to apply; carries the reason.
    Skipped(String),
}

/// A bundle as it exists on the sync remote, with its decoded payload.
#[derive(Debug, Clone)]
pub struct RemoteBundleRecord {
    pub remote_id: String,
    pub slug: String,
    pub lifecycle_state: String,
    pub payload: Option<ChangeGroup>,
}

/// A remote bundle named `bundle_id` that has not been deleted.
pub open spec fn is_live_bundle(b: RemoteBundle, bundle_id: Seq<char>) -> bool {
    b.slug@ == bundle_id && b.lifecycle_state@ != "deleted"@
}

/// The lifecycle state of the first non-deleted remote bundle whose slug is
/// `bundle_id`, if the export lists one.
/// The remote asked whether a bundle slug is taken: the first configured
/// sync remote. With none configured no remote is asked and the lifecycle
/// is unknown.
pub fn lifecycle_remote(config: &KnitConfig) -> (r: Option<String>)
    ensures
        configured_names(*config).len() == 0 <==> r is None,
        r matches Some(n) ==> n@ == configured_names(*config)[0],
{
    let names = crate::sync::configured_sync_remote_names(config);
    if names.len() == 0 {
        None
    } else {
        proof {
            assert(crate::text::strings_view(names@)[0] == names@[0]@);
        }
        Some(string_from_chars(&chars_of(names[0].as_str())))
    }
}

pub fn remote_bundle_lifecycle(bundles: &Vec<RemoteBundle>, bundle_id: &str) -> (r: Option<String>)
    ensures
        match r {
            Some(state) => exists|i: int|
                0 <= i < bundles@.len() && is_live_bundle(#[trigger] bundles@[i], bundle_id@) && (forall|j: int|
                    0 <= j < i ==> !is_live_bundle(bundles@[j], bundle_id@)) && state@ == bundles@[i].lifecycle_state@,
            None => forall|i: int| 0 <= i < bundles@.len() ==> !is_live_bundle(#[trigger] bundles@[i], bundle_id@),
        },
{
    let mut i: usize = 0;
    while i < bundles.len()
        invariant
            i <= bundles@.len(),
            forall|j: int| 0 <= j < i ==> !is_live_bundle(#[trigger] bundles@[j], bundle_id@),
        decreases bundles.len() - i,
    {
        let b = &bundles[i];
        if str_eq(b.slug.as_str(), bundle_id) && !str_eq(b.lifecycle_state.as_str(), "deleted") {
            let state = b.lifecycle_state.clone();
            proof {
                assert(is_live_bundle(bundles@[i as int], bundle_id@));
            }
            return Some(state);
        }
        i += 1;
    }
    None
}

/// `rec` carries the fields of the export entry `b`.
pub open spec fn record_of(rec: RemoteBundleRecord, b: RemoteBundle) -> bool {
    &&& rec.remote_id@ == b.id@
    &&& rec.slug@ == b.slug@
    &&& rec.lifecycle_state@ == b.lifecycle_state@
    &&& rec.payload == b.payload
}

/// The bundle records of a project export, one per listed bundle, in order.
pub fn list_remote_bundles(bundles: Vec<RemoteBundle>) -> (out: Vec<RemoteBundleRecord>)
    ensures
        out@.len() == bundles@.len(),
        forall|i: int| 0 <= i < bundles@.len() ==> record_of(#[trigger] out@[i], bundles@[i]),
{
    let ghost src = bundles@;
    let mut out: Vec<RemoteBundleRecord> = Vec::new();
    for b in it: bundles
        invariant
            it.seq() == src,
            out@.len() == it.index(),
            forall|i: int| 0 <= i < it.index() ==> record_of(#[trigger] out@[i], src[i]),
    {
        let RemoteBundle { id, slug, lifecycle_state, payload } = b;
        out.push(RemoteBundleRecord { remote_id: id, slug, lifecycle_state, payload });
    }
    out
}

/// A request to send to a configured remote: which remote (its name and its
/// position in the config), the HTTP method and the API path.
#[derive(Debug, Clone)]
pub struct RemoteRequest {
    pub remote_name: String,
    pub remote: usize,
    pub method: String,
    pub path: String,
}

/// The request is sent to the primary sync remote of `config`, which is
/// configured.
pub open spec fn to_sync_remote(config: KnitConfig, q: RemoteRequest) -> bool {
    &&& configured_names(config).len() > 0
    &&& q.remote_name@ == configured_names(config)[0]
    &&& q.remote < config.remotes@.len()
    &&& config.remotes@[q.remote as int].0@ == slugify_seq(q.remote_name@)
}

/// No remote request can be made: no sync remote, or the primary one is not
/// configured under its name.
pub open spec fn sync_remote_error(config: KnitConfig, e: SyncError) -> bool {
    match e {
        SyncError::NoSyncRemote => configured_names(config).len() == 0,
        SyncError::NoRemoteNamed { name } => configured_names(config).len() > 0
            && name@ == slugify_seq(configured_names(config)[0])
            && !remote_names(config).contains(name@),
        _ => false,
    }
}

fn sync_remote_request(config: &KnitConfig, method: &str, path: String) -> (r: Result<RemoteRequest, SyncError>)
    ensures
        match r {
            Ok(q) => to_sync_remote(*config, q) && q.method@ == method@ && q.path@ == path@,
            Err(e) => sync_remote_error(*config, e),
        },
{
    let remote_name = match resolve_sync_remote_name(config) {
        Ok(n) => n,
        Err(e) => return Err(e),
    };
    let remote = match resolve_remote(config, remote_name.as_str()) {
        Ok(i) => i,
        Err(e) => return Err(e),
    };
    let m = string_from_chars(&chars_of(method));
    Ok(RemoteRequest { remote_name, remote, method: m, path })
}

/// The request that archives the remote bundle record `remote_id` on the
/// primary sync remote (the response carries the bundle's slug).
pub fn archive_remote_bundle_by_id(config: &KnitConfig, remote_id: &str) -> (r: Result<RemoteRequest, SyncError>)
    ensures
        match r {
            Ok(q) => to_sync_remote(*config, q) && q.method@ == "PATCH"@ && q.path@ == "/bundles/"@ + remote_id@ + "/archive"@,
            Err(e) => sync_remote_error(*config, e),
        },
{
    let mut v: Vec<char> = Vec::new();
    append_str(&mut v, "/bundles/");
    append_str(&mut v, remote_id);
    append_str(&mut v, "/archive");
    sync_remote_request(config, "PATCH", string_from_chars(&v))
}

/// The request that deletes the remote bundle record `remote_id` on the
/// primary sync remote (the response carries the bundle's slug).
pub fn delete_remote_bundle_by_id(config: &KnitConfig, remote_id: &str) -> (r: Result<RemoteRequest, SyncError>)
    ensures
        match r {
            Ok(q) => to_sync_remote(*config, q) && q.method@ == "DELETE"@ && q.path@ == "/bundles/"@ + remote_id@,
            Err(e) => sync_remote_error(*config, e),
        },
{
    let mut v: Vec<char> = Vec::new();
    append_str(&mut v, "/bundles/");
    append_str(&mut v, remote_id);
    sync_remote_request(config, "DELETE", string_from_chars(&v))
}

/// API path of a project's export: by slug, scoped to an owner when the
/// identifier names one.
pub open spec fn export_path_spec(identifier: Seq<char>) -> Seq<char> {
    let (owner, slug) = split_identifier_spec(identifier);
    match owner {
        Some(o) => "/projects/"@ + slug + "/export?owner="@ + o,
        None => "/projects/"@ + slug + "/export"@,
    }
}

pub fn project_export_path(identifier: &str) -> (out: String)
    ensures
        out@ == export_path_spec(identifier@),
{
    let (owner, slug) = split_project_identifier(identifier);
    let mut v: Vec<char> = Vec::new();
    append_str(&mut v, "/projects/");
    append_str(&mut v, slug.as_str());
    match owner {
        Some(o) => {
            append_str(&mut v, "/export?owner=");
            append_str(&mut v, o.as_str());
        },
        None => {
            append_str(&mut v, "/export");
        },
    }
    string_from_chars(&v)
}

/// One character of a token variable name: ASCII letters and digits
/// upper-cased, anything else `_`.
pub open spec fn env_key_char(c: char) -> char {
    if is_ascii_alnum(c) {
        upper_char(c)
    } else {
        '_'
    }
}

/// Name of the environment variable holding the token of remote `name`
/// (after slugifying): `KNIT_REMOTE_<NAME>_TOKEN`.
pub open spec fn token_env_spec(name: Seq<char>) -> Seq<char> {
    "KNIT_REMOTE_"@ + slugify_seq(name).map_values(|c: char| env_key_char(c)) + "_TOKEN"@
}

pub fn remote_token_env_name(name: &str) -> (out: String)
    ensures
        out@ == token_env_spec(name@),
{
    let slug = chars_of(slugify(name).as_str());
    let mut key: Vec<char> = Vec::new();
    let mut i: usize = 0;
    while i < slug.len()
        invariant
            i <= slug@.len(),
            key@ == slug@.take(i as int).map_values(|c: char| env_key_char(c)),
        decreases slug.len() - i,
    {
        let c = slug[i];
        let k = if is_ascii_alnum_exec(c) {
            upper_char_exec(c)
        } else {
            '_'
        };
        key.push(k);
        proof {
            assert(slug@.take(i + 1) =~= slug@.take(i as int).push(c));
            assert(slug@.take(i + 1).map_values(|c: char| env_key_char(c)) =~= slug@.take(i as int).map_values(|c: char| env_key_char(c)).push(k));
        }
        i += 1;
    }
    proof {
        assert(slug@.take(slug@.len() as int) =~= slug@);
    }
    let mut v: Vec<char> = Vec::new();
    append_str(&mut v, "KNIT_REMOTE_");
    let ghost before = v@;
    let mut j: usize = 0;
    while j < key.len()
        invariant
            j <= key@.len(),
            v@ == before + key@.take(j as int),
        decreases key.len() - j,
    {
        v.push(key[j]);
        proof {
            assert(key@.take(j + 1) =~= key@.take(j as int).push(key@[j as int]));
        }
        j += 1;
    }
    proof {
        assert(key@.take(key@.len() as int) =~= key@);
    }
    append_str(&mut v, "_TOKEN");
    string_from_chars(&v)
}

/// The token found in the environment: the remote's own variable when it
/// is set and not blank, else `KNITHUB_TOKEN` when that is not blank.
pub open spec fn env_token_spec(own: Option<Seq<char>>, shared: Option<Seq<char>>) -> Option<Seq<char>> {
    match own {
        Some(t) if trim_seq(t).len() > 0 => Some(t),
        _ => match shared {
            Some(t) if trim_seq(t).len() > 0 => Some(t),
            _ => None,
        },
    }
}

pub open spec fn opt_chars(o: Option<String>) -> Option<Seq<char>> {
    match o {
        Some(s) => Some(s@),
        None => None,
    }
}

/// The token a request to `remote` carries, given the values of the
/// remote's token variable (`own`) and of `KNITHUB_TOKEN` (`shared`): the
/// environment's token, else the token stored with the remote.
pub fn resolve_token(own: Option<String>, shared: Option<String>, remote: &KnitRemote) -> (r: Result<String, SyncError>)
    ensures
        match env_token_spec(opt_chars(own), opt_chars(shared)) {
            Some(t) => r matches Ok(s) && s@ == t,
            None => match remote.token {
                Some(t) => r matches Ok(s) && s@ == t@,
                None => r matches Err(SyncError::NoToken),
            },
        },
{
    if let Some(t) = own {
        if !is_blank(t.as_str()) {
            return Ok(t);
        }
    }
    if let Some(t) = shared {
        if !is_blank(t.as_str()) {
            return Ok(t);
        }
    }
    match &remote.token {
        Some(t) => Ok(t.clone()),
        None => Err(SyncError::NoToken),
    }
}

/// Where a bundle push goes: the project it is filed under and the remote.
#[derive(Debug, Clone)]
pub struct BundlePushTarget {
    pub project_id: String,
    pub remote: usize,
}

/// The project a bundle is pushed under: the slug of `--project`, else the
/// bundle's own project, else the workspace's active project.
pub open spec fn push_project_spec(project: Option<Seq<char>>, bundle: ChangeGroup, config: KnitConfig) -> Option<Seq<char>> {
    match project {
        Some(p) => Some(slugify_seq(p)),
        None => match bundle.project_id {
            Some(p) => Some(p@),
            None => opt_chars(config.active_project),
        },
    }
}

/// Where pushing `bundle` to remote `remote_name` goes: fails when no
/// project is selected, else when the remote is not configured.
pub fn push_bundle_to_remote(config: &KnitConfig, bundle: &ChangeGroup, remote_name: &str, project: Option<&str>) -> (r: Result<BundlePushTarget, SyncError>)
    ensures
        ({
            let p = push_project_spec(match project {
                Some(s) => Some(s@),
                None => None,
            }, *bundle, *config);
            match r {
                Ok(t) => p == Some(t.project_id@) && t.remote < config.remotes@.len()
                    && config.remotes@[t.remote as int].0@ == slugify_seq(remote_name@)
                    && forall|j: int| 0 <= j < t.remote ==> config.remotes@[j].0@ != slugify_seq(remote_name@),
                Err(SyncError::NoProjectForPush) => p is None,
                Err(SyncError::NoRemoteNamed { name }) => p is Some && name@ == slugify_seq(remote_name@)
                    && !remote_names(*config).contains(name@),
                Err(_) => false,
            }
        }),
{
    let project_id = match project {
        Some(p) => slugify(p),
        None => match &bundle.project_id {
            Some(p) => p.clone(),
            None => match &config.active_project {
                Some(p) => p.clone(),
                None => return Err(SyncError::NoProjectForPush),
            },
        },
    };
    match resolve_remote(config, remote_name) {
        Ok(i) => Ok(BundlePushTarget { project_id, remote: i }),
        Err(e) => Err(e),
    }
}

/// The verb reported after a bundle push.
pub fn push_label(force: PushForce) -> (s: &'static str)
    ensures
        s@ == (if force != PushForce::No { "pushed (forced)"@ } else { "pushed"@ }),
{
    if force.is_force() {
        "pushed (forced)"
    } else {
        "pushed"
    }
}

/// A response is accepted when its status is 2xx; otherwise the error
/// carries the status and the trimmed body.
pub fn check_response_status(status: u16, body: &str) -> (r: Result<(), SyncError>)
    ensures
        (200 <= status < 300) ==> r is Ok,
        !(200 <= status < 300) ==> (r matches Err(SyncError::HttpStatus { status: s, body: b }) && s == status && b@ == body@),
{
    if 200 <= status && status < 300 {
        Ok(())
    } else {
        Err(SyncError::HttpStatus { status, body: string_from_chars(&chars_of(body)) })
    }
}

} // verus!
