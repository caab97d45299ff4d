//! The repository records a project keeps on the sync remote: the forge
//! identity pushed for each repo, and which records a push prunes.
use vstd::prelude::*;

use crate::text::{
    append_chars, append_str, chars_of, contains_seq, decimal_seq, find_chars, matches_at, push_decimal,
    slice_chars, split_chars, split_on, string_from_chars, strings_view, trim_chars, trim_seq, views_of,
};

verus! {

/// Where a repository lives, as the sync remote records it.
pub struct RepoIdentity {
    pub provider: String,
    pub owner: Option<String>,
    pub name: String,
    pub full_name: String,
}

/// `s` ends in `.git`.
pub open spec fn has_git_suffix(s: Seq<char>) -> bool {
    &&& s.len() >= 4
    &&& s[s.len() - 4] == '.'
    &&& s[s.len() - 3] == 'g'
    &&& s[s.len() - 2] == 'i'
    &&& s[s.len() - 1] == 't'
}

/// `s` with every trailing `.git` removed.
pub open spec fn strip_git_suffixes(s: Seq<char>) -> Seq<char>
    decreases s.len(),
{
    if has_git_suffix(s) {
        strip_git_suffixes(s.take(s.len() - 4))
    } else {
        s
    }
}

/// `s` with every leading `:` and `/` removed.
pub open spec fn strip_leading_separators(s: Seq<char>) -> Seq<char>
    decreases s.len(),
{
    if s.len() > 0 && (s[0] == ':' || s[0] == '/') {
        strip_leading_separators(s.skip(1))
    } else {
        s
    }
}

/// The host name that marks a GitHub remote.
pub open spec fn forge_marker() -> Seq<char> {
    seq!['g', 'i', 't', 'h', 'u', 'b', '.', 'c', 'o', 'm']
}

/// Index of the first occurrence of `n` in `h` (meaningful when there is one).
pub open spec fn first_match(h: Seq<char>, n: Seq<char>) -> int {
    choose|i: int| matches_at(h, n, i) && forall|j: int| 0 <= j < i ==> !matches_at(h, n, j)
}

/// Owner and name of a GitHub remote: the first two `/`-separated parts
/// after the first `github.com`, both non-empty; none for any other remote.
pub open spec fn github_owner_name(remote: Seq<char>) -> Option<(Seq<char>, Seq<char>)> {
    let r = strip_git_suffixes(trim_seq(remote));
    let m = forge_marker();
    if contains_seq(r, m) {
        let parts = split_on(strip_leading_separators(r.skip(first_match(r, m) + m.len())), '/');
        if parts.len() >= 2 && parts[0].len() > 0 && parts[1].len() > 0 {
            Some((parts[0], parts[1]))
        } else {
            None
        }
    } else {
        None
    }
}

/// The identity recorded for a repo, given its remote's owner and name when
/// it is on GitHub.
pub open spec fn identity_holds(r: RepoIdentity, repo_id: Seq<char>, forge: Option<(Seq<char>, Seq<char>)>) -> bool {
    match forge {
        Some((o, n)) => {
            &&& r.provider@ == seq!['g', 'i', 't', 'h', 'u', 'b']
            &&& r.owner matches Some(w) && w@ == o
            &&& r.name@ == n
            &&& r.full_name@ == o.push('/') + n
        },
        None => {
            &&& r.provider@ == seq!['g', 'i', 't']
            &&& r.owner is None
            &&& r.name@ == repo_id
            &&& r.full_name@ == repo_id
        },
    }
}

proof fn lemma_first_match(h: Seq<char>, n: Seq<char>, i: int)
    requires
        matches_at(h, n, i),
        forall|j: int| 0 <= j < i ==> !matches_at(h, n, j),
    ensures
        first_match(h, n) == i,
{
    let f = first_match(h, n);
    assert(matches_at(h, n, f) && forall|j: int| 0 <= j < f ==> !matches_at(h, n, j));
    if f < i {
        assert(!matches_at(h, n, f));
    } else if i < f {
        assert(!matches_at(h, n, i));
    }
}

fn strip_git_suffixes_exec(v: &Vec<char>) -> (out: Vec<char>)
    ensures
        out@ == strip_git_suffixes(v@),
{
    let mut n: usize = v.len();
    proof {
        assert(v@.take(n as int) =~= v@);
    }
    while n >= 4 && v[n - 4] == '.' && v[n - 3] == 'g' && v[n - 2] == 'i' && v[n - 1] == 't'
        invariant
            n <= v@.len(),
            strip_git_suffixes(v@.take(n as int)) == strip_git_suffixes(v@),
        decreases n,
    {
        proof {
            let t = v@.take(n as int);
            assert(has_git_suffix(t));
            assert(t.take(t.len() - 4) =~= v@.take(n - 4));
        }
        n -= 4;
    }
    proof {
        assert(!has_git_suffix(v@.take(n as int)));
    }
    let out = slice_chars(v, 0, n);
    proof {
        assert(out@ =~= v@.take(n as int));
    }
    out
}

fn strip_leading_separators_exec(v: &Vec<char>) -> (out: Vec<char>)
    ensures
        out@ == strip_leading_separators(v@),
{
    let mut i: usize = 0;
    proof {
        assert(v@.skip(0) =~= v@);
    }
    while i < v.len() && (v[i] == ':' || v[i] == '/')
        invariant
            i <= v@.len(),
            strip_leading_separators(v@.skip(i as int)) == strip_leading_separators(v@),
        decreases v.len() - i,
    {
        proof {
            assert(v@.skip(i as int).skip(1) =~= v@.skip(i + 1));
        }
        i += 1;
    }
    let out = slice_chars(v, i, v.len());
    proof {
        assert(out@ =~= v@.skip(i as int));
    }
    out
}

fn literal(s: &str) -> (out: String)
    ensures
        out@ == s@,
{
    string_from_chars(&chars_of(s))
}

/// The identity of a repo that is not on GitHub: its own id, under `git`.
pub fn fallback_repo_identity(repo_id: &str) -> (r: RepoIdentity)
    ensures
        identity_holds(r, repo_id@, None),
{
    let provider = literal("git");
    proof {
        reveal_strlit("git");
        assert(provider@ =~= seq!['g', 'i', 't']);
    }
    RepoIdentity { provider, owner: None, name: literal(repo_id), full_name: literal(repo_id) }
}

/// The identity pushed for a repo: owner and name parsed from a GitHub
/// remote, else the fallback.
pub fn repo_identity(repo_id: &str, remote: Option<&str>) -> (r: RepoIdentity)
    ensures
        identity_holds(
            r,
            repo_id@,
            match remote {
                Some(x) => github_owner_name(x@),
                None => None,
            },
        ),
{
    let remote = match remote {
        Some(x) => x,
        None => return fallback_repo_identity(repo_id),
    };
    let trimmed = trim_chars(&chars_of(remote));
    let s = strip_git_suffixes_exec(&trimmed);
    let marker = chars_of("github.com");
    proof {
        reveal_strlit("github.com");
        assert(marker@ =~= forge_marker());
    }
    let i = match find_chars(&s, &marker) {
        Some(i) => i,
        None => return fallback_repo_identity(repo_id),
    };
    proof {
        lemma_first_match(s@, marker@, i as int);
        assert(contains_seq(s@, marker@));
    }
    let rest = slice_chars(&s, i + marker.len(), s.len());
    proof {
        assert(rest@ =~= s@.skip(i + marker@.len()));
    }
    let suffix = strip_leading_separators_exec(&rest);
    let parts = split_chars(&suffix, '/');
    proof {
        assert(views_of(parts@).len() == parts@.len());
    }
    if parts.len() < 2 || parts[0].len() == 0 || parts[1].len() == 0 {
        proof {
            if parts@.len() >= 2 {
                assert(views_of(parts@)[0] == parts@[0]@);
                assert(views_of(parts@)[1] == parts@[1]@);
            }
        }
        return fallback_repo_identity(repo_id);
    }
    proof {
        assert(views_of(parts@)[0] == parts@[0]@);
        assert(views_of(parts@)[1] == parts@[1]@);
    }
    let mut full: Vec<char> = Vec::new();
    append_chars(&mut full, &parts[0]);
    full.push('/');
    append_chars(&mut full, &parts[1]);
    let provider = literal("github");
    proof {
        reveal_strlit("github");
        assert(provider@ =~= seq!['g', 'i', 't', 'h', 'u', 'b']);
        assert(full@ =~= parts@[0]@.push('/') + parts@[1]@);
    }
    RepoIdentity {
        provider,
        owner: Some(string_from_chars(&parts[0])),
        name: string_from_chars(&parts[1]),
        full_name: string_from_chars(&full),
    }
}

/// A repository record as the sync remote lists it. The local id may stand
/// top-level, or as the string `localId` of its metadata.
pub struct RemoteRepositoryRecord {
    pub id: String,
    pub local_id: Option<String>,
    pub metadata_local_id: Option<String>,
    pub name: Option<String>,
}

pub open spec fn opt_view(o: Option<String>) -> Option<Seq<char>> {
    match o {
        Some(s) => Some(s@),
        None => None,
    }
}

/// The local id of a record: top-level, else from metadata, else its name.
pub open spec fn record_local_id(r: RemoteRepositoryRecord) -> Option<Seq<char>> {
    if r.local_id is Some {
        opt_view(r.local_id)
    } else if r.metadata_local_id is Some {
        opt_view(r.metadata_local_id)
    } else {
        opt_view(r.name)
    }
}

fn copy_opt(o: &Option<String>) -> (r: Option<String>)
    ensures
        opt_view(r) == opt_view(*o),
{
    match o {
        Some(s) => Some(literal(s.as_str())),
        None => None,
    }
}

impl RemoteRepositoryRecord {
    /// The id the local project shape uses for this record.
    pub fn local_id(&self) -> (r: Option<String>)
        ensures
            opt_view(r) == record_local_id(*self),
    {
        if self.local_id.is_some() {
            copy_opt(&self.local_id)
        } else if self.metadata_local_id.is_some() {
            copy_opt(&self.metadata_local_id)
        } else {
            copy_opt(&self.name)
        }
    }
}

/// A record the push deletes, and the label it is reported under.
pub struct PruneTarget {
    pub record_id: String,
    pub label: String,
}

/// A record is kept when its local id is one of the project's repo ids.
pub open spec fn record_kept(r: RemoteRepositoryRecord, keep: Seq<Seq<char>>) -> bool {
    record_local_id(r) matches Some(id) && keep.contains(id)
}

/// The label of a pruned record: its local id, else its remote id.
pub open spec fn prune_label(r: RemoteRepositoryRecord) -> Seq<char> {
    match record_local_id(r) {
        Some(id) => id,
        None => r.id@,
    }
}

/// The (record id, label) pairs pruned among the first `n` records, in order.
pub open spec fn prune_spec(records: Seq<RemoteRepositoryRecord>, keep: Seq<Seq<char>>, n: int) -> Seq<(Seq<char>, Seq<char>)>
    decreases n,
{
    if n <= 0 {
        Seq::empty()
    } else if record_kept(records[n - 1], keep) {
        prune_spec(records, keep, n - 1)
    } else {
        prune_spec(records, keep, n - 1).push((records[n - 1].id@, prune_label(records[n - 1])))
    }
}

/// Pruning converges the remote on the project: a record is pruned
/// exactly when no repo of the project accounts for it, and each pruned
/// record is reported under its label.
pub proof fn lemma_prune_converges(records: Seq<RemoteRepositoryRecord>, keep: Seq<Seq<char>>, n: int)
    requires
        0 <= n <= records.len(),
    ensures
        forall|j: int| 0 <= j < prune_spec(records, keep, n).len() ==> exists|i: int|
            0 <= i < n && !record_kept(#[trigger] records[i], keep) && #[trigger] prune_spec(records, keep, n)[j] == (
                records[i].id@,
                prune_label(records[i]),
            ),
        forall|i: int| 0 <= i < n && !record_kept(#[trigger] records[i], keep) ==> prune_spec(records, keep, n).contains(
            (records[i].id@, prune_label(records[i])),
        ),
    decreases n,
{
    if n > 0 {
        lemma_prune_converges(records, keep, n - 1);
        let prev = prune_spec(records, keep, n - 1);
        let cur = prune_spec(records, keep, n);
        assert forall|j: int| 0 <= j < cur.len() implies exists|i: int|
            0 <= i < n && !record_kept(#[trigger] records[i], keep) && #[trigger] cur[j] == (records[i].id@, prune_label(records[i])) by {
            if j < prev.len() {
                assert(cur[j] == prev[j]);
                let i = choose|i: int| 0 <= i < n - 1 && !record_kept(#[trigger] records[i], keep) && prev[j] == (
                    records[i].id@,
                    prune_label(records[i]),
                );
                assert(0 <= i < n);
            } else {
                assert(!record_kept(records[n - 1], keep));
            }
        }
        assert forall|i: int| 0 <= i < n && !record_kept(#[trigger] records[i], keep) implies cur.contains(
            (records[i].id@, prune_label(records[i])),
        ) by {
            let x = (records[i].id@, prune_label(records[i]));
            if i < n - 1 {
                let k = choose|k: int| 0 <= k < prev.len() && prev[k] == x;
                assert(cur[k] == x);
            } else {
                assert(cur[cur.len() - 1] == x);
            }
        }
    }
}

pub open spec fn targets_view(t: Seq<PruneTarget>) -> Seq<(Seq<char>, Seq<char>)> {
    t.map_values(|p: PruneTarget| (p.record_id@, p.label@))
}

fn keeps(keep_ids: &Vec<String>, id: &String) -> (b: bool)
    ensures
        b == strings_view(keep_ids@).contains(id@),
{
    crate::text::contains_string(keep_ids, id)
}

/// The remote records that no repo of the project accounts for, so that the
/// remote's repository set converges on the local project.
pub fn prune_targets(records: &Vec<RemoteRepositoryRecord>, keep_ids: &Vec<String>) -> (out: Vec<PruneTarget>)
    ensures
        targets_view(out@) == prune_spec(records@, strings_view(keep_ids@), records@.len() as int),
{
    let ghost keep = strings_view(keep_ids@);
    let mut out: Vec<PruneTarget> = Vec::new();
    let mut i: usize = 0;
    while i < records.len()
        invariant
            i <= records@.len(),
            keep == strings_view(keep_ids@),
            targets_view(out@) == prune_spec(records@, keep, i as int),
        decreases records.len() - i,
    {
        let r = &records[i];
        let local = r.local_id();
        let kept = match &local {
            Some(id) => keeps(keep_ids, id),
            None => false,
        };
        if !kept {
            let label = match &local {
                Some(id) => literal(id.as_str()),
                None => literal(r.id.as_str()),
            };
            let t = PruneTarget { record_id: literal(r.id.as_str()), label };
            proof {
                assert(targets_view(out@.push(t)) =~= targets_view(out@).push((t.record_id@, t.label@)));
            }
            out.push(t);
        }
        i += 1;
    }
    out
}

/// What the remote answered to one delete.
pub enum DeleteReply {
    Response { status: u16, body: String },
    Failed { error: String },
}

/// The failure line for one delete, none when the record is gone (a 2xx or
/// a 404).
pub open spec fn delete_failure_spec(label: Seq<char>, reply: DeleteReply) -> Option<Seq<char>> {
    match reply {
        DeleteReply::Response { status, body } => if (200 <= status < 300) || status == 404 {
            None
        } else {
            Some(label + ": HTTP "@ + decimal_seq(status as nat) + " "@ + trim_seq(body@))
        },
        DeleteReply::Failed { error } => Some(label + ": "@ + error@),
    }
}

pub fn delete_failure(label: &str, reply: &DeleteReply) -> (r: Option<String>)
    ensures
        opt_view(r) == delete_failure_spec(label@, *reply),
{
    match reply {
        DeleteReply::Response { status, body } => {
            if (200 <= *status && *status < 300) || *status == 404 {
                None
            } else {
                let mut v = chars_of(label);
                append_str(&mut v, ": HTTP ");
                push_decimal(&mut v, *status as u64);
                append_str(&mut v, " ");
                let t = trim_chars(&chars_of(body.as_str()));
                append_chars(&mut v, &t);
                Some(string_from_chars(&v))
            }
        },
        DeleteReply::Failed { error } => {
            let mut v = chars_of(label);
            append_str(&mut v, ": ");
            append_str(&mut v, error.as_str());
            Some(string_from_chars(&v))
        },
    }
}

/// The sweep fails only when a delete did, listing each failure on a line.
pub fn prune_result(failures: &Vec<String>) -> (r: Result<(), String>)
    ensures
        failures@.len() == 0 ==> r is Ok,
        failures@.len() > 0 ==> (r matches Err(m) && m@ == "failed to prune remote repositories:\n"@
            + crate::text::join_seq(strings_view(failures@), "\n"@)),
{
    if failures.len() == 0 {
        return Ok(());
    }
    let mut v = chars_of("failed to prune remote repositories:\n");
    let joined = crate::text::join_strings(failures, "\n");
    append_str(&mut v, joined.as_str());
    Err(string_from_chars(&v))
}

} // verus!
