//! Pulling and fetching bundle artifacts from a KnitHub remote: how a local
//! ledger relates to the remote one, and what each pull or fetch does with a
//! remote bundle record.
use vstd::prelude::*;

use crate::model::{BundleNode, ChangeGroup, RepoEntry};
use crate::pr_body::copy_repo;
use crate::project_repos::ProjectRepoEntry;
use crate::sync::{configured_names, configured_sync_remote_names, KnitConfig};
use crate::text::{
    append_str, chars_of, decimal_seq, join_chars, join_seq, push_decimal, str_eq, copy_strings, contains_string, string_from_chars,
    strings_view, views_of, slugify, slugify_seq,
};

verus! {

/// The ids of a bundle's ledger nodes, in ledger order.
pub open spec fn node_ids(b: ChangeGroup) -> Seq<Seq<char>> {
    b.nodes@.map_values(|n: BundleNode| n.id@)
}

/// The ids of the bundle's ledger nodes, in ledger order.
pub fn node_id_sequence(b: &ChangeGroup) -> (out: Vec<String>)
    ensures
        strings_view(out@) == node_ids(*b),
{
    let mut out: Vec<String> = Vec::new();
    let mut i: usize = 0;
    while i < b.nodes.len()
        invariant
            i <= b.nodes@.len(),
            strings_view(out@) == node_ids(*b).take(i as int),
        decreases b.nodes.len() - i,
    {
        let ghost prev = out@;
        out.push(b.nodes[i].id.clone());
        proof {
            assert(strings_view(out@) =~= strings_view(prev).push(b.nodes@[i as int].id@));
            assert(node_ids(*b).take(i + 1) =~= node_ids(*b).take(i as int).push(b.nodes@[i as int].id@));
        }
        i += 1;
    }
    proof {
        assert(node_ids(*b).take(b.nodes@.len() as int) =~= node_ids(*b));
    }
    out
}

/// How a local ledger relates to a remote one.
#[derive(Debug, Clone, Copy, PartialEq, Eq, Structural)]
pub enum LedgerRelation {
    /// Both hold the same nodes.
    Equal,
    /// The remote ledger is a strict prefix of the local one.
    LocalAhead,
    /// The local ledger is a strict prefix of the remote one: a fast-forward.
    RemoteAhead,
    /// Neither is a prefix of the other.
    Diverged,
}

/// `p` is a prefix of `s`.
pub open spec fn is_prefix(p: Seq<Seq<char>>, s: Seq<Seq<char>>) -> bool {
    p.len() <= s.len() && s.take(p.len() as int) == p
}

pub open spec fn relation_spec(local: Seq<Seq<char>>, remote: Seq<Seq<char>>) -> LedgerRelation {
    if local == remote {
        LedgerRelation::Equal
    } else if is_prefix(remote, local) {
        LedgerRelation::LocalAhead
    } else if is_prefix(local, remote) {
        LedgerRelation::RemoteAhead
    } else {
        LedgerRelation::Diverged
    }
}

/// How the local ledger (node ids in order) relates to the remote one.
pub fn ledger_relation(local: &Vec<String>, remote: &Vec<String>) -> (r: LedgerRelation)
    ensures
        r == relation_spec(strings_view(local@), strings_view(remote@)),
{
    let ghost l = strings_view(local@);
    let ghost m = strings_view(remote@);
    let mut k: usize = 0;
    while k < local.len() && k < remote.len() && local[k] == remote[k]
        invariant
            k <= local@.len(),
            k <= remote@.len(),
            l == strings_view(local@),
            m == strings_view(remote@),
            forall|j: int| 0 <= j < k ==> #[trigger] l[j] == m[j],
        decreases local.len() - k,
    {
        proof {
            assert(l[k as int] == m[k as int]);
        }
        k += 1;
    }
    if k == local.len() && k == remote.len() {
        proof {
            assert(l =~= m);
        }
        LedgerRelation::Equal
    } else if k == remote.len() {
        proof {
            assert(l.take(m.len() as int) =~= m);
            if l == m {
                assert(l.len() == m.len());
            }
        }
        LedgerRelation::LocalAhead
    } else if k == local.len() {
        proof {
            assert(m.take(l.len() as int) =~= l);
            if l == m {
                assert(l.len() == m.len());
            }
            if is_prefix(m, l) {
                assert(l.len() == m.len());
            }
        }
        LedgerRelation::RemoteAhead
    } else {
        proof {
            assert(l[k as int] != m[k as int]);
            if l == m {
                assert(l[k as int] == m[k as int]);
            }
            if is_prefix(m, l) {
                assert(l.take(m.len() as int)[k as int] == l[k as int]);
            }
            if is_prefix(l, m) {
                assert(m.take(l.len() as int)[k as int] == m[k as int]);
            }
        }
        LedgerRelation::Diverged
    }
}


/// Seen from the other side, the relation of two ledgers mirrors: equal and
/// diverged stay so, and the side that is ahead swaps.
pub proof fn lemma_relation_mirrors(a: Seq<Seq<char>>, b: Seq<Seq<char>>)
    ensures
        relation_spec(a, b) == LedgerRelation::Equal <==> relation_spec(b, a) == LedgerRelation::Equal,
        relation_spec(a, b) == LedgerRelation::Diverged <==> relation_spec(b, a) == LedgerRelation::Diverged,
        relation_spec(a, b) == LedgerRelation::LocalAhead <==> relation_spec(b, a) == LedgerRelation::RemoteAhead,
{
    if is_prefix(a, b) && is_prefix(b, a) {
        assert(a.len() == b.len());
        assert(a =~= b);
    }
}

/// A ledger is equal to the other exactly when they hold the same node ids.
pub proof fn lemma_relation_equal_iff_same(a: Seq<Seq<char>>, b: Seq<Seq<char>>)
    ensures
        relation_spec(a, b) == LedgerRelation::Equal <==> a == b,
{
}

/// What `knit fetch` does with one remote bundle record whose artifact was
/// decoded.
#[derive(Debug, Clone, Copy, PartialEq, Eq, Structural)]
pub enum FetchAction {
    /// Not open and not present here: left alone, silently.
    Skip,
    /// Deleted here, though open on the remote: left deleted.
    LeaveDeleted,
    /// Open on the remote and new here: localized and written.
    New,
    /// Same ledger as here: untouched.
    UpToDate,
    /// The local ledger is ahead: untouched.
    LocalAhead,
    /// The ledgers diverged: the local artifact is kept.
    KeepDiverged,
    /// The remote ledger is strictly ahead: the local artifact fast-forwards.
    Update,
}

impl FetchAction {
    /// The status shown beside the bundle, for the actions that show one.
    pub open spec fn status_spec(self) -> Option<Seq<char>> {
        match self {
            FetchAction::Skip => None,
            FetchAction::LeaveDeleted => None,
            FetchAction::New => Some("new"@),
            FetchAction::UpToDate => Some("up to date"@),
            FetchAction::LocalAhead => Some("local ahead"@),
            FetchAction::KeepDiverged => Some("diverged; kept local (run `knit pull --merge` to combine the ledgers)"@),
            FetchAction::Update => Some("updated"@),
        }
    }

    pub fn status(&self) -> (r: Option<&'static str>)
        ensures
            match r {
                Some(s) => self.status_spec() == Some(s@),
                None => self.status_spec() is None,
            },
    {
        match self {
            FetchAction::Skip => None,
            FetchAction::LeaveDeleted => None,
            FetchAction::New => Some("new"),
            FetchAction::UpToDate => Some("up to date"),
            FetchAction::LocalAhead => Some("local ahead"),
            FetchAction::KeepDiverged => Some("diverged; kept local (run `knit pull --merge` to combine the ledgers)"),
            FetchAction::Update => Some("updated"),
        }
    }

    /// The action writes the local artifact.
    pub open spec fn writes(self) -> bool {
        self == FetchAction::New || self == FetchAction::Update
    }
}

/// Whether `knit fetch` looks at a remote bundle record at all: it is not
/// deleted on the remote and has a current artifact.
pub fn fetch_considers(lifecycle_state: &str, has_artifact: bool) -> (b: bool)
    ensures
        b == (lifecycle_state@ != "deleted"@ && has_artifact),
{
    proof {
        reveal_strlit("deleted");
    }
    !str_eq(lifecycle_state, "deleted") && has_artifact
}

pub open spec fn fetch_action_spec(
    lifecycle_state: Seq<char>,
    local: Option<Seq<Seq<char>>>,
    quarantined: bool,
    remote: Seq<Seq<char>>,
) -> FetchAction {
    match local {
        None => if lifecycle_state != "open"@ {
            FetchAction::Skip
        } else if quarantined {
            FetchAction::LeaveDeleted
        } else {
            FetchAction::New
        },
        Some(l) => match relation_spec(l, remote) {
            LedgerRelation::Equal => FetchAction::UpToDate,
            LedgerRelation::LocalAhead => FetchAction::LocalAhead,
            LedgerRelation::Diverged => FetchAction::KeepDiverged,
            LedgerRelation::RemoteAhead => FetchAction::Update,
        },
    }
}

/// What `knit fetch` does with a remote bundle: with no local artifact
/// (`local` is none) only an open bundle that was not deleted here is
/// created; an existing artifact (its ledger's node ids) only fast-forwards
/// when the remote ledger is strictly ahead.
pub fn fetch_action(lifecycle_state: &str, local: Option<&Vec<String>>, quarantined: bool, remote: &Vec<String>) -> (r: FetchAction)
    ensures
        r == fetch_action_spec(
            lifecycle_state@,
            match local {
                Some(l) => Some(strings_view(l@)),
                None => None,
            },
            quarantined,
            strings_view(remote@),
        ),
{
    proof {
        reveal_strlit("open");
    }
    match local {
        None => {
            if !str_eq(lifecycle_state, "open") {
                FetchAction::Skip
            } else if quarantined {
                FetchAction::LeaveDeleted
            } else {
                FetchAction::New
            }
        },
        Some(l) => match ledger_relation(l, remote) {
            LedgerRelation::Equal => FetchAction::UpToDate,
            LedgerRelation::LocalAhead => FetchAction::LocalAhead,
            LedgerRelation::Diverged => FetchAction::KeepDiverged,
            LedgerRelation::RemoteAhead => FetchAction::Update,
        },
    }
}

/// How many of the actions write a local artifact, and how many leave a
/// locally deleted bundle deleted.
pub open spec fn fetch_counts(actions: Seq<FetchAction>) -> (nat, nat)
    decreases actions.len(),
{
    if actions.len() == 0 {
        (0, 0)
    } else {
        let c = fetch_counts(actions.drop_last());
        let a = actions.last();
        (
            if a.writes() { c.0 + 1 } else { c.0 },
            if a == FetchAction::LeaveDeleted { c.1 + 1 } else { c.1 },
        )
    }
}

/// The number of bundles fetched (created or updated) and of locally deleted
/// bundles left deleted.
pub fn fetch_tally(actions: &Vec<FetchAction>) -> (r: (usize, usize))
    ensures
        r.0 == fetch_counts(actions@).0,
        r.1 == fetch_counts(actions@).1,
{
    let mut fetched: usize = 0;
    let mut kept_deleted: usize = 0;
    let mut i: usize = 0;
    while i < actions.len()
        invariant
            i <= actions@.len(),
            fetched == fetch_counts(actions@.take(i as int)).0,
            kept_deleted == fetch_counts(actions@.take(i as int)).1,
            fetched <= i,
            kept_deleted <= i,
        decreases actions.len() - i,
    {
        proof {
            assert(actions@.take(i + 1).drop_last() =~= actions@.take(i as int));
        }
        let a = actions[i];
        if a == FetchAction::New || a == FetchAction::Update {
            fetched += 1;
        }
        if a == FetchAction::LeaveDeleted {
            kept_deleted += 1;
        }
        i += 1;
    }
    proof {
        assert(actions@.take(actions@.len() as int) =~= actions@);
    }
    (fetched, kept_deleted)
}


/// `knit fetch` writes over an existing local artifact only to fast-forward
/// it: the local ledger is then a strict prefix of the remote one.
pub proof fn lemma_fetch_overwrites_only_forward(
    lifecycle_state: Seq<char>,
    local: Seq<Seq<char>>,
    quarantined: bool,
    remote: Seq<Seq<char>>,
)
    ensures
        fetch_action_spec(lifecycle_state, Some(local), quarantined, remote).writes() ==> (is_prefix(local, remote)
            && local.len() < remote.len()),
{
    if is_prefix(local, remote) && local.len() == remote.len() {
        assert(local =~= remote);
    }
}

/// Why pulling a bundle from the remote has nothing to apply, checked in
/// order: no local artifact, no record with its slug on the remote, no
/// current artifact on that record.
pub fn pull_skip_reason(local_exists: bool, on_remote: bool, has_artifact: bool) -> (r: Option<&'static str>)
    ensures
        !local_exists ==> r == Some("no local bundle artifact"),
        local_exists && !on_remote ==> r == Some("not present on remote"),
        local_exists && on_remote && !has_artifact ==> r == Some("no remote artifact"),
        local_exists && on_remote && has_artifact ==> r is None,
{
    if !local_exists {
        Some("no local bundle artifact")
    } else if !on_remote {
        Some("not present on remote")
    } else if !has_artifact {
        Some("no remote artifact")
    } else {
        None
    }
}

/// What pulling one bundle does once both ledgers are known.
#[derive(Debug, Clone)]
pub enum PullStep {
    /// The artifact needs no update: refresh the checkouts, with this reason
    /// if nothing is touched.
    Refresh(String),
    /// The ledgers diverged and no merge was asked for.
    Skip(String),
    /// Union-merge the diverged ledgers.
    Merge,
    /// Fast-forward the local artifact onto the remote one.
    FastForward,
}

pub open spec fn diverged_reason(bundle_id: Seq<char>) -> Seq<char> {
    "bundle "@ + bundle_id
        + ": local and remote ledgers have diverged; run `knit pull --merge` to combine them"@
}

/// What pulling bundle `bundle_id` does, from the local and remote ledgers
/// (node ids in order): equal or local-ahead ledgers only refresh the
/// checkouts; a remote ledger strictly ahead fast-forwards; diverged ledgers
/// merge when `merge` is set and are skipped otherwise.
pub fn pull_step(bundle_id: &str, local: &Vec<String>, remote: &Vec<String>, merge: bool) -> (r: PullStep)
    ensures
        ({
            let rel = relation_spec(strings_view(local@), strings_view(remote@));
            match r {
                PullStep::Refresh(reason) => (rel == LedgerRelation::Equal && reason@ == "up to date"@) || (
                rel == LedgerRelation::LocalAhead && reason@ == "local is ahead of remote"@),
                PullStep::Skip(reason) => rel == LedgerRelation::Diverged && !merge && reason@ == diverged_reason(
                    bundle_id@,
                ),
                PullStep::Merge => rel == LedgerRelation::Diverged && merge,
                PullStep::FastForward => rel == LedgerRelation::RemoteAhead,
            }
        }),
{
    match ledger_relation(local, remote) {
        LedgerRelation::Equal => PullStep::Refresh(string_from_chars(&chars_of("up to date"))),
        LedgerRelation::LocalAhead => PullStep::Refresh(string_from_chars(&chars_of("local is ahead of remote"))),
        LedgerRelation::Diverged => {
            if merge {
                PullStep::Merge
            } else {
                let mut v: Vec<char> = Vec::new();
                append_str(&mut v, "bundle ");
                append_str(&mut v, bundle_id);
                append_str(
                    &mut v,
                    ": local and remote ledgers have diverged; run `knit pull --merge` to combine them",
                );
                PullStep::Skip(string_from_chars(&v))
            }
        },
        LedgerRelation::RemoteAhead => PullStep::FastForward,
    }
}

pub open spec fn refresh_parts(created: nat, advanced: nat) -> Seq<Seq<char>> {
    let a: Seq<Seq<char>> = if created > 0 {
        seq![("materialized "@ + decimal_seq(created)) + " checkout(s)"@]
    } else {
        Seq::empty()
    };
    let b: Seq<Seq<char>> = if advanced > 0 {
        a.push(("fast-forwarded "@ + decimal_seq(advanced)) + " checkout(s)"@)
    } else {
        a
    };
    if b.len() == 0 {
        seq!["re-recorded existing checkout(s)"@]
    } else {
        b
    }
}

/// The summary of a checkout refresh that created, fast-forwarded and
/// re-recorded these many checkouts; none when it touched nothing.
pub fn refresh_summary(created: usize, advanced: usize, rerecorded: usize) -> (r: Option<String>)
    ensures
        (created == 0 && advanced == 0 && rerecorded == 0) ==> r is None,
        !(created == 0 && advanced == 0 && rerecorded == 0) ==> (r matches Some(s) && s@ == join_seq(
            refresh_parts(created as nat, advanced as nat),
            ", "@,
        )),
{
    if created == 0 && advanced == 0 && rerecorded == 0 {
        return None;
    }
    let mut parts: Vec<Vec<char>> = Vec::new();
    if created > 0 {
        let mut v = chars_of("materialized ");
        push_decimal(&mut v, created as u64);
        append_str(&mut v, " checkout(s)");
        parts.push(v);
    }
    if advanced > 0 {
        let mut v = chars_of("fast-forwarded ");
        push_decimal(&mut v, advanced as u64);
        append_str(&mut v, " checkout(s)");
        parts.push(v);
    }
    if parts.len() == 0 {
        parts.push(chars_of("re-recorded existing checkout(s)"));
    }
    proof {
        assert(views_of(parts@) =~= refresh_parts(created as nat, advanced as nat));
    }
    let sep = chars_of(", ");
    let out = join_chars(&parts, &sep);
    Some(string_from_chars(&out))
}


/// What is on disk for one repo of a bundle whose checkouts are refreshed.
#[derive(Debug, Clone)]
pub struct CheckoutProbe {
    pub repo_id: String,
    /// The bundle records a feature branch for the repo.
    pub has_branch: bool,
    /// The checkout the artifact records exists on disk.
    pub recorded_exists: bool,
    /// A worktree exists at the conventional location.
    pub conventional_exists: bool,
}

/// Which checkouts a refresh touches.
#[derive(Debug, Clone)]
pub struct CheckoutPlan {
    /// Repos with a checkout on disk, recorded or not.
    pub existing: Vec<String>,
    /// Repos whose checkout exists at the conventional location but is not
    /// recorded: they are re-recorded.
    pub unrecorded: Vec<String>,
    /// Repos with a feature branch and no checkout.
    pub absent: Vec<String>,
    /// Repos to materialize: the unrecorded ones, then (when materializing)
    /// the absent ones.
    pub to_materialize: Vec<String>,
}

pub open spec fn existing_ids(p: Seq<CheckoutProbe>) -> Seq<Seq<char>>
    decreases p.len(),
{
    if p.len() == 0 {
        Seq::empty()
    } else {
        let r = existing_ids(p.drop_last());
        let x = p.last();
        if x.has_branch && (x.recorded_exists || x.conventional_exists) {
            r.push(x.repo_id@)
        } else {
            r
        }
    }
}

pub open spec fn unrecorded_ids(p: Seq<CheckoutProbe>) -> Seq<Seq<char>>
    decreases p.len(),
{
    if p.len() == 0 {
        Seq::empty()
    } else {
        let r = unrecorded_ids(p.drop_last());
        let x = p.last();
        if x.has_branch && !x.recorded_exists && x.conventional_exists {
            r.push(x.repo_id@)
        } else {
            r
        }
    }
}

pub open spec fn absent_ids(p: Seq<CheckoutProbe>) -> Seq<Seq<char>>
    decreases p.len(),
{
    if p.len() == 0 {
        Seq::empty()
    } else {
        let r = absent_ids(p.drop_last());
        let x = p.last();
        if x.has_branch && !x.recorded_exists && !x.conventional_exists {
            r.push(x.repo_id@)
        } else {
            r
        }
    }
}

/// Sorts the bundle's repos (in order) for a checkout refresh: repos without
/// a feature branch are left out; a recorded checkout on disk is existing; a
/// worktree at the conventional location is existing and unrecorded; else
/// the repo is absent. Absent repos are materialized only when `materialize`
/// is set.
pub fn plan_checkout_refresh(probes: &Vec<CheckoutProbe>, materialize: bool) -> (plan: CheckoutPlan)
    ensures
        strings_view(plan.existing@) == existing_ids(probes@),
        strings_view(plan.unrecorded@) == unrecorded_ids(probes@),
        strings_view(plan.absent@) == absent_ids(probes@),
        strings_view(plan.to_materialize@) == (if materialize {
            unrecorded_ids(probes@) + absent_ids(probes@)
        } else {
            unrecorded_ids(probes@)
        }),
{
    let mut existing: Vec<String> = Vec::new();
    let mut unrecorded: Vec<String> = Vec::new();
    let mut absent: Vec<String> = Vec::new();
    let mut i: usize = 0;
    while i < probes.len()
        invariant
            i <= probes@.len(),
            strings_view(existing@) == existing_ids(probes@.take(i as int)),
            strings_view(unrecorded@) == unrecorded_ids(probes@.take(i as int)),
            strings_view(absent@) == absent_ids(probes@.take(i as int)),
        decreases probes.len() - i,
    {
        proof {
            assert(probes@.take(i + 1).drop_last() =~= probes@.take(i as int));
        }
        let x = &probes[i];
        let ghost e0 = existing@;
        let ghost u0 = unrecorded@;
        let ghost a0 = absent@;
        if x.has_branch {
            if x.recorded_exists {
                existing.push(x.repo_id.clone());
                proof {
                    assert(strings_view(existing@) =~= strings_view(e0).push(x.repo_id@));
                }
            } else if x.conventional_exists {
                existing.push(x.repo_id.clone());
                unrecorded.push(x.repo_id.clone());
                proof {
                    assert(strings_view(existing@) =~= strings_view(e0).push(x.repo_id@));
                    assert(strings_view(unrecorded@) =~= strings_view(u0).push(x.repo_id@));
                }
            } else {
                absent.push(x.repo_id.clone());
                proof {
                    assert(strings_view(absent@) =~= strings_view(a0).push(x.repo_id@));
                }
            }
        }
        i += 1;
    }
    proof {
        assert(probes@.take(probes@.len() as int) =~= probes@);
    }
    let mut to_materialize = copy_strings(&unrecorded);
    if materialize {
        let mut j: usize = 0;
        while j < absent.len()
            invariant
                j <= absent@.len(),
                strings_view(to_materialize@) == strings_view(unrecorded@) + strings_view(absent@).take(
                    j as int,
                ),
            decreases absent.len() - j,
        {
            let ghost t0 = to_materialize@;
            to_materialize.push(absent[j].clone());
            proof {
                assert(strings_view(to_materialize@) =~= strings_view(t0).push(absent@[j as int]@));
                assert(strings_view(absent@).take(j + 1) =~= strings_view(absent@).take(j as int).push(
                    absent@[j as int]@,
                ));
            }
            j += 1;
        }
        proof {
            assert(strings_view(absent@).take(absent@.len() as int) =~= strings_view(absent@));
        }
    }
    CheckoutPlan { existing, unrecorded, absent, to_materialize }
}


/// The strings of `s` that are (`keep_in`) or are not in `set`, in order.
pub open spec fn filter_by(s: Seq<Seq<char>>, set: Seq<Seq<char>>, keep_in: bool) -> Seq<Seq<char>>
    decreases s.len(),
{
    if s.len() == 0 {
        Seq::empty()
    } else {
        let r = filter_by(s.drop_last(), set, keep_in);
        if set.contains(s.last()) == keep_in {
            r.push(s.last())
        } else {
            r
        }
    }
}

fn filter_strings(v: &Vec<String>, set: &Vec<String>, keep_in: bool) -> (out: Vec<String>)
    ensures
        strings_view(out@) == filter_by(strings_view(v@), strings_view(set@), keep_in),
{
    let mut out: Vec<String> = Vec::new();
    let mut i: usize = 0;
    while i < v.len()
        invariant
            i <= v@.len(),
            strings_view(out@) == filter_by(strings_view(v@).take(i as int), strings_view(set@), keep_in),
        decreases v.len() - i,
    {
        proof {
            assert(strings_view(v@).take(i + 1).drop_last() =~= strings_view(v@).take(i as int));
            assert(strings_view(v@).take(i + 1).last() == v@[i as int]@);
        }
        let ghost o0 = out@;
        if contains_string(set, &v[i]) == keep_in {
            out.push(v[i].clone());
            proof {
                assert(strings_view(out@) =~= strings_view(o0).push(v@[i as int]@));
            }
        }
        i += 1;
    }
    proof {
        assert(strings_view(v@).take(v@.len() as int) =~= strings_view(v@));
    }
    out
}

/// How the project's tracked repos follow the remote export.
#[derive(Debug, Clone)]
pub struct RepoReconcile {
    /// Project repos that stay.
    pub kept: Vec<String>,
    /// Project repos dropped because the export no longer has them.
    pub removed: Vec<String>,
    /// Export repos the project does not track yet: cloned and added.
    pub to_add: Vec<String>,
}

/// Follows the remote export's repositories (`export_ids`, by local id):
/// an export with no repositories changes nothing; project repos missing
/// from the export are removed only when the export is complete (no
/// repository was withheld: `omitted` is none or zero); export repos not
/// among the kept project repos are added, in export order.
pub fn reconcile_repositories(project_ids: &Vec<String>, export_ids: &Vec<String>, omitted: Option<u64>) -> (r: RepoReconcile)
    ensures
        ({
            let p = strings_view(project_ids@);
            let e = strings_view(export_ids@);
            let complete = match omitted {
                Some(n) => n == 0,
                None => true,
            };
            if e.len() == 0 {
                strings_view(r.kept@) == p && r.removed@.len() == 0 && r.to_add@.len() == 0
            } else {
                &&& strings_view(r.kept@) == (if complete {
                    filter_by(p, e, true)
                } else {
                    p
                })
                &&& strings_view(r.removed@) == (if complete {
                    filter_by(p, e, false)
                } else {
                    Seq::empty()
                })
                &&& strings_view(r.to_add@) == filter_by(e, strings_view(r.kept@), false)
            }
        }),
{
    if export_ids.len() == 0 {
        return RepoReconcile { kept: copy_strings(project_ids), removed: Vec::new(), to_add: Vec::new() };
    }
    let complete = match omitted {
        Some(n) => n == 0,
        None => true,
    };
    let (kept, removed) = if complete {
        (filter_strings(project_ids, export_ids, true), filter_strings(project_ids, export_ids, false))
    } else {
        (copy_strings(project_ids), Vec::new())
    };
    proof {
        if !complete {
            assert(strings_view(removed@) =~= Seq::<Seq<char>>::empty());
        }
    }
    let to_add = filter_strings(export_ids, &kept, false);
    RepoReconcile { kept, removed, to_add }
}

/// The worktree path recorded for the first repo with this id.
pub open spec fn recorded_worktree(repos: Seq<RepoEntry>, id: Seq<char>) -> Option<String>
    decreases repos.len(),
{
    if repos.len() == 0 {
        None
    } else if repos[0].id@ == id {
        repos[0].worktree_path
    } else {
        recorded_worktree(repos.drop_first(), id)
    }
}

/// A repo of a fetched bundle, with this workspace's worktree path carried
/// over when the fetched artifact records none.
pub open spec fn carried_repo(r: RepoEntry, local: Seq<RepoEntry>) -> RepoEntry {
    if r.worktree_path is None {
        RepoEntry { worktree_path: recorded_worktree(local, r.id@), ..r }
    } else {
        r
    }
}

fn local_worktree(local: &Vec<RepoEntry>, id: &String) -> (r: Option<String>)
    ensures
        r == recorded_worktree(local@, id@),
{
    let mut i: usize = 0;
    proof {
        assert(local@.skip(0) =~= local@);
    }
    while i < local.len()
        invariant
            i <= local@.len(),
            recorded_worktree(local@, id@) == recorded_worktree(local@.skip(i as int), id@),
        decreases local.len() - i,
    {
        proof {
            assert(local@.skip(i as int).drop_first() =~= local@.skip(i + 1));
        }
        if local[i].id == *id {
            return match &local[i].worktree_path {
                Some(w) => Some(w.clone()),
                None => None,
            };
        }
        i += 1;
    }
    None
}

/// Localizing a fetched bundle drops its checkout recordings; carries this
/// workspace's worktree paths over from the local artifact's repos, so a
/// fast-forward does not orphan existing worktrees.
pub fn carry_worktree_paths(fetched: &mut ChangeGroup, local: &ChangeGroup)
    ensures
        final(fetched).repos@ == old(fetched).repos@.map_values(|r: RepoEntry| carried_repo(r, local.repos@)),
        final(fetched).nodes@ == old(fetched).nodes@,
        final(fetched).id == old(fetched).id,
        final(fetched).publications@ == old(fetched).publications@,
        final(fetched).commit_groups@ == old(fetched).commit_groups@,
{
    let mut repos: Vec<RepoEntry> = Vec::new();
    let mut i: usize = 0;
    while i < fetched.repos.len()
        invariant
            i <= fetched.repos@.len(),
            repos@ == fetched.repos@.take(i as int).map_values(|r: RepoEntry| carried_repo(r, local.repos@)),
        decreases fetched.repos.len() - i,
    {
        let mut r = copy_repo(&fetched.repos[i]);
        if r.worktree_path.is_none() {
            r.worktree_path = local_worktree(&local.repos, &r.id);
        }
        let ghost prev = repos@;
        repos.push(r);
        proof {
            assert(fetched.repos@.take(i + 1) =~= fetched.repos@.take(i as int).push(fetched.repos@[i as int]));
            assert(repos@ =~= fetched.repos@.take(i + 1).map_values(|r: RepoEntry| carried_repo(r, local.repos@)));
        }
        i += 1;
    }
    proof {
        assert(fetched.repos@.take(fetched.repos@.len() as int) =~= fetched.repos@);
    }
    fetched.repos = repos;
}

/// The repo to feature-branch mapping shown for a fetched bundle: each repo
/// with its feature branch, or `knit/<bundle id>` when none is recorded.
pub fn bundle_branch_mapping(b: &ChangeGroup) -> (out: Vec<(String, String)>)
    ensures
        out@.len() == b.repos@.len(),
        forall|i: int| 0 <= i < out@.len() ==> {
            &&& (#[trigger] out@[i]).0@ == b.repos@[i].id@
            &&& out@[i].1@ == match b.repos@[i].feature_branch {
                Some(f) => f@,
                None => "knit/"@ + b.id@,
            }
        },
{
    let mut out: Vec<(String, String)> = Vec::new();
    let mut i: usize = 0;
    while i < b.repos.len()
        invariant
            i <= b.repos@.len(),
            out@.len() == i,
            forall|k: int| 0 <= k < i ==> {
                &&& (#[trigger] out@[k]).0@ == b.repos@[k].id@
                &&& out@[k].1@ == match b.repos@[k].feature_branch {
                    Some(f) => f@,
                    None => "knit/"@ + b.id@,
                }
            },
        decreases b.repos.len() - i,
    {
        let branch = match &b.repos[i].feature_branch {
            Some(f) => f.clone(),
            None => {
                let mut v = chars_of("knit/");
                append_str(&mut v, b.id.as_str());
                string_from_chars(&v)
            },
        };
        out.push((b.repos[i].id.clone(), branch));
        i += 1;
    }
    out
}

/// The project repo a remote bundle's repo maps to: the first with its id,
/// else the first whose (recorded) remote is the repo's remote.
pub open spec fn local_match(project: Seq<ProjectRepoEntry>, r: RepoEntry) -> Option<int> {
    if exists|k: int| 0 <= k < project.len() && project[k].id@ == r.id@ {
        Some(choose|k: int| 0 <= k < project.len() && project[k].id@ == r.id@ && forall|j: int|
            0 <= j < k ==> project[j].id@ != r.id@)
    } else if exists|k: int| 0 <= k < project.len() && same_remote(project[k], r) {
        Some(choose|k: int| 0 <= k < project.len() && same_remote(project[k], r) && forall|j: int|
            0 <= j < k ==> !same_remote(project[j], r))
    } else {
        None
    }
}

/// The project repo records a remote, and it is the repo's.
pub open spec fn same_remote(p: ProjectRepoEntry, r: RepoEntry) -> bool {
    p.remote is Some && r.remote is Some && p.remote->0@ == r.remote->0@
}

/// A remote bundle's repo as this workspace checks it out: path, base and
/// checkout mode from the project repo, its remote unless the project repo
/// records none, and no worktree recorded.
pub open spec fn localized_repo(r: RepoEntry, p: ProjectRepoEntry) -> RepoEntry {
    RepoEntry {
        path: p.path,
        remote: if p.remote is Some {
            p.remote
        } else {
            r.remote
        },
        base_branch: p.base_branch,
        checkout_mode: p.checkout_mode,
        worktree_path: None,
        ..r
    }
}

fn find_local(project: &Vec<ProjectRepoEntry>, r: &RepoEntry) -> (k: Option<usize>)
    ensures
        match k {
            Some(i) => i < project@.len() && local_match(project@, *r) == Some(i as int),
            None => local_match(project@, *r) is None,
        },
{
    let mut i: usize = 0;
    while i < project.len()
        invariant
            i <= project@.len(),
            forall|j: int| 0 <= j < i ==> project@[j].id@ != r.id@,
        decreases project.len() - i,
    {
        if str_eq(project[i].id.as_str(), r.id.as_str()) {
            proof {
                let c = choose|k: int| 0 <= k < project@.len() && project@[k].id@ == r.id@ && forall|j: int|
                    0 <= j < k ==> project@[j].id@ != r.id@;
                assert(c == i as int) by {
                    if c < i {
                        assert(project@[c].id@ != r.id@);
                    } else if c > i {
                        assert(project@[i as int].id@ != r.id@);
                    }
                }
            }
            return Some(i);
        }
        i += 1;
    }
    let mut i: usize = 0;
    while i < project.len()
        invariant
            i <= project@.len(),
            forall|j: int| 0 <= j < project@.len() ==> project@[j].id@ != r.id@,
            forall|j: int| 0 <= j < i ==> !same_remote(project@[j], *r),
        decreases project.len() - i,
    {
        let same = match (&project[i].remote, &r.remote) {
            (Some(a), Some(b)) => str_eq(a.as_str(), b.as_str()),
            _ => false,
        };
        if same {
            proof {
                let c = choose|k: int| 0 <= k < project@.len() && same_remote(project@[k], *r) && forall|j: int|
                    0 <= j < k ==> !same_remote(project@[j], *r);
                assert(c == i as int) by {
                    if c < i {
                        assert(!same_remote(project@[c], *r));
                    } else if c > i {
                        assert(!same_remote(project@[i as int], *r));
                    }
                }
            }
            return Some(i);
        }
        i += 1;
    }
    None
}

fn localize_one(r: &RepoEntry, p: &ProjectRepoEntry) -> (n: RepoEntry)
    ensures
        n == localized_repo(*r, *p),
{
    let mut n = copy_repo(r);
    n.path = p.path.clone();
    n.remote = match &p.remote {
        Some(x) => Some(x.clone()),
        None => match &r.remote {
            Some(y) => Some(y.clone()),
            None => None,
        },
    };
    n.base_branch = p.base_branch.clone();
    n.checkout_mode = p.checkout_mode;
    n.worktree_path = None;
    n
}

pub open spec fn unmatched_text(repo_id: Seq<char>, project_id: Seq<char>) -> Seq<char> {
    repo_id + ": remote bundle references a repo that is not in local project `"@ + project_id + "`."@
}

/// Localizes a bundle fetched from the remote onto this workspace's project:
/// the bundle belongs to `project_id`, and each repo takes its checkout
/// settings from the project repo it maps to. A repo that maps to none is
/// refused (the first such, in order).
pub fn localize_bundle(bundle: ChangeGroup, project_id: &str, project: &Vec<ProjectRepoEntry>) -> (r: Result<ChangeGroup, String>)
    ensures
        (forall|i: int| 0 <= i < bundle.repos@.len() ==> local_match(project@, #[trigger] bundle.repos@[i]) is Some)
            ==> (r matches Ok(b) && b.project_id matches Some(p) && p@ == project_id@ && b.repos@.len()
            == bundle.repos@.len() && (forall|i: int|
            0 <= i < b.repos@.len() ==> #[trigger] b.repos@[i] == localized_repo(
                bundle.repos@[i],
                project@[local_match(project@, bundle.repos@[i])->0],
            )) && b.nodes@ == bundle.nodes@ && b.id == bundle.id && b.publications@ == bundle.publications@
            && b.commit_groups@ == bundle.commit_groups@),
        !(forall|i: int| 0 <= i < bundle.repos@.len() ==> local_match(project@, #[trigger] bundle.repos@[i]) is Some)
            ==> exists|i: int|
            0 <= i < bundle.repos@.len() && local_match(project@, bundle.repos@[i]) is None && (forall|j: int|
                0 <= j < i ==> local_match(project@, #[trigger] bundle.repos@[j]) is Some) && (r matches Err(e)
                && e@ == unmatched_text(bundle.repos@[i].id@, project_id@)),
{
    let mut b = bundle;
    let mut repos: Vec<RepoEntry> = Vec::new();
    let mut i: usize = 0;
    while i < b.repos.len()
        invariant
            i <= b.repos@.len(),
            b == bundle,
            repos@.len() == i,
            forall|j: int| 0 <= j < i ==> local_match(project@, #[trigger] bundle.repos@[j]) is Some,
            forall|j: int| 0 <= j < i ==> #[trigger] repos@[j] == localized_repo(
                bundle.repos@[j],
                project@[local_match(project@, bundle.repos@[j])->0],
            ),
        decreases b.repos.len() - i,
    {
        let r = &b.repos[i];
        match find_local(project, r) {
            None => {
                let mut v = chars_of(r.id.as_str());
                append_str(&mut v, ": remote bundle references a repo that is not in local project `");
                append_str(&mut v, project_id);
                append_str(&mut v, "`.");
                return Err(string_from_chars(&v));
            },
            Some(k) => {
                let n = localize_one(r, &project[k]);
                let ghost r0 = repos@;
                repos.push(n);
                proof {
                    assert(repos@[i as int] == localized_repo(bundle.repos@[i as int], project@[k as int]));
                    assert forall|j: int| 0 <= j < i + 1 implies #[trigger] repos@[j] == localized_repo(
                        bundle.repos@[j],
                        project@[local_match(project@, bundle.repos@[j])->0],
                    ) by {
                        if j < i {
                            assert(repos@[j] == r0[j]);
                        }
                    }
                }
            },
        }
        i += 1;
    }
    b.repos = repos;
    b.project_id = Some(string_from_chars(&chars_of(project_id)));
    Ok(b)
}

/// A repo whose recorded head moved between the local and the remote
/// bundle: git must confirm the remote head descends from the local one.
#[derive(Debug, Clone)]
pub struct HeadMove {
    pub repo_id: String,
    pub path: String,
    pub local_head: String,
    pub remote_head: String,
}

/// The position of the first repo with this id (meaningful when there is one).
pub open spec fn first_with_id(repos: Seq<RepoEntry>, id: Seq<char>) -> int {
    choose|k: int| 0 <= k < repos.len() && repos[k].id@ == id && forall|j: int| 0 <= j < k ==> repos[j].id@ != id
}

proof fn lemma_first_with_id(repos: Seq<RepoEntry>, id: Seq<char>, k: int)
    requires
        0 <= k < repos.len(),
        repos[k].id@ == id,
        forall|j: int| 0 <= j < k ==> repos[j].id@ != id,
    ensures
        first_with_id(repos, id) == k,
{
    let c = first_with_id(repos, id);
    assert(0 <= c < repos.len() && repos[c].id@ == id && forall|j: int| 0 <= j < c ==> repos[j].id@ != id);
    if c < k {
        assert(repos[c].id@ != id);
    } else if c > k {
        assert(repos[k].id@ != id);
    }
}

/// The head the local bundle records for repo `r`, when `r` records a head
/// too and the two differ.
#[verifier::opaque]
pub open spec fn moved_at(local: ChangeGroup, r: RepoEntry) -> Option<Seq<char>> {
    if r.head_sha is Some && exists|k: int| 0 <= k < local.repos@.len() && local.repos@[k].id@ == r.id@ {
        let k = first_with_id(local.repos@, r.id@);
        match local.repos@[k].head_sha {
            Some(h) => if h@ != r.head_sha->0@ {
                Some(h@)
            } else {
                None
            },
            None => None,
        }
    } else {
        None
    }
}

/// `m` records how repo `r` of the remote bundle moved from the local one.
pub open spec fn move_of(local: ChangeGroup, r: RepoEntry, m: HeadMove) -> bool {
    &&& m.repo_id@ == r.id@
    &&& moved_at(local, r) == Some(m.local_head@)
    &&& r.head_sha is Some
    &&& r.head_sha->0@ == m.remote_head@
    &&& m.path@ == r.path@
}

fn move_for(local: &ChangeGroup, r: &RepoEntry) -> (m: Option<HeadMove>)
    ensures
        match m {
            Some(x) => move_of(*local, *r, x),
            None => moved_at(*local, *r) is None,
        },
{
    let rh = match &r.head_sha {
        Some(h) => h,
        None => {
            proof {
                reveal(moved_at);
            }
            return None;
        },
    };
    let mut k: usize = 0;
    while k < local.repos.len()
        invariant
            k <= local.repos@.len(),
            r.head_sha == Some(*rh),
            forall|j: int| 0 <= j < k ==> local.repos@[j].id@ != r.id@,
        decreases local.repos.len() - k,
    {
        if str_eq(local.repos[k].id.as_str(), r.id.as_str()) {
            proof {
                assert(local.repos@[k as int].id@ == r.id@);
                assert(exists|k2: int| 0 <= k2 < local.repos@.len() && local.repos@[k2].id@ == r.id@);
                lemma_first_with_id(local.repos@, r.id@, k as int);
                reveal(moved_at);
            }
            match &local.repos[k].head_sha {
                Some(lh) => {
                    if str_eq(lh.as_str(), rh.as_str()) {
                        proof {
                            reveal(moved_at);
                        }
                        return None;
                    }
                    let m = HeadMove {
                        repo_id: r.id.clone(),
                        path: r.path.clone(),
                        local_head: lh.clone(),
                        remote_head: rh.clone(),
                    };
                    proof {
                        reveal(moved_at);
                        assert(moved_at(*local, *r) == Some(lh@));
                    }
                    return Some(m);
                },
                None => {
                    proof {
                        reveal(moved_at);
                    }
                    return None;
                },
            }
        }
        k += 1;
    }
    proof {
        reveal(moved_at);
    }
    None
}

/// `m` records how some repo of the remote bundle moved.
pub open spec fn move_in(local: ChangeGroup, remote: ChangeGroup, m: HeadMove) -> bool {
    exists|i: int| 0 <= i < remote.repos@.len() && move_of(local, remote.repos@[i], m)
}

/// The repos of the remote bundle whose head differs from the head the
/// local bundle records for the same repo (both recorded), in remote order.
pub fn head_moves(local: &ChangeGroup, remote: &ChangeGroup) -> (out: Vec<HeadMove>)
    ensures
        forall|k: int| 0 <= k < out@.len() ==> move_in(*local, *remote, #[trigger] out@[k]),
        forall|i: int| 0 <= i < remote.repos@.len() && moved_at(*local, #[trigger] remote.repos@[i]) is Some
            ==> exists|k: int| 0 <= k < out@.len() && out@[k].repo_id@ == remote.repos@[i].id@,
{
    let mut out: Vec<HeadMove> = Vec::new();
    let ghost mut ix: Seq<int> = Seq::empty();
    let mut i: usize = 0;
    while i < remote.repos.len()
        invariant
            i <= remote.repos@.len(),
            ix.len() == out@.len(),
            forall|k: int| 0 <= k < ix.len() ==> 0 <= #[trigger] ix[k] < i && move_of(*local, remote.repos@[ix[k]], out@[k]),
            forall|j: int| 0 <= j < i && moved_at(*local, #[trigger] remote.repos@[j]) is Some ==> exists|k: int|
                0 <= k < ix.len() && ix[k] == j,
        decreases remote.repos.len() - i,
    {
        match move_for(local, &remote.repos[i]) {
            Some(m) => {
                out.push(m);
                proof {
                    let ix0 = ix;
                    ix = ix.push(i as int);
                    assert forall|j: int| 0 <= j < i + 1 && moved_at(*local, #[trigger] remote.repos@[j]) is Some implies exists|k: int|
                        0 <= k < ix.len() && ix[k] == j by {
                        if j < i {
                            let k = choose|k: int| 0 <= k < ix0.len() && ix0[k] == j;
                            assert(ix[k] == j);
                        } else {
                            assert(ix[ix.len() - 1] == j);
                        }
                    }
                }
            },
            None => {},
        }
        i += 1;
    }
    proof {
        assert forall|k: int| 0 <= k < out@.len() implies move_in(*local, *remote, #[trigger] out@[k]) by {
            let w = ix[k];
            assert(0 <= w < remote.repos@.len());
            assert(move_of(*local, remote.repos@[w], out@[k]));
        }
        assert forall|j: int| 0 <= j < remote.repos@.len() && moved_at(*local, #[trigger] remote.repos@[j]) is Some implies exists|k: int|
            0 <= k < out@.len() && out@[k].repo_id@ == remote.repos@[j].id@ by {
            let k = choose|k: int| 0 <= k < ix.len() && ix[k] == j;
            assert(move_of(*local, remote.repos@[j], out@[k]));
        }
    }
    out
}

/// The refusal when a remote head does not descend from the local one; the
/// heads are shown by their first 12 characters.
pub fn not_fast_forward_message(m: &HeadMove) -> (out: String)
    ensures
        out@ == m.repo_id@ + ": remote bundle head "@ + m.remote_head@.take(
            if m.remote_head@.len() < 12 { m.remote_head@.len() as int } else { 12 },
        ) + " is not a fast-forward from local head "@ + m.local_head@.take(
            if m.local_head@.len() < 12 { m.local_head@.len() as int } else { 12 },
        ) + ". Push or reconcile local work before remote pull."@,
{
    let rv = chars_of(m.remote_head.as_str());
    let lv = chars_of(m.local_head.as_str());
    let rn = if rv.len() < 12 { rv.len() } else { 12 };
    let ln = if lv.len() < 12 { lv.len() } else { 12 };
    let mut v = chars_of(m.repo_id.as_str());
    append_str(&mut v, ": remote bundle head ");
    let rs = crate::text::slice_chars(&rv, 0, rn);
    crate::text::append_chars(&mut v, &rs);
    append_str(&mut v, " is not a fast-forward from local head ");
    let ls = crate::text::slice_chars(&lv, 0, ln);
    crate::text::append_chars(&mut v, &ls);
    append_str(&mut v, ". Push or reconcile local work before remote pull.");
    proof {
        assert(rs@ =~= m.remote_head@.take(rn as int));
        assert(ls@ =~= m.local_head@.take(ln as int));
    }
    string_from_chars(&v)
}

/// The remote a pull or fetch talks to: the one named (by its slug), else
/// the first configured sync remote; none when there is neither.
pub fn pull_remote_name(config: &KnitConfig, requested: Option<&str>) -> (r: Option<String>)
    ensures
        match requested {
            Some(n) => r matches Some(x) && x@ == slugify_seq(n@),
            None => if configured_names(*config).len() > 0 {
                r matches Some(x) && x@ == configured_names(*config)[0]
            } else {
                r is None
            },
        },
{
    match requested {
        Some(n) => Some(slugify(n)),
        None => {
            let names = configured_sync_remote_names(config);
            if names.len() > 0 {
                proof {
                    assert(strings_view(names@)[0] == names@[0]@);
                }
                Some(names[0].clone())
            } else {
                None
            }
        },
    }
}

} // verus!
