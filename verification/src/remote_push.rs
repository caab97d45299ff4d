//! Pushing bundle artifacts to a sync remote: how the remote's answer is
//! read, and the sweep that pushes every local bundle.
use vstd::prelude::*;

use crate::push_force::{artifact_force_fields, lease_mismatch_message, lease_text, ArtifactForceFields, PushForce};
use crate::text::{
    append_str, chars_of, decimal_seq, join_seq, join_strings, push_decimal, slugify, slugify_seq, str_eq,
    string_from_chars, strings_view,
};

verus! {

/// How the remote answered an artifact push.
#[derive(Debug, Clone)]
pub enum ArtifactPushVerdict {
    /// Not refused: the response is read as the stored artifact.
    Accepted,
    /// The remote ledger has work this workspace lacks.
    RemoteAhead,
    /// The force lease no longer matches the remote artifact.
    LeaseMismatch { current: Option<String> },
}

/// Reads an artifact push's response: a 409 refusal whose error envelope
/// has kind `leaseMismatch` is a lease mismatch (with the remote's current
/// hash when given); any other 409 means the remote is ahead.
pub fn classify_artifact_push(status: u16, error_kind: Option<&str>, current_hash: Option<String>) -> (v: ArtifactPushVerdict)
    ensures
        status != 409 ==> v matches ArtifactPushVerdict::Accepted,
        status == 409 && (error_kind matches Some(k) && k@ == "leaseMismatch"@) ==> (v matches ArtifactPushVerdict::LeaseMismatch {
            current,
        } && current == current_hash),
        status == 409 && !(error_kind matches Some(k) && k@ == "leaseMismatch"@) ==> v matches ArtifactPushVerdict::RemoteAhead,
{
    if status != 409 {
        return ArtifactPushVerdict::Accepted;
    }
    let lease = match error_kind {
        Some(k) => str_eq(k, "leaseMismatch"),
        None => false,
    };
    if lease {
        ArtifactPushVerdict::LeaseMismatch { current: current_hash }
    } else {
        ArtifactPushVerdict::RemoteAhead
    }
}

pub open spec fn remote_ahead_text(bundle_id: Seq<char>) -> Seq<char> {
    bundle_id
        + ": the remote has recorded bundle work this workspace does not include. Run `knit pull` to fast-forward (or `knit pull --merge` if the ledgers diverged), then push again, or overwrite the remote ledger with `knit sync push --bundles --force-with-lease`."@
}

/// The error of a single bundle push the remote refused.
pub fn refused_push_message(bundle_id: &str, v: &ArtifactPushVerdict) -> (r: Option<String>)
    ensures
        match v {
            ArtifactPushVerdict::Accepted => r is None,
            ArtifactPushVerdict::RemoteAhead => r matches Some(m) && m@ == remote_ahead_text(bundle_id@),
            ArtifactPushVerdict::LeaseMismatch { current } => r matches Some(m) && m@ == lease_text(
                bundle_id@,
                match current {
                    Some(h) => Some(h@),
                    None => None,
                },
            ),
        },
{
    match v {
        ArtifactPushVerdict::Accepted => None,
        ArtifactPushVerdict::RemoteAhead => {
            let mut m = chars_of(bundle_id);
            append_str(
                &mut m,
                ": the remote has recorded bundle work this workspace does not include. Run `knit pull` to fast-forward (or `knit pull --merge` if the ledgers diverged), then push again, or overwrite the remote ledger with `knit sync push --bundles --force-with-lease`.",
            );
            Some(string_from_chars(&m))
        },
        ArtifactPushVerdict::LeaseMismatch { current } => match current {
            Some(h) => Some(lease_mismatch_message(bundle_id, Some(h.as_str()))),
            None => Some(lease_mismatch_message(bundle_id, None)),
        },
    }
}

/// What the sweep does with one local bundle.
#[derive(Debug, Clone)]
pub enum SweepItem {
    /// The bundle the caller already pushed.
    Excluded,
    /// No project can be told for the bundle: a failure with this message.
    NoProject(String),
    /// Push it under this project.
    Push { project_id: String },
}

/// The project of a swept bundle: the one it records, else the `--project`
/// flag's slug, else the workspace's active project.
pub open spec fn sweep_project(
    bundle_project: Option<Seq<char>>,
    project_flag: Option<Seq<char>>,
    active_project: Option<Seq<char>>,
) -> Option<Seq<char>> {
    match bundle_project {
        Some(p) => Some(p),
        None => match project_flag {
            Some(f) => Some(slugify_seq(f)),
            None => active_project,
        },
    }
}

pub open spec fn opt_str(o: Option<&str>) -> Option<Seq<char>> {
    match o {
        Some(s) => Some(s@),
        None => None,
    }
}

/// Decides how the sweep treats bundle `bundle_id`.
pub fn sweep_item(
    bundle_id: &str,
    bundle_project: Option<&str>,
    exclude: Option<&str>,
    project_flag: Option<&str>,
    active_project: Option<&str>,
) -> (r: SweepItem)
    ensures
        (exclude matches Some(x) && x@ == bundle_id@) ==> r matches SweepItem::Excluded,
        !(exclude matches Some(x) && x@ == bundle_id@) ==> match sweep_project(
            opt_str(bundle_project),
            opt_str(project_flag),
            opt_str(active_project),
        ) {
            Some(p) => r matches SweepItem::Push { project_id } && project_id@ == p,
            None => r matches SweepItem::NoProject(m) && m@ == bundle_id@ + ": no project recorded on the bundle"@,
        },
{
    let excluded = match exclude {
        Some(x) => str_eq(x, bundle_id),
        None => false,
    };
    if excluded {
        return SweepItem::Excluded;
    }
    match bundle_project {
        Some(p) => SweepItem::Push { project_id: string_from_chars(&chars_of(p)) },
        None => match project_flag {
            Some(f) => SweepItem::Push { project_id: slugify(f) },
            None => match active_project {
                Some(a) => SweepItem::Push { project_id: string_from_chars(&chars_of(a)) },
                None => {
                    let mut m = chars_of(bundle_id);
                    append_str(&mut m, ": no project recorded on the bundle");
                    SweepItem::NoProject(string_from_chars(&m))
                },
            },
        },
    }
}

/// How a swept bundle's push ended.
#[derive(Debug, Clone)]
pub enum SweepResult {
    Pushed,
    RemoteAhead,
    Failed(String),
}

/// The sweep's totals: bundles pushed, the ones skipped because the remote
/// is ahead, and the failures.
#[derive(Debug, Clone)]
pub struct SweepTally {
    pub pushed: usize,
    pub remote_ahead: Vec<String>,
    pub failures: Vec<String>,
}

pub open spec fn count_pushed(rs: Seq<(String, SweepResult)>) -> nat
    decreases rs.len(),
{
    if rs.len() == 0 {
        0
    } else {
        count_pushed(rs.drop_last()) + (if rs.last().1 is Pushed { 1nat } else { 0nat })
    }
}

pub open spec fn ahead_ids(rs: Seq<(String, SweepResult)>) -> Seq<Seq<char>>
    decreases rs.len(),
{
    if rs.len() == 0 {
        Seq::empty()
    } else if rs.last().1 is RemoteAhead {
        ahead_ids(rs.drop_last()).push(rs.last().0@)
    } else {
        ahead_ids(rs.drop_last())
    }
}

pub open spec fn failure_texts(rs: Seq<(String, SweepResult)>) -> Seq<Seq<char>>
    decreases rs.len(),
{
    if rs.len() == 0 {
        Seq::empty()
    } else {
        match rs.last().1 {
            SweepResult::Failed(m) => failure_texts(rs.drop_last()).push(m@),
            _ => failure_texts(rs.drop_last()),
        }
    }
}

/// Every swept bundle is counted exactly once: pushed, skipped because the
/// remote is ahead, or failed.
pub proof fn lemma_sweep_counts_each(rs: Seq<(String, SweepResult)>)
    ensures
        count_pushed(rs) + ahead_ids(rs).len() + failure_texts(rs).len() == rs.len(),
    decreases rs.len(),
{
    if rs.len() > 0 {
        lemma_sweep_counts_each(rs.drop_last());
    }
}

/// Tallies the sweep's results (bundle id and how its push ended), in order.
pub fn tally_sweep(results: &Vec<(String, SweepResult)>) -> (t: SweepTally)
    ensures
        t.pushed == count_pushed(results@),
        strings_view(t.remote_ahead@) == ahead_ids(results@),
        strings_view(t.failures@) == failure_texts(results@),
{
    let mut t = SweepTally { pushed: 0, remote_ahead: Vec::new(), failures: Vec::new() };
    let mut i: usize = 0;
    while i < results.len()
        invariant
            i <= results@.len(),
            t.pushed == count_pushed(results@.take(i as int)),
            t.pushed <= i,
            strings_view(t.remote_ahead@) == ahead_ids(results@.take(i as int)),
            strings_view(t.failures@) == failure_texts(results@.take(i as int)),
        decreases results.len() - i,
    {
        proof {
            assert(results@.take(i + 1).drop_last() =~= results@.take(i as int));
        }
        let ghost a0 = t.remote_ahead@;
        let ghost f0 = t.failures@;
        match &results[i].1 {
            SweepResult::Pushed => {
                t.pushed = t.pushed + 1;
            },
            SweepResult::RemoteAhead => {
                t.remote_ahead.push(results[i].0.clone());
                proof {
                    assert(strings_view(t.remote_ahead@) =~= strings_view(a0).push(results@[i as int].0@));
                }
            },
            SweepResult::Failed(m) => {
                t.failures.push(m.clone());
                proof {
                    assert(strings_view(t.failures@) =~= strings_view(f0).push(m@));
                }
            },
        }
        i += 1;
    }
    proof {
        assert(results@.take(results@.len() as int) =~= results@);
    }
    t
}

pub open spec fn skipped_text(ids: Seq<Seq<char>>) -> Seq<char> {
    join_seq(ids, ", "@)
        + ": the remote ledger is ahead; run `knit sync pull --bundles` to fast-forward, then push again, or overwrite the remote ledger with `knit sync push --bundles --force-with-lease`"@
}

/// The warning for the bundles skipped because the remote is ahead, if any.
pub fn sweep_skipped_warning(t: &SweepTally) -> (r: Option<String>)
    ensures
        t.remote_ahead@.len() == 0 ==> r is None,
        t.remote_ahead@.len() > 0 ==> (r matches Some(m) && m@ == skipped_text(strings_view(t.remote_ahead@))),
{
    if t.remote_ahead.len() == 0 {
        return None;
    }
    let j = join_strings(&t.remote_ahead, ", ");
    let mut v = chars_of(j.as_str());
    append_str(
        &mut v,
        ": the remote ledger is ahead; run `knit sync pull --bundles` to fast-forward, then push again, or overwrite the remote ledger with `knit sync push --bundles --force-with-lease`",
    );
    Some(string_from_chars(&v))
}

/// The sweep fails when any bundle failed, listing them.
pub fn sweep_result(t: &SweepTally) -> (r: Result<(), String>)
    ensures
        t.failures@.len() == 0 ==> r is Ok,
        t.failures@.len() > 0 ==> (r matches Err(m) && m@ == "failed to push "@ + decimal_seq(t.failures@.len())
            + " bundle artifact(s):\n"@ + join_seq(strings_view(t.failures@), "\n"@)),
{
    if t.failures.len() == 0 {
        return Ok(());
    }
    let mut v = chars_of("failed to push ");
    push_decimal(&mut v, t.failures.len() as u64);
    append_str(&mut v, " bundle artifact(s):\n");
    let j = join_strings(&t.failures, "\n");
    append_str(&mut v, j.as_str());
    Err(string_from_chars(&v))
}

/// The first request of a single bundle artifact push: the remote's
/// artifact index, for the lease hash, exactly when the force mode wants a
/// lease; otherwise the artifact itself.
pub enum ArtifactPushStart {
    FetchLease,
    Post(ArtifactForceFields),
}

pub fn artifact_push_start(force: PushForce) -> (s: ArtifactPushStart)
    ensures
        force == PushForce::WithLease <==> s is FetchLease,
        s matches ArtifactPushStart::Post(f) ==> f.force == (force == PushForce::Unconditional)
            && f.expected_artifact_hash is None,
{
    if force.wants_lease() {
        ArtifactPushStart::FetchLease
    } else {
        ArtifactPushStart::Post(artifact_force_fields(force, None))
    }
}

/// The lease hash read from the remote's artifact index (newest first): the
/// newest artifact's hash, none when the bundle has no artifact yet.
pub fn lease_from_index(hashes: &Vec<String>) -> (r: Option<String>)
    ensures
        match r {
            Some(h) => hashes@.len() > 0 && h@ == hashes@[0]@,
            None => hashes@.len() == 0,
        },
{
    if hashes.len() == 0 {
        None
    } else {
        Some(string_from_chars(&chars_of(hashes[0].as_str())))
    }
}

/// The force fields of the artifact post after the lease was fetched.
pub fn artifact_post_after_lease(lease: Option<&str>) -> (f: ArtifactForceFields)
    ensures
        f.force == lease is Some,
        match f.expected_artifact_hash {
            Some(h) => lease is Some && h@ == lease->0@,
            None => lease is None,
        },
{
    artifact_force_fields(PushForce::WithLease, lease)
}

/// What a single bundle push comes to from the remote's answer to the
/// artifact post: accepted unless refused (409); a refusal with kind
/// `leaseMismatch` reports the lease mismatch, any other refusal that the
/// remote is ahead and `knit pull` is needed.
pub fn single_push_reply(bundle_id: &str, status: u16, error_kind: Option<&str>, current_hash: Option<String>) -> (r: Result<
    (),
    String,
>)
    ensures
        status != 409 ==> r is Ok,
        status == 409 && (error_kind matches Some(k) && k@ == "leaseMismatch"@) ==> (r matches Err(m) && m@ == lease_text(
            bundle_id@,
            match current_hash {
                Some(h) => Some(h@),
                None => None,
            },
        )),
        status == 409 && !(error_kind matches Some(k) && k@ == "leaseMismatch"@) ==> (r matches Err(m) && m@
            == remote_ahead_text(bundle_id@)),
{
    let v = classify_artifact_push(status, error_kind, current_hash);
    match refused_push_message(bundle_id, &v) {
        Some(m) => Err(m),
        None => Ok(()),
    }
}

/// The failure lines of a sync to several remotes: one per remote whose
/// resolution or push failed, in order.
pub open spec fn remote_failures_spec(rs: Seq<(String, Option<String>)>) -> Seq<Seq<char>>
    decreases rs.len(),
{
    if rs.len() == 0 {
        Seq::empty()
    } else {
        let f = remote_failures_spec(rs.drop_last());
        match rs.last().1 {
            Some(e) => f.push(rs.last().0@ + ": "@ + e@),
            None => f,
        }
    }
}

/// Collects what pushing to each remote came to (`None` when it worked):
/// every remote is tried, and each failure is kept.
pub fn remote_sync_failures(results: &Vec<(String, Option<String>)>) -> (out: Vec<String>)
    ensures
        strings_view(out@) == remote_failures_spec(results@),
{
    let mut out: Vec<String> = Vec::new();
    let mut i: usize = 0;
    while i < results.len()
        invariant
            i <= results@.len(),
            strings_view(out@) == remote_failures_spec(results@.take(i as int)),
        decreases results.len() - i,
    {
        proof {
            assert(results@.take(i + 1).drop_last() =~= results@.take(i as int));
        }
        if let Some(e) = &results[i].1 {
            let mut v = chars_of(results[i].0.as_str());
            append_str(&mut v, ": ");
            append_str(&mut v, e.as_str());
            let line = string_from_chars(&v);
            proof {
                assert(strings_view(out@.push(line)) =~= strings_view(out@).push(line@));
            }
            out.push(line);
        }
        i += 1;
    }
    proof {
        assert(results@.take(results@.len() as int) =~= results@);
    }
    out
}

} // verus!
