//! `knit pull`: what a pull updates, decided from its flags and from where
//! the bundle in context was resolved.
use vstd::prelude::*;

use crate::remote::RemoteBundleOutcome;
use crate::text::{
    append_str, chars_of, decimal_seq, join_chars, join_seq, push_decimal, split_chars, split_on, starts_with_chars,
    starts_with_seq, str_eq, string_from_chars, trim_chars, trim_seq, views_of,
};

verus! {

/// What a `knit pull` updates.
#[derive(Debug, Clone, Copy, PartialEq, Eq, Structural)]
pub enum PullAction {
    /// The aggregate report over the project's base checkouts, its current
    /// source checkouts, and every open bundle, as selected.
    Aggregate { base: bool, current: bool, bundles: bool },
    /// The answer depends on where the bundle in context was resolved:
    /// load it and ask `pull_in_context`.
    ResolveContext,
    /// Pull the bundle in context: its repos, then its remote artifact.
    Bundle,
}

/// The action of `knit pull [selectors] [--all] [--feature] [--main]
/// [--base] [--current] [--bundles]`. `--main` means `--current`.
pub fn pull(selectors: &Vec<String>, all: bool, feature: bool, main: bool, base: bool, current: bool, bundles: bool) -> (a: PullAction)
    ensures
        (base || current || main || bundles) ==> a == (PullAction::Aggregate { base, current: current || main, bundles }),
        !(base || current || main || bundles) ==> a == (if selectors@.len() == 0 && !all && !feature {
            PullAction::ResolveContext
        } else {
            PullAction::Bundle
        }),
{
    let current = current || main;
    if base || current || bundles {
        return PullAction::Aggregate { base, current, bundles };
    }
    if selectors.len() == 0 && !all && !feature {
        PullAction::ResolveContext
    } else {
        PullAction::Bundle
    }
}

/// A bare `knit pull` at the workspace base (the bundle in context came
/// from the workspace config) updates everything: current source checkouts
/// and every open bundle. Elsewhere it pulls the bundle in context.
pub fn pull_in_context(resolved_from_config: bool) -> (a: PullAction)
    ensures
        a == (if resolved_from_config {
            PullAction::Aggregate { base: false, current: true, bundles: true }
        } else {
            PullAction::Bundle
        }),
{
    if resolved_from_config {
        PullAction::Aggregate { base: false, current: true, bundles: true }
    } else {
        PullAction::Bundle
    }
}


/// What pulling one unit (a source checkout or a bundle) came to.
#[derive(Debug, Clone)]
pub enum PullOutcome {
    Advanced { before: String, after: String },
    Unchanged(String),
    Synced(String),
    Refreshed(String),
    Skipped(String),
    Failed(String),
}

/// The outcome of advancing a project's local base branch from `before`
/// (none when the branch did not exist) to `after`.
pub fn base_outcome(before: Option<String>, after: String) -> (o: PullOutcome)
    ensures
        match before {
            Some(b) => if b@ == after@ {
                o matches PullOutcome::Unchanged(s) && s@ == after@
            } else {
                o matches PullOutcome::Advanced { before: x, after: y } && x@ == b@ && y@ == after@
            },
            None => o matches PullOutcome::Advanced { before: x, after: y } && x@ == "(missing)"@ && y@
                == after@,
        },
{
    match before {
        Some(b) => path_outcome(b, after),
        None => PullOutcome::Advanced { before: string_from_chars(&chars_of("(missing)")), after },
    }
}

/// The outcome of a `git pull` that moved HEAD from `before` to `after`.
pub fn path_outcome(before: String, after: String) -> (o: PullOutcome)
    ensures
        if before@ == after@ {
            o matches PullOutcome::Unchanged(s) && s@ == after@
        } else {
            o matches PullOutcome::Advanced { before: x, after: y } && x@ == before@ && y@ == after@
        },
{
    if before == after {
        PullOutcome::Unchanged(after)
    } else {
        PullOutcome::Advanced { before, after }
    }
}

/// The outcome of pulling a bundle's remote state; none when no sync
/// remote is available.
pub fn bundle_outcome(r: Option<RemoteBundleOutcome>) -> (o: PullOutcome)
    ensures
        match r {
            None => o matches PullOutcome::Skipped(s) && s@ == "no sync remote available"@,
            Some(RemoteBundleOutcome::Pulled(h)) => o matches PullOutcome::Synced(s) && s@ == h@,
            Some(RemoteBundleOutcome::Merged(h)) => o matches PullOutcome::Synced(s) && s@ == h@
                + " (merged ledgers)"@,
            Some(RemoteBundleOutcome::Refreshed(t)) => o matches PullOutcome::Refreshed(s) && s@ == t@,
            Some(RemoteBundleOutcome::Skipped(t)) => o matches PullOutcome::Skipped(s) && s@ == t@,
        },
{
    match r {
        None => PullOutcome::Skipped(string_from_chars(&chars_of("no sync remote available"))),
        Some(RemoteBundleOutcome::Pulled(h)) => PullOutcome::Synced(h),
        Some(RemoteBundleOutcome::Merged(h)) => {
            let mut v = chars_of(h.as_str());
            append_str(&mut v, " (merged ledgers)");
            PullOutcome::Synced(string_from_chars(&v))
        },
        Some(RemoteBundleOutcome::Refreshed(t)) => PullOutcome::Refreshed(t),
        Some(RemoteBundleOutcome::Skipped(t)) => PullOutcome::Skipped(t),
    }
}

/// A reported line: non-blank and not git's `hint:` advice.
pub open spec fn reported_line(l: Seq<char>) -> bool {
    l.len() > 0 && !starts_with_seq(l, "hint:"@)
}

/// The trimmed lines that are reported, in order.
pub open spec fn reported_lines(lines: Seq<Seq<char>>) -> Seq<Seq<char>>
    decreases lines.len(),
{
    if lines.len() == 0 {
        Seq::empty()
    } else {
        let r = reported_lines(lines.drop_last());
        let t = trim_seq(lines.last());
        if reported_line(t) {
            r.push(t)
        } else {
            r
        }
    }
}

/// A multi-line error collapsed into one line: its trimmed lines, without
/// blank ones and git's `hint:` advice, joined by `; `.
pub open spec fn condense_spec(text: Seq<char>) -> Seq<char> {
    join_seq(reported_lines(split_on(text, '\n')), "; "@)
}

/// Collapses a multi-line error into a single reportable line.
pub fn condense(text: &str) -> (out: String)
    ensures
        out@ == condense_spec(text@),
{
    let v = chars_of(text);
    let lines = split_chars(&v, '\n');
    let hint = chars_of("hint:");
    let mut kept: Vec<Vec<char>> = Vec::new();
    let mut i: usize = 0;
    while i < lines.len()
        invariant
            i <= lines@.len(),
            hint@ == "hint:"@,
            views_of(kept@) == reported_lines(views_of(lines@).take(i as int)),
        decreases lines.len() - i,
    {
        proof {
            assert(views_of(lines@).take(i + 1).drop_last() =~= views_of(lines@).take(i as int));
        }
        let t = trim_chars(&lines[i]);
        let ghost k0 = kept@;
        if t.len() > 0 && !starts_with_chars(&t, &hint) {
            kept.push(t);
            proof {
                assert(views_of(kept@) =~= views_of(k0).push(t@));
            }
        }
        i += 1;
    }
    proof {
        assert(views_of(lines@).take(lines@.len() as int) =~= views_of(lines@));
    }
    let sep = chars_of("; ");
    let out = join_chars(&kept, &sep);
    string_from_chars(&out)
}

/// A failure reported as the condensed error text.
pub fn failed_outcome(error_text: &str) -> (o: PullOutcome)
    ensures
        o matches PullOutcome::Failed(s) && s@ == condense_spec(error_text@),
{
    PullOutcome::Failed(condense(error_text))
}

/// How many outcomes of each kind a pull report counts.
#[derive(Debug, Clone, Copy, PartialEq, Eq, Structural)]
pub struct PullTotals {
    pub advanced: usize,
    pub unchanged: usize,
    pub synced: usize,
    pub refreshed: usize,
    pub skipped: usize,
    pub failed: usize,
}

pub open spec fn kind_of(o: PullOutcome) -> int {
    match o {
        PullOutcome::Advanced { .. } => 0,
        PullOutcome::Unchanged(_) => 1,
        PullOutcome::Synced(_) => 2,
        PullOutcome::Refreshed(_) => 3,
        PullOutcome::Skipped(_) => 4,
        PullOutcome::Failed(_) => 5,
    }
}

/// The number of outcomes of kind `k`.
pub open spec fn count_kind(os: Seq<PullOutcome>, k: int) -> nat
    decreases os.len(),
{
    if os.len() == 0 {
        0
    } else {
        count_kind(os.drop_last(), k) + (if kind_of(os.last()) == k { 1nat } else { 0nat })
    }
}

impl PullTotals {
    pub open spec fn sum(self) -> int {
        self.advanced + self.unchanged + self.synced + self.refreshed + self.skipped + self.failed
    }
}

/// Counts the outcomes by kind.
pub fn tally_outcomes(outcomes: &Vec<PullOutcome>) -> (t: PullTotals)
    ensures
        t.advanced == count_kind(outcomes@, 0),
        t.unchanged == count_kind(outcomes@, 1),
        t.synced == count_kind(outcomes@, 2),
        t.refreshed == count_kind(outcomes@, 3),
        t.skipped == count_kind(outcomes@, 4),
        t.failed == count_kind(outcomes@, 5),
        t.sum() == outcomes@.len(),
{
    let mut t = PullTotals { advanced: 0, unchanged: 0, synced: 0, refreshed: 0, skipped: 0, failed: 0 };
    let mut i: usize = 0;
    while i < outcomes.len()
        invariant
            i <= outcomes@.len(),
            t.advanced == count_kind(outcomes@.take(i as int), 0),
            t.unchanged == count_kind(outcomes@.take(i as int), 1),
            t.synced == count_kind(outcomes@.take(i as int), 2),
            t.refreshed == count_kind(outcomes@.take(i as int), 3),
            t.skipped == count_kind(outcomes@.take(i as int), 4),
            t.failed == count_kind(outcomes@.take(i as int), 5),
            t.sum() == i,
        decreases outcomes.len() - i,
    {
        proof {
            assert(outcomes@.take(i + 1).drop_last() =~= outcomes@.take(i as int));
        }
        match &outcomes[i] {
            PullOutcome::Advanced { .. } => t.advanced = t.advanced + 1,
            PullOutcome::Unchanged(_) => t.unchanged = t.unchanged + 1,
            PullOutcome::Synced(_) => t.synced = t.synced + 1,
            PullOutcome::Refreshed(_) => t.refreshed = t.refreshed + 1,
            PullOutcome::Skipped(_) => t.skipped = t.skipped + 1,
            PullOutcome::Failed(_) => t.failed = t.failed + 1,
        }
        i += 1;
    }
    proof {
        assert(outcomes@.take(outcomes@.len() as int) =~= outcomes@);
    }
    t
}

/// The closing line of a pull report.
pub fn totals_line(t: &PullTotals) -> (line: String)
    ensures
        line@ == "Pulled: "@ + decimal_seq(t.advanced as nat) + " advanced, "@ + decimal_seq(t.unchanged as nat)
            + " unchanged, "@ + decimal_seq(t.synced as nat) + " synced, "@ + decimal_seq(t.refreshed as nat)
            + " refreshed, "@ + decimal_seq(t.skipped as nat) + " skipped, "@ + decimal_seq(t.failed as nat)
            + " failed"@,
{
    let mut v = chars_of("Pulled: ");
    push_decimal(&mut v, t.advanced as u64);
    append_str(&mut v, " advanced, ");
    push_decimal(&mut v, t.unchanged as u64);
    append_str(&mut v, " unchanged, ");
    push_decimal(&mut v, t.synced as u64);
    append_str(&mut v, " synced, ");
    push_decimal(&mut v, t.refreshed as u64);
    append_str(&mut v, " refreshed, ");
    push_decimal(&mut v, t.skipped as u64);
    append_str(&mut v, " skipped, ");
    push_decimal(&mut v, t.failed as u64);
    append_str(&mut v, " failed");
    string_from_chars(&v)
}

/// The project whose repos an aggregate pull updates: the workspace's
/// active project, when base or current checkouts are pulled at all. With
/// none, project-wide targets have nothing to update while the requested
/// bundles are still pulled.
pub fn aggregate_project(base: bool, current: bool, active_project: &Option<String>) -> (r: Option<String>)
    ensures
        r == (if base || current { *active_project } else { None::<String> }),
{
    if base || current {
        match active_project {
            Some(p) => Some(p.clone()),
            None => None,
        }
    } else {
        None
    }
}

/// Which open bundles an aggregate pull refreshes deeply, materializing
/// missing worktrees: only the workspace's active bundle. Every other open
/// bundle only refreshes the checkouts it already has.
pub fn materialize_flags(bundle_ids: &Vec<String>, active_bundle: &Option<String>) -> (flags: Vec<bool>)
    ensures
        flags@.len() == bundle_ids@.len(),
        forall|k: int| 0 <= k < bundle_ids@.len() ==> #[trigger] flags@[k] == (active_bundle matches Some(a) && a@
            == bundle_ids@[k]@),
{
    let mut flags: Vec<bool> = Vec::new();
    let mut k: usize = 0;
    while k < bundle_ids.len()
        invariant
            k <= bundle_ids@.len(),
            flags@.len() == k,
            forall|j: int| 0 <= j < k ==> #[trigger] flags@[j] == (active_bundle matches Some(a) && a@ == bundle_ids@[j]@),
        decreases bundle_ids.len() - k,
    {
        let m = match active_bundle {
            Some(a) => str_eq(a.as_str(), bundle_ids[k].as_str()),
            None => false,
        };
        flags.push(m);
        k += 1;
    }
    flags
}

/// The outcome is a failure.
pub open spec fn is_failed(o: PullOutcome) -> bool {
    o matches PullOutcome::Failed(_)
}

/// The end of an aggregate pull, once every outcome is reported: it fails
/// when any project base branch could not be updated; failures of current
/// checkouts or bundles are only reported.
pub fn aggregate_result(base_results: &Vec<(String, PullOutcome)>) -> (r: Result<(), String>)
    ensures
        r is Err <==> exists|k: int| 0 <= k < base_results@.len() && is_failed(#[trigger] base_results@[k].1),
        r matches Err(m) ==> m@ == "one or more configured base branches could not be updated"@,
{
    let mut k: usize = 0;
    while k < base_results.len()
        invariant
            k <= base_results@.len(),
            forall|j: int| 0 <= j < k ==> !is_failed(#[trigger] base_results@[j].1),
        decreases base_results.len() - k,
    {
        if let PullOutcome::Failed(_) = &base_results[k].1 {
            return Err(string_from_chars(&chars_of("one or more configured base branches could not be updated")));
        }
        k += 1;
    }
    Ok(())
}

} // verus!
