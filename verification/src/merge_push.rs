//! `knit merge push`: which steps of a merge run are pushed, what stops a
//! step from being pushed, and when the push as a whole fails.
use vstd::prelude::*;

use crate::merge_run::{MergeRunStatus, MergeStepStatus};
use crate::text::{
    append_str, chars_of, join_seq, join_strings, slugify, slugify_seq, str_eq, string_from_chars, strings_view,
};

verus! {

/// What pushing reads of one merge step.
pub struct MergePushStep {
    pub repo_id: String,
    pub target: String,
    /// The step merged into a branch (not into a bundle).
    pub target_is_branch: bool,
    pub status: MergeStepStatus,
    pub after_sha: Option<String>,
}

/// What happens to one step.
pub enum PushDecision {
    /// Not pushed: not a branch target, or filtered out.
    Skip,
    /// Counted, but cannot be pushed: the failure line.
    Refuse(String),
    /// Push the merged head after checking the checkout is still there.
    Push { after_sha: String },
}

/// The step is pushed by this run: a branch target, and selected by the
/// repo filter (slugs of the repos named; empty means every repo).
pub open spec fn eligible(step: MergePushStep, filter: Seq<Seq<char>>) -> bool {
    step.target_is_branch && (filter.len() == 0 || filter.map_values(|r: Seq<char>| slugify_seq(r)).contains(step.repo_id@))
}

pub open spec fn decision_holds(d: PushDecision, step: MergePushStep, filter: Seq<Seq<char>>) -> bool {
    if !eligible(step, filter) {
        d is Skip
    } else if step.status != MergeStepStatus::Succeeded {
        d matches PushDecision::Refuse(m) && m@ == step.repo_id@ + ": step is "@ + step.status.label() + ", expected succeeded"@
    } else {
        match step.after_sha {
            None => d matches PushDecision::Refuse(m) && m@ == step.repo_id@ + ": no afterSha recorded"@,
            Some(a) => d matches PushDecision::Push { after_sha } && after_sha@ == a@,
        }
    }
}

fn in_filter(filter: &Vec<String>, repo_id: &str) -> (b: bool)
    ensures
        b == strings_view(filter@).map_values(|r: Seq<char>| slugify_seq(r)).contains(repo_id@),
{
    let ghost slugs = strings_view(filter@).map_values(|r: Seq<char>| slugify_seq(r));
    let mut i: usize = 0;
    while i < filter.len()
        invariant
            i <= filter@.len(),
            slugs == strings_view(filter@).map_values(|r: Seq<char>| slugify_seq(r)),
            forall|j: int| 0 <= j < i ==> slugs[j] != repo_id@,
        decreases filter.len() - i,
    {
        if str_eq(slugify(filter[i].as_str()).as_str(), repo_id) {
            proof {
                assert(slugs[i as int] == repo_id@);
            }
            return true;
        }
        i += 1;
    }
    false
}

/// The decision for one step.
pub fn push_decision(step: &MergePushStep, filter: &Vec<String>) -> (d: PushDecision)
    ensures
        decision_holds(d, *step, strings_view(filter@)),
{
    proof {
        assert(strings_view(filter@).len() == filter@.len());
    }
    if !step.target_is_branch || (filter.len() > 0 && !in_filter(filter, step.repo_id.as_str())) {
        return PushDecision::Skip;
    }
    if step.status != MergeStepStatus::Succeeded {
        let mut v = chars_of(step.repo_id.as_str());
        append_str(&mut v, ": step is ");
        append_str(&mut v, step.status.as_str());
        append_str(&mut v, ", expected succeeded");
        return PushDecision::Refuse(string_from_chars(&v));
    }
    match &step.after_sha {
        None => {
            let mut v = chars_of(step.repo_id.as_str());
            append_str(&mut v, ": no afterSha recorded");
            PushDecision::Refuse(string_from_chars(&v))
        },
        Some(a) => PushDecision::Push { after_sha: string_from_chars(&chars_of(a.as_str())) },
    }
}

/// A pushed step's checkout must still be at the merged head; `head_short`
/// and `after_short` are the abbreviated shas reported.
pub fn head_mismatch(repo_id: &str, head: &str, after_sha: &str, head_short: &str, after_short: &str) -> (r: Option<String>)
    ensures
        head@ == after_sha@ <==> r is None,
        r matches Some(m) ==> m@ == repo_id@ + ": checkout HEAD "@ + head_short@ + " does not match merge run afterSha "@
            + after_short@,
{
    if str_eq(head, after_sha) {
        return None;
    }
    let mut v = chars_of(repo_id);
    append_str(&mut v, ": checkout HEAD ");
    append_str(&mut v, head_short);
    append_str(&mut v, " does not match merge run afterSha ");
    append_str(&mut v, after_short);
    Some(string_from_chars(&v))
}

/// The push fails when any step failed; otherwise when no step was
/// eligible.
pub fn merge_push_result(failures: &Vec<String>, eligible_count: usize) -> (r: Result<(), String>)
    ensures
        failures@.len() > 0 ==> (r matches Err(m) && m@ == "merge push failed:\n"@ + join_seq(strings_view(failures@), "\n"@)),
        failures@.len() == 0 && eligible_count == 0 ==> (r matches Err(m) && m@ == "Merge run has no branch-target steps to push."@),
        failures@.len() == 0 && eligible_count > 0 ==> r is Ok,
{
    if failures.len() > 0 {
        let mut v = chars_of("merge push failed:\n");
        append_str(&mut v, join_strings(failures, "\n").as_str());
        return Err(string_from_chars(&v));
    }
    if eligible_count == 0 {
        return Err(string_from_chars(&chars_of("Merge run has no branch-target steps to push.")));
    }
    Ok(())
}

pub open spec fn statuses_text(s: Seq<MergeRunStatus>) -> Seq<char>
    decreases s.len(),
{
    if s.len() == 0 {
        Seq::empty()
    } else if s.len() == 1 {
        s[0].label()
    } else {
        statuses_text(s.drop_last()) + ", "@ + s.last().label()
    }
}

/// A selected merge run must be in one of `allowed` (any status when none
/// is given).
pub fn check_run_status(run_id: &str, status: MergeRunStatus, allowed: &Vec<MergeRunStatus>) -> (r: Result<(), String>)
    ensures
        r is Ok <==> (allowed@.len() == 0 || allowed@.contains(status)),
        r matches Err(m) ==> m@ == "Merge run "@ + run_id@ + " is "@ + status.label() + ", expected one of "@ + statuses_text(
            allowed@,
        ) + "."@,
{
    if allowed.len() == 0 {
        return Ok(());
    }
    let mut i: usize = 0;
    while i < allowed.len()
        invariant
            i <= allowed@.len(),
            forall|j: int| 0 <= j < i ==> allowed@[j] != status,
        decreases allowed.len() - i,
    {
        if allowed[i] == status {
            return Ok(());
        }
        i += 1;
    }
    let mut v = chars_of("Merge run ");
    append_str(&mut v, run_id);
    append_str(&mut v, " is ");
    append_str(&mut v, status.as_str());
    append_str(&mut v, ", expected one of ");
    let mut k: usize = 0;
    let ghost start = v@;
    while k < allowed.len()
        invariant
            k <= allowed@.len(),
            v@ == start + statuses_text(allowed@.take(k as int)),
        decreases allowed.len() - k,
    {
        proof {
            assert(allowed@.take(k + 1).drop_last() =~= allowed@.take(k as int));
        }
        if k > 0 {
            append_str(&mut v, ", ");
        }
        append_str(&mut v, allowed[k].as_str());
        proof {
            if k == 0 {
                assert(statuses_text(allowed@.take(1)) == allowed@[0].label());
            }
        }
        k += 1;
    }
    proof {
        assert(allowed@.take(allowed@.len() as int) =~= allowed@);
    }
    append_str(&mut v, ".");
    Err(string_from_chars(&v))
}

} // verus!
