//! Classification of a pull request's check runs: failed, pending, passed.
use vstd::prelude::*;

use crate::model::CheckRun;
use crate::text::{append_str, join_seq, str_eq, string_from_chars, strings_view};

verus! {

/// The optional string is present and spells `lit`.
pub open spec fn opt_is(o: Option<String>, lit: Seq<char>) -> bool {
    o is Some && o->0@ == lit
}

pub fn opt_str_is(o: &Option<String>, lit: &str) -> (b: bool)
    ensures
        b == opt_is(*o, lit@),
{
    match o {
        Some(s) => str_eq(s.as_str(), lit),
        None => false,
    }
}

/// A check run that failed or was cancelled.
pub open spec fn run_failed(r: CheckRun) -> bool {
    opt_is(r.bucket, "fail"@) || opt_is(r.bucket, "cancel"@) || opt_is(r.state, "FAILURE"@)
        || opt_is(r.state, "CANCELLED"@)
}

/// A check run that passed or was skipped.
pub open spec fn run_settled(r: CheckRun) -> bool {
    opt_is(r.bucket, "pass"@) || opt_is(r.bucket, "skipping"@) || opt_is(r.state, "SUCCESS"@)
        || opt_is(r.state, "SKIPPED"@)
}

pub fn run_is_failed(r: &CheckRun) -> (b: bool)
    ensures
        b == run_failed(*r),
{
    opt_str_is(&r.bucket, "fail") || opt_str_is(&r.bucket, "cancel") || opt_str_is(&r.state, "FAILURE")
        || opt_str_is(&r.state, "CANCELLED")
}

pub fn run_is_settled(r: &CheckRun) -> (b: bool)
    ensures
        b == run_settled(*r),
{
    opt_str_is(&r.bucket, "pass") || opt_str_is(&r.bucket, "skipping") || opt_str_is(&r.state, "SUCCESS")
        || opt_str_is(&r.state, "SKIPPED")
}

pub open spec fn any_failed(runs: Seq<CheckRun>) -> bool {
    exists|i: int| 0 <= i < runs.len() && run_failed(#[trigger] runs[i])
}

pub open spec fn any_pending(runs: Seq<CheckRun>) -> bool {
    exists|i: int| 0 <= i < runs.len() && !run_settled(#[trigger] runs[i])
}

/// Which check runs hold a landing back: a run is pending exactly when its
/// bucket is neither `pass` nor `skipping` and its state is neither
/// `SUCCESS` nor `SKIPPED`; so runs that all succeeded or were skipped, by
/// either report, are never pending. A run has failed exactly when its
/// bucket is `fail` or `cancel` or its state is `FAILURE` or `CANCELLED`.
pub proof fn lemma_check_run_classes(runs: Seq<CheckRun>)
    ensures
        any_pending(runs) <==> exists|i: int| 0 <= i < runs.len()
            && !((#[trigger] runs[i]).bucket matches Some(b) && (b@ == "pass"@ || b@ == "skipping"@))
            && !(runs[i].state matches Some(st) && (st@ == "SUCCESS"@ || st@ == "SKIPPED"@)),
        any_failed(runs) <==> exists|i: int| 0 <= i < runs.len()
            && (((#[trigger] runs[i]).bucket matches Some(b) && (b@ == "fail"@ || b@ == "cancel"@))
            || (runs[i].state matches Some(st) && (st@ == "FAILURE"@ || st@ == "CANCELLED"@))),
        (forall|i: int| 0 <= i < runs.len() ==> ((#[trigger] runs[i]).state matches Some(st) && (st@ == "SUCCESS"@ || st@ == "SKIPPED"@)))
            ==> !any_pending(runs),
{
}

/// The names of the failed runs, in order.
pub open spec fn failed_names(runs: Seq<CheckRun>) -> Seq<Seq<char>>
    decreases runs.len(),
{
    if runs.len() == 0 {
        Seq::empty()
    } else {
        let p = failed_names(runs.drop_last());
        if run_failed(runs.last()) {
            p.push(runs.last().name@)
        } else {
            p
        }
    }
}

proof fn lemma_failed_names_empty(runs: Seq<CheckRun>)
    ensures
        failed_names(runs).len() == 0 <==> !any_failed(runs),
    decreases runs.len(),
{
    if runs.len() > 0 {
        lemma_failed_names_empty(runs.drop_last());
        if any_failed(runs.drop_last()) {
            let i = choose|i: int| 0 <= i < runs.drop_last().len() && run_failed(#[trigger] runs.drop_last()[i]);
            assert(runs[i] == runs.drop_last()[i]);
        }
        if any_failed(runs) {
            let i = choose|i: int| 0 <= i < runs.len() && run_failed(#[trigger] runs[i]);
            if i < runs.len() - 1 {
                assert(runs.drop_last()[i] == runs[i]);
            }
        }
    }
}

/// The names of the failed runs, in order.
pub fn failed_check_names(runs: &Vec<CheckRun>) -> (out: Vec<String>)
    ensures
        strings_view(out@) == failed_names(runs@),
        out@.len() == 0 <==> !any_failed(runs@),
{
    let mut out: Vec<String> = Vec::new();
    let mut i: usize = 0;
    while i < runs.len()
        invariant
            i <= runs@.len(),
            strings_view(out@) == failed_names(runs@.take(i as int)),
        decreases runs.len() - i,
    {
        let ghost prev = out@;
        proof {
            assert(runs@.take(i + 1).drop_last() =~= runs@.take(i as int));
        }
        if run_is_failed(&runs[i]) {
            let n = runs[i].name.clone();
            out.push(n);
            proof {
                assert(strings_view(out@) =~= strings_view(prev).push(n@));
            }
        }
        i += 1;
    }
    proof {
        assert(runs@.take(runs@.len() as int) =~= runs@);
        lemma_failed_names_empty(runs@);
        assert(strings_view(out@).len() == out@.len());
    }
    out
}

pub fn any_run_failed(runs: &Vec<CheckRun>) -> (b: bool)
    ensures
        b == any_failed(runs@),
{
    let mut i: usize = 0;
    while i < runs.len()
        invariant
            i <= runs@.len(),
            forall|j: int| 0 <= j < i ==> !run_failed(#[trigger] runs@[j]),
        decreases runs.len() - i,
    {
        if run_is_failed(&runs[i]) {
            return true;
        }
        i += 1;
    }
    false
}

pub fn any_run_pending(runs: &Vec<CheckRun>) -> (b: bool)
    ensures
        b == any_pending(runs@),
{
    let mut i: usize = 0;
    while i < runs.len()
        invariant
            i <= runs@.len(),
            forall|j: int| 0 <= j < i ==> run_settled(#[trigger] runs@[j]),
        decreases runs.len() - i,
    {
        if !run_is_settled(&runs[i]) {
            return true;
        }
        i += 1;
    }
    false
}

/// Overall outcome of a set of check runs.
#[derive(Debug, Clone, Copy, PartialEq, Eq, Structural)]
pub enum ChecksOutcome {
    NoChecks,
    Passed,
    Pending,
    Failed,
    Unknown,
}

pub open spec fn checks_outcome(runs: Seq<CheckRun>) -> ChecksOutcome {
    if runs.len() == 0 {
        ChecksOutcome::NoChecks
    } else if any_failed(runs) {
        ChecksOutcome::Failed
    } else if any_pending(runs) {
        ChecksOutcome::Pending
    } else {
        ChecksOutcome::Passed
    }
}

pub open spec fn outcome_label(o: ChecksOutcome) -> Seq<char> {
    match o {
        ChecksOutcome::NoChecks => "none"@,
        ChecksOutcome::Passed => "passed"@,
        ChecksOutcome::Pending => "pending"@,
        ChecksOutcome::Failed => "failed"@,
        ChecksOutcome::Unknown => "unknown"@,
    }
}

/// A short label and the outcome of a set of check runs.
pub fn checks_label(runs: &Vec<CheckRun>) -> (r: (String, ChecksOutcome))
    ensures
        r.1 == checks_outcome(runs@),
        r.0@ == outcome_label(r.1),
{
    let mut v: Vec<char> = Vec::new();
    if runs.len() == 0 {
        append_str(&mut v, "none");
        return (string_from_chars(&v), ChecksOutcome::NoChecks);
    }
    if any_run_failed(runs) {
        append_str(&mut v, "failed");
        return (string_from_chars(&v), ChecksOutcome::Failed);
    }
    if any_run_pending(runs) {
        append_str(&mut v, "pending");
        (string_from_chars(&v), ChecksOutcome::Pending)
    } else {
        append_str(&mut v, "passed");
        (string_from_chars(&v), ChecksOutcome::Passed)
    }
}

/// The status line printed for a PR's required checks.
pub open spec fn status_label(runs: Seq<CheckRun>) -> Seq<char> {
    if runs.len() == 0 {
        "passed (no required checks)"@
    } else if any_failed(runs) {
        "failed ("@ + join_seq(failed_names(runs), ", "@) + ")"@
    } else if any_pending(runs) {
        "pending"@
    } else {
        "passed"@
    }
}

pub fn check_status_label(runs: &Vec<CheckRun>) -> (out: String)
    ensures
        out@ == status_label(runs@),
{
    let mut v: Vec<char> = Vec::new();
    if runs.len() == 0 {
        append_str(&mut v, "passed (no required checks)");
        return string_from_chars(&v);
    }
    let failed = failed_check_names(runs);
    if failed.len() > 0 {
        append_str(&mut v, "failed (");
        let joined = crate::text::join_strings(&failed, ", ");
        append_str(&mut v, joined.as_str());
        append_str(&mut v, ")");
        return string_from_chars(&v);
    }
    if any_run_pending(runs) {
        append_str(&mut v, "pending");
    } else {
        append_str(&mut v, "passed");
    }
    string_from_chars(&v)
}

} // verus!
