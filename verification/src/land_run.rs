//! Land run bookkeeping and the readiness rules checked before a step runs:
//! dependency status, PR state, required checks, step repo ids and target
//! branches.
use vstd::prelude::*;

use crate::checks::{any_failed, any_pending, any_run_pending, failed_check_names, failed_names};
use crate::land_types::{
    LandPlan, LandRun, LandRunStep, LandStatus, LandStep, LandStepKind, LAND_RUN_KIND,
    SCHEMA_VERSION, needs_of,
};
use crate::model::{is_conflicting, pr_conflicting, pr_state, publication_for_repo, ChangeGroup, PullRequest, has_publication, is_publication_index};
use crate::text::{
    append_str, chars_of, decimal_seq, is_blank, join_seq, push_decimal, str_eq, string_from_chars,
    trim_chars, trim_seq, join_strings,
};

verus! {

/// Why a land step or run cannot proceed.
#[derive(Debug, Clone)]
pub enum LandError {
    MissingDependency { need: String },
    WaitingFor { step: String, need: String, status: LandStatus },
    Draft { repo: String, number: u64 },
    Conflicting { repo: String, number: u64 },
    NotOpen { repo: String, number: u64, state: String },
    ChecksFailed { repo: String, names: String },
    ChecksPending { repo: String },
    MissingRepoId { step: String },
    EmptyTarget,
    TargetMismatch { planned: String, requested: String },
}

impl LandError {
    pub open spec fn text(&self) -> Seq<char> {
        match self {
            LandError::MissingDependency { need } => "run is missing dependency step `"@ + need@ + "`"@,
            LandError::WaitingFor { step, need, status } => "step `"@ + step@ + "` is waiting for `"@
                + need@ + "`, which is "@ + status.label(),
            LandError::Draft { repo, number } => repo@ + ": PR #"@ + decimal_seq(*number as nat)
                + " is a draft."@,
            LandError::Conflicting { repo, number } => repo@ + ": PR #"@ + decimal_seq(
                *number as nat,
            )
                + " has merge conflicts with its base branch. Run `knit land update` to merge the base in and resolve them, then land again."@,
            LandError::NotOpen { repo, number, state } => repo@ + ": PR #"@ + decimal_seq(
                *number as nat,
            ) + " is "@ + state@ + ", expected OPEN."@,
            LandError::ChecksFailed { repo, names } => repo@ + ": required checks failed: "@ + names@,
            LandError::ChecksPending { repo } => repo@ + ": required checks are pending."@,
            LandError::MissingRepoId { step } => "step `"@ + step@ + "` must provide repoId"@,
            LandError::EmptyTarget => "--target must name a non-empty branch"@,
            LandError::TargetMismatch { planned, requested } => "Land plan targets "@ + planned@
                + ", not `"@ + requested@ + "`. Regenerate it with `knit land --target "@
                + requested@ + " plan --force`, inspect it, then apply again."@,
        }
    }

    /// The human-readable message for this error.
    pub fn message(&self) -> (out: String)
        ensures
            out@ == self.text(),
    {
        let mut v: Vec<char> = Vec::new();
        match self {
            LandError::MissingDependency { need } => {
                append_str(&mut v, "run is missing dependency step `");
                append_str(&mut v, need.as_str());
                append_str(&mut v, "`");
            },
            LandError::WaitingFor { step, need, status } => {
                append_str(&mut v, "step `");
                append_str(&mut v, step.as_str());
                append_str(&mut v, "` is waiting for `");
                append_str(&mut v, need.as_str());
                append_str(&mut v, "`, which is ");
                append_str(&mut v, status.as_str());
            },
            LandError::Draft { repo, number } => {
                append_str(&mut v, repo.as_str());
                append_str(&mut v, ": PR #");
                push_decimal(&mut v, *number);
                append_str(&mut v, " is a draft.");
            },
            LandError::Conflicting { repo, number } => {
                append_str(&mut v, repo.as_str());
                append_str(&mut v, ": PR #");
                push_decimal(&mut v, *number);
                append_str(
                    &mut v,
                    " has merge conflicts with its base branch. Run `knit land update` to merge the base in and resolve them, then land again.",
                );
            },
            LandError::NotOpen { repo, number, state } => {
                append_str(&mut v, repo.as_str());
                append_str(&mut v, ": PR #");
                push_decimal(&mut v, *number);
                append_str(&mut v, " is ");
                append_str(&mut v, state.as_str());
                append_str(&mut v, ", expected OPEN.");
            },
            LandError::ChecksFailed { repo, names } => {
                append_str(&mut v, repo.as_str());
                append_str(&mut v, ": required checks failed: ");
                append_str(&mut v, names.as_str());
            },
            LandError::ChecksPending { repo } => {
                append_str(&mut v, repo.as_str());
                append_str(&mut v, ": required checks are pending.");
            },
            LandError::MissingRepoId { step } => {
                append_str(&mut v, "step `");
                append_str(&mut v, step.as_str());
                append_str(&mut v, "` must provide repoId");
            },
            LandError::EmptyTarget => {
                append_str(&mut v, "--target must name a non-empty branch");
            },
            LandError::TargetMismatch { planned, requested } => {
                append_str(&mut v, "Land plan targets ");
                append_str(&mut v, planned.as_str());
                append_str(&mut v, ", not `");
                append_str(&mut v, requested.as_str());
                append_str(&mut v, "`. Regenerate it with `knit land --target ");
                append_str(&mut v, requested.as_str());
                append_str(&mut v, " plan --force`, inspect it, then apply again.");
            },
        }
        string_from_chars(&v)
    }
}

/// Index of the first run step recorded for `id`.
pub open spec fn is_run_step_index(run: LandRun, id: Seq<char>, i: int) -> bool {
    0 <= i < run.steps@.len() && run.steps@[i].id@ == id && forall|j: int|
        0 <= j < i ==> run.steps@[j].id@ != id
}

pub open spec fn has_run_step(run: LandRun, id: Seq<char>) -> bool {
    exists|i: int| 0 <= i < run.steps@.len() && run.steps@[i].id@ == id
}

/// The position of the run's record for step `id`.
pub fn run_step(run: &LandRun, id: &str) -> (r: Option<usize>)
    ensures
        match r {
            Some(i) => is_run_step_index(*run, id@, i as int),
            None => !has_run_step(*run, id@),
        },
{
    let mut i: usize = 0;
    while i < run.steps.len()
        invariant
            i <= run.steps@.len(),
            forall|j: int| 0 <= j < i ==> run.steps@[j].id@ != id@,
        decreases run.steps.len() - i,
    {
        if str_eq(run.steps[i].id.as_str(), id) {
            return Some(i);
        }
        i += 1;
    }
    None
}

/// The recorded status of step `id` in the run, if it has a record.
pub open spec fn recorded_status(run: LandRun, id: Seq<char>) -> Option<LandStatus> {
    if has_run_step(run, id) {
        Some(run.steps@[choose|i: int| is_run_step_index(run, id, i)].status)
    } else {
        None
    }
}

pub proof fn lemma_recorded_status(run: LandRun, id: Seq<char>, i: int)
    requires
        is_run_step_index(run, id, i),
    ensures
        recorded_status(run, id) == Some(run.steps@[i].status),
{
    let c = choose|c: int| is_run_step_index(run, id, c);
    assert(is_run_step_index(run, id, c));
    if c < i {
        assert(run.steps@[c].id@ == id);
    } else if i < c {
        assert(run.steps@[i].id@ == id);
    }
}

/// Need `x` of a step has succeeded in the run.
pub open spec fn need_succeeded(run: LandRun, x: Seq<char>) -> bool {
    recorded_status(run, x) == Some(LandStatus::Succeeded)
}

/// Every need of `step` has succeeded in the run.
pub open spec fn needs_met(run: LandRun, step: LandStep) -> bool {
    forall|k: int| 0 <= k < needs_of(step).len() ==> need_succeeded(run, #[trigger] needs_of(step)[k])
}

/// `e` reports the first need of `step` that has not succeeded: one the run
/// has no record of, or one recorded with another status.
pub open spec fn needs_error(run: LandRun, step: LandStep, e: LandError) -> bool {
    match e {
        LandError::MissingDependency { need } => exists|k: int|
            0 <= k < needs_of(step).len() && need@ == needs_of(step)[k] && recorded_status(run, need@) is None
                && forall|k2: int| 0 <= k2 < k ==> need_succeeded(run, #[trigger] needs_of(step)[k2]),
        LandError::WaitingFor { step: s, need, status } => exists|k: int|
            0 <= k < needs_of(step).len() && need@ == needs_of(step)[k] && recorded_status(run, need@)
                == Some(status) && status != LandStatus::Succeeded && s@ == step.id@ && forall|k2: int|
                0 <= k2 < k ==> need_succeeded(run, #[trigger] needs_of(step)[k2]),
        _ => false,
    }
}

/// Refuses to run a step whose needs have not all succeeded in the run; the
/// first unmet need (in the step's order) is reported.
pub fn ensure_needs_succeeded(run: &LandRun, step: &LandStep) -> (r: Result<(), LandError>)
    ensures
        r is Ok <==> needs_met(*run, *step),
        match r {
            Ok(()) => true,
            Err(e) => needs_error(*run, *step, e),
        },
{
    let mut k: usize = 0;
    while k < step.needs.len()
        invariant
            k <= step.needs@.len(),
            needs_of(*step).len() == step.needs@.len(),
            forall|k2: int| 0 <= k2 < k ==> need_succeeded(*run, #[trigger] needs_of(*step)[k2]),
        decreases step.needs.len() - k,
    {
        let need = &step.needs[k];
        proof {
            assert(needs_of(*step)[k as int] == need@);
        }
        match run_step(run, need.as_str()) {
            None => {
                return Err(LandError::MissingDependency { need: need.clone() });
            },
            Some(i) => {
                proof {
                    lemma_recorded_status(*run, need@, i as int);
                }
                let status = run.steps[i].status;
                if status != LandStatus::Succeeded {
                    return Err(
                        LandError::WaitingFor { step: step.id.clone(), need: need.clone(), status },
                    );
                }
            },
        }
        k += 1;
    }
    Ok(())
}

/// Refuses a PR that is a draft, not open, or conflicting with its base.
pub fn ensure_open_and_ready(repo_id: &str, pr: &PullRequest) -> (r: Result<(), LandError>)
    ensures
        r is Ok <==> (pr.is_draft != Some(true) && pr_state(*pr) == "OPEN"@ && !pr_conflicting(*pr)),
        match r {
            Ok(()) => true,
            Err(LandError::Draft { repo, number }) => pr.is_draft == Some(true) && repo@ == repo_id@
                && number == pr.number,
            Err(LandError::Conflicting { repo, number }) => pr.is_draft != Some(true) && pr_state(*pr)
                == "OPEN"@ && pr_conflicting(*pr) && repo@ == repo_id@ && number == pr.number,
            Err(LandError::NotOpen { repo, number, state }) => pr.is_draft != Some(true) && pr_state(*pr)
                != "OPEN"@ && state@ == pr_state(*pr) && repo@ == repo_id@ && number == pr.number,
            Err(_) => false,
        },
{
    let repo = string_from_chars(&chars_of(repo_id));
    if pr.is_draft == Some(true) {
        return Err(LandError::Draft { repo, number: pr.number });
    }
    let state = match &pr.state {
        Some(s) => s.clone(),
        None => string_from_chars(&chars_of("UNKNOWN")),
    };
    if str_eq(state.as_str(), "OPEN") {
        if is_conflicting(pr) {
            return Err(LandError::Conflicting { repo, number: pr.number });
        }
        Ok(())
    } else {
        Err(LandError::NotOpen { repo, number: pr.number, state })
    }
}

/// Refuses to retarget a PR that is a draft or not open.
pub fn ensure_open_for_retarget(repo_id: &str, pr: &PullRequest) -> (r: Result<(), LandError>)
    ensures
        r is Ok <==> (pr.is_draft != Some(true) && pr_state(*pr) == "OPEN"@),
        match r {
            Ok(()) => true,
            Err(LandError::Draft { repo, number }) => pr.is_draft == Some(true) && repo@ == repo_id@
                && number == pr.number,
            Err(LandError::NotOpen { repo, number, state }) => pr.is_draft != Some(true) && pr_state(*pr)
                != "OPEN"@ && state@ == pr_state(*pr) && repo@ == repo_id@ && number == pr.number,
            Err(_) => false,
        },
{
    let repo = string_from_chars(&chars_of(repo_id));
    if pr.is_draft == Some(true) {
        return Err(LandError::Draft { repo, number: pr.number });
    }
    let state = match &pr.state {
        Some(s) => s.clone(),
        None => string_from_chars(&chars_of("UNKNOWN")),
    };
    if str_eq(state.as_str(), "OPEN") {
        Ok(())
    } else {
        Err(LandError::NotOpen { repo, number: pr.number, state })
    }
}

/// Refuses to land while a required check failed or is still pending.
pub fn ensure_checks_ready(repo_id: &str, runs: &Vec<crate::model::CheckRun>) -> (r: Result<(), LandError>)
    ensures
        r is Ok <==> (!any_failed(runs@) && !any_pending(runs@)),
        match r {
            Ok(()) => true,
            Err(LandError::ChecksFailed { repo, names }) => any_failed(runs@) && repo@ == repo_id@ && names@
                == join_seq(failed_names(runs@), ", "@),
            Err(LandError::ChecksPending { repo }) => !any_failed(runs@) && any_pending(runs@) && repo@
                == repo_id@,
            Err(_) => false,
        },
{
    let failed = failed_check_names(runs);
    if failed.len() > 0 {
        let names = join_strings(&failed, ", ");
        return Err(LandError::ChecksFailed { repo: string_from_chars(&chars_of(repo_id)), names });
    }
    if any_run_pending(runs) {
        return Err(LandError::ChecksPending { repo: string_from_chars(&chars_of(repo_id)) });
    }
    Ok(())
}

/// The step has a non-blank repo id.
pub open spec fn has_repo_id(step: LandStep) -> bool {
    step.repo_id is Some && trim_seq(step.repo_id->0@).len() > 0
}

/// The repo a step acts on; merge, wait-checks and deploy steps need one.
pub fn required_repo_id(step: &LandStep) -> (r: Result<String, LandError>)
    ensures
        r is Ok <==> has_repo_id(*step),
        match r {
            Ok(id) => id@ == step.repo_id->0@,
            Err(LandError::MissingRepoId { step: s }) => s@ == step.id@,
            Err(_) => false,
        },
{
    match &step.repo_id {
        Some(id) => {
            if is_blank(id.as_str()) {
                Err(LandError::MissingRepoId { step: step.id.clone() })
            } else {
                Ok(id.clone())
            }
        },
        None => Err(LandError::MissingRepoId { step: step.id.clone() }),
    }
}

/// The `--target` branch, trimmed; a blank one is refused.
pub fn normalize_target_branch(target: Option<&str>) -> (r: Result<Option<String>, LandError>)
    ensures
        match target {
            None => r == Ok::<Option<String>, LandError>(None),
            Some(t) => match r {
                Ok(Some(b)) => b@ == trim_seq(t@) && b@.len() > 0,
                Err(LandError::EmptyTarget) => trim_seq(t@).len() == 0,
                _ => false,
            },
        },
{
    match target {
        None => Ok(None),
        Some(t) => {
            let v = chars_of(t);
            let trimmed = trim_chars(&v);
            if trimmed.len() == 0 {
                Err(LandError::EmptyTarget)
            } else {
                Ok(Some(string_from_chars(&trimmed)))
            }
        },
    }
}

/// Refuses a `--target` that differs from the branch the plan targets.
pub fn ensure_requested_target_matches_plan(requested: Option<&str>, plan: &LandPlan) -> (r: Result<
    (),
    LandError,
>)
    ensures
        r is Ok <==> (requested is None || (plan.target_branch is Some && plan.target_branch->0@
            == requested->0@)),
        match r {
            Ok(()) => true,
            Err(LandError::TargetMismatch { planned, requested: req }) => requested is Some && req@
                == requested->0@ && planned@ == (match plan.target_branch {
                Some(b) => b@,
                None => "recorded PR bases"@,
            }),
            Err(_) => false,
        },
{
    match requested {
        None => Ok(()),
        Some(req) => {
            match &plan.target_branch {
                Some(b) => {
                    if str_eq(b.as_str(), req) {
                        return Ok(());
                    }
                    Err(
                        LandError::TargetMismatch {
                            planned: b.clone(),
                            requested: string_from_chars(&chars_of(req)),
                        },
                    )
                },
                None => Err(
                    LandError::TargetMismatch {
                        planned: string_from_chars(&chars_of("recorded PR bases")),
                        requested: string_from_chars(&chars_of(req)),
                    },
                ),
            }
        },
    }
}

/// A run step that merged a PR and recorded its repo and URL.
pub open spec fn is_merged_record(s: LandRunStep) -> bool {
    s.step_type == LandStepKind::MergePr && s.status == LandStatus::Succeeded && s.repo_id is Some
        && s.publication_url is Some
}

/// The `(repo, url)` pairs of the merge steps the run completed, in order.
pub open spec fn merged_pairs(steps: Seq<LandRunStep>) -> Seq<(Seq<char>, Seq<char>)>
    decreases steps.len(),
{
    if steps.len() == 0 {
        Seq::empty()
    } else {
        let p = merged_pairs(steps.drop_last());
        let s = steps.last();
        if is_merged_record(s) {
            p.push((s.repo_id->0@, s.publication_url->0@))
        } else {
            p
        }
    }
}

/// Record `i` of the run is a merge-PR step that succeeded, naming the
/// pair's repo and PR URL.
pub open spec fn merged_by(steps: Seq<LandRunStep>, i: int, pair: (Seq<char>, Seq<char>)) -> bool {
    &&& 0 <= i < steps.len()
    &&& steps[i].step_type == LandStepKind::MergePr
    &&& steps[i].status == LandStatus::Succeeded
    &&& steps[i].repo_id is Some && steps[i].repo_id->0@ == pair.0
    &&& steps[i].publication_url is Some && steps[i].publication_url->0@ == pair.1
}

/// Some record of the run merged the pair.
pub open spec fn merged_in(steps: Seq<LandRunStep>, pair: (Seq<char>, Seq<char>)) -> bool {
    exists|i: int| merged_by(steps, i, pair)
}

/// What a rollback reverts is exactly what the run merged: each
/// `(repo, url)` pair comes from a record of the run that is a merge-PR
/// step, has succeeded, and names that repo and PR URL (`merged_by`); and
/// each such record gives its pair. A merge step that failed, is pending or
/// is still running never does.
pub proof fn lemma_merged_pairs_are_merged_steps(steps: Seq<LandRunStep>)
    ensures
        forall|k: int| 0 <= k < merged_pairs(steps).len() ==> merged_in(steps, #[trigger] merged_pairs(steps)[k]),
        forall|i: int, pair: (Seq<char>, Seq<char>)| #[trigger] merged_by(steps, i, pair) ==> merged_pairs(steps).contains(pair),
        merged_pairs(steps).len() <= steps.len(),
    decreases steps.len(),
{
    if steps.len() > 0 {
        let q = steps.drop_last();
        lemma_merged_pairs_are_merged_steps(q);
        let p = merged_pairs(q);
        let m = merged_pairs(steps);
        let s = steps.last();
        assert forall|k: int| 0 <= k < merged_pairs(steps).len() implies merged_in(steps, #[trigger] merged_pairs(steps)[k]) by {
            if k < p.len() {
                assert(m[k] == p[k]);
                assert(merged_in(q, p[k]));
                let i = choose|i: int| merged_by(q, i, p[k]);
                assert(steps[i] == q[i]);
                assert(merged_by(steps, i, m[k]));
            } else {
                assert(is_merged_record(s));
                assert(m[k] == (s.repo_id->0@, s.publication_url->0@));
                assert(merged_by(steps, steps.len() - 1, m[k]));
            }
        }
        assert forall|i: int, pair: (Seq<char>, Seq<char>)| #[trigger] merged_by(steps, i, pair) implies merged_pairs(steps).contains(pair) by {
            if i < q.len() {
                assert(steps[i] == q[i]);
                assert(merged_by(q, i, pair));
                let x = choose|x: int| 0 <= x < p.len() && p[x] == pair;
                assert(m[x] == p[x]);
            } else {
                assert(steps[i] == s);
                assert(m[p.len() as int] == pair);
            }
        }
    } else {
        assert(merged_pairs(steps).len() == 0);
    }
}

/// The merged PRs keep the order of the run's records: those of an earlier
/// part of the run come first, as that part alone gives them.
pub proof fn lemma_merged_pairs_keep_order(steps: Seq<LandRunStep>, n: int)
    requires
        0 <= n <= steps.len(),
    ensures
        merged_pairs(steps.take(n)).len() <= merged_pairs(steps).len(),
        merged_pairs(steps).take(merged_pairs(steps.take(n)).len() as int) == merged_pairs(steps.take(n)),
    decreases steps.len() - n,
{
    if n == steps.len() {
        assert(steps.take(n) =~= steps);
        assert(merged_pairs(steps).take(merged_pairs(steps).len() as int) =~= merged_pairs(steps));
    } else {
        lemma_merged_pairs_keep_order(steps, n + 1);
        let a = merged_pairs(steps.take(n));
        let b = merged_pairs(steps.take(n + 1));
        assert(steps.take(n + 1).drop_last() =~= steps.take(n));
        assert(b.take(a.len() as int) =~= a);
        assert(merged_pairs(steps).take(a.len() as int) =~= merged_pairs(steps).take(b.len() as int).take(a.len() as int));
    }
}

pub open spec fn pairs_view(v: Seq<(String, String)>) -> Seq<(Seq<char>, Seq<char>)> {
    v.map_values(|p: (String, String)| (p.0@, p.1@))
}

/// The `(repo id, PR url)` pairs for every merge step the run completed.
pub fn merged_steps(run: &LandRun) -> (out: Vec<(String, String)>)
    ensures
        pairs_view(out@) == merged_pairs(run.steps@),
{
    let mut out: Vec<(String, String)> = Vec::new();
    let mut i: usize = 0;
    while i < run.steps.len()
        invariant
            i <= run.steps@.len(),
            pairs_view(out@) == merged_pairs(run.steps@.take(i as int)),
        decreases run.steps.len() - i,
    {
        let ghost prev = out@;
        proof {
            assert(run.steps@.take(i + 1).drop_last() =~= run.steps@.take(i as int));
        }
        let s = &run.steps[i];
        if s.step_type == LandStepKind::MergePr && s.status == LandStatus::Succeeded {
            match (&s.repo_id, &s.publication_url) {
                (Some(repo), Some(url)) => {
                    let pair = (repo.clone(), url.clone());
                    out.push(pair);
                    proof {
                        assert(pairs_view(out@) =~= pairs_view(prev).push((repo@, url@)));
                    }
                },
                _ => {},
            }
        }
        i += 1;
    }
    proof {
        assert(run.steps@.take(run.steps@.len() as int) =~= run.steps@);
    }
    out
}

/// `Some(text)` unless the text is empty.
pub fn non_empty(text: String) -> (r: Option<String>)
    ensures
        match r {
            Some(t) => t@ == text@ && text@.len() > 0,
            None => text@.len() == 0,
        },
{
    let v = chars_of(text.as_str());
    if v.len() == 0 {
        None
    } else {
        Some(text)
    }
}

/// `s` without its trailing `c` characters.
pub open spec fn strip_trailing(s: Seq<char>, c: char) -> Seq<char>
    decreases s.len(),
{
    if s.len() > 0 && s.last() == c {
        strip_trailing(s.drop_last(), c)
    } else {
        s
    }
}

/// A timestamp with `T` turned into `-` and `:`/`.` dropped.
pub open spec fn stamp_chars(s: Seq<char>) -> Seq<char>
    decreases s.len(),
{
    if s.len() == 0 {
        Seq::empty()
    } else {
        let p = stamp_chars(s.drop_last());
        let c = s.last();
        if c == 'T' {
            p.push('-')
        } else if c == ':' || c == '.' {
            p
        } else {
            p.push(c)
        }
    }
}

/// A file-name-safe form of an ISO timestamp such as
/// `2026-05-05T10:11:12.345Z` (giving `2026-05-05-101112345`).
pub fn safe_timestamp(now: &str) -> (out: String)
    ensures
        out@ == stamp_chars(strip_trailing(now@, 'Z')),
{
    let v = chars_of(now);
    let mut end = v.len();
    proof {
        assert(v@.take(v@.len() as int) =~= v@);
    }
    while end > 0 && v[end - 1] == 'Z'
        invariant
            end <= v@.len(),
            strip_trailing(v@, 'Z') == strip_trailing(v@.take(end as int), 'Z'),
        decreases end,
    {
        proof {
            assert(v@.take(end as int).drop_last() =~= v@.take(end - 1));
        }
        end -= 1;
    }
    proof {
        assert(v@.take(0) =~= Seq::<char>::empty());
    }
    let mut out: Vec<char> = Vec::new();
    let mut i: usize = 0;
    while i < end
        invariant
            end <= v@.len(),
            i <= end,
            strip_trailing(v@, 'Z') == v@.take(end as int),
            out@ == stamp_chars(v@.take(i as int)),
        decreases end - i,
    {
        proof {
            assert(v@.take(i + 1).drop_last() =~= v@.take(i as int));
        }
        let c = v[i];
        if c == 'T' {
            out.push('-');
        } else if c == ':' || c == '.' {
        } else {
            out.push(c);
        }
        i += 1;
    }
    string_from_chars(&out)
}

/// The recorded publication URL for the step's repo, if any.
pub open spec fn step_publication_url(b: ChangeGroup, step: LandStep) -> Option<Seq<char>> {
    match step.repo_id {
        Some(r) => if has_publication(b, r@) {
            Some(b.publications@[choose|i: int| is_publication_index(b, r@, i)].url@)
        } else {
            None
        },
        None => None,
    }
}

proof fn lemma_publication_index(b: ChangeGroup, r: Seq<char>, i: int)
    requires
        is_publication_index(b, r, i),
    ensures
        (choose|c: int| is_publication_index(b, r, c)) == i,
{
    let c = choose|c: int| is_publication_index(b, r, c);
    assert(is_publication_index(b, r, c));
    if c < i {
        assert(b.publications@[c].repo_id@ == r);
    } else if i < c {
        assert(b.publications@[i].repo_id@ == r);
    }
}

/// The recorded publication URL for the step's repo.
pub fn step_publication(b: &ChangeGroup, step: &LandStep) -> (r: Option<String>)
    ensures
        match r {
            Some(u) => step_publication_url(*b, *step) == Some(u@),
            None => step_publication_url(*b, *step) is None,
        },
{
    match &step.repo_id {
        Some(repo) => match publication_for_repo(b, repo.as_str()) {
            Some(i) => {
                proof {
                    lemma_publication_index(*b, repo@, i as int);
                }
                Some(b.publications[i].url.clone())
            },
            None => None,
        },
        None => None,
    }
}

pub open spec fn opt_string_view(o: Option<String>) -> Option<Seq<char>> {
    match o {
        Some(s) => Some(s@),
        None => None,
    }
}

/// The fresh, pending record of one plan step.
pub open spec fn fresh_run_step(r: LandRunStep, b: ChangeGroup, step: LandStep) -> bool {
    &&& r.id@ == step.id@
    &&& r.step_type == step.step_type
    &&& r.status == LandStatus::Pending
    &&& opt_string_view(r.repo_id) == opt_string_view(step.repo_id)
    &&& opt_string_view(r.publication_url) == step_publication_url(b, step)
    &&& r.started_at is None && r.finished_at is None && r.detail is None
    &&& r.stdout is None && r.stderr is None && r.exit_code is None
}

/// A new running run of `plan`, with every step pending. `stamp` is the
/// safe timestamp naming the run and `now` the current time.
pub fn new_run(bundle: &ChangeGroup, plan: &LandPlan, plan_path: &str, stamp: &str, now: &str) -> (run: LandRun)
    ensures
        run.schema_version@ == SCHEMA_VERSION@,
        run.kind@ == LAND_RUN_KIND@,
        run.id@ == "run-"@ + stamp@,
        run.plan_id@ == plan.id@,
        run.bundle_id@ == bundle.id@,
        run.provider@ == plan.provider@,
        run.plan_path@ == plan_path@,
        run.status == LandStatus::Running,
        run.created_at@ == now@,
        run.updated_at@ == now@,
        run.rolled_back_at is None,
        run.steps@.len() == plan.steps@.len(),
        forall|i: int| 0 <= i < run.steps@.len() ==> fresh_run_step(#[trigger] run.steps@[i], *bundle, plan.steps@[i]),
{
    let mut steps: Vec<LandRunStep> = Vec::new();
    let mut i: usize = 0;
    while i < plan.steps.len()
        invariant
            i <= plan.steps@.len(),
            steps@.len() == i,
            forall|j: int| 0 <= j < i ==> fresh_run_step(#[trigger] steps@[j], *bundle, plan.steps@[j]),
        decreases plan.steps.len() - i,
    {
        let step = &plan.steps[i];
        let repo_id = match &step.repo_id {
            Some(r) => Some(r.clone()),
            None => None,
        };
        let rs = LandRunStep {
            id: step.id.clone(),
            step_type: step.step_type,
            status: LandStatus::Pending,
            repo_id,
            publication_url: step_publication(bundle, step),
            started_at: None,
            finished_at: None,
            detail: None,
            stdout: None,
            stderr: None,
            exit_code: None,
        };
        steps.push(rs);
        i += 1;
    }
    let mut id: Vec<char> = Vec::new();
    append_str(&mut id, "run-");
    append_str(&mut id, stamp);
    LandRun {
        schema_version: string_from_chars(&chars_of(SCHEMA_VERSION)),
        kind: string_from_chars(&chars_of(LAND_RUN_KIND)),
        id: string_from_chars(&id),
        plan_id: plan.id.clone(),
        bundle_id: bundle.id.clone(),
        provider: plan.provider.clone(),
        plan_path: string_from_chars(&chars_of(plan_path)),
        status: LandStatus::Running,
        created_at: string_from_chars(&chars_of(now)),
        updated_at: string_from_chars(&chars_of(now)),
        rolled_back_at: None,
        steps,
    }
}

/// What `knit land` with no subcommand does.
#[derive(Debug, Clone, Copy, PartialEq, Eq, Structural)]
pub enum LandDefaultAction {
    /// The latest run succeeded: show it.
    ShowSucceededRun,
    /// The latest run was rolled back: show it and explain.
    ShowRolledBackRun,
    /// The latest run stopped: show it and point at resume or rollback.
    ShowIncompleteRun,
    /// No run yet, but a plan exists: validate and show it.
    ShowPlan,
    /// Nothing yet: generate the default plan.
    GeneratePlan,
}

/// Chooses what `knit land` shows from the latest run of the bundle (if
/// any) and whether the default plan file exists.
pub fn land_default(latest_run: Option<&LandRun>, plan_exists: bool) -> (a: LandDefaultAction)
    ensures
        a == (match latest_run {
            Some(run) => if run.status == LandStatus::Succeeded {
                LandDefaultAction::ShowSucceededRun
            } else if run.rolled_back_at is Some {
                LandDefaultAction::ShowRolledBackRun
            } else {
                LandDefaultAction::ShowIncompleteRun
            },
            None => if plan_exists {
                LandDefaultAction::ShowPlan
            } else {
                LandDefaultAction::GeneratePlan
            },
        }),
{
    match latest_run {
        Some(run) => {
            if run.status == LandStatus::Succeeded {
                LandDefaultAction::ShowSucceededRun
            } else if run.rolled_back_at.is_some() {
                LandDefaultAction::ShowRolledBackRun
            } else {
                LandDefaultAction::ShowIncompleteRun
            }
        },
        None => {
            if plan_exists {
                LandDefaultAction::ShowPlan
            } else {
                LandDefaultAction::GeneratePlan
            }
        },
    }
}

/// The latest run file of a bundle: among the run files (file name, bundle
/// id of the run it holds), the one of this bundle whose name sorts last.
pub fn latest_run_for_bundle(runs: &Vec<(String, String)>, bundle_id: &str) -> (r: Option<usize>)
    ensures
        match r {
            Some(k) => k < runs@.len() && runs@[k as int].1@ == bundle_id@ && forall|j: int|
                0 <= j < runs@.len() && (#[trigger] runs@[j]).1@ == bundle_id@ ==> !crate::order::str_lt(
                    runs@[k as int].0@,
                    runs@[j].0@,
                ),
            None => forall|j: int| 0 <= j < runs@.len() ==> (#[trigger] runs@[j]).1@ != bundle_id@,
        },
{
    let mut best: Option<usize> = None;
    let mut i: usize = 0;
    while i < runs.len()
        invariant
            i <= runs@.len(),
            match best {
                Some(k) => k < i && runs@[k as int].1@ == bundle_id@ && forall|j: int|
                    0 <= j < i && (#[trigger] runs@[j]).1@ == bundle_id@ ==> !crate::order::str_lt(
                        runs@[k as int].0@,
                        runs@[j].0@,
                    ),
                None => forall|j: int| 0 <= j < i ==> (#[trigger] runs@[j]).1@ != bundle_id@,
            },
        decreases runs.len() - i,
    {
        if str_eq(runs[i].1.as_str(), bundle_id) {
            match best {
                None => {
                    proof {
                        crate::order::lemma_lt_irreflexive(runs@[i as int].0@);
                    }
                    best = Some(i);
                },
                Some(k) => {
                    if crate::order::str_less(runs[k].0.as_str(), runs[i].0.as_str()) {
                        proof {
                            crate::order::lemma_lt_irreflexive(runs@[i as int].0@);
                            assert forall|j: int| 0 <= j < i + 1 && (#[trigger] runs@[j]).1@ == bundle_id@ implies !crate::order::str_lt(
                                runs@[i as int].0@,
                                runs@[j].0@,
                            ) by {
                                if j < i && crate::order::str_lt(runs@[i as int].0@, runs@[j].0@) {
                                    crate::order::lemma_lt_transitive(runs@[k as int].0@, runs@[i as int].0@, runs@[j].0@);
                                }
                            }
                        }
                        best = Some(i);
                    }
                },
            }
        }
        i += 1;
    }
    best
}

} // verus!
