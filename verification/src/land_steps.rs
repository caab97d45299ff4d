//! What each kind of land step decides around its outside work: merging a
//! PR, waiting for checks, running a command, deploying; and the outcome
//! recorded for it.
use vstd::prelude::*;

use crate::land_exec::StepOutcome;
use crate::land_run::{
    ensure_open_and_ready, has_repo_id, lemma_recorded_status, recorded_status, required_repo_id, run_step, LandError,
};
use crate::land_types::{
    DeployCheckoutUpdate, DeployMode, LandCheckout, LandRun, LandStatus, LandStep, LandStepKind, MergeMethod,
};
use crate::model::{pr_conflicting, pr_state, PullRequest};
use crate::text::{
    append_str, chars_of, decimal_seq, is_blank, join_seq, join_strings, push_decimal, slugify, slugify_seq,
    str_eq, string_from_chars, strings_view, trim_seq,
};

verus! {

/// How long and on which checks a step waits.
#[derive(Debug, Clone, Copy, PartialEq, Eq, Structural)]
pub struct CheckWait {
    pub required_only: bool,
    pub timeout_seconds: u64,
    pub interval_seconds: u64,
}

/// The default wait: 30 minutes, polling every 10 seconds.
pub const DEFAULT_WAIT_TIMEOUT_SECONDS: u64 = 1800;

pub const DEFAULT_WAIT_INTERVAL_SECONDS: u64 = 10;

pub open spec fn opt_or<T>(o: Option<T>, d: T) -> T {
    match o {
        Some(v) => v,
        None => d,
    }
}

/// The wait of a merge step before merging: none when the step turns
/// waiting off; by default on required checks only, with the default times.
pub fn merge_wait(step: &LandStep) -> (w: Option<CheckWait>)
    ensures
        opt_or(step.wait_for_checks, true) ==> w == Some(
            CheckWait {
                required_only: opt_or(step.required_checks_only, true),
                timeout_seconds: opt_or(step.timeout_seconds, DEFAULT_WAIT_TIMEOUT_SECONDS),
                interval_seconds: opt_or(step.interval_seconds, DEFAULT_WAIT_INTERVAL_SECONDS),
            },
        ),
        !opt_or(step.wait_for_checks, true) ==> w is None,
{
    let wait = match step.wait_for_checks {
        Some(b) => b,
        None => true,
    };
    if !wait {
        return None;
    }
    Some(
        CheckWait {
            required_only: match step.required_checks_only {
                Some(b) => b,
                None => true,
            },
            timeout_seconds: match step.timeout_seconds {
                Some(t) => t,
                None => DEFAULT_WAIT_TIMEOUT_SECONDS,
            },
            interval_seconds: match step.interval_seconds {
                Some(t) => t,
                None => DEFAULT_WAIT_INTERVAL_SECONDS,
            },
        },
    )
}

/// The wait of a wait-checks step.
pub fn checks_wait(step: &LandStep) -> (w: CheckWait)
    ensures
        w == (CheckWait {
            required_only: opt_or(step.required_only, true),
            timeout_seconds: opt_or(step.timeout_seconds, DEFAULT_WAIT_TIMEOUT_SECONDS),
            interval_seconds: opt_or(step.interval_seconds, DEFAULT_WAIT_INTERVAL_SECONDS),
        }),
{
    CheckWait {
        required_only: match step.required_only {
            Some(b) => b,
            None => true,
        },
        timeout_seconds: match step.timeout_seconds {
            Some(t) => t,
            None => DEFAULT_WAIT_TIMEOUT_SECONDS,
        },
        interval_seconds: match step.interval_seconds {
            Some(t) => t,
            None => DEFAULT_WAIT_INTERVAL_SECONDS,
        },
    }
}

fn owned(s: &str) -> (out: String)
    ensures
        out@ == s@,
{
    string_from_chars(&chars_of(s))
}

/// Whether a merge step's PR is already merged (the step then succeeds
/// without merging); otherwise the PR must be open, not a draft and free of
/// conflicts.
pub fn merge_pr_start(repo_id: &str, pr: &PullRequest) -> (r: Result<bool, LandError>)
    ensures
        pr.state matches Some(s) && s@ == "MERGED"@ ==> r == Ok::<bool, LandError>(true),
        !(pr.state matches Some(s) && s@ == "MERGED"@) ==> match r {
            Ok(b) => !b && pr.is_draft != Some(true) && pr_state(*pr) == "OPEN"@ && !pr_conflicting(*pr),
            Err(_) => !(pr.is_draft != Some(true) && pr_state(*pr) == "OPEN"@ && !pr_conflicting(*pr)),
        },
{
    let merged = match &pr.state {
        Some(s) => str_eq(s.as_str(), "MERGED"),
        None => false,
    };
    if merged {
        return Ok(true);
    }
    match ensure_open_and_ready(repo_id, pr) {
        Ok(()) => Ok(false),
        Err(e) => Err(e),
    }
}

/// The outcome of a merge step whose PR had already merged.
pub fn already_merged_outcome(url: &str) -> (o: StepOutcome)
    ensures
        o.success,
        o.detail@ == "already merged"@,
        o.publication_url matches Some(u) && u@ == url@,
        o.stdout is None && o.stderr is None && o.exit_code is None,
{
    StepOutcome {
        success: true,
        detail: owned("already merged"),
        publication_url: Some(owned(url)),
        stdout: None,
        stderr: None,
        exit_code: None,
    }
}

pub open spec fn merged_detail(checks_status: Option<Seq<char>>, method: MergeMethod) -> Seq<char> {
    match checks_status {
        Some(s) => "checks "@ + s + "; "@ + "merged with "@ + method.label(),
        None => "merged with "@ + method.label(),
    }
}

/// The outcome of a merge step that merged with `method`, after waiting for
/// checks that ended with `checks_status` (none when it did not wait).
pub fn merged_outcome(url: &str, checks_status: Option<&str>, method: MergeMethod) -> (o: StepOutcome)
    ensures
        o.success,
        o.detail@ == merged_detail(
            match checks_status {
                Some(s) => Some(s@),
                None => None,
            },
            method,
        ),
        o.publication_url matches Some(u) && u@ == url@,
        o.stdout is None && o.stderr is None && o.exit_code is None,
{
    let mut v = match checks_status {
        Some(s) => {
            let mut c = chars_of("checks ");
            append_str(&mut c, s);
            append_str(&mut c, "; ");
            c
        },
        None => Vec::new(),
    };
    append_str(&mut v, "merged with ");
    append_str(&mut v, method.as_str());
    StepOutcome {
        success: true,
        detail: string_from_chars(&v),
        publication_url: Some(owned(url)),
        stdout: None,
        stderr: None,
        exit_code: None,
    }
}

/// The outcome of a wait-checks step whose checks ended with `status`.
pub fn checks_outcome(url: &str, status: &str, run_count: usize) -> (o: StepOutcome)
    ensures
        o.success,
        o.detail@ == (if run_count == 0 {
            status@
        } else {
            status@ + " ("@ + decimal_seq(run_count as nat) + " check(s))"@
        }),
        o.publication_url matches Some(u) && u@ == url@,
        o.stdout is None && o.stderr is None && o.exit_code is None,
{
    let mut v = chars_of(status);
    if run_count > 0 {
        append_str(&mut v, " (");
        push_decimal(&mut v, run_count as u64);
        append_str(&mut v, " check(s))");
    }
    StepOutcome {
        success: true,
        detail: string_from_chars(&v),
        publication_url: Some(owned(url)),
        stdout: None,
        stderr: None,
        exit_code: None,
    }
}

/// The decimal text of a possibly negative exit code.
pub open spec fn code_text(c: i32) -> Seq<char> {
    if c < 0 {
        "-"@ + decimal_seq((-c) as nat)
    } else {
        decimal_seq(c as nat)
    }
}

/// An exit code, or `signal` when the process had none.
pub open spec fn exit_text(code: Option<i32>) -> Seq<char> {
    match code {
        Some(c) => code_text(c),
        None => "signal"@,
    }
}

fn push_exit(v: &mut Vec<char>, code: Option<i32>)
    ensures
        final(v)@ == old(v)@ + exit_text(code),
{
    let ghost start = v@;
    match code {
        Some(c) => {
            if c < 0 {
                v.push('-');
                let m: i64 = -(c as i64);
                push_decimal(v, m as u64);
                proof {
                    reveal_strlit("-");
                    assert(v@ =~= start + ("-"@ + decimal_seq((-c) as nat)));
                }
            } else {
                push_decimal(v, c as u64);
            }
        },
        None => append_str(v, "signal"),
    }
}

/// Captured output is kept only when it is non-empty.
pub open spec fn kept_output(s: Seq<char>) -> Option<Seq<char>> {
    if s.len() == 0 {
        None
    } else {
        Some(s)
    }
}

fn keep_output(s: String) -> (r: Option<String>)
    ensures
        match r {
            Some(t) => kept_output(s@) == Some(t@),
            None => kept_output(s@) is None,
        },
{
    if s.as_str().unicode_len() == 0 {
        None
    } else {
        Some(s)
    }
}

/// A run step needs a command.
pub fn check_run_command(step: &LandStep) -> (r: Result<(), String>)
    ensures
        r is Ok <==> step.command@.len() > 0,
        r matches Err(e) ==> e@ == "run step `"@ + step.id@ + "` has an empty command"@,
{
    if step.command.len() == 0 {
        let mut v = chars_of("run step `");
        append_str(&mut v, step.id.as_str());
        append_str(&mut v, "` has an empty command");
        return Err(string_from_chars(&v));
    }
    Ok(())
}

pub open spec fn command_text(command: Seq<String>) -> Seq<char> {
    join_seq(strings_view(command), " "@)
}

/// The outcome of a run step's command: its success and exit code, and
/// its output where there was any.
pub fn command_outcome(command: &Vec<String>, success: bool, exit_code: Option<i32>, stdout: String, stderr: String) -> (o: StepOutcome)
    ensures
        o.success == success,
        o.detail@ == (if success {
            "ran `"@ + command_text(command@) + "`"@
        } else {
            "`"@ + command_text(command@) + "` exited with "@ + exit_text(exit_code)
        }),
        o.publication_url is None,
        o.exit_code == exit_code,
        opt_chars(o.stdout) == kept_output(stdout@),
        opt_chars(o.stderr) == kept_output(stderr@),
{
    let joined = join_strings(command, " ");
    let v = if success {
        let mut v = chars_of("ran `");
        append_str(&mut v, joined.as_str());
        append_str(&mut v, "`");
        v
    } else {
        let mut v = chars_of("`");
        append_str(&mut v, joined.as_str());
        append_str(&mut v, "` exited with ");
        push_exit(&mut v, exit_code);
        v
    };
    StepOutcome {
        success,
        detail: string_from_chars(&v),
        publication_url: None,
        stdout: keep_output(stdout),
        stderr: keep_output(stderr),
        exit_code,
    }
}

pub open spec fn opt_chars(o: Option<String>) -> Option<Seq<char>> {
    match o {
        Some(s) => Some(s@),
        None => None,
    }
}

/// The outcome of a deploy command run for `repo_id` from the checkout
/// described by `checkout_detail`.
pub fn deploy_outcome(
    repo_id: &str,
    checkout_detail: &str,
    command: &Vec<String>,
    success: bool,
    exit_code: Option<i32>,
    stdout: String,
    stderr: String,
) -> (o: StepOutcome)
    ensures
        o.success == success,
        o.detail@ == (if success {
            "deployed "@ + repo_id@ + " from "@ + checkout_detail@
        } else {
            "deploy `"@ + command_text(command@) + "` exited with "@ + exit_text(exit_code)
        }),
        o.publication_url is None,
        o.exit_code == exit_code,
        opt_chars(o.stdout) == kept_output(stdout@),
        opt_chars(o.stderr) == kept_output(stderr@),
{
    let v = if success {
        let mut v = chars_of("deployed ");
        append_str(&mut v, repo_id);
        append_str(&mut v, " from ");
        append_str(&mut v, checkout_detail);
        v
    } else {
        let joined = join_strings(command, " ");
        let mut v = chars_of("deploy `");
        append_str(&mut v, joined.as_str());
        append_str(&mut v, "` exited with ");
        push_exit(&mut v, exit_code);
        v
    };
    StepOutcome {
        success,
        detail: string_from_chars(&v),
        publication_url: None,
        stdout: keep_output(stdout),
        stderr: keep_output(stderr),
        exit_code,
    }
}

/// The mode a deploy step runs in: as written, else a command when it has
/// one and the merge push otherwise.
pub open spec fn deploy_mode_of(step: LandStep) -> DeployMode {
    match step.deployment_mode {
        Some(m) => m,
        None => if step.command@.len() == 0 {
            DeployMode::Push
        } else {
            DeployMode::Command
        },
    }
}

/// What a deploy step does: in push mode the merge already triggered it
/// (this is its outcome); in command mode its command runs (`None`).
/// A push-mode step with a command and a command-mode step without one are
/// refused.
pub fn deploy_start(step: &LandStep, repo_id: &str) -> (r: Result<Option<StepOutcome>, String>)
    ensures
        deploy_mode_of(*step) == DeployMode::Push && step.command@.len() > 0 ==> (r matches Err(e) && e@
            == "deploy step `"@ + step.id@ + "` uses push mode and must not provide command"@),
        deploy_mode_of(*step) == DeployMode::Push && step.command@.len() == 0 ==> (r matches Ok(Some(o)) && o.success
            && o.detail@ == repo_id@ + " deployment triggered by merge"@ && o.publication_url is None
            && o.stdout is None && o.stderr is None && o.exit_code is None),
        deploy_mode_of(*step) == DeployMode::Command && step.command@.len() == 0 ==> (r matches Err(e) && e@
            == "deploy step `"@ + step.id@ + "` must provide command in command mode"@),
        deploy_mode_of(*step) == DeployMode::Command && step.command@.len() > 0 ==> r matches Ok(None),
{
    let mode = match step.deployment_mode {
        Some(m) => m,
        None => if step.command.len() == 0 {
            DeployMode::Push
        } else {
            DeployMode::Command
        },
    };
    match mode {
        DeployMode::Push => {
            if step.command.len() > 0 {
                let mut v = chars_of("deploy step `");
                append_str(&mut v, step.id.as_str());
                append_str(&mut v, "` uses push mode and must not provide command");
                return Err(string_from_chars(&v));
            }
            let mut d = chars_of(repo_id);
            append_str(&mut d, " deployment triggered by merge");
            Ok(
                Some(
                    StepOutcome {
                        success: true,
                        detail: string_from_chars(&d),
                        publication_url: None,
                        stdout: None,
                        stderr: None,
                        exit_code: None,
                    },
                ),
            )
        },
        DeployMode::Command => {
            if step.command.len() == 0 {
                let mut v = chars_of("deploy step `");
                append_str(&mut v, step.id.as_str());
                append_str(&mut v, "` must provide command in command mode");
                return Err(string_from_chars(&v));
            }
            Ok(None)
        },
    }
}

/// The remote of a deployment checkout: as written, else `origin`.
pub open spec fn checkout_remote(c: LandCheckout) -> Seq<char> {
    match c.remote {
        Some(r) => r@,
        None => "origin"@,
    }
}

/// Where a deploy command runs from, as reported: the deployment checkout's
/// `<remote>/<branch>`, or the bundle checkout.
pub fn deploy_checkout_detail(checkout: Option<&LandCheckout>) -> (out: String)
    ensures
        out@ == match checkout {
            Some(c) => checkout_remote(*c) + "/"@ + c.branch@,
            None => "bundle checkout"@,
        },
{
    match checkout {
        Some(c) => {
            let mut v = match &c.remote {
                Some(r) => chars_of(r.as_str()),
                None => chars_of("origin"),
            };
            append_str(&mut v, "/");
            append_str(&mut v, c.branch.as_str());
            string_from_chars(&v)
        },
        None => owned("bundle checkout"),
    }
}

/// How a deployment checkout is prepared.
#[derive(Debug, Clone)]
pub struct DeployCheckoutPlan {
    /// The checkout's place under the workspace root.
    pub relative_path: String,
    /// Fetch the branch from the remote first.
    pub fetch: bool,
    /// The ref the checkout is detached at.
    pub target_ref: String,
}

/// Prepares a deployment checkout of `checkout.branch` for repo `repo_id`:
/// a dedicated worktree under `.knit/land-worktrees/<bundle>/<repo>/<branch
/// slug>`, detached at the freshly fetched branch (`FETCH_HEAD`), or at
/// `<remote>/<branch>` when the checkout is not updated. A blank branch is
/// refused.
pub fn deploy_checkout_plan(bundle_id: &str, repo_id: &str, checkout: &LandCheckout) -> (r: Result<DeployCheckoutPlan, String>)
    ensures
        trim_seq(checkout.branch@).len() == 0 ==> (r matches Err(e) && e@ == "deploy checkout branch must not be empty"@),
        trim_seq(checkout.branch@).len() > 0 ==> (r matches Ok(p) && p.relative_path@ == ".knit/land-worktrees/"@
            + bundle_id@ + "/"@ + repo_id@ + "/"@ + slugify_seq(checkout.branch@) && p.fetch == (checkout.update
            != Some(DeployCheckoutUpdate::NoUpdate)) && p.target_ref@ == (if p.fetch {
            "FETCH_HEAD"@
        } else {
            checkout_remote(*checkout) + "/"@ + checkout.branch@
        })),
{
    if is_blank(checkout.branch.as_str()) {
        return Err(owned("deploy checkout branch must not be empty"));
    }
    let mut path = chars_of(".knit/land-worktrees/");
    append_str(&mut path, bundle_id);
    append_str(&mut path, "/");
    append_str(&mut path, repo_id);
    append_str(&mut path, "/");
    let slug = slugify(checkout.branch.as_str());
    append_str(&mut path, slug.as_str());
    let fetch = match checkout.update {
        Some(DeployCheckoutUpdate::NoUpdate) => false,
        _ => true,
    };
    let target_ref = if fetch {
        owned("FETCH_HEAD")
    } else {
        deploy_checkout_detail(Some(checkout))
    };
    Ok(DeployCheckoutPlan { relative_path: string_from_chars(&path), fetch, target_ref })
}

/// A step the preflight looks at: a merge or wait-checks step that has not
/// already succeeded in the run being resumed.
pub open spec fn preflight_wanted(step: LandStep, run: Option<LandRun>) -> bool {
    (step.step_type == LandStepKind::MergePr || step.step_type == LandStepKind::WaitChecks) && !(run matches Some(r)
        && recorded_status(r, step.id@) == Some(LandStatus::Succeeded))
}

/// The steps the preflight checks, each with its repo, the first step per
/// repo only; or the index of the first wanted step without a repo.
pub open spec fn preflight_spec(steps: Seq<LandStep>, run: Option<LandRun>) -> Result<Seq<(int, Seq<char>)>, int>
    decreases steps.len(),
{
    if steps.len() == 0 {
        Ok(Seq::empty())
    } else {
        let n = steps.len() - 1;
        match preflight_spec(steps.drop_last(), run) {
            Err(t) => Err(t),
            Ok(v) => {
                let s = steps[n];
                if !preflight_wanted(s, run) {
                    Ok(v)
                } else if !has_repo_id(s) {
                    Err(n)
                } else if exists|k: int| 0 <= k < v.len() && v[k].1 == s.repo_id->0@ {
                    Ok(v)
                } else {
                    Ok(v.push((n, s.repo_id->0@)))
                }
            },
        }
    }
}

proof fn lemma_preflight_error_stays(steps: Seq<LandStep>, run: Option<LandRun>, n: int)
    requires
        0 <= n <= steps.len(),
        preflight_spec(steps.take(n), run) is Err,
    ensures
        preflight_spec(steps, run) == preflight_spec(steps.take(n), run),
    decreases steps.len() - n,
{
    if n < steps.len() {
        assert(steps.take(n + 1).drop_last() =~= steps.take(n));
        lemma_preflight_error_stays(steps, run, n + 1);
    } else {
        assert(steps.take(n) =~= steps);
    }
}

pub open spec fn opt_run(run: Option<&LandRun>) -> Option<LandRun> {
    match run {
        Some(r) => Some(*r),
        None => None,
    }
}

/// The steps whose review objects are checked before landing (index and
/// repo), or the error for the first of them without a repo.
pub fn preflight_steps(steps: &Vec<LandStep>, run: Option<&LandRun>) -> (r: Result<Vec<(usize, String)>, LandError>)
    ensures
        match preflight_spec(steps@, opt_run(run)) {
            Ok(v) => r matches Ok(out) && out@.len() == v.len() && forall|k: int|
                0 <= k < v.len() ==> (#[trigger] out@[k]).0 as int == v[k].0 && out@[k].1@ == v[k].1,
            Err(t) => r matches Err(LandError::MissingRepoId { step }) && step@ == steps@[t].id@,
        },
{
    let mut out: Vec<(usize, String)> = Vec::new();
    let mut i: usize = 0;
    while i < steps.len()
        invariant
            i <= steps@.len(),
            preflight_spec(steps@.take(i as int), opt_run(run)) matches Ok(v) && out@.len() == v.len() && forall|k: int|
                0 <= k < v.len() ==> (#[trigger] out@[k]).0 as int == v[k].0 && out@[k].1@ == v[k].1,
        decreases steps.len() - i,
    {
        proof {
            assert(steps@.take(i + 1).drop_last() =~= steps@.take(i as int));
            assert(steps@.take(i + 1)[i as int] == steps@[i as int]);
        }
        let s = &steps[i];
        let kind_ok = s.step_type == LandStepKind::MergePr || s.step_type == LandStepKind::WaitChecks;
        let done = match run {
            Some(r) => match run_step(r, s.id.as_str()) {
                Some(j) => {
                    proof {
                        lemma_recorded_status(*r, s.id@, j as int);
                    }
                    r.steps[j].status == LandStatus::Succeeded
                },
                None => false,
            },
            None => false,
        };
        if kind_ok && !done {
            let repo = match required_repo_id(s) {
                Ok(id) => id,
                Err(e) => {
                    proof {
                        lemma_preflight_error_stays(steps@, opt_run(run), i + 1);
                    }
                    return Err(e);
                },
            };
            let mut seen = false;
            let mut k: usize = 0;
            while k < out.len()
                invariant
                    k <= out@.len(),
                    seen <==> exists|q: int| 0 <= q < k && out@[q].1@ == repo@,
                decreases out.len() - k,
            {
                if str_eq(out[k].1.as_str(), repo.as_str()) {
                    seen = true;
                }
                k += 1;
            }
            let ghost o0 = out@;
            proof {
                let v = preflight_spec(steps@.take(i as int), opt_run(run))->Ok_0;
                if seen {
                    let q = choose|q: int| 0 <= q < o0.len() && o0[q].1@ == repo@;
                    assert(v[q].1 == repo@);
                } else {
                    assert forall|q: int| 0 <= q < v.len() implies v[q].1 != repo@ by {
                        assert(o0[q].1@ == v[q].1);
                    }
                }
            }
            if !seen {
                out.push((i, repo));
            }
        }
        i += 1;
    }
    proof {
        assert(steps@.take(steps@.len() as int) =~= steps@);
    }
    Ok(out)
}

/// Whether the preflight checks a step's required checks, and on which:
/// a wait-checks step always does, a merge step unless it turns waiting off;
/// on required checks only unless the step says otherwise.
pub fn preflight_checks(step: &LandStep) -> (r: Option<bool>)
    ensures
        (step.step_type == LandStepKind::WaitChecks || opt_or(step.wait_for_checks, true)) ==> r == Some(
            match step.required_checks_only {
                Some(b) => b,
                None => opt_or(step.required_only, true),
            },
        ),
        !(step.step_type == LandStepKind::WaitChecks || opt_or(step.wait_for_checks, true)) ==> r is None,
{
    let wait = match step.wait_for_checks {
        Some(b) => b,
        None => true,
    };
    if step.step_type == LandStepKind::WaitChecks || wait {
        Some(
            match step.required_checks_only {
                Some(b) => b,
                None => match step.required_only {
                    Some(b) => b,
                    None => true,
                },
            },
        )
    } else {
        None
    }
}

pub open spec fn not_merged_text(repo_id: Seq<char>, number: u64, state: Seq<char>) -> Seq<char> {
    repo_id + ": PR #"@ + decimal_seq(number as nat) + " is "@ + state
        + ", expected MERGED. The run recorded this merge as succeeded; refresh with `knit land status` and retry."@
}

/// Before reverting a landing, each recorded merge must show as merged.
pub fn expect_merged(repo_id: &str, pr: &PullRequest) -> (r: Result<(), String>)
    ensures
        r is Ok <==> pr_state(*pr) == "MERGED"@,
        r matches Err(e) ==> e@ == not_merged_text(repo_id@, pr.number, pr_state(*pr)),
{
    let state = match &pr.state {
        Some(s) => string_from_chars(&chars_of(s.as_str())),
        None => string_from_chars(&chars_of("UNKNOWN")),
    };
    if str_eq(state.as_str(), "MERGED") {
        return Ok(());
    }
    let mut v = chars_of(repo_id);
    append_str(&mut v, ": PR #");
    push_decimal(&mut v, pr.number);
    append_str(&mut v, " is ");
    append_str(&mut v, state.as_str());
    append_str(
        &mut v,
        ", expected MERGED. The run recorded this merge as succeeded; refresh with `knit land status` and retry.",
    );
    Err(string_from_chars(&v))
}

} // verus!
