//! The state of a `knit merge` run: its steps are applied in order; a
//! conflict stops a manual run for resolution and rolls back any other run,
//! as does a fatal failure; the run finishes once every step succeeded.
use vstd::prelude::*;

use crate::text::{append_str, chars_of, join_seq, join_strings, string_from_chars, strings_view};

verus! {

/// Status of one merge step.
#[derive(Debug, Clone, Copy, PartialEq, Eq, Structural)]
pub enum MergeStepStatus {
    Pending,
    Succeeded,
    Conflicted,
    Aborted,
}

impl MergeStepStatus {
    pub open spec fn label(self) -> Seq<char> {
        match self {
            MergeStepStatus::Pending => "pending"@,
            MergeStepStatus::Succeeded => "succeeded"@,
            MergeStepStatus::Conflicted => "conflicted"@,
            MergeStepStatus::Aborted => "aborted"@,
        }
    }

    pub fn as_str(self) -> (s: &'static str)
        ensures
            s@ == self.label(),
    {
        match self {
            MergeStepStatus::Pending => "pending",
            MergeStepStatus::Succeeded => "succeeded",
            MergeStepStatus::Conflicted => "conflicted",
            MergeStepStatus::Aborted => "aborted",
        }
    }
}

/// Status of a merge run.
#[derive(Debug, Clone, Copy, PartialEq, Eq, Structural)]
pub enum MergeRunStatus {
    Running,
    Succeeded,
    Conflicted,
    Aborted,
    PushFailed,
}

impl MergeRunStatus {
    pub open spec fn label(self) -> Seq<char> {
        match self {
            MergeRunStatus::Running => "running"@,
            MergeRunStatus::Succeeded => "succeeded"@,
            MergeRunStatus::Conflicted => "conflicted"@,
            MergeRunStatus::Aborted => "aborted"@,
            MergeRunStatus::PushFailed => "push_failed"@,
        }
    }

    pub fn as_str(self) -> (s: &'static str)
        ensures
            s@ == self.label(),
    {
        match self {
            MergeRunStatus::Running => "running",
            MergeRunStatus::Succeeded => "succeeded",
            MergeRunStatus::Conflicted => "conflicted",
            MergeRunStatus::Aborted => "aborted",
            MergeRunStatus::PushFailed => "push_failed",
        }
    }
}

/// One repo's merge within a run.
#[derive(Debug, Clone)]
pub struct MergeStepRecord {
    pub repo_id: String,
    pub checkout_path: String,
    pub before_sha: String,
    pub after_sha: Option<String>,
    pub status: MergeStepStatus,
    pub message: Option<String>,
}

/// The part of a merge run that its steps move.
#[derive(Debug, Clone)]
pub struct MergeProgress {
    pub manual: bool,
    pub status: MergeRunStatus,
    pub steps: Vec<MergeStepRecord>,
}

/// What applying one step's merge came to.
#[derive(Debug, Clone)]
pub enum StepResult {
    /// The merge committed; HEAD is now `after_sha`.
    Merged { after_sha: String },
    /// Git reported conflicts, with this report.
    Conflict(String),
    /// Any other failure, with its message.
    Fatal(String),
}

/// What the run does after a step.
#[derive(Debug, Clone)]
pub enum StepAction {
    /// Go on with the next pending step.
    Continue,
    /// A manual run stops at a conflict; the error to report.
    StopForConflict(String),
    /// The run was rolled back: reset these steps' checkouts (latest first)
    /// to their `before_sha`, and report the failure.
    RolledBack { reset: Vec<usize>, failure: String },
}

/// The first pending step at or after `from`.
pub fn next_pending(p: &MergeProgress, from: usize) -> (r: Option<usize>)
    ensures
        match r {
            Some(i) => from <= i < p.steps@.len() && p.steps@[i as int].status == MergeStepStatus::Pending
                && forall|j: int| from <= j < i ==> p.steps@[j].status != MergeStepStatus::Pending,
            None => forall|j: int| from <= j < p.steps@.len() ==> p.steps@[j].status != MergeStepStatus::Pending,
        },
{
    let mut i = from;
    while i < p.steps.len()
        invariant
            from <= i || i >= p.steps@.len(),
            forall|j: int| from <= j < i ==> p.steps@[j].status != MergeStepStatus::Pending,
        decreases p.steps.len() - i,
    {
        if p.steps[i].status == MergeStepStatus::Pending {
            return Some(i);
        }
        i += 1;
    }
    None
}

fn copy_opt(o: &Option<String>) -> (r: Option<String>)
    ensures
        r == *o,
{
    match o {
        Some(s) => Some(s.clone()),
        None => None,
    }
}

/// An identical copy of a step.
pub fn copy_step(s: &MergeStepRecord) -> (out: MergeStepRecord)
    ensures
        out == *s,
{
    MergeStepRecord {
        repo_id: s.repo_id.clone(),
        checkout_path: s.checkout_path.clone(),
        before_sha: s.before_sha.clone(),
        after_sha: copy_opt(&s.after_sha),
        status: s.status,
        message: copy_opt(&s.message),
    }
}

/// The step after a rollback: a step that ran is aborted and forgets its
/// result; a pending step is untouched.
pub open spec fn rolled_back(s: MergeStepRecord) -> MergeStepRecord {
    if s.status == MergeStepStatus::Pending {
        s
    } else {
        MergeStepRecord { after_sha: None, status: MergeStepStatus::Aborted, ..s }
    }
}

/// The indexes of the steps that ran, latest first.
pub open spec fn ran_desc(steps: Seq<MergeStepRecord>) -> Seq<usize>
    decreases steps.len(),
{
    if steps.len() == 0 {
        Seq::empty()
    } else if steps.last().status != MergeStepStatus::Pending {
        seq![(steps.len() - 1) as usize] + ran_desc(steps.drop_last())
    } else {
        ran_desc(steps.drop_last())
    }
}

/// Rolls the run back: every step that ran is aborted, its result dropped,
/// and the run is aborted. Returns the steps whose checkouts are reset,
/// latest first.
pub fn roll_back(p: &mut MergeProgress) -> (reset: Vec<usize>)
    ensures
        final(p).manual == old(p).manual,
        final(p).status == MergeRunStatus::Aborted,
        final(p).steps@ == old(p).steps@.map_values(|s: MergeStepRecord| rolled_back(s)),
        reset@ == ran_desc(old(p).steps@),
{
    let ghost old_steps = p.steps@;
    let mut steps: Vec<MergeStepRecord> = Vec::new();
    let mut reset: Vec<usize> = Vec::new();
    let mut i: usize = 0;
    while i < p.steps.len()
        invariant
            i <= p.steps@.len(),
            p.steps@ == old_steps,
            steps@ == old_steps.take(i as int).map_values(|s: MergeStepRecord| rolled_back(s)),
            reset@ == ran_desc(old_steps.take(i as int)),
        decreases p.steps.len() - i,
    {
        let s = &p.steps[i];
        let ghost r0 = reset@;
        let mut next = copy_step(s);
        if s.status != MergeStepStatus::Pending {
            reset.insert(0, i);
            next.after_sha = None;
            next.status = MergeStepStatus::Aborted;
        }
        proof {
            assert(old_steps.take(i + 1).drop_last() =~= old_steps.take(i as int));
            if s.status != MergeStepStatus::Pending {
                assert(reset@ =~= seq![i] + r0);
            }
        }
        steps.push(next);
        proof {
            assert(steps@ =~= old_steps.take(i + 1).map_values(|s: MergeStepRecord| rolled_back(s)));
        }
        i += 1;
    }
    proof {
        assert(old_steps.take(old_steps.len() as int) =~= old_steps);
    }
    p.steps = steps;
    p.status = MergeRunStatus::Aborted;
    reset
}


/// A rollback leaves no step applied: each step is pending (never ran) or
/// aborted with no result, and exactly the steps that ran are reset, each
/// once, latest first.
pub proof fn lemma_rollback_resets_what_ran(steps: Seq<MergeStepRecord>)
    requires
        steps.len() <= usize::MAX,
    ensures
        forall|j: int| 0 <= j < steps.len() ==> (#[trigger] rolled_back(steps[j]).status == MergeStepStatus::Pending
            || (rolled_back(steps[j]).status == MergeStepStatus::Aborted && rolled_back(steps[j]).after_sha is None)),
        forall|j: int| 0 <= j < steps.len() ==> (ran_desc(steps).contains(j as usize) <==> #[trigger] steps[j].status
            != MergeStepStatus::Pending),
        forall|a: int, b: int| 0 <= a < b < ran_desc(steps).len() ==> ran_desc(steps)[a] > ran_desc(steps)[b],
        forall|a: int| 0 <= a < ran_desc(steps).len() ==> ran_desc(steps)[a] < steps.len(),
    decreases steps.len(),
{
    if steps.len() > 0 {
        let init = steps.drop_last();
        lemma_rollback_resets_what_ran(init);
        let d = ran_desc(steps);
        let di = ran_desc(init);
        let n = (steps.len() - 1) as usize;
        assert forall|j: int| 0 <= j < steps.len() implies (ran_desc(steps).contains(j as usize) <==> #[trigger] steps[j].status
            != MergeStepStatus::Pending) by {
            if j < steps.len() - 1 {
                assert(init[j] == steps[j]);
                if steps.last().status != MergeStepStatus::Pending {
                    assert(d == seq![n] + di);
                    if di.contains(j as usize) {
                        let k = choose|k: int| 0 <= k < di.len() && di[k] == j as usize;
                        assert(d[k + 1] == j as usize);
                    }
                    if d.contains(j as usize) {
                        let k = choose|k: int| 0 <= k < d.len() && d[k] == j as usize;
                        assert(k != 0);
                        assert(di[k - 1] == j as usize);
                    }
                }
            } else {
                if steps.last().status != MergeStepStatus::Pending {
                    assert(d[0] == n);
                } else {
                    if di.contains(j as usize) {
                        let k = choose|k: int| 0 <= k < di.len() && di[k] == j as usize;
                        assert(di[k] < init.len());
                    }
                }
            }
        }
    }
}

pub open spec fn conflict_stop_text(checkout_path: Seq<char>) -> Seq<char> {
    "Merge stopped for manual conflict resolution. Resolve and commit in "@ + checkout_path
        + ", then run `knit merge --continue`, or run `knit merge --abort`."@
}

/// Records what applying pending step `i` came to. A merge marks the step
/// succeeded. A conflict in a manual run marks the step and the run
/// conflicted and stops for resolution. A conflict in any other run, and a
/// fatal failure, abort the step with its message and roll the run back.
pub fn apply_step_result(p: &mut MergeProgress, i: usize, result: StepResult) -> (a: StepAction)
    requires
        i < old(p).steps@.len(),
    ensures
        final(p).manual == old(p).manual,
        final(p).steps@.len() == old(p).steps@.len(),
        match result {
            StepResult::Merged { after_sha } => {
                &&& a matches StepAction::Continue
                &&& final(p).status == old(p).status
                &&& final(p).steps@ == old(p).steps@.update(
                    i as int,
                    MergeStepRecord { after_sha: Some(after_sha), status: MergeStepStatus::Succeeded, ..old(p).steps@[i as int] },
                )
            },
            StepResult::Conflict(m) if old(p).manual => {
                &&& a matches StepAction::StopForConflict(e) && e@ == conflict_stop_text(old(p).steps@[i as int].checkout_path@)
                &&& final(p).status == MergeRunStatus::Conflicted
                &&& final(p).steps@ == old(p).steps@.update(
                    i as int,
                    MergeStepRecord { status: MergeStepStatus::Conflicted, message: Some(m), ..old(p).steps@[i as int] },
                )
            },
            StepResult::Conflict(m) | StepResult::Fatal(m) => {
                let aborted = old(p).steps@.update(
                    i as int,
                    MergeStepRecord { status: MergeStepStatus::Aborted, message: Some(m), ..old(p).steps@[i as int] },
                );
                &&& a matches StepAction::RolledBack { reset, failure } && reset@ == ran_desc(aborted) && failure@
                    == old(p).steps@[i as int].repo_id@ + ": "@ + m@
                &&& final(p).status == MergeRunStatus::Aborted
                &&& final(p).steps@ == aborted.map_values(|s: MergeStepRecord| rolled_back(s))
            },
        },
{
    let mut step = copy_step(&p.steps[i]);
    match result {
        StepResult::Merged { after_sha } => {
            step.after_sha = Some(after_sha);
            step.status = MergeStepStatus::Succeeded;
            p.steps.set(i, step);
            StepAction::Continue
        },
        StepResult::Conflict(m) if p.manual => {
            let mut v = chars_of("Merge stopped for manual conflict resolution. Resolve and commit in ");
            append_str(&mut v, step.checkout_path.as_str());
            append_str(&mut v, ", then run `knit merge --continue`, or run `knit merge --abort`.");
            step.status = MergeStepStatus::Conflicted;
            step.message = Some(m);
            p.steps.set(i, step);
            p.status = MergeRunStatus::Conflicted;
            StepAction::StopForConflict(string_from_chars(&v))
        },
        StepResult::Conflict(m) | StepResult::Fatal(m) => {
            let mut f = chars_of(step.repo_id.as_str());
            append_str(&mut f, ": ");
            append_str(&mut f, m.as_str());
            step.status = MergeStepStatus::Aborted;
            step.message = Some(m);
            p.steps.set(i, step);
            let reset = roll_back(p);
            StepAction::RolledBack { reset, failure: string_from_chars(&f) }
        },
    }
}

/// The error of a rolled-back run, listing its failures.
pub fn aborted_run_message(failures: &Vec<String>) -> (out: String)
    ensures
        out@ == "Merge aborted and this run was rolled back:\n"@ + join_seq(strings_view(failures@), "\n"@),
{
    let mut v = chars_of("Merge aborted and this run was rolled back:\n");
    let j = join_strings(failures, "\n");
    append_str(&mut v, j.as_str());
    string_from_chars(&v)
}

/// Every step succeeded: the run's target is finalized.
pub open spec fn all_succeeded(p: MergeProgress) -> bool {
    forall|j: int| 0 <= j < p.steps@.len() ==> #[trigger] p.steps@[j].status == MergeStepStatus::Succeeded
}

pub fn run_complete(p: &MergeProgress) -> (b: bool)
    ensures
        b == all_succeeded(*p),
{
    let mut i: usize = 0;
    while i < p.steps.len()
        invariant
            i <= p.steps@.len(),
            forall|j: int| 0 <= j < i ==> #[trigger] p.steps@[j].status == MergeStepStatus::Succeeded,
        decreases p.steps.len() - i,
    {
        if p.steps[i].status != MergeStepStatus::Succeeded {
            return false;
        }
        i += 1;
    }
    true
}

/// Closes a complete run after its push (when one was asked): a push failure
/// leaves the run `push_failed` with this error; else the run succeeded.
pub fn finish_run(p: &mut MergeProgress, push_error: Option<String>) -> (r: Result<(), String>)
    ensures
        final(p).steps@ == old(p).steps@,
        final(p).manual == old(p).manual,
        match push_error {
            Some(e) => final(p).status == MergeRunStatus::PushFailed && (r matches Err(m) && m@
                == "Merge succeeded locally, but push failed:\n"@ + e@),
            None => final(p).status == MergeRunStatus::Succeeded && r is Ok,
        },
{
    match push_error {
        Some(e) => {
            p.status = MergeRunStatus::PushFailed;
            let mut v = chars_of("Merge succeeded locally, but push failed:\n");
            append_str(&mut v, e.as_str());
            Err(string_from_chars(&v))
        },
        None => {
            p.status = MergeRunStatus::Succeeded;
            Ok(())
        },
    }
}

/// Why `knit merge --continue` cannot go on.
#[derive(Debug, Clone)]
pub enum ContinueError {
    NoConflictedStep,
    Unresolved { repo: String },
    Uncommitted { repo: String },
    HeadDidNotMove { repo: String },
}

impl ContinueError {
    pub open spec fn text(&self) -> Seq<char> {
        match self {
            ContinueError::NoConflictedStep => "Latest conflicted merge run has no conflicted step."@,
            ContinueError::Unresolved { repo } => repo@
                + ": unresolved conflicts remain. Resolve them before running `knit merge --continue`."@,
            ContinueError::Uncommitted { repo } => repo@
                + ": target checkout still has uncommitted changes. Commit or clean them before continuing."@,
            ContinueError::HeadDidNotMove { repo } => repo@
                + ": HEAD did not move. Complete the merge commit before continuing."@,
        }
    }

    pub fn message(&self) -> (out: String)
        ensures
            out@ == self.text(),
    {
        match self {
            ContinueError::NoConflictedStep => string_from_chars(
                &chars_of("Latest conflicted merge run has no conflicted step."),
            ),
            ContinueError::Unresolved { repo } => {
                let mut v = chars_of(repo.as_str());
                append_str(&mut v, ": unresolved conflicts remain. Resolve them before running `knit merge --continue`.");
                string_from_chars(&v)
            },
            ContinueError::Uncommitted { repo } => {
                let mut v = chars_of(repo.as_str());
                append_str(
                    &mut v,
                    ": target checkout still has uncommitted changes. Commit or clean them before continuing.",
                );
                string_from_chars(&v)
            },
            ContinueError::HeadDidNotMove { repo } => {
                let mut v = chars_of(repo.as_str());
                append_str(&mut v, ": HEAD did not move. Complete the merge commit before continuing.");
                string_from_chars(&v)
            },
        }
    }
}

/// The first conflicted step of the run, which `--continue` resolves.
pub fn conflicted_step(p: &MergeProgress) -> (r: Result<usize, ContinueError>)
    ensures
        match r {
            Ok(i) => i < p.steps@.len() && p.steps@[i as int].status == MergeStepStatus::Conflicted && forall|j: int|
                0 <= j < i ==> p.steps@[j].status != MergeStepStatus::Conflicted,
            Err(e) => e matches ContinueError::NoConflictedStep && forall|j: int|
                0 <= j < p.steps@.len() ==> p.steps@[j].status != MergeStepStatus::Conflicted,
        },
{
    let mut i: usize = 0;
    while i < p.steps.len()
        invariant
            i <= p.steps@.len(),
            forall|j: int| 0 <= j < i ==> p.steps@[j].status != MergeStepStatus::Conflicted,
        decreases p.steps.len() - i,
    {
        if p.steps[i].status == MergeStepStatus::Conflicted {
            return Ok(i);
        }
        i += 1;
    }
    Err(ContinueError::NoConflictedStep)
}

/// Records the resolution of conflicted step `i` at `after_sha`: the step
/// succeeded (its message cleared) and the run is running again; refused when
/// HEAD did not move from the step's `before_sha`.
pub fn resolve_conflicted(p: &mut MergeProgress, i: usize, after_sha: String) -> (r: Result<(), ContinueError>)
    requires
        i < old(p).steps@.len(),
    ensures
        final(p).manual == old(p).manual,
        after_sha@ == old(p).steps@[i as int].before_sha@ ==> (r matches Err(ContinueError::HeadDidNotMove { repo })
            && repo@ == old(p).steps@[i as int].repo_id@ && final(p).steps@ == old(p).steps@ && final(p).status == old(
        p).status),
        after_sha@ != old(p).steps@[i as int].before_sha@ ==> r is Ok && final(p).status == MergeRunStatus::Running
            && final(p).steps@ == old(p).steps@.update(
            i as int,
            MergeStepRecord {
                after_sha: Some(after_sha),
                status: MergeStepStatus::Succeeded,
                message: None,
                ..old(p).steps@[i as int]
            },
        ),
{
    if crate::text::str_eq(after_sha.as_str(), p.steps[i].before_sha.as_str()) {
        return Err(ContinueError::HeadDidNotMove { repo: p.steps[i].repo_id.clone() });
    }
    let mut step = copy_step(&p.steps[i]);
    step.after_sha = Some(after_sha);
    step.status = MergeStepStatus::Succeeded;
    step.message = None;
    p.steps.set(i, step);
    p.status = MergeRunStatus::Running;
    Ok(())
}

} // verus!
