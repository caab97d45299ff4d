//! Running a land plan wave by wave: which steps of a wave start, how the
//! run records them and their outcomes, and when the run stops.
use vstd::prelude::*;

use crate::land_order::{find_step, first_step_with, is_known};
use crate::land_run::{ensure_needs_succeeded, has_run_step, is_run_step_index, needs_error, needs_met, run_step, LandError};
use crate::land_types::{step_ids, LandRun, LandRunStep, LandStatus, LandStep};
use crate::text::{append_str, join_seq, join_strings, string_from_chars, strings_view};

verus! {

/// What running one step produced.
#[derive(Debug, Clone)]
pub struct StepOutcome {
    pub success: bool,
    pub detail: String,
    pub publication_url: Option<String>,
    pub stdout: Option<String>,
    pub stderr: Option<String>,
    pub exit_code: Option<i32>,
}

/// The position of the first run record of step `id`.
pub open spec fn run_index_of(run: LandRun, id: Seq<char>) -> int {
    choose|i: int| is_run_step_index(run, id, i)
}

proof fn lemma_run_index_of(run: LandRun, id: Seq<char>, i: int)
    requires
        is_run_step_index(run, id, i),
    ensures
        run_index_of(run, id) == i,
{
    let c = run_index_of(run, id);
    assert(is_run_step_index(run, id, c));
    if c < i {
        assert(run.steps@[c].id@ == id);
    } else if i < c {
        assert(run.steps@[i].id@ == id);
    }
}

proof fn lemma_first_step_with(steps: Seq<LandStep>, x: Seq<char>, i: int)
    requires
        0 <= i < steps.len(),
        steps[i].id@ == x,
        forall|j: int| 0 <= j < i ==> steps[j].id@ != x,
    ensures
        first_step_with(steps, x) == i,
{
    let c = first_step_with(steps, x);
    assert(step_ids(steps)[i] == x);
    assert(0 <= c < steps.len() && steps[c].id@ == x);
    if c < i {
        assert(steps[c].id@ == x);
    } else if i < c {
        assert(steps[i].id@ == x);
    }
}

/// The wave step `id` still has to run (its record has not succeeded).
#[verifier::opaque]
pub open spec fn still_to_run(run: LandRun, id: Seq<char>) -> bool {
    run.steps@[run_index_of(run, id)].status != LandStatus::Succeeded
}

/// The (plan step, run record) positions of the wave steps that start, in
/// wave order: every step not already succeeded.
#[verifier::opaque]
pub open spec fn wave_starts(run: LandRun, steps: Seq<LandStep>, wave: Seq<Seq<char>>) -> Seq<(int, int)>
    decreases wave.len(),
{
    if wave.len() == 0 {
        Seq::empty()
    } else {
        let p = wave_starts(run, steps, wave.drop_last());
        let id = wave.last();
        if still_to_run(run, id) {
            p.push((first_step_with(steps, id), run_index_of(run, id)))
        } else {
            p
        }
    }
}

proof fn lemma_wave_starts_step(run: LandRun, steps: Seq<LandStep>, w: Seq<Seq<char>>, x: Seq<char>)
    ensures
        wave_starts(run, steps, w.push(x)) == (if still_to_run(run, x) {
            wave_starts(run, steps, w).push((first_step_with(steps, x), run_index_of(run, x)))
        } else {
            wave_starts(run, steps, w)
        }),
{
    reveal(wave_starts);
    assert(w.push(x).drop_last() =~= w);
}

/// Step `x` is in the plan and has a run record.
#[verifier::opaque]
pub open spec fn in_plan_and_run(run: LandRun, steps: Seq<LandStep>, x: Seq<char>) -> bool {
    is_known(steps, x) && has_run_step(run, x)
}

/// Wave step `id` must start but its needs have not all succeeded.
#[verifier::opaque]
pub open spec fn blocked(run: LandRun, steps: Seq<LandStep>, id: Seq<char>) -> bool {
    still_to_run(run, id) && !needs_met(run, steps[first_step_with(steps, id)])
}

/// One wave step: its (plan step, run record) positions when it must start,
/// none when it already succeeded, or the error of its first unmet need.
fn plan_wave_step(run: &LandRun, steps: &Vec<LandStep>, id: &String) -> (r: Result<Option<(usize, usize)>, LandError>)
    requires
        is_known(steps@, id@),
        has_run_step(*run, id@),
    ensures
        match r {
            Ok(Some(q)) => still_to_run(*run, id@) && !blocked(*run, steps@, id@) && q.0 == first_step_with(steps@, id@)
                && q.1 == run_index_of(*run, id@),
            Ok(None) => !still_to_run(*run, id@) && !blocked(*run, steps@, id@),
            Err(e) => blocked(*run, steps@, id@) && needs_error(*run, steps@[first_step_with(steps@, id@)], e),
        },
{
    let p = match find_step(steps, id) {
        Some(p) => p,
        None => {
            return Err(LandError::EmptyTarget);
        },
    };
    let i = match run_step(run, id.as_str()) {
        Some(i) => i,
        None => {
            return Err(LandError::EmptyTarget);
        },
    };
    proof {
        lemma_first_step_with(steps@, id@, p as int);
        lemma_run_index_of(*run, id@, i as int);
        reveal(still_to_run);
        reveal(blocked);
    }
    if run.steps[i].status == LandStatus::Succeeded {
        return Ok(None);
    }
    match ensure_needs_succeeded(run, &steps[p]) {
        Ok(()) => Ok(Some((p, i))),
        Err(e) => Err(e),
    }
}

/// The steps of a wave to start, checked against the run: the wave's
/// steps that have not succeeded yet, each of whose needs must have
/// succeeded. The first step that cannot start is reported. (Marking
/// steps running never changes a succeeded record, so checking each step
/// against the run as it was before the wave is the same as checking it
/// after the earlier wave steps were marked.)
#[verifier::rlimit(30)]
pub fn plan_wave(run: &LandRun, steps: &Vec<LandStep>, wave: &Vec<String>) -> (r: Result<Vec<(usize, usize)>, LandError>)
    requires
        forall|k: int| 0 <= k < wave@.len() ==> in_plan_and_run(*run, steps@, #[trigger] wave@[k]@),
    ensures
        match r {
            Ok(p) => p@.map_values(|q: (usize, usize)| (q.0 as int, q.1 as int)) == wave_starts(*run, steps@, strings_view(wave@))
                && forall|k: int| 0 <= k < wave@.len() ==> !blocked(*run, steps@, #[trigger] wave@[k]@),
            Err(e) => exists|k: int|
                0 <= k < wave@.len() && (forall|j: int| 0 <= j < k ==> !blocked(*run, steps@, #[trigger] wave@[j]@))
                    && blocked(*run, steps@, #[trigger] wave@[k]@)
                    && needs_error(*run, steps@[first_step_with(steps@, wave@[k]@)], e),
        },
{
    let mut out: Vec<(usize, usize)> = Vec::new();
    let mut k: usize = 0;
    proof {
        reveal(wave_starts);
        assert(strings_view(wave@).take(0) =~= Seq::<Seq<char>>::empty());
        assert(out@.map_values(|q: (usize, usize)| (q.0 as int, q.1 as int)) =~= Seq::<(int, int)>::empty());
    }
    while k < wave.len()
        invariant
            k <= wave@.len(),
            forall|q: int| 0 <= q < wave@.len() ==> in_plan_and_run(*run, steps@, #[trigger] wave@[q]@),
            out@.map_values(|q: (usize, usize)| (q.0 as int, q.1 as int)) == wave_starts(*run, steps@, strings_view(wave@).take(k as int)),
            forall|j: int| 0 <= j < k ==> !blocked(*run, steps@, #[trigger] wave@[j]@),
        decreases wave.len() - k,
    {
        proof {
            assert(strings_view(wave@).take(k + 1) =~= strings_view(wave@).take(k as int).push(wave@[k as int]@));
            lemma_wave_starts_step(*run, steps@, strings_view(wave@).take(k as int), wave@[k as int]@);
            assert(in_plan_and_run(*run, steps@, wave@[k as int]@));
            reveal(in_plan_and_run);
        }
        let ghost prev = out@.map_values(|q: (usize, usize)| (q.0 as int, q.1 as int));
        match plan_wave_step(run, steps, &wave[k]) {
            Ok(Some(q)) => {
                out.push(q);
                proof {
                    assert(out@.map_values(|q: (usize, usize)| (q.0 as int, q.1 as int)) =~= prev.push((q.0 as int, q.1 as int)));
                }
            },
            Ok(None) => {},
            Err(e) => {
                proof {
                    assert(blocked(*run, steps@, wave@[k as int]@));
                    assert(needs_error(*run, steps@[first_step_with(steps@, wave@[k as int]@)], e));
                }
                return Err(e);
            },
        }
        k += 1;
    }
    proof {
        assert(strings_view(wave@).take(wave@.len() as int) =~= strings_view(wave@));
    }
    Ok(out)
}

fn opt_copy(o: &Option<String>) -> (r: Option<String>)
    ensures
        r == *o,
{
    match o {
        Some(x) => Some(x.clone()),
        None => None,
    }
}

/// `after` is `before` restarted: running, started now, with its finish,
/// detail, output and exit code cleared.
pub open spec fn restarted(before: LandRunStep, after: LandRunStep, now: String) -> bool {
    after == LandRunStep {
        status: LandStatus::Running,
        started_at: Some(now),
        finished_at: None,
        detail: None,
        stdout: None,
        stderr: None,
        exit_code: None,
        ..before
    }
}

/// Run position `i` is one of the first `n` starts.
pub open spec fn started_among(starts: Seq<(usize, usize)>, n: int, i: int) -> bool {
    exists|q: int| 0 <= q < n && (#[trigger] starts[q]).1 == i
}

/// Marks the wave steps at run positions `starts` as running from `now`;
/// when any start, the run is running and updated now.
pub fn mark_started(run: &mut LandRun, starts: &Vec<(usize, usize)>, now: &String)
    requires
        forall|k: int| 0 <= k < starts@.len() ==> (#[trigger] starts@[k]).1 < old(run).steps@.len(),
    ensures
        final(run).steps@.len() == old(run).steps@.len(),
        forall|i: int| 0 <= i < old(run).steps@.len() ==> if started_among(starts@, starts@.len() as int, i) {
            restarted(old(run).steps@[i], #[trigger] final(run).steps@[i], *now)
        } else {
            final(run).steps@[i] == old(run).steps@[i]
        },
        starts@.len() > 0 ==> final(run).status == LandStatus::Running && final(run).updated_at == *now,
        starts@.len() == 0 ==> final(run).status == old(run).status && final(run).updated_at == old(run).updated_at,
        final(run).id == old(run).id,
        final(run).bundle_id == old(run).bundle_id,
        final(run).plan_id == old(run).plan_id,
{
    let ghost orig = run.steps@;
    let mut k: usize = 0;
    while k < starts.len()
        invariant
            k <= starts@.len(),
            forall|q: int| 0 <= q < starts@.len() ==> (#[trigger] starts@[q]).1 < orig.len(),
            run.steps@.len() == orig.len(),
            orig == old(run).steps@,
            run.id == old(run).id,
            run.bundle_id == old(run).bundle_id,
            run.plan_id == old(run).plan_id,
            run.status == old(run).status,
            run.updated_at == old(run).updated_at,
            forall|i: int| 0 <= i < orig.len() ==> if started_among(starts@, k as int, i) {
                restarted(orig[i], #[trigger] run.steps@[i], *now)
            } else {
                run.steps@[i] == orig[i]
            },
        decreases starts.len() - k,
    {
        let i = starts[k].1;
        let ghost cur = run.steps@;
        let ghost orig_i = orig[i as int];
        let old_s = &run.steps[i];
        let s = LandRunStep {
            id: old_s.id.clone(),
            step_type: old_s.step_type,
            status: LandStatus::Running,
            repo_id: opt_copy(&old_s.repo_id),
            publication_url: opt_copy(&old_s.publication_url),
            started_at: Some(now.clone()),
            finished_at: None,
            detail: None,
            stdout: None,
            stderr: None,
            exit_code: None,
        };
        proof {
            if started_among(starts@, k as int, i as int) {
                assert(restarted(orig_i, cur[i as int], *now));
            } else {
                assert(cur[i as int] == orig_i);
            }
            assert(restarted(orig_i, s, *now));
        }
        run.steps.set(i, s);
        proof {
            assert(starts@[k as int].1 == i);
            assert forall|x: int| 0 <= x < orig.len() implies if started_among(starts@, k + 1, x) {
                restarted(orig[x], #[trigger] run.steps@[x], *now)
            } else {
                run.steps@[x] == orig[x]
            } by {
                if x != i {
                    assert(run.steps@[x] == cur[x]);
                    if started_among(starts@, k + 1, x) {
                        let q = choose|q: int| 0 <= q < k + 1 && (#[trigger] starts@[q]).1 == x;
                        assert(q < k);
                        assert(started_among(starts@, k as int, x));
                    } else {
                        if started_among(starts@, k as int, x) {
                            let q = choose|q: int| 0 <= q < k && (#[trigger] starts@[q]).1 == x;
                            assert(started_among(starts@, k + 1, x));
                        }
                    }
                } else {
                    assert(started_among(starts@, k + 1, x));
                }
            }
        }
        k += 1;
    }
    if starts.len() > 0 {
        run.status = LandStatus::Running;
        run.updated_at = now.clone();
    }
}

/// The run records after recording `results` in order at `now`.
pub open spec fn record_all(steps: Seq<LandRunStep>, results: Seq<(String, StepOutcome)>, now: String) -> Seq<LandRunStep>
    decreases results.len(),
{
    if results.len() == 0 {
        steps
    } else {
        let s = record_all(steps, results.drop_last(), now);
        let (id, outcome) = results.last();
        let i = choose|i: int| 0 <= i < s.len() && s[i].id@ == id@ && forall|j: int| 0 <= j < i ==> s[j].id@ != id@;
        s.update(i, LandRunStep {
            status: if outcome.success { LandStatus::Succeeded } else { LandStatus::Failed },
            finished_at: Some(now),
            detail: Some(outcome.detail),
            publication_url: outcome.publication_url,
            stdout: outcome.stdout,
            stderr: outcome.stderr,
            exit_code: outcome.exit_code,
            ..s[i]
        })
    }
}

/// The ids of the failed results, in order.
pub open spec fn failed_ids(results: Seq<(String, StepOutcome)>) -> Seq<Seq<char>>
    decreases results.len(),
{
    if results.len() == 0 {
        Seq::empty()
    } else {
        let p = failed_ids(results.drop_last());
        if !results.last().1.success {
            p.push(results.last().0@)
        } else {
            p
        }
    }
}

/// Records the outcomes of a wave's steps at `now` and returns the ids of
/// the failed ones; the run is failed when any failed, else still running.
pub fn record_wave_results(run: &mut LandRun, results: &Vec<(String, StepOutcome)>, now: &String) -> (failed: Vec<String>)
    requires
        forall|k: int| 0 <= k < results@.len() ==> has_run_step(*old(run), (#[trigger] results@[k]).0@),
    ensures
        final(run).steps@ == record_all(old(run).steps@, results@, *now),
        final(run).steps@.len() == old(run).steps@.len(),
        forall|i: int| 0 <= i < old(run).steps@.len() ==> (#[trigger] final(run).steps@[i]).id == old(run).steps@[i].id,
        strings_view(failed@) == failed_ids(results@),
        final(run).status == (if failed@.len() > 0 { LandStatus::Failed } else { LandStatus::Running }),
        final(run).updated_at == *now,
        final(run).id == old(run).id,
        final(run).bundle_id == old(run).bundle_id,
        final(run).plan_id == old(run).plan_id,
{
    let ghost orig = run.steps@;
    let mut failed: Vec<String> = Vec::new();
    let mut k: usize = 0;
    while k < results.len()
        invariant
            k <= results@.len(),
            forall|q: int| 0 <= q < results@.len() ==> has_run_step(*old(run), (#[trigger] results@[q]).0@),
            run.steps@ == record_all(orig, results@.take(k as int), *now),
            orig == old(run).steps@,
            run.steps@.len() == orig.len(),
            forall|i: int| 0 <= i < orig.len() ==> (#[trigger] run.steps@[i]).id == orig[i].id,
            strings_view(failed@) == failed_ids(results@.take(k as int)),
            run.id == old(run).id,
            run.bundle_id == old(run).bundle_id,
            run.plan_id == old(run).plan_id,
        decreases results.len() - k,
    {
        let (id, outcome) = &results[k];
        proof {
            assert(results@.take(k + 1).drop_last() =~= results@.take(k as int));
            assert(results@.take(k + 1).last() == results@[k as int]);
            assert(has_run_step(*old(run), id@));
        }
        let i = match run_step(run, id.as_str()) {
            Some(i) => i,
            None => {
                proof {
                    let j = choose|j: int| 0 <= j < orig.len() && orig[j].id@ == id@;
                    assert(run.steps@[j].id == orig[j].id);
                    assert(false);
                }
                k += 1;
                continue;
            },
        };
        let ghost cur = run.steps@;
        let old_s = &run.steps[i];
        let s = LandRunStep {
            id: old_s.id.clone(),
            step_type: old_s.step_type,
            status: if outcome.success { LandStatus::Succeeded } else { LandStatus::Failed },
            repo_id: opt_copy(&old_s.repo_id),
            publication_url: opt_copy(&outcome.publication_url),
            started_at: opt_copy(&old_s.started_at),
            finished_at: Some(now.clone()),
            detail: Some(outcome.detail.clone()),
            stdout: opt_copy(&outcome.stdout),
            stderr: opt_copy(&outcome.stderr),
            exit_code: outcome.exit_code,
        };
        run.steps.set(i, s);
        proof {
            let c = choose|c: int| 0 <= c < cur.len() && cur[c].id@ == id@ && forall|j: int| 0 <= j < c ==> cur[j].id@ != id@;
            assert(is_run_step_index(*run, id@, i as int) || true);
            if c < i {
                assert(cur[c].id@ == id@);
            } else if i < c {
                assert(cur[i as int].id@ == id@);
            }
            assert(c == i);
            assert(run.steps@ =~= record_all(orig, results@.take(k + 1), *now));
        }
        if !outcome.success {
            let ghost prev = strings_view(failed@);
            failed.push(id.clone());
            proof {
                assert(strings_view(failed@) =~= prev.push(id@));
            }
        }
        k += 1;
    }
    proof {
        assert(results@.take(results@.len() as int) =~= results@);
    }
    run.updated_at = now.clone();
    run.status = if failed.len() > 0 { LandStatus::Failed } else { LandStatus::Running };
    failed
}

/// The error that stops a run after a wave with failed steps.
pub open spec fn stop_message_spec(run_id: Seq<char>, failed: Seq<Seq<char>>) -> Seq<char> {
    "Land run "@ + run_id + " stopped at "@ + (if failed.len() == 1 { "step"@ } else { "steps"@ }) + " "@
        + join_seq(failed, ", "@) + ". Fix the issue and run `knit land resume`."@
}

pub fn run_stop_message(run_id: &str, failed: &Vec<String>) -> (out: String)
    ensures
        out@ == stop_message_spec(run_id@, strings_view(failed@)),
{
    let mut v: Vec<char> = Vec::new();
    append_str(&mut v, "Land run ");
    append_str(&mut v, run_id);
    append_str(&mut v, " stopped at ");
    if failed.len() == 1 {
        append_str(&mut v, "step");
    } else {
        append_str(&mut v, "steps");
    }
    append_str(&mut v, " ");
    let joined = join_strings(failed, ", ");
    append_str(&mut v, joined.as_str());
    append_str(&mut v, ". Fix the issue and run `knit land resume`.");
    string_from_chars(&v)
}

/// Every run record has succeeded.
pub open spec fn all_succeeded(steps: Seq<LandRunStep>) -> bool {
    forall|i: int| 0 <= i < steps.len() ==> (#[trigger] steps[i]).status == LandStatus::Succeeded
}

/// The run after its last wave: succeeded, updated now, when every one of
/// its steps has succeeded; otherwise left as it is.
pub fn finish_run(run: &mut LandRun, now: &String) -> (done: bool)
    ensures
        done == all_succeeded(old(run).steps@),
        done ==> final(run).status == LandStatus::Succeeded && final(run).updated_at == *now
            && final(run).steps == old(run).steps && final(run).id == old(run).id
            && final(run).bundle_id == old(run).bundle_id && final(run).plan_id == old(run).plan_id,
        !done ==> *final(run) == *old(run),
{
    let mut i: usize = 0;
    while i < run.steps.len()
        invariant
            i <= run.steps@.len(),
            forall|j: int| 0 <= j < i ==> (#[trigger] run.steps@[j]).status == LandStatus::Succeeded,
        decreases run.steps.len() - i,
    {
        if run.steps[i].status != LandStatus::Succeeded {
            return false;
        }
        i += 1;
    }
    run.status = LandStatus::Succeeded;
    run.updated_at = now.clone();
    true
}

/// A wave in which some step failed.
pub open spec fn wave_failed(results: Seq<(String, StepOutcome)>) -> bool {
    failed_ids(results).len() > 0
}

/// The run records after the first `n` waves' outcomes are recorded in
/// turn at `now`.
pub open spec fn record_waves(steps: Seq<LandRunStep>, waves: Seq<Vec<(String, StepOutcome)>>, n: nat, now: String) -> Seq<LandRunStep>
    decreases n,
{
    if n == 0 {
        steps
    } else {
        record_all(record_waves(steps, waves, (n - 1) as nat, now), waves[n - 1]@, now)
    }
}

/// Every outcome of every wave names a step the run records.
pub open spec fn waves_recorded_by(run: LandRun, waves: Seq<Vec<(String, StepOutcome)>>) -> bool {
    forall|k: int, i: int| 0 <= k < waves.len() && 0 <= i < waves[k]@.len() ==> has_run_step(run, (#[trigger] waves[k]@[i]).0@)
}

/// Records the outcomes of a run's waves in order at `now`, as the run
/// goes: the run stops at the first wave in which a step failed (the run is
/// then failed, no later wave is recorded, and the failed step ids are
/// returned); after a last wave without failures the run has succeeded
/// exactly when every one of its steps has.
#[verifier::rlimit(30)]
pub fn run_waves(run: &mut LandRun, waves: &Vec<Vec<(String, StepOutcome)>>, now: &String) -> (r: Result<(), Vec<String>>)
    requires
        waves_recorded_by(*old(run), waves@),
    ensures
        final(run).id == old(run).id,
        final(run).bundle_id == old(run).bundle_id,
        final(run).plan_id == old(run).plan_id,
        r is Err <==> exists|k: int| 0 <= k < waves@.len() && wave_failed(#[trigger] waves@[k]@),
        match r {
            Err(failed) => exists|k: int| {
                &&& 0 <= k < waves@.len()
                &&& wave_failed(#[trigger] waves@[k]@)
                &&& forall|j: int| 0 <= j < k ==> !wave_failed(#[trigger] waves@[j]@)
                &&& final(run).steps@ == record_waves(old(run).steps@, waves@, (k + 1) as nat, *now)
                &&& strings_view(failed@) == failed_ids(waves@[k]@)
                &&& final(run).status == LandStatus::Failed
                &&& final(run).updated_at == *now
            },
            Ok(()) => {
                &&& final(run).steps@ == record_waves(old(run).steps@, waves@, waves@.len(), *now)
                &&& all_succeeded(final(run).steps@) ==> final(run).status == LandStatus::Succeeded
                    && final(run).updated_at == *now
                &&& !all_succeeded(final(run).steps@) ==> final(run).status == (if waves@.len() == 0 {
                    old(run).status
                } else {
                    LandStatus::Running
                })
            },
        },
{
    let ghost orig = run.steps@;
    let mut k: usize = 0;
    while k < waves.len()
        invariant
            k <= waves@.len(),
            run.steps@.len() == orig.len(),
            orig == old(run).steps@,
            forall|i: int| 0 <= i < orig.len() ==> (#[trigger] run.steps@[i]).id == orig[i].id,
            waves_recorded_by(*old(run), waves@),
            run.steps@ == record_waves(orig, waves@, k as nat, *now),
            forall|j: int| 0 <= j < k ==> !wave_failed(#[trigger] waves@[j]@),
            k > 0 ==> run.status == LandStatus::Running,
            k == 0 ==> run.status == old(run).status,
            run.id == old(run).id,
            run.bundle_id == old(run).bundle_id,
            run.plan_id == old(run).plan_id,
        decreases waves.len() - k,
    {
        proof {
            assert forall|q: int| 0 <= q < waves@[k as int]@.len() implies has_run_step(*run, (#[trigger] waves@[k as int]@[q]).0@) by {
                assert(has_run_step(*old(run), waves@[k as int]@[q].0@));
                let j = choose|j: int| 0 <= j < orig.len() && orig[j].id@ == waves@[k as int]@[q].0@;
                assert(run.steps@[j].id == orig[j].id);
            }
        }
        let failed = record_wave_results(run, &waves[k], now);
        proof {
            assert(run.steps@ == record_waves(orig, waves@, (k + 1) as nat, *now));
        }
        if failed.len() > 0 {
            proof {
                assert(wave_failed(waves@[k as int]@));
            }
            return Err(failed);
        }
        k += 1;
    }
    let _ = finish_run(run, now);
    Ok(())
}

/// What a land run does after recording a wave.
#[derive(Debug, Clone, Copy, PartialEq, Eq, Structural)]
pub enum AfterWave {
    /// Some step failed: the run stops here, and no later wave runs.
    Stop,
    /// Every step of the wave succeeded: run the next wave.
    NextWave,
    /// Every step of the last wave succeeded: the run has succeeded.
    Finish,
}

/// The run goes on only while every step succeeds, and succeeds only after
/// its last wave succeeded.
pub fn after_wave(failed: &Vec<String>, waves_left: usize) -> (a: AfterWave)
    ensures
        failed@.len() > 0 <==> a == AfterWave::Stop,
        a == AfterWave::Finish <==> (failed@.len() == 0 && waves_left == 0),
{
    if failed.len() > 0 {
        AfterWave::Stop
    } else if waves_left > 0 {
        AfterWave::NextWave
    } else {
        AfterWave::Finish
    }
}

} // verus!
