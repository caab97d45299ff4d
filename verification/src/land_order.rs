//! Dependency ordering of land plan steps: validating step ids and needs,
//! ordering steps so that every step follows the steps it needs, and
//! grouping the order into waves of steps that may run together.
use vstd::prelude::*;

use crate::land_types::{needs_of, step_ids, LandStep};
use crate::text::{append_str, contains_string, is_blank, string_from_chars, strings_view, trim_seq};

verus! {

/// Why a land plan cannot be ordered.
#[derive(Debug)]
pub enum PlanError {
    EmptyPlan,
    BlankStepId,
    DuplicateStepId(String),
    UnknownNeed { step: String, need: String },
    DependencyCycle,
}

impl PlanError {
    pub open spec fn text(&self) -> Seq<char> {
        match self {
            PlanError::EmptyPlan => "land plan must contain at least one step"@,
            PlanError::BlankStepId => "land step id must not be empty"@,
            PlanError::DuplicateStepId(id) => "duplicate land step id `"@ + id@ + "`"@,
            PlanError::UnknownNeed { step, need } => "step `"@ + step@ + "` needs unknown step `"@
                + need@ + "`"@,
            PlanError::DependencyCycle => "land plan contains a dependency cycle"@,
        }
    }

    /// The human-readable message for this error.
    pub fn message(&self) -> (out: String)
        ensures
            out@ == self.text(),
    {
        let mut v: Vec<char> = Vec::new();
        match self {
            PlanError::EmptyPlan => append_str(&mut v, "land plan must contain at least one step"),
            PlanError::BlankStepId => append_str(&mut v, "land step id must not be empty"),
            PlanError::DuplicateStepId(id) => {
                append_str(&mut v, "duplicate land step id `");
                append_str(&mut v, id.as_str());
                append_str(&mut v, "`");
            },
            PlanError::UnknownNeed { step, need } => {
                append_str(&mut v, "step `");
                append_str(&mut v, step.as_str());
                append_str(&mut v, "` needs unknown step `");
                append_str(&mut v, need.as_str());
                append_str(&mut v, "`");
            },
            PlanError::DependencyCycle => append_str(&mut v, "land plan contains a dependency cycle"),
        }
        string_from_chars(&v)
    }
}

// ---------------------------------------------------------------------------
// Specification
// ---------------------------------------------------------------------------

/// Step `i`'s id is blank.
pub open spec fn id_is_blank(steps: Seq<LandStep>, i: int) -> bool {
    trim_seq(steps[i].id@).len() == 0
}

/// Step `i` repeats the id of an earlier step.
pub open spec fn duplicates_earlier(steps: Seq<LandStep>, i: int) -> bool {
    exists|j: int| 0 <= j < i && #[trigger] steps[j].id@ == steps[i].id@
}

pub open spec fn id_problem(steps: Seq<LandStep>, i: int) -> bool {
    id_is_blank(steps, i) || duplicates_earlier(steps, i)
}

/// Every step id is non-blank and unique.
pub open spec fn ids_valid(steps: Seq<LandStep>) -> bool {
    forall|i: int| 0 <= i < steps.len() ==> !#[trigger] id_problem(steps, i)
}

/// `x` is the id of some step.
pub open spec fn is_known(steps: Seq<LandStep>, x: Seq<char>) -> bool {
    step_ids(steps).contains(x)
}

/// Step `i` needs a step that the plan does not hold.
pub open spec fn has_unknown_need(steps: Seq<LandStep>, i: int) -> bool {
    exists|k: int| 0 <= k < needs_of(steps[i]).len() && !is_known(steps, #[trigger] needs_of(steps[i])[k])
}

/// Every need names a step of the plan.
pub open spec fn needs_known(steps: Seq<LandStep>) -> bool {
    forall|i: int| 0 <= i < steps.len() ==> !#[trigger] has_unknown_need(steps, i)
}

/// Step `s` is not yet emitted and everything it needs is.
pub open spec fn ready(s: LandStep, e: Seq<Seq<char>>) -> bool {
    &&& !e.contains(s.id@)
    &&& forall|k: int| 0 <= k < needs_of(s).len() ==> e.contains(#[trigger] needs_of(s)[k])
}

/// One pass over the steps from index `i`, emitting each ready step.
pub open spec fn pass_from(steps: Seq<LandStep>, e: Seq<Seq<char>>, i: int) -> Seq<Seq<char>>
    decreases steps.len() - i,
{
    if i < 0 || i >= steps.len() {
        e
    } else if ready(steps[i], e) {
        pass_from(steps, e.push(steps[i].id@), i + 1)
    } else {
        pass_from(steps, e, i + 1)
    }
}

/// Repeated passes until one emits nothing (at most `fuel` passes).
pub open spec fn order_passes(steps: Seq<LandStep>, e: Seq<Seq<char>>, fuel: nat) -> Seq<Seq<char>>
    decreases fuel,
{
    if fuel == 0 {
        e
    } else {
        let next = pass_from(steps, e, 0);
        if next.len() == e.len() {
            e
        } else {
            order_passes(steps, next, (fuel - 1) as nat)
        }
    }
}

/// The order in which the plan's steps are emitted.
pub open spec fn dependency_order(steps: Seq<LandStep>) -> Seq<Seq<char>> {
    order_passes(steps, Seq::empty(), steps.len() as nat)
}

/// Every step's id occurs in `e`.
pub open spec fn all_emitted(steps: Seq<LandStep>, e: Seq<Seq<char>>) -> bool {
    forall|i: int| 0 <= i < steps.len() ==> e.contains(#[trigger] steps[i].id@)
}

/// The plan can be ordered: it has steps, valid ids, known needs, and no
/// dependency cycle.
pub open spec fn plan_is_orderable(steps: Seq<LandStep>) -> bool {
    &&& steps.len() > 0
    &&& ids_valid(steps)
    &&& needs_known(steps)
    &&& all_emitted(steps, dependency_order(steps))
}

/// `t` lists every step exactly once, each after all the steps it needs.
pub open spec fn is_dependency_order(steps: Seq<LandStep>, t: Seq<Seq<char>>) -> bool {
    &&& t.no_duplicates()
    &&& forall|q: int| 0 <= q < t.len() ==> is_known(steps, #[trigger] t[q])
    &&& all_emitted(steps, t)
    &&& forall|q: int, i: int, k: int|
        0 <= q < t.len() && 0 <= i < steps.len() && steps[i].id@ == t[q] && 0 <= k < needs_of(
            steps[i],
        ).len() ==> #[trigger] t.take(q).contains(#[trigger] needs_of(steps[i])[k])
}

// ---------------------------------------------------------------------------
// Proof
// ---------------------------------------------------------------------------

/// `e` holds distinct step ids, each after the steps that it needs.
pub open spec fn closed(steps: Seq<LandStep>, e: Seq<Seq<char>>) -> bool {
    &&& e.no_duplicates()
    &&& forall|q: int| 0 <= q < e.len() ==> is_known(steps, #[trigger] e[q])
    &&& forall|q: int, i: int, k: int|
        0 <= q < e.len() && 0 <= i < steps.len() && steps[i].id@ == e[q] && 0 <= k < needs_of(
            steps[i],
        ).len() ==> #[trigger] e.take(q).contains(#[trigger] needs_of(steps[i])[k])
}

/// Number of steps whose id `e` does not hold.
pub open spec fn count_unemitted(steps: Seq<LandStep>, e: Seq<Seq<char>>) -> nat
    decreases steps.len(),
{
    if steps.len() == 0 {
        0
    } else {
        count_unemitted(steps.drop_last(), e) + if e.contains(steps.last().id@) {
            0nat
        } else {
            1nat
        }
    }
}

proof fn lemma_ids_unique(steps: Seq<LandStep>, i: int, j: int)
    requires
        ids_valid(steps),
        0 <= i < steps.len(),
        0 <= j < steps.len(),
        steps[i].id@ == steps[j].id@,
    ensures
        i == j,
{
    if i < j {
        assert(id_problem(steps, j));
    } else if j < i {
        assert(id_problem(steps, i));
    }
}

proof fn lemma_count_bound(steps: Seq<LandStep>, e: Seq<Seq<char>>)
    ensures
        count_unemitted(steps, e) <= steps.len(),
        count_unemitted(steps, e) == 0 ==> all_emitted(steps, e),
    decreases steps.len(),
{
    if steps.len() > 0 {
        lemma_count_bound(steps.drop_last(), e);
        if count_unemitted(steps, e) == 0 {
            assert forall|i: int| 0 <= i < steps.len() implies e.contains(#[trigger] steps[i].id@) by {
                if i < steps.len() - 1 {
                    assert(steps.drop_last()[i] == steps[i]);
                }
            }
        }
    }
}

/// Growing `e` never raises the count, and strictly lowers it when a
/// missing step id is added.
proof fn lemma_count_mono(steps: Seq<LandStep>, e: Seq<Seq<char>>, f: Seq<Seq<char>>, w: int)
    requires
        forall|x: Seq<char>| e.contains(x) ==> f.contains(x),
    ensures
        count_unemitted(steps, f) <= count_unemitted(steps, e),
        0 <= w < steps.len() && !e.contains(steps[w].id@) && f.contains(steps[w].id@)
            ==> count_unemitted(steps, f) < count_unemitted(steps, e),
    decreases steps.len(),
{
    if steps.len() > 0 {
        let w2 = if w == steps.len() - 1 { -1 } else { w };
        lemma_count_mono(steps.drop_last(), e, f, w2);
        if 0 <= w < steps.len() - 1 {
            assert(steps.drop_last()[w] == steps[w]);
        }
    }
}

/// A pass only appends to `e`.
proof fn lemma_pass_extends(steps: Seq<LandStep>, e: Seq<Seq<char>>, i: int)
    ensures
        e.len() <= pass_from(steps, e, i).len(),
        pass_from(steps, e, i).take(e.len() as int) == e,
    decreases steps.len() - i,
{
    if 0 <= i < steps.len() {
        if ready(steps[i], e) {
            let e2 = e.push(steps[i].id@);
            lemma_pass_extends(steps, e2, i + 1);
            let r = pass_from(steps, e2, i + 1);
            assert(r.take(e.len() as int) =~= r.take(e2.len() as int).take(e.len() as int));
            assert(e2.take(e.len() as int) =~= e);
        } else {
            lemma_pass_extends(steps, e, i + 1);
        }
    } else {
        assert(e.take(e.len() as int) =~= e);
    }
}

/// A pass that emits nothing leaves no step ready.
proof fn lemma_pass_fixpoint(steps: Seq<LandStep>, e: Seq<Seq<char>>, i: int)
    requires
        0 <= i,
        pass_from(steps, e, i).len() == e.len(),
    ensures
        forall|j: int| i <= j < steps.len() ==> !ready(#[trigger] steps[j], e),
    decreases steps.len() - i,
{
    if i < steps.len() {
        if ready(steps[i], e) {
            lemma_pass_extends(steps, e.push(steps[i].id@), i + 1);
        } else {
            lemma_pass_fixpoint(steps, e, i + 1);
        }
    }
}

/// A pass that emits something emits some step that `e` lacked.
proof fn lemma_pass_grows(steps: Seq<LandStep>, e: Seq<Seq<char>>, i: int) -> (w: int)
    requires
        0 <= i,
        pass_from(steps, e, i).len() > e.len(),
    ensures
        0 <= w < steps.len(),
        !e.contains(steps[w].id@),
        pass_from(steps, e, i).contains(steps[w].id@),
    decreases steps.len() - i,
{
    if i < steps.len() {
        if ready(steps[i], e) {
            let e2 = e.push(steps[i].id@);
            lemma_pass_extends(steps, e2, i + 1);
            let r = pass_from(steps, e2, i + 1);
            assert(r[e.len() as int] == r.take(e2.len() as int)[e.len() as int]);
            assert(r[e.len() as int] == steps[i].id@);
            i
        } else {
            lemma_pass_grows(steps, e, i + 1)
        }
    } else {
        0
    }
}

/// A pass keeps `e` closed.
proof fn lemma_pass_closed(steps: Seq<LandStep>, e: Seq<Seq<char>>, i: int)
    requires
        ids_valid(steps),
        closed(steps, e),
        0 <= i,
    ensures
        closed(steps, pass_from(steps, e, i)),
    decreases steps.len() - i,
{
    if i < steps.len() {
        if ready(steps[i], e) {
            let x = steps[i].id@;
            let e2 = e.push(x);
            assert(is_known(steps, x)) by {
                assert(step_ids(steps)[i] == x);
            }
            assert forall|q: int, i2: int, k: int|
                0 <= q < e2.len() && 0 <= i2 < steps.len() && steps[i2].id@ == e2[q] && 0 <= k
                    < needs_of(steps[i2]).len() implies #[trigger] e2.take(q).contains(
                #[trigger] needs_of(steps[i2])[k],
            ) by {
                if q < e.len() {
                    assert(e2.take(q) =~= e.take(q));
                } else {
                    lemma_ids_unique(steps, i, i2);
                    assert(e2.take(q) =~= e);
                }
            }
            assert forall|q: int| 0 <= q < e2.len() implies is_known(steps, #[trigger] e2[q]) by {
                if q < e.len() {
                    assert(e2[q] == e[q]);
                }
            }
            lemma_pass_closed(steps, e2, i + 1);
        } else {
            lemma_pass_closed(steps, e, i + 1);
        }
    }
}

/// Repeated passes keep `e` closed and end with every step emitted or with
/// a pass that emits nothing.
proof fn lemma_passes_end(steps: Seq<LandStep>, e: Seq<Seq<char>>, fuel: nat)
    requires
        ids_valid(steps),
        closed(steps, e),
        count_unemitted(steps, e) <= fuel,
    ensures
        closed(steps, order_passes(steps, e, fuel)),
        all_emitted(steps, order_passes(steps, e, fuel)) || pass_from(
            steps,
            order_passes(steps, e, fuel),
            0,
        ).len() == order_passes(steps, e, fuel).len(),
    decreases fuel,
{
    if fuel == 0 {
        lemma_count_bound(steps, e);
    } else {
        let next = pass_from(steps, e, 0);
        if next.len() != e.len() {
            lemma_pass_extends(steps, e, 0);
            lemma_pass_closed(steps, e, 0);
            let w = lemma_pass_grows(steps, e, 0);
            assert forall|x: Seq<char>| e.contains(x) implies next.contains(x) by {
                let q = choose|q: int| 0 <= q < e.len() && e[q] == x;
                assert(next.take(e.len() as int)[q] == x);
            }
            lemma_count_mono(steps, e, next, w);
            lemma_passes_end(steps, next, (fuel - 1) as nat);
        }
    }
}

/// When the plan is orderable, its emitted order is a dependency order.
pub proof fn lemma_order_is_dependency_order(steps: Seq<LandStep>)
    requires
        plan_is_orderable(steps),
    ensures
        is_dependency_order(steps, dependency_order(steps)),
{
    let e: Seq<Seq<char>> = Seq::empty();
    lemma_count_bound(steps, e);
    lemma_passes_end(steps, e, steps.len() as nat);
}

/// Whenever some dependency order of a plan with valid ids and known needs
/// exists, ordering the plan emits every step (it reports no cycle).
pub proof fn lemma_acyclic_plan_is_orderable(steps: Seq<LandStep>, t: Seq<Seq<char>>)
    requires
        steps.len() > 0,
        ids_valid(steps),
        needs_known(steps),
        is_dependency_order(steps, t),
    ensures
        plan_is_orderable(steps),
{
    let e0: Seq<Seq<char>> = Seq::empty();
    lemma_count_bound(steps, e0);
    lemma_passes_end(steps, e0, steps.len() as nat);
    let e = dependency_order(steps);
    if !all_emitted(steps, e) {
        lemma_pass_fixpoint(steps, e, 0);
        lemma_order_prefix_emitted(steps, t, e, t.len() as int);
        assert forall|i: int| 0 <= i < steps.len() implies e.contains(#[trigger] steps[i].id@) by {
            let q = choose|q: int| 0 <= q < t.len() && t[q] == steps[i].id@;
            assert(t.take(t.len() as int)[q] == steps[i].id@);
        }
    }
}

/// Against a pass fixpoint `e`, every prefix of a dependency order is
/// already emitted.
proof fn lemma_order_prefix_emitted(
    steps: Seq<LandStep>,
    t: Seq<Seq<char>>,
    e: Seq<Seq<char>>,
    n: int,
)
    requires
        is_dependency_order(steps, t),
        forall|j: int| 0 <= j < steps.len() ==> !ready(#[trigger] steps[j], e),
        0 <= n <= t.len(),
    ensures
        forall|p: int| 0 <= p < n ==> e.contains(#[trigger] t[p]),
    decreases n,
{
    if n > 0 {
        lemma_order_prefix_emitted(steps, t, e, n - 1);
        let q = n - 1;
        if !e.contains(t[q]) {
            assert(is_known(steps, t[q]));
            let i = choose|i: int| 0 <= i < step_ids(steps).len() && step_ids(steps)[i] == t[q];
            assert(steps[i].id@ == t[q]);
            assert(!ready(steps[i], e));
            let k = choose|k: int| 0 <= k < needs_of(steps[i]).len() && !e.contains(
                #[trigger] needs_of(steps[i])[k],
            );
            assert(t.take(q).contains(needs_of(steps[i])[k]));
            let p = choose|p: int| 0 <= p < q && t.take(q)[p] == needs_of(steps[i])[k];
            assert(t[p] == t.take(q)[p]);
        }
    }
}

// ---------------------------------------------------------------------------
// Executable ordering
// ---------------------------------------------------------------------------

/// Position of the first step whose id is `x`.
pub fn find_step(steps: &Vec<LandStep>, x: &String) -> (r: Option<usize>)
    ensures
        match r {
            Some(i) => i < steps@.len() && steps@[i as int].id@ == x@ && is_known(steps@, x@)
                && forall|j: int| 0 <= j < i ==> steps@[j].id@ != x@,
            None => !is_known(steps@, x@),
        },
{
    let mut i: usize = 0;
    while i < steps.len()
        invariant
            i <= steps@.len(),
            forall|j: int| 0 <= j < i ==> steps@[j].id@ != x@,
        decreases steps.len() - i,
    {
        if steps[i].id == *x {
            proof {
                assert(step_ids(steps@)[i as int] == x@);
            }
            return Some(i);
        }
        i += 1;
    }
    proof {
        if is_known(steps@, x@) {
            let j = choose|j: int| 0 <= j < step_ids(steps@).len() && step_ids(steps@)[j] == x@;
            assert(steps@[j].id@ == x@);
        }
    }
    None
}

/// Whether every need is among the emitted ids.
fn all_needs_emitted(needs: &Vec<String>, order: &Vec<String>) -> (b: bool)
    ensures
        b == forall|k: int|
            0 <= k < strings_view(needs@).len() ==> strings_view(order@).contains(
                #[trigger] strings_view(needs@)[k],
            ),
{
    let mut k: usize = 0;
    while k < needs.len()
        invariant
            k <= needs@.len(),
            forall|k2: int| 0 <= k2 < k ==> strings_view(order@).contains(#[trigger] strings_view(needs@)[k2]),
        decreases needs.len() - k,
    {
        if !contains_string(order, &needs[k]) {
            proof {
                assert(strings_view(needs@)[k as int] == needs@[k as int]@);
            }
            return false;
        }
        proof {
            assert(strings_view(needs@)[k as int] == needs@[k as int]@);
        }
        k += 1;
    }
    true
}

/// One emission pass over the steps.
fn emit_pass(steps: &Vec<LandStep>, order: &mut Vec<String>)
    ensures
        strings_view(final(order)@) == pass_from(steps@, strings_view(old(order)@), 0),
{
    let ghost e0 = strings_view(order@);
    let mut i: usize = 0;
    while i < steps.len()
        invariant
            i <= steps@.len(),
            pass_from(steps@, e0, 0) == pass_from(steps@, strings_view(order@), i as int),
        decreases steps.len() - i,
    {
        let ghost e = strings_view(order@);
        let s = &steps[i];
        if !contains_string(order, &s.id) && all_needs_emitted(&s.needs, order) {
            let id = s.id.clone();
            order.push(id);
            proof {
                assert(strings_view(order@) =~= e.push(steps@[i as int].id@));
            }
        }
        i += 1;
    }
}

/// Orders the plan's steps so that each follows the steps it needs.
///
/// Fails on an empty plan, a blank or repeated step id, a need that names
/// no step, or a dependency cycle, in that order of checking.
pub fn ordered_step_ids(steps: &Vec<LandStep>) -> (r: Result<Vec<String>, PlanError>)
    ensures
        r is Ok <==> plan_is_orderable(steps@),
        match r {
            Ok(order) => plan_is_orderable(steps@) && strings_view(order@) == dependency_order(
                steps@,
            ),
            Err(PlanError::EmptyPlan) => steps@.len() == 0,
            Err(PlanError::BlankStepId) => steps@.len() > 0 && exists|i: int|
                0 <= i < steps@.len() && id_is_blank(steps@, i) && forall|j: int|
                    0 <= j < i ==> !id_problem(steps@, j),
            Err(PlanError::DuplicateStepId(id)) => steps@.len() > 0 && exists|i: int|
                0 <= i < steps@.len() && !id_is_blank(steps@, i) && duplicates_earlier(steps@, i)
                    && id@ == steps@[i].id@ && forall|j: int| 0 <= j < i ==> !id_problem(steps@, j),
            Err(PlanError::UnknownNeed { step, need }) => steps@.len() > 0 && ids_valid(steps@)
                && exists|i: int, k: int|
                0 <= i < steps@.len() && 0 <= k < needs_of(steps@[i]).len() && !is_known(
                    steps@,
                    needs_of(steps@[i])[k],
                ) && (forall|j: int| 0 <= j < i ==> !has_unknown_need(steps@, j)) && (forall|
                    k2: int,
                | 0 <= k2 < k ==> is_known(steps@, needs_of(steps@[i])[k2])) && step@ == steps@[i].id@
                    && need@ == needs_of(steps@[i])[k],
            Err(PlanError::DependencyCycle) => steps@.len() > 0 && ids_valid(steps@) && needs_known(
                steps@,
            ) && !all_emitted(steps@, dependency_order(steps@)),
        },
{
    let n = steps.len();
    if n == 0 {
        return Err(PlanError::EmptyPlan);
    }
    let mut i: usize = 0;
    while i < n
        invariant
            n == steps@.len(),
            i <= n,
            forall|j: int| 0 <= j < i ==> !id_problem(steps@, j),
        decreases n - i,
    {
        if is_blank(steps[i].id.as_str()) {
            proof {
                assert(id_is_blank(steps@, i as int));
                assert(id_problem(steps@, i as int));
            }
            return Err(PlanError::BlankStepId);
        }
        let first = find_step(steps, &steps[i].id);
        match first {
            Some(j) => {
                if j < i {
                    proof {
                        assert(steps@[j as int].id@ == steps@[i as int].id@);
                        assert(duplicates_earlier(steps@, i as int));
                        assert(id_problem(steps@, i as int));
                    }
                    return Err(PlanError::DuplicateStepId(steps[i].id.clone()));
                }
                proof {
                    assert(!duplicates_earlier(steps@, i as int));
                }
            },
            None => {
                proof {
                    assert(step_ids(steps@)[i as int] == steps@[i as int].id@);
                }
            },
        }
        i += 1;
    }
    let mut i: usize = 0;
    while i < n
        invariant
            n == steps@.len(),
            i <= n,
            ids_valid(steps@),
            forall|j: int| 0 <= j < i ==> !has_unknown_need(steps@, j),
        decreases n - i,
    {
        let needs = &steps[i].needs;
        let mut k: usize = 0;
        proof {
            assert(needs_of(steps@[i as int]).len() == needs@.len());
        }
        while k < needs.len()
            invariant
                n == steps@.len(),
                i < n,
                needs == steps@[i as int].needs,
                k <= needs@.len(),
                needs_of(steps@[i as int]).len() == needs@.len(),
                ids_valid(steps@),
                forall|j: int| 0 <= j < i ==> !has_unknown_need(steps@, j),
                forall|k2: int| 0 <= k2 < k ==> is_known(steps@, #[trigger] needs_of(steps@[i as int])[k2]),
            decreases needs.len() - k,
        {
            proof {
                assert(needs_of(steps@[i as int])[k as int] == needs@[k as int]@);
            }
            if find_step(steps, &needs[k]).is_none() {
                proof {
                    assert(has_unknown_need(steps@, i as int));
                    assert(!needs_known(steps@));
                }
                let step = steps[i].id.clone();
                let need = needs[k].clone();
                proof {
                    let ii = i as int;
                    let kk = k as int;
                    assert(0 <= kk < needs_of(steps@[ii]).len() && !is_known(
                        steps@,
                        needs_of(steps@[ii])[kk],
                    ) && (forall|j: int| 0 <= j < ii ==> !has_unknown_need(steps@, j)) && (forall|
                        k2: int,
                    | 0 <= k2 < kk ==> is_known(steps@, needs_of(steps@[ii])[k2])) && step@
                        == steps@[ii].id@ && need@ == needs_of(steps@[ii])[kk]);
                }
                return Err(PlanError::UnknownNeed { step, need });
            }
            k += 1;
        }
        i += 1;
    }
    let mut order: Vec<String> = Vec::new();
    let ghost mut fuel: nat = n as nat;
    proof {
        let e0: Seq<Seq<char>> = Seq::empty();
        assert(strings_view(order@) =~= e0);
        lemma_count_bound(steps@, e0);
    }
    loop
        invariant
            n == steps@.len(),
            ids_valid(steps@),
            needs_known(steps@),
            closed(steps@, strings_view(order@)),
            count_unemitted(steps@, strings_view(order@)) <= fuel,
            dependency_order(steps@) == order_passes(steps@, strings_view(order@), fuel),
        ensures
            n == steps@.len(),
            ids_valid(steps@),
            needs_known(steps@),
            dependency_order(steps@) == strings_view(order@),
        decreases count_unemitted(steps@, strings_view(order@)),
    {
        let ghost e = strings_view(order@);
        let before = order.len();
        emit_pass(steps, &mut order);
        proof {
            lemma_pass_extends(steps@, e, 0);
            lemma_pass_closed(steps@, e, 0);
        }
        if order.len() == before {
            proof {
                assert(strings_view(order@).len() == e.len());
                assert(strings_view(order@) =~= strings_view(order@).take(e.len() as int));
                assert(strings_view(order@) == e);
                assert(order_passes(steps@, e, fuel) == e);
            }
            break;
        }
        proof {
            let next = strings_view(order@);
            let w = lemma_pass_grows(steps@, e, 0);
            assert forall|x: Seq<char>| e.contains(x) implies next.contains(x) by {
                let q = choose|q: int| 0 <= q < e.len() && e[q] == x;
                assert(next.take(e.len() as int)[q] == x);
            }
            lemma_count_mono(steps@, e, next, w);
            fuel = (fuel - 1) as nat;
        }
    }
    let mut i: usize = 0;
    while i < n
        invariant
            n == steps@.len(),
            i <= n,
            ids_valid(steps@),
            needs_known(steps@),
            dependency_order(steps@) == strings_view(order@),
            forall|j: int| 0 <= j < i ==> strings_view(order@).contains(#[trigger] steps@[j].id@),
        decreases n - i,
    {
        if !contains_string(&order, &steps[i].id) {
            proof {
                assert(!all_emitted(steps@, strings_view(order@)));
            }
            return Err(PlanError::DependencyCycle);
        }
        i += 1;
    }
    proof {
        assert(all_emitted(steps@, strings_view(order@)));
    }
    Ok(order)
}

// ---------------------------------------------------------------------------
// Waves
// ---------------------------------------------------------------------------

/// Why an order cannot be split into waves.
#[derive(Debug)]
pub enum WaveError {
    CycleAmongRemaining,
}

impl WaveError {
    pub open spec fn text(&self) -> Seq<char> {
        "land plan contains a dependency cycle among remaining steps"@
    }

    pub fn message(&self) -> (out: String)
        ensures
            out@ == self.text(),
    {
        let mut v: Vec<char> = Vec::new();
        append_str(&mut v, "land plan contains a dependency cycle among remaining steps");
        string_from_chars(&v)
    }
}

/// The first step whose id is `x`.
pub open spec fn first_step_with(steps: Seq<LandStep>, x: Seq<char>) -> int {
    choose|i: int| 0 <= i < steps.len() && steps[i].id@ == x && forall|j: int| 0 <= j < i ==> steps[j].id@ != x
}

/// `x` is not yet satisfied and everything its step needs is.
pub open spec fn wave_ready(steps: Seq<LandStep>, x: Seq<char>, sat: Seq<Seq<char>>) -> bool {
    &&& !sat.contains(x)
    &&& forall|k: int|
        0 <= k < needs_of(steps[first_step_with(steps, x)]).len() ==> sat.contains(
            #[trigger] needs_of(steps[first_step_with(steps, x)])[k],
        )
}

/// The ready ids among `order[..i]`, in order.
pub open spec fn wave_prefix(
    steps: Seq<LandStep>,
    order: Seq<Seq<char>>,
    sat: Seq<Seq<char>>,
    i: int,
) -> Seq<Seq<char>>
    decreases i,
{
    if i <= 0 {
        Seq::empty()
    } else {
        let p = wave_prefix(steps, order, sat, i - 1);
        if wave_ready(steps, order[i - 1], sat) {
            p.push(order[i - 1])
        } else {
            p
        }
    }
}

/// The next wave: every ready id of the order, in order.
pub open spec fn next_wave(steps: Seq<LandStep>, order: Seq<Seq<char>>, sat: Seq<Seq<char>>) -> Seq<Seq<char>> {
    wave_prefix(steps, order, sat, order.len() as int)
}

/// Every id of `order` is satisfied.
pub open spec fn all_satisfied(order: Seq<Seq<char>>, sat: Seq<Seq<char>>) -> bool {
    forall|q: int| 0 <= q < order.len() ==> sat.contains(#[trigger] order[q])
}

/// The waves that remain once `sat` is satisfied; `None` when some
/// remaining step can never become ready.
pub open spec fn waves_from(
    steps: Seq<LandStep>,
    order: Seq<Seq<char>>,
    sat: Seq<Seq<char>>,
    fuel: nat,
) -> Option<Seq<Seq<Seq<char>>>>
    decreases fuel,
{
    if all_satisfied(order, sat) {
        Some(Seq::empty())
    } else if fuel == 0 {
        None
    } else {
        let w = next_wave(steps, order, sat);
        if w.len() == 0 {
            None
        } else {
            match waves_from(steps, order, sat + w, (fuel - 1) as nat) {
                Some(rest) => Some(seq![w] + rest),
                None => None,
            }
        }
    }
}

/// The waves of an order.
pub open spec fn step_waves_of(steps: Seq<LandStep>, order: Seq<Seq<char>>) -> Option<Seq<Seq<Seq<char>>>> {
    waves_from(steps, order, Seq::empty(), order.len() as nat)
}

/// The waves, concatenated front to back.
pub open spec fn concat_waves(ws: Seq<Seq<Seq<char>>>) -> Seq<Seq<char>>
    decreases ws.len(),
{
    if ws.len() == 0 {
        Seq::empty()
    } else {
        ws[0] + concat_waves(ws.drop_first())
    }
}

pub open spec fn waves_view(ws: Seq<Vec<String>>) -> Seq<Seq<Seq<char>>> {
    ws.map_values(|w: Vec<String>| strings_view(w@))
}

/// Number of positions of `xs` whose id `sat` lacks.
pub open spec fn count_missing(xs: Seq<Seq<char>>, sat: Seq<Seq<char>>) -> nat
    decreases xs.len(),
{
    if xs.len() == 0 {
        0
    } else {
        count_missing(xs.drop_last(), sat) + if sat.contains(xs.last()) {
            0nat
        } else {
            1nat
        }
    }
}

proof fn lemma_missing_bound(xs: Seq<Seq<char>>, sat: Seq<Seq<char>>)
    ensures
        count_missing(xs, sat) <= xs.len(),
        count_missing(xs, sat) == 0 ==> all_satisfied(xs, sat),
    decreases xs.len(),
{
    if xs.len() > 0 {
        lemma_missing_bound(xs.drop_last(), sat);
        if count_missing(xs, sat) == 0 {
            assert forall|q: int| 0 <= q < xs.len() implies sat.contains(#[trigger] xs[q]) by {
                if q < xs.len() - 1 {
                    assert(xs.drop_last()[q] == xs[q]);
                }
            }
        }
    }
}

proof fn lemma_missing_mono(xs: Seq<Seq<char>>, e: Seq<Seq<char>>, f: Seq<Seq<char>>, w: int)
    requires
        forall|x: Seq<char>| e.contains(x) ==> f.contains(x),
    ensures
        count_missing(xs, f) <= count_missing(xs, e),
        0 <= w < xs.len() && !e.contains(xs[w]) && f.contains(xs[w]) ==> count_missing(xs, f)
            < count_missing(xs, e),
    decreases xs.len(),
{
    if xs.len() > 0 {
        let w2 = if w == xs.len() - 1 { -1 } else { w };
        lemma_missing_mono(xs.drop_last(), e, f, w2);
        if 0 <= w < xs.len() - 1 {
            assert(xs.drop_last()[w] == xs[w]);
        }
    }
}

/// Members of a wave prefix are ready ids of the order.
proof fn lemma_wave_prefix_members(
    steps: Seq<LandStep>,
    order: Seq<Seq<char>>,
    sat: Seq<Seq<char>>,
    i: int,
)
    requires
        0 <= i <= order.len(),
    ensures
        forall|j: int|
            0 <= j < wave_prefix(steps, order, sat, i).len() ==> wave_ready(
                steps,
                #[trigger] wave_prefix(steps, order, sat, i)[j],
                sat,
            ) && order.take(i).contains(wave_prefix(steps, order, sat, i)[j]),
        wave_prefix(steps, order, sat, i).len() <= i,
    decreases i,
{
    if i > 0 {
        lemma_wave_prefix_members(steps, order, sat, i - 1);
        let p = wave_prefix(steps, order, sat, i - 1);
        assert forall|j: int| 0 <= j < wave_prefix(steps, order, sat, i).len() implies wave_ready(
            steps,
            #[trigger] wave_prefix(steps, order, sat, i)[j],
            sat,
        ) && order.take(i).contains(wave_prefix(steps, order, sat, i)[j]) by {
            if j < p.len() {
                let x = p[j];
                let q = choose|q: int| 0 <= q < order.take(i - 1).len() && #[trigger] order.take(i - 1)[q] == x;
                assert(order.take(i)[q] == x);
            } else {
                assert(order.take(i)[i - 1] == order[i - 1]);
            }
        }
    }
}

/// A ready id of the order lands in its wave.
proof fn lemma_wave_prefix_complete(
    steps: Seq<LandStep>,
    order: Seq<Seq<char>>,
    sat: Seq<Seq<char>>,
    i: int,
    q: int,
)
    requires
        0 <= q < i <= order.len(),
        wave_ready(steps, order[q], sat),
    ensures
        wave_prefix(steps, order, sat, i).contains(order[q]),
    decreases i,
{
    let p = wave_prefix(steps, order, sat, i - 1);
    if q == i - 1 {
        assert(wave_prefix(steps, order, sat, i)[p.len() as int] == order[q]);
    } else {
        lemma_wave_prefix_complete(steps, order, sat, i - 1, q);
        let j = choose|j: int| 0 <= j < p.len() && p[j] == order[q];
        assert(wave_prefix(steps, order, sat, i)[j] == order[q]);
    }
}

/// The scheduled waves of a successful split are: the first wave, then the
/// rest scheduled against `sat` plus that wave.
proof fn lemma_waves_unfold(
    steps: Seq<LandStep>,
    order: Seq<Seq<char>>,
    sat: Seq<Seq<char>>,
    fuel: nat,
)
    requires
        waves_from(steps, order, sat, fuel) is Some,
        !all_satisfied(order, sat),
    ensures
        fuel > 0,
        next_wave(steps, order, sat).len() > 0,
        waves_from(steps, order, sat + next_wave(steps, order, sat), (fuel - 1) as nat) is Some,
        waves_from(steps, order, sat, fuel)->0 == seq![next_wave(steps, order, sat)] + waves_from(
            steps,
            order,
            sat + next_wave(steps, order, sat),
            (fuel - 1) as nat,
        )->0,
{
}

/// Within a concatenation `a + b`, membership is membership in a part.
proof fn lemma_contains_concat(a: Seq<Seq<char>>, b: Seq<Seq<char>>, x: Seq<char>)
    ensures
        (a + b).contains(x) <==> a.contains(x) || b.contains(x),
{
    if a.contains(x) {
        let p = choose|p: int| 0 <= p < a.len() && a[p] == x;
        assert((a + b)[p] == x);
    }
    if b.contains(x) {
        let p = choose|p: int| 0 <= p < b.len() && b[p] == x;
        assert((a + b)[a.len() + p] == x);
    }
}

/// Every step of every wave has all of its needs satisfied by `sat` or by
/// an earlier wave.
proof fn lemma_waves_needs(
    steps: Seq<LandStep>,
    order: Seq<Seq<char>>,
    sat: Seq<Seq<char>>,
    fuel: nat,
    w: int,
    j: int,
    k: int,
)
    requires
        waves_from(steps, order, sat, fuel) is Some,
        0 <= w < waves_from(steps, order, sat, fuel)->0.len(),
        0 <= j < waves_from(steps, order, sat, fuel)->0[w].len(),
        0 <= k < needs_of(steps[first_step_with(steps, waves_from(steps, order, sat, fuel)->0[w][j])]).len(),
    ensures
        ({
            let ws = waves_from(steps, order, sat, fuel)->0;
            let need = needs_of(steps[first_step_with(steps, ws[w][j])])[k];
            sat.contains(need) || concat_waves(ws.take(w)).contains(need)
        }),
    decreases fuel,
{
    let ws = waves_from(steps, order, sat, fuel)->0;
    if all_satisfied(order, sat) {
        assert(ws.len() == 0);
    } else {
        lemma_waves_unfold(steps, order, sat, fuel);
        let w0 = next_wave(steps, order, sat);
        let sat2 = sat + w0;
        let rest = waves_from(steps, order, sat2, (fuel - 1) as nat)->0;
        let need = needs_of(steps[first_step_with(steps, ws[w][j])])[k];
        if w == 0 {
            lemma_wave_prefix_members(steps, order, sat, order.len() as int);
            assert(ws[0] == w0);
            assert(wave_ready(steps, w0[j], sat));
        } else {
            assert(ws[w] == rest[w - 1]);
            lemma_waves_needs(steps, order, sat2, (fuel - 1) as nat, w - 1, j, k);
            assert(ws.take(w).drop_first() =~= rest.take(w - 1));
            assert(ws.take(w)[0] == w0);
            let c = concat_waves(ws.take(w));
            assert(c == w0 + concat_waves(rest.take(w - 1)));
            lemma_contains_concat(sat, w0, need);
            lemma_contains_concat(w0, concat_waves(rest.take(w - 1)), need);
        }
    }
}

/// Every id of the order is satisfied by `sat` or scheduled in some wave.
proof fn lemma_waves_cover(steps: Seq<LandStep>, order: Seq<Seq<char>>, sat: Seq<Seq<char>>, fuel: nat, q: int)
    requires
        waves_from(steps, order, sat, fuel) is Some,
        0 <= q < order.len(),
    ensures
        sat.contains(order[q]) || concat_waves(waves_from(steps, order, sat, fuel)->0).contains(order[q]),
    decreases fuel,
{
    if !all_satisfied(order, sat) {
        lemma_waves_unfold(steps, order, sat, fuel);
        let ws = waves_from(steps, order, sat, fuel)->0;
        let w0 = next_wave(steps, order, sat);
        let sat2 = sat + w0;
        let rest = waves_from(steps, order, sat2, (fuel - 1) as nat)->0;
        lemma_waves_cover(steps, order, sat2, (fuel - 1) as nat, q);
        assert(ws.drop_first() =~= rest);
        assert(concat_waves(ws) == w0 + concat_waves(rest));
        lemma_contains_concat(sat, w0, order[q]);
        lemma_contains_concat(w0, concat_waves(rest), order[q]);
    }
}

/// Every step scheduled in a wave has everything it needs scheduled in an
/// earlier wave.
pub proof fn lemma_wave_needs_come_first(
    steps: Seq<LandStep>,
    order: Seq<Seq<char>>,
    w: int,
    j: int,
    k: int,
)
    requires
        step_waves_of(steps, order) is Some,
        0 <= w < step_waves_of(steps, order)->0.len(),
        0 <= j < step_waves_of(steps, order)->0[w].len(),
        0 <= k < needs_of(steps[first_step_with(steps, step_waves_of(steps, order)->0[w][j])]).len(),
    ensures
        ({
            let ws = step_waves_of(steps, order)->0;
            concat_waves(ws.take(w)).contains(needs_of(steps[first_step_with(steps, ws[w][j])])[k])
        }),
{
    lemma_waves_needs(steps, order, Seq::empty(), order.len() as nat, w, j, k);
}

/// A step scheduled after the first wave has a need that nothing before
/// the previous wave (nor `sat`) satisfies: it could not run earlier.
proof fn lemma_waves_earliest(
    steps: Seq<LandStep>,
    order: Seq<Seq<char>>,
    sat: Seq<Seq<char>>,
    fuel: nat,
    w: int,
    j: int,
)
    requires
        waves_from(steps, order, sat, fuel) is Some,
        1 <= w < waves_from(steps, order, sat, fuel)->0.len(),
        0 <= j < waves_from(steps, order, sat, fuel)->0[w].len(),
    ensures
        ({
            let ws = waves_from(steps, order, sat, fuel)->0;
            let x = ws[w][j];
            exists|k: int|
                0 <= k < needs_of(steps[first_step_with(steps, x)]).len() && !sat.contains(
                    #[trigger] needs_of(steps[first_step_with(steps, x)])[k],
                ) && !concat_waves(ws.take(w - 1)).contains(needs_of(steps[first_step_with(steps, x)])[k])
        }),
    decreases fuel,
{
    let ws = waves_from(steps, order, sat, fuel)->0;
    assert(!all_satisfied(order, sat));
    lemma_waves_unfold(steps, order, sat, fuel);
    let w0 = next_wave(steps, order, sat);
    let sat2 = sat + w0;
    let rest = waves_from(steps, order, sat2, (fuel - 1) as nat)->0;
    assert(ws == seq![w0] + rest);
    let x = ws[w][j];
    assert(ws[w] == rest[w - 1]);
    let needs = needs_of(steps[first_step_with(steps, x)]);
    if w == 1 {
        assert(!all_satisfied(order, sat2));
        lemma_waves_unfold(steps, order, sat2, (fuel - 1) as nat);
        let w1 = next_wave(steps, order, sat2);
        assert(rest[0] == w1);
        lemma_wave_prefix_members(steps, order, sat2, order.len() as int);
        assert(wave_ready(steps, x, sat2));
        assert(order.take(order.len() as int) =~= order);
        let q = choose|q: int| 0 <= q < order.len() && order[q] == x;
        lemma_contains_concat(sat, w0, x);
        assert(!sat.contains(x));
        assert(concat_waves(ws.take(0)) =~= Seq::<Seq<char>>::empty());
        if forall|k: int| 0 <= k < needs.len() ==> sat.contains(#[trigger] needs[k]) {
            assert(wave_ready(steps, order[q], sat));
            lemma_wave_prefix_complete(steps, order, sat, order.len() as int, q);
            lemma_contains_concat(sat, w0, x);
            assert(false);
        }
        let k = choose|k: int| 0 <= k < needs.len() && !sat.contains(#[trigger] needs[k]);
        assert(!concat_waves(ws.take(w - 1)).contains(needs[k]));
    } else {
        lemma_waves_earliest(steps, order, sat2, (fuel - 1) as nat, w - 1, j);
        let k = choose|k: int|
            0 <= k < needs.len() && !sat2.contains(#[trigger] needs[k]) && !concat_waves(rest.take(w - 2)).contains(needs[k]);
        assert(ws.take(w - 1).drop_first() =~= rest.take(w - 2));
        assert(ws.take(w - 1)[0] == w0);
        assert(concat_waves(ws.take(w - 1)) == w0 + concat_waves(rest.take(w - 2)));
        lemma_contains_concat(sat, w0, needs[k]);
        lemma_contains_concat(w0, concat_waves(rest.take(w - 2)), needs[k]);
    }
}

/// Each step is scheduled as early as it can be: a step in a wave after
/// the first has a need that no wave before the previous one holds, so by
/// `lemma_wave_needs_come_first` that need is scheduled in the previous
/// wave.
pub proof fn lemma_waves_are_earliest(steps: Seq<LandStep>, order: Seq<Seq<char>>, w: int, j: int)
    requires
        step_waves_of(steps, order) is Some,
        1 <= w < step_waves_of(steps, order)->0.len(),
        0 <= j < step_waves_of(steps, order)->0[w].len(),
    ensures
        ({
            let ws = step_waves_of(steps, order)->0;
            let x = ws[w][j];
            exists|k: int|
                0 <= k < needs_of(steps[first_step_with(steps, x)]).len() && !concat_waves(ws.take(w - 1)).contains(
                    #[trigger] needs_of(steps[first_step_with(steps, x)])[k],
                )
        }),
{
    lemma_waves_earliest(steps, order, Seq::empty(), order.len() as nat, w, j);
}

/// Every step of the order is scheduled in some wave.
pub proof fn lemma_waves_cover_order(steps: Seq<LandStep>, order: Seq<Seq<char>>, q: int)
    requires
        step_waves_of(steps, order) is Some,
        0 <= q < order.len(),
    ensures
        concat_waves(step_waves_of(steps, order)->0).contains(order[q]),
{
    lemma_waves_cover(steps, order, Seq::empty(), order.len() as nat, q);
}

/// With unique ids, the first step holding a known id is the step holding it.
proof fn lemma_first_step_with(steps: Seq<LandStep>, i: int)
    requires
        ids_valid(steps),
        0 <= i < steps.len(),
    ensures
        first_step_with(steps, steps[i].id@) == i,
{
    let x = steps[i].id@;
    assert forall|j: int| 0 <= j < i implies steps[j].id@ != x by {
        if steps[j].id@ == x {
            lemma_ids_unique(steps, i, j);
        }
    }
    let c = first_step_with(steps, x);
    if c != i {
        lemma_ids_unique(steps, i, c);
    }
}

/// Some missing position has every earlier position satisfied.
proof fn lemma_first_missing(xs: Seq<Seq<char>>, sat: Seq<Seq<char>>, n: int) -> (q: int)
    requires
        0 <= n <= xs.len(),
        exists|p: int| 0 <= p < n && !sat.contains(#[trigger] xs[p]),
    ensures
        0 <= q < n,
        !sat.contains(xs[q]),
        forall|p: int| 0 <= p < q ==> sat.contains(#[trigger] xs[p]),
    decreases n,
{
    if exists|p: int| 0 <= p < n - 1 && !sat.contains(#[trigger] xs[p]) {
        lemma_first_missing(xs, sat, n - 1)
    } else {
        n - 1
    }
}

/// A dependency order of a plan with unique ids never gets stuck.
proof fn lemma_dependency_order_waves_from(
    steps: Seq<LandStep>,
    t: Seq<Seq<char>>,
    sat: Seq<Seq<char>>,
    fuel: nat,
)
    requires
        ids_valid(steps),
        is_dependency_order(steps, t),
        count_missing(t, sat) <= fuel,
    ensures
        waves_from(steps, t, sat, fuel) is Some,
    decreases fuel,
{
    lemma_missing_bound(t, sat);
    if !all_satisfied(t, sat) {
        let q = lemma_first_missing(t, sat, t.len() as int);
        let x = t[q];
        assert(is_known(steps, x));
        let i = choose|i: int| 0 <= i < step_ids(steps).len() && step_ids(steps)[i] == x;
        assert(steps[i].id@ == x);
        lemma_first_step_with(steps, i);
        assert forall|k: int| 0 <= k < needs_of(steps[i]).len() implies sat.contains(
            #[trigger] needs_of(steps[i])[k],
        ) by {
            assert(t.take(q).contains(needs_of(steps[i])[k]));
            let p = choose|p: int| 0 <= p < t.take(q).len() && t.take(q)[p] == needs_of(steps[i])[k];
            assert(t[p] == t.take(q)[p]);
        }
        assert(wave_ready(steps, x, sat));
        lemma_wave_prefix_complete(steps, t, sat, t.len() as int, q);
        let w0 = next_wave(steps, t, sat);
        assert(w0.len() > 0);
        lemma_contains_concat(sat, w0, x);
        assert forall|y: Seq<char>| sat.contains(y) implies (sat + w0).contains(y) by {
            lemma_contains_concat(sat, w0, y);
        }
        lemma_missing_mono(t, sat, sat + w0, q);
        lemma_dependency_order_waves_from(steps, t, sat + w0, (fuel - 1) as nat);
    }
}

/// Splitting any dependency order of a plan with unique ids into waves
/// succeeds.
pub proof fn lemma_dependency_order_has_waves(steps: Seq<LandStep>, t: Seq<Seq<char>>)
    requires
        ids_valid(steps),
        is_dependency_order(steps, t),
    ensures
        step_waves_of(steps, t) is Some,
{
    lemma_missing_bound(t, Seq::empty());
    lemma_dependency_order_waves_from(steps, t, Seq::empty(), t.len() as nat);
}

pub open spec fn prepend_waves(
    done: Seq<Seq<Seq<char>>>,
    r: Option<Seq<Seq<Seq<char>>>>,
) -> Option<Seq<Seq<Seq<char>>>> {
    match r {
        Some(rest) => Some(done + rest),
        None => None,
    }
}

/// Appends the strings of `b` to `a`.
fn extend_strings(a: &mut Vec<String>, b: &Vec<String>)
    ensures
        strings_view(final(a)@) == strings_view(old(a)@) + strings_view(b@),
{
    let ghost a0 = strings_view(a@);
    let mut i: usize = 0;
    while i < b.len()
        invariant
            i <= b@.len(),
            strings_view(a@) == a0 + strings_view(b@).take(i as int),
        decreases b.len() - i,
    {
        let ghost prev = a@;
        let c = b[i].clone();
        a.push(c);
        proof {
            assert(strings_view(a@) =~= strings_view(prev).push(c@));
            assert(strings_view(b@).take(i + 1) =~= strings_view(b@).take(i as int).push(c@));
        }
        i += 1;
    }
    proof {
        assert(strings_view(b@).take(b@.len() as int) =~= strings_view(b@));
    }
}

/// `idx` is the first step holding `x`.
proof fn lemma_first_step_index(steps: Seq<LandStep>, x: Seq<char>, idx: int)
    requires
        0 <= idx < steps.len(),
        steps[idx].id@ == x,
        forall|j: int| 0 <= j < idx ==> steps[j].id@ != x,
    ensures
        first_step_with(steps, x) == idx,
{
    let c = first_step_with(steps, x);
    if c != idx {
        if c < idx {
            assert(steps[c].id@ == x);
        } else {
            assert(steps[idx].id@ == x);
        }
    }
}

/// The next wave of the order against the satisfied ids.
fn build_wave(steps: &Vec<LandStep>, order: &Vec<String>, satisfied: &Vec<String>) -> (wave: Vec<String>)
    requires
        forall|q: int| 0 <= q < order@.len() ==> is_known(steps@, #[trigger] order@[q]@),
    ensures
        strings_view(wave@) == next_wave(steps@, strings_view(order@), strings_view(satisfied@)),
{
    let ghost o = strings_view(order@);
    let ghost sat = strings_view(satisfied@);
    let mut wave: Vec<String> = Vec::new();
    let mut i: usize = 0;
    while i < order.len()
        invariant
            o == strings_view(order@),
            sat == strings_view(satisfied@),
            forall|q: int| 0 <= q < order@.len() ==> is_known(steps@, #[trigger] order@[q]@),
            i <= order@.len(),
            strings_view(wave@) == wave_prefix(steps@, o, sat, i as int),
        decreases order.len() - i,
    {
        let ghost prev = wave@;
        let x = &order[i];
        proof {
            assert(o[i as int] == x@);
        }
        if !contains_string(satisfied, x) {
            let found = find_step(steps, x);
            proof {
                assert(is_known(steps@, order@[i as int]@));
            }
            let idx = found.unwrap();
            proof {
                lemma_first_step_index(steps@, x@, idx as int);
            }
            if all_needs_emitted(&steps[idx].needs, satisfied) {
                let y = x.clone();
                wave.push(y);
                proof {
                    assert(strings_view(wave@) =~= strings_view(prev).push(y@));
                }
            }
        }
        i += 1;
    }
    wave
}

/// Scheduling a non-empty wave lowers the count of unscheduled positions.
proof fn lemma_wave_progress(steps: Seq<LandStep>, o: Seq<Seq<char>>, sat: Seq<Seq<char>>)
    requires
        next_wave(steps, o, sat).len() > 0,
    ensures
        count_missing(o, sat + next_wave(steps, o, sat)) < count_missing(o, sat),
{
    let w0 = next_wave(steps, o, sat);
    lemma_wave_prefix_members(steps, o, sat, o.len() as int);
    assert(o.take(o.len() as int) =~= o);
    assert(w0.contains(w0[0])) by {
        assert(w0[0] == w0[0]);
    }
    assert(o.take(o.len() as int).contains(w0[0]));
    let q = choose|q: int| 0 <= q < o.len() && o[q] == w0[0];
    assert forall|y: Seq<char>| sat.contains(y) implies (sat + w0).contains(y) by {
        lemma_contains_concat(sat, w0, y);
    }
    lemma_contains_concat(sat, w0, w0[0]);
    lemma_missing_mono(o, sat, sat + w0, q);
}

/// One scheduled wave moves its ids from the remaining waves to the done ones.
proof fn lemma_waves_advance(
    steps: Seq<LandStep>,
    o: Seq<Seq<char>>,
    sat: Seq<Seq<char>>,
    fuel: nat,
    done: Seq<Seq<Seq<char>>>,
)
    requires
        !all_satisfied(o, sat),
        next_wave(steps, o, sat).len() > 0,
        count_missing(o, sat) <= fuel,
    ensures
        fuel > 0,
        count_missing(o, sat + next_wave(steps, o, sat)) <= (fuel - 1) as nat,
        count_missing(o, sat + next_wave(steps, o, sat)) < count_missing(o, sat),
        prepend_waves(done, waves_from(steps, o, sat, fuel)) == prepend_waves(
            done.push(next_wave(steps, o, sat)),
            waves_from(steps, o, sat + next_wave(steps, o, sat), (fuel - 1) as nat),
        ),
{
    lemma_missing_bound(o, sat);
    lemma_wave_progress(steps, o, sat);
    let w0 = next_wave(steps, o, sat);
    let rest = waves_from(steps, o, sat + w0, (fuel - 1) as nat);
    if rest is Some {
        assert(done + (seq![w0] + rest->0) =~= done.push(w0) + rest->0);
    }
}

/// Splits a step order into waves: each wave holds, in order, every step
/// that is not yet scheduled and whose needs are all in earlier waves.
pub fn step_waves(steps: &Vec<LandStep>, order: &Vec<String>) -> (r: Result<Vec<Vec<String>>, WaveError>)
    requires
        forall|q: int| 0 <= q < order@.len() ==> is_known(steps@, #[trigger] order@[q]@),
    ensures
        match r {
            Ok(ws) => step_waves_of(steps@, strings_view(order@)) == Some(waves_view(ws@)),
            Err(_) => step_waves_of(steps@, strings_view(order@)) is None,
        },
{
    let ghost o = strings_view(order@);
    let mut waves: Vec<Vec<String>> = Vec::new();
    let mut satisfied: Vec<String> = Vec::new();
    let ghost mut fuel: nat = order.len() as nat;
    proof {
        assert(strings_view(satisfied@) =~= Seq::<Seq<char>>::empty());
        assert(waves_view(waves@) =~= Seq::<Seq<Seq<char>>>::empty());
        lemma_missing_bound(o, strings_view(satisfied@));
        if step_waves_of(steps@, o) is Some {
            assert(Seq::<Seq<Seq<char>>>::empty() + step_waves_of(steps@, o)->0 =~= step_waves_of(
                steps@,
                o,
            )->0);
        }
    }
    while !all_needs_emitted(order, &satisfied)
        invariant
            o == strings_view(order@),
            forall|q: int| 0 <= q < order@.len() ==> is_known(steps@, #[trigger] order@[q]@),
            count_missing(o, strings_view(satisfied@)) <= fuel,
            step_waves_of(steps@, o) == prepend_waves(
                waves_view(waves@),
                waves_from(steps@, o, strings_view(satisfied@), fuel),
            ),
        decreases count_missing(o, strings_view(satisfied@)),
    {
        let ghost sat = strings_view(satisfied@);
        let wave = build_wave(steps, order, &satisfied);
        if wave.len() == 0 {
            proof {
                lemma_missing_bound(o, sat);
            }
            return Err(WaveError::CycleAmongRemaining);
        }
        let ghost w0 = strings_view(wave@);
        let ghost done = waves_view(waves@);
        proof {
            lemma_waves_advance(steps@, o, sat, fuel, done);
        }
        extend_strings(&mut satisfied, &wave);
        waves.push(wave);
        proof {
            assert(waves_view(waves@) =~= done.push(w0));
            fuel = (fuel - 1) as nat;
        }
    }
    proof {
        assert(waves_view(waves@) + Seq::<Seq<Seq<char>>>::empty() =~= waves_view(waves@));
    }
    Ok(waves)
}

} // verus!
