//! `knit land rollback` and the ledger record of a landing: which failed
//! runs can be compensated, and what a landed node records.
use vstd::prelude::*;

use crate::land_run::{merged_pairs, merged_steps, pairs_view};
use crate::land_types::{LandPlan, LandRun, LandStatus, LandStep};
use crate::model::{has_publication, is_publication_index, publication_for_repo, BundleNode, ChangeGroup};
use crate::order::{sorted_strict, sorted_unique};
use crate::text::{append_str, chars_of, str_eq, string_from_chars, strings_view};

verus! {

/// Why a land run cannot be rolled back.
#[derive(Debug, Clone)]
pub enum RollbackError {
    OtherBundle { run: String, run_bundle: String, bundle: String },
    AlreadyRolledBack { run: String, at: String },
    Succeeded { run: String },
    NotFailed { run: String, status: LandStatus },
    NothingMerged { run: String },
}

impl RollbackError {
    pub open spec fn text(&self) -> Seq<char> {
        match self {
            RollbackError::OtherBundle { run, run_bundle, bundle } => "Land run "@ + run@ + " belongs to bundle "@
                + run_bundle@ + ", but resolved bundle is "@ + bundle@ + "."@,
            RollbackError::AlreadyRolledBack { run, at } => "Land run "@ + run@ + " was already rolled back at "@ + at@ + "."@,
            RollbackError::Succeeded { run } => "Land run "@ + run@
                + " succeeded. Use `knit revert <landed-node> --apply` to revert a fully landed bundle."@,
            RollbackError::NotFailed { run, status } => "Land run "@ + run@ + " is "@ + status.label()
                + ", expected failed. Only failed runs can be rolled back."@,
            RollbackError::NothingMerged { run } => "Land run "@ + run@
                + " merged no PRs before failing; there is nothing to roll back. Fix the issue and run `knit land resume`."@,
        }
    }

    pub fn message(&self) -> (out: String)
        ensures
            out@ == self.text(),
    {
        let mut v: Vec<char> = Vec::new();
        match self {
            RollbackError::OtherBundle { run, run_bundle, bundle } => {
                append_str(&mut v, "Land run ");
                append_str(&mut v, run.as_str());
                append_str(&mut v, " belongs to bundle ");
                append_str(&mut v, run_bundle.as_str());
                append_str(&mut v, ", but resolved bundle is ");
                append_str(&mut v, bundle.as_str());
                append_str(&mut v, ".");
            },
            RollbackError::AlreadyRolledBack { run, at } => {
                append_str(&mut v, "Land run ");
                append_str(&mut v, run.as_str());
                append_str(&mut v, " was already rolled back at ");
                append_str(&mut v, at.as_str());
                append_str(&mut v, ".");
            },
            RollbackError::Succeeded { run } => {
                append_str(&mut v, "Land run ");
                append_str(&mut v, run.as_str());
                append_str(&mut v, " succeeded. Use `knit revert <landed-node> --apply` to revert a fully landed bundle.");
            },
            RollbackError::NotFailed { run, status } => {
                append_str(&mut v, "Land run ");
                append_str(&mut v, run.as_str());
                append_str(&mut v, " is ");
                append_str(&mut v, status.as_str());
                append_str(&mut v, ", expected failed. Only failed runs can be rolled back.");
            },
            RollbackError::NothingMerged { run } => {
                append_str(&mut v, "Land run ");
                append_str(&mut v, run.as_str());
                append_str(&mut v, " merged no PRs before failing; there is nothing to roll back. Fix the issue and run `knit land resume`.");
            },
        }
        string_from_chars(&v)
    }
}

/// The merged PRs (repo id, URL) of a run that can be rolled back: a failed
/// run of the resolved bundle, not rolled back yet, that merged at least
/// one PR. The checks are made in that order.
pub fn check_rollback(run: &LandRun, bundle_id: &str) -> (r: Result<Vec<(String, String)>, RollbackError>)
    ensures
        run.bundle_id@ != bundle_id@ ==> (r matches Err(RollbackError::OtherBundle { run: a, run_bundle: b, bundle: c })
            && a@ == run.id@ && b@ == run.bundle_id@ && c@ == bundle_id@),
        run.bundle_id@ == bundle_id@ && run.rolled_back_at is Some ==> (r matches Err(RollbackError::AlreadyRolledBack { run: a, at })
            && a@ == run.id@ && at@ == run.rolled_back_at->0@),
        run.bundle_id@ == bundle_id@ && run.rolled_back_at is None ==> {
            if run.status == LandStatus::Succeeded {
                r matches Err(RollbackError::Succeeded { run: a }) && a@ == run.id@
            } else if run.status != LandStatus::Failed {
                r matches Err(RollbackError::NotFailed { run: a, status }) && a@ == run.id@ && status == run.status
            } else if merged_pairs(run.steps@).len() == 0 {
                r matches Err(RollbackError::NothingMerged { run: a }) && a@ == run.id@
            } else {
                r matches Ok(m) && pairs_view(m@) == merged_pairs(run.steps@)
            }
        },
{
    if !str_eq(run.bundle_id.as_str(), bundle_id) {
        return Err(RollbackError::OtherBundle {
            run: run.id.clone(),
            run_bundle: run.bundle_id.clone(),
            bundle: string_from_chars(&crate::text::chars_of(bundle_id)),
        });
    }
    if let Some(at) = &run.rolled_back_at {
        return Err(RollbackError::AlreadyRolledBack { run: run.id.clone(), at: at.clone() });
    }
    match run.status {
        LandStatus::Failed => {},
        LandStatus::Succeeded => {
            return Err(RollbackError::Succeeded { run: run.id.clone() });
        },
        status => {
            return Err(RollbackError::NotFailed { run: run.id.clone(), status });
        },
    }
    let merged = merged_steps(run);
    if merged.len() == 0 {
        return Err(RollbackError::NothingMerged { run: run.id.clone() });
    }
    Ok(merged)
}

/// The bundle already records a landing of run `run_id`.
pub open spec fn landing_recorded(b: ChangeGroup, run_id: Seq<char>) -> bool {
    exists|i: int| 0 <= i < b.nodes@.len() && (#[trigger] b.nodes@[i]).run_id is Some && b.nodes@[i].run_id->0@ == run_id
}

/// The repo ids named by the plan's steps, in order.
pub open spec fn step_repo_ids(steps: Seq<LandStep>) -> Seq<Seq<char>>
    decreases steps.len(),
{
    if steps.len() == 0 {
        Seq::empty()
    } else {
        let p = step_repo_ids(steps.drop_last());
        match steps.last().repo_id {
            Some(r) => p.push(r@),
            None => p,
        }
    }
}

/// The PR URLs a landing covers: the publication of each landed repo, and
/// the URL each repo step of the run recorded.
pub open spec fn landed_url(b: ChangeGroup, repos: Seq<Seq<char>>, run: LandRun, u: Seq<char>) -> bool {
    (exists|k: int, p: int| 0 <= k < repos.len() && #[trigger] is_publication_index(b, repos[k], p) && b.publications@[p].url@ == u)
        || (exists|i: int| 0 <= i < run.steps@.len() && (#[trigger] run.steps@[i]).repo_id is Some
            && run.steps@[i].publication_url is Some && run.steps@[i].publication_url->0@ == u)
}

/// What the landed node of a successful run records, unless the bundle
/// already has one for the run: the repo ids of the plan's steps and the
/// landed PR URLs, each sorted and without repeats.
pub fn landed_node_fields(b: &ChangeGroup, plan: &LandPlan, run: &LandRun) -> (r: Option<(Vec<String>, Vec<String>)>)
    ensures
        landing_recorded(*b, run.id@) ==> r is None,
        !landing_recorded(*b, run.id@) ==> (r matches Some((repos, urls))
            && sorted_strict(strings_view(repos@))
            && (forall|x: Seq<char>| strings_view(repos@).contains(x) <==> step_repo_ids(plan.steps@).contains(x))
            && sorted_strict(strings_view(urls@))
            && (forall|u: Seq<char>| strings_view(urls@).contains(u) <==> landed_url(*b, strings_view(repos@), *run, u))),
{
    let mut n: usize = 0;
    while n < b.nodes.len()
        invariant
            n <= b.nodes@.len(),
            forall|i: int| 0 <= i < n ==> !((#[trigger] b.nodes@[i]).run_id is Some && b.nodes@[i].run_id->0@ == run.id@),
        decreases b.nodes.len() - n,
    {
        if let Some(id) = &b.nodes[n].run_id {
            if *id == run.id {
                return None;
            }
        }
        n += 1;
    }
    let mut ids: Vec<String> = Vec::new();
    let mut i: usize = 0;
    while i < plan.steps.len()
        invariant
            i <= plan.steps@.len(),
            strings_view(ids@) == step_repo_ids(plan.steps@.take(i as int)),
        decreases plan.steps.len() - i,
    {
        proof {
            assert(plan.steps@.take(i + 1).drop_last() =~= plan.steps@.take(i as int));
            assert(plan.steps@.take(i + 1).last() == plan.steps@[i as int]);
        }
        if let Some(r) = &plan.steps[i].repo_id {
            let ghost prev = strings_view(ids@);
            ids.push(r.clone());
            proof {
                assert(strings_view(ids@) =~= prev.push(r@));
            }
        }
        i += 1;
    }
    proof {
        assert(plan.steps@.take(plan.steps@.len() as int) =~= plan.steps@);
    }
    let repos = sorted_unique(&ids);
    let mut urls: Vec<String> = Vec::new();
    let mut k: usize = 0;
    while k < repos.len()
        invariant
            k <= repos@.len(),
            forall|u: Seq<char>| strings_view(urls@).contains(u) <==> (exists|k2: int, p: int|
                0 <= k2 < k && #[trigger] is_publication_index(*b, strings_view(repos@)[k2], p) && b.publications@[p].url@ == u),
        decreases repos.len() - k,
    {
        let ghost prev = strings_view(urls@);
        match publication_for_repo(b, repos[k].as_str()) {
            Some(p) => {
                urls.push(b.publications[p].url.clone());
                proof {
                    assert(strings_view(urls@) =~= prev.push(b.publications@[p as int].url@));
                    assert(strings_view(repos@)[k as int] == repos@[k as int]@);
                    assert forall|u: Seq<char>| strings_view(urls@).contains(u) <==> (exists|k2: int, q: int|
                        0 <= k2 < k + 1 && #[trigger] is_publication_index(*b, strings_view(repos@)[k2], q) && b.publications@[q].url@ == u) by {
                        if strings_view(urls@).contains(u) {
                            let m = choose|m: int| 0 <= m < strings_view(urls@).len() && strings_view(urls@)[m] == u;
                            if m < prev.len() {
                                assert(prev[m] == u);
                                assert(prev.contains(u));
                            } else {
                                assert(is_publication_index(*b, strings_view(repos@)[k as int], p as int));
                            }
                        }
                        if exists|k2: int, q: int| 0 <= k2 < k + 1 && #[trigger] is_publication_index(*b, strings_view(repos@)[k2], q) && b.publications@[q].url@ == u {
                            let (k2, q) = choose|k2: int, q: int| 0 <= k2 < k + 1 && #[trigger] is_publication_index(*b, strings_view(repos@)[k2], q) && b.publications@[q].url@ == u;
                            if k2 < k {
                                assert(prev.contains(u));
                                let m = choose|m: int| 0 <= m < prev.len() && prev[m] == u;
                                assert(strings_view(urls@)[m] == u);
                            } else {
                                assert(is_publication_index(*b, strings_view(repos@)[k as int], p as int));
                                if q < p {
                                    assert(b.publications@[q].repo_id@ == strings_view(repos@)[k as int]);
                                } else if p < q {
                                    assert(b.publications@[p as int].repo_id@ == strings_view(repos@)[k as int]);
                                }
                                assert(strings_view(urls@)[prev.len() as int] == u);
                            }
                        }
                    }
                }
            },
            None => {
                proof {
                    assert(strings_view(repos@)[k as int] == repos@[k as int]@);
                    assert forall|u: Seq<char>| strings_view(urls@).contains(u) <==> (exists|k2: int, q: int|
                        0 <= k2 < k + 1 && #[trigger] is_publication_index(*b, strings_view(repos@)[k2], q) && b.publications@[q].url@ == u) by {
                        if exists|k2: int, q: int| 0 <= k2 < k + 1 && #[trigger] is_publication_index(*b, strings_view(repos@)[k2], q) && b.publications@[q].url@ == u {
                            let (k2, q) = choose|k2: int, q: int| 0 <= k2 < k + 1 && #[trigger] is_publication_index(*b, strings_view(repos@)[k2], q) && b.publications@[q].url@ == u;
                            if k2 == k {
                                assert(has_publication(*b, strings_view(repos@)[k as int]));
                            }
                        }
                    }
                }
            },
        }
        k += 1;
    }
    let mut s: usize = 0;
    while s < run.steps.len()
        invariant
            s <= run.steps@.len(),
            forall|u: Seq<char>| strings_view(urls@).contains(u) <==> ((exists|k2: int, p: int|
                0 <= k2 < repos@.len() && #[trigger] is_publication_index(*b, strings_view(repos@)[k2], p) && b.publications@[p].url@ == u)
                || (exists|i: int| 0 <= i < s && (#[trigger] run.steps@[i]).repo_id is Some
                    && run.steps@[i].publication_url is Some && run.steps@[i].publication_url->0@ == u)),
        decreases run.steps.len() - s,
    {
        let ghost prev = strings_view(urls@);
        let st = &run.steps[s];
        if st.repo_id.is_some() {
            if let Some(u) = &st.publication_url {
                urls.push(u.clone());
                proof {
                    assert(strings_view(urls@) =~= prev.push(u@));
                    assert forall|x: Seq<char>| strings_view(urls@).contains(x) <==> ((exists|k2: int, p: int|
                        0 <= k2 < repos@.len() && #[trigger] is_publication_index(*b, strings_view(repos@)[k2], p) && b.publications@[p].url@ == x)
                        || (exists|i: int| 0 <= i < s + 1 && (#[trigger] run.steps@[i]).repo_id is Some
                            && run.steps@[i].publication_url is Some && run.steps@[i].publication_url->0@ == x)) by {
                        if strings_view(urls@).contains(x) {
                            let m = choose|m: int| 0 <= m < strings_view(urls@).len() && strings_view(urls@)[m] == x;
                            if m < prev.len() {
                                assert(prev[m] == x);
                                assert(prev.contains(x));
                            } else {
                                assert(run.steps@[s as int].repo_id is Some);
                            }
                        }
                        if exists|i: int| 0 <= i < s + 1 && (#[trigger] run.steps@[i]).repo_id is Some
                            && run.steps@[i].publication_url is Some && run.steps@[i].publication_url->0@ == x {
                            let i = choose|i: int| 0 <= i < s + 1 && (#[trigger] run.steps@[i]).repo_id is Some
                                && run.steps@[i].publication_url is Some && run.steps@[i].publication_url->0@ == x;
                            if i < s {
                                assert(prev.contains(x));
                                let m = choose|m: int| 0 <= m < prev.len() && prev[m] == x;
                                assert(strings_view(urls@)[m] == x);
                            } else {
                                assert(strings_view(urls@)[prev.len() as int] == x);
                            }
                        }
                        if exists|k2: int, p: int| 0 <= k2 < repos@.len() && #[trigger] is_publication_index(*b, strings_view(repos@)[k2], p) && b.publications@[p].url@ == x {
                            assert(prev.contains(x));
                            let m = choose|m: int| 0 <= m < prev.len() && prev[m] == x;
                            assert(strings_view(urls@)[m] == x);
                        }
                    }
                }
            }
        }
        s += 1;
    }
    let sorted_urls = sorted_unique(&urls);
    Some((repos, sorted_urls))
}

/// Records the landing of a succeeded run on the ledger, once: unless the
/// bundle already has a landed node for the run (or the run has not
/// succeeded), a `feature.landed` node for the plan and run is appended with
/// the landed repo ids and PR URLs (as `landed_node_fields` gives them) and
/// the plan's provider; it becomes the head, and the bundle is marked
/// updated at `now`. Returns whether the node was added.
pub fn record_landed_node(b: &mut ChangeGroup, plan: &LandPlan, run: &LandRun, node_id: String, now: String) -> (added: bool)
    ensures
        added <==> run.status == LandStatus::Succeeded && !landing_recorded(*old(b), run.id@),
        !added ==> *final(b) == *old(b),
        added ==> {
            let n = final(b).nodes@.last();
            &&& final(b).nodes@.len() == old(b).nodes@.len() + 1
            &&& final(b).nodes@.take(old(b).nodes@.len() as int) == old(b).nodes@
            &&& n.id@ == node_id@
            &&& n.node_type@ == "feature.landed"@
            &&& (n.run_id matches Some(x) && x@ == run.id@)
            &&& (n.plan_id matches Some(x) && x@ == plan.id@)
            &&& (n.provider matches Some(x) && x@ == plan.provider@)
            &&& (n.repo_ids matches Some(repos) && sorted_strict(strings_view(repos@))
                && (forall|x: Seq<char>| strings_view(repos@).contains(x) <==> step_repo_ids(plan.steps@).contains(x))
                && sorted_strict(strings_view(n.publication_urls@))
                && (forall|u: Seq<char>| strings_view(n.publication_urls@).contains(u) <==> landed_url(*old(b), strings_view(repos@), *run, u)))
            &&& n.title is None && n.message is None && n.commit_group_id is None && n.target_node_id is None
            &&& n.commits@.len() == 0 && n.repo_changes@.len() == 0
            &&& landing_recorded(*final(b), run.id@)
            &&& (final(b).head_node_id matches Some(h) && h@ == node_id@)
            &&& *final(b) == (ChangeGroup {
                nodes: final(b).nodes,
                head_node_id: final(b).head_node_id,
                updated_at: now,
                ..*old(b)
            })
        },
{
    if run.status != LandStatus::Succeeded {
        return false;
    }
    let (repos, urls) = match landed_node_fields(b, plan, run) {
        Some(f) => f,
        None => return false,
    };
    let node = BundleNode {
        id: string_from_chars(&chars_of(node_id.as_str())),
        node_type: string_from_chars(&chars_of("feature.landed")),
        title: None,
        message: None,
        commit_group_id: None,
        commits: Vec::new(),
        repo_changes: Vec::new(),
        repo_ids: Some(repos),
        publication_urls: urls,
        provider: Some(plan.provider.clone()),
        target_node_id: None,
        plan_id: Some(plan.id.clone()),
        run_id: Some(run.id.clone()),
    };
    let ghost nodes0 = b.nodes@;
    b.nodes.push(node);
    proof {
        assert(b.nodes@.take(nodes0.len() as int) =~= nodes0);
        assert(b.nodes@[nodes0.len() as int].run_id is Some);
    }
    b.head_node_id = Some(node_id);
    b.updated_at = now;
    true
}

/// A recorded landing stays recorded while the ledger grows: nodes are
/// only ever appended, so a later ledger whose first nodes are those of an
/// earlier one still records every landing the earlier one did.
pub proof fn lemma_landing_stays_recorded(b: ChangeGroup, c: ChangeGroup, run_id: Seq<char>)
    requires
        landing_recorded(b, run_id),
        c.nodes@.len() >= b.nodes@.len(),
        c.nodes@.take(b.nodes@.len() as int) == b.nodes@,
    ensures
        landing_recorded(c, run_id),
{
    let i = choose|i: int| 0 <= i < b.nodes@.len() && (#[trigger] b.nodes@[i]).run_id is Some && b.nodes@[i].run_id->0@ == run_id;
    assert(c.nodes@.take(b.nodes@.len() as int)[i] == c.nodes@[i]);
    assert(c.nodes@[i] == b.nodes@[i]);
}

} // verus!
