//! What the land plan and run views show: the branches each repo lands
//! into, the deployment note, and how a planned step is described.
use vstd::prelude::*;

use crate::land_steps::deploy_mode_of;
use crate::land_types::{DeployMode, LandStep, LandStepKind};
use crate::model::{has_publication, is_publication_index, publication_for_repo, ChangeGroup};
use crate::text::{append_str, chars_of, join_seq, join_strings, str_eq, string_from_chars, strings_view};

verus! {

/// A repo and the branch its review object lands into.
#[derive(Debug, Clone)]
pub struct LandingTarget {
    pub repo_id: String,
    pub branch: String,
    /// The branch is not the repo's configured base.
    pub alternate: bool,
}

/// The repos of the merge steps, in plan order.
pub open spec fn merge_step_repos(steps: Seq<LandStep>) -> Seq<Seq<char>>
    decreases steps.len(),
{
    if steps.len() == 0 {
        Seq::empty()
    } else {
        let r = merge_step_repos(steps.drop_last());
        let s = steps.last();
        if s.step_type == LandStepKind::MergePr && s.repo_id is Some {
            r.push(s.repo_id->0@)
        } else {
            r
        }
    }
}

/// The repo ids of the plan's merge steps, in order.
pub fn merge_step_repo_ids(steps: &Vec<LandStep>) -> (out: Vec<String>)
    ensures
        strings_view(out@) == merge_step_repos(steps@),
{
    let mut out: Vec<String> = Vec::new();
    let mut i: usize = 0;
    while i < steps.len()
        invariant
            i <= steps@.len(),
            strings_view(out@) == merge_step_repos(steps@.take(i as int)),
        decreases steps.len() - i,
    {
        proof {
            assert(steps@.take(i + 1).drop_last() =~= steps@.take(i as int));
        }
        let ghost o0 = out@;
        if steps[i].step_type == LandStepKind::MergePr {
            match &steps[i].repo_id {
                Some(r) => {
                    out.push(r.clone());
                    proof {
                        assert(strings_view(out@) =~= strings_view(o0).push(r@));
                    }
                },
                None => {},
            }
        }
        i += 1;
    }
    proof {
        assert(steps@.take(steps@.len() as int) =~= steps@);
    }
    out
}

/// Some step of the plan is a deployment.
pub fn has_deploy_step(steps: &Vec<LandStep>) -> (b: bool)
    ensures
        b == exists|j: int| 0 <= j < steps@.len() && #[trigger] steps@[j].step_type == LandStepKind::Deploy,
{
    let mut i: usize = 0;
    while i < steps.len()
        invariant
            i <= steps@.len(),
            forall|j: int| 0 <= j < i ==> #[trigger] steps@[j].step_type != LandStepKind::Deploy,
        decreases steps.len() - i,
    {
        if steps[i].step_type == LandStepKind::Deploy {
            return true;
        }
        i += 1;
    }
    false
}

/// The configured base of the first repo with this id.
pub open spec fn first_repo_base(b: ChangeGroup, id: Seq<char>) -> Option<Seq<char>> {
    if exists|k: int| 0 <= k < b.repos@.len() && b.repos@[k].id@ == id {
        let k = choose|k: int|
            0 <= k < b.repos@.len() && b.repos@[k].id@ == id && forall|j: int|
                0 <= j < k ==> b.repos@[j].id@ != id;
        Some(b.repos@[k].base_branch@)
    } else {
        None
    }
}

fn repo_base(b: &ChangeGroup, id: &str) -> (r: Option<usize>)
    ensures
        match r {
            Some(k) => k < b.repos@.len() && b.repos@[k as int].id@ == id@ && forall|j: int|
                0 <= j < k ==> b.repos@[j].id@ != id@,
            None => forall|j: int| 0 <= j < b.repos@.len() ==> b.repos@[j].id@ != id@,
        },
{
    let mut i: usize = 0;
    while i < b.repos.len()
        invariant
            i <= b.repos@.len(),
            forall|j: int| 0 <= j < i ==> b.repos@[j].id@ != id@,
        decreases b.repos.len() - i,
    {
        if str_eq(b.repos[i].id.as_str(), id) {
            return Some(i);
        }
        i += 1;
    }
    None
}

/// The ids that have a review object, in order.
pub open spec fn published_ids(b: ChangeGroup, ids: Seq<Seq<char>>) -> Seq<Seq<char>>
    decreases ids.len(),
{
    if ids.len() == 0 {
        Seq::empty()
    } else {
        let r = published_ids(b, ids.drop_last());
        if has_publication(b, ids.last()) {
            r.push(ids.last())
        } else {
            r
        }
    }
}

/// `t` tells truly where its repo lands: into the explicit target when
/// there is one, else its review object's base, and whether that is not the
/// repo's configured base.
pub open spec fn target_ok(b: ChangeGroup, explicit_target: Option<&str>, t: LandingTarget) -> bool {
    &&& has_publication(b, t.repo_id@)
    &&& exists|p: int| #[trigger] is_publication_index(b, t.repo_id@, p) && t.branch@ == match explicit_target {
        Some(x) => x@,
        None => b.publications@[p].base_branch@,
    }
    &&& t.alternate == (first_repo_base(b, t.repo_id@) matches Some(base) && base != t.branch@)
}

fn target_for(b: &ChangeGroup, id: &String, p: usize, explicit_target: Option<&str>) -> (t: LandingTarget)
    requires
        is_publication_index(*b, id@, p as int),
    ensures
        target_ok(*b, explicit_target, t),
        t.repo_id@ == id@,
{
    let branch = match explicit_target {
        Some(x) => string_from_chars(&chars_of(x)),
        None => b.publications[p].base_branch.clone(),
    };
    let alternate = match repo_base(b, id.as_str()) {
        Some(k) => {
            proof {
                let w = choose|w: int|
                    0 <= w < b.repos@.len() && b.repos@[w].id@ == id@ && forall|j: int|
                        0 <= j < w ==> b.repos@[j].id@ != id@;
                assert(w == k as int) by {
                    if w < k {
                        assert(b.repos@[w].id@ != id@);
                    } else if k < w {
                        assert(b.repos@[k as int].id@ != id@);
                    }
                }
            }
            !str_eq(branch.as_str(), b.repos[k].base_branch.as_str())
        },
        None => false,
    };
    LandingTarget { repo_id: id.clone(), branch, alternate }
}

/// Where each listed repo with a review object lands: into the explicit
/// target when there is one, else its review object's base; marked as an
/// alternate target when that is not the repo's configured base. Repos
/// without a review object are left out; the others keep their order.
pub fn landing_targets(b: &ChangeGroup, repo_ids: &Vec<String>, explicit_target: Option<&str>) -> (out: Vec<LandingTarget>)
    ensures
        out@.map_values(|t: LandingTarget| t.repo_id@) == published_ids(*b, strings_view(repo_ids@)),
        forall|k: int| 0 <= k < out@.len() ==> target_ok(*b, explicit_target, #[trigger] out@[k]),
{
    let mut out: Vec<LandingTarget> = Vec::new();
    let mut i: usize = 0;
    while i < repo_ids.len()
        invariant
            i <= repo_ids@.len(),
            out@.map_values(|t: LandingTarget| t.repo_id@) == published_ids(*b, strings_view(repo_ids@).take(i as int)),
            forall|k: int| 0 <= k < out@.len() ==> target_ok(*b, explicit_target, #[trigger] out@[k]),
        decreases repo_ids.len() - i,
    {
        proof {
            assert(strings_view(repo_ids@).take(i + 1).drop_last() =~= strings_view(repo_ids@).take(i as int));
        }
        let id = &repo_ids[i];
        match publication_for_repo(b, id.as_str()) {
            Some(p) => {
                let t = target_for(b, id, p, explicit_target);
                let ghost o0 = out@;
                out.push(t);
                proof {
                    assert forall|k: int| 0 <= k < out@.len() implies target_ok(*b, explicit_target, #[trigger] out@[k]) by {
                        if k < o0.len() {
                            assert(out@[k] == o0[k]);
                        }
                    }
                    assert(out@.map_values(|t: LandingTarget| t.repo_id@) =~= o0.map_values(
                        |t: LandingTarget| t.repo_id@,
                    ).push(id@));
                }
            },
            None => {},
        }
        i += 1;
    }
    proof {
        assert(strings_view(repo_ids@).take(repo_ids@.len() as int) =~= strings_view(repo_ids@));
    }
    out
}

pub open spec fn any_alternate(targets: Seq<LandingTarget>) -> bool {
    exists|k: int| 0 <= k < targets.len() && (#[trigger] targets[k]).alternate
}

/// The note shown under the landing targets when some repo lands on an
/// alternate branch: whether matching deployment steps are in the plan.
pub fn deployment_note(targets: &Vec<LandingTarget>, has_deploy: bool) -> (r: Option<&'static str>)
    ensures
        !any_alternate(targets@) ==> r is None,
        any_alternate(targets@) && has_deploy ==> r == Some(
            "matching `landing.targets.<branch>` deployment steps are included below.",
        ),
        any_alternate(targets@) && !has_deploy ==> r == Some(
            "no deployment steps matched these branches; declare them under `landing.targets.<branch>.deployments` or add an explicit step to this plan.",
        ),
{
    let mut i: usize = 0;
    let mut alt = false;
    while i < targets.len()
        invariant
            i <= targets@.len(),
            alt == exists|k: int| 0 <= k < i && (#[trigger] targets@[k]).alternate,
        decreases targets.len() - i,
    {
        if targets[i].alternate {
            alt = true;
        }
        i += 1;
    }
    if !alt {
        None
    } else if has_deploy {
        Some("matching `landing.targets.<branch>` deployment steps are included below.")
    } else {
        Some(
            "no deployment steps matched these branches; declare them under `landing.targets.<branch>.deployments` or add an explicit step to this plan.",
        )
    }
}

pub open spec fn mode_label(m: DeployMode) -> Seq<char> {
    match m {
        DeployMode::Push => "push"@,
        DeployMode::Command => "command"@,
    }
}

/// How a planned step is described: a deployment by its repo (or
/// `workspace`) and mode; another step by its repo, else its command.
pub fn planned_step_target(step: &LandStep) -> (out: String)
    ensures
        out@ == (if step.step_type == LandStepKind::Deploy {
            (match step.repo_id {
                Some(r) => r@,
                None => "workspace"@,
            }) + " "@ + mode_label(deploy_mode_of(*step))
        } else {
            match step.repo_id {
                Some(r) => r@,
                None => join_seq(strings_view(step.command@), " "@),
            }
        }),
{
    if step.step_type == LandStepKind::Deploy {
        let mut v = match &step.repo_id {
            Some(r) => chars_of(r.as_str()),
            None => chars_of("workspace"),
        };
        append_str(&mut v, " ");
        let mode = match step.deployment_mode {
            Some(m) => m,
            None => if step.command.len() == 0 {
                DeployMode::Push
            } else {
                DeployMode::Command
            },
        };
        match mode {
            DeployMode::Push => append_str(&mut v, "push"),
            DeployMode::Command => append_str(&mut v, "command"),
        }
        string_from_chars(&v)
    } else {
        match &step.repo_id {
            Some(r) => r.clone(),
            None => join_strings(&step.command, " "),
        }
    }
}

/// The command that applies a plan, with its target when it has one.
pub fn apply_hint(target_branch: Option<&str>) -> (out: String)
    ensures
        out@ == match target_branch {
            Some(t) => "knit land --target "@ + t@ + " apply"@,
            None => "knit land apply"@,
        },
{
    match target_branch {
        Some(t) => {
            let mut v = chars_of("knit land --target ");
            append_str(&mut v, t);
            append_str(&mut v, " apply");
            string_from_chars(&v)
        },
        None => string_from_chars(&chars_of("knit land apply")),
    }
}

} // verus!
