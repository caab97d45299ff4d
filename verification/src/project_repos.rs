//! The repos a project template tracks: adding or replacing one, and the
//! checks before repos are removed from it.
use vstd::prelude::*;

use crate::model::CheckoutMode;
use crate::text::{
    append_str, chars_of, contains_string, join_seq, join_strings, str_eq, string_from_chars, strings_view, trim_chars,
    trim_seq,
};

verus! {

/// A repo of a project template.
#[derive(Debug, Clone)]
pub struct ProjectRepoEntry {
    pub id: String,
    pub path: String,
    pub remote: Option<String>,
    pub base_branch: String,
    pub checkout_mode: CheckoutMode,
    /// New bundles include it unless it is only observed.
    pub include_by_default: bool,
}

/// Records `repo` in the template: it replaces the first repo with the same
/// id, or is appended. Reports whether a repo was replaced.
pub fn upsert_project_repo(repos: &mut Vec<ProjectRepoEntry>, repo: ProjectRepoEntry) -> (updated: bool)
    ensures
        updated == exists|j: int| 0 <= j < old(repos)@.len() && old(repos)@[j].id@ == repo.id@,
        updated ==> exists|j: int|
            0 <= j < old(repos)@.len() && old(repos)@[j].id@ == repo.id@ && (forall|k: int|
                0 <= k < j ==> old(repos)@[k].id@ != repo.id@) && final(repos)@ == old(repos)@.update(j, repo),
        !updated ==> final(repos)@ == old(repos)@.push(repo),
{
    let mut i: usize = 0;
    while i < repos.len()
        invariant
            i <= repos@.len(),
            repos@ == old(repos)@,
            forall|k: int| 0 <= k < i ==> repos@[k].id@ != repo.id@,
        decreases repos.len() - i,
    {
        if str_eq(repos[i].id.as_str(), repo.id.as_str()) {
            repos.set(i, repo);
            return true;
        }
        i += 1;
    }
    repos.push(repo);
    false
}

/// The template lists a repo with this id.
pub open spec fn lists_repo(repos: Seq<ProjectRepoEntry>, id: Seq<char>) -> bool {
    exists|j: int| 0 <= j < repos.len() && repos[j].id@ == id
}

/// Every repo to remove must be in the template; the first that is not is
/// refused.
pub fn check_repos_listed(project_id: &str, repos: &Vec<ProjectRepoEntry>, targets: &Vec<String>) -> (r: Result<(), String>)
    ensures
        r is Ok <==> forall|t: int| 0 <= t < targets@.len() ==> lists_repo(repos@, #[trigger] targets@[t]@),
        r matches Err(e) ==> exists|t: int|
            0 <= t < targets@.len() && !lists_repo(repos@, targets@[t]@) && (forall|u: int|
                0 <= u < t ==> lists_repo(repos@, #[trigger] targets@[u]@)) && e@ == "Project `"@ + project_id@
                + "` has no repo `"@ + targets@[t]@ + "`."@,
{
    let mut t: usize = 0;
    while t < targets.len()
        invariant
            t <= targets@.len(),
            forall|u: int| 0 <= u < t ==> lists_repo(repos@, #[trigger] targets@[u]@),
        decreases targets.len() - t,
    {
        let mut found = false;
        let mut j: usize = 0;
        while j < repos.len()
            invariant
                j <= repos@.len(),
                t < targets@.len(),
                found ==> lists_repo(repos@, targets@[t as int]@),
                !found ==> forall|k: int| 0 <= k < j ==> repos@[k].id@ != targets@[t as int]@,
            decreases repos.len() - j,
        {
            if !found && str_eq(repos[j].id.as_str(), targets[t].as_str()) {
                found = true;
            }
            j += 1;
        }
        if !found {
            let mut v = chars_of("Project `");
            append_str(&mut v, project_id);
            append_str(&mut v, "` has no repo `");
            append_str(&mut v, targets[t].as_str());
            append_str(&mut v, "`.");
            return Err(string_from_chars(&v));
        }
        t += 1;
    }
    Ok(())
}

pub open spec fn blocking_line(p: (String, String)) -> Seq<char> {
    "  "@ + p.1@ + " tracked by "@ + p.0@
}

/// The refusal when open bundles (bundle id, repo id) still track repos
/// that were to be removed.
pub fn blocking_message(blocking: &Vec<(String, String)>) -> (out: String)
    ensures
        out@ == "Cannot remove repo(s) tracked by open bundle(s):\n"@ + join_seq(
            blocking@.map_values(|p: (String, String)| blocking_line(p)),
            "\n"@,
        ),
{
    let mut lines: Vec<String> = Vec::new();
    let mut i: usize = 0;
    while i < blocking.len()
        invariant
            i <= blocking@.len(),
            strings_view(lines@) == blocking@.take(i as int).map_values(|p: (String, String)| blocking_line(p)),
        decreases blocking.len() - i,
    {
        let mut v = chars_of("  ");
        append_str(&mut v, blocking[i].1.as_str());
        append_str(&mut v, " tracked by ");
        append_str(&mut v, blocking[i].0.as_str());
        let ghost l0 = lines@;
        lines.push(string_from_chars(&v));
        proof {
            assert(strings_view(lines@) =~= strings_view(l0).push(blocking_line(blocking@[i as int])));
            assert(blocking@.take(i + 1) =~= blocking@.take(i as int).push(blocking@[i as int]));
        }
        i += 1;
    }
    proof {
        assert(blocking@.take(blocking@.len() as int) =~= blocking@);
    }
    let mut out = chars_of("Cannot remove repo(s) tracked by open bundle(s):\n");
    let j = join_strings(&lines, "\n");
    append_str(&mut out, j.as_str());
    string_from_chars(&out)
}

/// The repos left after removing the targets, in order.
pub open spec fn without_targets(repos: Seq<ProjectRepoEntry>, targets: Seq<Seq<char>>) -> Seq<ProjectRepoEntry>
    decreases repos.len(),
{
    if repos.len() == 0 {
        Seq::empty()
    } else {
        let r = without_targets(repos.drop_last(), targets);
        if targets.contains(repos.last().id@) {
            r
        } else {
            r.push(repos.last())
        }
    }
}

/// Drops the repos whose id is one of the targets.
pub fn remove_target_repos(repos: &mut Vec<ProjectRepoEntry>, targets: &Vec<String>)
    ensures
        final(repos)@ == without_targets(old(repos)@, strings_view(targets@)),
{
    let ghost orig = repos@;
    let mut kept: Vec<ProjectRepoEntry> = Vec::new();
    let n = repos.len();
    let mut rest: Vec<ProjectRepoEntry> = Vec::new();
    std::mem::swap(&mut rest, repos);
    let mut i: usize = 0;
    while i < n
        invariant
            n == orig.len(),
            i <= n,
            rest@ == orig.skip(i as int),
            kept@ == without_targets(orig.take(i as int), strings_view(targets@)),
        decreases n - i,
    {
        proof {
            assert(rest@[0] == orig[i as int]);
            assert(orig.take(i + 1).drop_last() =~= orig.take(i as int));
        }
        let r = rest.remove(0);
        proof {
            assert(rest@ =~= orig.skip(i + 1));
        }
        if !contains_string(targets, &r.id) {
            kept.push(r);
        }
        i += 1;
    }
    proof {
        assert(orig.take(n as int) =~= orig);
    }
    *repos = kept;
}

/// The position of the first repo with this id.
pub open spec fn first_repo(repos: Seq<ProjectRepoEntry>, id: Seq<char>, j: int) -> bool {
    0 <= j < repos.len() && repos[j].id@ == id && forall|k: int| 0 <= k < j ==> repos[k].id@ != id
}

/// Sets the configured base of the repo `repo_id` to `base` (trimmed),
/// leaving everything else as it was, and returns the previous base. Refuses,
/// changing nothing, when the template has no such repo.
pub fn set_repo_base(repos: &mut Vec<ProjectRepoEntry>, project_id: &str, repo_id: &str, base: &str) -> (r: Result<String, String>)
    ensures
        r is Err <==> !lists_repo(old(repos)@, repo_id@),
        r matches Err(e) ==> e@ == "Project `"@ + project_id@ + "` has no repo `"@ + repo_id@ + "`."@
            && final(repos)@ == old(repos)@,
        r matches Ok(prev) ==> exists|j: int| #![trigger first_repo(old(repos)@, repo_id@, j)]
            first_repo(old(repos)@, repo_id@, j) && prev@ == old(repos)@[j].base_branch@
            && final(repos)@.len() == old(repos)@.len()
            && (forall|k: int| 0 <= k < old(repos)@.len() && k != j ==> final(repos)@[k] == old(repos)@[k])
            && final(repos)@[j].base_branch@ == trim_seq(base@)
            && final(repos)@[j].id == old(repos)@[j].id
            && final(repos)@[j].path == old(repos)@[j].path
            && final(repos)@[j].remote == old(repos)@[j].remote
            && final(repos)@[j].checkout_mode == old(repos)@[j].checkout_mode
            && final(repos)@[j].include_by_default == old(repos)@[j].include_by_default,
{
    let mut i: usize = 0;
    while i < repos.len()
        invariant
            i <= repos@.len(),
            repos@ == old(repos)@,
            forall|k: int| 0 <= k < i ==> repos@[k].id@ != repo_id@,
        decreases repos.len() - i,
    {
        if str_eq(repos[i].id.as_str(), repo_id) {
            let ghost before = repos@;
            let mut e = repos.remove(i);
            let prev = e.base_branch;
            e.base_branch = string_from_chars(&trim_chars(&chars_of(base)));
            repos.insert(i, e);
            proof {
                assert(first_repo(before, repo_id@, i as int));
                assert forall|k: int| 0 <= k < before.len() && k != i implies repos@[k] == before[k] by {
                    if k < i {
                        assert(repos@[k] == before[k]);
                    } else {
                        assert(repos@[k] == before[k]);
                    }
                }
            }
            return Ok(prev);
        }
        i += 1;
    }
    let mut v = chars_of("Project `");
    append_str(&mut v, project_id);
    append_str(&mut v, "` has no repo `");
    append_str(&mut v, repo_id);
    append_str(&mut v, "`.");
    Err(string_from_chars(&v))
}

} // verus!
