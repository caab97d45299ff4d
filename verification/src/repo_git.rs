//! The per-repo git steps of `knit push`, `knit pull` and `knit publish`:
//! which branch a checkout must be on, the arguments handed to git, and
//! what is recorded from the result.
use vstd::prelude::*;

use crate::model::{has_publication, is_publication_index, publication_for_repo, ChangeGroup, RepoEntry};
use crate::push_force::PushForce;
use crate::text::{append_str, chars_of, str_eq, string_from_chars, strings_view};

verus! {

/// The branch a checkout is on, as reported: `(detached HEAD)` when none.
pub open spec fn branch_name(actual: Option<&str>) -> Seq<char> {
    match actual {
        Some(a) => a@,
        None => "(detached HEAD)"@,
    }
}

fn branch_name_exec(actual: Option<&str>) -> (out: Vec<char>)
    ensures
        out@ == branch_name(actual),
{
    match actual {
        Some(a) => chars_of(a),
        None => chars_of("(detached HEAD)"),
    }
}

/// The command that needs a checkout on its feature branch.
#[derive(Debug, Clone, Copy, PartialEq, Eq, Structural)]
pub enum BranchCheck {
    Push,
    Publish,
    FeaturePull,
    FastForward,
}

impl BranchCheck {
    pub open spec fn lead(self) -> Seq<char> {
        match self {
            BranchCheck::Push => "push expected feature branch"@,
            BranchCheck::Publish => "PR publishing expected feature branch"@,
            BranchCheck::FeaturePull => "feature pull expected branch"@,
            BranchCheck::FastForward => "expected feature checkout branch"@,
        }
    }

    fn lead_exec(self) -> (s: &'static str)
        ensures
            s@ == self.lead(),
    {
        match self {
            BranchCheck::Push => "push expected feature branch",
            BranchCheck::Publish => "PR publishing expected feature branch",
            BranchCheck::FeaturePull => "feature pull expected branch",
            BranchCheck::FastForward => "expected feature checkout branch",
        }
    }
}

pub open spec fn branch_mismatch(
    check: BranchCheck,
    repo_id: Seq<char>,
    expected: Seq<char>,
    actual: Seq<char>,
    cwd: Seq<char>,
) -> Seq<char> {
    repo_id + ": "@ + check.lead() + " `"@ + expected + "`, found `"@ + actual + "` in "@ + cwd + "."@
}

/// The checkout at `cwd` of repo `repo_id` must be on its feature branch
/// `expected`; `actual` is the branch it is on (none when detached).
pub fn check_feature_branch(check: BranchCheck, repo_id: &str, expected: &str, actual: Option<&str>, cwd: &str) -> (r: Result<(), String>)
    ensures
        r is Ok <==> branch_name(actual) == expected@,
        r matches Err(e) ==> e@ == branch_mismatch(check, repo_id@, expected@, branch_name(actual), cwd@),
{
    let a = branch_name_exec(actual);
    let e = chars_of(expected);
    if crate::text::chars_eq(&a, &e) {
        return Ok(());
    }
    let mut v = chars_of(repo_id);
    append_str(&mut v, ": ");
    append_str(&mut v, check.lead_exec());
    append_str(&mut v, " `");
    append_str(&mut v, expected);
    append_str(&mut v, "`, found `");
    crate::text::append_chars(&mut v, &a);
    append_str(&mut v, "` in ");
    append_str(&mut v, cwd);
    append_str(&mut v, ".");
    Err(string_from_chars(&v))
}

/// A feature pull needs the repo's recorded feature branch checked out.
pub fn check_feature_pull(repo: &RepoEntry, actual: Option<&str>, cwd: &str) -> (r: Result<(), String>)
    ensures
        match repo.feature_branch {
            None => r matches Err(e) && e@ == repo.id@ + ": no feature branch is recorded."@,
            Some(f) => (r is Ok <==> branch_name(actual) == f@) && (r matches Err(e) ==> e@ == branch_mismatch(
                BranchCheck::FeaturePull,
                repo.id@,
                f@,
                branch_name(actual),
                cwd@,
            )),
        },
{
    match &repo.feature_branch {
        None => {
            let mut v = chars_of(repo.id.as_str());
            append_str(&mut v, ": no feature branch is recorded.");
            Err(string_from_chars(&v))
        },
        Some(f) => check_feature_branch(BranchCheck::FeaturePull, repo.id.as_str(), f.as_str(), actual, cwd),
    }
}

pub open spec fn on_feature_text(id: Seq<char>) -> Seq<char> {
    id + ": default pull does not operate on the feature branch. Use `knit pull --feature "@ + id
        + "` if that is intentional."@
}

pub open spec fn off_base_text(id: Seq<char>, base: Seq<char>, actual: Seq<char>, cwd: Seq<char>) -> Seq<char> {
    id + ": default pull expected base branch `"@ + base + "`, found `"@ + actual + "` in "@ + cwd
        + ". Checkout the base branch or use `knit pull --feature "@ + id + "`."@
}

/// A default pull runs in the repo's original checkout, which must be on its
/// base branch, and never on its feature branch.
pub fn check_base_branch(repo: &RepoEntry, actual: Option<&str>, cwd: &str) -> (r: Result<(), String>)
    ensures
        ({
            let a = branch_name(actual);
            let feature = match repo.feature_branch {
                Some(f) => f@,
                None => Seq::<char>::empty(),
            };
            if a == feature {
                r matches Err(e) && e@ == on_feature_text(repo.id@)
            } else if a != repo.base_branch@ {
                r matches Err(e) && e@ == off_base_text(repo.id@, repo.base_branch@, a, cwd@)
            } else {
                r is Ok
            }
        }),
{
    let a = branch_name_exec(actual);
    let feature = match &repo.feature_branch {
        Some(f) => chars_of(f.as_str()),
        None => Vec::new(),
    };
    if crate::text::chars_eq(&a, &feature) {
        let mut v = chars_of(repo.id.as_str());
        append_str(&mut v, ": default pull does not operate on the feature branch. Use `knit pull --feature ");
        append_str(&mut v, repo.id.as_str());
        append_str(&mut v, "` if that is intentional.");
        return Err(string_from_chars(&v));
    }
    let base = chars_of(repo.base_branch.as_str());
    if !crate::text::chars_eq(&a, &base) {
        let mut v = chars_of(repo.id.as_str());
        append_str(&mut v, ": default pull expected base branch `");
        append_str(&mut v, repo.base_branch.as_str());
        append_str(&mut v, "`, found `");
        crate::text::append_chars(&mut v, &a);
        append_str(&mut v, "` in ");
        append_str(&mut v, cwd);
        append_str(&mut v, ". Checkout the base branch or use `knit pull --feature ");
        append_str(&mut v, repo.id.as_str());
        append_str(&mut v, "`.");
        return Err(string_from_chars(&v));
    }
    Ok(())
}

fn owned(s: &str) -> (out: String)
    ensures
        out@ == s@,
{
    string_from_chars(&chars_of(s))
}

/// The arguments of `git push` for a feature branch: `--set-upstream` when
/// asked, then the force flag of the mode, then `origin` and the branch.
pub fn push_args(branch: &str, set_upstream: bool, force: PushForce) -> (out: Vec<String>)
    ensures
        strings_view(out@) == seq!["push"@] + (if set_upstream {
            seq!["--set-upstream"@]
        } else {
            Seq::empty()
        }) + (match force.arg() {
            Some(f) => seq![f],
            None => Seq::empty(),
        }) + seq!["origin"@, branch@],
{
    let mut out: Vec<String> = Vec::new();
    out.push(owned("push"));
    if set_upstream {
        out.push(owned("--set-upstream"));
    }
    match force.git_arg() {
        Some(f) => out.push(owned(f)),
        None => {},
    }
    out.push(owned("origin"));
    out.push(owned(branch));
    proof {
        assert(strings_view(out@) =~= seq!["push"@] + (if set_upstream {
            seq!["--set-upstream"@]
        } else {
            Seq::empty()
        }) + (match force.arg() {
            Some(f) => seq![f],
            None => Seq::empty(),
        }) + seq!["origin"@, branch@]);
    }
    out
}

/// The arguments of `git pull`: rebase, or fast-forward only.
pub fn pull_args(rebase: bool) -> (out: Vec<String>)
    ensures
        strings_view(out@) == seq!["pull"@, if rebase { "--rebase"@ } else { "--ff-only"@ }],
{
    let mut out: Vec<String> = Vec::new();
    out.push(owned("pull"));
    if rebase {
        out.push(owned("--rebase"));
    } else {
        out.push(owned("--ff-only"));
    }
    proof {
        assert(strings_view(out@) =~= seq!["pull"@, if rebase { "--rebase"@ } else { "--ff-only"@ }]);
    }
    out
}

/// The upstream reported after pushing `branch`: the one git reports when
/// it was set up and could be read, else `origin/<branch>`.
pub fn pushed_upstream(branch: &str, set_upstream: bool, reported: Option<String>) -> (out: String)
    ensures
        out@ == (match reported {
            Some(u) if set_upstream => u@,
            _ => "origin/"@ + branch@,
        }),
{
    if set_upstream {
        if let Some(u) = reported {
            return u;
        }
    }
    let mut v = chars_of("origin/");
    append_str(&mut v, branch);
    string_from_chars(&v)
}

pub open spec fn base_mismatch_text(repo_id: Seq<char>, recorded_base: Seq<char>) -> Seq<char> {
    repo_id + ": review object already recorded against "@ + recorded_base
        + ". Knit records one review object per repo in a bundle; create a new bundle or publish before changing the base."@
}

/// What publishing repo `repo_id` against `base_branch` starts from: the
/// URL of the review object already recorded for it (which must target the
/// same base), or none when a review object is to be found or created.
pub fn recorded_publication(b: &ChangeGroup, repo_id: &str, base_branch: &str) -> (r: Result<Option<String>, String>)
    ensures
        !has_publication(*b, repo_id@) ==> r == Ok::<Option<String>, String>(None),
        has_publication(*b, repo_id@) ==> exists|p: int| #[trigger] is_publication_index(*b, repo_id@, p) && (
        if b.publications@[p].base_branch@ == base_branch@ {
            r matches Ok(Some(u)) && u@ == b.publications@[p].url@
        } else {
            r matches Err(e) && e@ == base_mismatch_text(repo_id@, b.publications@[p].base_branch@)
        }),
{
    match publication_for_repo(b, repo_id) {
        None => Ok(None),
        Some(p) => {
            proof {
                assert(is_publication_index(*b, repo_id@, p as int));
            }
            let existing = &b.publications[p];
            if str_eq(existing.base_branch.as_str(), base_branch) {
                Ok(Some(existing.url.clone()))
            } else {
                let mut v = chars_of(repo_id);
                append_str(&mut v, ": review object already recorded against ");
                append_str(&mut v, existing.base_branch.as_str());
                append_str(
                    &mut v,
                    ". Knit records one review object per repo in a bundle; create a new bundle or publish before changing the base.",
                );
                Err(string_from_chars(&v))
            }
        },
    }
}

/// The title of a review object created for a repo: the bundle title and
/// the repo id in parentheses.
pub fn publication_title(bundle_title: &str, repo_id: &str) -> (out: String)
    ensures
        out@ == bundle_title@ + " ("@ + repo_id@ + ")"@,
{
    let mut v = chars_of(bundle_title);
    append_str(&mut v, " (");
    append_str(&mut v, repo_id);
    append_str(&mut v, ")");
    string_from_chars(&v)
}

/// Records the base commit a default pull left repo `i` on; reports whether
/// the bundle changed.
pub fn record_pulled_base(b: &mut ChangeGroup, i: usize, after: &str) -> (changed: bool)
    requires
        i < old(b).repos@.len(),
    ensures
        changed == !(old(b).repos@[i as int].base_sha matches Some(s) && s@ == after@),
        final(b).repos@.len() == old(b).repos@.len(),
        final(b).repos@[i as int].base_sha matches Some(s) && s@ == after@,
        changed ==> final(b).repos@ == old(b).repos@.update(i as int, RepoEntry { base_sha: final(b).repos@[i as int].base_sha, ..old(b).repos@[i as int] }),
        !changed ==> final(b).repos@ == old(b).repos@,
        final(b).nodes@ == old(b).nodes@,
        final(b).publications@ == old(b).publications@,
        final(b).id == old(b).id,
{
    let same = match &b.repos[i].base_sha {
        Some(s) => str_eq(s.as_str(), after),
        None => false,
    };
    if same {
        return false;
    }
    let mut r = crate::pr_body::copy_repo(&b.repos[i]);
    r.base_sha = Some(owned(after));
    b.repos.set(i, r);
    true
}

} // verus!
