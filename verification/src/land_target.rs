//! Landing into a branch other than the recorded bases: retargeting the
//! review objects onto the plan's target branch, and whether the landed
//! bundle is tagged known-good.
use vstd::prelude::*;

use crate::land_run::{ensure_open_for_retarget, LandError};
use crate::model::{has_publication, is_publication_index, publication_for_repo, pr_state, ChangeGroup, PullRequest};
use crate::text::{append_str, chars_of, decimal_seq, push_decimal, str_eq, string_from_chars};

verus! {

/// Why a review object cannot be moved onto the landing target.
#[derive(Debug, Clone)]
pub enum RetargetError {
    /// The PR already merged into another base.
    AlreadyMerged { repo: String, number: u64, base: String, target: String },
    /// The PR is a draft or not open.
    NotOpen(LandError),
    /// The host was asked to retarget and still reports another base.
    NotRetargeted { repo: String, number: u64, target: String },
}

impl RetargetError {
    pub open spec fn text(&self) -> Seq<char> {
        match self {
            RetargetError::AlreadyMerged { repo, number, base, target } => repo@ + ": PR #"@ + decimal_seq(
                *number as nat,
            ) + " already merged into `"@ + base@ + "` and cannot be landed into `"@ + target@ + "`."@,
            RetargetError::NotOpen(e) => e.text(),
            RetargetError::NotRetargeted { repo, number, target } => repo@ + ": provider did not retarget PR #"@
                + decimal_seq(*number as nat) + " to `"@ + target@ + "`"@,
        }
    }

    pub fn message(&self) -> (out: String)
        ensures
            out@ == self.text(),
    {
        match self {
            RetargetError::AlreadyMerged { repo, number, base, target } => {
                let mut v = chars_of(repo.as_str());
                append_str(&mut v, ": PR #");
                push_decimal(&mut v, *number);
                append_str(&mut v, " already merged into `");
                append_str(&mut v, base.as_str());
                append_str(&mut v, "` and cannot be landed into `");
                append_str(&mut v, target.as_str());
                append_str(&mut v, "`.");
                string_from_chars(&v)
            },
            RetargetError::NotOpen(e) => e.message(),
            RetargetError::NotRetargeted { repo, number, target } => {
                let mut v = chars_of(repo.as_str());
                append_str(&mut v, ": provider did not retarget PR #");
                push_decimal(&mut v, *number);
                append_str(&mut v, " to `");
                append_str(&mut v, target.as_str());
                append_str(&mut v, "`");
                string_from_chars(&v)
            },
        }
    }
}

/// The base a PR is on: the one the host reports, else the recorded one.
pub open spec fn current_base(pr: PullRequest, recorded_base: Seq<char>) -> Seq<char> {
    match pr.base_ref_name {
        Some(b) => b@,
        None => recorded_base,
    }
}

/// Whether the review object of `repo_id` must be moved onto `target`:
/// `Ok(None)` when it already targets it, `Ok(Some(base))` with its current
/// base when it is to be retargeted. A merged PR, a draft and a PR that is
/// not open are refused.
pub fn retarget_from(repo_id: &str, pr: &PullRequest, recorded_base: &str, target: &str) -> (r: Result<Option<String>, RetargetError>)
    ensures
        ({
            let base = current_base(*pr, recorded_base@);
            if base == target@ {
                r == Ok::<Option<String>, RetargetError>(None)
            } else if pr.state matches Some(s) && s@ == "MERGED"@ {
                r matches Err(RetargetError::AlreadyMerged { repo, number, base: b, target: t }) && repo@ == repo_id@
                    && number == pr.number && b@ == base && t@ == target@
            } else if pr.is_draft != Some(true) && pr_state(*pr) == "OPEN"@ {
                r matches Ok(Some(b)) && b@ == base
            } else {
                r matches Err(RetargetError::NotOpen(e)) && (pr.is_draft == Some(true) ==> (e matches LandError::Draft {
                    repo,
                    number,
                } && repo@ == repo_id@ && number == pr.number)) && (pr.is_draft != Some(true)
                    ==> (e matches LandError::NotOpen { repo, number, state } && repo@ == repo_id@ && number
                    == pr.number && state@ == pr_state(*pr)))
            }
        }),
{
    let base = match &pr.base_ref_name {
        Some(b) => b.clone(),
        None => string_from_chars(&chars_of(recorded_base)),
    };
    if str_eq(base.as_str(), target) {
        return Ok(None);
    }
    let merged = match &pr.state {
        Some(s) => str_eq(s.as_str(), "MERGED"),
        None => false,
    };
    if merged {
        return Err(
            RetargetError::AlreadyMerged {
                repo: string_from_chars(&chars_of(repo_id)),
                number: pr.number,
                base,
                target: string_from_chars(&chars_of(target)),
            },
        );
    }
    match ensure_open_for_retarget(repo_id, pr) {
        Ok(()) => Ok(Some(base)),
        Err(e) => Err(RetargetError::NotOpen(e)),
    }
}

/// After asking the host to retarget, the refreshed PR must report the
/// target as its base.
pub fn confirm_retarget(repo_id: &str, number: u64, refreshed: &PullRequest, target: &str) -> (r: Result<(), RetargetError>)
    ensures
        r is Ok <==> (refreshed.base_ref_name matches Some(b) && b@ == target@),
        r matches Err(e) ==> e matches RetargetError::NotRetargeted { repo, number: n, target: t } && repo@
            == repo_id@ && n == number && t@ == target@,
{
    let ok = match &refreshed.base_ref_name {
        Some(b) => str_eq(b.as_str(), target),
        None => false,
    };
    if ok {
        Ok(())
    } else {
        Err(
            RetargetError::NotRetargeted {
                repo: string_from_chars(&chars_of(repo_id)),
                number,
                target: string_from_chars(&chars_of(target)),
            },
        )
    }
}

/// Some repo's recorded review object targets a branch other than the repo's
/// configured base.
pub open spec fn lands_on_alternate(b: ChangeGroup) -> bool {
    exists|i: int, p: int|
        0 <= i < b.repos@.len() && #[trigger] is_publication_index(b, b.repos@[i].id@, p)
            && b.publications@[p].base_branch@ != b.repos@[i].base_branch@
}

/// Whether the landing targeted an alternate review branch.
pub fn landed_on_alternate_target(b: &ChangeGroup) -> (r: bool)
    ensures
        r == lands_on_alternate(*b),
{
    let mut i: usize = 0;
    while i < b.repos.len()
        invariant
            i <= b.repos@.len(),
            forall|k: int, p: int|
                0 <= k < i && #[trigger] is_publication_index(*b, b.repos@[k].id@, p)
                    ==> b.publications@[p].base_branch@ == b.repos@[k].base_branch@,
        decreases b.repos.len() - i,
    {
        match publication_for_repo(b, b.repos[i].id.as_str()) {
            Some(p) => {
                proof {
                    assert(is_publication_index(*b, b.repos@[i as int].id@, p as int));
                    assert forall|q: int| #[trigger] is_publication_index(*b, b.repos@[i as int].id@, q) implies q
                        == p by {
                        if q < p {
                            assert(b.publications@[q].repo_id@ != b.repos@[i as int].id@);
                        } else if p < q {
                            assert(b.publications@[p as int].repo_id@ != b.repos@[i as int].id@);
                        }
                    }
                }
                if !str_eq(b.publications[p].base_branch.as_str(), b.repos[i].base_branch.as_str()) {
                    proof {
                        assert(is_publication_index(*b, b.repos@[i as int].id@, p as int));
                    }
                    return true;
                }
            },
            None => {
                proof {
                    assert forall|q: int| !#[trigger] is_publication_index(*b, b.repos@[i as int].id@, q) by {
                        if is_publication_index(*b, b.repos@[i as int].id@, q) {
                            assert(has_publication(*b, b.repos@[i as int].id@));
                        }
                    }
                }
            },
        }
        i += 1;
    }
    false
}

/// Whether and how a landed bundle is tagged known-good.
#[derive(Debug, Clone)]
pub enum TagDecision {
    /// Create this tag; warn first when the landing targeted an alternate
    /// review branch (the tag records the configured project bases).
    Tag { name: String, warn_alternate: bool },
    /// No tag; suggest tagging after verifying the project bases.
    Advise,
    /// No tag because the landing targeted an alternate review branch; warn
    /// when the tag would otherwise have been automatic.
    SkipAlternate { warn: bool },
}

/// Decides the tag of a landed bundle: an explicit `--tag [name]` always
/// tags (an empty name means the bundle id); the auto-tag default tags with
/// the bundle id. A landing onto an alternate review branch is only tagged
/// when asked explicitly.
pub fn tag_decision(bundle_id: &str, alternate: bool, tag: Option<String>, auto_tag: bool) -> (d: TagDecision)
    ensures
        match tag {
            Some(t) => d matches TagDecision::Tag { name, warn_alternate } && warn_alternate == alternate && name@
                == (if t@.len() == 0 {
                bundle_id@
            } else {
                t@
            }),
            None => if alternate {
                d matches TagDecision::SkipAlternate { warn } && warn == auto_tag
            } else if auto_tag {
                d matches TagDecision::Tag { name, warn_alternate } && !warn_alternate && name@ == bundle_id@
            } else {
                d matches TagDecision::Advise
            },
        },
{
    match tag {
        Some(t) => {
            let name = if t.as_str().unicode_len() == 0 {
                string_from_chars(&chars_of(bundle_id))
            } else {
                t
            };
            TagDecision::Tag { name, warn_alternate: alternate }
        },
        None => {
            if alternate {
                TagDecision::SkipAlternate { warn: auto_tag }
            } else if auto_tag {
                TagDecision::Tag { name: string_from_chars(&chars_of(bundle_id)), warn_alternate: false }
            } else {
                TagDecision::Advise
            }
        },
    }
}

} // verus!
