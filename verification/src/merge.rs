//! `knit merge` argument rules and compatibility bundles: which merge
//! operation a command line asks for, and what a compatibility bundle is
//! built from.
use vstd::prelude::*;

use crate::land_plan::repo_ids;
use crate::model::{ChangeGroup, CheckoutMode, RepoEntry, opt_view};
use crate::order::{sorted_strict, sorted_unique};
use crate::text::{append_str, contains_string, join_seq, join_strings, str_eq, string_from_chars, strings_view};

verus! {

/// The merge operation a command line selects.
#[derive(Debug, Clone)]
pub enum MergeAction {
    /// `knit merge status`: report the latest (or selected) merge run.
    ShowStatus,
    /// `knit merge show`: print a merge run as JSON.
    ShowRun,
    /// `knit merge push`: push the branches of a recorded merge run.
    PushRun,
    /// `knit merge --abort`.
    Abort,
    /// `knit merge --continue`.
    Continue,
    /// `knit merge <source> --into <target>`.
    Start { source: String, into: String },
}

/// Command lines `knit merge` refuses.
#[derive(Debug, Clone, Copy, PartialEq, Eq, Structural)]
pub enum MergeError {
    WrongModes,
    NeedsInto,
    StartOnlyFlags,
    NoCompatSources,
    AllReposNeedsProject,
}

/// Two source bundles give one repo id different paths.
#[derive(Debug, Clone)]
pub struct RepoPathConflict {
    pub repo: String,
    pub existing: String,
    pub other: String,
}

impl RepoPathConflict {
    pub open spec fn text(&self) -> Seq<char> {
        "Repo id "@ + self.repo@ + " points at different paths in source bundles: "@ + self.existing@ + " and "@ + self.other@ + "."@
    }

    pub fn message(&self) -> (out: String)
        ensures
            out@ == self.text(),
    {
        let mut v: Vec<char> = Vec::new();
        append_str(&mut v, "Repo id ");
        append_str(&mut v, self.repo.as_str());
        append_str(&mut v, " points at different paths in source bundles: ");
        append_str(&mut v, self.existing.as_str());
        append_str(&mut v, " and ");
        append_str(&mut v, self.other.as_str());
        append_str(&mut v, ".");
        string_from_chars(&v)
    }
}

impl MergeError {
    pub open spec fn text(self) -> Seq<char> {
        match self {
            MergeError::WrongModes => "Use `knit merge <source> --into <target>`, `knit merge --continue`, or `knit merge --abort`."@,
            MergeError::NeedsInto => "`knit merge <source>` requires --into <target>."@,
            MergeError::StartOnlyFlags => "--into and --manual are only valid when starting a merge run."@,
            MergeError::NoCompatSources => "Pass at least one source bundle for a compatibility bundle."@,
            MergeError::AllReposNeedsProject => "--all-repos is only valid with --project."@,
        }
    }

    pub fn message(self) -> (out: String)
        ensures
            out@ == self.text(),
    {
        let mut v: Vec<char> = Vec::new();
        match self {
            MergeError::WrongModes => append_str(
                &mut v,
                "Use `knit merge <source> --into <target>`, `knit merge --continue`, or `knit merge --abort`.",
            ),
            MergeError::NeedsInto => append_str(&mut v, "`knit merge <source>` requires --into <target>."),
            MergeError::StartOnlyFlags => append_str(&mut v, "--into and --manual are only valid when starting a merge run."),
            MergeError::NoCompatSources => append_str(&mut v, "Pass at least one source bundle for a compatibility bundle."),
            MergeError::AllReposNeedsProject => append_str(&mut v, "--all-repos is only valid with --project."),
        }
        string_from_chars(&v)
    }
}

/// Without `--into`, `source` names a report subcommand (`status`, `show`,
/// `push`).
pub open spec fn report_word(source: Option<Seq<char>>, into: Option<Seq<char>>, word: Seq<char>) -> bool {
    into is None && source == Some(word)
}

pub open spec fn is_report(source: Option<Seq<char>>, into: Option<Seq<char>>) -> bool {
    report_word(source, into, "status"@) || report_word(source, into, "show"@) || report_word(source, into, "push"@)
}

/// How many of the three modes (start, `--continue`, `--abort`) are selected.
pub open spec fn selected_modes(source: Option<Seq<char>>, continue_run: bool, abort: bool) -> int {
    (if source is Some { 1int } else { 0int }) + (if continue_run { 1int } else { 0int }) + (if abort { 1int } else { 0int })
}

pub open spec fn opt_seq(o: Option<&str>) -> Option<Seq<char>> {
    match o {
        Some(s) => Some(s@),
        None => None,
    }
}

/// The merge operation selected by `knit merge [source] [--into target]
/// [--manual] [--continue] [--abort]`: a report subcommand, else exactly one
/// of starting, continuing or aborting a run.
pub fn merge_command(source: Option<&str>, into: Option<&str>, manual: bool, continue_run: bool, abort: bool) -> (r: Result<MergeAction, MergeError>)
    ensures
        ({
            let s = opt_seq(source);
            let t = opt_seq(into);
            &&& report_word(s, t, "status"@) ==> (r matches Ok(MergeAction::ShowStatus))
            &&& report_word(s, t, "show"@) ==> (r matches Ok(MergeAction::ShowRun))
            &&& report_word(s, t, "push"@) ==> (r matches Ok(MergeAction::PushRun))
            &&& !is_report(s, t) ==> {
                if selected_modes(s, continue_run, abort) != 1 {
                    r == Err::<MergeAction, MergeError>(MergeError::WrongModes)
                } else if s is Some && t is None {
                    r == Err::<MergeAction, MergeError>(MergeError::NeedsInto)
                } else if s is None && (t is Some || manual) {
                    r == Err::<MergeAction, MergeError>(MergeError::StartOnlyFlags)
                } else if abort {
                    r matches Ok(MergeAction::Abort)
                } else if continue_run {
                    r matches Ok(MergeAction::Continue)
                } else {
                    r matches Ok(MergeAction::Start { source: a, into: b }) && s == Some(a@) && t == Some(b@)
                }
            }
        }),
{
    proof {
        reveal_strlit("status");
        reveal_strlit("show");
        reveal_strlit("push");
        assert("status"@.len() == 6 && "show"@.len() == 4 && "push"@.len() == 4);
        assert("show"@[1] == 'h' && "push"@[1] == 'u');
        assert("status"@ != "show"@ && "status"@ != "push"@ && "show"@ != "push"@);
    }
    if into.is_none() {
        if let Some(s) = source {
            if str_eq(s, "status") {
                return Ok(MergeAction::ShowStatus);
            }
            if str_eq(s, "show") {
                return Ok(MergeAction::ShowRun);
            }
            if str_eq(s, "push") {
                return Ok(MergeAction::PushRun);
            }
        }
    }
    let modes: u8 = (if source.is_some() { 1u8 } else { 0u8 }) + (if continue_run { 1u8 } else { 0u8 }) + (if abort { 1u8 } else { 0u8 });
    if modes != 1 {
        return Err(MergeError::WrongModes);
    }
    if source.is_some() && into.is_none() {
        return Err(MergeError::NeedsInto);
    }
    if source.is_none() && (into.is_some() || manual) {
        return Err(MergeError::StartOnlyFlags);
    }
    if abort {
        return Ok(MergeAction::Abort);
    }
    if continue_run {
        return Ok(MergeAction::Continue);
    }
    match (source, into) {
        (Some(a), Some(b)) => Ok(MergeAction::Start {
            source: string_from_chars(&crate::text::chars_of(a)),
            into: string_from_chars(&crate::text::chars_of(b)),
        }),
        _ => Err(MergeError::WrongModes),
    }
}

/// `s` without repeats, keeping first occurrences in order.
pub open spec fn dedup_seq(s: Seq<Seq<char>>) -> Seq<Seq<char>>
    decreases s.len(),
{
    if s.len() == 0 {
        Seq::empty()
    } else {
        let p = dedup_seq(s.drop_last());
        if p.contains(s.last()) {
            p
        } else {
            p.push(s.last())
        }
    }
}

/// The repo ids of the bundles, bundle after bundle.
pub open spec fn flat_repo_ids(bundles: Seq<ChangeGroup>) -> Seq<Seq<char>>
    decreases bundles.len(),
{
    if bundles.len() == 0 {
        Seq::empty()
    } else {
        flat_repo_ids(bundles.drop_last()) + repo_ids(bundles.last().repos@)
    }
}

/// The repo ids of the source bundles, each once, in first-seen order.
pub fn union_source_repo_ids(source_bundles: &Vec<ChangeGroup>) -> (out: Vec<String>)
    ensures
        strings_view(out@) == dedup_seq(flat_repo_ids(source_bundles@)),
{
    let mut out: Vec<String> = Vec::new();
    let mut b: usize = 0;
    while b < source_bundles.len()
        invariant
            b <= source_bundles@.len(),
            strings_view(out@) == dedup_seq(flat_repo_ids(source_bundles@.take(b as int))),
        decreases source_bundles.len() - b,
    {
        let repos = &source_bundles[b].repos;
        let ghost base = flat_repo_ids(source_bundles@.take(b as int));
        let mut r: usize = 0;
        proof {
            assert(repo_ids(repos@).take(0) =~= Seq::<Seq<char>>::empty());
            assert(base + repo_ids(repos@).take(0) =~= base);
        }
        while r < repos.len()
            invariant
                b < source_bundles@.len(),
                repos == source_bundles@[b as int].repos,
                r <= repos@.len(),
                strings_view(out@) == dedup_seq(base + repo_ids(repos@).take(r as int)),
            decreases repos.len() - r,
        {
            let ghost prev = base + repo_ids(repos@).take(r as int);
            let ghost next = base + repo_ids(repos@).take(r + 1);
            proof {
                assert(next.drop_last() =~= prev);
                assert(next.last() == repos@[r as int].id@);
            }
            if !contains_string(&out, &repos[r].id) {
                let ghost before = strings_view(out@);
                out.push(repos[r].id.clone());
                proof {
                    assert(strings_view(out@) =~= before.push(repos@[r as int].id@));
                }
            }
            r += 1;
        }
        proof {
            assert(repo_ids(repos@).take(repos@.len() as int) =~= repo_ids(repos@));
            assert(source_bundles@.take(b + 1).drop_last() =~= source_bundles@.take(b as int));
        }
        b += 1;
    }
    proof {
        assert(source_bundles@.take(source_bundles@.len() as int) =~= source_bundles@);
    }
    out
}

/// How a compatibility bundle is created.
#[derive(Debug, Clone)]
pub enum CompatPlan {
    /// Start a project bundle over the given repos (all of the project's
    /// repos when `all_repos`).
    Project { title: String, project_id: String, repo_ids: Vec<String>, all_repos: bool },
    /// Build the bundle from the union of the source bundles' repos.
    FromSources { title: String },
}

/// The title of a compatibility bundle: the given one, else `compat`
/// followed by the source names.
pub open spec fn compat_title(sources: Seq<Seq<char>>, title: Option<Seq<char>>) -> Seq<char> {
    match title {
        Some(t) => t,
        None => "compat "@ + join_seq(sources, " "@),
    }
}

/// How `knit bundle compat <sources>` proceeds, given the loaded source
/// bundles: under `--project` a project bundle over the sources' repos (or
/// all of the project's), otherwise a bundle built from the sources.
pub fn create_compat_bundle(sources: &Vec<String>, title: Option<&str>, project: Option<&str>, all_repos: bool, source_bundles: &Vec<ChangeGroup>) -> (r: Result<CompatPlan, MergeError>)
    ensures
        ({
            let t = compat_title(strings_view(sources@), opt_seq(title));
            if sources@.len() == 0 {
                r == Err::<CompatPlan, MergeError>(MergeError::NoCompatSources)
            } else {
                match project {
                    Some(p) => r matches Ok(CompatPlan::Project { title: a, project_id: q, repo_ids: ids, all_repos: all })
                        && a@ == t && q@ == p@ && all == all_repos
                        && strings_view(ids@) == (if all_repos { Seq::empty() } else { dedup_seq(flat_repo_ids(source_bundles@)) }),
                    None => if all_repos {
                        r == Err::<CompatPlan, MergeError>(MergeError::AllReposNeedsProject)
                    } else {
                        r matches Ok(CompatPlan::FromSources { title: a }) && a@ == t
                    },
                }
            }
        }),
{
    if sources.len() == 0 {
        return Err(MergeError::NoCompatSources);
    }
    let t = match title {
        Some(s) => string_from_chars(&crate::text::chars_of(s)),
        None => {
            let mut v: Vec<char> = Vec::new();
            append_str(&mut v, "compat ");
            let joined = join_strings(sources, " ");
            append_str(&mut v, joined.as_str());
            string_from_chars(&v)
        },
    };
    match project {
        Some(p) => {
            let ids = if all_repos {
                let e: Vec<String> = Vec::new();
                proof {
                    assert(strings_view(e@) =~= Seq::<Seq<char>>::empty());
                }
                e
            } else {
                union_source_repo_ids(source_bundles)
            };
            Ok(CompatPlan::Project {
                title: t,
                project_id: string_from_chars(&crate::text::chars_of(p)),
                repo_ids: ids,
                all_repos,
            })
        },
        None => {
            if all_repos {
                return Err(MergeError::AllReposNeedsProject);
            }
            Ok(CompatPlan::FromSources { title: t })
        },
    }
}

/// The repos of the bundles, bundle after bundle.
pub open spec fn flat_repos(bundles: Seq<ChangeGroup>) -> Seq<RepoEntry>
    decreases bundles.len(),
{
    if bundles.len() == 0 {
        Seq::empty()
    } else {
        flat_repos(bundles.drop_last()) + bundles.last().repos@
    }
}

/// Position `q` is the first repo of `f` with id `x`.
pub open spec fn first_of(f: Seq<RepoEntry>, x: Seq<char>, q: int) -> bool {
    0 <= q < f.len() && f[q].id@ == x && forall|j: int| 0 <= j < q ==> f[j].id@ != x
}

/// The repo at `p` has the id of an earlier repo whose path differs: the
/// first repo with that id.
pub open spec fn path_conflict_at(f: Seq<RepoEntry>, p: int) -> bool {
    exists|q: int| q < p && first_of(f, f[p].id@, q) && f[q].path@ != f[p].path@
}

/// `e` is the compatibility entry made from source repo `r`: its id, path,
/// remote, base and base commit, the new checkout mode, nothing else.
pub open spec fn compat_entry(e: RepoEntry, r: RepoEntry, mode: CheckoutMode) -> bool {
    &&& e.id@ == r.id@
    &&& e.path@ == r.path@
    &&& opt_view(e.remote) == opt_view(r.remote)
    &&& e.base_branch@ == r.base_branch@
    &&& e.checkout_mode == mode
    &&& opt_view(e.base_sha) == opt_view(r.base_sha)
    &&& e.feature_branch is None
    &&& e.worktree_path is None
    &&& e.head_sha is None
}

fn opt_string(o: &Option<String>) -> (r: Option<String>)
    ensures
        opt_view(r) == opt_view(*o),
{
    match o {
        Some(s) => Some(s.clone()),
        None => None,
    }
}

fn make_compat_entry(r: &RepoEntry, mode: CheckoutMode) -> (e: RepoEntry)
    ensures
        compat_entry(e, *r, mode),
{
    RepoEntry {
        id: r.id.clone(),
        path: r.path.clone(),
        remote: opt_string(&r.remote),
        base_branch: r.base_branch.clone(),
        checkout_mode: mode,
        base_sha: opt_string(&r.base_sha),
        feature_branch: None,
        worktree_path: None,
        head_sha: None,
    }
}

proof fn lemma_first_unique(f: Seq<RepoEntry>, x: Seq<char>, a: int, b: int)
    requires
        first_of(f, x, a),
        first_of(f, x, b),
    ensures
        a == b,
{
    if a < b {
        assert(f[a].id@ == x);
    } else if b < a {
        assert(f[b].id@ == x);
    }
}

/// Any occurrence of an id has a first occurrence at or before it.
proof fn lemma_some_first(f: Seq<RepoEntry>, x: Seq<char>, j: int)
    requires
        0 <= j < f.len(),
        f[j].id@ == x,
    ensures
        exists|q: int| q <= j && first_of(f, x, q),
    decreases j,
{
    if exists|i: int| 0 <= i < j && f[i].id@ == x {
        let i = choose|i: int| 0 <= i < j && f[i].id@ == x;
        lemma_some_first(f, x, i);
    } else {
        assert(first_of(f, x, j));
    }
}

/// The first position of `x` (by its characters) in `list`.
fn position_of(list: &Vec<String>, x: &String) -> (r: Option<usize>)
    ensures
        match r {
            Some(i) => i < list@.len() && list@[i as int]@ == x@ && forall|j: int| 0 <= j < i ==> list@[j]@ != x@,
            None => forall|j: int| 0 <= j < list@.len() ==> list@[j]@ != x@,
        },
{
    let mut k: usize = 0;
    while k < list.len()
        invariant
            k <= list@.len(),
            forall|j: int| 0 <= j < k ==> list@[j]@ != x@,
        decreases list.len() - k,
    {
        if list[k] == *x {
            return Some(k);
        }
        k += 1;
    }
    None
}

/// The copies of the bundles' repos, bundle after bundle.
fn flatten_repos(source_bundles: &Vec<ChangeGroup>) -> (out: Vec<RepoEntry>)
    ensures
        out@ == flat_repos(source_bundles@),
{
    let mut out: Vec<RepoEntry> = Vec::new();
    let mut b: usize = 0;
    while b < source_bundles.len()
        invariant
            b <= source_bundles@.len(),
            out@ == flat_repos(source_bundles@.take(b as int)),
        decreases source_bundles.len() - b,
    {
        let repos = &source_bundles[b].repos;
        let ghost base = out@;
        let mut r: usize = 0;
        while r < repos.len()
            invariant
                b < source_bundles@.len(),
                repos == source_bundles@[b as int].repos,
                r <= repos@.len(),
                out@ == base + repos@.take(r as int),
            decreases repos.len() - r,
        {
            out.push(crate::pr_body::copy_repo(&repos[r]));
            proof {
                assert(base + repos@.take(r + 1) =~= (base + repos@.take(r as int)).push(repos@[r as int]));
            }
            r += 1;
        }
        proof {
            assert(repos@.take(repos@.len() as int) =~= repos@);
            assert(source_bundles@.take(b + 1).drop_last() =~= source_bundles@.take(b as int));
            assert(source_bundles@.take(b + 1).last() == source_bundles@[b as int]);
        }
        b += 1;
    }
    proof {
        assert(source_bundles@.take(source_bundles@.len() as int) =~= source_bundles@);
    }
    out
}

/// The compatibility repos from the source repos `f` (see
/// `union_source_repos`).
fn union_of_repos(f: &Vec<RepoEntry>, mode: CheckoutMode) -> (r: Result<Vec<RepoEntry>, RepoPathConflict>)
    ensures
        match r {
            Ok(v) => (forall|p: int| 0 <= p < f@.len() ==> !path_conflict_at(f@, p))
                && sorted_strict(repo_ids(v@))
                && (forall|x: Seq<char>| repo_ids(v@).contains(x) <==> (exists|q: int| first_of(f@, x, q)))
                && (forall|k: int| 0 <= k < v@.len() ==> exists|q: int| first_of(f@, (#[trigger] v@[k]).id@, q) && compat_entry(v@[k], f@[q], mode)),
            Err(c) => exists|p: int, q: int|
                0 <= q < p < f@.len() && first_of(f@, f@[p].id@, q) && f@[q].path@ != f@[p].path@
                    && (forall|p2: int| 0 <= p2 < p ==> !path_conflict_at(f@, p2))
                    && c.repo@ == f@[p].id@ && c.existing@ == f@[q].path@ && c.other@ == f@[p].path@,
        },
{
    let mut firsts: Vec<RepoEntry> = Vec::new();
    let mut ids: Vec<String> = Vec::new();
    let mut p: usize = 0;
    while p < f.len()
        invariant
            p <= f@.len(),
            firsts@.len() == ids@.len(),
            forall|k: int| 0 <= k < ids@.len() ==> (#[trigger] ids@[k])@ == firsts@[k].id@,
            forall|k: int| 0 <= k < ids@.len() ==> exists|q: int| q < p && first_of(f@, (#[trigger] firsts@[k]).id@, q) && compat_entry(firsts@[k], f@[q], mode),
            forall|x: Seq<char>| strings_view(ids@).contains(x) <==> (exists|q: int| q < p && first_of(f@, x, q)),
            forall|p2: int| 0 <= p2 < p ==> !path_conflict_at(f@, p2),
        decreases f.len() - p,
    {
        let repo = &f[p];
        let ghost x = repo.id@;
        let pos = position_of(&ids, &repo.id);
        let k: usize = match pos {
            Some(i) => i,
            None => ids.len(),
        };
        if k < ids.len() {
            let ghost q = choose|q: int| q < p && first_of(f@, firsts@[k as int].id@, q) && compat_entry(firsts@[k as int], f@[q], mode);
            proof {
                assert(first_of(f@, x, q));
            }
            if firsts[k].path != repo.path {
                proof {
                    assert(path_conflict_at(f@, p as int));
                }
                return Err(RepoPathConflict {
                    repo: repo.id.clone(),
                    existing: firsts[k].path.clone(),
                    other: repo.path.clone(),
                });
            }
            proof {
                assert(!path_conflict_at(f@, p as int)) by {
                    if path_conflict_at(f@, p as int) {
                        let q2 = choose|q2: int| q2 < p && first_of(f@, x, q2) && f@[q2].path@ != f@[p as int].path@;
                        lemma_first_unique(f@, x, q, q2);
                    }
                }
                assert forall|y: Seq<char>| strings_view(ids@).contains(y) <==> (exists|q3: int| q3 < p + 1 && first_of(f@, y, q3)) by {
                    if exists|q3: int| q3 < p + 1 && first_of(f@, y, q3) {
                        let q3 = choose|q3: int| q3 < p + 1 && first_of(f@, y, q3);
                        if q3 == p {
                            assert(f@[q].id@ == x);
                            assert(false);
                        }
                    }
                }
            }
        } else {
            proof {
                assert(forall|j: int| 0 <= j < p ==> f@[j].id@ != x) by {
                    assert forall|j: int| 0 <= j < p implies f@[j].id@ != x by {
                        if f@[j].id@ == x {
                            lemma_some_first(f@, x, j);
                            let q = choose|q: int| q <= j && first_of(f@, x, q);
                            assert(strings_view(ids@).contains(x));
                            let m = choose|m: int| 0 <= m < strings_view(ids@).len() && strings_view(ids@)[m] == x;
                            assert(ids@[m]@ == x);
                        }
                    }
                }
                assert(first_of(f@, x, p as int));
            }
            let ghost old_ids = ids@;
            let ghost old_firsts = firsts@;
            ids.push(repo.id.clone());
            firsts.push(make_compat_entry(repo, mode));
            proof {
                assert(strings_view(ids@) =~= strings_view(old_ids).push(x));
                assert forall|kk: int| 0 <= kk < ids@.len() implies exists|q: int| q < p + 1 && first_of(f@, (#[trigger] firsts@[kk]).id@, q) && compat_entry(firsts@[kk], f@[q], mode) by {
                    if kk < old_ids.len() {
                        assert(firsts@[kk] == old_firsts[kk]);
                    } else {
                        assert(first_of(f@, firsts@[kk].id@, p as int));
                    }
                }
                assert forall|kk: int| 0 <= kk < ids@.len() implies (#[trigger] ids@[kk])@ == firsts@[kk].id@ by {
                    if kk < old_ids.len() {
                        assert(firsts@[kk] == old_firsts[kk]);
                        assert(ids@[kk] == old_ids[kk]);
                    }
                }
                assert forall|y: Seq<char>| strings_view(ids@).contains(y) <==> (exists|q3: int| q3 < p + 1 && first_of(f@, y, q3)) by {
                    if strings_view(ids@).contains(y) {
                        let m = choose|m: int| 0 <= m < strings_view(ids@).len() && strings_view(ids@)[m] == y;
                        if m < old_ids.len() {
                            assert(strings_view(old_ids)[m] == y);
                            assert(strings_view(old_ids).contains(y));
                        } else {
                            assert(first_of(f@, y, p as int));
                        }
                    }
                    if exists|q3: int| q3 < p + 1 && first_of(f@, y, q3) {
                        let q3 = choose|q3: int| q3 < p + 1 && first_of(f@, y, q3);
                        if q3 < p {
                            assert(strings_view(old_ids).contains(y));
                            let m = choose|m: int| 0 <= m < strings_view(old_ids).len() && strings_view(old_ids)[m] == y;
                            assert(strings_view(ids@)[m] == y);
                        } else {
                            assert(strings_view(ids@)[old_ids.len() as int] == y);
                        }
                    }
                }
                assert(!path_conflict_at(f@, p as int));
            }
        }
        p += 1;
    }
    let sorted = sorted_unique(&ids);
    let mut out: Vec<RepoEntry> = Vec::new();
    let mut k: usize = 0;
    while k < sorted.len()
        invariant
            k <= sorted@.len(),
            firsts@.len() == ids@.len(),
            forall|j: int| 0 <= j < ids@.len() ==> (#[trigger] ids@[j])@ == firsts@[j].id@,
            forall|j: int| 0 <= j < ids@.len() ==> exists|q: int| q < f@.len() && first_of(f@, (#[trigger] firsts@[j]).id@, q) && compat_entry(firsts@[j], f@[q], mode),
            forall|x: Seq<char>| strings_view(sorted@).contains(x) <==> strings_view(ids@).contains(x),
            out@.len() == k,
            forall|j: int| 0 <= j < k ==> (#[trigger] out@[j]).id@ == sorted@[j]@,
            forall|j: int| 0 <= j < k ==> exists|q: int| first_of(f@, (#[trigger] out@[j]).id@, q) && compat_entry(out@[j], f@[q], mode),
        decreases sorted.len() - k,
    {
        proof {
            assert(strings_view(sorted@)[k as int] == sorted@[k as int]@);
            assert(strings_view(sorted@).contains(sorted@[k as int]@));
        }
        let m: usize = match position_of(&ids, &sorted[k]) {
            Some(i) => i,
            None => ids.len(),
        };
        if m == ids.len() {
            proof {
                let j = choose|j: int| 0 <= j < strings_view(ids@).len() && strings_view(ids@)[j] == sorted@[k as int]@;
                assert(ids@[j]@ == sorted@[k as int]@);
            }
            return Ok(out);
        }
        let e = make_compat_entry(&firsts[m], mode);
        proof {
            let q = choose|q: int| q < f@.len() && first_of(f@, firsts@[m as int].id@, q) && compat_entry(firsts@[m as int], f@[q], mode);
            assert(compat_entry(e, f@[q], mode));
            assert(e.id@ == sorted@[k as int]@);
        }
        out.push(e);
        k += 1;
    }
    proof {
        assert(repo_ids(out@) =~= strings_view(sorted@));
    }
    Ok(out)
}

/// The repos of a compatibility bundle: one per repo id of the sources, in
/// id order, made from the first source repo with that id. A repo id that
/// the sources give different paths is refused, at its first such repo.
pub fn union_source_repos(source_bundles: &Vec<ChangeGroup>, mode: CheckoutMode) -> (r: Result<Vec<RepoEntry>, RepoPathConflict>)
    ensures
        ({
            let f = flat_repos(source_bundles@);
            match r {
                Ok(v) => (forall|p: int| 0 <= p < f.len() ==> !path_conflict_at(f, p))
                    && sorted_strict(repo_ids(v@))
                    && (forall|x: Seq<char>| repo_ids(v@).contains(x) <==> (exists|q: int| first_of(f, x, q)))
                    && (forall|k: int| 0 <= k < v@.len() ==> exists|q: int| first_of(f, (#[trigger] v@[k]).id@, q) && compat_entry(v@[k], f[q], mode)),
                Err(c) => exists|p: int, q: int|
                    0 <= q < p < f.len() && first_of(f, f[p].id@, q) && f[q].path@ != f[p].path@
                        && (forall|p2: int| 0 <= p2 < p ==> !path_conflict_at(f, p2))
                        && c.repo@ == f[p].id@ && c.existing@ == f[q].path@ && c.other@ == f[p].path@,
            }
        }),
{
    let f = flatten_repos(source_bundles);
    union_of_repos(&f, mode)
}

} // verus!
