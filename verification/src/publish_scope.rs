//! Which repos a publish run covers (repos with recorded work or a review
//! publication), per-repo base-branch overrides, and the scoped PR block.
use vstd::prelude::*;

use crate::model::{review_kind, is_review_kind, ChangeGroup, PublicationEntry, RepoEntry};
use crate::land_plan::{repo_ids, tracks_repo};
use crate::order::{lemma_lt_total, lemma_lt_transitive, sorted_strict, sorted_unique, str_less, str_lt};
use crate::pr_body::{block_text, copy_repo, render_block_for};
use crate::text::{
    append_str, str_eq, chars_of, contains_string, slugify_chars, slugify_seq, split_once_char,
    string_from_chars, strings_view, trim_chars, trim_seq,
};

verus! {

/// Why repos cannot be selected or base branches parsed for publishing.
#[derive(Debug)]
pub enum PublishError {
    SelectorsUnsupported,
    NoEligibleRepos { bundle: String },
    EmptyBase,
    BaseNeedsBothSides,
    MultipleDefaultBases,
    UnknownBaseRepo { repo: String },
    NoRepos,
    NoScopedWork { bundle: String },
    ScopeMatchesNoRepo { bundle: String },
    UnknownProvider { provider: String },
    NoReposOnProvider { provider: String },
}

impl PublishError {
    pub open spec fn text(&self) -> Seq<char> {
        match self {
            PublishError::SelectorsUnsupported => "Artifact-only publish does not support repo selectors yet. Use --all or omit selectors."@,
            PublishError::NoEligibleRepos { bundle } => "Bundle `"@ + bundle@
                + "` has no repos eligible for publishing. Pass --all to force publishing every repo."@,
            PublishError::EmptyBase => "--base cannot be empty."@,
            PublishError::BaseNeedsBothSides => "Use --base REPO=BRANCH with both sides present."@,
            PublishError::MultipleDefaultBases => "Pass only one default --base value, or use repeated --base REPO=BRANCH overrides."@,
            PublishError::UnknownBaseRepo { repo } => "--base references unknown repo `"@ + repo@ + "`."@,
            PublishError::NoRepos => "The resolved bundle has no repos. Run `knit bundle add <repo-path>` first."@,
            PublishError::NoScopedWork { bundle } => "No repos in bundle `"@ + bundle@
                + "` have recorded commits, repo changes, or publications. Pass repo selectors or --all to publish tracked repos anyway."@,
            PublishError::ScopeMatchesNoRepo { bundle } => "Bundle `"@ + bundle@
                + "` has recorded work, but none of it matches the tracked repos."@,
            PublishError::UnknownProvider { provider } => "unknown provider `"@ + provider@
                + "`. Known providers: github, gitlab, forgejo."@,
            PublishError::NoReposOnProvider { provider } => "No repos in the selected set are hosted on `"@ + provider@ + "`."@,
        }
    }

    pub fn message(&self) -> (out: String)
        ensures
            out@ == self.text(),
    {
        let mut v: Vec<char> = Vec::new();
        match self {
            PublishError::SelectorsUnsupported => append_str(
                &mut v,
                "Artifact-only publish does not support repo selectors yet. Use --all or omit selectors.",
            ),
            PublishError::NoEligibleRepos { bundle } => {
                append_str(&mut v, "Bundle `");
                append_str(&mut v, bundle.as_str());
                append_str(
                    &mut v,
                    "` has no repos eligible for publishing. Pass --all to force publishing every repo.",
                );
            },
            PublishError::EmptyBase => append_str(&mut v, "--base cannot be empty."),
            PublishError::BaseNeedsBothSides => append_str(&mut v, "Use --base REPO=BRANCH with both sides present."),
            PublishError::MultipleDefaultBases => append_str(
                &mut v,
                "Pass only one default --base value, or use repeated --base REPO=BRANCH overrides.",
            ),
            PublishError::UnknownBaseRepo { repo } => {
                append_str(&mut v, "--base references unknown repo `");
                append_str(&mut v, repo.as_str());
                append_str(&mut v, "`.");
            },
            PublishError::NoRepos => append_str(&mut v, "The resolved bundle has no repos. Run `knit bundle add <repo-path>` first."),
            PublishError::NoScopedWork { bundle } => {
                append_str(&mut v, "No repos in bundle `");
                append_str(&mut v, bundle.as_str());
                append_str(&mut v, "` have recorded commits, repo changes, or publications. Pass repo selectors or --all to publish tracked repos anyway.");
            },
            PublishError::ScopeMatchesNoRepo { bundle } => {
                append_str(&mut v, "Bundle `");
                append_str(&mut v, bundle.as_str());
                append_str(&mut v, "` has recorded work, but none of it matches the tracked repos.");
            },
            PublishError::UnknownProvider { provider } => {
                append_str(&mut v, "unknown provider `");
                append_str(&mut v, provider.as_str());
                append_str(&mut v, "`. Known providers: github, gitlab, forgejo.");
            },
            PublishError::NoReposOnProvider { provider } => {
                append_str(&mut v, "No repos in the selected set are hosted on `");
                append_str(&mut v, provider.as_str());
                append_str(&mut v, "`.");
            },
        }
        string_from_chars(&v)
    }
}

/// The bundle records work (a commit or an observed change) in repo `x`.
pub open spec fn in_recorded_work(b: ChangeGroup, x: Seq<char>) -> bool {
    ||| exists|g: int, c: int|
        0 <= g < b.commit_groups@.len() && 0 <= c < b.commit_groups@[g].commits@.len()
            && #[trigger] b.commit_groups@[g].commits@[c].repo_id@ == x
    ||| exists|n: int, c: int|
        0 <= n < b.nodes@.len() && 0 <= c < b.nodes@[n].commits@.len()
            && #[trigger] b.nodes@[n].commits@[c].repo_id@ == x
    ||| exists|n: int, c: int|
        0 <= n < b.nodes@.len() && 0 <= c < b.nodes@[n].repo_changes@.len()
            && #[trigger] b.nodes@[n].repo_changes@[c].repo_id@ == x
}

/// Repo `x` is in publishing scope: it has recorded work or a review
/// publication.
pub open spec fn in_publish_scope(b: ChangeGroup, x: Seq<char>) -> bool {
    ||| in_recorded_work(b, x)
    ||| exists|p: int|
        0 <= p < b.publications@.len() && review_kind(b.publications@[p].kind@)
            && #[trigger] b.publications@[p].repo_id@ == x
}

/// Adds `x` to `out` unless it is already there.
fn push_unique(out: &mut Vec<String>, x: &String)
    ensures
        forall|y: Seq<char>| strings_view(final(out)@).contains(y) <==> (strings_view(old(out)@).contains(y) || y == x@),
        strings_view(old(out)@).no_duplicates() ==> strings_view(final(out)@).no_duplicates(),
{
    if !contains_string(out, x) {
        let ghost prev = strings_view(out@);
        out.push(x.clone());
        proof {
            assert(strings_view(out@) =~= prev.push(x@));
            assert forall|y: Seq<char>| strings_view(out@).contains(y) implies (prev.contains(y) || y == x@) by {
                let i = choose|i: int| 0 <= i < strings_view(out@).len() && strings_view(out@)[i] == y;
                if i < prev.len() {
                    assert(prev[i] == y);
                }
            }
            assert forall|y: Seq<char>| (prev.contains(y) || y == x@) implies strings_view(out@).contains(y) by {
                if prev.contains(y) {
                    let i = choose|i: int| 0 <= i < prev.len() && prev[i] == y;
                    assert(strings_view(out@)[i] == y);
                } else {
                    assert(strings_view(out@)[prev.len() as int] == y);
                }
            }
        }
    }
}

/// The repos with recorded work, each once.
pub fn recorded_work_repo_ids(b: &ChangeGroup) -> (out: Vec<String>)
    ensures
        strings_view(out@).no_duplicates(),
        forall|x: Seq<char>| strings_view(out@).contains(x) <==> in_recorded_work(*b, x),
{
    let mut out: Vec<String> = Vec::new();
    let mut g: usize = 0;
    while g < b.commit_groups.len()
        invariant
            g <= b.commit_groups@.len(),
            strings_view(out@).no_duplicates(),
            forall|x: Seq<char>| strings_view(out@).contains(x) <==> exists|g2: int, c: int|
                0 <= g2 < g && 0 <= c < b.commit_groups@[g2].commits@.len()
                    && #[trigger] b.commit_groups@[g2].commits@[c].repo_id@ == x,
        decreases b.commit_groups.len() - g,
    {
        let commits = &b.commit_groups[g].commits;
        let mut c: usize = 0;
        while c < commits.len()
            invariant
                g < b.commit_groups@.len(),
                commits == b.commit_groups@[g as int].commits,
                c <= commits@.len(),
                strings_view(out@).no_duplicates(),
                forall|x: Seq<char>| strings_view(out@).contains(x) <==> (exists|g2: int, c2: int|
                    0 <= g2 < g && 0 <= c2 < b.commit_groups@[g2].commits@.len()
                        && #[trigger] b.commit_groups@[g2].commits@[c2].repo_id@ == x) || (exists|c2: int|
                    0 <= c2 < c && #[trigger] commits@[c2].repo_id@ == x),
            decreases commits.len() - c,
        {
            push_unique(&mut out, &commits[c].repo_id);
            c += 1;
        }
        g += 1;
    }
    let mut n: usize = 0;
    while n < b.nodes.len()
        invariant
            n <= b.nodes@.len(),
            strings_view(out@).no_duplicates(),
            forall|x: Seq<char>| strings_view(out@).contains(x) <==> ((exists|g2: int, c: int|
                0 <= g2 < b.commit_groups@.len() && 0 <= c < b.commit_groups@[g2].commits@.len()
                    && #[trigger] b.commit_groups@[g2].commits@[c].repo_id@ == x) || (exists|n2: int, c: int|
                0 <= n2 < n && 0 <= c < b.nodes@[n2].commits@.len() && #[trigger] b.nodes@[n2].commits@[c].repo_id@
                    == x) || (exists|n2: int, c: int|
                0 <= n2 < n && 0 <= c < b.nodes@[n2].repo_changes@.len()
                    && #[trigger] b.nodes@[n2].repo_changes@[c].repo_id@ == x)),
        decreases b.nodes.len() - n,
    {
        let node = &b.nodes[n];
        let mut c: usize = 0;
        while c < node.commits.len()
            invariant
                n < b.nodes@.len(),
                *node == b.nodes@[n as int],
                c <= node.commits@.len(),
                strings_view(out@).no_duplicates(),
                forall|x: Seq<char>| strings_view(out@).contains(x) <==> ((exists|g2: int, c2: int|
                    0 <= g2 < b.commit_groups@.len() && 0 <= c2 < b.commit_groups@[g2].commits@.len()
                        && #[trigger] b.commit_groups@[g2].commits@[c2].repo_id@ == x) || (exists|n2: int, c2: int|
                    0 <= n2 < n && 0 <= c2 < b.nodes@[n2].commits@.len()
                        && #[trigger] b.nodes@[n2].commits@[c2].repo_id@ == x) || (exists|n2: int, c2: int|
                    0 <= n2 < n && 0 <= c2 < b.nodes@[n2].repo_changes@.len()
                        && #[trigger] b.nodes@[n2].repo_changes@[c2].repo_id@ == x) || (exists|c2: int|
                    0 <= c2 < c && #[trigger] node.commits@[c2].repo_id@ == x)),
            decreases node.commits.len() - c,
        {
            push_unique(&mut out, &node.commits[c].repo_id);
            c += 1;
        }
        let mut c: usize = 0;
        while c < node.repo_changes.len()
            invariant
                n < b.nodes@.len(),
                *node == b.nodes@[n as int],
                c <= node.repo_changes@.len(),
                strings_view(out@).no_duplicates(),
                forall|x: Seq<char>| strings_view(out@).contains(x) <==> ((exists|g2: int, c2: int|
                    0 <= g2 < b.commit_groups@.len() && 0 <= c2 < b.commit_groups@[g2].commits@.len()
                        && #[trigger] b.commit_groups@[g2].commits@[c2].repo_id@ == x) || (exists|n2: int, c2: int|
                    0 <= n2 < n + 1 && 0 <= c2 < b.nodes@[n2].commits@.len()
                        && #[trigger] b.nodes@[n2].commits@[c2].repo_id@ == x) || (exists|n2: int, c2: int|
                    0 <= n2 < n && 0 <= c2 < b.nodes@[n2].repo_changes@.len()
                        && #[trigger] b.nodes@[n2].repo_changes@[c2].repo_id@ == x) || (exists|c2: int|
                    0 <= c2 < c && #[trigger] node.repo_changes@[c2].repo_id@ == x)),
            decreases node.repo_changes.len() - c,
        {
            push_unique(&mut out, &node.repo_changes[c].repo_id);
            c += 1;
        }
        n += 1;
    }
    out
}

/// The repos in publishing scope, each once, in increasing order.
pub fn publish_scope_repo_ids(b: &ChangeGroup) -> (out: Vec<String>)
    ensures
        sorted_strict(strings_view(out@)),
        forall|x: Seq<char>| strings_view(out@).contains(x) <==> in_publish_scope(*b, x),
{
    let ids = scope_ids(b);
    sorted_unique(&ids)
}

/// The repos in publishing scope, each once, in the order first met.
fn scope_ids(b: &ChangeGroup) -> (out: Vec<String>)
    ensures
        strings_view(out@).no_duplicates(),
        forall|x: Seq<char>| strings_view(out@).contains(x) <==> in_publish_scope(*b, x),
{
    let mut out = recorded_work_repo_ids(b);
    let mut p: usize = 0;
    while p < b.publications.len()
        invariant
            p <= b.publications@.len(),
            strings_view(out@).no_duplicates(),
            forall|x: Seq<char>| strings_view(out@).contains(x) <==> (in_recorded_work(*b, x) || exists|p2: int|
                0 <= p2 < p && review_kind(b.publications@[p2].kind@) && #[trigger] b.publications@[p2].repo_id@
                    == x),
        decreases b.publications.len() - p,
    {
        let ghost prev = strings_view(out@);
        assert(forall|x: Seq<char>| prev.contains(x) <==> (in_recorded_work(*b, x) || exists|p2: int|
            0 <= p2 < p && review_kind(b.publications@[p2].kind@) && #[trigger] b.publications@[p2].repo_id@
                == x));
        let rk = is_review_kind(b.publications[p].kind.as_str());
        if rk {
            push_unique(&mut out, &b.publications[p].repo_id);
        }
        proof {
            assert forall|x: Seq<char>| strings_view(out@).contains(x) <==> (in_recorded_work(*b, x) || exists|p2: int|
                0 <= p2 < p + 1 && review_kind(b.publications@[p2].kind@) && #[trigger] b.publications@[p2].repo_id@
                    == x) by {
                if exists|p2: int| 0 <= p2 < p + 1 && review_kind(b.publications@[p2].kind@)
                    && #[trigger] b.publications@[p2].repo_id@ == x {
                    let p2 = choose|p2: int| 0 <= p2 < p + 1 && review_kind(b.publications@[p2].kind@)
                        && #[trigger] b.publications@[p2].repo_id@ == x;
                    if p2 < p {
                        assert(exists|p3: int| 0 <= p3 < p && review_kind(b.publications@[p3].kind@)
                            && #[trigger] b.publications@[p3].repo_id@ == x);
                        assert(prev.contains(x));
                    }
                }
            }
        }
        p += 1;
    }
    out
}

/// The bundle's repos that are in publishing scope, in order.
pub open spec fn scoped_repos(b: ChangeGroup, repos: Seq<RepoEntry>) -> Seq<RepoEntry>
    decreases repos.len(),
{
    if repos.len() == 0 {
        Seq::empty()
    } else {
        let p = scoped_repos(b, repos.drop_last());
        if in_publish_scope(b, repos.last().id@) {
            p.push(repos.last())
        } else {
            p
        }
    }
}

/// The managed block listing the repos in publishing scope: each with its
/// PR URL (marking the current repo's PR), or `pending`.
pub fn render_scoped_knit_pr_block(bundle: &ChangeGroup, current_repo_id: Option<&str>) -> (out: String)
    ensures
        out@ == block_text(*bundle, match current_repo_id {
            Some(c) => Some(c@),
            None => None,
        }, scoped_repos(*bundle, bundle.repos@)),
{
    let scope = publish_scope_repo_ids(bundle);
    let mut repos: Vec<RepoEntry> = Vec::new();
    let mut i: usize = 0;
    while i < bundle.repos.len()
        invariant
            i <= bundle.repos@.len(),
            forall|x: Seq<char>| strings_view(scope@).contains(x) <==> in_publish_scope(*bundle, x),
            repos@ == scoped_repos(*bundle, bundle.repos@.take(i as int)),
        decreases bundle.repos.len() - i,
    {
        proof {
            assert(bundle.repos@.take(i + 1).drop_last() =~= bundle.repos@.take(i as int));
        }
        if contains_string(&scope, &bundle.repos[i].id) {
            let r = copy_repo(&bundle.repos[i]);
            repos.push(r);
        }
        i += 1;
    }
    proof {
        assert(bundle.repos@.take(bundle.repos@.len() as int) =~= bundle.repos@);
    }
    render_block_for(bundle, current_repo_id, &repos)
}

pub open spec fn scoped_positions(b: ChangeGroup, n: int) -> Seq<int>
    decreases n,
{
    if n <= 0 {
        Seq::empty()
    } else {
        let p = scoped_positions(b, n - 1);
        if in_publish_scope(b, b.repos@[n - 1].id@) {
            p.push(n - 1)
        } else {
            p
        }
    }
}

/// Positions of the repos to publish from a bundle artifact: the repos in
/// publishing scope. Repo selectors are not supported there.
pub fn resolve_publish_repo_indexes_for_bundle(bundle: &ChangeGroup, selectors: &Vec<String>, all: bool) -> (r: Result<Vec<usize>, PublishError>)
    ensures
        match r {
            Ok(v) => selectors@.len() == 0 && v@.len() > 0 && v@.map_values(|x: usize| x as int) == scoped_positions(*bundle, bundle.repos@.len() as int),
            Err(PublishError::SelectorsUnsupported) => selectors@.len() > 0,
            Err(PublishError::NoEligibleRepos { bundle: id }) => selectors@.len() == 0 && scoped_positions(*bundle, bundle.repos@.len() as int).len() == 0 && id@ == bundle.id@,
            Err(_) => false,
        },
{
    if selectors.len() > 0 {
        return Err(PublishError::SelectorsUnsupported);
    }
    let scope = publish_scope_repo_ids(bundle);
    let mut out: Vec<usize> = Vec::new();
    let mut i: usize = 0;
    while i < bundle.repos.len()
        invariant
            i <= bundle.repos@.len(),
            forall|x: Seq<char>| strings_view(scope@).contains(x) <==> in_publish_scope(*bundle, x),
            out@.map_values(|x: usize| x as int) == scoped_positions(*bundle, i as int),
        decreases bundle.repos.len() - i,
    {
        let ghost prev = out@;
        if contains_string(&scope, &bundle.repos[i].id) {
            out.push(i);
            proof {
                assert(out@.map_values(|x: usize| x as int) =~= prev.map_values(|x: usize| x as int).push(i as int));
            }
        }
        i += 1;
    }
    if out.len() == 0 {
        proof {
            assert(out@.map_values(|x: usize| x as int).len() == 0);
        }
        return Err(PublishError::NoEligibleRepos { bundle: bundle.id.clone() });
    }
    Ok(out)
}

/// The canonical id of a code host named by id or alias (`codeberg` and
/// `gitea` are served by the Forgejo adapter).
pub open spec fn canonical_provider(p: Seq<char>) -> Option<Seq<char>> {
    if p == "github"@ {
        Some("github"@)
    } else if p == "gitlab"@ {
        Some("gitlab"@)
    } else if p == "forgejo"@ || p == "codeberg"@ || p == "gitea"@ {
        Some("forgejo"@)
    } else {
        None
    }
}

fn canonical_provider_exec(p: &str) -> (r: Option<&'static str>)
    ensures
        match r {
            Some(c) => canonical_provider(p@) == Some(c@),
            None => canonical_provider(p@) is None,
        },
{
    if str_eq(p, "github") {
        Some("github")
    } else if str_eq(p, "gitlab") {
        Some("gitlab")
    } else if str_eq(p, "forgejo") || str_eq(p, "codeberg") || str_eq(p, "gitea") {
        Some("forgejo")
    } else {
        None
    }
}

/// The indexes of `indexes` whose repo is hosted on `want`, in order.
pub open spec fn hosted_on(indexes: Seq<usize>, hosts: Seq<String>, want: Seq<char>) -> Seq<usize>
    decreases indexes.len(),
{
    if indexes.len() == 0 {
        Seq::empty()
    } else {
        let p = hosted_on(indexes.drop_last(), hosts, want);
        if hosts[indexes.last() as int]@ == want {
            p.push(indexes.last())
        } else {
            p
        }
    }
}

/// Narrows repo indexes to the repos hosted on `provider`; `hosts` holds,
/// per bundle repo, the id of the code host it is on. Without a provider
/// the indexes pass unchanged.
pub fn filter_indexes_by_provider(indexes: Vec<usize>, provider: Option<&str>, hosts: &Vec<String>) -> (r: Result<Vec<usize>, PublishError>)
    requires
        forall|k: int| 0 <= k < indexes@.len() ==> #[trigger] indexes@[k] < hosts@.len(),
    ensures
        match provider {
            None => r matches Ok(v) && v@ == indexes@,
            Some(p) => match canonical_provider(p@) {
                None => r matches Err(PublishError::UnknownProvider { provider: q }) && q@ == p@,
                Some(want) => if hosted_on(indexes@, hosts@, want).len() == 0 {
                    r matches Err(PublishError::NoReposOnProvider { provider: q }) && q@ == want
                } else {
                    r matches Ok(v) && v@ == hosted_on(indexes@, hosts@, want)
                },
            },
        },
{
    let requested = match provider {
        None => return Ok(indexes),
        Some(p) => p,
    };
    let want = match canonical_provider_exec(requested) {
        Some(w) => w,
        None => return Err(PublishError::UnknownProvider { provider: string_from_chars(&chars_of(requested)) }),
    };
    let mut out: Vec<usize> = Vec::new();
    let mut k: usize = 0;
    while k < indexes.len()
        invariant
            k <= indexes@.len(),
            forall|j: int| 0 <= j < indexes@.len() ==> #[trigger] indexes@[j] < hosts@.len(),
            out@ == hosted_on(indexes@.take(k as int), hosts@, want@),
        decreases indexes.len() - k,
    {
        proof {
            assert(indexes@.take(k + 1).drop_last() =~= indexes@.take(k as int));
            assert(indexes@.take(k + 1).last() == indexes@[k as int]);
        }
        let i = indexes[k];
        if str_eq(hosts[i].as_str(), want) {
            out.push(i);
        }
        k += 1;
    }
    proof {
        assert(indexes@.take(indexes@.len() as int) =~= indexes@);
    }
    if out.len() == 0 {
        return Err(PublishError::NoReposOnProvider { provider: string_from_chars(&chars_of(want)) });
    }
    Ok(out)
}

/// The repos a publish run covers: the ones named by selectors or `--all`
/// (`selected`, when given), else the bundle repos in publishing scope.
pub fn resolve_publish_repo_indexes(bundle: &ChangeGroup, selected: Option<&Vec<usize>>) -> (r: Result<Vec<usize>, PublishError>)
    ensures
        match selected {
            Some(v) => r matches Ok(w) && w@ == v@,
            None => {
                let pos = scoped_positions(*bundle, bundle.repos@.len() as int);
                if !(exists|x: Seq<char>| in_publish_scope(*bundle, x)) {
                    r matches Err(PublishError::NoScopedWork { bundle: id }) && id@ == bundle.id@
                } else if pos.len() == 0 {
                    r matches Err(PublishError::ScopeMatchesNoRepo { bundle: id }) && id@ == bundle.id@
                } else {
                    r matches Ok(w) && w@.map_values(|x: usize| x as int) == pos
                }
            },
        },
{
    if let Some(v) = selected {
        let mut w: Vec<usize> = Vec::new();
        let mut k: usize = 0;
        while k < v.len()
            invariant
                k <= v@.len(),
                w@ == v@.take(k as int),
            decreases v.len() - k,
        {
            w.push(v[k]);
            proof {
                assert(v@.take(k + 1) =~= v@.take(k as int).push(v@[k as int]));
            }
            k += 1;
        }
        proof {
            assert(v@.take(v@.len() as int) =~= v@);
        }
        return Ok(w);
    }
    let scope = publish_scope_repo_ids(bundle);
    if scope.len() == 0 {
        proof {
            assert forall|x: Seq<char>| !in_publish_scope(*bundle, x) by {
                if in_publish_scope(*bundle, x) {
                    assert(strings_view(scope@).contains(x));
                }
            }
        }
        return Err(PublishError::NoScopedWork { bundle: bundle.id.clone() });
    }
    proof {
        assert(strings_view(scope@)[0] == scope@[0]@);
        assert(strings_view(scope@).contains(scope@[0]@));
        assert(in_publish_scope(*bundle, scope@[0]@));
    }
    let mut out: Vec<usize> = Vec::new();
    let mut i: usize = 0;
    while i < bundle.repos.len()
        invariant
            i <= bundle.repos@.len(),
            forall|x: Seq<char>| strings_view(scope@).contains(x) <==> in_publish_scope(*bundle, x),
            out@.map_values(|x: usize| x as int) == scoped_positions(*bundle, i as int),
        decreases bundle.repos.len() - i,
    {
        let ghost prev = out@;
        if contains_string(&scope, &bundle.repos[i].id) {
            out.push(i);
            proof {
                assert(out@.map_values(|x: usize| x as int) =~= prev.map_values(|x: usize| x as int).push(i as int));
            }
        }
        i += 1;
    }
    if out.len() == 0 {
        proof {
            assert(out@.map_values(|x: usize| x as int).len() == 0);
        }
        return Err(PublishError::ScopeMatchesNoRepo { bundle: bundle.id.clone() });
    }
    Ok(out)
}

/// The repos whose publications `knit publish sync` refreshes: those
/// `resolve_publish_repo_indexes` picks, narrowed to `provider` when one is
/// named. `hosts` holds, per bundle repo, the id of its code host.
pub fn sync_publications(bundle: &ChangeGroup, selected: Option<&Vec<usize>>, provider: Option<&str>, hosts: &Vec<String>) -> (r: Result<Vec<usize>, PublishError>)
    requires
        hosts@.len() == bundle.repos@.len(),
        selected matches Some(v) ==> forall|k: int| 0 <= k < v@.len() ==> #[trigger] v@[k] < bundle.repos@.len(),
    ensures
        bundle.repos@.len() == 0 ==> r matches Err(PublishError::NoRepos),
        bundle.repos@.len() > 0 ==> match resolve_spec(*bundle, selected) {
            None => r matches Err(e) && !(e matches PublishError::NoRepos),
            Some(idx) => match provider {
                None => r matches Ok(v) && v@ == idx,
                Some(p) => match canonical_provider(p@) {
                    None => r matches Err(PublishError::UnknownProvider { provider: q }) && q@ == p@,
                    Some(want) => if hosted_on(idx, hosts@, want).len() == 0 {
                        r matches Err(PublishError::NoReposOnProvider { provider: q }) && q@ == want
                    } else {
                        r matches Ok(v) && v@ == hosted_on(idx, hosts@, want)
                    },
                },
            },
        },
{
    if bundle.repos.len() == 0 {
        return Err(PublishError::NoRepos);
    }
    let indexes = match resolve_publish_repo_indexes(bundle, selected) {
        Ok(v) => v,
        Err(e) => return Err(e),
    };
    proof {
        if selected is None {
            assert forall|k: int| 0 <= k < indexes@.len() implies #[trigger] indexes@[k] < hosts@.len() by {
                lemma_scoped_positions_bounded(*bundle, bundle.repos@.len() as int);
                assert(indexes@.map_values(|x: usize| x as int)[k] == indexes@[k] as int);
            }
            assert(indexes@.map_values(|x: usize| x as int) == scoped_positions(*bundle, bundle.repos@.len() as int));
            lemma_positions_as_usize(indexes@, *bundle);
        }
    }
    filter_indexes_by_provider(indexes, provider, hosts)
}

/// The repo positions `resolve_publish_repo_indexes` yields, when it
/// succeeds.
pub open spec fn resolve_spec(bundle: ChangeGroup, selected: Option<&Vec<usize>>) -> Option<Seq<usize>> {
    match selected {
        Some(v) => Some(v@),
        None => {
            let pos = scoped_positions(bundle, bundle.repos@.len() as int);
            if !(exists|x: Seq<char>| in_publish_scope(bundle, x)) || pos.len() == 0 {
                None
            } else {
                Some(pos.map_values(|x: int| x as usize))
            }
        },
    }
}

proof fn lemma_scoped_positions_bounded(b: ChangeGroup, n: int)
    requires
        n <= b.repos@.len(),
    ensures
        forall|k: int| 0 <= k < scoped_positions(b, n).len() ==> 0 <= #[trigger] scoped_positions(b, n)[k] < n,
    decreases n,
{
    if n > 0 {
        lemma_scoped_positions_bounded(b, n - 1);
        let p = scoped_positions(b, n - 1);
        let s = scoped_positions(b, n);
        assert forall|k: int| 0 <= k < s.len() implies 0 <= #[trigger] s[k] < n by {
            if k < p.len() {
                assert(s[k] == p[k]);
            }
        }
    }
}

proof fn lemma_positions_as_usize(v: Seq<usize>, b: ChangeGroup)
    requires
        v.map_values(|x: usize| x as int) == scoped_positions(b, b.repos@.len() as int),
    ensures
        v == scoped_positions(b, b.repos@.len() as int).map_values(|x: int| x as usize),
{
    let s = scoped_positions(b, b.repos@.len() as int);
    assert(v.len() == s.len());
    assert forall|k: int| 0 <= k < v.len() implies v[k] == s.map_values(|x: int| x as usize)[k] by {
        assert(v.map_values(|x: usize| x as int)[k] == v[k] as int);
    }
    assert(v =~= s.map_values(|x: int| x as usize));
}

/// Base-branch overrides from repeated `--base` flags: one default and/or
/// per-repo `REPO=BRANCH` entries (repo ids slugified; a later entry for the
/// same repo replaces an earlier one).
#[derive(Debug)]
pub struct BaseOverrides {
    pub default: Option<String>,
    pub per_repo: Vec<(String, String)>,
}

pub open spec fn pairs_v(v: Seq<(String, String)>) -> Seq<(Seq<char>, Seq<char>)> {
    v.map_values(|p: (String, String)| (p.0@, p.1@))
}

/// Index of the entry keyed `k`, or -1.
pub open spec fn key_index(pairs: Seq<(Seq<char>, Seq<char>)>, k: Seq<char>) -> int
    decreases pairs.len(),
{
    if pairs.len() == 0 {
        -1
    } else if pairs.last().0 == k {
        pairs.len() - 1
    } else {
        key_index(pairs.drop_last(), k)
    }
}

/// `pairs` with `k` set to `v`.
pub open spec fn map_set(pairs: Seq<(Seq<char>, Seq<char>)>, k: Seq<char>, v: Seq<char>) -> Seq<(Seq<char>, Seq<char>)> {
    let i = key_index(pairs, k);
    if i >= 0 {
        pairs.update(i, (k, v))
    } else {
        pairs.push((k, v))
    }
}

/// The state after parsing `values`: the default and the per-repo entries,
/// or the code of the first error (1 empty value, 2 a missing side, 3 a
/// second default).
pub open spec fn parse_bases(values: Seq<Seq<char>>) -> Result<(Option<Seq<char>>, Seq<(Seq<char>, Seq<char>)>), int>
    decreases values.len(),
{
    if values.len() == 0 {
        Ok((None, Seq::empty()))
    } else {
        match parse_bases(values.drop_last()) {
            Err(c) => Err(c),
            Ok((d, m)) => {
                let v = trim_seq(values.last());
                if v.len() == 0 {
                    Err(1)
                } else if v.contains('=') {
                    let i = choose|i: int| 0 <= i < v.len() && v[i] == '=' && forall|j: int| 0 <= j < i ==> v[j] != '=';
                    let r = trim_seq(v.take(i));
                    let br = trim_seq(v.skip(i + 1));
                    if r.len() == 0 || br.len() == 0 {
                        Err(2)
                    } else {
                        Ok((d, map_set(m, slugify_seq(r), br)))
                    }
                } else if d is Some {
                    Err(3)
                } else {
                    Ok((Some(v), m))
                }
            },
        }
    }
}

/// An error in a prefix of the values is the error of all of them.
proof fn lemma_parse_err_prefix(values: Seq<Seq<char>>, k: int)
    requires
        0 <= k <= values.len(),
        parse_bases(values.take(k)) is Err,
    ensures
        parse_bases(values) == parse_bases(values.take(k)),
    decreases values.len() - k,
{
    if k < values.len() {
        assert(values.take(k + 1).drop_last() =~= values.take(k));
        lemma_parse_err_prefix(values, k + 1);
    } else {
        assert(values.take(k) =~= values);
    }
}

pub open spec fn error_code(e: PublishError) -> int {
    match e {
        PublishError::EmptyBase => 1,
        PublishError::BaseNeedsBothSides => 2,
        PublishError::MultipleDefaultBases => 3,
        _ => 0,
    }
}

fn find_pair(pairs: &Vec<(String, String)>, k: &Vec<char>) -> (r: Option<usize>)
    ensures
        match r {
            Some(i) => i as int == key_index(pairs_v(pairs@), k@) && i < pairs@.len(),
            None => key_index(pairs_v(pairs@), k@) == -1,
        },
{
    let mut i = pairs.len();
    proof {
        assert(pairs_v(pairs@).take(pairs@.len() as int) =~= pairs_v(pairs@));
    }
    while i > 0
        invariant
            i <= pairs@.len(),
            key_index(pairs_v(pairs@), k@) == key_index(pairs_v(pairs@).take(i as int), k@),
        decreases i,
    {
        let kc = chars_of(pairs[i - 1].0.as_str());
        proof {
            assert(pairs_v(pairs@).take(i as int).drop_last() =~= pairs_v(pairs@).take(i - 1));
        }
        if crate::text::chars_eq(&kc, k) {
            return Some(i - 1);
        }
        i -= 1;
    }
    None
}

impl BaseOverrides {
    /// Parses repeated `--base` values.
    pub fn parse(values: &Vec<String>) -> (r: Result<BaseOverrides, PublishError>)
        ensures
            match r {
                Ok(o) => parse_bases(strings_view(values@)) == Ok::<(Option<Seq<char>>, Seq<(Seq<char>, Seq<char>)>), int>((
                    match o.default {
                        Some(d) => Some(d@),
                        None => None,
                    },
                    pairs_v(o.per_repo@),
                )),
                Err(e) => error_code(e) != 0 && parse_bases(strings_view(values@)) == Err::<(Option<Seq<char>>, Seq<(Seq<char>, Seq<char>)>), int>(error_code(e)),
            },
    {
        let mut default: Option<String> = None;
        let mut per_repo: Vec<(String, String)> = Vec::new();
        let mut i: usize = 0;
        proof {
            assert(strings_view(values@).take(0) =~= Seq::<Seq<char>>::empty());
            assert(pairs_v(per_repo@) =~= Seq::<(Seq<char>, Seq<char>)>::empty());
        }
        while i < values.len()
            invariant
                i <= values@.len(),
                parse_bases(strings_view(values@).take(i as int)) == Ok::<(Option<Seq<char>>, Seq<(Seq<char>, Seq<char>)>), int>((
                    match default {
                        Some(d) => Some(d@),
                        None => None,
                    },
                    pairs_v(per_repo@),
                )),
            decreases values.len() - i,
        {
            proof {
                assert(strings_view(values@).take(i + 1).drop_last() =~= strings_view(values@).take(i as int));
                assert(strings_view(values@).take(i + 1).last() == values@[i as int]@);
            }
            let raw = chars_of(values[i].as_str());
            let v = trim_chars(&raw);
            if v.len() == 0 {
                proof {
                    lemma_parse_err_prefix(strings_view(values@), i + 1);
                }
                return Err(PublishError::EmptyBase);
            }
            match split_once_char(&v, '=') {
                Some((a, b)) => {
                    let r = trim_chars(&a);
                    let br = trim_chars(&b);
                    proof {
                        assert(v@.contains('='));
                        let c = choose|c: int| 0 <= c < v@.len() && v@[c] == '=' && forall|j: int| 0 <= j < c ==> v@[j] != '=';
                        let w = choose|w: int| 0 <= w < v@.len() && v@[w] == '=' && (forall|j: int| 0 <= j < w ==> v@[j] != '=') && a@ == v@.take(w) && b@ == v@.skip(w + 1);
                        if c < w {
                            assert(v@[c] != '=');
                        } else if w < c {
                            assert(v@[w] != '=');
                        }
                    }
                    if r.len() == 0 || br.len() == 0 {
                        proof {
                            lemma_parse_err_prefix(strings_view(values@), i + 1);
                        }
                        return Err(PublishError::BaseNeedsBothSides);
                    }
                    let key = slugify_chars(&r);
                    let ghost before = pairs_v(per_repo@);
                    match find_pair(&per_repo, &key) {
                        Some(j) => {
                            per_repo.set(j, (string_from_chars(&key), string_from_chars(&br)));
                            proof {
                                assert(pairs_v(per_repo@) =~= before.update(j as int, (key@, br@)));
                            }
                        },
                        None => {
                            per_repo.push((string_from_chars(&key), string_from_chars(&br)));
                            proof {
                                assert(pairs_v(per_repo@) =~= before.push((key@, br@)));
                            }
                        },
                    }
                },
                None => {
                    if default.is_some() {
                        proof {
                            lemma_parse_err_prefix(strings_view(values@), i + 1);
                        }
                        return Err(PublishError::MultipleDefaultBases);
                    }
                    default = Some(string_from_chars(&v));
                },
            }
            i += 1;
        }
        proof {
            assert(strings_view(values@).take(values@.len() as int) =~= strings_view(values@));
        }
        Ok(BaseOverrides { default, per_repo })
    }
}

impl BaseOverrides {
    /// The base branch a repo publishes against: its per-repo override, else
    /// the default override, else its existing publication's base, else the
    /// repo's configured base.
    pub fn branch_for(&self, repo: &RepoEntry, existing: Option<&PublicationEntry>) -> (out: String)
        ensures
            out@ == (if key_index(pairs_v(self.per_repo@), repo.id@) >= 0 {
                pairs_v(self.per_repo@)[key_index(pairs_v(self.per_repo@), repo.id@)].1
            } else {
                match self.default {
                    Some(d) => d@,
                    None => match existing {
                        Some(p) => p.base_branch@,
                        None => repo.base_branch@,
                    },
                }
            }),
    {
        let key = chars_of(repo.id.as_str());
        match find_pair(&self.per_repo, &key) {
            Some(i) => self.per_repo[i].1.clone(),
            None => match &self.default {
                Some(d) => d.clone(),
                None => match existing {
                    Some(p) => p.base_branch.clone(),
                    None => repo.base_branch.clone(),
                },
            },
        }
    }

    /// Refuses per-repo overrides for repos the bundle does not track; the
    /// one reported is the least such repo id (overrides are kept by repo
    /// id in sorted order).
    pub fn validate_tracked_repos(&self, bundle: &ChangeGroup) -> (r: Result<(), PublishError>)
        ensures
            r is Ok <==> forall|i: int| 0 <= i < self.per_repo@.len() ==> repo_ids(bundle.repos@).contains(#[trigger] self.per_repo@[i].0@),
            match r {
                Ok(()) => true,
                Err(PublishError::UnknownBaseRepo { repo }) => (exists|i: int|
                    0 <= i < self.per_repo@.len() && !repo_ids(bundle.repos@).contains(#[trigger] self.per_repo@[i].0@)
                        && repo@ == self.per_repo@[i].0@) && forall|i: int|
                    0 <= i < self.per_repo@.len() && !repo_ids(bundle.repos@).contains(#[trigger] self.per_repo@[i].0@)
                        ==> (repo@ == self.per_repo@[i].0@ || str_lt(repo@, self.per_repo@[i].0@)),
                Err(_) => false,
            },
    {
        let mut least: Option<usize> = None;
        let mut i: usize = 0;
        while i < self.per_repo.len()
            invariant
                i <= self.per_repo@.len(),
                match least {
                    None => forall|j: int| 0 <= j < i ==> repo_ids(bundle.repos@).contains(#[trigger] self.per_repo@[j].0@),
                    Some(k) => k < i && !repo_ids(bundle.repos@).contains(self.per_repo@[k as int].0@) && forall|j: int|
                        0 <= j < i && !repo_ids(bundle.repos@).contains(#[trigger] self.per_repo@[j].0@) ==> (
                        self.per_repo@[k as int].0@ == self.per_repo@[j].0@ || str_lt(self.per_repo@[k as int].0@, self.per_repo@[j].0@)),
                },
            decreases self.per_repo.len() - i,
        {
            if !tracks_repo(bundle, &self.per_repo[i].0) {
                match least {
                    None => {
                        least = Some(i);
                    },
                    Some(k) => {
                        if str_less(self.per_repo[i].0.as_str(), self.per_repo[k].0.as_str()) {
                            proof {
                                let ki = self.per_repo@[k as int].0@;
                                let ii = self.per_repo@[i as int].0@;
                                assert forall|j: int| 0 <= j < i && !repo_ids(bundle.repos@).contains(#[trigger] self.per_repo@[j].0@)
                                    implies (ii == self.per_repo@[j].0@ || str_lt(ii, self.per_repo@[j].0@)) by {
                                    if self.per_repo@[j].0@ != ki {
                                        lemma_lt_transitive(ii, ki, self.per_repo@[j].0@);
                                    }
                                }
                            }
                            least = Some(i);
                        } else {
                            proof {
                                lemma_lt_total(self.per_repo@[i as int].0@, self.per_repo@[k as int].0@);
                            }
                        }
                    },
                }
            }
            i += 1;
        }
        match least {
            None => Ok(()),
            Some(k) => Err(PublishError::UnknownBaseRepo { repo: self.per_repo[k].0.clone() }),
        }
    }
}

/// The ledger records a landing.
pub open spec fn has_landed(b: ChangeGroup) -> bool {
    exists|k: int| 0 <= k < b.nodes@.len() && b.nodes@[k].node_type@ == "feature.landed"@
}

/// How many recorded publications are review objects.
pub open spec fn review_count(ps: Seq<PublicationEntry>) -> nat
    decreases ps.len(),
{
    if ps.len() == 0 {
        0
    } else {
        review_count(ps.drop_last()) + (if review_kind(ps.last().kind@) { 1nat } else { 0nat })
    }
}

/// The landing reminder `knit publish status` shows: the number of review
/// objects recorded while the bundle has not landed, when there are any.
pub fn landing_reminder(b: &ChangeGroup) -> (r: Option<usize>)
    ensures
        match r {
            Some(n) => !has_landed(*b) && n == review_count(b.publications@) && n > 0,
            None => b.publications@.len() == 0 || has_landed(*b) || review_count(b.publications@) == 0,
        },
{
    if b.publications.len() == 0 {
        return None;
    }
    let mut k: usize = 0;
    while k < b.nodes.len()
        invariant
            k <= b.nodes@.len(),
            forall|j: int| 0 <= j < k ==> b.nodes@[j].node_type@ != "feature.landed"@,
        decreases b.nodes.len() - k,
    {
        if str_eq(b.nodes[k].node_type.as_str(), "feature.landed") {
            return None;
        }
        k += 1;
    }
    let mut n: usize = 0;
    let mut i: usize = 0;
    while i < b.publications.len()
        invariant
            i <= b.publications@.len(),
            n == review_count(b.publications@.take(i as int)),
            n <= i,
        decreases b.publications.len() - i,
    {
        proof {
            assert(b.publications@.take(i + 1).drop_last() =~= b.publications@.take(i as int));
        }
        if is_review_kind(b.publications[i].kind.as_str()) {
            n += 1;
        }
        i += 1;
    }
    proof {
        assert(b.publications@.take(b.publications@.len() as int) =~= b.publications@);
    }
    if n == 0 {
        None
    } else {
        Some(n)
    }
}

} // verus!
