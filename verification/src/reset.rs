//! `knit reset`: which `git reset` mode runs, on which project repos, and
//! how failures are reported.
use vstd::prelude::*;

use crate::project_repos::ProjectRepoEntry;
use crate::text::{append_str, chars_of, decimal_seq, join_seq, join_strings, push_decimal, str_eq, string_from_chars, strings_view};

verus! {

/// The `git reset` mode.
#[derive(Debug, Clone, Copy, PartialEq, Eq, Structural)]
pub enum ResetMode {
    Soft,
    Mixed,
    Hard,
}

impl ResetMode {
    /// `--soft` wins over `--hard`; neither means mixed.
    pub fn resolve(soft: bool, hard: bool) -> (m: ResetMode)
        ensures
            m == (if soft {
                ResetMode::Soft
            } else if hard {
                ResetMode::Hard
            } else {
                ResetMode::Mixed
            }),
    {
        if soft {
            ResetMode::Soft
        } else if hard {
            ResetMode::Hard
        } else {
            ResetMode::Mixed
        }
    }

    pub open spec fn flag_spec(self) -> Seq<char> {
        match self {
            ResetMode::Soft => "--soft"@,
            ResetMode::Mixed => "--mixed"@,
            ResetMode::Hard => "--hard"@,
        }
    }

    /// The `git reset` flag of the mode.
    pub fn flag(self) -> (s: &'static str)
        ensures
            s@ == self.flag_spec(),
    {
        match self {
            ResetMode::Soft => "--soft",
            ResetMode::Mixed => "--mixed",
            ResetMode::Hard => "--hard",
        }
    }
}

/// The commit reset to: the one given, else `HEAD`.
pub fn reset_target(commit: Option<&str>) -> (out: String)
    ensures
        out@ == match commit {
            Some(c) => c@,
            None => "HEAD"@,
        },
{
    match commit {
        Some(c) => string_from_chars(&chars_of(c)),
        None => string_from_chars(&chars_of("HEAD")),
    }
}

/// The failure of one repo's reset: its exit code, or the signal that
/// ended it.
pub fn reset_failure(repo_id: &str, exit_code: Option<i32>) -> (out: String)
    ensures
        out@ == match exit_code {
            Some(c) => repo_id@ + " exited "@ + crate::land_steps::code_text(c),
            None => repo_id@ + " terminated by signal"@,
        },
{
    let mut v = chars_of(repo_id);
    match exit_code {
        Some(c) => {
            append_str(&mut v, " exited ");
            let ghost start = v@;
            if c < 0 {
                v.push('-');
                let m: i64 = -(c as i64);
                push_decimal(&mut v, m as u64);
                proof {
                    reveal_strlit("-");
                    assert(v@ =~= start + ("-"@ + decimal_seq((-c) as nat)));
                }
            } else {
                push_decimal(&mut v, c as u64);
            }
        },
        None => append_str(&mut v, " terminated by signal"),
    }
    string_from_chars(&v)
}

/// The outcome of a reset over several repos: it fails listing every
/// failure.
pub fn reset_result(failures: &Vec<String>) -> (r: Result<(), String>)
    ensures
        failures@.len() == 0 ==> r is Ok,
        failures@.len() > 0 ==> (r matches Err(e) && e@ == "git reset failed: "@ + join_seq(
            strings_view(failures@),
            ", "@,
        )),
{
    if failures.len() == 0 {
        return Ok(());
    }
    let mut v = chars_of("git reset failed: ");
    let j = join_strings(failures, ", ");
    append_str(&mut v, j.as_str());
    Err(string_from_chars(&v))
}

/// A selector names a project repo: by its id or its path as written, or
/// by the same canonical path (when both resolve on disk).
pub open spec fn selects(repo: ProjectRepoEntry, selector: Seq<char>, sel_canonical: Option<Seq<char>>, repo_canonical: Option<Seq<char>>) -> bool {
    selector == repo.id@ || selector == repo.path@ || (sel_canonical is Some && repo_canonical is Some
        && sel_canonical->0 == repo_canonical->0)
}

pub open spec fn opt_chars(o: Option<String>) -> Option<Seq<char>> {
    match o {
        Some(s) => Some(s@),
        None => None,
    }
}

/// The first project repo a selector names.
pub open spec fn first_selected(
    repos: Seq<ProjectRepoEntry>,
    canon: Seq<Option<String>>,
    selector: Seq<char>,
    sel_canonical: Option<Seq<char>>,
) -> Option<int> {
    if exists|k: int| 0 <= k < repos.len() && selects(repos[k], selector, sel_canonical, opt_chars(canon[k])) {
        Some(choose|k: int| 0 <= k < repos.len() && selects(repos[k], selector, sel_canonical, opt_chars(canon[k]))
            && forall|j: int| 0 <= j < k ==> !selects(repos[j], selector, sel_canonical, opt_chars(canon[j])))
    } else {
        None
    }
}

/// The repo selector `t` names first.
pub open spec fn pick(
    repos: Seq<ProjectRepoEntry>,
    canon: Seq<Option<String>>,
    selectors: Seq<String>,
    sel_canon: Seq<Option<String>>,
    t: int,
) -> Option<int> {
    first_selected(repos, canon, selectors[t]@, opt_chars(sel_canon[t]))
}

/// Why the project repos to reset cannot be chosen.
#[derive(Debug, Clone)]
pub enum SelectError {
    AllAndSelectors,
    NoMatch { selector: String },
}

impl SelectError {
    pub open spec fn text(&self) -> Seq<char> {
        match self {
            SelectError::AllAndSelectors => "Use either --all or repo selectors, not both."@,
            SelectError::NoMatch { selector } => "No project repo matched `"@ + selector@ + "`."@,
        }
    }

    pub fn message(&self) -> (out: String)
        ensures
            out@ == self.text(),
    {
        match self {
            SelectError::AllAndSelectors => string_from_chars(&chars_of("Use either --all or repo selectors, not both.")),
            SelectError::NoMatch { selector } => {
                let mut v = chars_of("No project repo matched `");
                append_str(&mut v, selector.as_str());
                append_str(&mut v, "`.");
                string_from_chars(&v)
            },
        }
    }
}

fn first_match(
    repos: &Vec<ProjectRepoEntry>,
    canon: &Vec<Option<String>>,
    selector: &String,
    sel_canonical: &Option<String>,
) -> (r: Option<usize>)
    requires
        canon@.len() == repos@.len(),
    ensures
        match r {
            Some(k) => k < repos@.len() && first_selected(repos@, canon@, selector@, opt_chars(*sel_canonical)) == Some(
                k as int,
            ),
            None => first_selected(repos@, canon@, selector@, opt_chars(*sel_canonical)) is None,
        },
{
    let mut i: usize = 0;
    while i < repos.len()
        invariant
            i <= repos@.len(),
            canon@.len() == repos@.len(),
            forall|j: int| 0 <= j < i ==> !selects(repos@[j], selector@, opt_chars(*sel_canonical), opt_chars(canon@[j])),
        decreases repos.len() - i,
    {
        let same_canonical = match (sel_canonical, &canon[i]) {
            (Some(a), Some(b)) => str_eq(a.as_str(), b.as_str()),
            _ => false,
        };
        if str_eq(selector.as_str(), repos[i].id.as_str()) || str_eq(selector.as_str(), repos[i].path.as_str())
            || same_canonical {
            proof {
                let s = selector@;
                let sc = opt_chars(*sel_canonical);
                assert(selects(repos@[i as int], s, sc, opt_chars(canon@[i as int])));
                let c = choose|k: int| 0 <= k < repos@.len() && selects(repos@[k], s, sc, opt_chars(canon@[k]))
                    && forall|j: int| 0 <= j < k ==> !selects(repos@[j], s, sc, opt_chars(canon@[j]));
                assert(c == i as int) by {
                    if c < i {
                        assert(!selects(repos@[c], s, sc, opt_chars(canon@[c])));
                    } else if c > i {
                        assert(!selects(repos@[i as int], s, sc, opt_chars(canon@[i as int])));
                    }
                }
            }
            return Some(i);
        }
        i += 1;
    }
    None
}

/// The repos the first `n` selectors name, in selector order, each once;
/// or the first selector that names none.
pub open spec fn selection(
    repos: Seq<ProjectRepoEntry>,
    canon: Seq<Option<String>>,
    selectors: Seq<String>,
    sel_canon: Seq<Option<String>>,
    n: nat,
) -> Result<Seq<int>, int>
    decreases n,
{
    if n == 0 {
        Ok(Seq::empty())
    } else {
        match selection(repos, canon, selectors, sel_canon, (n - 1) as nat) {
            Err(t) => Err(t),
            Ok(v) => match pick(repos, canon, selectors, sel_canon, n - 1) {
                None => Err(n - 1),
                Some(k) => if v.contains(k) {
                    Ok(v)
                } else {
                    Ok(v.push(k))
                },
            },
        }
    }
}

/// The project repos a reset acts on (by index): all of them with `--all`
/// or no selectors; else, per selector in order, the first repo it names,
/// each repo once. `canonical` holds each repo path's canonical form and
/// `selector_canonical` each selector's, where they resolve on disk.
pub fn select_project_repos(
    repos: &Vec<ProjectRepoEntry>,
    canonical: &Vec<Option<String>>,
    selectors: &Vec<String>,
    selector_canonical: &Vec<Option<String>>,
    all: bool,
) -> (r: Result<Vec<usize>, SelectError>)
    requires
        canonical@.len() == repos@.len(),
        selector_canonical@.len() == selectors@.len(),
    ensures
        all && selectors@.len() > 0 ==> r matches Err(SelectError::AllAndSelectors),
        !(all && selectors@.len() > 0) && (all || selectors@.len() == 0) ==> (r matches Ok(v) && v@.len() == repos@.len()
            && forall|k: int| 0 <= k < v@.len() ==> v@[k] == k),
        !all && selectors@.len() > 0 ==> match selection(
            repos@,
            canonical@,
            selectors@,
            selector_canonical@,
            selectors@.len(),
        ) {
            Ok(ix) => r matches Ok(v) && v@.map_values(|x: usize| x as int) == ix,
            Err(t) => r matches Err(SelectError::NoMatch { selector }) && selector@ == selectors@[t]@,
        },
{
    if all && selectors.len() > 0 {
        return Err(SelectError::AllAndSelectors);
    }
    if all || selectors.len() == 0 {
        let mut v: Vec<usize> = Vec::new();
        let mut i: usize = 0;
        while i < repos.len()
            invariant
                i <= repos@.len(),
                v@.len() == i,
                forall|k: int| 0 <= k < i ==> v@[k] == k,
            decreases repos.len() - i,
        {
            v.push(i);
            i += 1;
        }
        return Ok(v);
    }
    let mut selected: Vec<usize> = Vec::new();
    let mut t: usize = 0;
    proof {
        assert(selected@.map_values(|x: usize| x as int) =~= Seq::<int>::empty());
    }
    while t < selectors.len()
        invariant
            !all,
            t <= selectors@.len(),
            canonical@.len() == repos@.len(),
            selector_canonical@.len() == selectors@.len(),
            selection(repos@, canonical@, selectors@, selector_canonical@, t as nat) == Ok::<Seq<int>, int>(
                selected@.map_values(|x: usize| x as int),
            ),
        decreases selectors.len() - t,
    {
        match first_match(repos, canonical, &selectors[t], &selector_canonical[t]) {
            None => {
                proof {
                    lemma_selection_error_stays(repos@, canonical@, selectors@, selector_canonical@, (t + 1) as nat);
                }
                return Err(SelectError::NoMatch { selector: selectors[t].clone() });
            },
            Some(k) => {
                let mut seen = false;
                let mut j: usize = 0;
                while j < selected.len()
                    invariant
                        j <= selected@.len(),
                        seen <==> exists|q: int| 0 <= q < j && selected@[q] == k,
                    decreases selected.len() - j,
                {
                    if selected[j] == k {
                        seen = true;
                    }
                    j += 1;
                }
                let ghost s0 = selected@;
                proof {
                    let m = s0.map_values(|x: usize| x as int);
                    if seen {
                        let q = choose|q: int| 0 <= q < s0.len() && s0[q] == k;
                        assert(m[q] == k as int);
                    } else {
                        assert forall|q: int| 0 <= q < m.len() implies m[q] != k as int by {
                            assert(s0[q] != k);
                        }
                    }
                }
                if !seen {
                    selected.push(k);
                    proof {
                        assert(selected@.map_values(|x: usize| x as int) =~= s0.map_values(|x: usize| x as int).push(
                            k as int,
                        ));
                    }
                }
            },
        }
        t += 1;
    }
    Ok(selected)
}

proof fn lemma_selection_error_stays(
    repos: Seq<ProjectRepoEntry>,
    canon: Seq<Option<String>>,
    selectors: Seq<String>,
    sel_canon: Seq<Option<String>>,
    n: nat,
)
    requires
        n <= selectors.len(),
        selection(repos, canon, selectors, sel_canon, n) is Err,
    ensures
        selection(repos, canon, selectors, sel_canon, selectors.len()) == selection(repos, canon, selectors, sel_canon, n),
    decreases selectors.len() - n,
{
    if n < selectors.len() {
        lemma_selection_error_stays(repos, canon, selectors, sel_canon, n + 1);
    }
}

} // verus!
