//! `knit bundle remove`: dropping repos from a bundle's tracking.
use vstd::prelude::*;

use crate::model::{ChangeGroup, RepoEntry};
use crate::text::{append_str, chars_of, str_eq, string_from_chars, strings_view};

verus! {

/// How often `x` occurs in `ids`.
pub open spec fn occurrences(ids: Seq<Seq<char>>, x: Seq<char>) -> nat
    decreases ids.len(),
{
    if ids.len() == 0 {
        0
    } else {
        occurrences(ids.drop_last(), x) + (if ids.last() == x { 1nat } else { 0nat })
    }
}

/// The bundle tracks a repo with this id.
pub open spec fn tracks(repos: Seq<RepoEntry>, id: Seq<char>) -> bool {
    exists|k: int| 0 <= k < repos.len() && repos[k].id@ == id
}

/// The refusal for the first requested id that is given twice or is not
/// tracked; none when every id is fine.
pub open spec fn removal_error(ids: Seq<Seq<char>>, repos: Seq<RepoEntry>, n: nat) -> Option<Seq<char>>
    decreases n,
{
    if n == 0 {
        None
    } else {
        match removal_error(ids, repos, (n - 1) as nat) {
            Some(e) => Some(e),
            None => {
                let x = ids[n - 1];
                if occurrences(ids, x) > 1 {
                    Some("Repo "@ + x + " was provided more than once."@)
                } else if !tracks(repos, x) {
                    Some("Repo "@ + x + " is not tracked in this bundle."@)
                } else {
                    None
                }
            },
        }
    }
}

/// The repo at `j` is the first with its id.
pub open spec fn first_of_id(repos: Seq<RepoEntry>, j: int) -> bool {
    forall|k: int| 0 <= k < j ==> repos[k].id@ != repos[j].id@
}

/// The repo at `j` is removed: it is the first repo with a requested id.
pub open spec fn removed_at(repos: Seq<RepoEntry>, ids: Seq<Seq<char>>, j: int) -> bool {
    ids.contains(repos[j].id@) && first_of_id(repos, j)
}

/// The repos kept, in order.
pub open spec fn kept(repos: Seq<RepoEntry>, ids: Seq<Seq<char>>, n: int) -> Seq<RepoEntry>
    decreases n,
{
    if n <= 0 {
        Seq::empty()
    } else if removed_at(repos, ids, n - 1) {
        kept(repos, ids, n - 1)
    } else {
        kept(repos, ids, n - 1).push(repos[n - 1])
    }
}

/// The repos removed, last position first.
pub open spec fn removed_desc(repos: Seq<RepoEntry>, ids: Seq<Seq<char>>, n: int) -> Seq<RepoEntry>
    decreases n,
{
    if n <= 0 {
        Seq::empty()
    } else if removed_at(repos, ids, n - 1) {
        seq![repos[n - 1]] + removed_desc(repos, ids, n - 1)
    } else {
        removed_desc(repos, ids, n - 1)
    }
}

/// Every repo is either kept or removed: together they account for all of
/// the bundle's repos.
pub proof fn lemma_removal_partitions(repos: Seq<RepoEntry>, ids: Seq<Seq<char>>, n: int)
    requires
        0 <= n,
    ensures
        kept(repos, ids, n).len() + removed_desc(repos, ids, n).len() == n,
    decreases n,
{
    if n > 0 {
        lemma_removal_partitions(repos, ids, n - 1);
    }
}

fn count_of(ids: &Vec<String>, x: &String) -> (n: usize)
    ensures
        n == occurrences(strings_view(ids@), x@),
{
    let mut n: usize = 0;
    let mut i: usize = 0;
    while i < ids.len()
        invariant
            i <= ids@.len(),
            n == occurrences(strings_view(ids@).take(i as int), x@),
            n <= i,
        decreases ids.len() - i,
    {
        proof {
            assert(strings_view(ids@).take(i + 1).drop_last() =~= strings_view(ids@).take(i as int));
        }
        if str_eq(ids[i].as_str(), x.as_str()) {
            n += 1;
        }
        i += 1;
    }
    proof {
        assert(strings_view(ids@).take(ids@.len() as int) =~= strings_view(ids@));
    }
    n
}

fn is_tracked(repos: &Vec<RepoEntry>, x: &String) -> (b: bool)
    ensures
        b == tracks(repos@, x@),
{
    let mut i: usize = 0;
    while i < repos.len()
        invariant
            i <= repos@.len(),
            forall|k: int| 0 <= k < i ==> repos@[k].id@ != x@,
        decreases repos.len() - i,
    {
        if str_eq(repos[i].id.as_str(), x.as_str()) {
            return true;
        }
        i += 1;
    }
    false
}

fn is_first(repos: &Vec<RepoEntry>, j: usize) -> (b: bool)
    requires
        j < repos@.len(),
    ensures
        b == first_of_id(repos@, j as int),
{
    let mut k: usize = 0;
    while k < j
        invariant
            j < repos@.len(),
            k <= j,
            forall|q: int| 0 <= q < k ==> repos@[q].id@ != repos@[j as int].id@,
        decreases j - k,
    {
        if str_eq(repos[k].id.as_str(), repos[j].id.as_str()) {
            return false;
        }
        k += 1;
    }
    true
}

/// Stops tracking the repos named by `ids` (each the first repo with that
/// id). Every id must be given once and be tracked, else the first that is
/// not is refused and nothing changes. Returns the removed repos, last
/// position first.
pub fn remove_bundle_repos(b: &mut ChangeGroup, ids: &Vec<String>) -> (r: Result<Vec<RepoEntry>, String>)
    ensures
        match removal_error(strings_view(ids@), old(b).repos@, ids@.len()) {
            Some(e) => r matches Err(m) && m@ == e && final(b).repos@ == old(b).repos@,
            None => r matches Ok(removed) && removed@ == removed_desc(old(b).repos@, strings_view(ids@), old(b).repos@.len() as int)
                && final(b).repos@ == kept(old(b).repos@, strings_view(ids@), old(b).repos@.len() as int),
        },
        final(b).nodes@ == old(b).nodes@,
        final(b).id == old(b).id,
        final(b).publications@ == old(b).publications@,
{
    let ghost iv = strings_view(ids@);
    let mut t: usize = 0;
    while t < ids.len()
        invariant
            t <= ids@.len(),
            iv == strings_view(ids@),
            b.repos@ == old(b).repos@,
            removal_error(iv, b.repos@, t as nat) is None,
        decreases ids.len() - t,
    {
        let x = &ids[t];
        proof {
            assert(iv[t as int] == x@);
        }
        if count_of(ids, x) > 1 {
            let mut v = chars_of("Repo ");
            append_str(&mut v, x.as_str());
            append_str(&mut v, " was provided more than once.");
            proof {
                lemma_removal_error_stays(iv, b.repos@, (t + 1) as nat);
            }
            return Err(string_from_chars(&v));
        }
        if !is_tracked(&b.repos, x) {
            let mut v = chars_of("Repo ");
            append_str(&mut v, x.as_str());
            append_str(&mut v, " is not tracked in this bundle.");
            proof {
                lemma_removal_error_stays(iv, b.repos@, (t + 1) as nat);
            }
            return Err(string_from_chars(&v));
        }
        t += 1;
    }
    let ghost orig = b.repos@;
    let mut keep: Vec<RepoEntry> = Vec::new();
    let mut removed: Vec<RepoEntry> = Vec::new();
    let mut j: usize = 0;
    while j < b.repos.len()
        invariant
            j <= b.repos@.len(),
            b.repos@ == orig,
            iv == strings_view(ids@),
            keep@ == kept(orig, iv, j as int),
            removed@ == removed_desc(orig, iv, j as int),
        decreases b.repos.len() - j,
    {
        let r = crate::pr_body::copy_repo(&b.repos[j]);
        let drop = crate::text::contains_string(ids, &b.repos[j].id) && is_first(&b.repos, j);
        if drop {
            removed.insert(0, r);
            proof {
                assert(removed@ =~= seq![orig[j as int]] + removed_desc(orig, iv, j as int));
            }
        } else {
            keep.push(r);
        }
        j += 1;
    }
    b.repos = keep;
    Ok(removed)
}

proof fn lemma_removal_error_stays(ids: Seq<Seq<char>>, repos: Seq<RepoEntry>, n: nat)
    requires
        n <= ids.len(),
        removal_error(ids, repos, n) is Some,
    ensures
        removal_error(ids, repos, ids.len()) == removal_error(ids, repos, n),
    decreases ids.len() - n,
{
    if n < ids.len() {
        lemma_removal_error_stays(ids, repos, n + 1);
    }
}

} // verus!
