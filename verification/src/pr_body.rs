//! The Knit-managed block of a pull-request body: rendering the cross-link
//! block for a bundle and replacing or appending it in an existing body.
use vstd::prelude::*;

use crate::model::{has_publication, is_publication_index, publication_for_repo, ChangeGroup, RepoEntry};
use crate::text::{
    append_chars, append_str, chars_of, contains_seq, find_chars, join_chars, join_seq,
    matches_at, string_from_chars, trim_chars, trim_end_chars, trim_end_seq, trim_seq,
    trim_start_chars, trim_start_seq, views_of, slice_chars, str_eq,
};

verus! {

/// First line of the managed block.
pub const KNIT_PR_BLOCK_BEGIN: &'static str = "<!-- BEGIN KNIT BUNDLE -->";

/// Last line of the managed block.
pub const KNIT_PR_BLOCK_END: &'static str = "<!-- END KNIT BUNDLE -->";

/// The recorded publication URL of a repo.
pub open spec fn publication_url(b: ChangeGroup, repo_id: Seq<char>) -> Seq<char> {
    b.publications@[choose|i: int| is_publication_index(b, repo_id, i)].url@
}

/// The block's line for one repo.
pub open spec fn repo_line(b: ChangeGroup, current: Option<Seq<char>>, r: RepoEntry) -> Seq<char> {
    if has_publication(b, r.id@) {
        "- `"@ + r.id@ + "`: "@ + publication_url(b, r.id@) + (if current == Some(r.id@) {
            " (this PR)"@
        } else {
            ""@
        })
    } else {
        "- `"@ + r.id@ + "`: pending"@
    }
}

pub open spec fn repo_lines(b: ChangeGroup, current: Option<Seq<char>>, repos: Seq<RepoEntry>) -> Seq<Seq<char>> {
    repos.map_values(|r: RepoEntry| repo_line(b, current, r))
}

/// The lines of the managed block listing `repos`.
pub open spec fn block_lines(b: ChangeGroup, current: Option<Seq<char>>, repos: Seq<RepoEntry>) -> Seq<Seq<char>> {
    seq![
        KNIT_PR_BLOCK_BEGIN@,
        "## Knit Bundle"@,
        ""@,
        "This PR is part of Knit bundle `"@ + b.id@ + "`."@,
        ""@,
        "See the other PRs in this bundle:"@,
    ] + repo_lines(b, current, repos) + seq![
        ""@,
        "Bundle id: `"@ + b.id@ + "`"@,
        "Bundle title: "@ + b.title@,
        KNIT_PR_BLOCK_END@,
    ]
}

/// The managed block listing `repos`, lines joined by newlines.
pub open spec fn block_text(b: ChangeGroup, current: Option<Seq<char>>, repos: Seq<RepoEntry>) -> Seq<char> {
    join_seq(block_lines(b, current, repos), "\n"@)
}

proof fn lemma_publication_choice(b: ChangeGroup, r: Seq<char>, i: int)
    requires
        is_publication_index(b, r, i),
    ensures
        (choose|c: int| is_publication_index(b, r, c)) == i,
{
    let c = choose|c: int| is_publication_index(b, r, c);
    assert(is_publication_index(b, r, c));
    if c < i {
        assert(b.publications@[c].repo_id@ == r);
    } else if i < c {
        assert(b.publications@[i].repo_id@ == r);
    }
}

fn repo_line_exec(b: &ChangeGroup, current: Option<&str>, r: &RepoEntry) -> (out: Vec<char>)
    ensures
        out@ == repo_line(*b, match current {
            Some(c) => Some(c@),
            None => None,
        }, *r),
{
    let mut v: Vec<char> = Vec::new();
    append_str(&mut v, "- `");
    append_str(&mut v, r.id.as_str());
    match publication_for_repo(b, r.id.as_str()) {
        Some(i) => {
            proof {
                lemma_publication_choice(*b, r.id@, i as int);
            }
            append_str(&mut v, "`: ");
            append_str(&mut v, b.publications[i].url.as_str());
            let this = match current {
                Some(c) => str_eq(c, r.id.as_str()),
                None => false,
            };
            if this {
                append_str(&mut v, " (this PR)");
            } else {
                proof {
                    assert(v@ + ""@ =~= v@) by {
                        reveal_strlit("");
                    }
                }
            }
        },
        None => {
            append_str(&mut v, "`: pending");
        },
    }
    v
}

fn line_of(s: &str) -> (v: Vec<char>)
    ensures
        v@ == s@,
{
    chars_of(s)
}

/// Renders the managed block for the given repos of the bundle.
pub(crate) fn render_block_for(b: &ChangeGroup, current: Option<&str>, repos: &Vec<RepoEntry>) -> (out: String)
    ensures
        out@ == block_text(*b, match current {
            Some(c) => Some(c@),
            None => None,
        }, repos@),
{
    let ghost cur = match current {
        Some(c) => Some(c@),
        None => None,
    };
    let mut lines: Vec<Vec<char>> = Vec::new();
    lines.push(line_of(KNIT_PR_BLOCK_BEGIN));
    lines.push(line_of("## Knit Bundle"));
    lines.push(line_of(""));
    let mut l: Vec<char> = Vec::new();
    append_str(&mut l, "This PR is part of Knit bundle `");
    append_str(&mut l, b.id.as_str());
    append_str(&mut l, "`.");
    lines.push(l);
    lines.push(line_of(""));
    lines.push(line_of("See the other PRs in this bundle:"));
    let ghost head = views_of(lines@);
    proof {
        assert(head =~= seq![
            KNIT_PR_BLOCK_BEGIN@,
            "## Knit Bundle"@,
            ""@,
            "This PR is part of Knit bundle `"@ + b.id@ + "`."@,
            ""@,
            "See the other PRs in this bundle:"@,
        ]);
        assert(repos@.take(0) =~= Seq::<RepoEntry>::empty());
        assert(repo_lines(*b, cur, repos@.take(0)) =~= Seq::<Seq<char>>::empty());
        assert(head + repo_lines(*b, cur, repos@.take(0)) =~= head);
    }
    let mut i: usize = 0;
    while i < repos.len()
        invariant
            i <= repos@.len(),
            views_of(lines@) == head + repo_lines(*b, cur, repos@.take(i as int)),
            cur == (match current {
                Some(c) => Some(c@),
                None => None,
            }),
        decreases repos.len() - i,
    {
        let ghost prev = lines@;
        let line = repo_line_exec(b, current, &repos[i]);
        lines.push(line);
        proof {
            assert(views_of(lines@) =~= views_of(prev).push(line@));
            assert(repo_lines(*b, cur, repos@.take(i + 1)) =~= repo_lines(*b, cur, repos@.take(i as int)).push(
                repo_line(*b, cur, repos@[i as int]),
            ));
        }
        i += 1;
    }
    let ghost mid = views_of(lines@);
    lines.push(line_of(""));
    let mut l2: Vec<char> = Vec::new();
    append_str(&mut l2, "Bundle id: `");
    append_str(&mut l2, b.id.as_str());
    append_str(&mut l2, "`");
    lines.push(l2);
    let mut l3: Vec<char> = Vec::new();
    append_str(&mut l3, "Bundle title: ");
    append_str(&mut l3, b.title.as_str());
    lines.push(l3);
    lines.push(line_of(KNIT_PR_BLOCK_END));
    proof {
        assert(repos@.take(repos@.len() as int) =~= repos@);
        assert(views_of(lines@) =~= mid + seq![
            ""@,
            "Bundle id: `"@ + b.id@ + "`"@,
            "Bundle title: "@ + b.title@,
            KNIT_PR_BLOCK_END@,
        ]);
        assert(views_of(lines@) =~= block_lines(*b, cur, repos@));
    }
    let nl = line_of("\n");
    let joined = join_chars(&lines, &nl);
    string_from_chars(&joined)
}

/// Copies of the repos in order.
fn copy_repos(v: &Vec<RepoEntry>) -> (out: Vec<RepoEntry>)
    ensures
        out@ == v@,
{
    let mut out: Vec<RepoEntry> = Vec::new();
    let mut i: usize = 0;
    while i < v.len()
        invariant
            i <= v@.len(),
            out@ == v@.take(i as int),
        decreases v.len() - i,
    {
        let r = copy_repo(&v[i]);
        out.push(r);
        proof {
            assert(out@ =~= v@.take(i + 1));
        }
        i += 1;
    }
    proof {
        assert(v@.take(v@.len() as int) =~= v@);
    }
    out
}

fn copy_opt(o: &Option<String>) -> (r: Option<String>)
    ensures
        r == *o,
{
    match o {
        Some(s) => Some(s.clone()),
        None => None,
    }
}

/// An identical copy of a repo entry.
pub fn copy_repo(r: &RepoEntry) -> (out: RepoEntry)
    ensures
        out == *r,
{
    RepoEntry {
        id: r.id.clone(),
        path: r.path.clone(),
        remote: copy_opt(&r.remote),
        base_branch: r.base_branch.clone(),
        checkout_mode: r.checkout_mode,
        base_sha: copy_opt(&r.base_sha),
        feature_branch: copy_opt(&r.feature_branch),
        worktree_path: copy_opt(&r.worktree_path),
        head_sha: copy_opt(&r.head_sha),
    }
}

/// The managed block listing every tracked repo of the bundle: its PR URL
/// (marking the current repo's PR), or `pending`.
pub fn render_knit_pr_block(bundle: &ChangeGroup, current_repo_id: Option<&str>) -> (out: String)
    ensures
        out@ == block_text(*bundle, match current_repo_id {
            Some(c) => Some(c@),
            None => None,
        }, bundle.repos@),
{
    let repos = copy_repos(&bundle.repos);
    render_block_for(bundle, current_repo_id, &repos)
}

/// The first body of a new PR: a note and the managed block.
pub fn initial_pr_body(bundle: &ChangeGroup, current_repo_id: &str) -> (out: String)
    ensures
        out@ == "Generated by Knit. Cross-links will be refreshed after all PRs are created.\n\n"@
            + block_text(*bundle, Some(current_repo_id@), bundle.repos@),
{
    let block = render_knit_pr_block(bundle, Some(current_repo_id));
    let mut v: Vec<char> = Vec::new();
    append_str(&mut v, "Generated by Knit. Cross-links will be refreshed after all PRs are created.\n\n");
    append_str(&mut v, block.as_str());
    string_from_chars(&v)
}

/// `block` appended to `body` after a blank line (or alone, for a blank body).
pub open spec fn append_spec(body: Seq<char>, block: Seq<char>) -> Seq<char> {
    if trim_seq(body).len() == 0 {
        block
    } else {
        trim_end_seq(body) + "\n\n"@ + block
    }
}

pub fn append_knit_pr_block(existing_body: &str, block: &str) -> (out: String)
    ensures
        out@ == append_spec(existing_body@, block@),
{
    let body = chars_of(existing_body);
    let t = trim_chars(&body);
    if t.len() == 0 {
        return string_from_chars(&chars_of(block));
    }
    let mut v = trim_end_chars(&body);
    append_str(&mut v, "\n\n");
    append_str(&mut v, block);
    string_from_chars(&v)
}

/// The first index where `n` occurs in `h`.
pub open spec fn first_match(h: Seq<char>, n: Seq<char>) -> int {
    choose|i: int| matches_at(h, n, i) && forall|j: int| 0 <= j < i ==> !matches_at(h, n, j)
}

proof fn lemma_first_match(h: Seq<char>, n: Seq<char>, i: int)
    requires
        matches_at(h, n, i),
        forall|j: int| 0 <= j < i ==> !matches_at(h, n, j),
    ensures
        first_match(h, n) == i,
{
    let c = first_match(h, n);
    assert(matches_at(h, n, c) && forall|j: int| 0 <= j < c ==> !matches_at(h, n, j));
    if c < i {
        assert(!matches_at(h, n, c));
    } else if i < c {
        assert(!matches_at(h, n, i));
    }
}

/// The body with the managed block replaced by `block` (text before and
/// after kept, separated by blank lines), or with `block` appended when the
/// body holds no complete managed block.
pub open spec fn upsert_spec(body: Seq<char>, block: Seq<char>) -> Seq<char> {
    let b = KNIT_PR_BLOCK_BEGIN@;
    let e = KNIT_PR_BLOCK_END@;
    if !contains_seq(body, b) {
        append_spec(body, block)
    } else {
        let begin = first_match(body, b);
        let rest = body.skip(begin);
        if !contains_seq(rest, e) {
            append_spec(body, block)
        } else {
            let end = begin + first_match(rest, e) + e.len();
            let before = trim_end_seq(body.take(begin));
            let after = trim_start_seq(body.skip(end));
            if before.len() == 0 && after.len() == 0 {
                block
            } else if before.len() == 0 {
                block + "\n\n"@ + after
            } else if after.len() == 0 {
                before + "\n\n"@ + block
            } else {
                before + "\n\n"@ + block + "\n\n"@ + after
            }
        }
    }
}

/// Replaces the managed block of a PR body, or appends one.
pub fn upsert_knit_pr_block(existing_body: &str, block: &str) -> (out: String)
    ensures
        out@ == upsert_spec(existing_body@, block@),
{
    let body = chars_of(existing_body);
    let b = chars_of(KNIT_PR_BLOCK_BEGIN);
    let e = chars_of(KNIT_PR_BLOCK_END);
    let begin = match find_chars(&body, &b) {
        Some(i) => i,
        None => return append_knit_pr_block(existing_body, block),
    };
    proof {
        lemma_first_match(body@, b@, begin as int);
    }
    let rest = slice_chars(&body, begin, body.len());
    proof {
        assert(rest@ =~= body@.skip(begin as int));
    }
    let rel = match find_chars(&rest, &e) {
        Some(j) => j,
        None => return append_knit_pr_block(existing_body, block),
    };
    proof {
        lemma_first_match(rest@, e@, rel as int);
    }
    let end = begin + rel + e.len();
    let head = slice_chars(&body, 0, begin);
    let tail = slice_chars(&body, end, body.len());
    proof {
        assert(head@ =~= body@.take(begin as int));
        assert(tail@ =~= body@.skip(end as int));
    }
    let before = trim_end_chars(&head);
    let after = trim_start_chars(&tail);
    let mut v: Vec<char> = Vec::new();
    if before.len() == 0 && after.len() == 0 {
        append_str(&mut v, block);
    } else if before.len() == 0 {
        append_str(&mut v, block);
        append_str(&mut v, "\n\n");
        append_chars(&mut v, &after);
    } else if after.len() == 0 {
        append_chars(&mut v, &before);
        append_str(&mut v, "\n\n");
        append_str(&mut v, block);
    } else {
        append_chars(&mut v, &before);
        append_str(&mut v, "\n\n");
        append_str(&mut v, block);
        append_str(&mut v, "\n\n");
        append_chars(&mut v, &after);
    }
    proof {
        assert(Seq::<char>::empty() + block@ =~= block@);
    }
    string_from_chars(&v)
}

/// Two newlines: what separates the managed block from the text around it.
pub open spec fn blank_line() -> Seq<char> {
    seq!['\n', '\n']
}

/// `n` has no newline in it.
pub open spec fn no_newline(n: Seq<char>) -> bool {
    forall|k: int| 0 <= k < n.len() ==> n[k] != '\n'
}

proof fn lemma_markers()
    ensures
        "\n\n"@ == blank_line(),
        no_newline(KNIT_PR_BLOCK_BEGIN@),
        no_newline(KNIT_PR_BLOCK_END@),
        KNIT_PR_BLOCK_BEGIN@.len() > 0,
        KNIT_PR_BLOCK_END@.len() > 0,
{
    reveal_strlit("\n\n");
    reveal_strlit("<!-- BEGIN KNIT BUNDLE -->");
    reveal_strlit("<!-- END KNIT BUNDLE -->");
    assert("\n\n"@ =~= blank_line());
}

proof fn lemma_trim_end_shape(x: Seq<char>)
    ensures
        trim_end_seq(x) == x.take(trim_end_seq(x).len() as int),
        trim_end_seq(x).len() <= x.len(),
        trim_end_seq(x).len() == 0 || !crate::text::is_ws(trim_end_seq(x).last()),
        trim_end_seq(x).len() == 0 ==> forall|i: int| 0 <= i < x.len() ==> crate::text::is_ws(#[trigger] x[i]),
    decreases x.len(),
{
    if x.len() > 0 && crate::text::is_ws(x.last()) {
        lemma_trim_end_shape(x.drop_last());
        let t = trim_end_seq(x.drop_last());
        assert(x.drop_last().take(t.len() as int) =~= x.take(t.len() as int));
        if t.len() == 0 {
            assert forall|i: int| 0 <= i < x.len() implies crate::text::is_ws(#[trigger] x[i]) by {
                if i < x.len() - 1 {
                    assert(x.drop_last()[i] == x[i]);
                }
            }
        }
    } else {
        assert(x.take(x.len() as int) =~= x);
    }
}

proof fn lemma_trim_start_shape(x: Seq<char>)
    ensures
        trim_start_seq(x) == x.skip(x.len() - trim_start_seq(x).len()),
        trim_start_seq(x).len() <= x.len(),
        trim_start_seq(x).len() == 0 || !crate::text::is_ws(trim_start_seq(x)[0]),
        (forall|i: int| 0 <= i < x.len() ==> crate::text::is_ws(#[trigger] x[i])) ==> trim_start_seq(x).len() == 0,
    decreases x.len(),
{
    if x.len() > 0 && crate::text::is_ws(x[0]) {
        lemma_trim_start_shape(x.drop_first());
        let t = trim_start_seq(x.drop_first());
        assert(x.drop_first().skip(x.drop_first().len() - t.len()) =~= x.skip(x.len() - t.len()));
        if forall|i: int| 0 <= i < x.len() ==> crate::text::is_ws(#[trigger] x[i]) {
            assert forall|i: int| 0 <= i < x.drop_first().len() implies crate::text::is_ws(#[trigger] x.drop_first()[i]) by {
                assert(x.drop_first()[i] == x[i + 1]);
            }
        }
    } else {
        assert(x.skip(0) =~= x);
        if x.len() > 0 {
            assert(crate::text::is_ws(x[0]) ==> false);
        }
    }
}

proof fn lemma_trim_end_idempotent(x: Seq<char>)
    ensures
        trim_end_seq(trim_end_seq(x)) == trim_end_seq(x),
{
    lemma_trim_end_shape(x);
}

proof fn lemma_trim_start_idempotent(x: Seq<char>)
    ensures
        trim_start_seq(trim_start_seq(x)) == trim_start_seq(x),
{
    lemma_trim_start_shape(x);
}

proof fn lemma_trim_end_blank(q: Seq<char>)
    ensures
        trim_end_seq(q + blank_line()) == trim_end_seq(q),
{
    let a = q + blank_line();
    assert(crate::text::is_ws(a.last()));
    assert(a.drop_last() =~= q.push('\n'));
    assert(crate::text::is_ws(a.drop_last().last()));
    assert(a.drop_last().drop_last() =~= q);
    assert(trim_end_seq(a) == trim_end_seq(a.drop_last()));
    assert(trim_end_seq(a.drop_last()) == trim_end_seq(a.drop_last().drop_last()));
}

proof fn lemma_trim_start_blank(t: Seq<char>)
    ensures
        trim_start_seq(blank_line() + t) == trim_start_seq(t),
{
    let a = blank_line() + t;
    assert(crate::text::is_ws(a[0]));
    assert(a.drop_first() =~= seq!['\n'] + t);
    assert(crate::text::is_ws(a.drop_first()[0]));
    assert(a.drop_first().drop_first() =~= t);
    assert(trim_start_seq(a) == trim_start_seq(a.drop_first()));
    assert(trim_start_seq(a.drop_first()) == trim_start_seq(a.drop_first().drop_first()));
}

/// A body that is blank when trimmed is blank when trimmed at the end.
proof fn lemma_trim_blank(x: Seq<char>)
    ensures
        trim_end_seq(x).len() == 0 ==> trim_seq(x).len() == 0,
{
    lemma_trim_end_shape(x);
    lemma_trim_start_shape(x);
    if trim_end_seq(x).len() == 0 {
        assert(trim_start_seq(x).len() == 0);
        assert(trim_start_seq(x) =~= Seq::<char>::empty());
    }
}

proof fn lemma_first_after_blank(q: Seq<char>, n: Seq<char>, t: Seq<char>)
    requires
        no_newline(n),
        n.len() > 0,
        forall|i: int| !matches_at(q, n, i),
        matches_at(t, n, 0),
    ensures
        first_match(q + blank_line() + t, n) == q.len() + 2,
{
    let h = q + blank_line() + t;
    let p: int = q.len() as int + 2;
    assert(h.subrange(p, p + n.len()) =~= t.subrange(0, n.len() as int));
    assert forall|j: int| 0 <= j < p implies !matches_at(h, n, j) by {
        if matches_at(h, n, j) {
            if j + n.len() <= q.len() {
                assert(h.subrange(j, j + n.len()) =~= q.subrange(j, j + n.len()));
                assert(matches_at(q, n, j));
            } else if j <= q.len() {
                assert(h[q.len() as int] == '\n');
                assert(h.subrange(j, j + n.len())[q.len() - j] == h[q.len() as int]);
                assert(n[q.len() - j] == '\n');
            } else {
                assert(h[j] == '\n');
                assert(h.subrange(j, j + n.len())[0] == h[j]);
                assert(n[0] == '\n');
            }
        }
    }
    lemma_first_match(h, n, p);
}

proof fn lemma_first_at_start(t: Seq<char>, n: Seq<char>)
    requires
        matches_at(t, n, 0),
    ensures
        first_match(t, n) == 0,
{
    lemma_first_match(t, n, 0);
}

/// The block is a managed block: it starts with the begin marker and holds
/// the end marker once, at its end.
pub open spec fn managed_block(block: Seq<char>) -> bool {
    &&& matches_at(block, KNIT_PR_BLOCK_BEGIN@, 0)
    &&& KNIT_PR_BLOCK_END@.len() <= block.len()
    &&& forall|i: int| matches_at(block, KNIT_PR_BLOCK_END@, i) <==> i == block.len() - KNIT_PR_BLOCK_END@.len()
}

proof fn lemma_first_end(block: Seq<char>, s: Seq<char>)
    requires
        managed_block(block),
    ensures
        first_match(block + s, KNIT_PR_BLOCK_END@) == block.len() - KNIT_PR_BLOCK_END@.len(),
{
    let e = KNIT_PR_BLOCK_END@;
    let h = block + s;
    let p = block.len() - e.len();
    assert(matches_at(block, e, p));
    assert(h.subrange(p, p + e.len()) =~= block.subrange(p, p + e.len()));
    assert forall|j: int| 0 <= j < p implies !matches_at(h, e, j) by {
        if matches_at(h, e, j) {
            assert(h.subrange(j, j + e.len()) =~= block.subrange(j, j + e.len()));
            assert(matches_at(block, e, j));
        }
    }
    lemma_first_match(h, e, p);
}

proof fn lemma_no_match_in_prefix(body: Seq<char>, n: Seq<char>, p: int, k: int)
    requires
        0 <= k <= p <= body.len(),
        n.len() > 0,
        forall|j: int| 0 <= j < p ==> !matches_at(body, n, j),
    ensures
        forall|i: int| !matches_at(body.take(k), n, i),
{
    assert forall|i: int| !matches_at(body.take(k), n, i) by {
        if matches_at(body.take(k), n, i) {
            assert(body.take(k).subrange(i, i + n.len()) =~= body.subrange(i, i + n.len()));
            assert(matches_at(body, n, i));
        }
    }
}

proof fn lemma_has_first_match(h: Seq<char>, n: Seq<char>, i: int)
    requires
        matches_at(h, n, i),
    ensures
        matches_at(h, n, first_match(h, n)),
        forall|j: int| 0 <= j < first_match(h, n) ==> !matches_at(h, n, j),
    decreases i,
{
    if exists|j: int| 0 <= j < i && matches_at(h, n, j) {
        let j = choose|j: int| 0 <= j < i && matches_at(h, n, j);
        lemma_has_first_match(h, n, j);
    } else {
        lemma_first_match(h, n, i);
    }
}

/// The text around a managed block, joined to it by blank lines: `q` before
/// it and `a` after it, each left out when empty.
pub open spec fn framed(q: Seq<char>, block: Seq<char>, a: Seq<char>) -> Seq<char> {
    (if q.len() == 0 {
        Seq::empty()
    } else {
        q + blank_line()
    }) + block + (if a.len() == 0 {
        Seq::empty()
    } else {
        blank_line() + a
    })
}

/// What an upsert makes of a body whose first managed block begins at
/// `begin` and whose first end marker after it is `r` characters further.
proof fn lemma_upsert_unfold(h: Seq<char>, block: Seq<char>, begin: int, r: int)
    requires
        matches_at(h, KNIT_PR_BLOCK_BEGIN@, begin),
        forall|j: int| 0 <= j < begin ==> !matches_at(h, KNIT_PR_BLOCK_BEGIN@, j),
        matches_at(h.skip(begin), KNIT_PR_BLOCK_END@, r),
        forall|j: int| 0 <= j < r ==> !matches_at(h.skip(begin), KNIT_PR_BLOCK_END@, j),
    ensures
        upsert_spec(h, block) == framed(
            trim_end_seq(h.take(begin)),
            block,
            trim_start_seq(h.skip(begin + r + KNIT_PR_BLOCK_END@.len())),
        ),
{
    lemma_markers();
    lemma_first_match(h, KNIT_PR_BLOCK_BEGIN@, begin);
    lemma_first_match(h.skip(begin), KNIT_PR_BLOCK_END@, r);
    assert(contains_seq(h, KNIT_PR_BLOCK_BEGIN@));
    assert(contains_seq(h.skip(begin), KNIT_PR_BLOCK_END@));
    let before = trim_end_seq(h.take(begin));
    let after = trim_start_seq(h.skip(begin + r + KNIT_PR_BLOCK_END@.len()));
    let f = framed(before, block, after);
    if before.len() == 0 && after.len() == 0 {
        assert(f =~= block);
    } else if before.len() == 0 {
        assert(f =~= block + "\n\n"@ + after);
    } else if after.len() == 0 {
        assert(f =~= before + "\n\n"@ + block);
    } else {
        assert(f =~= before + "\n\n"@ + block + "\n\n"@ + after);
    }
}

/// Where the markers stand in a framed block.
proof fn lemma_framed_markers(q: Seq<char>, block: Seq<char>, a: Seq<char>, once: Seq<char>, begin: int, r: int)
    requires
        managed_block(block),
        forall|i: int| !matches_at(q, KNIT_PR_BLOCK_BEGIN@, i),
        once == framed(q, block, a),
        begin == (if q.len() == 0 { 0 } else { q.len() as int + 2 }),
        r == block.len() - KNIT_PR_BLOCK_END@.len(),
    ensures
        matches_at(once, KNIT_PR_BLOCK_BEGIN@, begin),
        forall|j: int| 0 <= j < begin ==> !matches_at(once, KNIT_PR_BLOCK_BEGIN@, j),
        matches_at(once.skip(begin), KNIT_PR_BLOCK_END@, r),
        forall|j: int| 0 <= j < r ==> !matches_at(once.skip(begin), KNIT_PR_BLOCK_END@, j),
        once.take(begin) == (if q.len() == 0 { Seq::<char>::empty() } else { q + blank_line() }),
        once.skip(begin + r + KNIT_PR_BLOCK_END@.len()) == (if a.len() == 0 { Seq::<char>::empty() } else { blank_line() + a }),
{
    lemma_markers();
    let b = KNIT_PR_BLOCK_BEGIN@;
    let e = KNIT_PR_BLOCK_END@;
    let pre: Seq<char> = if q.len() == 0 { Seq::empty() } else { q + blank_line() };
    let post: Seq<char> = if a.len() == 0 { Seq::empty() } else { blank_line() + a };
    let tail = block + post;
    assert(once =~= pre + tail);
    assert(tail.subrange(0, b.len() as int) =~= block.subrange(0, b.len() as int));
    assert(matches_at(tail, b, 0));
    if q.len() == 0 {
        assert(once =~= tail);
        lemma_first_at_start(once, b);
        lemma_has_first_match(once, b, 0);
    } else {
        assert(once =~= q + blank_line() + tail);
        lemma_first_after_blank(q, b, tail);
        assert(once.subrange(begin, begin + b.len()) =~= tail.subrange(0, b.len() as int));
        lemma_has_first_match(once, b, begin);
    }
    assert(once.skip(begin) =~= tail);
    lemma_first_end(block, post);
    assert(matches_at(block, e, r));
    assert(tail.subrange(r, r + e.len()) =~= block.subrange(r, r + e.len()));
    lemma_has_first_match(tail, e, r);
    assert(once.take(begin) =~= pre);
    assert(once.skip(begin + r + e.len()) =~= post);
}

/// A body that is a managed block framed by text without the begin marker
/// before it (trimmed at its end) and text after it (trimmed at its start)
/// is left as it is by an upsert of that block.
proof fn lemma_upsert_framed(q: Seq<char>, block: Seq<char>, a: Seq<char>)
    requires
        managed_block(block),
        forall|i: int| !matches_at(q, KNIT_PR_BLOCK_BEGIN@, i),
        trim_end_seq(q) == q,
        trim_start_seq(a) == a,
    ensures
        upsert_spec(framed(q, block, a), block) == framed(q, block, a),
{
    let once = framed(q, block, a);
    let begin: int = if q.len() == 0 { 0 } else { q.len() as int + 2 };
    let r: int = block.len() - KNIT_PR_BLOCK_END@.len();
    lemma_framed_markers(q, block, a, once, begin, r);
    lemma_upsert_unfold(once, block, begin, r);
    if q.len() == 0 {
        assert(trim_end_seq(Seq::<char>::empty()) =~= Seq::<char>::empty());
    } else {
        lemma_trim_end_blank(q);
    }
    if a.len() == 0 {
        assert(trim_start_seq(Seq::<char>::empty()) =~= Seq::<char>::empty());
    } else {
        lemma_trim_start_blank(a);
    }
}

/// A body holds a well-formed managed block, or none: when the begin
/// marker occurs, an end marker follows its first occurrence.
pub open spec fn closed_block(body: Seq<char>) -> bool {
    contains_seq(body, KNIT_PR_BLOCK_BEGIN@) ==> contains_seq(
        body.skip(first_match(body, KNIT_PR_BLOCK_BEGIN@)),
        KNIT_PR_BLOCK_END@,
    )
}

/// Upserting into a body without a begin marker appends the block.
proof fn lemma_upsert_appends(body: Seq<char>, block: Seq<char>)
    requires
        !contains_seq(body, KNIT_PR_BLOCK_BEGIN@),
    ensures
        upsert_spec(body, block) == (if trim_seq(body).len() == 0 {
            block
        } else {
            trim_end_seq(body) + blank_line() + block
        }),
{
    lemma_markers();
}

/// Re-syncing an unchanged managed block leaves the PR body as it is:
/// upserting a block a second time changes nothing, whenever the block is a
/// managed block and the body has no unterminated one.
pub proof fn lemma_upsert_idempotent(body: Seq<char>, block: Seq<char>)
    requires
        managed_block(block),
        closed_block(body),
    ensures
        upsert_spec(upsert_spec(body, block), block) == upsert_spec(body, block),
{
    let b = KNIT_PR_BLOCK_BEGIN@;
    let e = KNIT_PR_BLOCK_END@;
    lemma_markers();
    if !contains_seq(body, b) {
        lemma_upsert_appends(body, block);
        if trim_seq(body).len() == 0 {
            assert(framed(Seq::empty(), block, Seq::empty()) =~= block);
            lemma_upsert_framed(Seq::empty(), block, Seq::empty());
        } else {
            let q = trim_end_seq(body);
            lemma_trim_blank(body);
            lemma_trim_end_shape(body);
            lemma_trim_end_idempotent(body);
            assert forall|i: int| !matches_at(q, b, i) by {
                if matches_at(q, b, i) {
                    assert(q.subrange(i, i + b.len()) =~= body.subrange(i, i + b.len()));
                    assert(matches_at(body, b, i));
                }
            }
            assert(framed(q, block, Seq::empty()) =~= q + blank_line() + block);
            lemma_upsert_framed(q, block, Seq::empty());
        }
    } else {
        let i0 = choose|i: int| matches_at(body, b, i);
        lemma_has_first_match(body, b, i0);
        let begin = first_match(body, b);
        let rest = body.skip(begin);
        let j0 = choose|i: int| matches_at(rest, e, i);
        lemma_has_first_match(rest, e, j0);
        let r = first_match(rest, e);
        lemma_upsert_unfold(body, block, begin, r);
        let before = trim_end_seq(body.take(begin));
        let after = trim_start_seq(body.skip(begin + r + e.len()));
        lemma_trim_end_shape(body.take(begin));
        lemma_trim_end_idempotent(body.take(begin));
        lemma_trim_start_idempotent(body.skip(begin + r + e.len()));
        assert(before =~= body.take(before.len() as int));
        lemma_no_match_in_prefix(body, b, begin, before.len() as int);
        lemma_upsert_framed(before, block, after);
    }
}

} // verus!
