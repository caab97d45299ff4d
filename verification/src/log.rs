//! `knit show`: what is shown for a target and which details a ledger node
//! has to show.
use vstd::prelude::*;

use crate::model::{BundleNode, ChangeGroup, CommitRef, RepoChange};
use crate::text::{append_str, chars_of, starts_with_chars, starts_with_seq, str_eq, string_from_chars, trim_chars, trim_seq};

verus! {

/// What `knit show <target>` resolves its target against.
#[derive(Debug, Clone, Copy, PartialEq, Eq, Structural)]
pub enum ShowSource {
    /// A ledger node of the bundle.
    Node,
    /// A commit group of a bundle that has no ledger yet.
    CommitGroup,
}

/// Targets resolve against the ledger when the bundle has one, else
/// against its commit groups.
pub fn show_target(b: &ChangeGroup) -> (s: ShowSource)
    ensures
        s == (if b.nodes@.len() > 0 { ShowSource::Node } else { ShowSource::CommitGroup }),
{
    if b.nodes.len() > 0 {
        ShowSource::Node
    } else {
        ShowSource::CommitGroup
    }
}

/// The details shown for a node, by its type.
#[derive(Debug, Clone, Copy, PartialEq, Eq, Structural)]
pub enum NodeDetail {
    /// The commits of a commit or revert group.
    CommitRefs,
    /// The repo movements of an observation or land update.
    Observed,
    /// The removed repos.
    RemovedRepos,
    /// The reverted node, plan, run, provider and PR URLs of a landing or
    /// provider revert.
    Landing,
    /// No git details for other types.
    NoDetails,
}

pub open spec fn detail_of(t: Seq<char>) -> NodeDetail {
    if t == "commit.group"@ || t == "revert.group"@ {
        NodeDetail::CommitRefs
    } else if t == "git.observed"@ || t == "land.update"@ {
        NodeDetail::Observed
    } else if t == "repo.removed"@ {
        NodeDetail::RemovedRepos
    } else if t == "feature.landed"@ || t == "pr.revert"@ {
        NodeDetail::Landing
    } else {
        NodeDetail::NoDetails
    }
}

pub fn node_detail(node: &BundleNode) -> (d: NodeDetail)
    ensures
        d == detail_of(node.node_type@),
{
    let t = node.node_type.as_str();
    if str_eq(t, "commit.group") || str_eq(t, "revert.group") {
        NodeDetail::CommitRefs
    } else if str_eq(t, "git.observed") || str_eq(t, "land.update") {
        NodeDetail::Observed
    } else if str_eq(t, "repo.removed") {
        NodeDetail::RemovedRepos
    } else if str_eq(t, "feature.landed") || str_eq(t, "pr.revert") {
        NodeDetail::Landing
    } else {
        NodeDetail::NoDetails
    }
}

/// Why a log count is refused.
#[derive(Debug, Clone, Copy, PartialEq, Eq, Structural)]
pub enum LimitError {
    BothLimits,
    NotACount,
    TooLarge,
}

impl LimitError {
    pub open spec fn text(self) -> Seq<char> {
        match self {
            LimitError::BothLimits => "Use either -n/--limit or -<count>, not both."@,
            LimitError::NotACount => "Expected a log count like `-2`."@,
            LimitError::TooLarge => "number too large to fit in target type"@,
        }
    }

    pub fn message(self) -> (out: String)
        ensures
            out@ == self.text(),
    {
        let s = match self {
            LimitError::BothLimits => "Use either -n/--limit or -<count>, not both.",
            LimitError::NotACount => "Expected a log count like `-2`.",
            LimitError::TooLarge => "number too large to fit in target type",
        };
        string_from_chars(&chars_of(s))
    }
}

pub open spec fn is_digit(c: char) -> bool {
    '0' <= c && c <= '9'
}

/// The value of a string of decimal digits.
pub open spec fn decimal_value(s: Seq<char>) -> nat
    decreases s.len(),
{
    if s.len() == 0 {
        0
    } else {
        decimal_value(s.drop_last()) * 10 + ((s.last() as u32) - 48) as nat
    }
}

/// The digits of a shorthand count: the trimmed text without one leading `-`.
pub open spec fn count_text(raw: Seq<char>) -> Seq<char> {
    let t = trim_seq(raw);
    if t.len() > 0 && t[0] == '-' {
        t.skip(1)
    } else {
        t
    }
}

/// The log limit from `-n/--limit` and the `-<count>` shorthand.
pub fn resolve_limit(limit: Option<usize>, shorthand: Option<&str>) -> (r: Result<Option<usize>, LimitError>)
    ensures
        match shorthand {
            None => r == Ok::<Option<usize>, LimitError>(limit),
            Some(raw) => if limit is Some {
                r == Err::<Option<usize>, LimitError>(LimitError::BothLimits)
            } else {
                let c = count_text(raw@);
                if c.len() == 0 || !(forall|i: int| 0 <= i < c.len() ==> is_digit(#[trigger] c[i])) {
                    r == Err::<Option<usize>, LimitError>(LimitError::NotACount)
                } else if decimal_value(c) > usize::MAX {
                    r == Err::<Option<usize>, LimitError>(LimitError::TooLarge)
                } else {
                    r matches Ok(Some(n)) && n == decimal_value(c)
                }
            },
        },
{
    let raw = match shorthand {
        None => return Ok(limit),
        Some(raw) => raw,
    };
    if limit.is_some() {
        return Err(LimitError::BothLimits);
    }
    let t = trim_chars(&chars_of(raw));
    let start: usize = if t.len() > 0 && t[0] == '-' { 1 } else { 0 };
    let ghost c = count_text(raw@);
    proof {
        assert(c =~= t@.skip(start as int));
    }
    if start == t.len() {
        proof {
            assert(c.len() == 0);
        }
        return Err(LimitError::NotACount);
    }
    let mut i: usize = start;
    while i < t.len()
        invariant
            start <= i <= t@.len(),
            c == t@.skip(start as int),
            c == count_text(raw@),
            shorthand == Some(raw),
            limit is None,
            forall|k: int| 0 <= k < i - start ==> is_digit(#[trigger] c[k]),
        decreases t.len() - i,
    {
        if !('0' <= t[i] && t[i] <= '9') {
            proof {
                assert(c[i - start] == t@[i as int]);
                assert(!is_digit(c[i - start]));
            }
            return Err(LimitError::NotACount);
        }
        proof {
            assert(c[i - start] == t@[i as int]);
        }
        i += 1;
    }
    let mut value: usize = 0;
    let mut j: usize = start;
    proof {
        assert(c.take(0) =~= Seq::<char>::empty());
    }
    while j < t.len()
        invariant
            start <= j <= t@.len(),
            c == t@.skip(start as int),
            c == count_text(raw@),
            c.len() > 0,
            shorthand == Some(raw),
            limit is None,
            forall|k: int| 0 <= k < c.len() ==> is_digit(#[trigger] c[k]),
            value == decimal_value(c.take(j - start)),
        decreases t.len() - j,
    {
        proof {
            assert(c[j - start] == t@[j as int]);
            assert(is_digit(c[j - start]));
        }
        let d = (t[j] as u32 - 48) as usize;
        proof {
            assert(c.take(j - start + 1).drop_last() =~= c.take(j - start));
            assert(c.take(j - start + 1).last() == t@[j as int]);
        }
        if value > (usize::MAX - d) / 10 {
            proof {
                lemma_decimal_grows(c, j - start + 1);
                assert(decimal_value(c.take(j - start + 1)) == value * 10 + d);
                assert(value * 10 + d > usize::MAX) by (nonlinear_arith)
                    requires
                        value > (usize::MAX - d) / 10,
                        d <= 9,
                ;
                assert(c.take(c.len() as int) =~= c);
            }
            return Err(LimitError::TooLarge);
        }
        proof {
            assert(value * 10 + d <= usize::MAX) by (nonlinear_arith)
                requires
                    value <= (usize::MAX - d) / 10,
                    d <= 9,
            ;
        }
        value = value * 10 + d;
        j += 1;
    }
    proof {
        assert(c.take(c.len() as int) =~= c);
    }
    Ok(Some(value))
}

/// Decimal values only grow as digits are added.
proof fn lemma_decimal_grows(c: Seq<char>, n: int)
    requires
        0 <= n <= c.len(),
        forall|k: int| 0 <= k < c.len() ==> is_digit(#[trigger] c[k]),
    ensures
        decimal_value(c.take(n)) <= decimal_value(c),
    decreases c.len() - n,
{
    if n < c.len() {
        lemma_decimal_grows(c, n + 1);
        assert(c.take(n + 1).drop_last() =~= c.take(n));
        assert(is_digit(c.take(n + 1).last()));
    } else {
        assert(c.take(n) =~= c);
    }
}

/// Where a log of `len` entries starts to show the last `limit` of them.
pub fn limited_start(len: usize, limit: Option<usize>) -> (start: usize)
    ensures
        start == (match limit {
            Some(l) => if len > l { (len - l) as usize } else { 0 },
            None => 0,
        }),
{
    match limit {
        Some(l) => if len > l {
            len - l
        } else {
            0
        },
        None => 0,
    }
}

/// How a piece of a log line is styled.
#[derive(Debug, Clone, Copy, PartialEq, Eq, Structural)]
pub enum Style {
    Plain,
    Node,
    /// A repo id padded to a column of ten.
    RepoField,
    Repo,
    /// A commit, shown abbreviated.
    Sha,
    Heading,
    Danger,
    Good,
    Movement,
    Muted,
}

/// A styled piece of a log line.
#[derive(Debug, Clone)]
pub struct Segment {
    pub style: Style,
    pub text: String,
}

pub open spec fn seg_view(s: Segment) -> (Style, Seq<char>) {
    (s.style, s.text@)
}

pub open spec fn line_view(l: Seq<Segment>) -> Seq<(Style, Seq<char>)> {
    l.map_values(|s: Segment| seg_view(s))
}

pub open spec fn lines_view(ls: Seq<Vec<Segment>>) -> Seq<Seq<(Style, Seq<char>)>> {
    ls.map_values(|l: Vec<Segment>| line_view(l@))
}

pub open spec fn plain(t: Seq<char>) -> (Style, Seq<char>) {
    (Style::Plain, t)
}

pub open spec fn opt_or(o: Option<String>, d: Seq<char>) -> Seq<char> {
    match o {
        Some(s) => s@,
        None => d,
    }
}

/// `  <repo>  <sha>` for each commit.
pub open spec fn commit_lines(cs: Seq<CommitRef>) -> Seq<Seq<(Style, Seq<char>)>> {
    cs.map_values(|c: CommitRef| seq![plain("  "@), (Style::RepoField, c.repo_id@), plain(" "@), (Style::Sha, c.sha@)])
}

/// A line of a movement under its repo: the movement label, then a commit.
pub open spec fn sha_lines(repo: Seq<char>, label: Seq<char>, gap: Seq<char>, shas: Seq<String>) -> Seq<Seq<(Style, Seq<char>)>> {
    shas.map_values(|s: String| seq![plain("  "@), (Style::RepoField, repo), plain(" "@), (Style::Movement, label), plain(gap), (Style::Sha, s@)])
}

pub open spec fn before_seg(ch: RepoChange) -> (Style, Seq<char>) {
    match ch.before_sha {
        Some(b) => (Style::Sha, b@),
        None => (Style::Muted, "-"@),
    }
}

/// The lines of one observed repo movement.
pub open spec fn change_lines(ch: RepoChange) -> Seq<Seq<(Style, Seq<char>)>> {
    let m = ch.movement@;
    if m == "advanced"@ {
        if ch.commits@.len() == 0 {
            seq![seq![plain("  "@), (Style::RepoField, ch.repo_id@), plain(" "@), (Style::Movement, "advanced"@), plain(" "@), (Style::Sha, ch.after_sha@)]]
        } else {
            sha_lines(ch.repo_id@, "advanced"@, " "@, ch.commits@)
        }
    } else if m == "rewound"@ {
        seq![seq![plain("  "@), (Style::RepoField, ch.repo_id@), plain(" "@), (Style::Movement, "rewound"@), plain("  "@), before_seg(ch), plain(" -> "@), (Style::Sha, ch.after_sha@)]]
            + sha_lines(""@, "dropped"@, "  "@, ch.dropped_commits@)
    } else if m == "diverged"@ {
        seq![seq![plain("  "@), (Style::RepoField, ch.repo_id@), plain(" "@), (Style::Movement, "diverged"@), plain(" "@), before_seg(ch), plain(" -> "@), (Style::Sha, ch.after_sha@)]]
            + sha_lines(""@, "added"@, "    "@, ch.commits@) + sha_lines(""@, "dropped"@, "  "@, ch.dropped_commits@)
    } else {
        Seq::empty()
    }
}

pub open spec fn changes_lines(chs: Seq<RepoChange>) -> Seq<Seq<(Style, Seq<char>)>>
    decreases chs.len(),
{
    if chs.len() == 0 {
        Seq::empty()
    } else {
        changes_lines(chs.drop_last()) + change_lines(chs.last())
    }
}

/// `  <repo>` for each repo id the node records.
pub open spec fn repo_id_lines(ids: Option<Vec<String>>) -> Seq<Seq<(Style, Seq<char>)>> {
    match ids {
        Some(v) => v@.map_values(|r: String| seq![plain("  "@), (Style::Repo, r@)]),
        None => Seq::empty(),
    }
}

/// The lines `knit log` shows for a ledger node, by its type.
pub open spec fn node_lines_spec(n: BundleNode) -> Seq<Seq<(Style, Seq<char>)>> {
    let t = n.node_type@;
    let head = (Style::Node, n.id@);
    if t == "commit.group"@ {
        seq![seq![head, plain("  "@), plain(opt_or(n.message, "Commit group"@))]] + commit_lines(n.commits@)
    } else if t == "revert.group"@ {
        seq![seq![head, plain("  "@), (Style::Danger, "revert"@), plain(" "@), (Style::Node, opt_or(n.target_node_id, "unknown"@)),
            plain("  "@), plain(opt_or(n.message, "Revert"@))]] + commit_lines(n.commits@)
    } else if t == "git.observed"@ || t == "land.update"@ {
        seq![seq![head, plain("  "@), (Style::Heading, if t == "land.update"@ { "updated from base"@ } else { "observed git changes"@ })]]
            + changes_lines(n.repo_changes@)
    } else if t == "checkpoint"@ {
        seq![seq![head, plain("  "@), (Style::Heading, "checkpoint"@), plain("  "@), plain(opt_or(n.message, ""@))]]
    } else if t == "check.recorded"@ {
        let msg = opt_or(n.message, ""@);
        seq![seq![head, plain("  "@), (Style::Heading, "check "@ + opt_or(n.title, "check"@)), plain(" "@),
            if starts_with_seq(msg, "pass"@) { (Style::Good, "pass"@) } else { (Style::Danger, "fail"@) }, plain("  "@), (Style::Muted, msg)]]
            + n.commits@.map_values(|c: CommitRef| seq![plain("  "@), (Style::Repo, c.repo_id@), plain(" "@), (Style::Sha, c.sha@)])
    } else if t == "feature.closed"@ {
        seq![seq![head, plain("  "@), (Style::Danger, "closed"@), plain("  "@), plain(opt_or(n.message, "closed"@))]]
    } else if t == "feature.landed"@ {
        seq![seq![head, plain("  "@), (Style::Good, "landed"@), plain("  "@), plain(opt_or(n.provider, "provider"@))]] + repo_id_lines(n.repo_ids)
    } else if t == "pr.revert"@ {
        seq![seq![head, plain("  "@), (Style::Movement, "pr revert"@), plain("  "@), plain(opt_or(n.provider, "provider"@))]] + repo_id_lines(n.repo_ids)
    } else if t == "repo.removed"@ {
        seq![seq![head, plain("  "@), (Style::Danger, "removed repos"@)]] + repo_id_lines(n.repo_ids)
    } else {
        Seq::empty()
    }
}

fn seg(style: Style, text: &str) -> (s: Segment)
    ensures
        seg_view(s) == (style, text@),
{
    Segment { style, text: string_from_chars(&chars_of(text)) }
}

fn opt_text(o: &Option<String>, d: &str) -> (s: String)
    ensures
        s@ == opt_or(*o, d@),
{
    match o {
        Some(x) => x.clone(),
        None => string_from_chars(&chars_of(d)),
    }
}

fn push_line(out: &mut Vec<Vec<Segment>>, line: Vec<Segment>)
    ensures
        lines_view(final(out)@) == lines_view(old(out)@).push(line_view(line@)),
{
    let ghost prev = out@;
    out.push(line);
    proof {
        assert(lines_view(out@) =~= lines_view(prev).push(line_view(line@)));
    }
}

fn push_commit_lines(out: &mut Vec<Vec<Segment>>, cs: &Vec<CommitRef>, repo_style: Style)
    requires
        repo_style == Style::RepoField || repo_style == Style::Repo,
    ensures
        lines_view(final(out)@) == lines_view(old(out)@) + cs@.map_values(|c: CommitRef| seq![plain("  "@), (repo_style, c.repo_id@), plain(" "@), (Style::Sha, c.sha@)]),
{
    let ghost start = lines_view(out@);
    let mut i: usize = 0;
    while i < cs.len()
        invariant
            i <= cs@.len(),
            lines_view(out@) == start + cs@.take(i as int).map_values(|c: CommitRef| seq![plain("  "@), (repo_style, c.repo_id@), plain(" "@), (Style::Sha, c.sha@)]),
        decreases cs.len() - i,
    {
        let mut line: Vec<Segment> = Vec::new();
        line.push(seg(Style::Plain, "  "));
        line.push(Segment { style: repo_style, text: cs[i].repo_id.clone() });
        line.push(seg(Style::Plain, " "));
        line.push(Segment { style: Style::Sha, text: cs[i].sha.clone() });
        proof {
            assert(line_view(line@) =~= seq![plain("  "@), (repo_style, cs@[i as int].repo_id@), plain(" "@), (Style::Sha, cs@[i as int].sha@)]);
            assert(cs@.take(i + 1) =~= cs@.take(i as int).push(cs@[i as int]));
            assert(cs@.take(i + 1).map_values(|c: CommitRef| seq![plain("  "@), (repo_style, c.repo_id@), plain(" "@), (Style::Sha, c.sha@)])
                =~= cs@.take(i as int).map_values(|c: CommitRef| seq![plain("  "@), (repo_style, c.repo_id@), plain(" "@), (Style::Sha, c.sha@)]).push(line_view(line@)));
        }
        push_line(out, line);
        i += 1;
    }
    proof {
        assert(cs@.take(cs@.len() as int) =~= cs@);
    }
}

fn push_sha_lines(out: &mut Vec<Vec<Segment>>, repo: &str, label: &str, gap: &str, shas: &Vec<String>)
    ensures
        lines_view(final(out)@) == lines_view(old(out)@) + sha_lines(repo@, label@, gap@, shas@),
{
    let ghost start = lines_view(out@);
    let mut i: usize = 0;
    while i < shas.len()
        invariant
            i <= shas@.len(),
            lines_view(out@) == start + sha_lines(repo@, label@, gap@, shas@.take(i as int)),
        decreases shas.len() - i,
    {
        let mut line: Vec<Segment> = Vec::new();
        line.push(seg(Style::Plain, "  "));
        line.push(seg(Style::RepoField, repo));
        line.push(seg(Style::Plain, " "));
        line.push(seg(Style::Movement, label));
        line.push(seg(Style::Plain, gap));
        line.push(Segment { style: Style::Sha, text: shas[i].clone() });
        proof {
            assert(line_view(line@) =~= seq![plain("  "@), (Style::RepoField, repo@), plain(" "@), (Style::Movement, label@), plain(gap@), (Style::Sha, shas@[i as int]@)]);
            assert(shas@.take(i + 1) =~= shas@.take(i as int).push(shas@[i as int]));
            assert(sha_lines(repo@, label@, gap@, shas@.take(i + 1)) =~= sha_lines(repo@, label@, gap@, shas@.take(i as int)).push(line_view(line@)));
        }
        push_line(out, line);
        i += 1;
    }
    proof {
        assert(shas@.take(shas@.len() as int) =~= shas@);
    }
}

fn before_segment(ch: &RepoChange) -> (s: Segment)
    ensures
        seg_view(s) == before_seg(*ch),
{
    match &ch.before_sha {
        Some(b) => Segment { style: Style::Sha, text: b.clone() },
        None => seg(Style::Muted, "-"),
    }
}

fn push_change_lines(out: &mut Vec<Vec<Segment>>, ch: &RepoChange)
    ensures
        lines_view(final(out)@) == lines_view(old(out)@) + change_lines(*ch),
{
    let ghost start = lines_view(out@);
    let m = ch.movement.as_str();
    let repo = ch.repo_id.as_str();
    if str_eq(m, "advanced") {
        if ch.commits.len() == 0 {
            let mut line: Vec<Segment> = Vec::new();
            line.push(seg(Style::Plain, "  "));
            line.push(seg(Style::RepoField, repo));
            line.push(seg(Style::Plain, " "));
            line.push(seg(Style::Movement, "advanced"));
            line.push(seg(Style::Plain, " "));
            line.push(Segment { style: Style::Sha, text: ch.after_sha.clone() });
            proof {
                assert(line_view(line@) =~= seq![plain("  "@), (Style::RepoField, ch.repo_id@), plain(" "@), (Style::Movement, "advanced"@), plain(" "@), (Style::Sha, ch.after_sha@)]);
            }
            push_line(out, line);
            proof {
                assert(lines_view(out@) =~= start + change_lines(*ch));
            }
        } else {
            push_sha_lines(out, repo, "advanced", " ", &ch.commits);
        }
    } else if str_eq(m, "rewound") || str_eq(m, "diverged") {
        let rewound = str_eq(m, "rewound");
        let mut line: Vec<Segment> = Vec::new();
        line.push(seg(Style::Plain, "  "));
        line.push(seg(Style::RepoField, repo));
        line.push(seg(Style::Plain, " "));
        line.push(seg(Style::Movement, if rewound { "rewound" } else { "diverged" }));
        line.push(seg(Style::Plain, if rewound { "  " } else { " " }));
        line.push(before_segment(ch));
        line.push(seg(Style::Plain, " -> "));
        line.push(Segment { style: Style::Sha, text: ch.after_sha.clone() });
        proof {
            reveal_strlit("rewound");
            reveal_strlit("diverged");
            let label = if rewound { "rewound"@ } else { "diverged"@ };
            let gap = if rewound { "  "@ } else { " "@ };
            assert(line_view(line@) =~= seq![plain("  "@), (Style::RepoField, ch.repo_id@), plain(" "@), (Style::Movement, label), plain(gap), before_seg(*ch), plain(" -> "@), (Style::Sha, ch.after_sha@)]);
        }
        push_line(out, line);
        let ghost mid = lines_view(out@);
        if !rewound {
            push_sha_lines(out, "", "added", "    ", &ch.commits);
        }
        push_sha_lines(out, "", "dropped", "  ", &ch.dropped_commits);
        proof {
            reveal_strlit("rewound");
            reveal_strlit("diverged");
            assert(lines_view(out@) =~= start + change_lines(*ch));
        }
    } else {
        proof {
            assert(change_lines(*ch) =~= Seq::<Seq<(Style, Seq<char>)>>::empty());
            assert(lines_view(out@) =~= start + change_lines(*ch));
        }
    }
}

fn push_repo_id_lines(out: &mut Vec<Vec<Segment>>, ids: &Option<Vec<String>>)
    ensures
        lines_view(final(out)@) == lines_view(old(out)@) + repo_id_lines(*ids),
{
    let ghost start = lines_view(out@);
    match ids {
        None => {
            proof {
                assert(lines_view(out@) =~= start + repo_id_lines(*ids));
            }
        },
        Some(v) => {
            let mut i: usize = 0;
            while i < v.len()
                invariant
                    i <= v@.len(),
                    *ids == Some(*v),
                    lines_view(out@) == start + v@.take(i as int).map_values(|r: String| seq![plain("  "@), (Style::Repo, r@)]),
                decreases v.len() - i,
            {
                let mut line: Vec<Segment> = Vec::new();
                line.push(seg(Style::Plain, "  "));
                line.push(Segment { style: Style::Repo, text: v[i].clone() });
                proof {
                    assert(line_view(line@) =~= seq![plain("  "@), (Style::Repo, v@[i as int]@)]);
                    assert(v@.take(i + 1) =~= v@.take(i as int).push(v@[i as int]));
                    assert(v@.take(i + 1).map_values(|r: String| seq![plain("  "@), (Style::Repo, r@)])
                        =~= v@.take(i as int).map_values(|r: String| seq![plain("  "@), (Style::Repo, r@)]).push(line_view(line@)));
                }
                push_line(out, line);
                i += 1;
            }
            proof {
                assert(v@.take(v@.len() as int) =~= v@);
            }
        },
    }
}

/// The lines `knit log` shows for a ledger node.
pub fn node_lines(n: &BundleNode) -> (out: Vec<Vec<Segment>>)
    ensures
        lines_view(out@) == node_lines_spec(*n),
{
    let mut out: Vec<Vec<Segment>> = Vec::new();
    let t = n.node_type.as_str();
    let mut head: Vec<Segment> = Vec::new();
    head.push(Segment { style: Style::Node, text: n.id.clone() });
    head.push(seg(Style::Plain, "  "));
    let ghost h0 = line_view(head@);
    proof {
        assert(h0 =~= seq![(Style::Node, n.id@), plain("  "@)]);
    }
    if str_eq(t, "commit.group") {
        head.push(Segment { style: Style::Plain, text: opt_text(&n.message, "Commit group") });
        proof {
            assert(line_view(head@) =~= seq![(Style::Node, n.id@), plain("  "@), plain(opt_or(n.message, "Commit group"@))]);
        }
        push_line(&mut out, head);
        push_commit_lines(&mut out, &n.commits, Style::RepoField);
        proof {
            assert(lines_view(out@) =~= node_lines_spec(*n));
        }
    } else if str_eq(t, "revert.group") {
        head.push(seg(Style::Danger, "revert"));
        head.push(seg(Style::Plain, " "));
        head.push(Segment { style: Style::Node, text: opt_text(&n.target_node_id, "unknown") });
        head.push(seg(Style::Plain, "  "));
        head.push(Segment { style: Style::Plain, text: opt_text(&n.message, "Revert") });
        proof {
            assert(line_view(head@) =~= seq![(Style::Node, n.id@), plain("  "@), (Style::Danger, "revert"@), plain(" "@), (Style::Node, opt_or(n.target_node_id, "unknown"@)),
                plain("  "@), plain(opt_or(n.message, "Revert"@))]);
        }
        push_line(&mut out, head);
        push_commit_lines(&mut out, &n.commits, Style::RepoField);
        proof {
            assert(lines_view(out@) =~= node_lines_spec(*n));
        }
    } else if str_eq(t, "git.observed") || str_eq(t, "land.update") {
        let update = str_eq(t, "land.update");
        head.push(seg(Style::Heading, if update { "updated from base" } else { "observed git changes" }));
        proof {
            assert(line_view(head@) =~= seq![(Style::Node, n.id@), plain("  "@), (Style::Heading, if n.node_type@ == "land.update"@ { "updated from base"@ } else { "observed git changes"@ })]);
        }
        push_line(&mut out, head);
        let ghost start = lines_view(out@);
        let mut i: usize = 0;
        proof {
            assert(n.repo_changes@.take(0) =~= Seq::<RepoChange>::empty());
            assert(start + changes_lines(n.repo_changes@.take(0)) =~= start);
        }
        while i < n.repo_changes.len()
            invariant
                i <= n.repo_changes@.len(),
                lines_view(out@) == start + changes_lines(n.repo_changes@.take(i as int)),
            decreases n.repo_changes.len() - i,
        {
            proof {
                assert(n.repo_changes@.take(i + 1).drop_last() =~= n.repo_changes@.take(i as int));
                assert(n.repo_changes@.take(i + 1).last() == n.repo_changes@[i as int]);
            }
            push_change_lines(&mut out, &n.repo_changes[i]);
            proof {
                assert(lines_view(out@) =~= start + changes_lines(n.repo_changes@.take(i + 1)));
            }
            i += 1;
        }
        proof {
            assert(n.repo_changes@.take(n.repo_changes@.len() as int) =~= n.repo_changes@);
            assert(lines_view(out@) =~= node_lines_spec(*n));
        }
    } else if str_eq(t, "checkpoint") {
        head.push(seg(Style::Heading, "checkpoint"));
        head.push(seg(Style::Plain, "  "));
        head.push(Segment { style: Style::Plain, text: opt_text(&n.message, "") });
        proof {
            assert(line_view(head@) =~= seq![(Style::Node, n.id@), plain("  "@), (Style::Heading, "checkpoint"@), plain("  "@), plain(opt_or(n.message, ""@))]);
        }
        push_line(&mut out, head);
        proof {
            assert(lines_view(out@) =~= node_lines_spec(*n));
        }
    } else if str_eq(t, "check.recorded") {
        let msg = opt_text(&n.message, "");
        let mut label: Vec<char> = Vec::new();
        append_str(&mut label, "check ");
        let name = opt_text(&n.title, "check");
        append_str(&mut label, name.as_str());
        head.push(Segment { style: Style::Heading, text: string_from_chars(&label) });
        head.push(seg(Style::Plain, " "));
        let pass = starts_with_chars(&chars_of(msg.as_str()), &chars_of("pass"));
        if pass {
            head.push(seg(Style::Good, "pass"));
        } else {
            head.push(seg(Style::Danger, "fail"));
        }
        head.push(seg(Style::Plain, "  "));
        head.push(Segment { style: Style::Muted, text: msg });
        proof {
            let m = opt_or(n.message, ""@);
            assert(line_view(head@) =~= seq![(Style::Node, n.id@), plain("  "@), (Style::Heading, "check "@ + opt_or(n.title, "check"@)), plain(" "@),
                if starts_with_seq(m, "pass"@) { (Style::Good, "pass"@) } else { (Style::Danger, "fail"@) }, plain("  "@), (Style::Muted, m)]);
        }
        push_line(&mut out, head);
        push_commit_lines(&mut out, &n.commits, Style::Repo);
        proof {
            assert(lines_view(out@) =~= node_lines_spec(*n));
        }
    } else if str_eq(t, "feature.closed") {
        head.push(seg(Style::Danger, "closed"));
        head.push(seg(Style::Plain, "  "));
        head.push(Segment { style: Style::Plain, text: opt_text(&n.message, "closed") });
        proof {
            assert(line_view(head@) =~= seq![(Style::Node, n.id@), plain("  "@), (Style::Danger, "closed"@), plain("  "@), plain(opt_or(n.message, "closed"@))]);
        }
        push_line(&mut out, head);
        proof {
            assert(lines_view(out@) =~= node_lines_spec(*n));
        }
    } else if str_eq(t, "feature.landed") || str_eq(t, "pr.revert") {
        let landed = str_eq(t, "feature.landed");
        if landed {
            head.push(seg(Style::Good, "landed"));
        } else {
            head.push(seg(Style::Movement, "pr revert"));
        }
        head.push(seg(Style::Plain, "  "));
        head.push(Segment { style: Style::Plain, text: opt_text(&n.provider, "provider") });
        proof {
            let mark = if landed { (Style::Good, "landed"@) } else { (Style::Movement, "pr revert"@) };
            assert(line_view(head@) =~= seq![(Style::Node, n.id@), plain("  "@), mark, plain("  "@), plain(opt_or(n.provider, "provider"@))]);
        }
        push_line(&mut out, head);
        push_repo_id_lines(&mut out, &n.repo_ids);
        proof {
            assert(lines_view(out@) =~= node_lines_spec(*n));
        }
    } else if str_eq(t, "repo.removed") {
        head.push(seg(Style::Danger, "removed repos"));
        proof {
            assert(line_view(head@) =~= seq![(Style::Node, n.id@), plain("  "@), (Style::Danger, "removed repos"@)]);
        }
        push_line(&mut out, head);
        push_repo_id_lines(&mut out, &n.repo_ids);
        proof {
            assert(lines_view(out@) =~= node_lines_spec(*n));
        }
    } else {
        proof {
            assert(lines_view(out@) =~= node_lines_spec(*n));
        }
    }
    out
}

} // verus!
