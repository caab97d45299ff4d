//! The process tree below a landing command, read from the `pid ppid`
//! table `ps` prints, so a timed-out command is terminated with every
//! process it started.
use vstd::prelude::*;

use crate::text::{chars_of, is_whitespace, is_ws, split_chars, split_on, views_of};

verus! {

/// Scanning `s` left to right: the words finished so far, and the word
/// being read.
pub open spec fn words_state(s: Seq<char>) -> (Seq<Seq<char>>, Seq<char>)
    decreases s.len(),
{
    if s.len() == 0 {
        (Seq::empty(), Seq::empty())
    } else {
        let (done, cur) = words_state(s.drop_last());
        let x = s.last();
        if is_ws(x) {
            if cur.len() > 0 {
                (done.push(cur), Seq::empty())
            } else {
                (done, Seq::empty())
            }
        } else {
            (done, cur.push(x))
        }
    }
}

/// The words of `s` (as `str::split_whitespace`): its maximal runs of
/// non-whitespace characters, in order.
pub open spec fn words(s: Seq<char>) -> Seq<Seq<char>> {
    let (done, cur) = words_state(s);
    if cur.len() > 0 {
        done.push(cur)
    } else {
        done
    }
}

/// The words of `v`.
pub fn split_words(v: &Vec<char>) -> (out: Vec<Vec<char>>)
    ensures
        views_of(out@) == words(v@),
{
    let mut done: Vec<Vec<char>> = Vec::new();
    let mut cur: Vec<char> = Vec::new();
    let mut i: usize = 0;
    while i < v.len()
        invariant
            i <= v@.len(),
            (views_of(done@), cur@) == words_state(v@.take(i as int)),
        decreases v.len() - i,
    {
        proof {
            assert(v@.take(i + 1).drop_last() =~= v@.take(i as int));
        }
        let x = v[i];
        if is_whitespace(x) {
            if cur.len() > 0 {
                let ghost d0 = done@;
                let w = cur;
                done.push(w);
                cur = Vec::new();
                proof {
                    assert(views_of(done@) =~= views_of(d0).push(w@));
                    assert(cur@ =~= Seq::<char>::empty());
                }
            } else {
                proof {
                    assert(cur@ =~= Seq::<char>::empty());
                }
            }
        } else {
            cur.push(x);
        }
        i += 1;
    }
    proof {
        assert(v@.take(v@.len() as int) =~= v@);
    }
    if cur.len() > 0 {
        let ghost d0 = done@;
        let w = cur;
        done.push(w);
        proof {
            assert(views_of(done@) =~= views_of(d0).push(w@));
        }
    }
    done
}

pub open spec fn is_digit(c: char) -> bool {
    '0' <= c && c <= '9'
}

/// The value of a run of decimal digits.
pub open spec fn digits_value(s: Seq<char>) -> nat
    decreases s.len(),
{
    if s.len() == 0 {
        0
    } else {
        digits_value(s.drop_last()) * 10 + ((s.last() as nat) - 48) as nat
    }
}

/// Every character is a decimal digit.
pub open spec fn all_digits(d: Seq<char>) -> bool {
    forall|i: int| 0 <= i < d.len() ==> is_digit(#[trigger] d[i])
}

/// The text after an optional leading `+`.
pub open spec fn unsigned_part(s: Seq<char>) -> Seq<char> {
    if s.len() > 0 && s[0] == '+' {
        s.drop_first()
    } else {
        s
    }
}

/// `u32::from_str`: an optional `+`, then one or more digits whose value
/// fits in a `u32`.
pub open spec fn parse_u32_spec(s: Seq<char>) -> Option<u32> {
    let d = unsigned_part(s);
    if d.len() > 0 && all_digits(d) && digits_value(d) <= u32::MAX {
        Some(digits_value(d) as u32)
    } else {
        None
    }
}

proof fn lemma_digits_grow(s: Seq<char>, k: int)
    requires
        0 <= k <= s.len(),
        all_digits(s),
    ensures
        digits_value(s.take(k)) <= digits_value(s),
    decreases s.len() - k,
{
    if k < s.len() {
        lemma_digits_grow(s, k + 1);
        assert(s.take(k + 1).drop_last() =~= s.take(k));
        assert(is_digit(s[k]));
    } else {
        assert(s.take(k) =~= s);
    }
}

proof fn lemma_parse_fails_at(s: Seq<char>, j: int)
    requires
        0 <= j < unsigned_part(s).len(),
        !is_digit(unsigned_part(s)[j]),
    ensures
        parse_u32_spec(s) is None,
{
}

proof fn lemma_parse_overflows(s: Seq<char>, k: int)
    requires
        0 <= k <= unsigned_part(s).len(),
        digits_value(unsigned_part(s).take(k)) > u32::MAX,
    ensures
        parse_u32_spec(s) is None,
{
    let d = unsigned_part(s);
    if all_digits(d) {
        lemma_digits_grow(d, k);
    }
}

/// Parses a `u32` as `str::parse` does.
pub fn parse_u32(v: &Vec<char>) -> (r: Option<u32>)
    ensures
        r == parse_u32_spec(v@),
{
    let start: usize = if v.len() > 0 && v[0] == '+' {
        1
    } else {
        0
    };
    let ghost d = unsigned_part(v@);
    proof {
        assert(d =~= v@.skip(start as int));
    }
    if start >= v.len() {
        return None;
    }
    let mut acc: u64 = 0;
    let mut i: usize = start;
    while i < v.len()
        invariant
            start <= i <= v@.len(),
            d == v@.skip(start as int),
            d == unsigned_part(v@),
            acc == digits_value(d.take(i - start)),
            acc <= u32::MAX,
            forall|j: int| 0 <= j < i - start ==> is_digit(#[trigger] d[j]),
        decreases v.len() - i,
    {
        let c = v[i];
        if !('0' <= c && c <= '9') {
            proof {
                lemma_parse_fails_at(v@, i - start);
            }
            return None;
        }
        proof {
            assert(d.take(i - start + 1).drop_last() =~= d.take(i - start));
            assert(d.take(i - start + 1).last() == c);
        }
        let digit: u64 = (c as u64) - 48;
        acc = acc * 10 + digit;
        proof {
            assert(d[i - start] == c);
            assert(acc == digits_value(d.take(i - start + 1)));
        }
        if acc > 4294967295u64 {
            proof {
                lemma_parse_overflows(v@, i - start + 1);
            }
            return None;
        }
        i += 1;
    }
    proof {
        assert(d.take(d.len() as int) =~= d);
    }
    Some(acc as u32)
}

/// The `(pid, parent pid)` a line of the table gives: its first two words,
/// when both parse.
pub open spec fn row_of(line: Seq<char>) -> Option<(u32, u32)> {
    let w = words(line);
    if w.len() >= 2 && parse_u32_spec(w[0]) is Some && parse_u32_spec(w[1]) is Some {
        Some((parse_u32_spec(w[0])->0, parse_u32_spec(w[1])->0))
    } else {
        None
    }
}

pub open spec fn rows_of(lines: Seq<Seq<char>>) -> Seq<(u32, u32)>
    decreases lines.len(),
{
    if lines.len() == 0 {
        Seq::empty()
    } else {
        match row_of(lines.last()) {
            Some(r) => rows_of(lines.drop_last()).push(r),
            None => rows_of(lines.drop_last()),
        }
    }
}

/// The `(pid, parent pid)` rows of the table `ps -axo pid=,ppid=` prints;
/// lines that do not start with two numbers are skipped.
pub fn parse_process_table(text: &str) -> (out: Vec<(u32, u32)>)
    ensures
        out@ == rows_of(split_on(text@, '\n')),
{
    let v = chars_of(text);
    let lines = split_chars(&v, '\n');
    let mut out: Vec<(u32, u32)> = Vec::new();
    let mut i: usize = 0;
    while i < lines.len()
        invariant
            i <= lines@.len(),
            views_of(lines@) == split_on(v@, '\n'),
            v@ == text@,
            out@ == rows_of(views_of(lines@).take(i as int)),
        decreases lines.len() - i,
    {
        proof {
            assert(views_of(lines@).take(i + 1).drop_last() =~= views_of(lines@).take(i as int));
        }
        let w = split_words(&lines[i]);
        if w.len() >= 2 {
            let a = parse_u32(&w[0]);
            let b = parse_u32(&w[1]);
            match (a, b) {
                (Some(pid), Some(parent)) => {
                    out.push((pid, parent));
                },
                _ => {},
            }
        }
        i += 1;
    }
    proof {
        assert(views_of(lines@).take(lines@.len() as int) =~= views_of(lines@));
    }
    out
}

/// The children of `p` in table order.
pub open spec fn children_of(rows: Seq<(u32, u32)>, p: u32) -> Seq<u32>
    decreases rows.len(),
{
    if rows.len() == 0 {
        Seq::empty()
    } else {
        let r = children_of(rows.drop_last(), p);
        if rows.last().1 == p {
            r.push(rows.last().0)
        } else {
            r
        }
    }
}

/// The walk below the `pending` processes, taking the last pending one
/// each time and listing its children, for at most `fuel` steps.
pub open spec fn walk(rows: Seq<(u32, u32)>, pending: Seq<u32>, fuel: nat) -> Seq<u32>
    decreases fuel,
{
    if fuel == 0 || pending.len() == 0 {
        Seq::empty()
    } else {
        let kids = children_of(rows, pending.last());
        kids + walk(rows, pending.drop_last() + kids, (fuel - 1) as nat)
    }
}

fn children(rows: &Vec<(u32, u32)>, p: u32) -> (out: Vec<u32>)
    ensures
        out@ == children_of(rows@, p),
{
    let mut out: Vec<u32> = Vec::new();
    let mut i: usize = 0;
    while i < rows.len()
        invariant
            i <= rows@.len(),
            out@ == children_of(rows@.take(i as int), p),
        decreases rows.len() - i,
    {
        proof {
            assert(rows@.take(i + 1).drop_last() =~= rows@.take(i as int));
        }
        if rows[i].1 == p {
            out.push(rows[i].0);
        }
        i += 1;
    }
    proof {
        assert(rows@.take(rows@.len() as int) =~= rows@);
    }
    out
}

/// Every process below `root`, depth first: each popped process lists its
/// children in table order, and they are walked in turn, the last listed
/// first. A process table is a forest, so the walk never takes more steps
/// than the table has rows plus one; it is bounded by that.
pub fn descendants(rows: &Vec<(u32, u32)>, root: u32) -> (out: Vec<u32>)
    requires
        rows@.len() < usize::MAX,
    ensures
        out@ == walk(rows@, seq![root], (rows@.len() + 1) as nat),
{
    let mut out: Vec<u32> = Vec::new();
    let mut pending: Vec<u32> = vec![root];
    let mut fuel: usize = rows.len() + 1;
    proof {
        assert(out@ + walk(rows@, pending@, fuel as nat) =~= walk(rows@, seq![root], (rows@.len() + 1) as nat));
    }
    while fuel > 0 && pending.len() > 0
        invariant
            out@ + walk(rows@, pending@, fuel as nat) == walk(rows@, seq![root], (rows@.len() + 1) as nat),
        decreases fuel,
    {
        let ghost before = pending@;
        let p = pending.pop().unwrap();
        let kids = children(rows, p);
        let ghost p0 = pending@;
        proof {
            assert(before == p0.push(p));
        }
        let mut j: usize = 0;
        while j < kids.len()
            invariant
                j <= kids@.len(),
                pending@ == p0 + kids@.take(j as int),
                kids@ == children_of(rows@, p),
            decreases kids.len() - j,
        {
            pending.push(kids[j]);
            proof {
                assert(kids@.take(j + 1) =~= kids@.take(j as int).push(kids@[j as int]));
            }
            j += 1;
        }
        proof {
            assert(kids@.take(kids@.len() as int) =~= kids@);
        }
        let ghost o0 = out@;
        let mut k: usize = 0;
        while k < kids.len()
            invariant
                k <= kids@.len(),
                out@ == o0 + kids@.take(k as int),
                pending@ == p0 + kids@,
                kids@ == children_of(rows@, p),
            decreases kids.len() - k,
        {
            out.push(kids[k]);
            proof {
                assert(kids@.take(k + 1) =~= kids@.take(k as int).push(kids@[k as int]));
            }
            k += 1;
        }
        proof {
            assert(kids@.take(kids@.len() as int) =~= kids@);
            assert(p0.push(p).drop_last() =~= p0);
            assert(walk(rows@, p0.push(p), fuel as nat) == kids@ + walk(rows@, p0 + kids@, (fuel - 1) as nat));
            assert(out@ + walk(rows@, pending@, (fuel - 1) as nat) =~= o0 + walk(rows@, p0.push(p), fuel as nat));
        }
        fuel = fuel - 1;
    }
    proof {
        assert(out@ + walk(rows@, pending@, fuel as nat) =~= out@);
    }
    out
}

} // verus!
