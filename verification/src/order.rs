//! Lexicographic order on strings, as `Ord` for `String` gives it (byte
//! order of UTF-8, which is the order of the characters' code points), and
//! strictly sorted string lists: the form the library gives to what the
//! tool keeps in sorted sets and maps.
use vstd::prelude::*;

use crate::text::{chars_of, strings_view};

verus! {

/// `a` comes strictly before `b`.
pub open spec fn str_lt(a: Seq<char>, b: Seq<char>) -> bool
    decreases a.len(),
{
    if a.len() == 0 {
        b.len() > 0
    } else if b.len() == 0 {
        false
    } else if a[0] != b[0] {
        a[0] < b[0]
    } else {
        str_lt(a.drop_first(), b.drop_first())
    }
}

pub proof fn lemma_lt_irreflexive(a: Seq<char>)
    ensures
        !str_lt(a, a),
    decreases a.len(),
{
    if a.len() > 0 {
        lemma_lt_irreflexive(a.drop_first());
    }
}

pub proof fn lemma_lt_asymmetric(a: Seq<char>, b: Seq<char>)
    ensures
        str_lt(a, b) ==> !str_lt(b, a),
    decreases a.len(),
{
    if a.len() > 0 && b.len() > 0 && a[0] == b[0] {
        lemma_lt_asymmetric(a.drop_first(), b.drop_first());
    }
}

pub proof fn lemma_lt_transitive(a: Seq<char>, b: Seq<char>, c: Seq<char>)
    requires
        str_lt(a, b),
        str_lt(b, c),
    ensures
        str_lt(a, c),
    decreases a.len(),
{
    if a.len() > 0 && b.len() > 0 && c.len() > 0 && a[0] == b[0] && b[0] == c[0] {
        lemma_lt_transitive(a.drop_first(), b.drop_first(), c.drop_first());
    }
}

pub proof fn lemma_lt_total(a: Seq<char>, b: Seq<char>)
    ensures
        a != b ==> (str_lt(a, b) || str_lt(b, a)),
    decreases a.len(),
{
    if a.len() > 0 && b.len() > 0 && a[0] == b[0] {
        lemma_lt_total(a.drop_first(), b.drop_first());
        if a.drop_first() == b.drop_first() {
            assert(a =~= seq![a[0]] + a.drop_first());
            assert(b =~= seq![b[0]] + b.drop_first());
        }
    } else if a.len() == 0 && b.len() == 0 {
        assert(a =~= b);
    }
}

/// Whether `a` comes strictly before `b`.
pub fn str_less(a: &str, b: &str) -> (r: bool)
    ensures
        r == str_lt(a@, b@),
{
    let x = chars_of(a);
    let y = chars_of(b);
    let mut i: usize = 0;
    proof {
        assert(x@.skip(0) =~= x@);
        assert(y@.skip(0) =~= y@);
    }
    while i < x.len() && i < y.len() && x[i] == y[i]
        invariant
            i <= x@.len(),
            i <= y@.len(),
            str_lt(x@, y@) == str_lt(x@.skip(i as int), y@.skip(i as int)),
        decreases x.len() - i,
    {
        proof {
            assert(x@.skip(i as int).drop_first() =~= x@.skip(i + 1));
            assert(y@.skip(i as int).drop_first() =~= y@.skip(i + 1));
        }
        i += 1;
    }
    if i == x.len() {
        i < y.len()
    } else if i == y.len() {
        false
    } else {
        proof {
            assert(x@.skip(i as int)[0] == x@[i as int]);
            assert(y@.skip(i as int)[0] == y@[i as int]);
        }
        x[i] < y[i]
    }
}

/// The list is in strictly increasing order (so holds no repeats).
pub open spec fn sorted_strict(s: Seq<Seq<char>>) -> bool {
    forall|i: int, j: int| 0 <= i < j < s.len() ==> str_lt(#[trigger] s[i], #[trigger] s[j])
}

/// Inserts `x` into the strictly sorted list `v` unless it is already there.
pub fn insert_sorted(v: &mut Vec<String>, x: String)
    requires
        sorted_strict(strings_view(old(v)@)),
    ensures
        sorted_strict(strings_view(final(v)@)),
        forall|s: Seq<char>| strings_view(final(v)@).contains(s) <==> (strings_view(old(v)@).contains(s) || s == x@),
{
    let ghost old_v = strings_view(v@);
    let mut i: usize = 0;
    while i < v.len() && str_less(v[i].as_str(), x.as_str())
        invariant
            i <= v@.len(),
            strings_view(v@) == old_v,
            sorted_strict(old_v),
            forall|j: int| 0 <= j < i ==> str_lt(#[trigger] old_v[j], x@),
        decreases v.len() - i,
    {
        i += 1;
    }
    if i < v.len() && v[i] == x {
        proof {
            assert(old_v[i as int] == x@);
        }
        return;
    }
    proof {
        if i < v@.len() {
            lemma_lt_total(old_v[i as int], x@);
            assert(str_lt(x@, old_v[i as int]));
        }
    }
    v.insert(i, x);
    proof {
        let nv = strings_view(v@);
        assert(nv =~= old_v.insert(i as int, x@));
        assert forall|a: int, b: int| 0 <= a < b < nv.len() implies str_lt(#[trigger] nv[a], #[trigger] nv[b]) by {
            if b < i {
                assert(nv[a] == old_v[a] && nv[b] == old_v[b]);
            } else if b == i {
                assert(nv[a] == old_v[a]);
            } else if a == i {
                assert(nv[b] == old_v[b - 1]);
                if b - 1 > i {
                    assert(str_lt(old_v[i as int], old_v[b - 1]));
                    lemma_lt_transitive(x@, old_v[i as int], old_v[b - 1]);
                }
            } else if a < i {
                assert(nv[a] == old_v[a] && nv[b] == old_v[b - 1]);
                if b - 1 > a {
                    assert(str_lt(old_v[a], old_v[b - 1]));
                } else {
                    assert(false);
                }
            } else {
                assert(nv[a] == old_v[a - 1] && nv[b] == old_v[b - 1]);
            }
        }
        assert forall|s: Seq<char>| nv.contains(s) <==> (old_v.contains(s) || s == x@) by {
            if nv.contains(s) {
                let k = choose|k: int| 0 <= k < nv.len() && nv[k] == s;
                if k < i {
                    assert(old_v[k] == s);
                } else if k > i {
                    assert(old_v[k - 1] == s);
                }
            }
            if old_v.contains(s) {
                let k = choose|k: int| 0 <= k < old_v.len() && old_v[k] == s;
                if k < i {
                    assert(nv[k] == s);
                } else {
                    assert(nv[k + 1] == s);
                }
            }
            if s == x@ {
                assert(nv[i as int] == s);
            }
        }
    }
}

/// The distinct strings of `v` in increasing order: what collecting them
/// into a sorted set gives.
pub fn sorted_unique(v: &Vec<String>) -> (out: Vec<String>)
    ensures
        sorted_strict(strings_view(out@)),
        forall|s: Seq<char>| strings_view(out@).contains(s) <==> strings_view(v@).contains(s),
{
    let mut out: Vec<String> = Vec::new();
    let mut i: usize = 0;
    while i < v.len()
        invariant
            i <= v@.len(),
            sorted_strict(strings_view(out@)),
            forall|s: Seq<char>| strings_view(out@).contains(s) <==> strings_view(v@).take(i as int).contains(s),
        decreases v.len() - i,
    {
        let ghost prev = strings_view(out@);
        let c = v[i].clone();
        assert(c@ == v@[i as int]@);
        insert_sorted(&mut out, c);
        proof {
            assert(forall|s: Seq<char>| strings_view(out@).contains(s) <==> (prev.contains(s) || s == c@));
            let t = strings_view(v@).take(i + 1);
            assert(t =~= strings_view(v@).take(i as int).push(v@[i as int]@));
            assert forall|s: Seq<char>| strings_view(out@).contains(s) <==> t.contains(s) by {
                if t.contains(s) {
                    let k = choose|k: int| 0 <= k < t.len() && t[k] == s;
                    if k < i {
                        assert(strings_view(v@).take(i as int)[k] == s);
                    }
                }
                if strings_view(v@).take(i as int).contains(s) {
                    let k = choose|k: int| 0 <= k < i && strings_view(v@).take(i as int)[k] == s;
                    assert(t[k] == s);
                }
                if s == c@ {
                    assert(t[i as int] == s);
                }
                assert(prev.contains(s) <==> strings_view(v@).take(i as int).contains(s));
            }
        }
        i += 1;
    }
    proof {
        assert(strings_view(v@).take(v@.len() as int) =~= strings_view(v@));
    }
    out
}

/// Two strictly sorted lists with the same members are the same list:
/// a sorted set has exactly one listing.
pub proof fn lemma_sorted_listing_unique(a: Seq<Seq<char>>, b: Seq<Seq<char>>)
    requires
        sorted_strict(a),
        sorted_strict(b),
        forall|s: Seq<char>| a.contains(s) <==> b.contains(s),
    ensures
        a == b,
    decreases a.len(),
{
    if a.len() == 0 {
        if b.len() > 0 {
            assert(b.contains(b[0]));
        }
        assert(a =~= b);
    } else if b.len() == 0 {
        assert(a.contains(a[0]));
    } else {
        assert(a.contains(a[0]));
        assert(b.contains(b[0]));
        let ka = choose|k: int| 0 <= k < b.len() && b[k] == a[0];
        let kb = choose|k: int| 0 <= k < a.len() && a[k] == b[0];
        if ka > 0 {
            assert(str_lt(b[0], b[ka]));
            if kb > 0 {
                assert(str_lt(a[0], a[kb]));
                lemma_lt_asymmetric(a[0], b[0]);
            } else {
                lemma_lt_irreflexive(b[0]);
            }
        }
        assert(a[0] == b[0]);
        let ta = a.drop_first();
        let tb = b.drop_first();
        assert forall|s: Seq<char>| ta.contains(s) <==> tb.contains(s) by {
            if ta.contains(s) {
                let k = choose|k: int| 0 <= k < ta.len() && ta[k] == s;
                assert(a[k + 1] == s);
                assert(str_lt(a[0], s));
                lemma_lt_irreflexive(s);
                assert(b.contains(s));
                let m = choose|m: int| 0 <= m < b.len() && b[m] == s;
                if m == 0 {
                    assert(false);
                }
                assert(tb[m - 1] == s);
            }
            if tb.contains(s) {
                let k = choose|k: int| 0 <= k < tb.len() && tb[k] == s;
                assert(b[k + 1] == s);
                assert(str_lt(b[0], s));
                lemma_lt_irreflexive(s);
                assert(a.contains(s));
                let m = choose|m: int| 0 <= m < a.len() && a[m] == s;
                if m == 0 {
                    assert(false);
                }
                assert(ta[m - 1] == s);
            }
        }
        lemma_sorted_listing_unique(ta, tb);
        assert(a =~= seq![a[0]] + ta);
        assert(b =~= seq![b[0]] + tb);
    }
}

} // verus!
