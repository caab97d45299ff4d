//! A map keyed by strings, kept as a vector of entries sorted by key with no
//! key twice: the ordered map a project's commands and environments are
//! stored in, listed in key order.
use vstd::prelude::*;

use crate::order::{lemma_lt_irreflexive, lemma_lt_total, lemma_lt_transitive, str_less, str_lt, sorted_strict};
use crate::text::str_eq;

verus! {

/// The keys of the entries, in order.
pub open spec fn keys_of<V>(e: Seq<(String, V)>) -> Seq<Seq<char>> {
    e.map_values(|p: (String, V)| p.0@)
}

/// The entries are sorted by key, each key once.
pub open spec fn well_keyed<V>(e: Seq<(String, V)>) -> bool {
    sorted_strict(keys_of(e))
}

/// A position of key `k` among the entries (meaningful when it has one).
pub open spec fn key_index<V>(e: Seq<(String, V)>, k: Seq<char>) -> int {
    choose|i: int| 0 <= i < e.len() && e[i].0@ == k
}

/// The map the entries stand for.
pub open spec fn map_of<V>(e: Seq<(String, V)>) -> Map<Seq<char>, V> {
    Map::new(|k: Seq<char>| exists|i: int| 0 <= i < e.len() && e[i].0@ == k, |k: Seq<char>| e[key_index(e, k)].1)
}

/// In well-keyed entries, the entry at `i` is the one its key maps to.
pub proof fn lemma_map_of_at<V>(e: Seq<(String, V)>, i: int)
    requires
        well_keyed(e),
        0 <= i < e.len(),
    ensures
        map_of(e).dom().contains(e[i].0@),
        map_of(e)[e[i].0@] == e[i].1,
{
    let k = e[i].0@;
    assert(keys_of(e)[i] == k);
    assert(exists|x: int| 0 <= x < e.len() && e[x].0@ == k);
    assert(map_of(e).dom().contains(k));
    let j = key_index(e, k);
    assert(keys_of(e)[j] == k);
    if j < i {
        assert(str_lt(keys_of(e)[j], keys_of(e)[i]));
        lemma_lt_irreflexive(k);
    } else if i < j {
        assert(str_lt(keys_of(e)[i], keys_of(e)[j]));
        lemma_lt_irreflexive(k);
    }
    assert(j == i);
    assert(map_of(e)[k] == e[j].1);
}

/// Where `k` is, or would go, among well-keyed entries: every key before it
/// is less than `k`, every key from it on is not.
pub fn key_position<V>(e: &Vec<(String, V)>, k: &str) -> (r: (usize, bool))
    requires
        well_keyed(e@),
    ensures
        r.0 <= e@.len(),
        forall|j: int| 0 <= j < r.0 ==> str_lt(#[trigger] e@[j].0@, k@),
        forall|j: int| r.0 <= j < e@.len() ==> !str_lt(#[trigger] e@[j].0@, k@),
        r.1 <==> (r.0 < e@.len() && e@[r.0 as int].0@ == k@),
        r.1 <==> map_of(e@).dom().contains(k@),
{
    let mut i: usize = 0;
    while i < e.len() && str_less(e[i].0.as_str(), k)
        invariant
            i <= e@.len(),
            well_keyed(e@),
            forall|j: int| 0 <= j < i ==> str_lt(#[trigger] e@[j].0@, k@),
        decreases e.len() - i,
    {
        i += 1;
    }
    proof {
        assert forall|j: int| i <= j < e@.len() implies !str_lt(#[trigger] e@[j].0@, k@) by {
            if j > i {
                assert(str_lt(keys_of(e@)[i as int], keys_of(e@)[j]));
                if str_lt(e@[j].0@, k@) {
                    lemma_lt_transitive(e@[i as int].0@, e@[j].0@, k@);
                }
            }
        }
    }
    let found = i < e.len() && str_eq(e[i].0.as_str(), k);
    proof {
        if map_of(e@).dom().contains(k@) {
            let j = choose|j: int| 0 <= j < e@.len() && e@[j].0@ == k@;
            if j < i {
                lemma_lt_irreflexive(k@);
            } else if j > i {
                assert(str_lt(keys_of(e@)[i as int], keys_of(e@)[j]));
                assert(!str_lt(e@[i as int].0@, k@));
            }
        }
        if found {
            assert(e@[i as int].0@ == k@);
        }
    }
    (i, found)
}

/// Sets `k` to `v`, replacing its value when present.
pub fn map_set<V>(e: &mut Vec<(String, V)>, k: String, v: V)
    requires
        well_keyed(old(e)@),
    ensures
        well_keyed(final(e)@),
        map_of(final(e)@) == map_of(old(e)@).insert(k@, v),
{
    let ghost k0 = k@;
    let (i, found) = key_position(e, k.as_str());
    let ghost old_e = e@;
    if found {
        e.set(i, (k, v));
        proof {
            assert(keys_of(e@) =~= keys_of(old_e));
            assert(map_of(e@) =~= map_of(old_e).insert(k0, v)) by {
                assert forall|key: Seq<char>| #[trigger] map_of(e@).dom().contains(key) <==> map_of(old_e).insert(
                    k0,
                    v,
                ).dom().contains(key) by {
                    if map_of(old_e).dom().contains(key) {
                        let j = choose|j: int| 0 <= j < old_e.len() && old_e[j].0@ == key;
                        assert(e@[j].0@ == key);
                    }
                    if map_of(e@).dom().contains(key) {
                        let j = choose|j: int| 0 <= j < e@.len() && e@[j].0@ == key;
                        assert(old_e[j].0@ == key);
                    }
                }
                assert forall|key: Seq<char>| #[trigger] map_of(e@).dom().contains(key) implies map_of(e@)[key]
                    == map_of(old_e).insert(k0, v)[key] by {
                    let j = choose|j: int| 0 <= j < e@.len() && e@[j].0@ == key;
                    assert(well_keyed(e@));
                    lemma_map_of_at(e@, j);
                    if j != i {
                        assert(old_e[j] == e@[j]);
                        lemma_map_of_at(old_e, j);
                        if j < i {
                            assert(str_lt(keys_of(e@)[j], keys_of(e@)[i as int]));
                        } else {
                            assert(str_lt(keys_of(e@)[i as int], keys_of(e@)[j]));
                        }
                        lemma_lt_irreflexive(key);
                        assert(key != k0);
                    } else {
                        assert(key == k0);
                    }
                }
            }
        }
    } else {
        e.insert(i, (k, v));
        proof {
            assert(e@ =~= old_e.take(i as int).push((k, v)) + old_e.skip(i as int)) by {
                assert forall|j: int| 0 <= j < e@.len() implies e@[j] == (old_e.take(i as int).push((k, v))
                    + old_e.skip(i as int))[j] by {}
            }
            assert forall|a: int, b: int| 0 <= a < b < e@.len() implies str_lt(
                #[trigger] keys_of(e@)[a],
                #[trigger] keys_of(e@)[b],
            ) by {
                if b < i {
                    assert(str_lt(keys_of(old_e)[a], keys_of(old_e)[b]));
                } else if b == i {
                    assert(str_lt(old_e[a].0@, k0));
                } else if a < i {
                    assert(str_lt(old_e[a].0@, k0));
                    assert(!str_lt(old_e[b - 1].0@, k0));
                    assert(old_e[b - 1].0@ != k0);
                    lemma_lt_total(old_e[b - 1].0@, k0);
                    lemma_lt_transitive(old_e[a].0@, k0, old_e[b - 1].0@);
                } else if a == i {
                    assert(!str_lt(old_e[b - 1].0@, k0));
                    assert(old_e[b - 1].0@ != k0);
                    lemma_lt_total(old_e[b - 1].0@, k0);
                } else {
                    assert(str_lt(keys_of(old_e)[a - 1], keys_of(old_e)[b - 1]));
                }
            }
            assert(well_keyed(e@));
            assert(map_of(e@) =~= map_of(old_e).insert(k0, v)) by {
                assert forall|key: Seq<char>| #[trigger] map_of(e@).dom().contains(key) <==> map_of(old_e).insert(
                    k0,
                    v,
                ).dom().contains(key) by {
                    if map_of(old_e).dom().contains(key) {
                        let j = choose|j: int| 0 <= j < old_e.len() && old_e[j].0@ == key;
                        if j < i {
                            assert(e@[j].0@ == key);
                        } else {
                            assert(e@[j + 1].0@ == key);
                        }
                    }
                    if key == k0 {
                        assert(e@[i as int].0@ == key);
                    }
                    if map_of(e@).dom().contains(key) {
                        let j = choose|j: int| 0 <= j < e@.len() && e@[j].0@ == key;
                        if j < i {
                            assert(old_e[j].0@ == key);
                        } else if j > i {
                            assert(old_e[j - 1].0@ == key);
                        }
                    }
                }
                assert forall|key: Seq<char>| #[trigger] map_of(e@).dom().contains(key) implies map_of(e@)[key]
                    == map_of(old_e).insert(k0, v)[key] by {
                    let j = choose|j: int| 0 <= j < e@.len() && e@[j].0@ == key;
                    lemma_map_of_at(e@, j);
                    if j < i {
                        lemma_map_of_at(old_e, j);
                        assert(key != k0);
                    } else if j > i {
                        lemma_map_of_at(old_e, j - 1);
                        assert(key != k0);
                    }
                }
            }
        }
    }
}

/// Removes `k`; reports whether it was there.
pub fn map_remove<V>(e: &mut Vec<(String, V)>, k: &str) -> (was: bool)
    requires
        well_keyed(old(e)@),
    ensures
        well_keyed(final(e)@),
        was == map_of(old(e)@).dom().contains(k@),
        map_of(final(e)@) == map_of(old(e)@).remove(k@),
        !was ==> final(e)@ == old(e)@,
{
    let (i, found) = key_position(e, k);
    let ghost old_e = e@;
    if !found {
        proof {
            assert(map_of(old_e) =~= map_of(old_e).remove(k@));
        }
        return false;
    }
    let _ = e.remove(i);
    proof {
        assert(e@ =~= old_e.take(i as int) + old_e.skip(i + 1));
        assert forall|a: int, b: int| 0 <= a < b < e@.len() implies str_lt(
            #[trigger] keys_of(e@)[a],
            #[trigger] keys_of(e@)[b],
        ) by {
            let a2 = if a < i { a } else { a + 1 };
            let b2 = if b < i { b } else { b + 1 };
            assert(keys_of(e@)[a] == keys_of(old_e)[a2]);
            assert(keys_of(e@)[b] == keys_of(old_e)[b2]);
        }
        assert(map_of(e@) =~= map_of(old_e).remove(k@)) by {
            assert forall|key: Seq<char>| #[trigger] map_of(e@).dom().contains(key) <==> map_of(old_e).remove(
                k@,
            ).dom().contains(key) by {
                if map_of(old_e).dom().contains(key) && key != k@ {
                    let j = choose|j: int| 0 <= j < old_e.len() && old_e[j].0@ == key;
                    if j < i {
                        assert(e@[j].0@ == key);
                    } else {
                        assert(j != i);
                        assert(e@[j - 1].0@ == key);
                    }
                }
                if map_of(e@).dom().contains(key) {
                    let j = choose|j: int| 0 <= j < e@.len() && e@[j].0@ == key;
                    let j2 = if j < i { j } else { j + 1 };
                    assert(old_e[j2].0@ == key);
                    if key == k@ {
                        assert(keys_of(old_e)[i as int] == k@);
                        if j2 < i {
                            assert(str_lt(keys_of(old_e)[j2], keys_of(old_e)[i as int]));
                        } else {
                            assert(str_lt(keys_of(old_e)[i as int], keys_of(old_e)[j2]));
                        }
                        lemma_lt_irreflexive(k@);
                    }
                }
            }
            assert forall|key: Seq<char>| #[trigger] map_of(e@).dom().contains(key) implies map_of(e@)[key]
                == map_of(old_e).remove(k@)[key] by {
                let j = choose|j: int| 0 <= j < e@.len() && e@[j].0@ == key;
                let j2 = if j < i { j } else { j + 1 };
                lemma_map_of_at(e@, j);
                lemma_map_of_at(old_e, j2);
            }
        }
    }
    true
}

/// The value of `k`, if any.
pub fn map_get<'a, V>(e: &'a Vec<(String, V)>, k: &str) -> (r: Option<&'a V>)
    requires
        well_keyed(e@),
    ensures
        match r {
            Some(v) => map_of(e@).dom().contains(k@) && *v == map_of(e@)[k@],
            None => !map_of(e@).dom().contains(k@),
        },
{
    let (i, found) = key_position(e, k);
    if found {
        proof {
            lemma_map_of_at(e@, i as int);
        }
        Some(&e[i].1)
    } else {
        None
    }
}

} // verus!
