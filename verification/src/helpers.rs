//! Git credential helper entries written for KnitHub remotes: their command
//! shape, and recognizing entries written by any knit binary.
use vstd::prelude::*;

use crate::order::{sorted_strict, sorted_unique};
use crate::text::{
    append_str, chars_of, contains_chars, contains_seq, ends_with_chars, ends_with_seq, slice_chars, starts_with_chars,
    starts_with_seq, string_from_chars, strings_view, split_chars, split_on, split_once_char, views_of,
    first_index_of, lemma_first_index_of,
};

verus! {

/// What separates the knit executable from the remote name in a helper.
pub const HELPER_MARKER: &'static str = " git-credential --remote ";

/// A helper value written by any knit binary for any remote: a shell
/// command (`!`) holding the marker.
pub open spec fn knit_helper(value: Seq<char>) -> bool {
    value.len() > 0 && value[0] == '!' && contains_seq(value, HELPER_MARKER@)
}

pub fn is_knit_helper(value: &str) -> (b: bool)
    ensures
        b == knit_helper(value@),
{
    let v = chars_of(value);
    if v.len() == 0 || v[0] != '!' {
        return false;
    }
    contains_chars(&v, &chars_of(HELPER_MARKER))
}

/// `value` single-quoted for a POSIX shell: each `'` becomes `'"'"'`.
pub open spec fn quote_body(value: Seq<char>) -> Seq<char>
    decreases value.len(),
{
    if value.len() == 0 {
        Seq::empty()
    } else {
        quote_body(value.drop_last()) + (if value.last() == '\'' { "'\"'\"'"@ } else { seq![value.last()] })
    }
}

pub open spec fn shell_quote_spec(value: Seq<char>) -> Seq<char> {
    "'"@ + quote_body(value) + "'"@
}

pub fn shell_quote(value: &str) -> (out: String)
    ensures
        out@ == shell_quote_spec(value@),
{
    let v = chars_of(value);
    let mut out: Vec<char> = Vec::new();
    append_str(&mut out, "'");
    let ghost start = out@;
    let mut i: usize = 0;
    while i < v.len()
        invariant
            i <= v@.len(),
            out@ == start + quote_body(v@.take(i as int)),
        decreases v.len() - i,
    {
        proof {
            assert(v@.take(i + 1).drop_last() =~= v@.take(i as int));
            assert(v@.take(i + 1).last() == v@[i as int]);
        }
        if v[i] == '\'' {
            append_str(&mut out, "'\"'\"'");
        } else {
            out.push(v[i]);
        }
        proof {
            assert(out@ =~= start + quote_body(v@.take(i + 1)));
        }
        i += 1;
    }
    proof {
        assert(v@.take(v@.len() as int) =~= v@);
    }
    append_str(&mut out, "'");
    string_from_chars(&out)
}

/// A knit helper written for remote `remote_name`.
pub open spec fn knit_helper_for(value: Seq<char>, remote_name: Seq<char>) -> bool {
    knit_helper(value) && ends_with_seq(value, HELPER_MARKER@ + shell_quote_spec(remote_name))
}

pub fn is_knit_helper_for(value: &str, remote_name: &str) -> (b: bool)
    ensures
        b == knit_helper_for(value@, remote_name@),
{
    if !is_knit_helper(value) {
        return false;
    }
    let mut suffix = chars_of(HELPER_MARKER);
    let q = shell_quote(remote_name);
    append_str(&mut suffix, q.as_str());
    ends_with_chars(&chars_of(value), &suffix)
}

/// The helper command for remote `remote_name`, run by the knit executable
/// at `executable`.
pub open spec fn helper_command_spec(executable: Seq<char>, remote_name: Seq<char>) -> Seq<char> {
    "!"@ + shell_quote_spec(executable) + HELPER_MARKER@ + shell_quote_spec(remote_name)
}

pub fn helper_command(executable: &str, remote_name: &str) -> (out: String)
    ensures
        out@ == helper_command_spec(executable@, remote_name@),
{
    let mut v: Vec<char> = Vec::new();
    append_str(&mut v, "!");
    let e = shell_quote(executable);
    append_str(&mut v, e.as_str());
    append_str(&mut v, HELPER_MARKER);
    let r = shell_quote(remote_name);
    append_str(&mut v, r.as_str());
    string_from_chars(&v)
}

/// A helper command names the remote it was written for.
pub proof fn lemma_helper_command_is_for_its_remote(executable: Seq<char>, remote_name: Seq<char>)
    ensures
        knit_helper_for(helper_command_spec(executable, remote_name), remote_name),
{
    reveal_strlit("!");
    assert("!"@.len() == 1 && "!"@[0] == '!');
    let c = helper_command_spec(executable, remote_name);
    let pre = "!"@ + shell_quote_spec(executable);
    let suf = HELPER_MARKER@ + shell_quote_spec(remote_name);
    assert(c =~= pre + suf);
    assert(c[0] == '!');
    assert(c.subrange(pre.len() as int, (pre.len() + HELPER_MARKER@.len()) as int) =~= HELPER_MARKER@);
    assert(crate::text::matches_at(c, HELPER_MARKER@, pre.len() as int));
    assert(c.subrange(c.len() - suf.len(), c.len() as int) =~= suf);
}

/// Which knit helper entries a convergence may remove.
#[derive(Debug, Clone)]
pub enum RemoveScope {
    /// Knit helpers for any remote.
    AnyRemote,
    /// Only knit helpers written for this remote.
    Remote(String),
}

/// A helper value outside the scope stays where it is.
pub open spec fn retained_by(value: Seq<char>, scope: RemoveScope) -> bool {
    match scope {
        RemoveScope::AnyRemote => !knit_helper(value),
        RemoveScope::Remote(name) => !knit_helper(value) || !knit_helper_for(value, name@),
    }
}

/// The values of `values` kept under `scope`, in order.
pub open spec fn retained_values(values: Seq<Seq<char>>, scope: RemoveScope) -> Seq<Seq<char>>
    decreases values.len(),
{
    if values.len() == 0 {
        Seq::empty()
    } else {
        let p = retained_values(values.drop_last(), scope);
        if retained_by(values.last(), scope) {
            p.push(values.last())
        } else {
            p
        }
    }
}

/// `values` without `v`, in order.
pub open spec fn without_value(values: Seq<Seq<char>>, v: Seq<char>) -> Seq<Seq<char>>
    decreases values.len(),
{
    if values.len() == 0 {
        Seq::empty()
    } else {
        let p = without_value(values.drop_last(), v);
        if values.last() != v {
            p.push(values.last())
        } else {
            p
        }
    }
}

/// The helper list a host converges to: our helper first where it is
/// wanted, then the retained entries (without our helper again); only the
/// retained entries elsewhere.
pub open spec fn desired_values(existing: Seq<Seq<char>>, scope: RemoveScope, helper: Option<Seq<char>>) -> Seq<Seq<char>> {
    match helper {
        Some(h) => seq![h] + without_value(retained_values(existing, scope), h),
        None => retained_values(existing, scope),
    }
}

/// The helper values of a host after convergence.
pub fn converged_values(existing: &Vec<String>, scope: &RemoveScope, helper: Option<&String>) -> (out: Vec<String>)
    ensures
        strings_view(out@) == desired_values(strings_view(existing@), *scope, match helper {
            Some(h) => Some(h@),
            None => None,
        }),
{
    let mut kept: Vec<String> = Vec::new();
    let mut i: usize = 0;
    while i < existing.len()
        invariant
            i <= existing@.len(),
            strings_view(kept@) == retained_values(strings_view(existing@).take(i as int), *scope),
        decreases existing.len() - i,
    {
        let v = existing[i].as_str();
        let keep = match scope {
            RemoveScope::AnyRemote => !is_knit_helper(v),
            RemoveScope::Remote(name) => !is_knit_helper(v) || !is_knit_helper_for(v, name.as_str()),
        };
        proof {
            assert(strings_view(existing@).take(i + 1).drop_last() =~= strings_view(existing@).take(i as int));
            assert(strings_view(existing@).take(i + 1).last() == existing@[i as int]@);
        }
        if keep {
            let ghost prev = strings_view(kept@);
            kept.push(existing[i].clone());
            proof {
                assert(strings_view(kept@) =~= prev.push(existing@[i as int]@));
            }
        }
        i += 1;
    }
    proof {
        assert(strings_view(existing@).take(existing@.len() as int) =~= strings_view(existing@));
    }
    match helper {
        None => kept,
        Some(h) => {
            let mut out: Vec<String> = Vec::new();
            out.push(h.clone());
            let ghost head = strings_view(out@);
            let mut j: usize = 0;
            while j < kept.len()
                invariant
                    j <= kept@.len(),
                    head == seq![h@],
                    strings_view(out@) == head + without_value(strings_view(kept@).take(j as int), h@),
                decreases kept.len() - j,
            {
                proof {
                    assert(strings_view(kept@).take(j + 1).drop_last() =~= strings_view(kept@).take(j as int));
                    assert(strings_view(kept@).take(j + 1).last() == kept@[j as int]@);
                }
                if kept[j] != *h {
                    let ghost prev = strings_view(out@);
                    out.push(kept[j].clone());
                    proof {
                        assert(strings_view(out@) =~= prev.push(kept@[j as int]@));
                    }
                }
                j += 1;
            }
            proof {
                assert(strings_view(kept@).take(kept@.len() as int) =~= strings_view(kept@));
            }
            out
        },
    }
}

pub const HELPER_KEY_PREFIX: &'static str = "credential.https://";

pub const HELPER_KEY_SUFFIX: &'static str = ".helper";

/// The git config key holding the helpers of `host`.
pub open spec fn helper_key_spec(host: Seq<char>) -> Seq<char> {
    HELPER_KEY_PREFIX@ + host + HELPER_KEY_SUFFIX@
}

pub fn helper_key(host: &str) -> (out: String)
    ensures
        out@ == helper_key_spec(host@),
{
    let mut v: Vec<char> = Vec::new();
    append_str(&mut v, HELPER_KEY_PREFIX);
    append_str(&mut v, host);
    append_str(&mut v, HELPER_KEY_SUFFIX);
    string_from_chars(&v)
}

/// The host of a helper key, if the key has that shape.
pub open spec fn host_of_key_spec(key: Seq<char>) -> Option<Seq<char>> {
    let p = HELPER_KEY_PREFIX@;
    let s = HELPER_KEY_SUFFIX@;
    if starts_with_seq(key, p) && ends_with_seq(key.skip(p.len() as int), s) {
        Some(key.subrange(p.len() as int, key.len() - s.len()))
    } else {
        None
    }
}

pub fn host_of_key(key: &str) -> (r: Option<String>)
    ensures
        match r {
            Some(h) => host_of_key_spec(key@) == Some(h@),
            None => host_of_key_spec(key@) is None,
        },
{
    let k = chars_of(key);
    let p = chars_of(HELPER_KEY_PREFIX);
    let s = chars_of(HELPER_KEY_SUFFIX);
    if !starts_with_chars(&k, &p) {
        return None;
    }
    let rest = slice_chars(&k, p.len(), k.len());
    proof {
        assert(rest@ =~= k@.skip(p@.len() as int));
    }
    if !ends_with_chars(&rest, &s) {
        return None;
    }
    let host = slice_chars(&k, p.len(), k.len() - s.len());
    Some(string_from_chars(&host))
}

/// The values stored under `key` (the first entry with that key), or none.
pub open spec fn entry_values(entries: Seq<(String, Vec<String>)>, key: Seq<char>) -> Seq<Seq<char>>
    decreases entries.len(),
{
    if entries.len() == 0 {
        Seq::empty()
    } else if entries[0].0@ == key {
        strings_view(entries[0].1@)
    } else {
        entry_values(entries.drop_first(), key)
    }
}

/// The helper wanted for `host` (the first with that host), if any.
pub open spec fn wanted_helper(desired: Seq<(String, String)>, host: Seq<char>) -> Option<Seq<char>>
    decreases desired.len(),
{
    if desired.len() == 0 {
        None
    } else if desired[0].0@ == host {
        Some(desired[0].1@)
    } else {
        wanted_helper(desired.drop_first(), host)
    }
}

fn find_entry(entries: &Vec<(String, Vec<String>)>, key: &String) -> (r: Option<usize>)
    ensures
        match r {
            Some(i) => i < entries@.len() && strings_view(entries@[i as int].1@) == entry_values(entries@, key@),
            None => entry_values(entries@, key@) == Seq::<Seq<char>>::empty(),
        },
{
    let mut i: usize = 0;
    proof {
        assert(entries@.skip(0) =~= entries@);
    }
    while i < entries.len()
        invariant
            i <= entries@.len(),
            entry_values(entries@, key@) == entry_values(entries@.skip(i as int), key@),
        decreases entries.len() - i,
    {
        proof {
            assert(entries@.skip(i as int).drop_first() =~= entries@.skip(i + 1));
            assert(entries@.skip(i as int)[0] == entries@[i as int]);
        }
        if entries[i].0 == *key {
            return Some(i);
        }
        i += 1;
    }
    proof {
        assert(entries@.skip(i as int).len() == 0);
    }
    None
}

fn find_wanted(desired: &Vec<(String, String)>, host: &String) -> (r: Option<usize>)
    ensures
        match r {
            Some(i) => i < desired@.len() && wanted_helper(desired@, host@) == Some(desired@[i as int].1@),
            None => wanted_helper(desired@, host@) is None,
        },
{
    let mut i: usize = 0;
    proof {
        assert(desired@.skip(0) =~= desired@);
    }
    while i < desired.len()
        invariant
            i <= desired@.len(),
            wanted_helper(desired@, host@) == wanted_helper(desired@.skip(i as int), host@),
        decreases desired.len() - i,
    {
        proof {
            assert(desired@.skip(i as int).drop_first() =~= desired@.skip(i + 1));
            assert(desired@.skip(i as int)[0] == desired@[i as int]);
        }
        if desired[i].0 == *host {
            return Some(i);
        }
        i += 1;
    }
    proof {
        assert(desired@.skip(i as int).len() == 0);
    }
    None
}

/// A rewrite of one helper key: unset what it holds (when it holds
/// anything), then add the values in order.
#[derive(Debug, Clone)]
pub struct HelperEdit {
    pub key: String,
    pub unset: bool,
    pub values: Vec<String>,
}

/// The edit that converges `key`, if it needs one.
pub open spec fn edit_for(key: Seq<char>, entries: Seq<(String, Vec<String>)>, desired: Seq<(String, String)>, scope: RemoveScope) -> Option<(Seq<char>, bool, Seq<Seq<char>>)> {
    match host_of_key_spec(key) {
        None => None,
        Some(host) => {
            let existing = entry_values(entries, key);
            let want = desired_values(existing, scope, wanted_helper(desired, host));
            if want == existing {
                None
            } else {
                Some((key, existing.len() > 0, want))
            }
        },
    }
}

/// The edits over `keys`, in order.
pub open spec fn edits_for(keys: Seq<Seq<char>>, entries: Seq<(String, Vec<String>)>, desired: Seq<(String, String)>, scope: RemoveScope) -> Seq<(Seq<char>, bool, Seq<Seq<char>>)>
    decreases keys.len(),
{
    if keys.len() == 0 {
        Seq::empty()
    } else {
        let p = edits_for(keys.drop_last(), entries, desired, scope);
        match edit_for(keys.last(), entries, desired, scope) {
            Some(e) => p.push(e),
            None => p,
        }
    }
}

pub open spec fn edit_view(e: HelperEdit) -> (Seq<char>, bool, Seq<Seq<char>>) {
    (e.key@, e.unset, strings_view(e.values@))
}

pub open spec fn entry_keys(entries: Seq<(String, Vec<String>)>) -> Seq<Seq<char>> {
    entries.map_values(|e: (String, Vec<String>)| e.0@)
}

pub open spec fn wanted_keys(desired: Seq<(String, String)>) -> Seq<Seq<char>> {
    desired.map_values(|d: (String, String)| helper_key_spec(d.0@))
}

/// The keys a convergence looks at: every key holding helpers, and the key
/// of every wanted host.
pub open spec fn converge_keys(entries: Seq<(String, Vec<String>)>, desired: Seq<(String, String)>, k: Seq<char>) -> bool {
    entry_keys(entries).contains(k) || wanted_keys(desired).contains(k)
}

fn strings_equal(a: &Vec<String>, b: &Vec<String>) -> (r: bool)
    ensures
        r == (strings_view(a@) == strings_view(b@)),
{
    if a.len() != b.len() {
        proof {
            assert(strings_view(a@).len() != strings_view(b@).len());
        }
        return false;
    }
    let mut i: usize = 0;
    while i < a.len()
        invariant
            i <= a@.len(),
            a@.len() == b@.len(),
            forall|q: int| 0 <= q < i ==> a@[q]@ == b@[q]@,
        decreases a.len() - i,
    {
        if a[i] != b[i] {
            proof {
                assert(strings_view(a@)[i as int] != strings_view(b@)[i as int]);
            }
            return false;
        }
        i += 1;
    }
    proof {
        assert(strings_view(a@) =~= strings_view(b@));
    }
    true
}

/// The git config edits that converge the helper entries on `desired`
/// (host, helper): over the keys in sorted order, our helper leads the list
/// where its host is wanted, in-scope knit entries go elsewhere, foreign
/// helpers stay in place, and keys already right are left alone.
pub fn converge_edits(entries: &Vec<(String, Vec<String>)>, desired: &Vec<(String, String)>, scope: &RemoveScope) -> (out: Vec<HelperEdit>)
    ensures
        exists|keys: Seq<Seq<char>>|
            sorted_strict(keys) && (forall|k: Seq<char>| keys.contains(k) <==> converge_keys(entries@, desired@, k))
                && out@.map_values(|e: HelperEdit| edit_view(e)) == edits_for(keys, entries@, desired@, *scope),
{
    let mut all: Vec<String> = Vec::new();
    let mut i: usize = 0;
    while i < entries.len()
        invariant
            i <= entries@.len(),
            strings_view(all@) == entry_keys(entries@).take(i as int),
        decreases entries.len() - i,
    {
        let ghost prev = strings_view(all@);
        all.push(entries[i].0.clone());
        proof {
            assert(strings_view(all@) =~= prev.push(entries@[i as int].0@));
            assert(entry_keys(entries@).take(i + 1) =~= entry_keys(entries@).take(i as int).push(entries@[i as int].0@));
        }
        i += 1;
    }
    proof {
        assert(entry_keys(entries@).take(entries@.len() as int) =~= entry_keys(entries@));
    }
    let mut j: usize = 0;
    proof {
        assert(entry_keys(entries@) + wanted_keys(desired@).take(0) =~= entry_keys(entries@));
    }
    while j < desired.len()
        invariant
            j <= desired@.len(),
            strings_view(all@) == entry_keys(entries@) + wanted_keys(desired@).take(j as int),
        decreases desired.len() - j,
    {
        let ghost prev = strings_view(all@);
        let key = helper_key(desired[j].0.as_str());
        all.push(key);
        proof {
            assert(strings_view(all@) =~= prev.push(helper_key_spec(desired@[j as int].0@)));
            assert(wanted_keys(desired@).take(j + 1) =~= wanted_keys(desired@).take(j as int).push(helper_key_spec(desired@[j as int].0@)));
        }
        j += 1;
    }
    proof {
        assert(wanted_keys(desired@).take(desired@.len() as int) =~= wanted_keys(desired@));
        let a = entry_keys(entries@);
        let w = wanted_keys(desired@);
        assert forall|k: Seq<char>| strings_view(all@).contains(k) <==> converge_keys(entries@, desired@, k) by {
            let t = strings_view(all@);
            assert(t =~= a + w);
            if t.contains(k) {
                let m = choose|m: int| 0 <= m < t.len() && t[m] == k;
                if m < a.len() {
                    assert(a[m] == k);
                } else {
                    assert(w[m - a.len()] == k);
                }
            }
            if a.contains(k) {
                let m = choose|m: int| 0 <= m < a.len() && a[m] == k;
                assert(t[m] == k);
            }
            if w.contains(k) {
                let m = choose|m: int| 0 <= m < w.len() && w[m] == k;
                assert(t[m + a.len()] == k);
            }
        }
    }
    let keys = sorted_unique(&all);
    let mut out: Vec<HelperEdit> = Vec::new();
    let mut k: usize = 0;
    while k < keys.len()
        invariant
            k <= keys@.len(),
            out@.map_values(|e: HelperEdit| edit_view(e)) == edits_for(strings_view(keys@).take(k as int), entries@, desired@, *scope),
        decreases keys.len() - k,
    {
        proof {
            assert(strings_view(keys@).take(k + 1).drop_last() =~= strings_view(keys@).take(k as int));
            assert(strings_view(keys@).take(k + 1).last() == keys@[k as int]@);
        }
        let key = &keys[k];
        match host_of_key(key.as_str()) {
            None => {},
            Some(host) => {
                let existing: Vec<String> = match find_entry(entries, key) {
                    Some(e) => entries[e].1.clone(),
                    None => {
                        let empty: Vec<String> = Vec::new();
                        proof {
                            assert(strings_view(empty@) =~= Seq::<Seq<char>>::empty());
                        }
                        empty
                    },
                };
                let want = match find_wanted(desired, &host) {
                    Some(w) => converged_values(&existing, scope, Some(&desired[w].1)),
                    None => converged_values(&existing, scope, None),
                };
                let same = strings_equal(&want, &existing);
                if !same {
                    let ghost prev = out@.map_values(|e: HelperEdit| edit_view(e));
                    let edit = HelperEdit { key: key.clone(), unset: existing.len() > 0, values: want };
                    out.push(edit);
                    proof {
                        assert(out@.map_values(|e: HelperEdit| edit_view(e)) =~= prev.push(edit_view(edit)));
                    }
                }
            },
        }
        k += 1;
    }
    proof {
        assert(strings_view(keys@).take(keys@.len() as int) =~= strings_view(keys@));
    }
    out
}

/// The key of a `key\nvalue` config record (the whole record when it has
/// no newline).
pub open spec fn record_key(r: Seq<char>) -> Seq<char> {
    if r.contains('\n') {
        r.take(first_index_of(r, '\n'))
    } else {
        r
    }
}

/// The value of a config record (empty when it has no newline).
pub open spec fn record_value(r: Seq<char>) -> Seq<char> {
    if r.contains('\n') {
        r.skip(first_index_of(r, '\n') + 1)
    } else {
        Seq::empty()
    }
}

/// The non-empty parts, in order.
pub open spec fn nonempty_parts(parts: Seq<Seq<char>>) -> Seq<Seq<char>>
    decreases parts.len(),
{
    if parts.len() == 0 {
        Seq::empty()
    } else {
        let p = nonempty_parts(parts.drop_last());
        if parts.last().len() > 0 {
            p.push(parts.last())
        } else {
            p
        }
    }
}

/// The records of `git config --null --get-regexp` output.
pub open spec fn config_records(output: Seq<char>) -> Seq<Seq<char>> {
    nonempty_parts(split_on(output, '\0'))
}

/// The values of the records with key `k`, in order.
pub open spec fn values_for(records: Seq<Seq<char>>, k: Seq<char>) -> Seq<Seq<char>>
    decreases records.len(),
{
    if records.len() == 0 {
        Seq::empty()
    } else {
        let p = values_for(records.drop_last(), k);
        if record_key(records.last()) == k {
            p.push(record_value(records.last()))
        } else {
            p
        }
    }
}

fn record_parts(r: &Vec<char>) -> (out: (String, String))
    ensures
        out.0@ == record_key(r@),
        out.1@ == record_value(r@),
{
    match split_once_char(r, '\n') {
        Some((k, v)) => {
            proof {
                let i = choose|i: int| 0 <= i < r@.len() && r@[i] == '\n' && (forall|j: int| 0 <= j < i ==> r@[j] != '\n')
                    && k@ == r@.take(i) && v@ == r@.skip(i + 1);
                lemma_first_index_of(r@, '\n', i);
                assert(r@.contains('\n'));
            }
            (string_from_chars(&k), string_from_chars(&v))
        },
        None => {
            let e: Vec<char> = Vec::new();
            (string_from_chars(r), string_from_chars(&e))
        },
    }
}

/// The helper entries read from `git config --global --null --get-regexp`
/// output: per key, in key order, the values in the order listed.
pub fn parse_helper_entries(output: &str) -> (out: Vec<(String, Vec<String>)>)
    ensures
        sorted_strict(entry_keys(out@)),
        forall|k: Seq<char>| entry_keys(out@).contains(k) <==> config_records(output@).map_values(|r: Seq<char>| record_key(r)).contains(k),
        forall|e: int| 0 <= e < out@.len() ==> strings_view((#[trigger] out@[e]).1@) == values_for(config_records(output@), out@[e].0@),
{
    let parts = split_chars(&chars_of(output), '\0');
    let ghost records = config_records(output@);
    let mut keys: Vec<String> = Vec::new();
    let mut vals: Vec<String> = Vec::new();
    let mut i: usize = 0;
    while i < parts.len()
        invariant
            i <= parts@.len(),
            views_of(parts@) == split_on(output@, '\0'),
            keys@.len() == nonempty_parts(views_of(parts@).take(i as int)).len(),
            vals@.len() == keys@.len(),
            forall|q: int| 0 <= q < keys@.len() ==> (#[trigger] keys@[q])@ == record_key(nonempty_parts(views_of(parts@).take(i as int))[q])
                && vals@[q]@ == record_value(nonempty_parts(views_of(parts@).take(i as int))[q]),
        decreases parts.len() - i,
    {
        let ghost before = nonempty_parts(views_of(parts@).take(i as int));
        proof {
            assert(views_of(parts@).take(i + 1).drop_last() =~= views_of(parts@).take(i as int));
            assert(views_of(parts@).take(i + 1).last() == parts@[i as int]@);
        }
        if parts[i].len() > 0 {
            let (k, v) = record_parts(&parts[i]);
            let ghost kp = keys@;
            let ghost vp = vals@;
            keys.push(k);
            vals.push(v);
            proof {
                let after = nonempty_parts(views_of(parts@).take(i + 1));
                assert(after == before.push(parts@[i as int]@));
                assert forall|q: int| 0 <= q < keys@.len() implies (#[trigger] keys@[q])@ == record_key(after[q]) && vals@[q]@ == record_value(after[q]) by {
                    if q < kp.len() {
                        assert(keys@[q] == kp[q]);
                        assert(vals@[q] == vp[q]);
                        assert(after[q] == before[q]);
                    }
                }
            }
        }
        i += 1;
    }
    proof {
        assert(views_of(parts@).take(parts@.len() as int) =~= views_of(parts@));
        assert(strings_view(keys@) =~= records.map_values(|r: Seq<char>| record_key(r)));
    }
    let sorted = sorted_unique(&keys);
    let mut out: Vec<(String, Vec<String>)> = Vec::new();
    let mut k: usize = 0;
    while k < sorted.len()
        invariant
            k <= sorted@.len(),
            keys@.len() == records.len(),
            vals@.len() == records.len(),
            forall|q: int| 0 <= q < records.len() ==> (#[trigger] keys@[q])@ == record_key(records[q]) && vals@[q]@ == record_value(records[q]),
            out@.len() == k,
            forall|e: int| 0 <= e < k ==> (#[trigger] out@[e]).0@ == sorted@[e]@,
            forall|e: int| 0 <= e < k ==> strings_view((#[trigger] out@[e]).1@) == values_for(records, out@[e].0@),
        decreases sorted.len() - k,
    {
        let key = &sorted[k];
        let mut values: Vec<String> = Vec::new();
        let mut q: usize = 0;
        while q < keys.len()
            invariant
                q <= keys@.len(),
                keys@.len() == records.len(),
                vals@.len() == records.len(),
                forall|x: int| 0 <= x < records.len() ==> (#[trigger] keys@[x])@ == record_key(records[x]) && vals@[x]@ == record_value(records[x]),
                strings_view(values@) == values_for(records.take(q as int), key@),
            decreases keys.len() - q,
        {
            proof {
                assert(records.take(q + 1).drop_last() =~= records.take(q as int));
                assert(records.take(q + 1).last() == records[q as int]);
            }
            if keys[q] == *key {
                let ghost prev = strings_view(values@);
                values.push(vals[q].clone());
                proof {
                    assert(strings_view(values@) =~= prev.push(vals@[q as int]@));
                }
            }
            q += 1;
        }
        proof {
            assert(records.take(records.len() as int) =~= records);
        }
        out.push((key.clone(), values));
        k += 1;
    }
    proof {
        assert(entry_keys(out@) =~= strings_view(sorted@));
    }
    out
}

} // verus!
