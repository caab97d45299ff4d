//! Character-level text helpers shared by the library: trimming, searching,
//! splitting, joining, decimal rendering and slugs, each stated over the
//! `Seq<char>` view of the text.
use vstd::prelude::*;

verus! {

/// The characters of `s`, in order.
pub fn chars_of(s: &str) -> (out: Vec<char>)
    ensures
        out@ == s@,
{
    let mut out: Vec<char> = Vec::new();
    for c in it: s.chars()
        invariant
            out@ == it.seq().take(it.index() as int),
            it.seq() == s@,
    {
        out.push(c);
    }
    out
}

/// Builds an owned string holding exactly the characters of `v`
/// (`String::from_iter` over the characters).
#[verifier::external_body]
pub fn string_from_chars(v: &Vec<char>) -> (out: String)
    ensures
        out@ == v@,
{
    String::from_iter(v.iter())
}

/// Rust's notion of whitespace (`char::is_whitespace`): the Unicode
/// `White_Space` property.
pub open spec fn is_ws(c: char) -> bool {
    let x = c as u32;
    ||| 0x09 <= x <= 0x0D
    ||| x == 0x20
    ||| x == 0x85
    ||| x == 0xA0
    ||| x == 0x1680
    ||| 0x2000 <= x <= 0x200A
    ||| x == 0x2028
    ||| x == 0x2029
    ||| x == 0x202F
    ||| x == 0x205F
    ||| x == 0x3000
}

pub fn is_whitespace(c: char) -> (b: bool)
    ensures
        b == is_ws(c),
{
    let x = c as u32;
    (0x09 <= x && x <= 0x0D) || x == 0x20 || x == 0x85 || x == 0xA0 || x == 0x1680 || (0x2000 <= x
        && x <= 0x200A) || x == 0x2028 || x == 0x2029 || x == 0x202F || x == 0x205F || x == 0x3000
}

/// `s` without its leading whitespace.
pub open spec fn trim_start_seq(s: Seq<char>) -> Seq<char>
    decreases s.len(),
{
    if s.len() > 0 && is_ws(s[0]) {
        trim_start_seq(s.drop_first())
    } else {
        s
    }
}

/// `s` without its trailing whitespace.
pub open spec fn trim_end_seq(s: Seq<char>) -> Seq<char>
    decreases s.len(),
{
    if s.len() > 0 && is_ws(s.last()) {
        trim_end_seq(s.drop_last())
    } else {
        s
    }
}

/// `s` without leading or trailing whitespace.
pub open spec fn trim_seq(s: Seq<char>) -> Seq<char> {
    trim_end_seq(trim_start_seq(s))
}

proof fn lemma_trim_start_len(s: Seq<char>)
    ensures
        trim_start_seq(s).len() <= s.len(),
        trim_start_seq(s).len() == s.len() ==> trim_start_seq(s) == s,
    decreases s.len(),
{
    if s.len() > 0 && is_ws(s[0]) {
        lemma_trim_start_len(s.drop_first());
    }
}

proof fn lemma_trim_end_len(s: Seq<char>)
    ensures
        trim_end_seq(s).len() <= s.len(),
        trim_end_seq(s).len() == s.len() ==> trim_end_seq(s) == s,
    decreases s.len(),
{
    if s.len() > 0 && is_ws(s.last()) {
        lemma_trim_end_len(s.drop_last());
    }
}

/// Trimming that removes nothing leaves the text as it was.
pub proof fn lemma_trim_same_len(s: Seq<char>)
    ensures
        trim_seq(s).len() == s.len() ==> trim_seq(s) == s,
{
    lemma_trim_start_len(s);
    lemma_trim_end_len(trim_start_seq(s));
}

/// The characters `v[lo..hi]` as a new vector.
pub fn slice_chars(v: &Vec<char>, lo: usize, hi: usize) -> (out: Vec<char>)
    requires
        lo <= hi <= v.len(),
    ensures
        out@ == v@.subrange(lo as int, hi as int),
{
    let mut out: Vec<char> = Vec::new();
    let mut i = lo;
    while i < hi
        invariant
            lo <= i <= hi <= v.len(),
            out@ == v@.subrange(lo as int, i as int),
        decreases hi - i,
    {
        out.push(v[i]);
        i += 1;
    }
    out
}

proof fn lemma_trim_start_skip(s: Seq<char>, i: int)
    requires
        0 <= i < s.len(),
        is_ws(s[i]),
    ensures
        trim_start_seq(s.skip(i)) == trim_start_seq(s.skip(i + 1)),
{
    assert(s.skip(i).drop_first() =~= s.skip(i + 1));
}

proof fn lemma_trim_end_take(s: Seq<char>, j: int)
    requires
        0 < j <= s.len(),
        is_ws(s[j - 1]),
    ensures
        trim_end_seq(s.take(j)) == trim_end_seq(s.take(j - 1)),
{
    assert(s.take(j).drop_last() =~= s.take(j - 1));
}

/// Index of the first non-whitespace character (or the length).
fn leading_ws_end(v: &Vec<char>) -> (i: usize)
    ensures
        i <= v.len(),
        trim_start_seq(v@) == v@.skip(i as int),
{
    let mut i: usize = 0;
    proof {
        assert(v@.skip(0) =~= v@);
    }
    while i < v.len() && is_whitespace(v[i])
        invariant
            i <= v.len(),
            trim_start_seq(v@) == trim_start_seq(v@.skip(i as int)),
        decreases v.len() - i,
    {
        proof {
            lemma_trim_start_skip(v@, i as int);
        }
        i += 1;
    }
    i
}

/// Index just past the last non-whitespace character (or 0).
fn trailing_ws_start(v: &Vec<char>) -> (j: usize)
    ensures
        j <= v.len(),
        trim_end_seq(v@) == v@.take(j as int),
{
    let mut j: usize = v.len();
    proof {
        assert(v@.take(v.len() as int) =~= v@);
    }
    while j > 0 && is_whitespace(v[j - 1])
        invariant
            j <= v.len(),
            trim_end_seq(v@) == trim_end_seq(v@.take(j as int)),
        decreases j,
    {
        proof {
            lemma_trim_end_take(v@, j as int);
        }
        j -= 1;
    }
    j
}

pub fn trim_start_chars(v: &Vec<char>) -> (out: Vec<char>)
    ensures
        out@ == trim_start_seq(v@),
{
    let i = leading_ws_end(v);
    let out = slice_chars(v, i, v.len());
    proof {
        assert(out@ =~= v@.skip(i as int));
    }
    out
}

pub fn trim_end_chars(v: &Vec<char>) -> (out: Vec<char>)
    ensures
        out@ == trim_end_seq(v@),
{
    let j = trailing_ws_start(v);
    let out = slice_chars(v, 0, j);
    proof {
        assert(out@ =~= v@.take(j as int));
    }
    out
}

pub fn trim_chars(v: &Vec<char>) -> (out: Vec<char>)
    ensures
        out@ == trim_seq(v@),
{
    let a = trim_start_chars(v);
    trim_end_chars(&a)
}


/// `n` occurs in `h` starting at index `i`.
pub open spec fn matches_at(h: Seq<char>, n: Seq<char>, i: int) -> bool {
    0 <= i && i + n.len() <= h.len() && h.subrange(i, i + n.len()) == n
}

/// `n` occurs somewhere in `h`.
pub open spec fn contains_seq(h: Seq<char>, n: Seq<char>) -> bool {
    exists|i: int| matches_at(h, n, i)
}

pub open spec fn starts_with_seq(h: Seq<char>, p: Seq<char>) -> bool {
    matches_at(h, p, 0)
}

pub open spec fn ends_with_seq(h: Seq<char>, p: Seq<char>) -> bool {
    p.len() <= h.len() && matches_at(h, p, h.len() - p.len())
}

/// Whether `n` occurs in `h` at index `i`.
pub fn matches_at_exec(h: &Vec<char>, n: &Vec<char>, i: usize) -> (b: bool)
    ensures
        b == matches_at(h@, n@, i as int),
{
    if i > h.len() || n.len() > h.len() - i {
        return false;
    }
    let mut k: usize = 0;
    while k < n.len()
        invariant
            i + n.len() <= h.len(),
            k <= n.len(),
            forall|j: int| 0 <= j < k ==> h@[i + j] == n@[j],
        decreases n.len() - k,
    {
        if h[i + k] != n[k] {
            proof {
                assert(h@.subrange(i as int, i + n.len())[k as int] != n@[k as int]);
            }
            return false;
        }
        k += 1;
    }
    proof {
        assert(h@.subrange(i as int, i + n.len()) =~= n@);
    }
    true
}

/// The first occurrence of `n` in `h` at or after `start`.
pub fn find_from(h: &Vec<char>, n: &Vec<char>, start: usize) -> (r: Option<usize>)
    ensures
        match r {
            Some(i) => start <= i && matches_at(h@, n@, i as int) && forall|j: int|
                start <= j < i ==> !matches_at(h@, n@, j),
            None => forall|j: int| start <= j ==> !matches_at(h@, n@, j),
        },
{
    let mut i = start;
    while i < h.len()
        invariant
            start <= i,
            forall|j: int| start <= j < i ==> !matches_at(h@, n@, j),
        decreases h.len() - i,
    {
        if matches_at_exec(h, n, i) {
            return Some(i);
        }
        i += 1;
    }
    if i == h.len() && matches_at_exec(h, n, i) {
        return Some(i);
    }
    None
}

/// The first occurrence of `n` in `h`.
pub fn find_chars(h: &Vec<char>, n: &Vec<char>) -> (r: Option<usize>)
    ensures
        match r {
            Some(i) => matches_at(h@, n@, i as int) && forall|j: int|
                0 <= j < i ==> !matches_at(h@, n@, j),
            None => !contains_seq(h@, n@),
        },
{
    find_from(h, n, 0)
}

pub fn contains_chars(h: &Vec<char>, n: &Vec<char>) -> (b: bool)
    ensures
        b == contains_seq(h@, n@),
{
    find_chars(h, n).is_some()
}

pub fn starts_with_chars(h: &Vec<char>, p: &Vec<char>) -> (b: bool)
    ensures
        b == starts_with_seq(h@, p@),
{
    matches_at_exec(h, p, 0)
}

pub fn ends_with_chars(h: &Vec<char>, p: &Vec<char>) -> (b: bool)
    ensures
        b == ends_with_seq(h@, p@),
{
    if p.len() > h.len() {
        false
    } else {
        matches_at_exec(h, p, h.len() - p.len())
    }
}

/// Equality of two character sequences.
pub fn chars_eq(a: &Vec<char>, b: &Vec<char>) -> (r: bool)
    ensures
        r == (a@ == b@),
{
    if a.len() != b.len() {
        return false;
    }
    let r = matches_at_exec(a, b, 0);
    proof {
        if r {
            assert(a@.subrange(0, b@.len() as int) =~= a@);
        } else {
            assert(!(a@ =~= b@) ==> a@ != b@);
            if a@ == b@ {
                assert(a@.subrange(0, b@.len() as int) =~= a@);
            }
        }
    }
    r
}

/// Equality of two strings by their characters.
pub fn str_eq(a: &str, b: &str) -> (r: bool)
    ensures
        r == (a@ == b@),
{
    let x = chars_of(a);
    let y = chars_of(b);
    chars_eq(&x, &y)
}

/// Whether `v` contains the character `c`.
pub fn has_char(v: &Vec<char>, c: char) -> (b: bool)
    ensures
        b == v@.contains(c),
{
    let mut i: usize = 0;
    while i < v.len()
        invariant
            i <= v.len(),
            forall|j: int| 0 <= j < i ==> v@[j] != c,
        decreases v.len() - i,
    {
        if v[i] == c {
            return true;
        }
        i += 1;
    }
    false
}

/// Index of the first `c` in `v`.
pub fn index_of_char(v: &Vec<char>, c: char) -> (r: Option<usize>)
    ensures
        match r {
            Some(i) => i < v.len() && v@[i as int] == c && forall|j: int| 0 <= j < i ==> v@[j] != c,
            None => !v@.contains(c),
        },
{
    let mut i: usize = 0;
    while i < v.len()
        invariant
            i <= v.len(),
            forall|j: int| 0 <= j < i ==> v@[j] != c,
        decreases v.len() - i,
    {
        if v[i] == c {
            return Some(i);
        }
        i += 1;
    }
    None
}

/// Splits `v` around its first `c`.
pub fn split_once_char(v: &Vec<char>, c: char) -> (r: Option<(Vec<char>, Vec<char>)>)
    ensures
        match r {
            Some((a, b)) => exists|i: int|
                0 <= i < v@.len() && v@[i] == c && (forall|j: int| 0 <= j < i ==> v@[j] != c)
                    && a@ == v@.take(i) && b@ == v@.skip(i + 1),
            None => !v@.contains(c),
        },
{
    match index_of_char(v, c) {
        Some(i) => {
            let a = slice_chars(v, 0, i);
            let b = slice_chars(v, i + 1, v.len());
            proof {
                assert(a@ =~= v@.take(i as int));
                assert(b@ =~= v@.skip(i + 1));
            }
            Some((a, b))
        },
        None => None,
    }
}

/// Appends the characters of `b` to `a`.
pub fn append_chars(a: &mut Vec<char>, b: &Vec<char>)
    ensures
        final(a)@ == old(a)@ + b@,
{
    let mut i: usize = 0;
    let ghost a0 = a@;
    while i < b.len()
        invariant
            i <= b.len(),
            a@ == a0 + b@.take(i as int),
        decreases b.len() - i,
    {
        a.push(b[i]);
        i += 1;
        proof {
            assert(b@.take(i as int) =~= b@.take(i - 1).push(b@[i - 1]));
        }
    }
    proof {
        assert(b@.take(b.len() as int) =~= b@);
    }
}

/// Appends the characters of the string `s` to `a`.
pub fn append_str(a: &mut Vec<char>, s: &str)
    ensures
        final(a)@ == old(a)@ + s@,
{
    let b = chars_of(s);
    append_chars(a, &b);
}

/// `parts` joined with `sep` between consecutive parts.
pub open spec fn join_seq(parts: Seq<Seq<char>>, sep: Seq<char>) -> Seq<char>
    decreases parts.len(),
{
    if parts.len() == 0 {
        Seq::empty()
    } else if parts.len() == 1 {
        parts[0]
    } else {
        join_seq(parts.drop_last(), sep) + sep + parts.last()
    }
}

pub open spec fn views_of(parts: Seq<Vec<char>>) -> Seq<Seq<char>> {
    parts.map_values(|p: Vec<char>| p@)
}

/// The parts joined with `sep` between consecutive parts.
pub fn join_chars(parts: &Vec<Vec<char>>, sep: &Vec<char>) -> (out: Vec<char>)
    ensures
        out@ == join_seq(views_of(parts@), sep@),
{
    let mut out: Vec<char> = Vec::new();
    let mut i: usize = 0;
    while i < parts.len()
        invariant
            i <= parts.len(),
            out@ == join_seq(views_of(parts@).take(i as int), sep@),
        decreases parts.len() - i,
    {
        let ghost before = out@;
        if i > 0 {
            append_chars(&mut out, sep);
        }
        append_chars(&mut out, &parts[i]);
        proof {
            let vs = views_of(parts@);
            assert(vs.take(i + 1).drop_last() =~= vs.take(i as int));
            if i == 0 {
                assert(before =~= Seq::<char>::empty());
                assert(out@ =~= vs.take(1)[0]);
            }
        }
        i += 1;
    }
    proof {
        assert(views_of(parts@).take(parts.len() as int) =~= views_of(parts@));
    }
    out
}

/// ASCII letters and digits.
pub open spec fn is_ascii_alnum(c: char) -> bool {
    ('a' <= c && c <= 'z') || ('A' <= c && c <= 'Z') || ('0' <= c && c <= '9')
}

pub fn is_ascii_alnum_exec(c: char) -> (b: bool)
    ensures
        b == is_ascii_alnum(c),
{
    ('a' <= c && c <= 'z') || ('A' <= c && c <= 'Z') || ('0' <= c && c <= '9')
}

/// The ASCII lower-case form of `c` (other characters unchanged).
pub open spec fn lower_char(c: char) -> char {
    if 'A' <= c && c <= 'Z' {
        ((c as u32) + 32) as char
    } else {
        c
    }
}

pub fn lower_char_exec(c: char) -> (r: char)
    ensures
        r == lower_char(c),
{
    if 'A' <= c && c <= 'Z' {
        let x: u8 = (c as u32 + 32) as u8;
        x as char
    } else {
        c
    }
}

/// The ASCII upper-case form of `c` (other characters unchanged).
pub open spec fn upper_char(c: char) -> char {
    if 'a' <= c && c <= 'z' {
        ((c as u32) - 32) as char
    } else {
        c
    }
}

pub fn upper_char_exec(c: char) -> (r: char)
    ensures
        r == upper_char(c),
{
    if 'a' <= c && c <= 'z' {
        let x: u8 = (c as u32 - 32) as u8;
        x as char
    } else {
        c
    }
}


/// The character of the decimal digit `d` (`0 <= d < 10`).
pub open spec fn digit_char(d: int) -> char {
    ((d + 48) as u8) as char
}

/// The decimal rendering of `n`, without sign or leading zeros.
pub open spec fn decimal_seq(n: nat) -> Seq<char>
    decreases n,
{
    if n < 10 {
        seq![digit_char(n as int)]
    } else {
        decimal_seq(n / 10).push(digit_char((n % 10) as int))
    }
}

/// Appends the decimal rendering of `n` to `out`.
pub fn push_decimal(out: &mut Vec<char>, n: u64)
    ensures
        final(out)@ == old(out)@ + decimal_seq(n as nat),
    decreases n,
{
    let ghost start = out@;
    if n >= 10 {
        push_decimal(out, n / 10);
    }
    let d: u8 = (n % 10) as u8;
    out.push((d + 48) as char);
    proof {
        if n >= 10 {
            assert(out@ =~= start + decimal_seq(n as nat));
        } else {
            assert(out@ =~= start + decimal_seq(n as nat));
        }
    }
}

/// The slug of `s`, built left to right: ASCII letters and digits are kept
/// (letters lower-cased); every other run of characters becomes one `-`
/// between kept characters, never at either end. The flag records a run
/// that is waiting for a following kept character.
pub open spec fn slug_state(s: Seq<char>) -> (Seq<char>, bool)
    decreases s.len(),
{
    if s.len() == 0 {
        (Seq::empty(), false)
    } else {
        let prev = slug_state(s.drop_last());
        let c = s.last();
        if is_ascii_alnum(c) {
            let base = if prev.1 && prev.0.len() > 0 {
                prev.0.push('-')
            } else {
                prev.0
            };
            (base.push(lower_char(c)), false)
        } else {
            (prev.0, true)
        }
    }
}

pub open spec fn slugify_seq(s: Seq<char>) -> Seq<char> {
    slug_state(s).0
}

/// Characters that may appear in a slug.
pub open spec fn is_slug_char(c: char) -> bool {
    ('a' <= c && c <= 'z') || ('0' <= c && c <= '9') || c == '-'
}

/// A well-formed slug: lower-case letters, digits and single inner dashes.
pub open spec fn is_slug(t: Seq<char>) -> bool {
    &&& forall|i: int| 0 <= i < t.len() ==> is_slug_char(#[trigger] t[i])
    &&& (t.len() > 0 ==> t[0] != '-' && t.last() != '-')
    &&& forall|i: int| 0 <= i < t.len() - 1 ==> !(#[trigger] t[i] == '-' && t[i + 1] == '-')
}

proof fn lemma_lower_alnum(c: char)
    requires
        is_ascii_alnum(c),
    ensures
        is_slug_char(lower_char(c)),
        lower_char(c) != '-',
        is_ascii_alnum(lower_char(c)),
{
    if 'A' <= c && c <= 'Z' {
        let x = c as u32;
        assert(65 <= x <= 90);
        assert(97 <= x + 32 <= 122);
        assert((x + 32) as char as u32 == x + 32);
    }
}

proof fn lemma_slug_state_is_slug(s: Seq<char>)
    ensures
        is_slug(slug_state(s).0),
    decreases s.len(),
{
    if s.len() > 0 {
        lemma_slug_state_is_slug(s.drop_last());
        let prev = slug_state(s.drop_last());
        let c = s.last();
        if is_ascii_alnum(c) {
            lemma_lower_alnum(c);
            let base = if prev.1 && prev.0.len() > 0 { prev.0.push('-') } else { prev.0 };
            let t = base.push(lower_char(c));
            assert forall|i: int| 0 <= i < t.len() implies is_slug_char(#[trigger] t[i]) by {
                if i < prev.0.len() {
                    assert(t[i] == prev.0[i]);
                }
            }
            assert forall|i: int| 0 <= i < t.len() - 1 implies !(#[trigger] t[i] == '-' && t[i + 1] == '-') by {
                if i + 1 < prev.0.len() {
                    assert(t[i] == prev.0[i] && t[i + 1] == prev.0[i + 1]);
                } else if i + 1 == prev.0.len() {
                    assert(t[i] == prev.0[i]);
                }
            }
            if t.len() > 0 && prev.0.len() > 0 {
                assert(t[0] == prev.0[0]);
            }
        }
    }
}

/// A slug is made of lower-case letters, digits and single inner dashes.
pub proof fn lemma_slugify_is_slug(s: Seq<char>)
    ensures
        is_slug(slugify_seq(s)),
{
    lemma_slug_state_is_slug(s);
}

proof fn lemma_slug_prefix_state(t: Seq<char>, n: int)
    requires
        is_slug(t),
        0 <= n <= t.len(),
    ensures
        slug_state(t.take(n)) == (if n > 0 && t[n - 1] == '-' { (t.take(n - 1), true) } else { (t.take(n), false) }),
    decreases n,
{
    if n > 0 {
        lemma_slug_prefix_state(t, n - 1);
        let p = t.take(n);
        let q = t.take(n - 1);
        assert(p.drop_last() =~= q);
        let c = t[n - 1];
        assert(p.last() == c);
        assert(is_slug_char(c));
        if c == '-' {
            assert(n - 1 > 0) by {
                if n - 1 == 0 {
                    assert(t[0] == '-');
                }
            }
            assert(t[n - 2] != '-');
            assert(!is_ascii_alnum(c));
        } else {
            assert(is_ascii_alnum(c));
            assert(lower_char(c) == c);
            if n - 1 > 0 && t[n - 2] == '-' {
                assert(n - 2 > 0) by {
                    if n - 2 == 0 {
                        assert(t[0] == '-');
                    }
                }
                assert(t.take(n - 2).len() > 0);
                assert(t.take(n - 2).push('-') =~= q);
                assert(q.push(c) =~= p);
            } else {
                assert(q.push(c) =~= p);
            }
        }
    } else {
        assert(t.take(0) =~= Seq::<char>::empty());
    }
}

/// A slug is its own slug.
pub proof fn lemma_slug_fixed(t: Seq<char>)
    requires
        is_slug(t),
    ensures
        slugify_seq(t) == t,
{
    lemma_slug_prefix_state(t, t.len() as int);
    assert(t.take(t.len() as int) =~= t);
}

/// Slugifying twice is slugifying once.
pub proof fn lemma_slugify_idempotent(s: Seq<char>)
    ensures
        slugify_seq(slugify_seq(s)) == slugify_seq(s),
{
    lemma_slugify_is_slug(s);
    lemma_slug_fixed(slugify_seq(s));
}

/// The slug of `s` (see `slugify_seq`).
pub fn slugify_chars(v: &Vec<char>) -> (out: Vec<char>)
    ensures
        out@ == slugify_seq(v@),
{
    let mut out: Vec<char> = Vec::new();
    let mut pending = false;
    let mut i: usize = 0;
    proof {
        assert(v@.take(0) =~= Seq::<char>::empty());
    }
    while i < v.len()
        invariant
            i <= v.len(),
            (out@, pending) == slug_state(v@.take(i as int)),
        decreases v.len() - i,
    {
        let c = v[i];
        proof {
            assert(v@.take(i + 1).drop_last() =~= v@.take(i as int));
            assert(v@.take(i + 1).last() == c);
        }
        if is_ascii_alnum_exec(c) {
            if pending && out.len() > 0 {
                out.push('-');
            }
            out.push(lower_char_exec(c));
            pending = false;
        } else {
            pending = true;
        }
        i += 1;
    }
    proof {
        assert(v@.take(v.len() as int) =~= v@);
    }
    out
}

/// The slug of `s` as an owned string.
pub fn slugify(s: &str) -> (out: String)
    ensures
        out@ == slugify_seq(s@),
{
    let v = chars_of(s);
    let r = slugify_chars(&v);
    string_from_chars(&r)
}


/// The character views of a list of strings.
pub open spec fn strings_view(v: Seq<String>) -> Seq<Seq<char>> {
    v.map_values(|s: String| s@)
}

/// Whether `x` is (by its characters) one of `list`.
pub fn contains_string(list: &Vec<String>, x: &String) -> (b: bool)
    ensures
        b == strings_view(list@).contains(x@),
{
    let mut i: usize = 0;
    while i < list.len()
        invariant
            i <= list.len(),
            forall|j: int| 0 <= j < i ==> list@[j]@ != x@,
        decreases list.len() - i,
    {
        if list[i] == *x {
            proof {
                assert(strings_view(list@)[i as int] == x@);
            }
            return true;
        }
        i += 1;
    }
    proof {
        if strings_view(list@).contains(x@) {
            let j = choose|j: int| 0 <= j < list@.len() && strings_view(list@)[j] == x@;
            assert(list@[j]@ == x@);
        }
    }
    false
}

/// Owned copies of the strings of `v`, in order.
pub fn copy_strings(v: &Vec<String>) -> (out: Vec<String>)
    ensures
        strings_view(out@) == strings_view(v@),
{
    let mut out: Vec<String> = Vec::new();
    let mut i: usize = 0;
    while i < v.len()
        invariant
            i <= v.len(),
            out@.len() == i,
            strings_view(out@) == strings_view(v@).take(i as int),
        decreases v.len() - i,
    {
        let c = v[i].clone();
        let ghost prev = out@;
        out.push(c);
        proof {
            assert(out@ == prev.push(c));
            assert(out@.len() == i + 1);
            assert(c@ == v@[i as int]@);
            assert forall|j: int| 0 <= j < i + 1 implies #[trigger] strings_view(out@)[j]
                == strings_view(v@).take(i + 1)[j] by {
                if j < i {
                    assert(strings_view(prev)[j] == strings_view(v@).take(i as int)[j]);
                }
            }
            assert(strings_view(out@) =~= strings_view(v@).take(i + 1));
        }
        i += 1;
    }
    proof {
        assert(strings_view(v@).take(v.len() as int) =~= strings_view(v@));
    }
    out
}

/// Whether `s` holds nothing but whitespace.
pub fn is_blank(s: &str) -> (b: bool)
    ensures
        b == (trim_seq(s@).len() == 0),
{
    let v = chars_of(s);
    let t = trim_chars(&v);
    t.len() == 0
}

/// The strings joined with `sep` between consecutive ones.
pub fn join_strings(parts: &Vec<String>, sep: &str) -> (out: String)
    ensures
        out@ == join_seq(strings_view(parts@), sep@),
{
    let mut chunks: Vec<Vec<char>> = Vec::new();
    let mut i: usize = 0;
    while i < parts.len()
        invariant
            i <= parts@.len(),
            chunks@.len() == i,
            views_of(chunks@) == strings_view(parts@).take(i as int),
        decreases parts.len() - i,
    {
        let ghost prev = chunks@;
        let c = chars_of(parts[i].as_str());
        chunks.push(c);
        proof {
            assert(views_of(chunks@) =~= views_of(prev).push(c@));
            assert(strings_view(parts@).take(i + 1) =~= strings_view(parts@).take(i as int).push(parts@[i as int]@));
        }
        i += 1;
    }
    proof {
        assert(strings_view(parts@).take(parts@.len() as int) =~= strings_view(parts@));
    }
    let s = chars_of(sep);
    let out = join_chars(&chunks, &s);
    string_from_chars(&out)
}

/// Position of the first `c` in `s` (meaningful when `s` holds one).
pub open spec fn first_index_of(s: Seq<char>, c: char) -> int {
    choose|i: int| 0 <= i < s.len() && s[i] == c && forall|j: int| 0 <= j < i ==> s[j] != c
}

/// `s` cut at every `c` (as `str::split` with a character): one more part
/// than there are `c`s.
#[verifier::opaque]
pub open spec fn split_on(s: Seq<char>, c: char) -> Seq<Seq<char>>
    decreases s.len(),
{
    if s.contains(c) {
        let i = first_index_of(s, c);
        if 0 <= i < s.len() {
            seq![s.take(i)] + split_on(s.skip(i + 1), c)
        } else {
            Seq::empty()
        }
    } else {
        seq![s]
    }
}

pub proof fn lemma_first_index_of(s: Seq<char>, c: char, i: int)
    requires
        0 <= i < s.len(),
        s[i] == c,
        forall|j: int| 0 <= j < i ==> s[j] != c,
    ensures
        first_index_of(s, c) == i,
{
    let f = first_index_of(s, c);
    assert(s.contains(c));
    assert(0 <= f < s.len() && s[f] == c && forall|j: int| 0 <= j < f ==> s[j] != c);
    if f < i {
        assert(s[f] != c);
    } else if i < f {
        assert(s[i] != c);
    }
}

proof fn lemma_split_step(v: Seq<char>, c: char, start: int, i: int)
    requires
        0 <= start <= i < v.len(),
        v[i] == c,
        forall|j: int| start <= j < i ==> v[j] != c,
    ensures
        split_on(v.skip(start), c) == seq![v.subrange(start, i)] + split_on(v.skip(i + 1), c),
{
    let s = v.skip(start);
    let d = i - start;
    assert(s[d] == c);
    assert forall|j: int| 0 <= j < d implies s[j] != c by {
        assert(s[j] == v[start + j]);
    }
    lemma_first_index_of(s, c, d);
    assert(s.take(d) =~= v.subrange(start, i));
    assert(s.skip(d + 1) =~= v.skip(i + 1));
    reveal(split_on);
}

proof fn lemma_split_last(s: Seq<char>, c: char)
    requires
        !s.contains(c),
    ensures
        split_on(s, c) == seq![s],
{
    reveal(split_on);
}

/// The parts of `v` cut at every `c`.
pub fn split_chars(v: &Vec<char>, c: char) -> (out: Vec<Vec<char>>)
    ensures
        views_of(out@) == split_on(v@, c),
{
    let mut out: Vec<Vec<char>> = Vec::new();
    let mut start: usize = 0;
    let mut i: usize = 0;
    proof {
        assert(v@.skip(0) =~= v@);
        assert(views_of(out@) + split_on(v@.skip(0), c) =~= split_on(v@, c));
    }
    while i < v.len()
        invariant
            start <= i <= v@.len(),
            forall|j: int| start <= j < i ==> v@[j] != c,
            views_of(out@) + split_on(v@.skip(start as int), c) == split_on(v@, c),
        decreases v.len() - i,
    {
        if v[i] == c {
            let part = slice_chars(v, start, i);
            proof {
                lemma_split_step(v@, c, start as int, i as int);
                assert(part@ =~= v@.subrange(start as int, i as int));
                assert(views_of(out@.push(part)) =~= views_of(out@).push(part@));
            }
            out.push(part);
            start = i + 1;
        }
        i += 1;
    }
    let last = slice_chars(v, start, v.len());
    proof {
        let s = v@.skip(start as int);
        assert(s =~= last@);
        assert(!s.contains(c)) by {
            if s.contains(c) {
                let k = choose|k: int| 0 <= k < s.len() && s[k] == c;
                assert(v@[start + k] == c);
            }
        }
        assert(views_of(out@.push(last)) =~= views_of(out@).push(last@));
        lemma_split_last(s, c);
    }
    out.push(last);
    out
}

} // verus!
