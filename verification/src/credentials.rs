//! Which git credential targets a remote may answer for: exact, lower-case
//! HTTPS host names, never a shape that could forward a credential
//! elsewhere (ports, user info, non-ASCII look-alikes, odd labels).
use vstd::prelude::*;

use crate::order::{insert_sorted, sorted_strict};
use crate::text::{
    strings_view,
    append_str, chars_of, contains_chars, contains_seq, ends_with_seq, is_ascii_alnum, is_ascii_alnum_exec,
    lower_char, lower_char_exec, str_eq, string_from_chars, trim_chars, trim_seq,
};

verus! {

#[verifier::external_type_specification]
#[verifier::external_body]
pub struct ExUrl(url::Url);

/// A URL as `url::Url::parse` returned it, with the text it was parsed
/// from as its view.
pub struct ParsedUrl {
    url: url::Url,
    source: Ghost<Seq<char>>,
}

impl View for ParsedUrl {
    type V = Seq<char>;

    closed spec fn view(&self) -> Seq<char> {
        self.source@
    }
}

/// `url::Url::parse` accepts this text as an absolute URL.
pub uninterp spec fn url_parses(input: Seq<char>) -> bool;

/// `url::Url::port` of the URL that this text parses to.
pub uninterp spec fn parsed_port(input: Seq<char>) -> Option<u16>;

/// `url::Url::host_str` of the URL that this text parses to.
pub uninterp spec fn parsed_host(input: Seq<char>) -> Option<Seq<char>>;

/// `url::Url::parse`: the absolute URL that `input` parses to, if any (the
/// parse error is dropped). Whether it parses is a function of the text
/// alone, named `url_parses`; the URL keeps that text as its view.
#[verifier::external_body]
fn url_parse(input: &str) -> (r: Option<ParsedUrl>)
    ensures
        r is Some <==> url_parses(input@),
        r matches Some(p) ==> p@ == input@,
{
    match url::Url::parse(input) {
        Ok(url) => Some(ParsedUrl { url, source: Ghost(input@) }),
        Err(_) => None,
    }
}

/// `url::Url::port`: the URL's explicit port; none when absent or the
/// scheme's default. It depends on the parsed text alone, named
/// `parsed_port`; nothing more is stated of it.
#[verifier::external_body]
fn url_port(u: &ParsedUrl) -> (r: Option<u16>)
    ensures
        r == parsed_port(u@),
{
    u.url.port()
}

/// `url::Url::host_str`: the URL's host as text, if it has one. It depends
/// on the parsed text alone, named `parsed_host`; nothing more is stated of
/// it.
#[verifier::external_body]
fn url_host(u: &ParsedUrl) -> (r: Option<String>)
    ensures
        match r {
            Some(h) => parsed_host(u@) == Some(h@),
            None => parsed_host(u@) is None,
        },
{
    u.url.host_str().map(|h| h.to_string())
}

/// Every character is ASCII.
pub open spec fn all_ascii(s: Seq<char>) -> bool {
    forall|i: int| 0 <= i < s.len() ==> (#[trigger] s[i] as u32) < 128
}

pub open spec fn lower_seq(s: Seq<char>) -> Seq<char> {
    s.map_values(|c: char| lower_char(c))
}

pub open spec fn is_label_char(c: char) -> bool {
    is_ascii_alnum(c) || c == '-'
}

/// A DNS label: 1 to 63 letters, digits and hyphens, starting and ending
/// with a letter or digit.
pub open spec fn valid_dns_label(l: Seq<char>) -> bool {
    &&& 0 < l.len() <= 63
    &&& is_ascii_alnum(l[0])
    &&& is_ascii_alnum(l.last())
    &&& forall|i: int| 0 <= i < l.len() ==> is_label_char(#[trigger] l[i])
}

/// Position of the first `.` of `s` (meaningful when it has one).
pub open spec fn first_dot(s: Seq<char>) -> int {
    choose|i: int| 0 <= i < s.len() && s[i] == '.' && forall|j: int| 0 <= j < i ==> s[j] != '.'
}

/// Every `.`-separated label of `s` is a valid DNS label.
pub open spec fn every_label_valid(s: Seq<char>) -> bool
    decreases s.len(),
{
    if s.contains('.') {
        let i = first_dot(s);
        if 0 <= i < s.len() {
            valid_dns_label(s.take(i)) && every_label_valid(s.skip(i + 1))
        } else {
            false
        }
    } else {
        valid_dns_label(s)
    }
}

/// A lower-cased host name a credential may be vended for.
pub open spec fn host_shape_ok(n: Seq<char>) -> bool {
    &&& 0 < n.len() <= 253
    &&& !ends_with_seq(n, "."@)
    &&& !contains_seq(n, ".."@)
    &&& !n.contains(':')
    &&& every_label_valid(n)
}

/// The checks made before the host is handed to the URL parser: HTTPS, no
/// surrounding whitespace, ASCII, and a well-formed lower-cased host.
pub open spec fn target_prechecks(protocol: Seq<char>, host: Seq<char>) -> bool {
    &&& protocol == "https"@
    &&& trim_seq(host) == host
    &&& all_ascii(host)
    &&& host_shape_ok(lower_seq(host))
}

/// The text handed to the URL parser for a host: `https://<host>/` with
/// the host lower-cased.
pub open spec fn target_text(host: Seq<char>) -> Seq<char> {
    "https://"@ + lower_seq(host) + "/"@
}

/// The URL parser reads `https://<host>/` back as the lower-cased host,
/// with no explicit port.
pub open spec fn parser_accepts(host: Seq<char>) -> bool {
    let t = target_text(host);
    &&& url_parses(t)
    &&& parsed_port(t) is None
    &&& parsed_host(t) == Some(lower_seq(host))
}

/// `host` is a credential target for `protocol`.
pub open spec fn target_accepted(protocol: Seq<char>, host: Seq<char>) -> bool {
    target_prechecks(protocol, host) && parser_accepts(host)
}

proof fn lemma_first_dot(s: Seq<char>, i: int)
    requires
        0 <= i < s.len(),
        s[i] == '.',
        forall|j: int| 0 <= j < i ==> s[j] != '.',
    ensures
        first_dot(s) == i,
{
    let f = first_dot(s);
    assert(s.contains('.'));
    assert(0 <= f < s.len() && s[f] == '.' && forall|j: int| 0 <= j < f ==> s[j] != '.');
    if f < i {
        assert(s[f] != '.');
    } else if i < f {
        assert(s[i] != '.');
    }
}

/// Whether `v[lo..hi]` is a valid DNS label.
fn label_ok(v: &Vec<char>, lo: usize, hi: usize) -> (b: bool)
    requires
        lo <= hi <= v@.len(),
    ensures
        b == valid_dns_label(v@.subrange(lo as int, hi as int)),
{
    let ghost l = v@.subrange(lo as int, hi as int);
    if hi == lo || hi - lo > 63 {
        return false;
    }
    if !is_ascii_alnum_exec(v[lo]) || !is_ascii_alnum_exec(v[hi - 1]) {
        return false;
    }
    let mut i: usize = lo;
    while i < hi
        invariant
            lo <= i <= hi <= v@.len(),
            l == v@.subrange(lo as int, hi as int),
            forall|k: int| 0 <= k < i - lo ==> is_label_char(#[trigger] l[k]),
        decreases hi - i,
    {
        let c = v[i];
        if !(is_ascii_alnum_exec(c) || c == '-') {
            proof {
                assert(l[i - lo] == c);
            }
            return false;
        }
        proof {
            assert(l[i - lo] == c);
        }
        i += 1;
    }
    true
}

/// Whether every label of `v[from..]` is valid.
fn labels_ok_from(v: &Vec<char>, from: usize) -> (b: bool)
    requires
        from <= v@.len(),
    ensures
        b == every_label_valid(v@.skip(from as int)),
    decreases v@.len() - from,
{
    let ghost s = v@.skip(from as int);
    let mut i: usize = from;
    while i < v.len() && v[i] != '.'
        invariant
            from <= i <= v@.len(),
            s == v@.skip(from as int),
            forall|j: int| 0 <= j < i - from ==> s[j] != '.',
        decreases v.len() - i,
    {
        i += 1;
    }
    if i == v.len() {
        proof {
            assert(!s.contains('.')) by {
                if s.contains('.') {
                    let k = choose|k: int| 0 <= k < s.len() && s[k] == '.';
                    assert(s[k] != '.');
                }
            }
            assert(v@.subrange(from as int, i as int) =~= s);
        }
        return label_ok(v, from, i);
    }
    proof {
        let d = i - from;
        assert(s[d] == '.');
        lemma_first_dot(s, d);
        assert(s.take(d) =~= v@.subrange(from as int, i as int));
        assert(s.skip(d + 1) =~= v@.skip(i + 1));
    }
    if !label_ok(v, from, i) {
        return false;
    }
    labels_ok_from(v, i + 1)
}

/// The lower-cased form of a host whose shape the prechecks accept, or
/// none: the URL parser's view of `https://<host>/` must then show no
/// explicit port and exactly that host.
pub fn accept_parsed_host(normalized: &str, port: Option<u16>, host: Option<String>) -> (r: Option<String>)
    ensures
        match r {
            Some(n) => port is None && host is Some && host->0@ == normalized@ && n@ == normalized@,
            None => !(port is None && host is Some && host->0@ == normalized@),
        },
{
    if port.is_some() {
        return None;
    }
    match host {
        Some(h) => if str_eq(h.as_str(), normalized) {
            Some(h)
        } else {
            None
        },
        None => None,
    }
}

/// The credential target for `protocol` and `host`: the lower-cased host
/// when every check passes and the URL parser reads `https://<host>/` back
/// as that host with no explicit port; otherwise none.
pub fn normalize_git_target(protocol: &str, host: &str) -> (r: Option<String>)
    ensures
        match r {
            Some(n) => target_accepted(protocol@, host@) && n@ == lower_seq(host@),
            None => !target_accepted(protocol@, host@),
        },
{
    if !str_eq(protocol, "https") {
        return None;
    }
    let v = chars_of(host);
    let t = trim_chars(&v);
    if t.len() != v.len() {
        return None;
    }
    proof {
        assert(trim_seq(host@) =~= host@) by {
            assert(t@.len() == host@.len());
            assert(trim_seq(host@).len() == host@.len());
            crate::text::lemma_trim_same_len(host@);
        }
    }
    let mut lower: Vec<char> = Vec::new();
    let mut i: usize = 0;
    while i < v.len()
        invariant
            i <= v@.len(),
            v@ == host@,
            forall|k: int| 0 <= k < i ==> (#[trigger] v@[k] as u32) < 128,
            lower@ == lower_seq(v@.take(i as int)),
        decreases v.len() - i,
    {
        let c = v[i];
        if (c as u32) >= 128 {
            return None;
        }
        lower.push(lower_char_exec(c));
        proof {
            assert(lower_seq(v@.take(i + 1)) =~= lower_seq(v@.take(i as int)).push(lower_char(c)));
        }
        i += 1;
    }
    proof {
        assert(v@.take(v@.len() as int) =~= v@);
    }
    let n = lower.len();
    if n == 0 || n > 253 || lower[n - 1] == '.' {
        proof {
            reveal_strlit(".");
            if n > 0 && lower@[n - 1] == '.' {
                assert(lower@.subrange(n - 1, n as int) =~= "."@);
                assert(ends_with_seq(lower@, "."@));
            }
        }
        return None;
    }
    proof {
        reveal_strlit(".");
        assert(!ends_with_seq(lower@, "."@)) by {
            if ends_with_seq(lower@, "."@) {
                assert(lower@.subrange(n - 1, n as int)[0] == lower@[n - 1]);
            }
        }
    }
    if contains_chars(&lower, &chars_of("..")) || crate::text::has_char(&lower, ':') {
        return None;
    }
    if !labels_ok_from(&lower, 0) {
        proof {
            assert(lower@.skip(0) =~= lower@);
        }
        return None;
    }
    proof {
        assert(lower@.skip(0) =~= lower@);
    }
    let normalized = string_from_chars(&lower);
    let mut text: Vec<char> = Vec::new();
    append_str(&mut text, "https://");
    append_str(&mut text, normalized.as_str());
    append_str(&mut text, "/");
    proof {
        reveal_strlit("https://");
        reveal_strlit("/");
        assert(text@ =~= target_text(host@));
    }
    let parsed = match url_parse(string_from_chars(&text).as_str()) {
        Some(u) => u,
        None => return None,
    };
    let port = url_port(&parsed);
    let host_name = url_host(&parsed);
    accept_parsed_host(normalized.as_str(), port, host_name)
}

/// A forge credential descriptor a remote reports: whether it is
/// connected, and its hosts.
#[derive(Debug, Clone)]
pub struct ForgeDescriptor {
    pub connected: bool,
    pub hosts: Vec<String>,
}

/// `h` is a host of some connected descriptor.
pub open spec fn connected_host(ds: Seq<ForgeDescriptor>, h: Seq<char>) -> bool {
    exists|i: int, j: int|
        0 <= i < ds.len() && ds[i].connected && 0 <= j < ds[i].hosts@.len() && #[trigger] ds[i].hosts@[j]@ == h
}

/// `x` is the accepted form of a host of a connected descriptor that comes
/// before position (`i`, `j`): descriptor `a < i`, or host `b < j` of
/// descriptor `i`.
pub open spec fn seen_host(ds: Seq<ForgeDescriptor>, i: int, j: int, x: Seq<char>) -> bool {
    exists|a: int, b: int|
        0 <= a < ds.len() && ds[a].connected && 0 <= b < ds[a].hosts@.len() && (a < i || (a == i && b < j))
            && target_accepted("https"@, #[trigger] ds[a].hosts@[b]@) && x == lower_seq(ds[a].hosts@[b]@)
}

/// The remote's connected forge hosts, each validated as an HTTPS
/// credential target on our side whatever the server sent; sorted, each
/// once.
pub fn connected_forge_hosts(ds: &Vec<ForgeDescriptor>) -> (out: Vec<String>)
    ensures
        sorted_strict(strings_view(out@)),
        forall|x: Seq<char>| #[trigger] strings_view(out@).contains(x) <==> exists|h: Seq<char>|
            connected_host(ds@, h) && target_accepted("https"@, h) && x == lower_seq(h),
{
    let mut out: Vec<String> = Vec::new();
    let mut i: usize = 0;
    while i < ds.len()
        invariant
            i <= ds@.len(),
            sorted_strict(strings_view(out@)),
            forall|x: Seq<char>| #[trigger] strings_view(out@).contains(x) <==> seen_host(ds@, i as int, 0, x),
        decreases ds.len() - i,
    {
        if ds[i].connected {
            let mut j: usize = 0;
            while j < ds[i].hosts.len()
                invariant
                    i < ds@.len(),
                    ds@[i as int].connected,
                    j <= ds@[i as int].hosts@.len(),
                    sorted_strict(strings_view(out@)),
                    forall|x: Seq<char>| #[trigger] strings_view(out@).contains(x) <==> seen_host(ds@, i as int, j as int, x),
                decreases ds@[i as int].hosts@.len() - j,
            {
                let host = &ds[i].hosts[j];
                let ghost hv = host@;
                proof {
                    assert(ds@[i as int].hosts@[j as int]@ == hv);
                }
                match normalize_git_target("https", host.as_str()) {
                    Some(n) => {
                        let ghost nv = n@;
                        let ghost before = strings_view(out@);
                        insert_sorted(&mut out, n);
                        proof {
                            assert forall|x: Seq<char>| #[trigger] strings_view(out@).contains(x) <==> seen_host(
                                ds@,
                                i as int,
                                j + 1,
                                x,
                            ) by {
                                if seen_host(ds@, i as int, j + 1, x) && !seen_host(ds@, i as int, j as int, x) {
                                    let (a, b) = choose|a: int, b: int|
                                        0 <= a < ds@.len() && ds@[a].connected && 0 <= b < ds@[a].hosts@.len() && (a < i || (a
                                            == i && b < j + 1)) && target_accepted("https"@, #[trigger] ds@[a].hosts@[b]@) && x
                                            == lower_seq(ds@[a].hosts@[b]@);
                                    assert(a == i && b == j);
                                }
                                if x == nv {
                                    assert(target_accepted("https"@, ds@[i as int].hosts@[j as int]@));
                                }
                            }
                        }
                    },
                    None => {
                        proof {
                            assert forall|x: Seq<char>| #[trigger] strings_view(out@).contains(x) <==> seen_host(
                                ds@,
                                i as int,
                                j + 1,
                                x,
                            ) by {
                                if seen_host(ds@, i as int, j + 1, x) && !seen_host(ds@, i as int, j as int, x) {
                                    let (a, b) = choose|a: int, b: int|
                                        0 <= a < ds@.len() && ds@[a].connected && 0 <= b < ds@[a].hosts@.len() && (a < i || (a
                                            == i && b < j + 1)) && target_accepted("https"@, #[trigger] ds@[a].hosts@[b]@) && x
                                            == lower_seq(ds@[a].hosts@[b]@);
                                    assert(a == i && b == j);
                                }
                            }
                        }
                    },
                }
                j += 1;
            }
            proof {
                assert forall|x: Seq<char>| #[trigger] strings_view(out@).contains(x) <==> seen_host(ds@, i + 1, 0, x) by {
                    if seen_host(ds@, i + 1, 0, x) {
                        let (a, b) = choose|a: int, b: int|
                            0 <= a < ds@.len() && ds@[a].connected && 0 <= b < ds@[a].hosts@.len() && (a < i + 1 || (a == i
                                + 1 && b < 0)) && target_accepted("https"@, #[trigger] ds@[a].hosts@[b]@) && x == lower_seq(
                                ds@[a].hosts@[b]@,
                            );
                        assert(seen_host(ds@, i as int, j as int, x));
                    }
                    if seen_host(ds@, i as int, j as int, x) {
                        let (a, b) = choose|a: int, b: int|
                            0 <= a < ds@.len() && ds@[a].connected && 0 <= b < ds@[a].hosts@.len() && (a < i || (a == i && b
                                < j)) && target_accepted("https"@, #[trigger] ds@[a].hosts@[b]@) && x == lower_seq(
                                ds@[a].hosts@[b]@,
                            );
                        assert(seen_host(ds@, i + 1, 0, x));
                    }
                }
            }
        } else {
            proof {
                assert forall|x: Seq<char>| #[trigger] strings_view(out@).contains(x) <==> seen_host(ds@, i + 1, 0, x) by {
                    if seen_host(ds@, i + 1, 0, x) {
                        let (a, b) = choose|a: int, b: int|
                            0 <= a < ds@.len() && ds@[a].connected && 0 <= b < ds@[a].hosts@.len() && (a < i + 1 || (a == i
                                + 1 && b < 0)) && target_accepted("https"@, #[trigger] ds@[a].hosts@[b]@) && x == lower_seq(
                                ds@[a].hosts@[b]@,
                            );
                        assert(a != i);
                        assert(seen_host(ds@, i as int, 0, x));
                    }
                    if seen_host(ds@, i as int, 0, x) {
                        let (a, b) = choose|a: int, b: int|
                            0 <= a < ds@.len() && ds@[a].connected && 0 <= b < ds@[a].hosts@.len() && (a < i || (a == i && b
                                < 0)) && target_accepted("https"@, #[trigger] ds@[a].hosts@[b]@) && x == lower_seq(
                                ds@[a].hosts@[b]@,
                            );
                        assert(seen_host(ds@, i + 1, 0, x));
                    }
                }
            }
        }
        i += 1;
    }
    proof {
        assert forall|x: Seq<char>| #[trigger] strings_view(out@).contains(x) <==> exists|h: Seq<char>|
            connected_host(ds@, h) && target_accepted("https"@, h) && x == lower_seq(h) by {
            if seen_host(ds@, ds@.len() as int, 0, x) {
                let (a, b) = choose|a: int, b: int|
                    0 <= a < ds@.len() && ds@[a].connected && 0 <= b < ds@[a].hosts@.len() && (a < ds@.len() || (a
                        == ds@.len() && b < 0)) && target_accepted("https"@, #[trigger] ds@[a].hosts@[b]@) && x
                        == lower_seq(ds@[a].hosts@[b]@);
                let h = ds@[a].hosts@[b]@;
                assert(connected_host(ds@, h));
            }
            if exists|h: Seq<char>| connected_host(ds@, h) && target_accepted("https"@, h) && x == lower_seq(h) {
                let h = choose|h: Seq<char>| connected_host(ds@, h) && target_accepted("https"@, h) && x == lower_seq(h);
                let (a, b) = choose|a: int, b: int|
                    0 <= a < ds@.len() && ds@[a].connected && 0 <= b < ds@[a].hosts@.len() && #[trigger] ds@[a].hosts@[b]@ == h;
                assert(seen_host(ds@, ds@.len() as int, 0, x));
            }
        }
    }
    out
}

} // verus!
