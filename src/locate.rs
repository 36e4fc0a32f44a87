//! Locating the URLs of a text, bare or already wrapped as `[](URL)`.
//!
//! A URL is `http://` or `https://`, possibly after `[](`; then a host of one
//! to 256 host characters, a dot and a top-level part of one to six
//! characters that ends on a word boundary; then as many path and query
//! characters as follow. URLs are taken from left to right without overlap.

use vstd::prelude::*;
use crate::text::{from_chars, occurs_at, occurs_at_exec, slice_chars, to_chars};

verus! {

/// An ASCII letter or digit.
pub open spec fn ascii_alnum(c: char) -> bool {
    ('a' <= c && c <= 'z') || ('A' <= c && c <= 'Z') || ('0' <= c && c <= '9')
}

/// A character that may stand in the host part of a URL.
pub open spec fn host_char(c: char) -> bool {
    ascii_alnum(c) || c == '-' || c == '@' || c == ':' || c == '%' || c == '.' || c == '_'
        || c == '+' || c == '~' || c == '#' || c == '='
}

/// A character that may stand in the top-level part of a host.
pub open spec fn tld_char(c: char) -> bool {
    ascii_alnum(c) || c == '(' || c == ')'
}

/// A character that may stand in the path and query after the host.
pub open spec fn tail_char(c: char) -> bool {
    ascii_alnum(c) || c == '-' || c == '(' || c == ')' || c == '@' || c == ':' || c == '%'
        || c == '_' || c == '+' || c == '.' || c == ',' || c == '~' || c == '#' || c == '?'
        || c == '&' || c == '/' || c == '='
}

/// Whether regex-syntax counts `c` as a Unicode word character.
pub uninterp spec fn word_char(c: char) -> bool;

/// Relies on regex-syntax's `is_word_character`, the Unicode word class that
/// a regex's `\b` goes by; among ASCII characters it holds the letters, the
/// digits and `_`.
#[verifier::external_body]
fn is_word_char(c: char) -> (r: bool)
    ensures
        r == word_char(c),
        (c as u32) < 128 ==> (r <==> (ascii_alnum(c) || c == '_')),
{
    regex_syntax::is_word_character(c)
}

fn is_ascii_alnum(c: char) -> (r: bool)
    ensures
        r == ascii_alnum(c),
{
    ('a' <= c && c <= 'z') || ('A' <= c && c <= 'Z') || ('0' <= c && c <= '9')
}

fn is_host_char(c: char) -> (r: bool)
    ensures
        r == host_char(c),
{
    is_ascii_alnum(c) || c == '-' || c == '@' || c == ':' || c == '%' || c == '.' || c == '_'
        || c == '+' || c == '~' || c == '#' || c == '='
}

fn is_tld_char(c: char) -> (r: bool)
    ensures
        r == tld_char(c),
{
    is_ascii_alnum(c) || c == '(' || c == ')'
}

fn is_tail_char(c: char) -> (r: bool)
    ensures
        r == tail_char(c),
{
    is_ascii_alnum(c) || c == '-' || c == '(' || c == ')' || c == '@' || c == ':' || c == '%'
        || c == '_' || c == '+' || c == '.' || c == ',' || c == '~' || c == '#' || c == '?'
        || c == '&' || c == '/' || c == '='
}

/// Whether there is a word boundary just before index `e`: one side is a
/// word character and the other is not (the end of the text is not).
pub open spec fn boundary(s: Seq<char>, e: int) -> bool {
    0 < e <= s.len() && word_char(s[e - 1]) != (e < s.len() && word_char(s[e]))
}

fn boundary_exec(s: &Vec<char>, e: usize) -> (r: bool)
    requires
        0 < e <= s@.len(),
    ensures
        r == boundary(s@, e as int),
{
    let before = is_word_char(s[e - 1]);
    let after = e < s.len() && is_word_char(s[e]);
    before != after
}

/// Whether the host starting at `h` can end with its dot at `d` and its
/// top-level part just before `e`.
pub open spec fn split_ok(s: Seq<char>, h: int, d: int, e: int) -> bool {
    &&& 0 <= h < d <= h + 256
    &&& d + 2 <= e <= d + 7
    &&& e <= s.len()
    &&& forall|k: int| h <= k < d ==> host_char(#[trigger] s[k])
    &&& s[d] == '.'
    &&& forall|k: int| d < k < e ==> tld_char(#[trigger] s[k])
    &&& boundary(s, e)
}

/// Whether a host with a top-level part starts at `h`.
pub open spec fn has_split(s: Seq<char>, h: int) -> bool {
    exists|d: int, e: int| split_ok(s, h, d, e)
}

fn has_split_exec(s: &Vec<char>, h: usize) -> (r: bool)
    ensures
        r == has_split(s@, h as int),
{
    let n = s.len();
    if h >= n {
        return false;
    }
    let mut d: usize = h + 1;
    while d - h <= 256 && d < n && n - d >= 2
        invariant
            n == s@.len(),
            h < d <= n,
            forall|k: int| h <= k < d - 1 ==> host_char(#[trigger] s@[k]),
            forall|d2: int, e2: int| d2 < d ==> !split_ok(s@, h as int, d2, e2),
        decreases n - d,
    {
        if !is_host_char(s[d - 1]) {
            assert forall|d2: int, e2: int| !split_ok(s@, h as int, d2, e2) by {
                if d2 >= d {
                    assert(!host_char(s@[d - 1]));
                }
            }
            return false;
        }
        if s[d] == '.' {
            let mut t: usize = d + 1;
            while t - d <= 6 && t < n && is_tld_char(s[t])
                invariant
                    n == s@.len(),
                    h < d < n,
                    d - h <= 256,
                    d + 1 <= t <= n,
                    s@[d as int] == '.',
                    forall|k: int| h <= k < d ==> host_char(#[trigger] s@[k]),
                    forall|k: int| d < k < t ==> tld_char(#[trigger] s@[k]),
                    forall|e2: int| e2 <= t ==> !split_ok(s@, h as int, d as int, e2),
                decreases n - t,
            {
                if boundary_exec(s, t + 1) {
                    assert forall|k: int| d < k < t + 1 implies tld_char(#[trigger] s@[k]) by {
                        if k == t {
                        }
                    }
                    assert(split_ok(s@, h as int, d as int, t + 1));
                    return true;
                }
                t = t + 1;
            }
            assert forall|e2: int| !split_ok(s@, h as int, d as int, e2) by {
                if e2 > t && t - d <= 6 && t < n {
                    assert(!tld_char(s@[t as int]));
                }
            }
        }
        d = d + 1;
    }
    false
}

/// `[](`, which wraps a URL into an empty markdown link.
pub open spec fn link_open() -> Seq<char> {
    seq!['[', ']', '(']
}

/// `https://`
pub open spec fn https_word() -> Seq<char> {
    seq!['h', 't', 't', 'p', 's', ':', '/', '/']
}

/// `http://`
pub open spec fn http_word() -> Seq<char> {
    seq!['h', 't', 't', 'p', ':', '/', '/']
}

/// `www.`
pub open spec fn www_word() -> Seq<char> {
    seq!['w', 'w', 'w', '.']
}

/// Where the scheme of a URL found at `i` starts: after `[](` if that is there.
pub open spec fn scheme_at(s: Seq<char>, i: int) -> int {
    if occurs_at(s, link_open(), i) {
        i + 3
    } else {
        i
    }
}

/// Where the host of a URL found at `i` starts, if a scheme is there.
pub open spec fn host_start(s: Seq<char>, i: int) -> Option<int> {
    let j = scheme_at(s, i);
    if occurs_at(s, https_word(), j) {
        Some(j + 8)
    } else if occurs_at(s, http_word(), j) {
        Some(j + 7)
    } else {
        None
    }
}

/// Whether a URL starts at `i`.
pub open spec fn url_at(s: Seq<char>, i: int) -> bool {
    match host_start(s, i) {
        Some(h) => has_split(s, h) || (occurs_at(s, www_word(), h) && has_split(s, h + 4)),
        None => false,
    }
}

/// The end of the run of path and query characters that starts at `k`.
pub open spec fn tail_end(s: Seq<char>, k: int) -> int
    decreases s.len() - k,
{
    if k < 0 || k >= s.len() || !tail_char(s[k]) {
        k
    } else {
        tail_end(s, k + 1)
    }
}

/// Where a URL found at `i` ends. Every host and top-level character is a
/// path character too, so the URL runs to the end of that run.
pub open spec fn url_end(s: Seq<char>, i: int) -> int {
    match host_start(s, i) {
        Some(h) => tail_end(s, h),
        None => i,
    }
}

proof fn lemma_tail_end_bounds(s: Seq<char>, k: int)
    requires
        0 <= k <= s.len(),
    ensures
        k <= tail_end(s, k) <= s.len(),
    decreases s.len() - k,
{
    if k < s.len() && tail_char(s[k]) {
        lemma_tail_end_bounds(s, k + 1);
    }
}

proof fn lemma_url_end_bounds(s: Seq<char>, i: int)
    requires
        0 <= i,
        url_at(s, i),
    ensures
        i < url_end(s, i) <= s.len(),
{
    let h = host_start(s, i)->0;
    lemma_tail_end_bounds(s, h);
}

/// The spans `(start, end)` of the URLs found from `pos` on, left to right.
pub open spec fn spans_from(s: Seq<char>, pos: int) -> Seq<(int, int)>
    decreases s.len() - pos via spans_from_decreases
{
    if pos < 0 || pos >= s.len() {
        seq![]
    } else if url_at(s, pos) {
        seq![(pos, url_end(s, pos))] + spans_from(s, url_end(s, pos))
    } else {
        spans_from(s, pos + 1)
    }
}

#[via_fn]
proof fn spans_from_decreases(s: Seq<char>, pos: int) {
    if !(pos < 0 || pos >= s.len()) && url_at(s, pos) {
        lemma_url_end_bounds(s, pos);
    }
}

/// The spans of all URLs of a text.
pub open spec fn url_spans(s: Seq<char>) -> Seq<(int, int)> {
    spans_from(s, 0)
}

fn host_start_exec(s: &Vec<char>, i: usize) -> (r: Option<usize>)
    ensures
        match r {
            Some(h) => host_start(s@, i as int) == Some(h as int),
            None => host_start(s@, i as int) is None,
        },
{
    // Taking the length as a usize bounds the index sums below.
    let n = s.len();
    let open = vec!['[', ']', '('];
    let https = vec!['h', 't', 't', 'p', 's', ':', '/', '/'];
    let http = vec!['h', 't', 't', 'p', ':', '/', '/'];
    assert(open@ =~= link_open());
    assert(https@ =~= https_word());
    assert(http@ =~= http_word());
    let j = if occurs_at_exec(s, &open, i) {
        i + 3
    } else {
        i
    };
    if occurs_at_exec(s, &https, j) {
        Some(j + 8)
    } else if occurs_at_exec(s, &http, j) {
        Some(j + 7)
    } else {
        None
    }
}

fn tail_end_exec(s: &Vec<char>, k: usize) -> (r: usize)
    requires
        k <= s@.len(),
    ensures
        r == tail_end(s@, k as int),
{
    let mut e = k;
    while e < s.len() && is_tail_char(s[e])
        invariant
            k <= e <= s@.len(),
            tail_end(s@, k as int) == tail_end(s@, e as int),
        decreases s@.len() - e,
    {
        e = e + 1;
    }
    e
}

/// The end of the URL that starts at `i`, if one does.
fn url_at_exec(s: &Vec<char>, i: usize) -> (r: Option<usize>)
    ensures
        r is Some == url_at(s@, i as int),
        r is Some ==> r->0 == url_end(s@, i as int),
{
    match host_start_exec(s, i) {
        Some(h) => {
            // Taking the length as a usize bounds the index sums below.
            let n = s.len();
            let www = vec!['w', 'w', 'w', '.'];
            assert(www@ =~= www_word());
            let found = has_split_exec(s, h) || (occurs_at_exec(s, &www, h) && has_split_exec(
                s,
                h + 4,
            ));
            if found {
                Some(tail_end_exec(s, h))
            } else {
                None
            }
        },
        None => None,
    }
}

/// The spans of a sequence of pairs of indices.
pub open spec fn spans_view(v: Seq<(usize, usize)>) -> Seq<(int, int)> {
    v.map_values(|p: (usize, usize)| (p.0 as int, p.1 as int))
}

/// The spans of the URLs of `s`, left to right.
pub(crate) fn find_spans(s: &Vec<char>) -> (r: Vec<(usize, usize)>)
    ensures
        spans_view(r@) == url_spans(s@),
        forall|k: int| 0 <= k < r@.len() ==> #[trigger] r@[k].0 < r@[k].1 <= s@.len(),
        forall|k: int| 0 < k < r@.len() ==> r@[k - 1].1 <= #[trigger] r@[k].0,
{
    let mut r: Vec<(usize, usize)> = Vec::new();
    let mut pos: usize = 0;
    assert(spans_view(r@) =~= seq![]);
    while pos < s.len()
        invariant
            pos <= s@.len(),
            spans_view(r@) + spans_from(s@, pos as int) == url_spans(s@),
            forall|k: int| 0 <= k < r@.len() ==> #[trigger] r@[k].0 < r@[k].1 <= s@.len(),
            forall|k: int| 0 <= k < r@.len() ==> #[trigger] r@[k].1 <= pos,
            forall|k: int| 0 < k < r@.len() ==> r@[k - 1].1 <= #[trigger] r@[k].0,
        decreases s@.len() - pos,
    {
        match url_at_exec(s, pos) {
            Some(e) => {
                proof {
                    lemma_url_end_bounds(s@, pos as int);
                }
                let ghost old_r = r@;
                r.push((pos, e));
                assert(spans_view(r@) =~= spans_view(old_r) + seq![(pos as int, e as int)]);
                assert(spans_view(r@) + spans_from(s@, e as int) =~= spans_view(old_r)
                    + spans_from(s@, pos as int));
                pos = e;
            },
            None => {
                pos = pos + 1;
            },
        }
    }
    assert(spans_view(r@) =~= spans_view(r@) + spans_from(s@, pos as int));
    r
}

/// A URL found in a text.
pub struct UrlMatch {
    /// The text as found, with the `[](` wrapper where there was one.
    pub raw_match: String,
    /// The URL itself.
    pub url: String,
    /// Whether the URL was found wrapped as `[](URL)`.
    pub already_linked: bool,
}

/// Whether a found text is wrapped as an empty markdown link.
pub open spec fn is_linked(raw: Seq<char>) -> bool {
    occurs_at(raw, link_open(), 0)
}

/// The URL of a found text: a wrapped one loses its `[](` and one closing
/// parenthesis, a bare one is the URL as it stands.
pub open spec fn url_of(raw: Seq<char>) -> Seq<char> {
    if is_linked(raw) {
        let inner = raw.skip(3);
        if inner.len() > 0 && inner.last() == ')' {
            inner.drop_last()
        } else {
            inner
        }
    } else {
        raw
    }
}

/// The text of the `k`-th URL of `s`, as found.
pub open spec fn raw_of(s: Seq<char>, k: int) -> Seq<char> {
    s.subrange(url_spans(s)[k].0, url_spans(s)[k].1)
}

pub(crate) fn url_from_raw(raw: &Vec<char>) -> (r: (Vec<char>, bool))
    ensures
        r.0@ == url_of(raw@),
        r.1 == is_linked(raw@),
{
    let open = vec!['[', ']', '('];
    assert(open@ =~= link_open());
    if occurs_at_exec(raw, &open, 0) {
        let n = raw.len();
        let end = if n > 3 && raw[n - 1] == ')' {
            n - 1
        } else {
            n
        };
        let u = slice_chars(raw, 3, end);
        assert(raw@.skip(3) =~= raw@.subrange(3, n as int));
        if end < n {
            assert(raw@.skip(3).drop_last() =~= raw@.subrange(3, n - 1));
        }
        (u, true)
    } else {
        (slice_chars(raw, 0, raw.len()), false)
    }
}

/// The URLs of a text, left to right, each with the text as found.
pub fn locate_urls(text: &str) -> (r: Vec<UrlMatch>)
    ensures
        r@.len() == url_spans(text@).len(),
        forall|k: int|
            0 <= k < r@.len() ==> {
                &&& (#[trigger] r@[k]).raw_match@ == raw_of(text@, k)
                &&& r@[k].url@ == url_of(raw_of(text@, k))
                &&& r@[k].already_linked == is_linked(raw_of(text@, k))
            },
{
    let s = to_chars(text);
    let spans = find_spans(&s);
    let mut r: Vec<UrlMatch> = Vec::new();
    let mut k: usize = 0;
    while k < spans.len()
        invariant
            s@ == text@,
            spans_view(spans@) == url_spans(s@),
            forall|j: int| 0 <= j < spans@.len() ==> #[trigger] spans@[j].0 < spans@[j].1 <= s@.len(),
            k <= spans@.len(),
            r@.len() == k,
            forall|j: int|
                0 <= j < k ==> {
                    &&& (#[trigger] r@[j]).raw_match@ == raw_of(text@, j)
                    &&& r@[j].url@ == url_of(raw_of(text@, j))
                    &&& r@[j].already_linked == is_linked(raw_of(text@, j))
                },
        decreases spans@.len() - k,
    {
        let (a, b) = spans[k];
        assert(spans_view(spans@)[k as int] == (a as int, b as int));
        let raw = slice_chars(&s, a, b);
        let (url, linked) = url_from_raw(&raw);
        r.push(UrlMatch { raw_match: from_chars(&raw), url: from_chars(&url), already_linked: linked });
        k = k + 1;
    }
    assert(spans_view(spans@).len() == spans@.len());
    r
}

} // verus!
