//! Rebuilding a text with each of its URLs turned into a markdown link.

use vstd::prelude::*;
use crate::locate::{
    boundary, find_spans, has_split, host_char, host_start, http_word, https_word, is_linked,
    link_open, raw_of, scheme_at, spans_view, split_ok, tld_char, url_at, url_from_raw, url_of,
    url_spans,
};
use crate::text::occurs_at;
use crate::text::{append_chars, from_chars, occurs_at_exec, slice_chars, to_chars, trim, trim_title};

verus! {

/// The markdown link `[title](url)`, the title trimmed of white space.
pub open spec fn link_token(title: Seq<char>, url: Seq<char>) -> Seq<char> {
    seq!['['] + trim(title) + seq![']', '('] + url + seq![')']
}

/// The text of a title; one that could not be had is empty.
pub open spec fn title_text(t: Option<String>) -> Seq<char> {
    match t {
        Some(x) => x@,
        None => Seq::empty(),
    }
}

/// The texts of a sequence of titles.
pub open spec fn titles_view(v: Seq<Option<String>>) -> Seq<Seq<char>> {
    v.map_values(|t: Option<String>| title_text(t))
}

/// The index of the first URL of `s`, from index `j` on, whose text as
/// found is that of the `k`-th; `k` itself where none comes before it.
pub open spec fn first_same_from(s: Seq<char>, k: int, j: int) -> int
    decreases k - j,
{
    if j >= k {
        k
    } else if raw_of(s, j) == raw_of(s, k) {
        j
    } else {
        first_same_from(s, k, j + 1)
    }
}

/// The index of the first URL of `s` found with the same text as the `k`-th.
pub open spec fn first_same(s: Seq<char>, k: int) -> int {
    first_same_from(s, k, 0)
}

/// The link that replaces the `k`-th URL of `s`: its own URL, and the title
/// given for the first URL found with the same text.
pub open spec fn token_of(s: Seq<char>, titles: Seq<Seq<char>>, k: int) -> Seq<char> {
    link_token(titles[first_same(s, k)], url_of(raw_of(s, k)))
}

/// Where the text between the `k-1`-th URL of `s` and the `k`-th starts.
pub open spec fn gap_start(s: Seq<char>, k: int) -> int {
    if k <= 0 {
        0
    } else {
        url_spans(s)[k - 1].1
    }
}

/// The rewritten text of `s` up to the end of its `n`-th URL.
pub open spec fn rebuilt(s: Seq<char>, titles: Seq<Seq<char>>, n: int) -> Seq<char>
    decreases n,
{
    if n <= 0 {
        Seq::empty()
    } else {
        rebuilt(s, titles, n - 1) + s.subrange(gap_start(s, n - 1), url_spans(s)[n - 1].0)
            + token_of(s, titles, n - 1)
    }
}

/// `s` with the span of every URL found in it replaced by its link; the text
/// between the URLs is kept as it is, and no link is searched again.
pub open spec fn rewrite_text(s: Seq<char>, titles: Seq<Seq<char>>) -> Seq<char> {
    let n = url_spans(s).len() as int;
    rebuilt(s, titles, n) + s.subrange(gap_start(s, n), s.len() as int)
}

fn same_chars(a: &Vec<char>, b: &Vec<char>) -> (r: bool)
    ensures
        r == (a@ == b@),
{
    if a.len() != b.len() {
        return false;
    }
    let r = occurs_at_exec(a, b, 0);
    assert(a@.subrange(0, a@.len() as int) =~= a@);
    r
}

/// The index of the first URL of `s` found with the same text as the `k`-th.
fn first_same_exec(s: &Vec<char>, spans: &Vec<(usize, usize)>, k: usize, raw: &Vec<char>) -> (r:
    usize)
    requires
        k < spans@.len(),
        spans_view(spans@) == url_spans(s@),
        forall|i: int| 0 <= i < spans@.len() ==> #[trigger] spans@[i].0 < spans@[i].1 <= s@.len(),
        raw@ == raw_of(s@, k as int),
    ensures
        r == first_same(s@, k as int),
        r <= k,
{
    let ghost sp = url_spans(s@);
    let mut j: usize = 0;
    while j < k
        invariant
            k < spans@.len(),
            spans_view(spans@) == sp,
            sp == url_spans(s@),
            forall|i: int| 0 <= i < spans@.len() ==> #[trigger] spans@[i].0 < spans@[i].1 <= s@.len(),
            raw@ == raw_of(s@, k as int),
            j <= k,
            first_same(s@, k as int) == first_same_from(s@, k as int, j as int),
        decreases k - j,
    {
        let (a, b) = spans[j];
        assert(sp[j as int] == (a as int, b as int));
        let other = slice_chars(s, a, b);
        if same_chars(&other, raw) {
            return j;
        }
        j = j + 1;
    }
    k
}

/// The characters of the link `[title](url)`, the title trimmed.
fn link_chars(title: &str, url: &Vec<char>) -> (r: Vec<char>)
    ensures
        r@ == link_token(title@, url@),
{
    let trimmed = to_chars(trim_title(title).as_str());
    let mut r: Vec<char> = vec!['['];
    append_chars(&mut r, &trimmed);
    r.push(']');
    r.push('(');
    append_chars(&mut r, url);
    r.push(')');
    assert(r@ =~= link_token(title@, url@));
    r
}

/// Turns each URL of `text` into a markdown link `[title](url)`.
///
/// `titles` holds, for each URL that `locate_urls` finds, in the same order,
/// the title of its page, or `None` where none could be had (the link then
/// has an empty title). Each found span is replaced once, and only it: text
/// elsewhere that repeats a URL stays as it is. A URL found again with the
/// same text takes the title given for its first finding.
pub fn replace_url_with_markdown_format(text: &str, titles: &Vec<Option<String>>) -> (r: String)
    requires
        titles@.len() == url_spans(text@).len(),
    ensures
        r@ == rewrite_text(text@, titles_view(titles@)),
{
    let s = to_chars(text);
    let spans = find_spans(&s);
    let ghost tv = titles_view(titles@);
    let ghost sp = url_spans(s@);
    let mut out: Vec<char> = Vec::new();
    let mut prev: usize = 0;
    let mut k: usize = 0;
    while k < spans.len()
        invariant
            s@ == text@,
            tv == titles_view(titles@),
            sp == url_spans(s@),
            spans_view(spans@) == sp,
            titles@.len() == spans@.len(),
            forall|j: int| 0 <= j < spans@.len() ==> #[trigger] spans@[j].0 < spans@[j].1 <= s@.len(),
            forall|j: int| 0 < j < spans@.len() ==> spans@[j - 1].1 <= #[trigger] spans@[j].0,
            k <= spans@.len(),
            prev == gap_start(s@, k as int),
            k < spans@.len() ==> prev <= spans@[k as int].0,
            prev <= s@.len(),
            out@ == rebuilt(s@, tv, k as int),
        decreases spans@.len() - k,
    {
        let (a, b) = spans[k];
        assert(sp[k as int] == (a as int, b as int));
        let raw = slice_chars(&s, a, b);
        let t = first_same_exec(&s, &spans, k, &raw);
        let (url, _linked) = url_from_raw(&raw);
        let empty = String::new();
        let title = match &titles[t] {
            Some(x) => x.as_str(),
            None => empty.as_str(),
        };
        assert(title@ == tv[t as int]);
        let token = link_chars(title, &url);
        let gap = slice_chars(&s, prev, a);
        append_chars(&mut out, &gap);
        append_chars(&mut out, &token);
        assert(out@ =~= rebuilt(s@, tv, k + 1));
        prev = b;
        k = k + 1;
    }
    let tail = slice_chars(&s, prev, s.len());
    append_chars(&mut out, &tail);
    from_chars(&out)
}

/// Turns each URL of `text` into a markdown link, as
/// `replace_url_with_markdown_format` does, where `titles` has one entry for
/// each URL found; `None` where it has not.
pub fn rewrite(text: &str, titles: &Vec<Option<String>>) -> (r: Option<String>)
    ensures
        r is Some <==> titles@.len() == url_spans(text@).len(),
        r is Some ==> r->0@ == rewrite_text(text@, titles_view(titles@)),
{
    let s = to_chars(text);
    let spans = find_spans(&s);
    assert(spans_view(spans@).len() == spans@.len());
    if spans.len() != titles.len() {
        return None;
    }
    Some(replace_url_with_markdown_format(text, titles))
}

/// A text in which no URL is found comes back unchanged.
pub proof fn lemma_no_url_unchanged(s: Seq<char>, titles: Seq<Seq<char>>)
    requires
        url_spans(s).len() == 0,
    ensures
        rewrite_text(s, titles) == s,
{
}

/// A URL found wrapped as `[](URL)` becomes `[title](URL)`: the same URL,
/// the wrapper's parentheses kept, none added.
pub proof fn lemma_linked_url_link(s: Seq<char>, titles: Seq<Seq<char>>, k: int, u: Seq<char>)
    requires
        0 <= k < url_spans(s).len(),
        raw_of(s, k) == link_open() + u + seq![')'],
    ensures
        token_of(s, titles, k) == seq!['['] + trim(titles[first_same(s, k)]) + seq![']', '(']
            + u + seq![')'],
{
    let raw = raw_of(s, k);
    assert(raw.subrange(0, 3) =~= link_open());
    assert(raw.skip(3).drop_last() =~= u);
}

/// A bare URL becomes `[title](URL)` with the URL as it was found.
pub proof fn lemma_bare_url_link(s: Seq<char>, titles: Seq<Seq<char>>, k: int)
    requires
        0 <= k < url_spans(s).len(),
        raw_of(s, k).len() > 0,
        raw_of(s, k)[0] == 'h',
    ensures
        token_of(s, titles, k) == seq!['['] + trim(titles[first_same(s, k)]) + seq![']', '(']
            + raw_of(s, k) + seq![')'],
{
    let raw = raw_of(s, k);
    if is_linked(raw) {
        assert(raw.subrange(0, 3)[0] == '[');
    }
}

/// A URL whose title could not be had becomes `[](URL)`.
pub proof fn lemma_missing_title_link(s: Seq<char>, titles: Seq<Seq<char>>, k: int)
    requires
        0 <= k < url_spans(s).len(),
        titles[first_same(s, k)] == title_text(None),
    ensures
        token_of(s, titles, k) == link_open() + url_of(raw_of(s, k)) + seq![')'],
{
    assert(token_of(s, titles, k) =~= link_open() + url_of(raw_of(s, k)) + seq![')']);
}

proof fn lemma_first_same_from_agrees(s: Seq<char>, j: int, k: int, i: int)
    requires
        0 <= i <= j < k,
        raw_of(s, j) == raw_of(s, k),
    ensures
        first_same_from(s, k, i) == first_same_from(s, j, i),
    decreases j - i,
{
    if i < j && raw_of(s, i) != raw_of(s, k) {
        lemma_first_same_from_agrees(s, j, k, i + 1);
    }
}

/// Two URLs found with the same text are replaced by the same link, made
/// with the title given for the first of them.
pub proof fn lemma_same_url_same_link(s: Seq<char>, titles: Seq<Seq<char>>, j: int, k: int)
    requires
        0 <= j < k < url_spans(s).len(),
        raw_of(s, j) == raw_of(s, k),
    ensures
        first_same(s, k) == first_same(s, j),
        token_of(s, titles, k) == token_of(s, titles, j),
{
    lemma_first_same_from_agrees(s, j, k, 0);
}

/// Rewriting is not idempotent: a bare URL whose top-level part is
/// followed by more of it (the split at `d` and `e` leaves a path or query
/// after `e`) is found again where it stands inside its own link, whatever
/// text comes before and after that link.
pub proof fn lemma_link_holds_url_again(
    a: Seq<char>,
    b: Seq<char>,
    title: Seq<char>,
    u: Seq<char>,
    d: int,
    e: int,
)
    requires
        host_start(u, 0) is Some,
        !is_linked(u),
        split_ok(u, host_start(u, 0)->0, d, e),
        e < u.len(),
    ensures
        url_at(a + link_token(title, u) + b, a.len() + 3 + trim(title).len() as int),
{
    let o = a + link_token(title, u) + b;
    let q = a.len() + 3 + trim(title).len() as int;
    let h = host_start(u, 0)->0;
    assert(o.subrange(q, q + u.len()) =~= u);
    assert forall|i: int| 0 <= i < u.len() implies o[q + i] == u[i] by {
        assert(o.subrange(q, q + u.len())[i] == o[q + i]);
    }
    assert(scheme_at(u, 0) == 0);
    assert(u.len() >= 8);
    assert(o.subrange(q, q + 8) =~= u.subrange(0, 8));
    assert(o.subrange(q, q + 7) =~= u.subrange(0, 7));
    assert(o.subrange(q, q + 3) =~= u.subrange(0, 3));
    assert(occurs_at(o, https_word(), q) == occurs_at(u, https_word(), 0));
    assert(occurs_at(o, http_word(), q) == occurs_at(u, http_word(), 0));
    assert(u[0] == 'h') by {
        if occurs_at(u, https_word(), 0) {
            assert(u.subrange(0, 8)[0] == 'h');
        } else {
            assert(u.subrange(0, 7)[0] == 'h');
        }
    }
    assert(!occurs_at(o, link_open(), q)) by {
        assert(o.subrange(q, q + 3)[0] == 'h');
    }
    assert(host_start(o, q) == Some(q + h));
    assert forall|k: int| q + h <= k < q + d implies host_char(#[trigger] o[k]) by {
        assert(o[q + (k - q)] == u[k - q]);
        assert(host_char(u[k - q]));
    }
    assert forall|k: int| q + d < k < q + e implies tld_char(#[trigger] o[k]) by {
        assert(o[q + (k - q)] == u[k - q]);
        assert(tld_char(u[k - q]));
    }
    assert(o[q + d] == u[d]);
    assert(o[q + e - 1] == u[e - 1]);
    assert(o[q + e] == u[e]);
    assert(boundary(o, q + e));
    assert(split_ok(o, q + h, q + d, q + e));
    assert(has_split(o, q + h));
}

} // verus!
