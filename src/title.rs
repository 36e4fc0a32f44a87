//! Extraction of the text between the first `<title>` and the first
//! `</title>` of an HTML text.

use vstd::prelude::*;
use crate::text::{first_from, find_from, from_chars, slice_chars, to_chars};

verus! {

/// The open tag `<title>`.
pub open spec fn open_tag() -> Seq<char> {
    seq!['<', 't', 'i', 't', 'l', 'e', '>']
}

/// The close tag `</title>`.
pub open spec fn close_tag() -> Seq<char> {
    seq!['<', '/', 't', 'i', 't', 'l', 'e', '>']
}

/// The title of an HTML text: what lies between the first `<title>` and the
/// first `</title>`; nothing where either is missing or where that
/// `</title>` starts before the first `<title>` ends.
pub open spec fn title_of(html: Seq<char>) -> Option<Seq<char>> {
    match first_from(html, open_tag(), 0) {
        Some(o) => match first_from(html, close_tag(), 0) {
            Some(c) => if c >= o + 7 {
                Some(html.subrange(o + 7, c))
            } else {
                None
            },
            None => None,
        },
        None => None,
    }
}

proof fn lemma_first_from_bounds(s: Seq<char>, p: Seq<char>, from: int)
    requires
        first_from(s, p, from) is Some,
    ensures
        from <= first_from(s, p, from)->0,
        first_from(s, p, from)->0 + p.len() <= s.len(),
    decreases s.len() - from,
{
    if !(from < 0 || from >= s.len() || from + p.len() > s.len()) {
        if !crate::text::occurs_at(s, p, from) {
            lemma_first_from_bounds(s, p, from + 1);
        }
    }
}

/// The text between the first `<title>` tag of `html` and its first
/// `</title>` tag; `None` where either is missing or the `</title>` starts
/// before the `<title>` ends.
pub fn extract_title(html: &str) -> (r: Option<String>)
    ensures
        match r {
            Some(t) => title_of(html@) == Some(t@),
            None => title_of(html@) is None,
        },
{
    let s = to_chars(html);
    // Taking the length as a usize bounds the index sums below.
    let n = s.len();
    let open = vec!['<', 't', 'i', 't', 'l', 'e', '>'];
    let close = vec!['<', '/', 't', 'i', 't', 'l', 'e', '>'];
    assert(open@ =~= open_tag());
    assert(close@ =~= close_tag());
    match find_from(&s, &open, 0) {
        Some(o) => {
            proof {
                lemma_first_from_bounds(s@, open@, 0);
            }
            let start = o + 7;
            match find_from(&s, &close, 0) {
                Some(c) => {
                    proof {
                        lemma_first_from_bounds(s@, close@, 0);
                    }
                    if c < start {
                        return None;
                    }
                    let t = slice_chars(&s, start, c);
                    Some(from_chars(&t))
                },
                None => None,
            }
        },
        None => None,
    }
}

} // verus!
