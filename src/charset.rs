//! Detection of a Shift_JIS charset declaration in raw page bytes.

use vstd::prelude::*;

verus! {

/// The ASCII lower case of a byte; other bytes are left as they are.
pub open spec fn ascii_lower(b: u8) -> u8 {
    if 65 <= b <= 90 {
        (b + 32) as u8
    } else {
        b
    }
}

/// Whether the lower-case ASCII pattern `p` occurs in `s` at `i`, ignoring
/// ASCII case.
pub open spec fn ci_occurs_at(s: Seq<u8>, p: Seq<u8>, i: int) -> bool {
    0 <= i && i + p.len() <= s.len() && forall|k: int|
        0 <= k < p.len() ==> #[trigger] ascii_lower(s[i + k]) == p[k]
}

/// `charset=`
pub open spec fn charset_key() -> Seq<u8> {
    seq![99, 104, 97, 114, 115, 101, 116, 61]
}

/// `shift`
pub open spec fn shift_word() -> Seq<u8> {
    seq![115, 104, 105, 102, 116]
}

/// `jis`
pub open spec fn jis_word() -> Seq<u8> {
    seq![106, 105, 115]
}

/// Whether `shift_jis` or `shift-jis`, in any ASCII case, starts at `j`.
pub open spec fn shift_jis_at(s: Seq<u8>, j: int) -> bool {
    &&& ci_occurs_at(s, shift_word(), j)
    &&& j + 5 < s.len()
    &&& (s[j + 5] == 95 || s[j + 5] == 45)
    &&& ci_occurs_at(s, jis_word(), j + 6)
}

/// Whether a `charset=` declaration naming Shift_JIS starts at `i`; the name
/// may follow a single or double quote.
pub open spec fn hint_at(s: Seq<u8>, i: int) -> bool {
    &&& ci_occurs_at(s, charset_key(), i)
    &&& (shift_jis_at(s, i + 8) || (i + 8 < s.len() && (s[i + 8] == 34 || s[i + 8] == 39)
        && shift_jis_at(s, i + 9)))
}

/// Whether the bytes declare the Shift_JIS charset anywhere.
///
/// The declaration is plain ASCII, and decoding the bytes lossily as UTF-8
/// keeps every ASCII byte as it is, so the search runs on the bytes.
pub open spec fn declares_shift_jis(s: Seq<u8>) -> bool {
    exists|i: int| hint_at(s, i)
}

fn lower_byte(b: u8) -> (r: u8)
    ensures
        r == ascii_lower(b),
{
    if 65 <= b && b <= 90 {
        b + 32
    } else {
        b
    }
}

fn ci_occurs_at_exec(s: &[u8], p: &Vec<u8>, i: usize) -> (r: bool)
    ensures
        r == ci_occurs_at(s@, p@, i as int),
{
    if i > s.len() || p.len() > s.len() - i {
        return false;
    }
    let mut j: usize = 0;
    while j < p.len()
        invariant
            i + p@.len() <= s.len(),
            j <= p@.len(),
            forall|k: int| 0 <= k < j ==> #[trigger] ascii_lower(s@[i + k]) == p@[k],
        decreases p@.len() - j,
    {
        let k: usize = i + j;
        if lower_byte(s[k]) != p[j] {
            return false;
        }
        j = j + 1;
    }
    true
}

fn shift_jis_at_exec(s: &[u8], j: usize) -> (r: bool)
    ensures
        r == shift_jis_at(s@, j as int),
{
    let shift: Vec<u8> = vec![115, 104, 105, 102, 116];
    let jis: Vec<u8> = vec![106, 105, 115];
    assert(shift@ =~= shift_word());
    assert(jis@ =~= jis_word());
    if !ci_occurs_at_exec(s, &shift, j) {
        return false;
    }
    if s.len() - j <= 5 {
        return false;
    }
    let sep = s[j + 5];
    if sep != 95 && sep != 45 {
        return false;
    }
    ci_occurs_at_exec(s, &jis, j + 6)
}

/// Whether the page bytes declare the Shift_JIS charset (`charset=shift_jis`
/// or `charset=shift-jis`, in any ASCII case, the name possibly quoted).
pub fn detect_shift_jis(bytes: &[u8]) -> (r: bool)
    ensures
        r == declares_shift_jis(bytes@),
{
    let key: Vec<u8> = vec![99, 104, 97, 114, 115, 101, 116, 61];
    assert(key@ =~= charset_key());
    let mut i: usize = 0;
    while i < bytes.len()
        invariant
            i <= bytes@.len(),
            key@ == charset_key(),
            forall|k: int| 0 <= k < i ==> !#[trigger] hint_at(bytes@, k),
        decreases bytes@.len() - i,
    {
        if ci_occurs_at_exec(bytes, &key, i) {
            if shift_jis_at_exec(bytes, i + 8) {
                assert(hint_at(bytes@, i as int));
                return true;
            }
            if i + 8 < bytes.len() {
                let q = bytes[i + 8];
                if (q == 34 || q == 39) && shift_jis_at_exec(bytes, i + 9) {
                    assert(hint_at(bytes@, i as int));
                    return true;
                }
            }
        }
        i = i + 1;
    }
    assert forall|k: int| !#[trigger] hint_at(bytes@, k) by {
        if k >= bytes@.len() {
            assert(!ci_occurs_at(bytes@, charset_key(), k));
        }
    }
    false
}

} // verus!
