//! Turning the bytes of a fetched page into its text and its title.

use vstd::prelude::*;
use crate::charset::{declares_shift_jis, detect_shift_jis};
use crate::title::{extract_title, title_of};

verus! {

/// Why no title could be had for a URL.
#[derive(Debug, Clone, Copy, PartialEq, Eq, Structural)]
pub enum FetchError {
    /// The request failed in transport.
    NetworkError,
    /// The response body had no bytes.
    EmptyResponseError,
    /// The page holds no `<title>` ... `</title>` pair.
    NoTitleError,
}

/// What encoding_rs makes of bytes decoded as UTF-8.
pub uninterp spec fn utf8_decoded(b: Seq<u8>) -> Seq<char>;

/// What encoding_rs makes of bytes decoded as Shift_JIS.
pub uninterp spec fn shift_jis_decoded(b: Seq<u8>) -> Seq<char>;

/// What html_escape makes of a text when it decodes its character entities.
pub uninterp spec fn entities_decoded(s: Seq<char>) -> Seq<char>;

/// Relies on encoding_rs's `Encoding::decode` for `UTF_8`: the text of the
/// bytes, malformed sequences replaced, a byte order mark followed.
#[verifier::external_body]
fn decode_utf8(b: &[u8]) -> (r: String)
    ensures
        r@ == utf8_decoded(b@),
{
    encoding_rs::UTF_8.decode(b).0.into_owned()
}

/// Relies on encoding_rs's `Encoding::decode` for `SHIFT_JIS`: the text of
/// the bytes, malformed sequences replaced, a byte order mark followed.
#[verifier::external_body]
fn decode_shift_jis(b: &[u8]) -> (r: String)
    ensures
        r@ == shift_jis_decoded(b@),
{
    encoding_rs::SHIFT_JIS.decode(b).0.into_owned()
}

/// Relies on html_escape's `decode_html_entities`: the text with its named
/// and numeric character references replaced by the characters they stand for.
#[verifier::external_body]
fn decode_entities(s: &str) -> (r: String)
    ensures
        r@ == entities_decoded(s@),
{
    html_escape::decode_html_entities(s).into_owned()
}

/// The text of non-empty page bytes: decoded as Shift_JIS where they declare
/// that charset, else as UTF-8, then with character entities decoded.
pub open spec fn page_text(b: Seq<u8>) -> Seq<char> {
    if declares_shift_jis(b) {
        entities_decoded(shift_jis_decoded(b))
    } else {
        entities_decoded(utf8_decoded(b))
    }
}

/// The text of a fetched page; an empty body is an error.
pub fn decode_page(bytes: &[u8]) -> (r: Result<String, FetchError>)
    ensures
        bytes@.len() == 0 ==> r == Err::<String, FetchError>(FetchError::EmptyResponseError),
        bytes@.len() > 0 ==> r is Ok && r->Ok_0@ == page_text(bytes@),
{
    if bytes.len() == 0 {
        return Err(FetchError::EmptyResponseError);
    }
    let decoded = if detect_shift_jis(bytes) {
        decode_shift_jis(bytes)
    } else {
        decode_utf8(bytes)
    };
    Ok(decode_entities(decoded.as_str()))
}

/// The title of a fetched page: the error of `decode_page`, or the title
/// that `extract_title` finds in the page's text, or `NoTitleError`.
pub fn title_of_page(bytes: &[u8]) -> (r: Result<String, FetchError>)
    ensures
        bytes@.len() == 0 ==> r == Err::<String, FetchError>(FetchError::EmptyResponseError),
        bytes@.len() > 0 ==> match title_of(page_text(bytes@)) {
            Some(t) => r is Ok && r->Ok_0@ == t,
            None => r == Err::<String, FetchError>(FetchError::NoTitleError),
        },
{
    let html = decode_page(bytes)?;
    match extract_title(html.as_str()) {
        Some(t) => Ok(t),
        None => Err(FetchError::NoTitleError),
    }
}

} // verus!
