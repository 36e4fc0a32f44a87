//! Turns the URLs of a line of text into markdown links titled after the
//! pages they point to.
//!
//! The network fetch stays with the caller: this library locates the URLs,
//! decodes fetched page bytes, extracts titles and rebuilds the text.

pub mod charset;
pub mod locate;
pub mod page;
pub mod rewrite;
pub mod text;
pub mod title;

pub use charset::detect_shift_jis;
pub use locate::{locate_urls, UrlMatch};
pub use page::{decode_page, title_of_page, FetchError};
pub use rewrite::{replace_url_with_markdown_format, rewrite};
pub use text::{find_from, trim_title};
pub use title::extract_title;
