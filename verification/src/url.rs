//! `file:` URLs, which is how LSP names files.
//!
//! The `url` crate reads paths the way the system that it is built for does, and takes
//! no other: what a path and a URL are to each other is said here of one build.

use async_lsp::lsp_types::Url;
use vstd::prelude::*;

verus! {

/// The text of the URL that `Url::from_file_path` makes of a path, on the system that
/// it is built for; none where it gives an error.
pub uninterp spec fn file_url(path: Seq<char>) -> Option<Seq<char>>;

/// The path that `Url::to_file_path` gives for the URL that a text is, on the system
/// that it is built for; none where it gives an error.
pub uninterp spec fn url_path(uri: Seq<char>) -> Option<Seq<char>>;

/// `Url::from_file_path`: the `file:` URL of a path, as a text.
#[verifier::external_body]
pub(crate) fn from_file_path(path: &str) -> (r: Option<String>)
    ensures
        crate::text::opt_text(r) == file_url(path@),
{
    Url::from_file_path(path).ok().map(|u| u.to_string())
}

/// `Url::to_file_path` of the URL that a text is: the path it names, as a text.
#[verifier::external_body]
pub(crate) fn to_file_path(uri: &str) -> (r: Option<String>)
    ensures
        crate::text::opt_text(r) == url_path(uri@),
{
    let path = Url::parse(uri).ok()?.to_file_path().ok()?;
    Some(path.to_string_lossy().to_string())
}

} // verus!
