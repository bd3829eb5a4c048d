//! What the standard library's path type finds in a path given as text.
//!
//! How a path falls into components depends on the platform, so nothing
//! here says which piece is found: only what holds of it on every platform.

use crate::text::{contains_text, dot};
use vstd::prelude::*;

verus! {

/// Calls `std::path::Path::extension` on the path and hands back what it
/// found as a string. The extension is what follows the last full stop of
/// the path's last component. The contract claims what follows from that
/// however the platform cuts a path into components: a path without a full
/// stop has no extension, an extension holds no full stop, and the path
/// holds a full stop followed by the extension.
#[verifier::external_body]
pub(crate) fn extension_of(path: &str) -> (r: Option<String>)
    ensures
        !contains_text(path@, dot()) ==> r is None,
        r matches Some(e) ==> !contains_text(e@, dot()) && contains_text(path@, dot() + e@),
{
    match std::path::Path::new(path).extension() {
        Some(e) => Some(e.to_string_lossy().into_owned()),
        None => None,
    }
}

/// Calls `std::path::Path::file_name` on the path and hands back what it
/// found as a string. The name is the path's last component, so the
/// contract claims that it is a piece of the path, and no more.
#[verifier::external_body]
pub(crate) fn file_name_of(path: &str) -> (r: Option<String>)
    ensures
        r matches Some(n) ==> contains_text(path@, n@),
{
    match std::path::Path::new(path).file_name() {
        Some(n) => Some(n.to_string_lossy().into_owned()),
        None => None,
    }
}

} // verus!
