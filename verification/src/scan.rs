//! Which of the entries met on a walk are read as source files.

use crate::paths::extension_of;
use crate::text::{chars_of, contains, contains_text, dot};
use vstd::prelude::*;
use vstd::string::*;

verus! {

/// The extension of a source file.
pub open spec fn source_extension() -> Seq<char> {
    "rs"@
}

/// An entry passes by its extension when it has that of a source file.
pub open spec fn accepts_extension(extension: Option<Seq<char>>) -> bool {
    extension == Some(source_extension())
}

/// The path holds one of the listed texts.
pub open spec fn is_excluded(path: Seq<char>, blacklist: Seq<String>) -> bool {
    exists|i: int| 0 <= i < blacklist.len() && contains_text(path, (#[trigger] blacklist[i])@)
}

/// An entry is read when it is a file, passes by its extension, and its
/// path holds none of the listed texts.
pub open spec fn is_ingested(
    path: Seq<char>,
    extension: Option<Seq<char>>,
    is_file: bool,
    blacklist: Seq<String>,
) -> bool {
    is_file && accepts_extension(extension) && !is_excluded(path, blacklist)
}

/// The text of an optional string.
pub open spec fn option_text(s: Option<String>) -> Option<Seq<char>> {
    match s {
        Some(s) => Some(s@),
        None => None,
    }
}

/// Whether an entry passes by its extension.
pub fn is_source_extension(extension: &Option<String>) -> (r: bool)
    ensures
        r == accepts_extension(option_text(*extension)),
{
    match extension {
        Some(e) => {
            let wanted = String::from_str("rs");
            *e == wanted
        },
        None => false,
    }
}

/// Whether the path holds one of the listed texts.
pub fn path_is_excluded(path: &str, blacklist: &Vec<String>) -> (r: bool)
    ensures
        r == is_excluded(path@, blacklist@),
{
    let chars = chars_of(path);
    let mut i: usize = 0;
    while i < blacklist.len()
        invariant
            i <= blacklist.len(),
            chars@ == path@,
            forall|j: int| 0 <= j < i ==> !contains_text(path@, (#[trigger] blacklist[j])@),
        decreases blacklist.len() - i,
    {
        let listed = chars_of(blacklist[i].as_str());
        if contains(&chars, &listed) {
            return true;
        }
        i = i + 1;
    }
    false
}

/// Whether an entry with the given extension is read as a source file.
pub fn should_ingest_entry(
    path: &str,
    extension: &Option<String>,
    is_file: bool,
    blacklist: &Vec<String>,
) -> (r: bool)
    ensures
        r == is_ingested(path@, option_text(*extension), is_file, blacklist@),
{
    is_file && is_source_extension(extension) && !path_is_excluded(path, blacklist)
}

/// A full stop followed by the extension of a source file.
pub open spec fn source_suffix() -> Seq<char> {
    dot() + source_extension()
}

/// Whether an entry met on the walk is read as a source file, by the
/// extension that the platform finds in its path. What is no file is never
/// read, nor a path that holds one of the listed texts, nor a path that
/// does not hold a full stop followed by the extension of a source file.
pub fn should_ingest(path: &str, is_file: bool, blacklist: &Vec<String>) -> (r: bool)
    ensures
        exists|extension: Option<Seq<char>>|
            {
                &&& extension matches Some(e) ==> contains_text(path@, dot() + e)
                &&& r == is_ingested(path@, extension, is_file, blacklist@)
            },
        r ==> is_file && !is_excluded(path@, blacklist@) && contains_text(path@, source_suffix()),
{
    let extension = extension_of(path);
    let r = should_ingest_entry(path, &extension, is_file, blacklist);
    proof {
        let found = option_text(extension);
        assert(found matches Some(e) ==> contains_text(path@, dot() + e));
        assert(r == is_ingested(path@, found, is_file, blacklist@));
    }
    r
}

} // verus!
