//! File paths, as `std::path` treats them.

use vstd::prelude::*;
use std::path::Path;

verus! {

/// What `Path::with_extension` gives for a path and an extension.
pub uninterp spec fn path_with_extension(path: Seq<char>, ext: Seq<char>) -> Seq<char>;

/// Calls `Path::with_extension`; the result is named `path_with_extension`.
/// `PathBuf::set_extension` panics on an extension that holds a path
/// separator, so the extension may hold none.
#[verifier::external_body]
pub(crate) fn with_extension(path: &str, ext: &str) -> (r: String)
    requires
        forall|i: int| 0 <= i < ext@.len() ==> ext@[i] != '/' && ext@[i] != '\\',
    ensures
        r@ == path_with_extension(path@, ext@),
{
    Path::new(path).with_extension(ext).to_string_lossy().into_owned()
}

/// What `Path::file_name` gives for a path: its last component, if it has one.
pub uninterp spec fn path_file_name(path: Seq<char>) -> Option<Seq<char>>;

/// Calls `Path::file_name`; the result is named `path_file_name`.
#[verifier::external_body]
pub(crate) fn file_name(path: &str) -> (r: Option<String>)
    ensures
        match r {
            Some(n) => path_file_name(path@) == Some(n@),
            None => path_file_name(path@) is None,
        },
{
    Path::new(path).file_name().map(|n| n.to_string_lossy().into_owned())
}

/// What `Path::with_file_name` gives for a path and a new last component.
pub uninterp spec fn path_with_file_name(path: Seq<char>, name: Seq<char>) -> Seq<char>;

/// Calls `Path::with_file_name`; the result is named `path_with_file_name`.
#[verifier::external_body]
pub(crate) fn with_file_name(path: &str, name: &str) -> (r: String)
    ensures
        r@ == path_with_file_name(path@, name@),
{
    Path::new(path).with_file_name(name).to_string_lossy().into_owned()
}

} // verus!
