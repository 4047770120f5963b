//! Host path operations of `std::path`, on UTF-8 paths.
//!
//! The path grammar (separators, prefixes, `.` and `..` components) is that of
//! the platform the crate is built for; the functions here name its results
//! and hand them over as strings.

use vstd::prelude::*;

verus! {

/// What `Path::file_name` gives for a path.
pub uninterp spec fn file_name_of(p: Seq<char>) -> Option<Seq<char>>;

/// What `Path::file_stem` gives for a path.
pub uninterp spec fn file_stem_of(p: Seq<char>) -> Option<Seq<char>>;

/// What `Path::parent` gives for a path.
pub uninterp spec fn parent_of(p: Seq<char>) -> Option<Seq<char>>;

/// What `Path::extension` gives for a path.
pub uninterp spec fn extension_of(p: Seq<char>) -> Option<Seq<char>>;

/// What `Path::join` gives for a base path and a relative part.
pub uninterp spec fn joined(base: Seq<char>, part: Seq<char>) -> Seq<char>;

/// What `Path::with_file_name` gives for a path and a new file name.
pub uninterp spec fn with_file_name_of(p: Seq<char>, name: Seq<char>) -> Seq<char>;

/// What `Path::with_extension` gives for a path and a new extension.
pub uninterp spec fn with_extension_of(p: Seq<char>, ext: Seq<char>) -> Seq<char>;

/// `Path::file_name`: the final component of the path, if it is a normal one.
#[verifier::external_body]
pub(crate) fn file_name(p: &str) -> (r: Option<String>)
    ensures
        r matches Some(s) ==> file_name_of(p@) == Some(s@),
        r is None ==> file_name_of(p@) is None,
{
    std::path::Path::new(p).file_name().map(|s| s.to_string_lossy().into_owned())
}

/// `Path::file_stem`: the final component without its extension.
#[verifier::external_body]
pub(crate) fn file_stem(p: &str) -> (r: Option<String>)
    ensures
        r matches Some(s) ==> file_stem_of(p@) == Some(s@),
        r is None ==> file_stem_of(p@) is None,
{
    std::path::Path::new(p).file_stem().map(|s| s.to_string_lossy().into_owned())
}

/// `Path::parent`: the path without its final component.
#[verifier::external_body]
pub(crate) fn parent(p: &str) -> (r: Option<String>)
    ensures
        r matches Some(s) ==> parent_of(p@) == Some(s@),
        r is None ==> parent_of(p@) is None,
{
    std::path::Path::new(p).parent().map(|s| s.to_string_lossy().into_owned())
}

/// `Path::extension`: the extension of the final component.
#[verifier::external_body]
pub(crate) fn extension(p: &str) -> (r: Option<String>)
    ensures
        r matches Some(s) ==> extension_of(p@) == Some(s@),
        r is None ==> extension_of(p@) is None,
{
    std::path::Path::new(p).extension().map(|s| s.to_string_lossy().into_owned())
}

/// `Path::join`.
#[verifier::external_body]
pub(crate) fn join(base: &str, part: &str) -> (r: String)
    ensures r@ == joined(base@, part@),
{
    std::path::Path::new(base).join(part).to_string_lossy().into_owned()
}

/// `Path::with_file_name`.
#[verifier::external_body]
pub(crate) fn with_file_name(p: &str, name: &str) -> (r: String)
    ensures r@ == with_file_name_of(p@, name@),
{
    std::path::Path::new(p).with_file_name(name).to_string_lossy().into_owned()
}

/// `Path::with_extension`. It panics on an extension that holds a path
/// separator, so such an extension is not accepted here.
#[verifier::external_body]
pub(crate) fn with_extension(p: &str, ext: &str) -> (r: String)
    requires
        !ext@.contains('/'),
        !ext@.contains('\\'),
    ensures r@ == with_extension_of(p@, ext@),
{
    std::path::Path::new(p).with_extension(ext).to_string_lossy().into_owned()
}

/// Whether two paths are equal as `Path`s, which compares their components.
pub uninterp spec fn same_path_as(a: Seq<char>, b: Seq<char>) -> bool;

/// `==` on `std::path::Path`: true of equal paths, and otherwise as the
/// components decide.
#[verifier::external_body]
pub(crate) fn same_path(a: &str, b: &str) -> (r: bool)
    ensures
        r == same_path_as(a@, b@),
        a@ == b@ ==> r,
{
    std::path::Path::new(a) == std::path::Path::new(b)
}

} // verus!
