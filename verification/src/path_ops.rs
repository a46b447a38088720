//! The few operations on file-system paths that the library needs.
//!
//! Paths are held as strings; the path grammar itself (components,
//! separators, prefixes) is std's, reached through the unverified wrappers below.

use vstd::prelude::*;

verus! {

/// Whether std considers the two paths equal (`Path` compares component by
/// component, so `/a/` and `/a` are the same path).
pub uninterp spec fn same_path(a: Seq<char>, b: Seq<char>) -> bool;

/// What `Path::strip_prefix` gives for `path` and `base`, as a string.
pub uninterp spec fn stripped_prefix(path: Seq<char>, base: Seq<char>) -> Option<Seq<char>>;

/// The components std finds in `path`, each as text.
pub uninterp spec fn component_names(path: Seq<char>) -> Seq<Seq<char>>;

/// What `Path::join` gives for `base` and `part`, as a string.
pub uninterp spec fn joined_path(base: Seq<char>, part: Seq<char>) -> Seq<char>;

/// Compares two paths with `Path`'s `==`; the contract names the result
/// `same_path` and claims nothing more of it.
#[verifier::external_body]
pub(crate) fn paths_equal(a: &str, b: &str) -> (r: bool)
    ensures
        r == same_path(a@, b@),
{
    std::path::Path::new(a) == std::path::Path::new(b)
}

/// Calls `Path::strip_prefix`; the contract names the result
/// `stripped_prefix`, the relative rest as text, or `None` when `base` is
/// not a prefix of `path`.
#[verifier::external_body]
pub(crate) fn strip_path_prefix(path: &str, base: &str) -> (r: Option<String>)
    ensures
        r matches Some(rest) ==> stripped_prefix(path@, base@) == Some(rest@),
        r is None ==> stripped_prefix(path@, base@) is None,
{
    match std::path::Path::new(path).strip_prefix(base) {
        Ok(rest) => Some(rest.to_string_lossy().into_owned()),
        Err(_) => None,
    }
}

/// Calls `Path::components`; the contract names the list of their texts
/// `component_names`.
#[verifier::external_body]
pub(crate) fn path_components(path: &str) -> (r: Vec<String>)
    ensures
        r@.len() == component_names(path@).len(),
        forall|i: int| 0 <= i < r@.len() ==> #[trigger] r@[i]@ == component_names(path@)[i],
{
    std::path::Path::new(path)
        .components()
        .map(|c| c.as_os_str().to_string_lossy().into_owned())
        .collect()
}

/// Calls `Path::join`; the contract names the joined path `joined_path`.
#[verifier::external_body]
pub(crate) fn join_path(base: &str, part: &str) -> (r: String)
    ensures
        r@ == joined_path(base@, part@),
{
    std::path::Path::new(base).join(part).to_string_lossy().into_owned()
}

/// What `Path::parent` gives for `path`, as text.
pub uninterp spec fn parent_path(path: Seq<char>) -> Option<Seq<char>>;

/// Calls `Path::parent`; the contract names the result `parent_path`.
#[verifier::external_body]
pub(crate) fn parent_of(path: &str) -> (r: Option<String>)
    ensures
        r matches Some(p) ==> parent_path(path@) == Some(p@),
        r is None ==> parent_path(path@) is None,
{
    std::path::Path::new(path).parent().map(|p| p.to_string_lossy().into_owned())
}

/// What `Path::file_stem` gives for `path`, as text.
pub uninterp spec fn path_stem(path: Seq<char>) -> Option<Seq<char>>;

/// Calls `Path::file_stem`; the contract names the result `path_stem`.
#[verifier::external_body]
pub(crate) fn file_stem_of(path: &str) -> (r: Option<String>)
    ensures
        r matches Some(p) ==> path_stem(path@) == Some(p@),
        r is None ==> path_stem(path@) is None,
{
    std::path::Path::new(path).file_stem().map(|p| p.to_string_lossy().into_owned())
}

/// What `Path::file_name` gives for `path`, as text.
pub uninterp spec fn path_file_name(path: Seq<char>) -> Option<Seq<char>>;

/// Calls `Path::file_name`; the contract names the result `path_file_name`.
#[verifier::external_body]
pub(crate) fn file_name_of(path: &str) -> (r: Option<String>)
    ensures
        r matches Some(p) ==> path_file_name(path@) == Some(p@),
        r is None ==> path_file_name(path@) is None,
{
    std::path::Path::new(path).file_name().map(|p| p.to_string_lossy().into_owned())
}

/// What `Path::extension` gives for `path`, as text.
pub uninterp spec fn path_extension(path: Seq<char>) -> Option<Seq<char>>;

/// Calls `Path::extension`; the contract names the result `path_extension`.
#[verifier::external_body]
pub(crate) fn extension_of(path: &str) -> (r: Option<String>)
    ensures
        r matches Some(e) ==> path_extension(path@) == Some(e@),
        r is None ==> path_extension(path@) is None,
{
    std::path::Path::new(path).extension().map(|e| e.to_string_lossy().into_owned())
}

} // verus!
