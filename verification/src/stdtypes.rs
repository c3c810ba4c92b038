//! Standard-library types that travel through the library unread.

use vstd::prelude::*;

verus! {

/// `std::path::PathBuf`, carried as an opaque value.
#[verifier::external_type_specification]
#[verifier::external_body]
pub struct ExPathBuf(std::path::PathBuf);

/// `std::io::Error`, carried as an opaque value.
#[verifier::external_type_specification]
#[verifier::external_body]
pub struct ExIoError(std::io::Error);

/// `<PathBuf as Clone>::clone`: std documents that a clone equals the
/// original; the contract says the copy is the same value.
pub assume_specification[ <std::path::PathBuf as Clone>::clone ](p: &std::path::PathBuf) -> (r: std::path::PathBuf)
    ensures
        r == *p,
;

/// `PathBuf::new`: an empty path. The path is opaque here, so nothing is
/// stated of it.
pub assume_specification[ std::path::PathBuf::new ]() -> std::path::PathBuf;

/// `std::io::Error`'s `Display`, through `ToString::to_string`. The error
/// is opaque here, so nothing is stated of the text.
#[verifier::external_body]
pub(crate) fn io_error_to_string(e: &std::io::Error) -> String {
    e.to_string()
}

/// `Path::display`, through `ToString::to_string`: the path as text. What
/// the text holds depends on the platform's path encoding, so nothing is
/// stated of it.
#[verifier::external_body]
pub(crate) fn path_to_string(p: &std::path::PathBuf) -> String {
    p.display().to_string()
}

/// What `Path::join` gives for `path` and `name`: `path` with `name`
/// appended as a component (`name` itself when it is absolute).
pub uninterp spec fn joined_path(path: std::path::PathBuf, name: Seq<char>) -> std::path::PathBuf;

/// `Path::join`: `path` with `name` appended as a component. The result is
/// a function of its arguments alone, named by `joined_path`.
#[verifier::external_body]
pub(crate) fn path_join(path: &std::path::PathBuf, name: &str) -> (r: std::path::PathBuf)
    ensures
        r == joined_path(*path, name@),
{
    path.join(name)
}

/// Appends `body` after `prefix`.
pub(crate) fn prefixed(prefix: &str, body: &str) -> (r: String)
    ensures
        r@ == prefix@ + body@,
{
    let mut s = String::new();
    crate::text::push_str(&mut s, prefix);
    crate::text::push_str(&mut s, body);
    s
}

/// `prefix` followed by text that nothing is stated of.
pub(crate) fn prefixed_opaque(prefix: &str, body: String) -> (r: String)
    ensures
        prefix@.is_prefix_of(r@),
{
    let mut s = String::new();
    crate::text::push_str(&mut s, prefix);
    let ghost before = s@;
    crate::text::push_str(&mut s, body.as_str());
    assert(before.is_prefix_of(s@));
    s
}

} // verus!
