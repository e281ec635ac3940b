//! File-system paths as text, compared and joined as `std::path::Path` does.

use vstd::prelude::*;

verus! {

/// Whether two path texts name the same path as `std::path::Path` compares
/// them (component by component). A function of the two texts alone.
pub uninterp spec fn path_eq(a: Seq<char>, b: Seq<char>) -> bool;

/// Compares two paths by `std::path::Path::new(a) == std::path::Path::new(b)`.
/// Claimed: the answer is `path_eq(a, b)`.
#[verifier::external_body]
pub(crate) fn same_path(a: &str, b: &str) -> (r: bool)
    ensures
        r == path_eq(a@, b@),
{
    std::path::Path::new(a) == std::path::Path::new(b)
}

/// Whether the path `path` lies under the directory `dir`, as
/// `std::path::Path::starts_with` decides it (whole components only).
/// A function of the two texts alone.
pub uninterp spec fn path_under(path: Seq<char>, dir: Seq<char>) -> bool;

/// Decides `std::path::Path::new(path).starts_with(dir)`.
/// Claimed: the answer is `path_under(path, dir)`.
#[verifier::external_body]
pub(crate) fn starts_with_dir(path: &str, dir: &str) -> (r: bool)
    ensures
        r == path_under(path@, dir@),
{
    std::path::Path::new(path).starts_with(dir)
}

/// The text of `std::path::Path::new(dir).join(name)`. A function of the two
/// texts alone.
pub uninterp spec fn path_joined(dir: Seq<char>, name: Seq<char>) -> Seq<char>;

/// Joins `name` onto `dir` by `std::path::Path::new(dir).join(name)`, as text.
/// Claimed: the text is `path_joined(dir, name)`.
#[verifier::external_body]
pub(crate) fn join_path(dir: &str, name: &str) -> (r: String)
    ensures
        r@ == path_joined(dir@, name@),
{
    std::path::Path::new(dir).join(name).to_string_lossy().into_owned()
}

} // verus!
