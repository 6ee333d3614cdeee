//! The order in which a playlist is sorted: that of `std::path::Path`.

use std::cmp::Ordering;
use std::path::Path;
use vstd::prelude::*;

use crate::image_loader::canonical_path;

verus! {

/// How `std::path::Path` orders the paths with the texts `a` and `b`. It is
/// stated for canonical path texts only, on which Unix and Windows split
/// paths alike.
pub uninterp spec fn path_ordering(a: Seq<char>, b: Seq<char>) -> Ordering;

/// The path text `a` comes no later than `b` in the order of
/// `std::path::Path`.
pub open spec fn path_le(a: Seq<char>, b: Seq<char>) -> bool {
    path_ordering(a, b) != Ordering::Greater
}

/// Compares `a` and `b` as `std::path::Path` values.
///
/// Trusted: the order follows the platform's path parsing. On canonical path
/// texts, where Unix and Windows agree, the result is named by
/// [`path_ordering`]. As every `Ord` must agree with `==`, and two canonical
/// paths are equal exactly when their texts are (see `Path::components`),
/// such paths compare equal exactly when their texts are equal; any path
/// compares equal to itself. The order itself (component by component) is
/// not documented and is not stated.
#[verifier::external_body]
fn compare_paths(a: &str, b: &str) -> (r: Ordering)
    ensures
        a@ == b@ ==> r == Ordering::Equal,
        canonical_path(a@) && canonical_path(b@) ==> r == path_ordering(a@, b@),
        canonical_path(a@) && canonical_path(b@) ==> (r == Ordering::Equal <==> a@ == b@),
{
    Path::new(a).cmp(Path::new(b))
}

/// The playlist order of two path texts: that of `std::path::Path`.
pub fn path_order(a: &String, b: &String) -> (r: Ordering)
    ensures
        a@ == b@ ==> r == Ordering::Equal,
        canonical_path(a@) && canonical_path(b@) ==> r == path_ordering(a@, b@),
        canonical_path(a@) && canonical_path(b@) ==> (r == Ordering::Equal <==> a@ == b@),
{
    compare_paths(a.as_str(), b.as_str())
}

} // verus!
