//! Checks shared by the request types.

use vstd::prelude::*;

use crate::path::{abs_path, is_absolute, is_path_prefix, path_starts_with};

verus! {

/// Whether a path may name a parent-side object: it must be absolute and
/// must not reach into `/proc`.
pub open spec fn spec_parent_path_ok(p: Seq<char>) -> bool {
    abs_path(p) && !is_path_prefix("/proc"@, p)
}

/// Forbid use of the parent domain's private trees: the path must be
/// absolute, and `/proc` is never served.
pub fn check_parent_path(path: &str) -> (r: Result<(), String>)
    ensures
        r is Ok <==> spec_parent_path_ok(path@),
        r matches Err(e) ==> e@ == (if !abs_path(path@) {
            "The path is not absolute"@
        } else {
            "Access denied to /proc"@
        }),
{
    if !is_absolute(path) {
        let e = String::from_str("The path is not absolute");
        proof {
            reveal_strlit("The path is not absolute");
        }
        return Err(e);
    }
    if path_starts_with(path, "/proc") {
        let e = String::from_str("Access denied to /proc");
        proof {
            reveal_strlit("Access denied to /proc");
        }
        return Err(e);
    }
    Ok(())
}

} // verus!
