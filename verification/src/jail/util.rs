//! Helpers for jail paths and staging directories.

use vstd::prelude::*;

use rand::Rng;
use rand::distributions::Alphanumeric;

use crate::path::{abs_path, spec_nest_path, concat_path};

verus! {

/// Concatenate two paths (different from `join()`): a leading slash of
/// `subdir` is dropped, so the result stays anchored at `root`.
pub fn nest_path(root: &str, subdir: &str) -> (r: String)
    ensures
        r@ == spec_nest_path(root@, subdir@),
{
    concat_path(root, subdir)
}

/// Relies on rand's `thread_rng` and `Alphanumeric` distribution: twelve
/// random characters; nothing else is assumed of their values.
#[verifier::external_body]
fn random_suffix() -> (r: String)
    ensures
        r@.len() == 12,
{
    let mut out = String::with_capacity(12);
    for b in rand::thread_rng().sample_iter(&Alphanumeric).take(12) {
        out.push(char::from(b));
    }
    out
}

/// A staging directory named under the current working directory, torn down
/// once its mounts have been moved into place or the operation has failed.
pub struct TmpWorkDir {
    path: String,
    do_unmount: bool,
}

impl TmpWorkDir {
    /// The directory's path, for specifications.
    pub closed spec fn spec_path(&self) -> Seq<char> {
        self.path@
    }

    /// Whether mounts remain under the directory, for specifications.
    pub closed spec fn spec_needs_unmount(&self) -> bool {
        self.do_unmount
    }

    /// Pick a fresh relative directory name `./tmp_<prefix>_<random>`.
    /// The directory itself is created by the caller.
    pub fn new(prefix: &str) -> (r: TmpWorkDir)
        ensures
            !abs_path(r.spec_path()),
            exists|sfx: Seq<char>|
                sfx.len() == 12 && r.spec_path() == "./tmp_"@ + prefix@ + "_"@ + sfx,
            !r.spec_needs_unmount(),
    {
        let mut path = String::from_str("./tmp_");
        path.append(prefix);
        path.append("_");
        let suffix = random_suffix();
        path.append(suffix.as_str());
        proof {
            reveal_strlit("./tmp_");
            reveal_strlit("_");
        }
        TmpWorkDir { path, do_unmount: false }
    }

    /// The directory's relative path.
    pub fn path(&self) -> (r: &str)
        ensures
            r@ == self.spec_path(),
    {
        self.path.as_str()
    }

    /// Whether the caller must detach mounts under the directory before
    /// removing it.
    pub fn needs_unmount(&self) -> (r: bool)
        ensures
            r == self.spec_needs_unmount(),
    {
        self.do_unmount
    }

    /// Record whether mounts remain under the directory.
    pub fn unmount(&mut self, on: bool)
        ensures
            final(self).spec_needs_unmount() == on,
            final(self).spec_path() == old(self).spec_path(),
    {
        self.do_unmount = on;
    }
}

} // verus!
