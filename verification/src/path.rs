//! Textual path model.
//!
//! Paths are plain strings.  The functions here define the few operations the
//! sandbox needs: absoluteness, component-wise prefix tests, the remainder of
//! a path relative to a prefix, and `nest_path`-style concatenation.  Nothing
//! consults the file system; a path is only a sequence of characters.

use vstd::prelude::*;

verus! {

/// A path is absolute when it starts with a slash.
pub open spec fn abs_path(s: Seq<char>) -> bool {
    s.len() > 0 && s[0] == '/'
}

/// `pre` is a component-wise prefix of `p`: either the two are equal, or `p`
/// continues `pre` at a component boundary.
pub open spec fn is_path_prefix(pre: Seq<char>, p: Seq<char>) -> bool {
    pre == p || (pre.len() < p.len() && p.subrange(0, pre.len() as int) == pre && (p[pre.len() as int]
        == '/' || (pre.len() > 0 && pre[pre.len() - 1] == '/')))
}

/// The remainder of `p` after the prefix `base`, with the separating slash
/// removed; `None` when `base` is not a component-wise prefix of `p`.
pub open spec fn spec_relative_from(p: Seq<char>, base: Seq<char>) -> Option<Seq<char>> {
    if !is_path_prefix(base, p) {
        None
    } else if p == base {
        Some(Seq::<char>::empty())
    } else if p[base.len() as int] == '/' {
        Some(p.subrange(base.len() as int + 1, p.len() as int))
    } else {
        Some(p.subrange(base.len() as int, p.len() as int))
    }
}

/// `subdir` nested under `root`: a leading slash of `subdir` is dropped and
/// the rest is appended to `root` behind a single separator.
pub open spec fn spec_nest_path(root: Seq<char>, subdir: Seq<char>) -> Seq<char> {
    let stripped = if abs_path(subdir) {
        subdir.drop_first()
    } else {
        subdir
    };
    if root.len() > 0 && root[root.len() - 1] == '/' {
        root + stripped
    } else {
        root + seq!['/'] + stripped
    }
}

/// Whether the path starts with a slash.
pub fn is_absolute(s: &str) -> (r: bool)
    ensures
        r == abs_path(s@),
{
    s.unicode_len() > 0 && s.get_char(0) == '/'
}

/// Character-wise string equality.
pub fn str_eq(a: &str, b: &str) -> (r: bool)
    ensures
        r == (a@ == b@),
{
    let a_len = a.unicode_len();
    let b_len = b.unicode_len();
    if a_len != b_len {
        return false;
    }
    let mut i: usize = 0;
    while i < a_len
        invariant
            0 <= i <= a_len,
            a_len == a@.len(),
            a_len == b@.len(),
            forall|j: int| 0 <= j < i ==> a@[j] == b@[j],
        decreases a_len - i,
    {
        if a.get_char(i) != b.get_char(i) {
            return false;
        }
        i = i + 1;
    }
    proof {
        assert(a@ =~= b@);
    }
    true
}

/// Whether `pre` matches `p` starting at position `start`.
fn range_eq(p: &str, start: usize, pre: &str) -> (r: bool)
    requires
        start + pre@.len() <= p@.len(),
    ensures
        r == (p@.subrange(start as int, start + pre@.len()) == pre@),
{
    let pre_len = pre.unicode_len();
    let p_len = p.unicode_len();
    let mut i: usize = 0;
    while i < pre_len
        invariant
            0 <= i <= pre_len,
            pre_len == pre@.len(),
            p_len == p@.len(),
            start + pre_len <= p_len,
            forall|j: int| 0 <= j < i ==> p@[start + j] == pre@[j],
        decreases pre_len - i,
    {
        if p.get_char(start + i) != pre.get_char(i) {
            proof {
                assert(p@.subrange(start as int, start + pre@.len())[i as int] != pre@[i as int]);
            }
            return false;
        }
        i = i + 1;
    }
    proof {
        assert(p@.subrange(start as int, start + pre@.len()) =~= pre@);
    }
    true
}

/// Component-wise prefix test, as `Path::starts_with` behaves.
pub fn path_starts_with(p: &str, pre: &str) -> (r: bool)
    ensures
        r == is_path_prefix(pre@, p@),
{
    let p_len = p.unicode_len();
    let pre_len = pre.unicode_len();
    if pre_len > p_len {
        return false;
    }
    if pre_len == p_len {
        return str_eq(p, pre);
    }
    if !range_eq(p, 0, pre) {
        proof {
            if pre@ == p@.subrange(0, pre@.len() as int) {
                assert(p@.subrange(0, pre@.len() as int) == pre@);
            }
        }
        return false;
    }
    if p.get_char(pre_len) == '/' {
        return true;
    }
    pre_len > 0 && pre.get_char(pre_len - 1) == '/'
}

/// The remainder of `p` after the prefix `base`; `None` when `base` is not a
/// component-wise prefix of `p`.
pub fn path_relative_from(p: &str, base: &str) -> (r: Option<String>)
    ensures
        match r {
            Some(s) => spec_relative_from(p@, base@) == Some(s@),
            None => spec_relative_from(p@, base@) is None,
        },
{
    if !path_starts_with(p, base) {
        return None;
    }
    let p_len = p.unicode_len();
    let base_len = base.unicode_len();
    if p_len == base_len {
        proof {
            assert(p@ =~= base@);
        }
        let r = String::new();
        proof {
            assert(r@ =~= Seq::<char>::empty());
        }
        return Some(r);
    }
    proof {
        assert(base@ != p@);
    }
    if p.get_char(base_len) == '/' {
        Some(p.substring_char(base_len + 1, p_len).to_owned())
    } else {
        Some(p.substring_char(base_len, p_len).to_owned())
    }
}

/// A path contains everything nested under it.
pub proof fn lemma_nest_prefix(root: Seq<char>, subdir: Seq<char>)
    ensures
        is_path_prefix(root, spec_nest_path(root, subdir)),
{
    let n = spec_nest_path(root, subdir);
    if root.len() > 0 && root[root.len() - 1] == '/' {
        assert(n.subrange(0, root.len() as int) =~= root);
    } else {
        assert(n.subrange(0, root.len() as int) =~= root);
        assert(n[root.len() as int] == '/');
    }
}

/// Component-wise prefixes compose.
pub proof fn lemma_prefix_trans(a: Seq<char>, b: Seq<char>, c: Seq<char>)
    requires
        is_path_prefix(a, b),
        is_path_prefix(b, c),
    ensures
        is_path_prefix(a, c),
{
    if a == b || b == c {
    } else {
        assert(c.subrange(0, a.len() as int) =~= b.subrange(0, a.len() as int));
    }
}

/// Two prefixes of one path are ordered: when `prot` is not above `d`, it
/// lies strictly below it.
pub proof fn lemma_prefix_sandwich(d: Seq<char>, prot: Seq<char>, v: Seq<char>)
    requires
        is_path_prefix(d, v),
        is_path_prefix(prot, v),
        !is_path_prefix(prot, d),
    ensures
        is_path_prefix(d, prot),
        prot.len() > d.len(),
{
    if prot.len() < d.len() {
        if d == v {
            assert(is_path_prefix(prot, d));
        } else {
            assert(prot =~= d.subrange(0, prot.len() as int));
            if prot == v {
            } else {
                assert(d[prot.len() as int] == v[prot.len() as int]);
                assert(is_path_prefix(prot, d));
            }
        }
    } else if prot.len() == d.len() {
        if d == v || prot == v {
            assert(prot =~= d);
        } else {
            assert(prot =~= d.subrange(0, prot.len() as int));
            assert(prot =~= d);
        }
        assert(is_path_prefix(prot, d));
    } else {
        // prot is longer: d heads prot at a component boundary.
        assert(d != v);
        if prot == v {
        } else {
            assert(prot.subrange(0, d.len() as int) =~= d);
            assert(prot[d.len() as int] == v[d.len() as int]);
        }
    }
}

/// Concatenate `root` and `subdir`, dropping a leading slash of `subdir`.
pub fn concat_path(root: &str, subdir: &str) -> (r: String)
    ensures
        r@ == spec_nest_path(root@, subdir@),
{
    let sub_len = subdir.unicode_len();
    let stripped: &str = if is_absolute(subdir) {
        subdir.substring_char(1, sub_len)
    } else {
        subdir
    };
    let root_len = root.unicode_len();
    let mut out = root.to_owned();
    if !(root_len > 0 && root.get_char(root_len - 1) == '/') {
        out.append("/");
    }
    out.append(stripped);
    proof {
        reveal_strlit("/");
        assert("/"@ =~= seq!['/']);
        if abs_path(subdir@) {
            assert(subdir@.subrange(1, subdir@.len() as int) =~= subdir@.drop_first());
        }
    }
    out
}

} // verus!
