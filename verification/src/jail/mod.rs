//! The mount-namespace engine.
//!
//! A jail is realized by a sequence of bind and tmpfs mounts.  This module
//! plans those mounts, models the namespace they produce, and states the
//! safety properties of the plan: protected destinations are refused,
//! read-only trees are sealed, and staged imports appear atomically or not at
//! all.

use vstd::prelude::*;

use crate::path::{abs_path, is_path_prefix, spec_relative_from, spec_nest_path};
use crate::path::{path_starts_with, path_relative_from, str_eq};
use crate::path::{lemma_nest_prefix, lemma_prefix_trans, lemma_prefix_sandwich};
use crate::jail::util::{nest_path, TmpWorkDir};

pub mod util;

verus! {

/// Mount attribute bits, as the kernel defines them.
pub const MS_RDONLY: u64 = 1;

pub const MS_NOSUID: u64 = 2;

pub const MS_NODEV: u64 = 4;

pub const MS_NOEXEC: u64 = 8;

pub const MS_REMOUNT: u64 = 32;

pub const MS_NOATIME: u64 = 1024;

pub const MS_NODIRATIME: u64 = 2048;

pub const MS_BIND: u64 = 4096;

pub const MS_MOVE: u64 = 8192;

pub const MS_REC: u64 = 16384;

pub const MS_PRIVATE: u64 = 262144;

pub const MS_RELATIME: u64 = 2097152;

/// Abstract value of a [`BindMount`].
pub ghost struct BindMountV {
    pub src: Seq<char>,
    pub dst: Seq<char>,
    pub writable: bool,
    pub from_parent: bool,
}

/// One bind mount of the realization plan: `src` is made visible at `dst`,
/// sealed read-only unless `writable`; `from_parent` sources it from the
/// parent-root stash during a domain transition.
pub struct BindMount {
    pub src: String,
    pub dst: String,
    pub writable: bool,
    pub from_parent: bool,
}

impl View for BindMount {
    type V = BindMountV;

    open spec fn view(&self) -> BindMountV {
        BindMountV {
            src: self.src@,
            dst: self.dst@,
            writable: self.writable,
            from_parent: self.from_parent,
        }
    }
}

impl BindMount {
    /// A read-only, same-namespace bind from `source` to `destination`.
    pub fn new(source: String, destination: String) -> (r: BindMount)
        ensures
            r@ == (BindMountV { src: source@, dst: destination@, writable: false, from_parent: false }),
    {
        BindMount { src: source, dst: destination, writable: false, from_parent: false }
    }

    /// Set whether the destination stays writable.
    pub fn writable(self, writable: bool) -> (r: BindMount)
        ensures
            r@ == (BindMountV { writable, ..self@ }),
    {
        BindMount { writable, ..self }
    }

    /// Set whether the source is taken from the parent-root stash.
    pub fn from_parent(self, from_parent: bool) -> (r: BindMount)
        ensures
            r@ == (BindMountV { from_parent, ..self@ }),
    {
        BindMount { from_parent, ..self }
    }

    /// An identical copy.
    pub fn duplicate(&self) -> (r: BindMount)
        ensures
            r@ == self@,
    {
        BindMount {
            src: self.src.clone(),
            dst: self.dst.clone(),
            writable: self.writable,
            from_parent: self.from_parent,
        }
    }
}

impl PartialEq for BindMount {
    fn eq(&self, o: &BindMount) -> (r: bool) {
        self.src == o.src && self.dst == o.dst && self.writable == o.writable && self.from_parent
            == o.from_parent
    }
}

impl vstd::std_specs::cmp::PartialEqSpecImpl for BindMount {
    open spec fn obeys_eq_spec() -> bool {
        true
    }

    open spec fn eq_spec(&self, o: &BindMount) -> bool {
        self@ == o@
    }
}

/// The abstract values of a sequence of bind mounts.
pub open spec fn binds_view(s: Seq<BindMount>) -> Seq<BindMountV> {
    s.map_values(|b: BindMount| b@)
}

/// Abstract value of a [`TmpfsMount`].
pub ghost struct TmpfsMountV {
    pub name: Option<Seq<char>>,
    pub dst: Seq<char>,
    pub is_root: bool,
}

/// A tmpfs mount: `is_root` resolves `dst` against the host, otherwise
/// against the jail root.
pub struct TmpfsMount {
    pub name: Option<String>,
    pub dst: String,
    pub is_root: bool,
}

impl View for TmpfsMount {
    type V = TmpfsMountV;

    open spec fn view(&self) -> TmpfsMountV {
        TmpfsMountV {
            name: match self.name {
                Some(ref n) => Some(n@),
                None => None,
            },
            dst: self.dst@,
            is_root: self.is_root,
        }
    }
}

impl TmpfsMount {
    /// An unlabeled tmpfs below the jail root.
    pub fn new(dst: String) -> (r: TmpfsMount)
        ensures
            r@ == (TmpfsMountV { name: None, dst: dst@, is_root: false }),
    {
        TmpfsMount { name: None, dst, is_root: false }
    }

    /// Label the tmpfs.
    pub fn name(self, name: &str) -> (r: TmpfsMount)
        ensures
            r@ == (TmpfsMountV { name: Some(name@), ..self@ }),
    {
        TmpfsMount { name: Some(name.to_owned()), ..self }
    }

    /// Set whether `dst` is resolved against the host.
    pub fn is_root(self, is_root: bool) -> (r: TmpfsMount)
        ensures
            r@ == (TmpfsMountV { is_root, ..self@ }),
    {
        TmpfsMount { is_root, ..self }
    }
}

/// Abstract value of a [`HostMount`].
pub ghost struct HostMountV {
    pub file: Seq<char>,
    pub read_only: bool,
    pub noatime: bool,
    pub nodiratime: bool,
    pub relatime: bool,
    pub nodev: bool,
    pub noexec: bool,
    pub nosuid: bool,
}

/// One mount point of the host namespace, as read from the mount table:
/// its location and the option bits a sealed bind must inherit.
pub struct HostMount {
    pub file: String,
    pub read_only: bool,
    pub noatime: bool,
    pub nodiratime: bool,
    pub relatime: bool,
    pub nodev: bool,
    pub noexec: bool,
    pub nosuid: bool,
}

impl View for HostMount {
    type V = HostMountV;

    open spec fn view(&self) -> HostMountV {
        HostMountV {
            file: self.file@,
            read_only: self.read_only,
            noatime: self.noatime,
            nodiratime: self.nodiratime,
            relatime: self.relatime,
            nodev: self.nodev,
            noexec: self.noexec,
            nosuid: self.nosuid,
        }
    }
}

/// The abstract values of a sequence of host mounts.
pub open spec fn hosts_view(s: Seq<HostMount>) -> Seq<HostMountV> {
    s.map_values(|h: HostMount| h@)
}

/// The bind derived for the submount at `file` of a read-only bind `b`: the
/// same attributes, with the destination shifted below `b.dst`.
pub open spec fn derived_bind(b: BindMountV, file: Seq<char>) -> BindMountV {
    BindMountV {
        src: file,
        dst: spec_nest_path(b.dst, match spec_relative_from(file, b.src) {
            Some(rel) => rel,
            None => file,
        }),
        writable: b.writable,
        from_parent: b.from_parent,
    }
}

/// Whether `file` is a strict submount of `b.src`.
pub open spec fn is_strict_submount(b: BindMountV, file: Seq<char>) -> bool {
    is_path_prefix(b.src, file) && file != b.src
}

/// The binds derived for every strict submount of `b.src`, in host order.
pub open spec fn spec_sub_binds(b: BindMountV, hosts: Seq<HostMountV>) -> Seq<BindMountV>
    decreases hosts.len(),
{
    if hosts.len() == 0 {
        Seq::empty()
    } else {
        let rest = spec_sub_binds(b, hosts.drop_last());
        if is_strict_submount(b, hosts.last().file) {
            rest.push(derived_bind(b, hosts.last().file))
        } else {
            rest
        }
    }
}

/// The full expansion of one bind: a writable bind stands alone, a read-only
/// bind is followed by a bind for each of its submounts.
pub open spec fn spec_expand_one(b: BindMountV, hosts: Seq<HostMountV>) -> Seq<BindMountV> {
    if b.writable {
        seq![b]
    } else {
        seq![b] + spec_sub_binds(b, hosts)
    }
}

/// Drop every previously planned bind whose destination the new destination
/// `dst` would mask.
pub open spec fn spec_mask(prev: Seq<BindMountV>, dst: Seq<char>) -> Seq<BindMountV> {
    prev.filter(|x: BindMountV| !is_path_prefix(dst, x.dst))
}

/// The expansion of a bind list: each bind in order is expanded across the
/// host submounts, masking what it overlaps.
pub open spec fn spec_expand_binds(binds: Seq<BindMountV>, hosts: Seq<HostMountV>) -> Seq<
    BindMountV,
>
    decreases binds.len(),
{
    if binds.len() == 0 {
        Seq::empty()
    } else {
        spec_mask(spec_expand_binds(binds.drop_last(), hosts), binds.last().dst) + spec_expand_one(
            binds.last(),
            hosts,
        )
    }
}

/// Whether some exclude path contains `file`.
pub open spec fn is_excluded(excludes: Seq<Seq<char>>, file: Seq<char>) -> bool {
    exists|i: int| 0 <= i < excludes.len() && is_path_prefix(excludes[i], file)
}

/// The host mounts that no exclude path contains.
pub open spec fn spec_filter_hosts(hosts: Seq<HostMountV>, excludes: Seq<Seq<char>>) -> Seq<
    HostMountV,
> {
    hosts.filter(|h: HostMountV| !is_excluded(excludes, h.file))
}

/// The abstract values of a sequence of strings.
pub open spec fn strs_view(s: Seq<String>) -> Seq<Seq<char>> {
    s.map_values(|x: String| x@)
}

impl HostMount {
    /// An identical copy.
    pub fn duplicate(&self) -> (r: HostMount)
        ensures
            r@ == self@,
    {
        HostMount {
            file: self.file.clone(),
            read_only: self.read_only,
            noatime: self.noatime,
            nodiratime: self.nodiratime,
            relatime: self.relatime,
            nodev: self.nodev,
            noexec: self.noexec,
            nosuid: self.nosuid,
        }
    }
}

/// Whether some exclude path contains `file`.
fn excluded(excludes: &Vec<String>, file: &str) -> (r: bool)
    ensures
        r == is_excluded(strs_view(excludes@), file@),
{
    let mut i: usize = 0;
    while i < excludes.len()
        invariant
            0 <= i <= excludes@.len(),
            forall|j: int| 0 <= j < i ==> !is_path_prefix(strs_view(excludes@)[j], file@),
        decreases excludes@.len() - i,
    {
        if path_starts_with(file, excludes[i].as_str()) {
            proof {
                assert(is_path_prefix(strs_view(excludes@)[i as int], file@));
            }
            return true;
        }
        i = i + 1;
    }
    false
}

/// Keep the host mounts that no exclude path contains.
fn filter_hosts(hosts: &Vec<HostMount>, excludes: &Vec<String>) -> (r: Vec<HostMount>)
    ensures
        hosts_view(r@) == spec_filter_hosts(hosts_view(hosts@), strs_view(excludes@)),
{
    let ghost pred = |h: HostMountV| !is_excluded(strs_view(excludes@), h.file);
    let mut out: Vec<HostMount> = Vec::new();
    let mut i: usize = 0;
    proof {
        reveal(Seq::filter);
        assert(hosts_view(hosts@.subrange(0, 0)) =~= Seq::<HostMountV>::empty());
        assert(hosts_view(out@) =~= hosts_view(hosts@.subrange(0, 0)).filter(pred));
    }
    while i < hosts.len()
        invariant
            0 <= i <= hosts@.len(),
            pred == (|h: HostMountV| !is_excluded(strs_view(excludes@), h.file)),
            hosts_view(out@) == hosts_view(hosts@.subrange(0, i as int)).filter(pred),
        decreases hosts@.len() - i,
    {
        let ghost prefix = hosts_view(hosts@.subrange(0, i as int));
        let ghost prefix1 = hosts_view(hosts@.subrange(0, i + 1));
        proof {
            reveal(Seq::filter);
            assert(prefix1.drop_last() =~= prefix);
            assert(prefix1.last() == hosts@[i as int]@);
        }
        if !excluded(excludes, hosts[i].file.as_str()) {
            let ghost out0 = hosts_view(out@);
            out.push(hosts[i].duplicate());
            proof {
                assert(hosts_view(out@) =~= out0.push(hosts@[i as int]@));
            }
        }
        proof {
            assert(hosts_view(out@) =~= prefix1.filter(pred));
        }
        i = i + 1;
    }
    proof {
        assert(hosts@.subrange(0, hosts@.len() as int) =~= hosts@);
    }
    out
}

/// Expand a bind list across the host mount table: a read-only bind is
/// completed with a bind for each pre-existing submount of its source, and a
/// later bind masks any earlier bind whose destination it overlaps.
pub fn expand_binds(binds: Vec<BindMount>, hosts: &Vec<HostMount>, excludes: &Vec<String>) -> (r:
    Vec<BindMount>)
    ensures
        binds_view(r@) == spec_expand_binds(
            binds_view(binds@),
            spec_filter_hosts(hosts_view(hosts@), strs_view(excludes@)),
        ),
{
    let filtered = filter_hosts(hosts, excludes);
    let ghost fhosts = hosts_view(filtered@);
    let mut all: Vec<BindMount> = Vec::new();
    let mut i: usize = 0;
    proof {
        assert(binds_view(binds@.subrange(0, 0)) =~= Seq::<BindMountV>::empty());
        assert(binds_view(all@) =~= spec_expand_binds(binds_view(binds@.subrange(0, 0)), fhosts));
    }
    while i < binds.len()
        invariant
            0 <= i <= binds@.len(),
            fhosts == hosts_view(filtered@),
            hosts_view(filtered@) == spec_filter_hosts(hosts_view(hosts@), strs_view(excludes@)),
            binds_view(all@) == spec_expand_binds(binds_view(binds@.subrange(0, i as int)), fhosts),
        decreases binds@.len() - i,
    {
        let ghost b = binds@[i as int]@;
        // Expand the current bind across the host submounts.
        let mut subs: Vec<BindMount> = Vec::new();
        subs.push(binds[i].duplicate());
        if !binds[i].writable {
            let mut j: usize = 0;
            proof {
                assert(fhosts.subrange(0, 0) =~= Seq::<HostMountV>::empty());
                assert(binds_view(subs@) =~= seq![b] + spec_sub_binds(b, fhosts.subrange(0, 0)));
            }
            while j < filtered.len()
                invariant
                    0 <= j <= filtered@.len(),
                    fhosts == hosts_view(filtered@),
                    b == binds@[i as int]@,
                    0 <= i < binds@.len(),
                    !b.writable,
                    binds_view(subs@) == seq![b] + spec_sub_binds(b, fhosts.subrange(0, j as int)),
                decreases filtered@.len() - j,
            {
                let ghost hpre = fhosts.subrange(0, j as int);
                let ghost hpre1 = fhosts.subrange(0, j + 1);
                proof {
                    assert(hpre1.drop_last() =~= hpre);
                    assert(hpre1.last() == fhosts[j as int]);
                }
                let hfile: &str = filtered[j].file.as_str();
                let bsrc: &str = binds[i].src.as_str();
                if path_starts_with(hfile, bsrc) && !str_eq(hfile, bsrc) {
                    match path_relative_from(hfile, bsrc) {
                        Some(rel) => {
                            let nb = BindMount::new(
                                filtered[j].file.clone(),
                                nest_path(binds[i].dst.as_str(), rel.as_str()),
                            ).writable(binds[i].writable).from_parent(binds[i].from_parent);
                            proof {
                                assert(nb@ == derived_bind(b, fhosts[j as int].file));
                            }
                            let ghost subs0 = binds_view(subs@);
                            subs.push(nb);
                            proof {
                                assert(binds_view(subs@) =~= subs0.push(nb@));
                                assert(binds_view(subs@) =~= seq![b] + spec_sub_binds(b, hpre1));
                            }
                        },
                        None => {
                            proof {
                                assert(false);
                            }
                        },
                    }
                } else {
                    proof {
                        assert(binds_view(subs@) =~= seq![b] + spec_sub_binds(b, hpre1));
                    }
                }
                j = j + 1;
            }
            proof {
                assert(fhosts.subrange(0, fhosts.len() as int) =~= fhosts);
            }
        }
        proof {
            assert(binds_view(subs@) =~= spec_expand_one(b, fhosts));
        }
        // Drop earlier binds that the current destination masks, keeping order.
        let ghost mask_pred = |x: BindMountV| !is_path_prefix(b.dst, x.dst);
        let mut new_all: Vec<BindMount> = Vec::new();
        let mut k: usize = 0;
        proof {
            reveal(Seq::filter);
            assert(binds_view(all@.subrange(0, 0)) =~= Seq::<BindMountV>::empty());
            assert(binds_view(new_all@) =~= binds_view(all@.subrange(0, 0)).filter(mask_pred));
        }
        while k < all.len()
            invariant
                0 <= k <= all@.len(),
                b == binds@[i as int]@,
                0 <= i < binds@.len(),
                mask_pred == (|x: BindMountV| !is_path_prefix(b.dst, x.dst)),
                binds_view(new_all@) == binds_view(all@.subrange(0, k as int)).filter(mask_pred),
            decreases all@.len() - k,
        {
            let ghost apre = binds_view(all@.subrange(0, k as int));
            let ghost apre1 = binds_view(all@.subrange(0, k + 1));
            proof {
                reveal(Seq::filter);
                assert(apre1.drop_last() =~= apre);
                assert(apre1.last() == all@[k as int]@);
            }
            if !path_starts_with(all[k].dst.as_str(), binds[i].dst.as_str()) {
                let ghost na0 = binds_view(new_all@);
                new_all.push(all[k].duplicate());
                proof {
                    assert(binds_view(new_all@) =~= na0.push(all@[k as int]@));
                }
            }
            proof {
                assert(binds_view(new_all@) =~= apre1.filter(mask_pred));
            }
            k = k + 1;
        }
        proof {
            assert(all@.subrange(0, all@.len() as int) =~= all@);
            assert(binds_view(new_all@) =~= spec_mask(binds_view(all@), b.dst));
        }
        // Append the expansion of the current bind.
        let ghost masked = binds_view(new_all@);
        let mut m: usize = 0;
        while m < subs.len()
            invariant
                0 <= m <= subs@.len(),
                binds_view(new_all@) == masked + binds_view(subs@).subrange(0, m as int),
            decreases subs@.len() - m,
        {
            let ghost na0 = binds_view(new_all@);
            new_all.push(subs[m].duplicate());
            proof {
                assert(binds_view(new_all@) =~= na0.push(binds_view(subs@)[m as int]));
                assert(binds_view(subs@).subrange(0, m + 1) =~= binds_view(subs@).subrange(
                    0,
                    m as int,
                ).push(binds_view(subs@)[m as int]));
                assert(binds_view(new_all@) =~= masked + binds_view(subs@).subrange(0, m + 1));
            }
            m = m + 1;
        }
        all = new_all;
        proof {
            assert(binds_view(subs@).subrange(0, subs@.len() as int) =~= binds_view(subs@));
            let pre1 = binds_view(binds@.subrange(0, i + 1));
            assert(pre1.drop_last() =~= binds_view(binds@.subrange(0, i as int)));
            assert(pre1.last() == b);
            assert(binds_view(all@) =~= spec_expand_binds(pre1, fhosts));
        }
        i = i + 1;
    }
    proof {
        assert(binds@.subrange(0, binds@.len() as int) =~= binds@);
    }
    all
}

/// No element of a list is masked by a later one: what a finished
/// expansion looks like.
pub open spec fn no_later_masks(l: Seq<BindMountV>) -> bool {
    forall|i: int, j: int|
        0 <= i < j < l.len() ==> !is_path_prefix(#[trigger] l[j].dst, #[trigger] l[i].dst)
}

/// Whether every bind of a list is writable.
pub open spec fn all_writable(l: Seq<BindMountV>) -> bool {
    forall|i: int| 0 <= i < l.len() ==> (#[trigger] l[i]).writable
}

/// Whether no bind of the list gains submounts when expanded: each one
/// expands to itself alone, because it is writable or because no host mount
/// lies strictly below its source.
pub open spec fn flat_binds(l: Seq<BindMountV>, hosts: Seq<HostMountV>) -> bool {
    forall|i: int| 0 <= i < l.len() ==> spec_expand_one(#[trigger] l[i], hosts) == seq![l[i]]
}

/// A writable plan is flat.
pub proof fn lemma_writable_is_flat(l: Seq<BindMountV>, hosts: Seq<HostMountV>)
    requires
        all_writable(l),
    ensures
        flat_binds(l, hosts),
{
}

/// Masking keeps a pairwise property and only elements that pass the mask.
proof fn lemma_mask_props(l: Seq<BindMountV>, dst: Seq<char>)
    ensures
        forall|i: int|
            0 <= i < spec_mask(l, dst).len() ==> !is_path_prefix(
                dst,
                (#[trigger] spec_mask(l, dst)[i]).dst,
            ),
        forall|i: int|
            0 <= i < spec_mask(l, dst).len() ==> l.contains(#[trigger] spec_mask(l, dst)[i]),
        no_later_masks(l) ==> no_later_masks(spec_mask(l, dst)),
{
    let pred = |x: BindMountV| !is_path_prefix(dst, x.dst);
    broadcast use vstd::seq_lib::group_filter_ensures;

    let m = spec_mask(l, dst);
    assert forall|i: int| 0 <= i < m.len() implies l.contains(#[trigger] m[i]) by {
        lemma_filter_member(l, pred, i);
    }
    if no_later_masks(l) {
        assert forall|i: int, j: int| 0 <= i < j < m.len() implies !is_path_prefix(
            #[trigger] m[j].dst,
            #[trigger] m[i].dst,
        ) by {
            // A filter is order-preserving: find the witnesses in `l`.
            lemma_filter_ordered_pair(l, pred, i, j);
        }
    }
}

/// Two positions of a filtered list come from two ordered positions of the
/// original.
proof fn lemma_filter_ordered_pair(
    l: Seq<BindMountV>,
    pred: spec_fn(BindMountV) -> bool,
    i: int,
    j: int,
)
    requires
        0 <= i < j < l.filter(pred).len(),
    ensures
        exists|a: int, b: int|
            0 <= a < b < l.len() && l[a] == l.filter(pred)[i] && l[b] == l.filter(pred)[j],
    decreases l.len(),
{
    reveal(Seq::filter);
    broadcast use vstd::seq_lib::group_filter_ensures;

    let f = l.filter(pred);
    if l.len() == 0 {
    } else {
        let rest = l.drop_last().filter(pred);
        if pred(l.last()) {
            if j < f.len() - 1 {
                lemma_filter_ordered_pair(l.drop_last(), pred, i, j);
                let (a, b) = choose|a: int, b: int|
                    0 <= a < b < l.drop_last().len() && l.drop_last()[a] == rest[i]
                        && l.drop_last()[b] == rest[j];
                assert(l[a] == f[i] && l[b] == f[j]);
            } else {
                // j is the freshly kept last element.
                if i < rest.len() {
                    lemma_filter_member(l.drop_last(), pred, i);
                    let a = choose|a: int|
                        0 <= a < l.drop_last().len() && l.drop_last()[a] == rest[i];
                    assert(l[a] == f[i]);
                    assert(l[l.len() - 1] == f[j]);
                }
            }
        } else {
            lemma_filter_ordered_pair(l.drop_last(), pred, i, j);
            let (a, b) = choose|a: int, b: int|
                0 <= a < b < l.drop_last().len() && l.drop_last()[a] == rest[i] && l.drop_last()[b]
                    == rest[j];
            assert(l[a] == f[i] && l[b] == f[j]);
        }
    }
}

/// Each element of a filtered list sits somewhere in the original.
proof fn lemma_filter_member(l: Seq<BindMountV>, pred: spec_fn(BindMountV) -> bool, i: int)
    requires
        0 <= i < l.filter(pred).len(),
    ensures
        exists|a: int| 0 <= a < l.len() && l[a] == l.filter(pred)[i],
    decreases l.len(),
{
    reveal(Seq::filter);
    let f = l.filter(pred);
    if l.len() == 0 {
    } else {
        let rest = l.drop_last().filter(pred);
        if pred(l.last()) && i == f.len() - 1 {
            assert(l[l.len() - 1] == f[i]);
        } else {
            lemma_filter_member(l.drop_last(), pred, i);
            let a = choose|a: int| 0 <= a < l.drop_last().len() && l.drop_last()[a] == rest[i];
            assert(l[a] == f[i]);
        }
    }
}

/// A mask that nothing matches keeps the list whole.
proof fn lemma_mask_identity(l: Seq<BindMountV>, dst: Seq<char>)
    requires
        forall|i: int| 0 <= i < l.len() ==> !is_path_prefix(dst, (#[trigger] l[i]).dst),
    ensures
        spec_mask(l, dst) == l,
    decreases l.len(),
{
    reveal(Seq::filter);
    if l.len() == 0 {
        assert(spec_mask(l, dst) =~= l);
    } else {
        assert(forall|i: int|
            0 <= i < l.drop_last().len() ==> !is_path_prefix(
                dst,
                (#[trigger] l.drop_last()[i]).dst,
            ));
        lemma_mask_identity(l.drop_last(), dst);
        assert(spec_mask(l, dst) =~= l.drop_last().push(l.last()));
        assert(l.drop_last().push(l.last()) =~= l);
    }
}

/// The expansion of a flat plan consists of members of the plan and leaves
/// no element masked by a later one.
proof fn lemma_expand_shape(binds: Seq<BindMountV>, hosts: Seq<HostMountV>)
    requires
        flat_binds(binds, hosts),
    ensures
        forall|i: int|
            0 <= i < spec_expand_binds(binds, hosts).len() ==> binds.contains(
                #[trigger] spec_expand_binds(binds, hosts)[i],
            ),
        no_later_masks(spec_expand_binds(binds, hosts)),
    decreases binds.len(),
{
    if binds.len() == 0 {
    } else {
        assert(flat_binds(binds.drop_last(), hosts)) by {
            assert(forall|i: int|
                0 <= i < binds.drop_last().len() ==> #[trigger] binds.drop_last()[i]
                    == binds[i]);
        }
        lemma_expand_shape(binds.drop_last(), hosts);
        let prev = spec_expand_binds(binds.drop_last(), hosts);
        let b = binds.last();
        let masked = spec_mask(prev, b.dst);
        lemma_mask_props(prev, b.dst);
        assert(spec_expand_one(b, hosts) == seq![b]);
        let e = spec_expand_binds(binds, hosts);
        assert(e == masked + seq![b]);
        assert forall|i: int, j: int| 0 <= i < j < e.len() implies !is_path_prefix(
            #[trigger] e[j].dst,
            #[trigger] e[i].dst,
        ) by {
            if j < masked.len() {
                assert(e[i] == masked[i] && e[j] == masked[j]);
            } else {
                assert(e[j] == b);
                assert(e[i] == masked[i]);
            }
        }
        assert forall|i: int| 0 <= i < e.len() implies binds.contains(#[trigger] e[i]) by {
            if i < masked.len() {
                assert(e[i] == masked[i]);
                assert(prev.contains(masked[i]));
                let w = choose|w: int| 0 <= w < prev.len() && prev[w] == masked[i];
                assert(binds.drop_last().contains(prev[w]));
                let v = choose|v: int|
                    0 <= v < binds.drop_last().len() && binds.drop_last()[v] == prev[w];
                assert(binds[v] == e[i]);
            } else {
                assert(e[i] == b);
                assert(binds[binds.len() - 1] == b);
            }
        }
    }
}

/// A finished flat expansion expands to itself.
#[verifier::rlimit(50)]
proof fn lemma_expand_fixed(l: Seq<BindMountV>, hosts: Seq<HostMountV>)
    requires
        flat_binds(l, hosts),
        no_later_masks(l),
    ensures
        spec_expand_binds(l, hosts) == l,
    decreases l.len(),
{
    if l.len() == 0 {
        assert(spec_expand_binds(l, hosts) =~= l);
    } else {
        assert(flat_binds(l.drop_last(), hosts) && no_later_masks(l.drop_last())) by {
            assert(forall|i: int|
                0 <= i < l.drop_last().len() ==> #[trigger] l.drop_last()[i] == l[i]);
        }
        lemma_expand_fixed(l.drop_last(), hosts);
        let b = l.last();
        assert(forall|i: int|
            0 <= i < l.drop_last().len() ==> !is_path_prefix(
                b.dst,
                (#[trigger] l.drop_last()[i]).dst,
            )) by {
            assert(forall|i: int|
                0 <= i < l.drop_last().len() ==> #[trigger] l.drop_last()[i] == l[i]);
        }
        lemma_mask_identity(l.drop_last(), b.dst);
        assert(spec_expand_one(b, hosts) == seq![b]);
        assert(spec_expand_binds(l, hosts) =~= l.drop_last().push(b));
        assert(l.drop_last().push(b) =~= l);
    }
}

/// Expanding a flat plan is idempotent: when no bind of the plan gains
/// submounts from the host table — each is writable, or nothing is mounted
/// strictly below its source — running the expansion again over the same
/// host table gives the same list back.
pub proof fn lemma_expand_binds_idempotent(binds: Seq<BindMountV>, hosts: Seq<HostMountV>)
    requires
        flat_binds(binds, hosts),
    ensures
        spec_expand_binds(spec_expand_binds(binds, hosts), hosts) == spec_expand_binds(
            binds,
            hosts,
        ),
{
    lemma_expand_shape(binds, hosts);
    let e = spec_expand_binds(binds, hosts);
    assert(flat_binds(e, hosts)) by {
        assert forall|i: int| 0 <= i < e.len() implies spec_expand_one(#[trigger] e[i], hosts)
            == seq![e[i]] by {
            assert(binds.contains(e[i]));
            let w = choose|w: int| 0 <= w < binds.len() && binds[w] == e[i];
            assert(spec_expand_one(binds[w], hosts) == seq![binds[w]]);
        }
    }
    lemma_expand_fixed(e, hosts);
}

/// Why a mount-engine operation was refused.
#[derive(Clone, Copy, Debug, PartialEq, Eq, Structural)]
pub enum JailError {
    /// The jail has no working directory yet.
    NoWorkdir,
    /// A parent-side source lies under a protected path.
    ParentAccessDenied,
    /// The destination would overlay a protected path.
    ProtectedDestination,
    /// A mount system call failed while staging.
    MountFailure,
    /// Moving the staged tree onto its destination failed.
    MoveFailure,
}

impl JailError {
    /// A short reason for logs and client replies.
    pub fn message(&self) -> (r: String)
        ensures
            r@ == (match self {
                JailError::NoWorkdir => "No workdir"@,
                JailError::ParentAccessDenied => "Access denied"@,
                JailError::ProtectedDestination => "Can't overlays"@,
                JailError::MountFailure => "Failed to bind mount a submount point"@,
                JailError::MoveFailure => "Failed to move the temporary mount point"@,
            }),
    {
        let m: &str = match self {
            JailError::NoWorkdir => "No workdir",
            JailError::ParentAccessDenied => "Access denied",
            JailError::ProtectedDestination => "Can't overlays",
            JailError::MountFailure => "Failed to bind mount a submount point",
            JailError::MoveFailure => "Failed to move the temporary mount point",
        };
        m.to_owned()
    }
}

/// Abstract value of a [`MountOp`].
pub ghost enum MountOpV {
    /// Create the destination with the source's type (directory or file).
    EnsureDst { src: Seq<char>, dst: Seq<char> },
    /// `mount(src, dst, "none", flags)`.
    Bind { src: Seq<char>, dst: Seq<char>, flags: u64 },
    /// `mount("none", dst, "none", flags)`.
    Remount { dst: Seq<char>, flags: u64 },
    /// Mount a fresh tmpfs labeled `name` at `dst`, mode 0700.
    Tmpfs { name: Seq<char>, dst: Seq<char> },
    /// Mount a fresh procfs at `dst`.
    Procfs { dst: Seq<char> },
    /// Create the symbolic link `dst` pointing at `src`.
    Symlink { src: Seq<char>, dst: Seq<char> },
    /// Create the directory and its parents.
    Mkdir { path: Seq<char> },
    /// Change the working directory.
    Chdir { path: Seq<char> },
    /// `pivot_root(new_root, put_old)`.
    PivotRoot { new_root: Seq<char>, put_old: Seq<char> },
    /// `mount(src, dst, "none", MS_MOVE)`.
    Move { src: Seq<char>, dst: Seq<char> },
}

/// One step of a mount plan, to be performed in order by the supervisor.
pub enum MountOp {
    EnsureDst { src: String, dst: String },
    Bind { src: String, dst: String, flags: u64 },
    Remount { dst: String, flags: u64 },
    Tmpfs { name: String, dst: String },
    Procfs { dst: String },
    Symlink { src: String, dst: String },
    Mkdir { path: String },
    Chdir { path: String },
    PivotRoot { new_root: String, put_old: String },
    Move { src: String, dst: String },
}

impl View for MountOp {
    type V = MountOpV;

    open spec fn view(&self) -> MountOpV {
        match self {
            MountOp::EnsureDst { src, dst } => MountOpV::EnsureDst { src: src@, dst: dst@ },
            MountOp::Bind { src, dst, flags } => MountOpV::Bind {
                src: src@,
                dst: dst@,
                flags: *flags,
            },
            MountOp::Remount { dst, flags } => MountOpV::Remount { dst: dst@, flags: *flags },
            MountOp::Tmpfs { name, dst } => MountOpV::Tmpfs { name: name@, dst: dst@ },
            MountOp::Procfs { dst } => MountOpV::Procfs { dst: dst@ },
            MountOp::Symlink { src, dst } => MountOpV::Symlink { src: src@, dst: dst@ },
            MountOp::Mkdir { path } => MountOpV::Mkdir { path: path@ },
            MountOp::Chdir { path } => MountOpV::Chdir { path: path@ },
            MountOp::PivotRoot { new_root, put_old } => MountOpV::PivotRoot {
                new_root: new_root@,
                put_old: put_old@,
            },
            MountOp::Move { src, dst } => MountOpV::Move { src: src@, dst: dst@ },
        }
    }
}

/// The abstract values of a sequence of mount operations.
pub open spec fn ops_view(s: Seq<MountOp>) -> Seq<MountOpV> {
    s.map_values(|o: MountOp| o@)
}

/// The deepest host mount containing `path`; a later table entry wins a tie.
pub open spec fn spec_best_mount(hosts: Seq<HostMountV>, path: Seq<char>) -> Option<HostMountV>
    decreases hosts.len(),
{
    if hosts.len() == 0 {
        None
    } else {
        let rest = spec_best_mount(hosts.drop_last(), path);
        let last = hosts.last();
        if is_path_prefix(last.file, path) && (rest is None || rest->0.file.len()
            <= last.file.len()) {
            Some(last)
        } else {
            rest
        }
    }
}

/// The mount option bits a sealed destination inherits from its source's
/// mount point, as `do_remount` in the kernel reads them.
pub open spec fn spec_seal_flags(m: Option<HostMountV>) -> u64 {
    match m {
        None => 0,
        Some(m) => ((if m.noatime {
            MS_NOATIME
        } else {
            0
        }) | (if m.nodiratime {
            MS_NODIRATIME
        } else {
            0
        }) | (if m.relatime {
            MS_RELATIME
        } else {
            0
        }) | (if m.nodev {
            MS_NODEV
        } else {
            0
        }) | (if m.noexec {
            MS_NOEXEC
        } else {
            0
        }) | (if m.nosuid {
            MS_NOSUID
        } else {
            0
        }) | (if m.read_only {
            MS_RDONLY
        } else {
            0
        })) as u64,
    }
}

/// The deepest host mount containing `path`.
fn best_mount(hosts: &Vec<HostMount>, path: &str) -> (r: Option<HostMount>)
    ensures
        match r {
            Some(m) => spec_best_mount(hosts_view(hosts@), path@) == Some(m@),
            None => spec_best_mount(hosts_view(hosts@), path@) is None,
        },
{
    let mut best: Option<HostMount> = None;
    let mut i: usize = 0;
    proof {
        assert(hosts_view(hosts@.subrange(0, 0)) =~= Seq::<HostMountV>::empty());
    }
    while i < hosts.len()
        invariant
            0 <= i <= hosts@.len(),
            match best {
                Some(m) => spec_best_mount(hosts_view(hosts@.subrange(0, i as int)), path@)
                    == Some(m@),
                None => spec_best_mount(hosts_view(hosts@.subrange(0, i as int)), path@) is None,
            },
        decreases hosts@.len() - i,
    {
        let ghost pre1 = hosts_view(hosts@.subrange(0, i + 1));
        proof {
            assert(pre1.drop_last() =~= hosts_view(hosts@.subrange(0, i as int)));
            assert(pre1.last() == hosts@[i as int]@);
        }
        let better = if path_starts_with(path, hosts[i].file.as_str()) {
            match &best {
                Some(b) => b.file.unicode_len() <= hosts[i].file.unicode_len(),
                None => true,
            }
        } else {
            false
        };
        if better {
            best = Some(hosts[i].duplicate());
        }
        i = i + 1;
    }
    proof {
        assert(hosts@.subrange(0, hosts@.len() as int) =~= hosts@);
    }
    best
}

/// The option bits a sealed destination inherits from the source's mount.
fn seal_flags(m: &Option<HostMount>) -> (r: u64)
    ensures
        r == spec_seal_flags(match m {
            Some(m) => Some(m@),
            None => None,
        }),
{
    match m {
        None => 0,
        Some(m) => {
            let a: u64 = if m.noatime {
                MS_NOATIME
            } else {
                0
            };
            let b: u64 = if m.nodiratime {
                MS_NODIRATIME
            } else {
                0
            };
            let c: u64 = if m.relatime {
                MS_RELATIME
            } else {
                0
            };
            let d: u64 = if m.nodev {
                MS_NODEV
            } else {
                0
            };
            let e: u64 = if m.noexec {
                MS_NOEXEC
            } else {
                0
            };
            let g: u64 = if m.nosuid {
                MS_NOSUID
            } else {
                0
            };
            let h: u64 = if m.read_only {
                MS_RDONLY
            } else {
                0
            };
            a | b | c | d | e | g | h
        },
    }
}

/// The mount operations that realize one bind of the plan.
pub open spec fn spec_add_bind_ops(
    b: BindMountV,
    root: Seq<char>,
    is_abs: bool,
    hosts: Seq<HostMountV>,
) -> Seq<MountOpV> {
    let dst = if is_abs {
        b.dst
    } else {
        spec_nest_path(root, b.dst)
    };
    let base = seq![
        MountOpV::EnsureDst { src: b.src, dst },
        MountOpV::Bind { src: b.src, dst, flags: (MS_BIND | MS_REC) as u64 },
    ];
    if b.writable {
        base
    } else {
        base + seq![
            MountOpV::Remount { dst, flags: (MS_PRIVATE | MS_REC) as u64 },
            MountOpV::Remount {
                dst,
                flags: (MS_BIND | MS_REMOUNT | MS_RDONLY | spec_seal_flags(
                    spec_best_mount(hosts, b.src),
                )) as u64,
            },
        ]
    }
}

/// Plan the mounts for one bind: create the destination, bind recursively,
/// and, for a read-only bind, seal the tree private and remount it read-only
/// with the option bits observed on the source.
pub fn add_bind_ops(bind: &BindMount, root: &str, is_abs: bool, hosts: &Vec<HostMount>) -> (r: Vec<
    MountOp,
>)
    ensures
        ops_view(r@) == spec_add_bind_ops(bind@, root@, is_abs, hosts_view(hosts@)),
{
    let dst: String = if is_abs {
        bind.dst.clone()
    } else {
        nest_path(root, bind.dst.as_str())
    };
    let mut ops: Vec<MountOp> = Vec::new();
    ops.push(MountOp::EnsureDst { src: bind.src.clone(), dst: dst.clone() });
    ops.push(MountOp::Bind { src: bind.src.clone(), dst: dst.clone(), flags: MS_BIND | MS_REC });
    if !bind.writable {
        ops.push(MountOp::Remount { dst: dst.clone(), flags: MS_PRIVATE | MS_REC });
        let from_src = best_mount(hosts, bind.src.as_str());
        let extra = seal_flags(&from_src);
        ops.push(
            MountOp::Remount { dst, flags: MS_BIND | MS_REMOUNT | MS_RDONLY | extra },
        );
    }
    proof {
        assert(ops_view(ops@) =~= spec_add_bind_ops(bind@, root@, is_abs, hosts_view(hosts@)));
    }
    ops
}

/// Read-only binds are sealed: the plan for a non-writable bind ends with a
/// remount whose flags carry the read-only bit.
pub proof fn lemma_read_only_bind_sealed(
    b: BindMountV,
    root: Seq<char>,
    is_abs: bool,
    hosts: Seq<HostMountV>,
)
    requires
        !b.writable,
    ensures
        spec_add_bind_ops(b, root, is_abs, hosts).last() matches MountOpV::Remount { flags, .. }
            && flags & MS_RDONLY == MS_RDONLY,
{
    let extra = spec_seal_flags(spec_best_mount(hosts, b.src));
    assert((MS_BIND | MS_REMOUNT | MS_RDONLY | extra) & MS_RDONLY == MS_RDONLY) by (bit_vector);
}

/// Append a vector of operations to a plan.
fn append_ops(dst: &mut Vec<MountOp>, src: Vec<MountOp>)
    ensures
        ops_view(final(dst)@) == ops_view(old(dst)@) + ops_view(src@),
{
    let mut i: usize = 0;
    let ghost base = ops_view(dst@);
    while i < src.len()
        invariant
            0 <= i <= src@.len(),
            ops_view(dst@) == base + ops_view(src@).subrange(0, i as int),
        decreases src@.len() - i,
    {
        let ghost d0 = ops_view(dst@);
        let op = match &src[i] {
            MountOp::EnsureDst { src, dst } => MountOp::EnsureDst {
                src: src.clone(),
                dst: dst.clone(),
            },
            MountOp::Bind { src, dst, flags } => MountOp::Bind {
                src: src.clone(),
                dst: dst.clone(),
                flags: *flags,
            },
            MountOp::Remount { dst, flags } => MountOp::Remount { dst: dst.clone(), flags: *flags },
            MountOp::Tmpfs { name, dst } => MountOp::Tmpfs { name: name.clone(), dst: dst.clone() },
            MountOp::Procfs { dst } => MountOp::Procfs { dst: dst.clone() },
            MountOp::Symlink { src, dst } => MountOp::Symlink {
                src: src.clone(),
                dst: dst.clone(),
            },
            MountOp::Mkdir { path } => MountOp::Mkdir { path: path.clone() },
            MountOp::Chdir { path } => MountOp::Chdir { path: path.clone() },
            MountOp::PivotRoot { new_root, put_old } => MountOp::PivotRoot {
                new_root: new_root.clone(),
                put_old: put_old.clone(),
            },
            MountOp::Move { src, dst } => MountOp::Move { src: src.clone(), dst: dst.clone() },
        };
        proof {
            assert(op@ == src@[i as int]@);
        }
        dst.push(op);
        proof {
            assert(ops_view(dst@) =~= d0.push(src@[i as int]@));
            assert(base + ops_view(src@).subrange(0, i + 1) =~= d0.push(src@[i as int]@));
        }
        i = i + 1;
    }
    proof {
        assert(ops_view(src@).subrange(0, src@.len() as int) =~= ops_view(src@));
    }
}

/// Append a vector of binds to another.
fn append_binds(dst: &mut Vec<BindMount>, src: &Vec<BindMount>)
    ensures
        binds_view(final(dst)@) == binds_view(old(dst)@) + binds_view(src@),
{
    let mut i: usize = 0;
    let ghost base = binds_view(dst@);
    while i < src.len()
        invariant
            0 <= i <= src@.len(),
            binds_view(dst@) == base + binds_view(src@).subrange(0, i as int),
        decreases src@.len() - i,
    {
        let ghost d0 = binds_view(dst@);
        dst.push(src[i].duplicate());
        proof {
            assert(binds_view(dst@) =~= d0.push(src@[i as int]@));
            assert(base + binds_view(src@).subrange(0, i + 1) =~= d0.push(src@[i as int]@));
        }
        i = i + 1;
    }
    proof {
        assert(binds_view(src@).subrange(0, src@.len() as int) =~= binds_view(src@));
    }
}

/// The directory of the parent-root stash, relative to the jail's workdir.
pub fn workdir_parent() -> (r: String)
    ensures
        r@ == "./parent"@,
{
    String::from_str("./parent")
}

/// Whether `p` lies at or below one of the engine's protected trees, `/dev`
/// and `/proc`.
pub open spec fn spec_under_protected(p: Seq<char>) -> bool {
    is_path_prefix("/dev"@, p) || is_path_prefix("/proc"@, p)
}

/// Whether `p` lies at or below a protected tree.
pub fn under_protected(p: &str) -> (r: bool)
    ensures
        r == spec_under_protected(p@),
{
    path_starts_with(p, "/dev") || path_starts_with(p, "/proc")
}

/// The paths that no bind may source from the parent or overlay.
pub fn protected_paths() -> (r: Vec<String>)
    ensures
        strs_view(r@) == seq!["/dev"@, "/proc"@],
{
    let mut v: Vec<String> = Vec::new();
    v.push(String::from_str("/dev"));
    v.push(String::from_str("/proc"));
    proof {
        assert(strs_view(v@) =~= seq!["/dev"@, "/proc"@]);
    }
    v
}

/// The model of the mount namespace a jail observes: the bind mounts in
/// place, in the order they appeared.
pub struct MountNs {
    pub mounts: Vec<BindMount>,
}

impl MountNs {
    /// An empty namespace.
    pub fn new() -> (r: MountNs)
        ensures
            binds_view(r.mounts@) == Seq::<BindMountV>::empty(),
    {
        let r = MountNs { mounts: Vec::new() };
        proof {
            assert(binds_view(r.mounts@) =~= Seq::<BindMountV>::empty());
        }
        r
    }

    /// Commit a staged import.  `applied` of the staged binds succeeded; the
    /// move onto the destination succeeded when `move_ok`.  Either every
    /// staged bind was applied and moved, and the plan's mounts appear at
    /// their destinations all at once, or the namespace is left exactly as it
    /// was: an observer never sees a half-populated destination.
    pub fn import_commit(&mut self, plan: &ImportPlan, applied: usize, move_ok: bool) -> (r: Result<
        (),
        JailError,
    >)
        requires
            applied <= plan.staged@.len(),
        ensures
            match r {
                Ok(()) => {
                    &&& applied == plan.staged@.len()
                    &&& move_ok
                    &&& binds_view(final(self).mounts@) == binds_view(old(self).mounts@)
                        + binds_view(plan.visible@)
                },
                Err(e) => {
                    &&& binds_view(final(self).mounts@) == binds_view(old(self).mounts@)
                    &&& (e == JailError::MountFailure || e == JailError::MoveFailure)
                    &&& (e == JailError::MountFailure <==> applied < plan.staged@.len())
                    &&& (e == JailError::MoveFailure <==> applied == plan.staged@.len()
                        && !move_ok)
                },
            },
    {
        if applied < plan.staged.len() {
            return Err(JailError::MountFailure);
        }
        if !move_ok {
            return Err(JailError::MoveFailure);
        }
        append_binds(&mut self.mounts, &plan.visible);
        Ok(())
    }
}

/// A staged import: the binds to apply under the staging directory, what
/// becomes visible at the destination after the move, and the operations
/// that realize it.
pub struct ImportPlan {
    /// The staging directory, relative to the jail's workdir.
    pub staging_dir: String,
    /// The expanded binds, retargeted into the staging directory.
    pub staged: Vec<BindMount>,
    /// The same binds at their final destinations.
    pub visible: Vec<BindMount>,
    /// The operations to perform: the staged binds, then one move.
    pub ops: Vec<MountOp>,
}

/// A staged bind's source, seen from inside the jail: a parent-side source
/// is rewritten to the parent stash.
pub open spec fn spec_import_remap(m: BindMountV, parent: Seq<char>) -> BindMountV {
    if m.from_parent {
        BindMountV {
            src: spec_nest_path("./parent"@, match spec_relative_from(m.src, parent) {
                Some(rel) => rel,
                None => m.src,
            }),
            ..m
        }
    } else {
        m
    }
}

/// The expansion an import works from: the bind, its source moved behind
/// the parent stash when parent-sided, expanded across the host mounts
/// outside the workdir.
pub open spec fn spec_import_expanded(
    bind: BindMountV,
    wd: Seq<char>,
    hosts: Seq<HostMountV>,
) -> Seq<BindMountV> {
    let parent = spec_nest_path(wd, "./parent"@);
    let tb = if bind.from_parent {
        BindMountV {
            src: spec_nest_path(parent, bind.src),
            dst: bind.dst,
            writable: bind.writable,
            from_parent: true,
        }
    } else {
        bind
    };
    let excl: Seq<Seq<char>> = if bind.from_parent {
        Seq::empty()
    } else {
        seq![wd]
    };
    spec_expand_binds(seq![tb], spec_filter_hosts(hosts, excl))
}

/// What a successful import makes visible at the destination: the expansion,
/// each source remapped to the parent stash when parent-sided.  This depends
/// on the arguments alone, unlike the randomly named staging directory.
pub open spec fn spec_import_visible(
    bind: BindMountV,
    wd: Seq<char>,
    hosts: Seq<HostMountV>,
) -> Seq<BindMountV> {
    spec_import_expanded(bind, wd, hosts).map_values(
        |m: BindMountV| spec_import_remap(m, spec_nest_path(wd, "./parent"@)),
    )
}

/// The operations applying each staged bind at its absolute destination.
pub open spec fn spec_staged_ops(sb: Seq<BindMountV>, root: Seq<char>, hosts: Seq<HostMountV>) -> Seq<
    MountOpV,
>
    decreases sb.len(),
{
    if sb.len() == 0 {
        Seq::empty()
    } else {
        spec_staged_ops(sb.drop_last(), root, hosts) + spec_add_bind_ops(
            sb.last(),
            root,
            true,
            hosts,
        )
    }
}

/// Every bind of a one-bind expansion keeps the attributes of the bind it
/// came from, and its source and destination stay at or under the original's.
pub proof fn lemma_sub_binds_shape(b: BindMountV, hosts: Seq<HostMountV>)
    ensures
        forall|i: int|
            0 <= i < spec_sub_binds(b, hosts).len() ==> {
                let e = #[trigger] spec_sub_binds(b, hosts)[i];
                &&& e.writable == b.writable
                &&& e.from_parent == b.from_parent
                &&& is_path_prefix(b.src, e.src)
                &&& is_path_prefix(b.dst, e.dst)
            },
    decreases hosts.len(),
{
    if hosts.len() == 0 {
    } else {
        lemma_sub_binds_shape(b, hosts.drop_last());
        let s = spec_sub_binds(b, hosts);
        let rest = spec_sub_binds(b, hosts.drop_last());
        if is_strict_submount(b, hosts.last().file) {
            let e = derived_bind(b, hosts.last().file);
            lemma_nest_prefix(b.dst, match spec_relative_from(hosts.last().file, b.src) {
                Some(rel) => rel,
                None => hosts.last().file,
            });
            assert(s == rest.push(e));
            assert forall|i: int| 0 <= i < s.len() implies {
                let x = #[trigger] s[i];
                &&& x.writable == b.writable
                &&& x.from_parent == b.from_parent
                &&& is_path_prefix(b.src, x.src)
                &&& is_path_prefix(b.dst, x.dst)
            } by {
                if i < rest.len() {
                    assert(s[i] == rest[i]);
                } else {
                    assert(s[i] == e);
                }
            }
        } else {
            assert(s == rest);
        }
    }
}

/// The expansion of a single bind starts with the bind itself, and every
/// element keeps its attributes with source and destination at or under it.
pub proof fn lemma_expand_single(b: BindMountV, hosts: Seq<HostMountV>)
    ensures
        spec_expand_binds(seq![b], hosts).len() >= 1,
        spec_expand_binds(seq![b], hosts)[0] == b,
        forall|i: int|
            0 <= i < spec_expand_binds(seq![b], hosts).len() ==> {
                let e = #[trigger] spec_expand_binds(seq![b], hosts)[i];
                &&& e.writable == b.writable
                &&& e.from_parent == b.from_parent
                &&& is_path_prefix(b.src, e.src)
                &&& is_path_prefix(b.dst, e.dst)
            },
{
    let s = seq![b];
    assert(s.drop_last() =~= Seq::<BindMountV>::empty());
    assert(spec_expand_binds(s.drop_last(), hosts) == Seq::<BindMountV>::empty());
    assert(spec_mask(Seq::<BindMountV>::empty(), b.dst) =~= Seq::<BindMountV>::empty());
    assert(spec_expand_binds(s, hosts) =~= spec_expand_one(b, hosts));
    lemma_sub_binds_shape(b, hosts);
    if !b.writable {
        assert forall|i: int| 0 <= i < spec_expand_one(b, hosts).len() implies {
            let e = #[trigger] spec_expand_one(b, hosts)[i];
            &&& e.writable == b.writable
            &&& e.from_parent == b.from_parent
            &&& is_path_prefix(b.src, e.src)
            &&& is_path_prefix(b.dst, e.dst)
        } by {
            if i > 0 {
                assert(spec_expand_one(b, hosts)[i] == spec_sub_binds(b, hosts)[i - 1]);
            }
        }
    }
}

/// The mount operations that create one tmpfs.
pub open spec fn spec_add_tmpfs_ops(t: TmpfsMountV, root: Seq<char>) -> Seq<MountOpV> {
    let name = match t.name {
        Some(n) => n,
        None => "tmpfs"@,
    };
    let dst = if t.is_root {
        t.dst
    } else {
        spec_nest_path(root, t.dst)
    };
    seq![MountOpV::Mkdir { path: dst }, MountOpV::Tmpfs { name, dst }]
}

/// Plan the mounts for one tmpfs: create the directory, then mount a fresh
/// tmpfs over it.
pub fn add_tmpfs_ops(tmp: &TmpfsMount, root: &str) -> (r: Vec<MountOp>)
    ensures
        ops_view(r@) == spec_add_tmpfs_ops(tmp@, root@),
{
    let name: String = match &tmp.name {
        Some(n) => n.clone(),
        None => String::from_str("tmpfs"),
    };
    let dst: String = if tmp.is_root {
        tmp.dst.clone()
    } else {
        nest_path(root, tmp.dst.as_str())
    };
    let mut ops: Vec<MountOp> = Vec::new();
    ops.push(MountOp::Mkdir { path: dst.clone() });
    ops.push(MountOp::Tmpfs { name, dst });
    proof {
        assert(ops_view(ops@) =~= spec_add_tmpfs_ops(tmp@, root@));
    }
    ops
}

/// The supervisor's live state: the jail's identity, its staging root on the
/// host, its current domain realization, its declared tmpfs mounts, and the
/// model of the mounts its namespace holds.
pub struct Jail {
    pub name: String,
    pub root: String,
    pub jdom: crate::config::profile::JailDom,
    pub tmps: Vec<TmpfsMount>,
    pub workdir: Option<String>,
    pub confined: bool,
    pub ns: MountNs,
}

impl Jail {
    /// A fresh jail: its staging root is anchored at the supervisor's
    /// per-process `fdinfo` directory, which is private, kernel-created and
    /// always present.
    pub fn new(
        name: String,
        jdom: crate::config::profile::JailDom,
        tmps: Vec<TmpfsMount>,
        pid: u64,
        confined: bool,
    ) -> (r: Jail)
        ensures
            r.name@ == name@,
            r.jdom@ == jdom@,
            r.tmps@ == tmps@,
            r.workdir is None,
            r.confined == confined,
            binds_view(r.ns.mounts@) == Seq::<BindMountV>::empty(),
            r.root@ == "/proc/"@ + crate::text::spec_dec(pid as int) + "/fdinfo"@,
    {
        let mut root = String::from_str("/proc/");
        root.append(crate::text::u64_to_dec(pid).as_str());
        root.append("/fdinfo");
        Jail { name, root, jdom, tmps, workdir: None, confined, ns: MountNs::new() }
    }

    /// Whether the jail refuses unconfined helpers.
    pub fn is_confined(&self) -> (r: bool)
        ensures
            r == self.confined,
    {
        self.confined
    }

    /// Plan the import of one bind.  The bind is validated against the
    /// protected trees, expanded across the host submounts, and retargeted
    /// into a fresh staging directory; the final operation moves the staged
    /// tree onto the destination in one step.
    pub fn import_plan(&self, bind: &BindMount, create_dst: bool, hosts: &Vec<HostMount>) -> (r:
        Result<ImportPlan, JailError>)
        ensures
            self.workdir is None ==> r == Err::<ImportPlan, JailError>(JailError::NoWorkdir),
            self.workdir is Some && bind@.from_parent && spec_under_protected(bind@.src) ==> r
                == Err::<ImportPlan, JailError>(JailError::ParentAccessDenied),
            self.workdir is Some && !(bind@.from_parent && spec_under_protected(bind@.src))
                && spec_under_protected(bind@.dst) ==> r == Err::<ImportPlan, JailError>(
                JailError::ProtectedDestination,
            ),
            r is Ok ==> {
                let plan = r->Ok_0;
                &&& self.workdir is Some
                &&& !spec_under_protected(bind@.dst)
                &&& (bind@.from_parent ==> !spec_under_protected(bind@.src))
                &&& plan.visible@.len() >= 1
                &&& plan.staged@.len() == plan.visible@.len()
                &&& binds_view(plan.visible@)[0].dst == bind@.dst
                &&& forall|i: int|
                    0 <= i < plan.visible@.len() ==> {
                        let v = #[trigger] binds_view(plan.visible@)[i];
                        &&& v.writable == bind@.writable
                        &&& v.from_parent == bind@.from_parent
                        &&& is_path_prefix(bind@.dst, v.dst)
                    }
            },
            r is Ok <==> self.workdir is Some && !(bind@.from_parent && spec_under_protected(
                bind@.src,
            )) && !spec_under_protected(bind@.dst),
            r is Ok ==> {
                let plan = r->Ok_0;
                let wd = self.workdir->0@;
                let parent = spec_nest_path(wd, "./parent"@);
                let tb = if bind@.from_parent {
                    BindMountV {
                        src: spec_nest_path(parent, bind@.src),
                        dst: bind@.dst,
                        writable: bind@.writable,
                        from_parent: true,
                    }
                } else {
                    bind@
                };
                let excl: Seq<Seq<char>> = if bind@.from_parent {
                    Seq::empty()
                } else {
                    seq![wd]
                };
                let expanded = spec_expand_binds(
                    seq![tb],
                    spec_filter_hosts(hosts_view(hosts@), excl),
                );
                &&& plan.visible@.len() == expanded.len()
                &&& forall|i: int|
                    0 <= i < plan.visible@.len() ==> (#[trigger] binds_view(plan.visible@)[i]).dst
                        == expanded[i].dst
            },
            r is Ok ==> {
                let plan = r->Ok_0;
                let wd = self.workdir->0@;
                &&& binds_view(plan.visible@) == spec_import_visible(
                    bind@,
                    wd,
                    hosts_view(hosts@),
                )
                &&& forall|i: int|
                    0 <= i < plan.staged@.len() ==> #[trigger] binds_view(plan.staged@)[i] == (
                    BindMountV {
                        dst: spec_nest_path(
                            plan.staging_dir@,
                            match spec_relative_from(
                                binds_view(plan.visible@)[i].dst,
                                bind@.dst,
                            ) {
                                Some(rel) => rel,
                                None => binds_view(plan.visible@)[i].dst,
                            },
                        ),
                        ..binds_view(plan.visible@)[i]
                    })
                &&& ops_view(plan.ops@) == spec_staged_ops(
                    binds_view(plan.staged@),
                    self.root@,
                    hosts_view(hosts@),
                ) + (if create_dst {
                    seq![MountOpV::EnsureDst { src: plan.staging_dir@, dst: bind@.dst }]
                } else {
                    Seq::<MountOpV>::empty()
                }) + seq![MountOpV::Move { src: plan.staging_dir@, dst: bind@.dst }]
            },
    {
        let workdir: String = match &self.workdir {
            Some(w) => w.clone(),
            None => {
                return Err(JailError::NoWorkdir);
            },
        };
        if bind.from_parent && under_protected(bind.src.as_str()) {
            return Err(JailError::ParentAccessDenied);
        }
        if under_protected(bind.dst.as_str()) {
            return Err(JailError::ProtectedDestination);
        }
        let parent = nest_path(workdir.as_str(), "./parent");
        proof {
            assert(self.workdir->0@ == workdir@);
        }
        let mut excludes: Vec<String> = Vec::new();
        let tmp_bind: BindMount;
        if bind.from_parent {
            tmp_bind = BindMount {
                src: nest_path(parent.as_str(), bind.src.as_str()),
                dst: bind.dst.clone(),
                writable: bind.writable,
                from_parent: true,
            };
        } else {
            excludes.push(workdir.clone());
            tmp_bind = bind.duplicate();
        }
        let tmp_dir = TmpWorkDir::new("mount");
        let mut one: Vec<BindMount> = Vec::new();
        one.push(tmp_bind.duplicate());
        let ghost fhosts = spec_filter_hosts(hosts_view(hosts@), strs_view(excludes@));
        proof {
            if bind@.from_parent {
                assert(strs_view(excludes@) =~= Seq::<Seq<char>>::empty());
            } else {
                assert(strs_view(excludes@) =~= seq![workdir@]);
            }
        }
        let expanded = expand_binds(one, hosts, &excludes);
        proof {
            assert(binds_view(one@) =~= seq![tmp_bind@]);
            lemma_expand_single(tmp_bind@, fhosts);
            assert(binds_view(expanded@) == spec_import_expanded(
                bind@,
                workdir@,
                hosts_view(hosts@),
            ));
        }
        let ghost sdir = tmp_dir.spec_path();
        let mut staged: Vec<BindMount> = Vec::new();
        let mut visible: Vec<BindMount> = Vec::new();
        let mut ops: Vec<MountOp> = Vec::new();
        let mut i: usize = 0;
        while i < expanded.len()
            invariant
                0 <= i <= expanded@.len(),
                staged@.len() == i,
                visible@.len() == i,
                tmp_bind@.dst == bind@.dst,
                tmp_bind@.writable == bind@.writable,
                tmp_bind@.from_parent == bind@.from_parent,
                bind@.from_parent ==> tmp_bind@.src == spec_nest_path(parent@, bind@.src),
                forall|j: int|
                    0 <= j < expanded@.len() ==> {
                        let e = #[trigger] binds_view(expanded@)[j];
                        &&& e.writable == tmp_bind@.writable
                        &&& e.from_parent == tmp_bind@.from_parent
                        &&& is_path_prefix(tmp_bind@.src, e.src)
                        &&& is_path_prefix(tmp_bind@.dst, e.dst)
                    },
                binds_view(expanded@)[0] == tmp_bind@,
                forall|j: int|
                    0 <= j < i ==> {
                        let v = #[trigger] binds_view(visible@)[j];
                        &&& v.writable == bind@.writable
                        &&& v.from_parent == bind@.from_parent
                        &&& is_path_prefix(bind@.dst, v.dst)
                        &&& v.dst == binds_view(expanded@)[j].dst
                    },
                sdir == tmp_dir.spec_path(),
                forall|j: int|
                    0 <= j < i ==> #[trigger] binds_view(visible@)[j] == spec_import_remap(
                        binds_view(expanded@)[j],
                        parent@,
                    ),
                forall|j: int|
                    0 <= j < i ==> #[trigger] binds_view(staged@)[j] == (BindMountV {
                        dst: spec_nest_path(
                            sdir,
                            match spec_relative_from(
                                binds_view(visible@)[j].dst,
                                bind@.dst,
                            ) {
                                Some(rel) => rel,
                                None => binds_view(visible@)[j].dst,
                            },
                        ),
                        ..binds_view(visible@)[j]
                    }),
                ops_view(ops@) == spec_staged_ops(
                    binds_view(staged@),
                    self.root@,
                    hosts_view(hosts@),
                ),
            decreases expanded@.len() - i,
        {
            let m = &expanded[i];
            proof {
                assert(binds_view(expanded@)[i as int] == m@);
            }
            let src: String = if m.from_parent {
                proof {
                    lemma_nest_prefix(parent@, bind@.src);
                    lemma_prefix_trans(parent@, tmp_bind@.src, m@.src);
                }
                match path_relative_from(m.src.as_str(), parent.as_str()) {
                    Some(rel) => nest_path("./parent", rel.as_str()),
                    None => vstd::pervasive::unreached(),
                }
            } else {
                m.src.clone()
            };
            let rel_dst: String = match path_relative_from(m.dst.as_str(), bind.dst.as_str()) {
                Some(r) => r,
                None => vstd::pervasive::unreached(),
            };
            let sdst = nest_path(tmp_dir.path(), rel_dst.as_str());
            let sbind = BindMount {
                src: src.clone(),
                dst: sdst,
                writable: m.writable,
                from_parent: m.from_parent,
            };
            proof {
                assert(sbind@ == (BindMountV {
                    dst: spec_nest_path(sdir, rel_dst@),
                    src: src@,
                    writable: m@.writable,
                    from_parent: m@.from_parent,
                }));
            }
            append_ops(&mut ops, add_bind_ops(&sbind, self.root.as_str(), true, hosts));
            let ghost st0 = binds_view(staged@);
            staged.push(sbind);
            proof {
                assert(binds_view(staged@) =~= st0.push(binds_view(staged@).last()));
                assert(binds_view(staged@).drop_last() =~= st0);
                assert(ops_view(ops@) =~= spec_staged_ops(
                    binds_view(staged@),
                    self.root@,
                    hosts_view(hosts@),
                ));
            }
            let ghost vi0 = binds_view(visible@);
            let vbind = BindMount {
                src,
                dst: m.dst.clone(),
                writable: m.writable,
                from_parent: m.from_parent,
            };
            proof {
                assert(vbind@ == spec_import_remap(m@, parent@));
            }
            visible.push(vbind);
            proof {
                assert(binds_view(visible@) =~= vi0.push(
                    BindMountV {
                        src: binds_view(visible@).last().src,
                        dst: m@.dst,
                        writable: m@.writable,
                        from_parent: m@.from_parent,
                    },
                ));
            }
            i = i + 1;
        }
        proof {
            assert(binds_view(visible@) =~= spec_import_visible(
                bind@,
                workdir@,
                hosts_view(hosts@),
            ));
        }
        let ghost tail0 = ops_view(ops@);
        if create_dst {
            ops.push(
                MountOp::EnsureDst { src: tmp_dir.path().to_owned(), dst: bind.dst.clone() },
            );
            proof {
                assert(ops_view(ops@) =~= tail0.push(
                    MountOpV::EnsureDst { src: sdir, dst: bind@.dst },
                ));
            }
        }
        let ghost tail1 = ops_view(ops@);
        ops.push(MountOp::Move { src: tmp_dir.path().to_owned(), dst: bind.dst.clone() });
        proof {
            assert(ops_view(ops@) =~= tail1.push(MountOpV::Move { src: sdir, dst: bind@.dst }));
            assert(ops_view(ops@) =~= tail0 + (if create_dst {
                seq![MountOpV::EnsureDst { src: sdir, dst: bind@.dst }]
            } else {
                Seq::<MountOpV>::empty()
            }) + seq![MountOpV::Move { src: sdir, dst: bind@.dst }]);
        }
        Ok(ImportPlan { staging_dir: tmp_dir.path().to_owned(), staged, visible, ops })
    }

    /// Import one bind atomically: plan it, stage it, and move it into
    /// place.  `applied` says how many staged binds the supervisor mounted
    /// successfully, `move_ok` whether the final move succeeded.  Success is
    /// owed exactly when the bind is valid, every staged bind was applied
    /// and the move went through; a failed staging mount surfaces as a
    /// mount failure, a failed move as a move failure with the original
    /// destination untouched — either way the set of visible mounts is
    /// exactly what it was before the call.
    pub fn import_bind(
        &mut self,
        bind: &BindMount,
        create_dst: bool,
        hosts: &Vec<HostMount>,
        applied: usize,
        move_ok: bool,
    ) -> (r: Result<(), JailError>)
        ensures
            final(self).jdom@ == old(self).jdom@,
            final(self).workdir == old(self).workdir,
            final(self).confined == old(self).confined,
            final(self).root@ == old(self).root@,
            r is Err ==> binds_view(final(self).ns.mounts@) == binds_view(old(self).ns.mounts@),
            old(self).workdir is None ==> r == Err::<(), JailError>(JailError::NoWorkdir),
            old(self).workdir is Some && bind@.from_parent && spec_under_protected(bind@.src)
                ==> r == Err::<(), JailError>(JailError::ParentAccessDenied),
            old(self).workdir is Some && !(bind@.from_parent && spec_under_protected(bind@.src))
                && spec_under_protected(bind@.dst) ==> r == Err::<(), JailError>(
                JailError::ProtectedDestination,
            ),
            ({
                let valid = old(self).workdir is Some && !(bind@.from_parent
                    && spec_under_protected(bind@.src)) && !spec_under_protected(bind@.dst);
                let visible = spec_import_visible(
                    bind@,
                    old(self).workdir->0@,
                    hosts_view(hosts@),
                );
                &&& (r is Ok <==> valid && move_ok && applied >= visible.len())
                &&& valid && applied < visible.len() ==> r == Err::<(), JailError>(
                    JailError::MountFailure,
                )
                &&& valid && applied >= visible.len() && !move_ok ==> r == Err::<(), JailError>(
                    JailError::MoveFailure,
                )
                &&& r is Ok ==> binds_view(final(self).ns.mounts@) == binds_view(
                    old(self).ns.mounts@,
                ) + visible
            }),
    {
        let plan = match self.import_plan(bind, create_dst, hosts) {
            Ok(p) => p,
            Err(e) => {
                return Err(e);
            },
        };
        proof {
            assert(binds_view(plan.visible@) == spec_import_visible(
                bind@,
                old(self).workdir->0@,
                hosts_view(hosts@),
            ));
            assert(plan.staged@.len() == plan.visible@.len());
        }
        let applied = if applied <= plan.staged.len() {
            applied
        } else {
            plan.staged.len()
        };
        self.ns.import_commit(&plan, applied, move_ok)
    }

    /// A live domain transition.  The pool is asked for a domain reachable
    /// from the current one that also grants `acl`; the binds it adds are
    /// imported from the parent stash and the domain is committed.  The
    /// transition is monotone: every mount the jail held stays in place, the
    /// new domain covers everything the old one granted, and each newly
    /// granted bind becomes visible.  On refusal the jail is unchanged.
    /// A live domain transition.  The pool's deterministic pick for the
    /// current accesses plus the request decides everything: no pick refuses;
    /// the jail's own identity short-circuits with nothing to do; otherwise
    /// the binds the new domain adds are imported from the parent stash in
    /// order, `outcomes[i]` saying whether the i-th import succeeded (an
    /// outcome not yet reported counts as success, so planning may pass an
    /// empty list).  The domain commits only when every import succeeded;
    /// on a failed import the already-imported binds stay mounted — a
    /// transition never removes anything — and the domain reverts.
    pub fn gain_access(
        &mut self,
        acl: Vec<crate::pool::FileAccess>,
        pool: &crate::pool::ResPool,
        outcomes: &Vec<bool>,
    ) -> (r: Result<Vec<BindMount>, ()>)
        ensures
            final(self).workdir == old(self).workdir,
            final(self).confined == old(self).confined,
            final(self).root@ == old(self).root@,
            ({
                let pick = crate::pool::spec_allow(
                    crate::pool::doms_view(pool.doms@),
                    old(self).jdom@.dom.acl + crate::pool::acl_view(acl@),
                );
                &&& pick is None ==> r is Err && final(self).jdom@ == old(self).jdom@
                    && binds_view(final(self).ns.mounts@) == binds_view(old(self).ns.mounts@)
                &&& pick matches Some(d) ==> {
                    &&& d.name == old(self).jdom@.dom.name ==> (r matches Ok(v) && v@.len() == 0
                        && final(self).jdom@ == old(self).jdom@ && binds_view(
                        final(self).ns.mounts@,
                    ) == binds_view(old(self).ns.mounts@))
                    &&& d.name != old(self).jdom@.dom.name ==> {
                    let diff = spec_diff(
                        crate::config::profile::spec_domain_binds(d.acl),
                        old(self).jdom@.binds,
                    );
                    &&& spec_diff_protected(diff) ==> r is Err && final(self).jdom@ == old(
                        self,
                    ).jdom@ && binds_view(final(self).ns.mounts@) == binds_view(
                        old(self).ns.mounts@,
                    )
                    &&& (!spec_diff_protected(diff) && (forall|i: int|
                        0 <= i < diff.len() ==> spec_outcome(outcomes@, i))) ==> (r matches Ok(v)
                        && binds_view(v@) == diff && final(self).jdom@
                        == (crate::config::profile::JailDomV {
                        binds: crate::config::profile::spec_domain_binds(d.acl),
                        dom: d,
                    }) && binds_view(final(self).ns.mounts@) == binds_view(old(self).ns.mounts@)
                        + diff)
                    &&& (!spec_diff_protected(diff) && (exists|i: int|
                        0 <= i < diff.len() && !spec_outcome(outcomes@, i))) ==> r is Err
                        && final(self).jdom@ == old(self).jdom@ && exists|ff: int|
                        0 <= ff < diff.len() && !spec_outcome(outcomes@, ff) && (forall|j: int|
                            0 <= j < ff ==> spec_outcome(outcomes@, j)) && binds_view(
                            final(self).ns.mounts@,
                        ) == binds_view(old(self).ns.mounts@) + diff.subrange(0, ff)
                    }
                }
            }),
    {
        let reached = pool.reachable(&self.jdom.dom, &acl);
        match reached {
            None => Err(()),
            Some(dom) => {
                if dom.is_same(&self.jdom.dom) {
                    // The jail's own identity already grants the access.
                    return Ok(Vec::new());
                }
                let new_jdom = crate::config::profile::from_domain(dom);
                let added = match diff_binds(&new_jdom.binds, &self.jdom.binds) {
                    Ok(v) => v,
                    Err(()) => {
                        proof {
                            assert(binds_view(new_jdom.binds@)
                                == crate::config::profile::spec_domain_binds(dom@.acl));
                            assert(binds_view(self.jdom.binds@) == old(self).jdom@.binds);
                            assert(crate::pool::spec_allow(
                                crate::pool::doms_view(pool.doms@),
                                old(self).jdom@.dom.acl + crate::pool::acl_view(acl@),
                            ) == Some(dom@));
                            assert(spec_diff_protected(
                                spec_diff(
                                    crate::config::profile::spec_domain_binds(dom@.acl),
                                    old(self).jdom@.binds,
                                ),
                            ));
                        }
                        return Err(());
                    },
                };
                proof {
                    assert(crate::pool::spec_allow(
                        crate::pool::doms_view(pool.doms@),
                        old(self).jdom@.dom.acl + crate::pool::acl_view(acl@),
                    ) == Some(dom@));
                    assert(binds_view(added@) == spec_diff(
                        crate::config::profile::spec_domain_binds(dom@.acl),
                        old(self).jdom@.binds,
                    ));
                }
                let mut k: usize = 0;
                while k < added.len()
                    invariant
                        0 <= k <= added@.len(),
                        crate::pool::spec_allow(
                            crate::pool::doms_view(pool.doms@),
                            old(self).jdom@.dom.acl + crate::pool::acl_view(acl@),
                        ) == Some(dom@),
                        dom@.name != old(self).jdom@.dom.name,
                        binds_view(added@) == spec_diff(
                            crate::config::profile::spec_domain_binds(dom@.acl),
                            old(self).jdom@.binds,
                        ),
                        !spec_diff_protected(binds_view(added@)),
                        binds_view(self.ns.mounts@) == binds_view(old(self).ns.mounts@)
                            + binds_view(added@).subrange(0, k as int),
                        forall|j: int| 0 <= j < k ==> spec_outcome(outcomes@, j),
                        self.jdom == old(self).jdom,
                        self.workdir == old(self).workdir,
                        self.confined == old(self).confined,
                        self.root == old(self).root,
                    decreases added@.len() - k,
                {
                    let ok = k >= outcomes.len() || outcomes[k];
                    if !ok {
                        // This import failed: what was imported before it
                        // stays, the domain does not change.
                        proof {
                            assert(!spec_outcome(outcomes@, k as int));
                        }
                        return Err(());
                    }
                    let ghost n0 = binds_view(self.ns.mounts@);
                    self.ns.mounts.push(added[k].duplicate());
                    proof {
                        assert(binds_view(self.ns.mounts@) =~= n0.push(
                            binds_view(added@)[k as int],
                        ));
                        assert(binds_view(added@).subrange(0, k + 1) =~= binds_view(
                            added@,
                        ).subrange(0, k as int).push(binds_view(added@)[k as int]));
                    }
                    k = k + 1;
                }
                proof {
                    assert(binds_view(added@).subrange(0, added@.len() as int) =~= binds_view(
                        added@,
                    ));
                }
                self.jdom = new_jdom;
                Ok(added)
            },
        }
    }

    /// The binds a transition for `acl` would import, without touching the
    /// jail: what `gain_access` imports once the supervisor has applied
    /// them.  Refuses exactly when the pool picks nothing or some added
    /// bind reaches a protected tree; the jail's own identity yields an
    /// empty plan.
    pub fn transition_binds(
        &self,
        acl: &Vec<crate::pool::FileAccess>,
        pool: &crate::pool::ResPool,
    ) -> (r: Result<Vec<BindMount>, ()>)
        ensures
            ({
                let pick = crate::pool::spec_allow(
                    crate::pool::doms_view(pool.doms@),
                    self.jdom@.dom.acl + crate::pool::acl_view(acl@),
                );
                &&& pick is None ==> r is Err
                &&& pick matches Some(d) ==> {
                    &&& d.name == self.jdom@.dom.name ==> (r matches Ok(v) && v@.len() == 0)
                    &&& d.name != self.jdom@.dom.name ==> {
                        let diff = spec_diff(
                            crate::config::profile::spec_domain_binds(d.acl),
                            self.jdom@.binds,
                        );
                        &&& spec_diff_protected(diff) ==> r is Err
                        &&& !spec_diff_protected(diff) ==> (r matches Ok(v) && binds_view(v@)
                            == diff)
                    }
                }
            }),
    {
        let mut req: Vec<crate::pool::FileAccess> = Vec::new();
        let mut i: usize = 0;
        while i < acl.len()
            invariant
                0 <= i <= acl@.len(),
                crate::pool::acl_view(req@) == crate::pool::acl_view(acl@.subrange(0, i as int)),
            decreases acl@.len() - i,
        {
            let ghost r0 = crate::pool::acl_view(req@);
            req.push(acl[i].duplicate());
            proof {
                assert(crate::pool::acl_view(req@) =~= r0.push(acl@[i as int]@));
                assert(crate::pool::acl_view(acl@.subrange(0, i + 1)) =~= r0.push(
                    acl@[i as int]@,
                ));
            }
            i = i + 1;
        }
        proof {
            assert(acl@.subrange(0, acl@.len() as int) =~= acl@);
        }
        let reached = pool.reachable(&self.jdom.dom, &req);
        match reached {
            None => Err(()),
            Some(dom) => {
                if dom.is_same(&self.jdom.dom) {
                    return Ok(Vec::new());
                }
                let new_jdom = crate::config::profile::from_domain(dom);
                diff_binds(&new_jdom.binds, &self.jdom.binds)
            },
        }
    }
}

/// Whether an outcome list reports position `i` as successful: an outcome
/// not yet reported counts as success.
pub open spec fn spec_outcome(outcomes: Seq<bool>, i: int) -> bool {
    i >= outcomes.len() || outcomes[i]
}

/// The binds a transition to a domain with realization `binds` adds over
/// `old`: each bind not already planned, sourced from the parent stash.
pub open spec fn spec_diff(binds: Seq<BindMountV>, old: Seq<BindMountV>) -> Seq<BindMountV>
    decreases binds.len(),
{
    if binds.len() == 0 {
        Seq::empty()
    } else {
        let rest = spec_diff(binds.drop_last(), old);
        if old.contains(binds.last()) {
            rest
        } else {
            rest.push(BindMountV { from_parent: true, ..binds.last() })
        }
    }
}

/// Whether some added bind reaches a protected tree.
pub open spec fn spec_diff_protected(diff: Seq<BindMountV>) -> bool {
    exists|i: int|
        0 <= i < diff.len() && (spec_under_protected(#[trigger] diff[i].dst)
            || spec_under_protected(diff[i].src))
}

/// A shorter prefix of the realization yields a prefix of the diff.
proof fn lemma_spec_diff_prefix(binds: Seq<BindMountV>, old: Seq<BindMountV>, n: int)
    requires
        0 <= n <= binds.len(),
    ensures
        spec_diff(binds.subrange(0, n), old).len() <= spec_diff(binds, old).len(),
        forall|k: int|
            0 <= k < spec_diff(binds.subrange(0, n), old).len() ==> #[trigger] spec_diff(
                binds.subrange(0, n),
                old,
            )[k] == spec_diff(binds, old)[k],
    decreases binds.len() - n,
{
    if n == binds.len() {
        assert(binds.subrange(0, n) =~= binds);
    } else {
        lemma_spec_diff_prefix(binds, old, n + 1);
        let pre1 = binds.subrange(0, n + 1);
        assert(pre1.drop_last() =~= binds.subrange(0, n));
        assert(pre1.last() == binds[n]);
        let dn = spec_diff(binds.subrange(0, n), old);
        let dn1 = spec_diff(pre1, old);
        assert forall|k: int| 0 <= k < dn.len() implies #[trigger] dn[k] == spec_diff(
            binds,
            old,
        )[k] by {
            assert(dn[k] == dn1[k]);
            assert(dn1[k] == spec_diff(binds, old)[k]);
        }
    }
}

/// The added binds of a transition, refused when one reaches a protected
/// tree.
fn diff_binds(new_binds: &Vec<BindMount>, old: &Vec<BindMount>) -> (r: Result<Vec<BindMount>, ()>)
    ensures
        ({
            let diff = spec_diff(binds_view(new_binds@), binds_view(old@));
            &&& (r is Err <==> spec_diff_protected(diff))
            &&& r matches Ok(v) ==> binds_view(v@) == diff
        }),
{
    let ghost full = spec_diff(binds_view(new_binds@), binds_view(old@));
    let mut out: Vec<BindMount> = Vec::new();
    let mut i: usize = 0;
    proof {
        assert(binds_view(new_binds@).subrange(0, 0) =~= Seq::<BindMountV>::empty());
        assert(binds_view(out@) =~= spec_diff(
            binds_view(new_binds@).subrange(0, 0),
            binds_view(old@),
        ));
    }
    while i < new_binds.len()
        invariant
            0 <= i <= new_binds@.len(),
            full == spec_diff(binds_view(new_binds@), binds_view(old@)),
            binds_view(out@) == spec_diff(
                binds_view(new_binds@).subrange(0, i as int),
                binds_view(old@),
            ),
            forall|idx: int|
                0 <= idx < binds_view(out@).len() ==> !(spec_under_protected(
                    (#[trigger] binds_view(out@)[idx]).dst,
                ) || spec_under_protected(binds_view(out@)[idx].src)),
        decreases new_binds@.len() - i,
    {
        proof {
            let pre1 = binds_view(new_binds@).subrange(0, i + 1);
            assert(pre1.drop_last() =~= binds_view(new_binds@).subrange(0, i as int));
            assert(pre1.last() == new_binds@[i as int]@);
        }
        if !binds_contain(old, &new_binds[i]) {
            let nb = new_binds[i].duplicate().from_parent(true);
            if under_protected(nb.dst.as_str()) || under_protected(nb.src.as_str()) {
                proof {
                    let pre1 = binds_view(new_binds@).subrange(0, i + 1);
                    let d1 = spec_diff(pre1, binds_view(old@));
                    assert(d1.last() == nb@);
                    lemma_spec_diff_prefix(binds_view(new_binds@), binds_view(old@), i + 1);
                    assert(d1[d1.len() - 1] == nb@);
                    assert(full[d1.len() - 1] == nb@);
                    assert(spec_under_protected(nb@.dst) || spec_under_protected(nb@.src));
                    assert(full[d1.len() - 1].dst == nb@.dst && full[d1.len() - 1].src == nb@.src);
                    assert(spec_under_protected(full[d1.len() - 1].dst) || spec_under_protected(
                        full[d1.len() - 1].src,
                    ));
                    assert(spec_diff_protected(full));
                }
                return Err(());
            }
            let ghost o0 = binds_view(out@);
            out.push(nb);
            proof {
                assert(binds_view(out@) =~= o0.push(binds_view(out@).last()));
                assert forall|idx: int| 0 <= idx < binds_view(out@).len() implies !(
                spec_under_protected(#[trigger] binds_view(out@)[idx].dst) || spec_under_protected(
                    binds_view(out@)[idx].src,
                )) by {
                    if idx < o0.len() {
                        assert(binds_view(out@)[idx] == o0[idx]);
                        assert(!(spec_under_protected(o0[idx].dst) || spec_under_protected(
                            o0[idx].src,
                        )));
                    } else {
                        assert(binds_view(out@)[idx] == nb@);
                    }
                }
            }
        }
        i = i + 1;
    }
    proof {
        assert(binds_view(new_binds@).subrange(0, new_binds@.len() as int) =~= binds_view(
            new_binds@,
        ));
        assert(!spec_diff_protected(binds_view(out@)));
    }
    Ok(out)
}

/// The abstract values of a sequence of tmpfs mounts.
pub open spec fn tmps_view(s: Seq<TmpfsMount>) -> Seq<TmpfsMountV> {
    s.map_values(|t: TmpfsMount| t@)
}

/// The operations applying each bind of a list, in order.
pub open spec fn spec_binds_ops(es: Seq<BindMountV>, root: Seq<char>, hosts: Seq<HostMountV>) -> Seq<
    MountOpV,
>
    decreases es.len(),
{
    if es.len() == 0 {
        Seq::empty()
    } else {
        spec_binds_ops(es.drop_last(), root, hosts) + spec_add_bind_ops(
            es.last(),
            root,
            false,
            hosts,
        )
    }
}

/// The operations creating each tmpfs of a list, in order.
pub open spec fn spec_tmps_ops(ts: Seq<TmpfsMountV>, root: Seq<char>) -> Seq<MountOpV>
    decreases ts.len(),
{
    if ts.len() == 0 {
        Seq::empty()
    } else {
        spec_tmps_ops(ts.drop_last(), root) + spec_add_tmpfs_ops(ts.last(), root)
    }
}

/// The operations of one writable device bind below the jail root.
pub open spec fn spec_dev_bind_ops(root: Seq<char>, hosts: Seq<HostMountV>, p: Seq<char>) -> Seq<
    MountOpV,
> {
    spec_add_bind_ops(
        BindMountV { src: p, dst: spec_nest_path(root, p), writable: true, from_parent: false },
        root,
        true,
        hosts,
    )
}

/// The operations populating the jail's `/dev`: a fresh tmpfs, the basic
/// writable device binds, the terminal if one is given, the `fd` and
/// `random` links, a tmpfs for `shm`, and a read-only seal over the whole
/// tree.
pub open spec fn spec_init_dev_ops(
    root: Seq<char>,
    tty: Option<Seq<char>>,
    hosts: Seq<HostMountV>,
) -> Seq<MountOpV> {
    let devdir = spec_nest_path(root, "/dev"@);
    seq![MountOpV::Mkdir { path: devdir }] + spec_add_tmpfs_ops(
        TmpfsMountV { name: Some("dev"@), dst: "/dev"@, is_root: false },
        root,
    ) + spec_dev_bind_ops(root, hosts, "/dev/null"@) + spec_dev_bind_ops(root, hosts, "/dev/zero"@)
        + spec_dev_bind_ops(root, hosts, "/dev/full"@) + spec_dev_bind_ops(
        root,
        hosts,
        "/dev/urandom"@,
    ) + (match tty {
        Some(p) => spec_dev_bind_ops(root, hosts, p),
        None => Seq::empty(),
    }) + seq![
        MountOpV::Symlink { src: "/proc/self/fd"@, dst: spec_nest_path(devdir, "fd"@) },
        MountOpV::Symlink { src: "urandom"@, dst: spec_nest_path(devdir, "random"@) },
    ] + spec_add_tmpfs_ops(
        TmpfsMountV { name: Some("shm"@), dst: spec_nest_path("/dev"@, "shm"@), is_root: false },
        root,
    ) + seq![
        MountOpV::Remount { dst: devdir, flags: (MS_BIND | MS_REMOUNT | MS_RDONLY) as u64 },
    ]
}

/// The whole file-system initialization plan, in its strict order: the
/// staging-root tmpfs, the expanded binds, the declared tmpfs mounts, a
/// fresh procfs, the device tree, the per-process workdir with its
/// parent-root stash, the pivot, and the final move that hides the workdir.
pub open spec fn spec_init_fs_plan(
    root: Seq<char>,
    binds: Seq<BindMountV>,
    tmps: Seq<TmpfsMountV>,
    hosts: Seq<HostMountV>,
    pid: int,
    tty: Option<Seq<char>>,
) -> Seq<MountOpV> {
    let wd = "proc/"@ + crate::text::spec_dec(pid) + "/fdinfo"@;
    let wb = "proc/"@ + crate::text::spec_dec(pid) + "/fd"@;
    let parent = spec_nest_path(wd, "./parent"@);
    let expanded = spec_expand_binds(
        binds,
        spec_filter_hosts(hosts, seq!["/dev"@, "/proc"@, root]),
    );
    spec_add_tmpfs_ops(TmpfsMountV { name: Some("root"@), dst: root, is_root: true }, root)
        + spec_binds_ops(expanded, root, hosts) + seq![MountOpV::Chdir { path: root }]
        + spec_tmps_ops(tmps, root) + seq![
        MountOpV::Mkdir { path: spec_nest_path(root, "proc"@) },
        MountOpV::Procfs { dst: spec_nest_path(root, "proc"@) },
    ] + spec_init_dev_ops(root, tty, hosts) + spec_add_bind_ops(
        BindMountV { src: wd, dst: wb, writable: true, from_parent: false },
        root,
        true,
        hosts,
    ) + spec_add_tmpfs_ops(TmpfsMountV { name: Some("monitor"@), dst: wd, is_root: false }, root)
        + seq![
        MountOpV::Mkdir { path: parent },
        MountOpV::PivotRoot { new_root: root, put_old: parent },
        MountOpV::Chdir { path: wd },
        MountOpV::Move { src: spec_nest_path("/"@, wb), dst: spec_nest_path("/"@, wd) },
    ]
}

impl Jail {
    /// Plan the device tree under the jail root.
    fn init_dev_ops(&self, tty: &Option<String>, hosts: &Vec<HostMount>) -> (r: Vec<MountOp>)
        ensures
            ops_view(r@) == spec_init_dev_ops(
                self.root@,
                match tty {
                    Some(p) => Some(p@),
                    None => None,
                },
                hosts_view(hosts@),
            ),
    {
        let devdir = nest_path(self.root.as_str(), "/dev");
        let mut ops: Vec<MountOp> = Vec::new();
        ops.push(MountOp::Mkdir { path: devdir.clone() });
        append_ops(
            &mut ops,
            add_tmpfs_ops(&TmpfsMount::new(String::from_str("/dev")).name("dev"), self.root.as_str()),
        );
        let mut devs: Vec<String> = Vec::new();
        devs.push(String::from_str("/dev/null"));
        devs.push(String::from_str("/dev/zero"));
        devs.push(String::from_str("/dev/full"));
        devs.push(String::from_str("/dev/urandom"));
        match tty {
            Some(p) => devs.push(p.clone()),
            None => {},
        }
        let mut i: usize = 0;
        let ghost base = ops_view(ops@);
        while i < devs.len()
            invariant
                0 <= i <= devs@.len(),
                ops_view(ops@) == base + spec_dev_seq_ops(
                    self.root@,
                    hosts_view(hosts@),
                    strs_view(devs@).subrange(0, i as int),
                ),
            decreases devs@.len() - i,
        {
            let b = BindMount {
                src: devs[i].clone(),
                dst: nest_path(self.root.as_str(), devs[i].as_str()),
                writable: true,
                from_parent: false,
            };
            let ghost o0 = ops_view(ops@);
            append_ops(&mut ops, add_bind_ops(&b, self.root.as_str(), true, hosts));
            proof {
                let pre1 = strs_view(devs@).subrange(0, i + 1);
                assert(pre1.drop_last() =~= strs_view(devs@).subrange(0, i as int));
                assert(pre1.last() == devs@[i as int]@);
                assert(ops_view(ops@) =~= base + spec_dev_seq_ops(
                    self.root@,
                    hosts_view(hosts@),
                    pre1,
                ));
            }
            i = i + 1;
        }
        let ghost o1 = ops_view(ops@);
        ops.push(
            MountOp::Symlink {
                src: String::from_str("/proc/self/fd"),
                dst: nest_path(devdir.as_str(), "fd"),
            },
        );
        proof {
            assert(ops_view(ops@) =~= o1.push(ops@.last()@));
        }
        let ghost o2 = ops_view(ops@);
        ops.push(
            MountOp::Symlink {
                src: String::from_str("urandom"),
                dst: nest_path(devdir.as_str(), "random"),
            },
        );
        proof {
            assert(ops_view(ops@) =~= o2.push(ops@.last()@));
        }
        append_ops(
            &mut ops,
            add_tmpfs_ops(
                &TmpfsMount::new(nest_path("/dev", "shm")).name("shm"),
                self.root.as_str(),
            ),
        );
        let ghost o3 = ops_view(ops@);
        ops.push(
            MountOp::Remount { dst: devdir, flags: MS_BIND | MS_REMOUNT | MS_RDONLY },
        );
        proof {
            assert(ops_view(ops@) =~= o3.push(ops@.last()@));
        }
        proof {
            assert(strs_view(devs@).subrange(0, devs@.len() as int) =~= strs_view(devs@));
            assert(strs_view(devs@) =~= (match tty {
                Some(p) => seq!["/dev/null"@, "/dev/zero"@, "/dev/full"@, "/dev/urandom"@, p@],
                None => seq!["/dev/null"@, "/dev/zero"@, "/dev/full"@, "/dev/urandom"@],
            }));
            lemma_dev_seq_unroll(
                self.root@,
                hosts_view(hosts@),
                match tty {
                    Some(p) => Some(p@),
                    None => None,
                },
                strs_view(devs@),
            );
            assert(ops_view(ops@) =~= spec_init_dev_ops(
                self.root@,
                match tty {
                    Some(p) => Some(p@),
                    None => None,
                },
                hosts_view(hosts@),
            ));
        }
        ops
    }

    /// Plan the whole file-system initialization and record its outcome: the
    /// expanded binds become the namespace the jail observes, and the
    /// workdir is fixed at the per-process `fdinfo` directory.
    pub fn init_fs(&mut self, hosts: &Vec<HostMount>, pid: u64, tty: &Option<String>) -> (r: Vec<
        MountOp,
    >)
        ensures
            ops_view(r@) == spec_init_fs_plan(
                old(self).root@,
                binds_view(old(self).jdom.binds@),
                tmps_view(old(self).tmps@),
                hosts_view(hosts@),
                pid as int,
                match tty {
                    Some(p) => Some(p@),
                    None => None,
                },
            ),
            final(self).workdir matches Some(w) && w@ == spec_nest_path(
                "/"@,
                "proc/"@ + crate::text::spec_dec(pid as int) + "/fdinfo"@,
            ),
            binds_view(final(self).ns.mounts@) == spec_expand_binds(
                binds_view(old(self).jdom.binds@),
                spec_filter_hosts(
                    hosts_view(hosts@),
                    seq!["/dev"@, "/proc"@, old(self).root@],
                ),
            ),
            final(self).jdom@ == old(self).jdom@,
            final(self).root@ == old(self).root@,
            final(self).confined == old(self).confined,
    {
        let ghost rootv = self.root@;
        let ghost hostsv = hosts_view(hosts@);
        let ghost ttyv: Option<Seq<char>> = match tty {
            Some(p) => Some(p@),
            None => None,
        };
        let mut ops: Vec<MountOp> = Vec::new();
        // The staging root: an empty writable tmpfs.
        append_ops(
            &mut ops,
            add_tmpfs_ops(
                &TmpfsMount::new(self.root.clone()).name("root").is_root(true),
                self.root.as_str(),
            ),
        );
        let ghost want_a = spec_add_tmpfs_ops(
            TmpfsMountV { name: Some("root"@), dst: rootv, is_root: true },
            rootv,
        );
        proof {
            assert(ops_view(ops@) =~= want_a);
        }
        // The domain's binds, expanded across the host mounts, keeping the
        // protected trees and the staging root out of the enumeration.
        let mut excludes = protected_paths();
        let ghost e0 = strs_view(excludes@);
        excludes.push(self.root.clone());
        proof {
            assert(strs_view(excludes@) =~= e0.push(self.root@));
            assert(strs_view(excludes@) =~= seq!["/dev"@, "/proc"@, rootv]);
        }
        let mut user_binds: Vec<BindMount> = Vec::new();
        append_binds(&mut user_binds, &self.jdom.binds);
        proof {
            assert(binds_view(user_binds@) =~= binds_view(self.jdom.binds@));
        }
        let expanded = expand_binds(user_binds, hosts, &excludes);
        let mut i: usize = 0;
        let ghost base = ops_view(ops@);
        while i < expanded.len()
            invariant
                0 <= i <= expanded@.len(),
                ops_view(ops@) == base + spec_binds_ops(
                    binds_view(expanded@).subrange(0, i as int),
                    self.root@,
                    hosts_view(hosts@),
                ),
            decreases expanded@.len() - i,
        {
            append_ops(&mut ops, add_bind_ops(&expanded[i], self.root.as_str(), false, hosts));
            proof {
                let pre1 = binds_view(expanded@).subrange(0, i + 1);
                assert(pre1.drop_last() =~= binds_view(expanded@).subrange(0, i as int));
                assert(pre1.last() == expanded@[i as int]@);
                assert(ops_view(ops@) =~= base + spec_binds_ops(
                    pre1,
                    self.root@,
                    hosts_view(hosts@),
                ));
            }
            i = i + 1;
        }
        let ghost want_b = want_a + spec_binds_ops(binds_view(expanded@), rootv, hostsv);
        proof {
            assert(binds_view(expanded@).subrange(0, expanded@.len() as int) =~= binds_view(
                expanded@,
            ));
            assert(ops_view(ops@) == want_b);
        }
        let ghost c0 = ops_view(ops@);
        ops.push(MountOp::Chdir { path: self.root.clone() });
        let ghost want_c = want_b + seq![MountOpV::Chdir { path: rootv }];
        proof {
            assert(ops_view(ops@) =~= c0.push(MountOpV::Chdir { path: rootv }));
            assert(c0.push(MountOpV::Chdir { path: rootv }) =~= want_c);
        }
        // Declared tmpfs mounts.
        let mut j: usize = 0;
        let ghost base2 = ops_view(ops@);
        while j < self.tmps.len()
            invariant
                0 <= j <= self.tmps@.len(),
                ops_view(ops@) == base2 + spec_tmps_ops(
                    tmps_view(self.tmps@).subrange(0, j as int),
                    self.root@,
                ),
            decreases self.tmps@.len() - j,
        {
            append_ops(&mut ops, add_tmpfs_ops(&self.tmps[j], self.root.as_str()));
            proof {
                let pre1 = tmps_view(self.tmps@).subrange(0, j + 1);
                assert(pre1.drop_last() =~= tmps_view(self.tmps@).subrange(0, j as int));
                assert(pre1.last() == self.tmps@[j as int]@);
                assert(ops_view(ops@) =~= base2 + spec_tmps_ops(pre1, self.root@));
            }
            j = j + 1;
        }
        let ghost want_d = want_c + spec_tmps_ops(tmps_view(self.tmps@), rootv);
        proof {
            assert(tmps_view(self.tmps@).subrange(0, self.tmps@.len() as int) =~= tmps_view(
                self.tmps@,
            ));
            assert(ops_view(ops@) == want_d);
        }
        // A fresh procfs.
        let proc_dst = nest_path(self.root.as_str(), "proc");
        let ghost p0 = ops_view(ops@);
        ops.push(MountOp::Mkdir { path: proc_dst.clone() });
        ops.push(MountOp::Procfs { dst: proc_dst });
        let ghost want_e = want_d + seq![
            MountOpV::Mkdir { path: spec_nest_path(rootv, "proc"@) },
            MountOpV::Procfs { dst: spec_nest_path(rootv, "proc"@) },
        ];
        proof {
            assert(ops_view(ops@) =~= p0.push(
                MountOpV::Mkdir { path: spec_nest_path(rootv, "proc"@) },
            ).push(MountOpV::Procfs { dst: spec_nest_path(rootv, "proc"@) }));
            assert(p0.push(MountOpV::Mkdir { path: spec_nest_path(rootv, "proc"@) }).push(
                MountOpV::Procfs { dst: spec_nest_path(rootv, "proc"@) },
            ) =~= want_e);
        }
        // The device tree.
        append_ops(&mut ops, self.init_dev_ops(tty, hosts));
        let ghost want_f = want_e + spec_init_dev_ops(rootv, ttyv, hostsv);
        proof {
            assert(ops_view(ops@) == want_f);
        }
        // The per-process workdir: back up the original fd listing, then
        // anchor the monitor tmpfs and the parent stash there.
        let mut wd = String::from_str("proc/");
        wd.append(crate::text::u64_to_dec(pid).as_str());
        wd.append("/fdinfo");
        let mut wb = String::from_str("proc/");
        wb.append(crate::text::u64_to_dec(pid).as_str());
        wb.append("/fd");
        let ghost wdv = "proc/"@ + crate::text::spec_dec(pid as int) + "/fdinfo"@;
        let ghost wbv = "proc/"@ + crate::text::spec_dec(pid as int) + "/fd"@;
        proof {
            assert(wd@ == wdv);
            assert(wb@ == wbv);
        }
        let backup = BindMount {
            src: wd.clone(),
            dst: wb.clone(),
            writable: true,
            from_parent: false,
        };
        append_ops(&mut ops, add_bind_ops(&backup, self.root.as_str(), true, hosts));
        let ghost want_g = want_f + spec_add_bind_ops(
            BindMountV { src: wdv, dst: wbv, writable: true, from_parent: false },
            rootv,
            true,
            hostsv,
        );
        proof {
            assert(backup@ == (BindMountV { src: wdv, dst: wbv, writable: true, from_parent: false }));
            assert(ops_view(ops@) == want_g);
        }
        append_ops(
            &mut ops,
            add_tmpfs_ops(&TmpfsMount::new(wd.clone()).name("monitor"), self.root.as_str()),
        );
        let ghost want_h = want_g + spec_add_tmpfs_ops(
            TmpfsMountV { name: Some("monitor"@), dst: wdv, is_root: false },
            rootv,
        );
        proof {
            assert(ops_view(ops@) == want_h);
        }
        let parent = nest_path(wd.as_str(), "./parent");
        let ghost parentv = spec_nest_path(wdv, "./parent"@);
        let ghost t0 = ops_view(ops@);
        ops.push(MountOp::Mkdir { path: parent.clone() });
        ops.push(MountOp::PivotRoot { new_root: self.root.clone(), put_old: parent });
        ops.push(MountOp::Chdir { path: wd.clone() });
        ops.push(
            MountOp::Move {
                src: nest_path("/", wb.as_str()),
                dst: nest_path("/", wd.as_str()),
            },
        );
        let ghost want_t = want_h + seq![
            MountOpV::Mkdir { path: parentv },
            MountOpV::PivotRoot { new_root: rootv, put_old: parentv },
            MountOpV::Chdir { path: wdv },
            MountOpV::Move {
                src: spec_nest_path("/"@, wbv),
                dst: spec_nest_path("/"@, wdv),
            },
        ];
        proof {
            assert(ops_view(ops@) =~= t0.push(MountOpV::Mkdir { path: parentv }).push(
                MountOpV::PivotRoot { new_root: rootv, put_old: parentv },
            ).push(MountOpV::Chdir { path: wdv }).push(
                MountOpV::Move {
                    src: spec_nest_path("/"@, wbv),
                    dst: spec_nest_path("/"@, wdv),
                },
            ));
            assert(t0.push(MountOpV::Mkdir { path: parentv }).push(
                MountOpV::PivotRoot { new_root: rootv, put_old: parentv },
            ).push(MountOpV::Chdir { path: wdv }).push(
                MountOpV::Move {
                    src: spec_nest_path("/"@, wbv),
                    dst: spec_nest_path("/"@, wdv),
                },
            ) =~= want_t);
        }
        self.workdir = Some(nest_path("/", wd.as_str()));
        let mut ns_binds: Vec<BindMount> = Vec::new();
        append_binds(&mut ns_binds, &expanded);
        self.ns = MountNs { mounts: ns_binds };
        proof {
            // The accumulated segments are exactly the plan, in its order.
            assert(binds_view(expanded@) == spec_expand_binds(
                binds_view(old(self).jdom.binds@),
                spec_filter_hosts(hostsv, seq!["/dev"@, "/proc"@, rootv]),
            ));
            assert(want_t == spec_init_fs_plan(
                old(self).root@,
                binds_view(old(self).jdom.binds@),
                tmps_view(old(self).tmps@),
                hostsv,
                pid as int,
                ttyv,
            ));
        }
        ops
    }
}

/// The operations of a list of writable device binds, in order.
pub open spec fn spec_dev_seq_ops(root: Seq<char>, hosts: Seq<HostMountV>, devs: Seq<Seq<char>>) -> Seq<
    MountOpV,
>
    decreases devs.len(),
{
    if devs.len() == 0 {
        Seq::empty()
    } else {
        spec_dev_seq_ops(root, hosts, devs.drop_last()) + spec_dev_bind_ops(
            root,
            hosts,
            devs.last(),
        )
    }
}

/// Unroll the device list used by the engine: the four basic devices and
/// the optional terminal.
proof fn lemma_dev_seq_unroll(
    root: Seq<char>,
    hosts: Seq<HostMountV>,
    tty: Option<Seq<char>>,
    devs: Seq<Seq<char>>,
)
    requires
        devs == (match tty {
            Some(p) => seq!["/dev/null"@, "/dev/zero"@, "/dev/full"@, "/dev/urandom"@, p],
            None => seq!["/dev/null"@, "/dev/zero"@, "/dev/full"@, "/dev/urandom"@],
        }),
    ensures
        spec_dev_seq_ops(root, hosts, devs) == spec_dev_bind_ops(root, hosts, "/dev/null"@)
            + spec_dev_bind_ops(root, hosts, "/dev/zero"@) + spec_dev_bind_ops(
            root,
            hosts,
            "/dev/full"@,
        ) + spec_dev_bind_ops(root, hosts, "/dev/urandom"@) + (match tty {
            Some(p) => spec_dev_bind_ops(root, hosts, p),
            None => Seq::<MountOpV>::empty(),
        }),
{
    reveal_with_fuel(spec_dev_seq_ops, 7);
    match tty {
        Some(p) => {
            let d4 = seq!["/dev/null"@, "/dev/zero"@, "/dev/full"@, "/dev/urandom"@];
            assert(devs.drop_last() =~= d4);
            assert(d4.drop_last() =~= seq!["/dev/null"@, "/dev/zero"@, "/dev/full"@]);
            assert(seq!["/dev/null"@, "/dev/zero"@, "/dev/full"@].drop_last() =~= seq![
                "/dev/null"@,
                "/dev/zero"@,
            ]);
            assert(seq!["/dev/null"@, "/dev/zero"@].drop_last() =~= seq!["/dev/null"@]);
            assert(seq!["/dev/null"@].drop_last() =~= Seq::<Seq<char>>::empty());
            assert(spec_dev_seq_ops(root, hosts, devs) =~= spec_dev_bind_ops(
                root,
                hosts,
                "/dev/null"@,
            ) + spec_dev_bind_ops(root, hosts, "/dev/zero"@) + spec_dev_bind_ops(
                root,
                hosts,
                "/dev/full"@,
            ) + spec_dev_bind_ops(root, hosts, "/dev/urandom"@) + spec_dev_bind_ops(
                root,
                hosts,
                p,
            ));
        },
        None => {
            assert(devs.drop_last() =~= seq!["/dev/null"@, "/dev/zero"@, "/dev/full"@]);
            assert(seq!["/dev/null"@, "/dev/zero"@, "/dev/full"@].drop_last() =~= seq![
                "/dev/null"@,
                "/dev/zero"@,
            ]);
            assert(seq!["/dev/null"@, "/dev/zero"@].drop_last() =~= seq!["/dev/null"@]);
            assert(seq!["/dev/null"@].drop_last() =~= Seq::<Seq<char>>::empty());
            assert(spec_dev_seq_ops(root, hosts, devs) =~= spec_dev_bind_ops(
                root,
                hosts,
                "/dev/null"@,
            ) + spec_dev_bind_ops(root, hosts, "/dev/zero"@) + spec_dev_bind_ops(
                root,
                hosts,
                "/dev/full"@,
            ) + spec_dev_bind_ops(root, hosts, "/dev/urandom"@) + Seq::<MountOpV>::empty());
        },
    }
}

/// No imported bind lands inside a protected tree.  Every destination of a
/// planned import lies at or under the requested destination, and the engine
/// has already refused a destination inside `/proc` or `/dev`; so, unless
/// the request names an ancestor of the protected tree itself, nothing the
/// import mounts can reach into it.
pub proof fn lemma_import_protects(dst: Seq<char>, v: Seq<char>, prot: Seq<char>)
    requires
        v == dst || is_path_prefix(dst, v),
        !is_path_prefix(prot, dst),
        !is_path_prefix(dst, prot),
    ensures
        !is_path_prefix(prot, v),
{
    if v != dst && is_path_prefix(prot, v) {
        lemma_prefix_sandwich(dst, prot, v);
    }
}

/// What a successful initialization provides, and in what order: a fresh
/// procfs at `<root>/proc`, the writable `null` and `urandom` devices, the
/// `fd` link into procfs, and a pivot that comes after every mount of the
/// plan, followed only by the change of directory and the move that hides
/// the workdir — so the original host root is unreachable afterwards.
pub proof fn lemma_init_fs_provides(
    root: Seq<char>,
    binds: Seq<BindMountV>,
    tmps: Seq<TmpfsMountV>,
    hosts: Seq<HostMountV>,
    pid: int,
    tty: Option<Seq<char>>,
)
    ensures
        ({
            let plan = spec_init_fs_plan(root, binds, tmps, hosts, pid, tty);
            let wd = "proc/"@ + crate::text::spec_dec(pid) + "/fdinfo"@;
            let wb = "proc/"@ + crate::text::spec_dec(pid) + "/fd"@;
            &&& plan.contains(MountOpV::Procfs { dst: spec_nest_path(root, "proc"@) })
            &&& plan.contains(
                MountOpV::Bind {
                    src: "/dev/null"@,
                    dst: spec_nest_path(root, "/dev/null"@),
                    flags: (MS_BIND | MS_REC) as u64,
                },
            )
            &&& plan.contains(
                MountOpV::Bind {
                    src: "/dev/urandom"@,
                    dst: spec_nest_path(root, "/dev/urandom"@),
                    flags: (MS_BIND | MS_REC) as u64,
                },
            )
            &&& plan.contains(
                MountOpV::Symlink {
                    src: "/proc/self/fd"@,
                    dst: spec_nest_path(spec_nest_path(root, "/dev"@), "fd"@),
                },
            )
            &&& plan.len() >= 4
            &&& plan[plan.len() - 3] == MountOpV::PivotRoot {
                new_root: root,
                put_old: spec_nest_path(wd, "./parent"@),
            }
            &&& plan[plan.len() - 2] == MountOpV::Chdir { path: wd }
            &&& plan[plan.len() - 1] == MountOpV::Move {
                src: spec_nest_path("/"@, wb),
                dst: spec_nest_path("/"@, wd),
            }
        }),
{
    let plan = spec_init_fs_plan(root, binds, tmps, hosts, pid, tty);
    let wd = "proc/"@ + crate::text::spec_dec(pid) + "/fdinfo"@;
    let wb = "proc/"@ + crate::text::spec_dec(pid) + "/fd"@;
    let expanded = spec_expand_binds(
        binds,
        spec_filter_hosts(hosts, seq!["/dev"@, "/proc"@, root]),
    );
    let a = spec_add_tmpfs_ops(TmpfsMountV { name: Some("root"@), dst: root, is_root: true }, root);
    let b = spec_binds_ops(expanded, root, hosts);
    let d = spec_tmps_ops(tmps, root);
    let f = spec_init_dev_ops(root, tty, hosts);
    let g = spec_add_bind_ops(
        BindMountV { src: wd, dst: wb, writable: true, from_parent: false },
        root,
        true,
        hosts,
    );
    let h = spec_add_tmpfs_ops(TmpfsMountV { name: Some("monitor"@), dst: wd, is_root: false }, root);
    // The procfs mount sits right after the staging root, the expanded
    // binds, the change of directory and the declared tmpfs mounts.
    let k_proc = a.len() + b.len() + 1 + d.len() + 1;
    assert(plan[k_proc as int] == MountOpV::Procfs { dst: spec_nest_path(root, "proc"@) });
    assert(plan.contains(MountOpV::Procfs { dst: spec_nest_path(root, "proc"@) }));
    // Inside the device segment: the tmpfs takes three operations, then each
    // device bind takes two, the bind itself coming second.
    let f_base = a.len() + b.len() + 1 + d.len() + 2;
    assert(f[4] == MountOpV::Bind {
        src: "/dev/null"@,
        dst: spec_nest_path(root, "/dev/null"@),
        flags: (MS_BIND | MS_REC) as u64,
    });
    assert(plan[(f_base + 4) as int] == f[4]);
    assert(plan.contains(
        MountOpV::Bind {
            src: "/dev/null"@,
            dst: spec_nest_path(root, "/dev/null"@),
            flags: (MS_BIND | MS_REC) as u64,
        },
    ));
    assert(f[10] == MountOpV::Bind {
        src: "/dev/urandom"@,
        dst: spec_nest_path(root, "/dev/urandom"@),
        flags: (MS_BIND | MS_REC) as u64,
    });
    assert(plan[(f_base + 10) as int] == f[10]);
    assert(plan.contains(
        MountOpV::Bind {
            src: "/dev/urandom"@,
            dst: spec_nest_path(root, "/dev/urandom"@),
            flags: (MS_BIND | MS_REC) as u64,
        },
    ));
    // The fd link follows the four basic devices and the optional terminal.
    let k_fd: int = if tty is Some {
        13
    } else {
        11
    };
    assert(f[k_fd as int] == MountOpV::Symlink {
        src: "/proc/self/fd"@,
        dst: spec_nest_path(spec_nest_path(root, "/dev"@), "fd"@),
    });
    assert(plan[(f_base + k_fd) as int] == f[k_fd as int]);
    assert(plan.contains(
        MountOpV::Symlink {
            src: "/proc/self/fd"@,
            dst: spec_nest_path(spec_nest_path(root, "/dev"@), "fd"@),
        },
    ));
    // The pivot and what follows it close the plan.
    assert(plan.len() == a.len() + b.len() + 1 + d.len() + 2 + f.len() + g.len() + h.len() + 4);
}

/// Whether the list holds a bind with the same value.
fn binds_contain(v: &Vec<BindMount>, b: &BindMount) -> (r: bool)
    ensures
        r == binds_view(v@).contains(b@),
{
    let mut i: usize = 0;
    while i < v.len()
        invariant
            0 <= i <= v@.len(),
            forall|j: int| 0 <= j < i ==> binds_view(v@)[j] != b@,
        decreases v@.len() - i,
    {
        if v[i] == *b {
            proof {
                assert(binds_view(v@)[i as int] == b@);
            }
            return true;
        }
        i = i + 1;
    }
    proof {
        assert(forall|j: int| 0 <= j < binds_view(v@).len() ==> binds_view(v@)[j] != b@);
    }
    false
}

} // verus!
