//! The policy pool: domains, their file-access control lists, and the
//! resolution of an access request to the least-privileged covering domain.
//!
//! An access entry `(path, action)` grants the action on `path` and on every
//! path below it.  A domain covers a request when each requested entry is
//! granted by one of its own.  Resolution picks a covering domain with the
//! fewest entries, the earliest registered winning a tie, so the jail starts
//! from the least privilege that still suffices.

use vstd::prelude::*;

use crate::path::{is_path_prefix, path_starts_with, str_eq};

verus! {

/// What an access entry permits.
#[derive(Clone, Copy, Debug, PartialEq, Eq, Structural)]
pub enum Action {
    Read,
    Write,
}

/// Abstract value of a [`FileAccess`].
pub ghost struct FileAccessV {
    pub path: Seq<char>,
    pub action: Action,
}

/// Permission to act on a path and everything below it.
pub struct FileAccess {
    pub path: String,
    pub action: Action,
}

impl View for FileAccess {
    type V = FileAccessV;

    open spec fn view(&self) -> FileAccessV {
        FileAccessV { path: self.path@, action: self.action }
    }
}

impl FileAccess {
    /// An access entry for `path`.
    pub fn new(path: String, action: Action) -> (r: FileAccess)
        ensures
            r@ == (FileAccessV { path: path@, action }),
    {
        FileAccess { path, action }
    }

    /// An identical copy.
    pub fn duplicate(&self) -> (r: FileAccess)
        ensures
            r@ == self@,
    {
        FileAccess { path: self.path.clone(), action: self.action }
    }
}

/// The abstract values of a sequence of access entries.
pub open spec fn acl_view(s: Seq<FileAccess>) -> Seq<FileAccessV> {
    s.map_values(|a: FileAccess| a@)
}

/// Whether the control list `acl` grants the single access `fa`: some entry
/// has the same action and a path containing `fa.path`.
pub open spec fn allows(acl: Seq<FileAccessV>, fa: FileAccessV) -> bool {
    exists|i: int|
        0 <= i < acl.len() && acl[i].action == fa.action && is_path_prefix(acl[i].path, fa.path)
}

/// Whether `acl` grants every access of `req`.
pub open spec fn covers(acl: Seq<FileAccessV>, req: Seq<FileAccessV>) -> bool {
    forall|j: int| 0 <= j < req.len() ==> allows(acl, #[trigger] req[j])
}

/// Abstract value of a [`Domain`].
pub ghost struct DomainV {
    pub name: Seq<char>,
    pub acl: Seq<FileAccessV>,
}

/// A node of the policy lattice: a name and the accesses it grants.
pub struct Domain {
    pub name: String,
    pub acl: Vec<FileAccess>,
}

impl View for Domain {
    type V = DomainV;

    open spec fn view(&self) -> DomainV {
        DomainV { name: self.name@, acl: acl_view(self.acl@) }
    }
}

impl Domain {
    /// An identical copy.
    pub fn duplicate(&self) -> (r: Domain)
        ensures
            r@ == self@,
    {
        let mut acl: Vec<FileAccess> = Vec::new();
        let mut i: usize = 0;
        while i < self.acl.len()
            invariant
                0 <= i <= self.acl@.len(),
                acl_view(acl@) == acl_view(self.acl@.subrange(0, i as int)),
            decreases self.acl@.len() - i,
        {
            let ghost a0 = acl_view(acl@);
            acl.push(self.acl[i].duplicate());
            proof {
                assert(acl_view(acl@) =~= a0.push(self.acl@[i as int]@));
                assert(acl_view(self.acl@.subrange(0, i + 1)) =~= a0.push(self.acl@[i as int]@));
            }
            i = i + 1;
        }
        proof {
            assert(self.acl@.subrange(0, self.acl@.len() as int) =~= self.acl@);
            assert(acl_view(acl@) =~= acl_view(self.acl@));
        }
        Domain { name: self.name.clone(), acl }
    }

    /// Domains compare by identity.
    pub fn is_same(&self, other: &Domain) -> (r: bool)
        ensures
            r == (self@.name == other@.name),
    {
        str_eq(self.name.as_str(), other.name.as_str())
    }
}

/// Whether `acl` grants the single access `fa`.
pub fn acl_allows(acl: &Vec<FileAccess>, fa: &FileAccess) -> (r: bool)
    ensures
        r == allows(acl_view(acl@), fa@),
{
    let mut i: usize = 0;
    while i < acl.len()
        invariant
            0 <= i <= acl@.len(),
            forall|j: int|
                0 <= j < i ==> !(acl_view(acl@)[j].action == fa@.action && is_path_prefix(
                    acl_view(acl@)[j].path,
                    fa@.path,
                )),
        decreases acl@.len() - i,
    {
        let same_action = match (acl[i].action, fa.action) {
            (Action::Read, Action::Read) => true,
            (Action::Write, Action::Write) => true,
            _ => false,
        };
        if same_action && path_starts_with(fa.path.as_str(), acl[i].path.as_str()) {
            proof {
                assert(acl_view(acl@)[i as int].action == fa@.action && is_path_prefix(
                    acl_view(acl@)[i as int].path,
                    fa@.path,
                ));
            }
            return true;
        }
        i = i + 1;
    }
    false
}

/// Whether `acl` grants every access of `req`.
pub fn acl_covers(acl: &Vec<FileAccess>, req: &Vec<FileAccess>) -> (r: bool)
    ensures
        r == covers(acl_view(acl@), acl_view(req@)),
{
    let mut j: usize = 0;
    while j < req.len()
        invariant
            0 <= j <= req@.len(),
            forall|k: int| 0 <= k < j ==> allows(acl_view(acl@), #[trigger] acl_view(req@)[k]),
        decreases req@.len() - j,
    {
        if !acl_allows(acl, &req[j]) {
            proof {
                assert(!allows(acl_view(acl@), acl_view(req@)[j as int]));
            }
            return false;
        }
        j = j + 1;
    }
    true
}

/// The abstract values of a sequence of domains.
pub open spec fn doms_view(s: Seq<Domain>) -> Seq<DomainV> {
    s.map_values(|d: Domain| d@)
}

/// The domain `allow` picks: among the registered domains that cover the
/// request, one with the fewest access entries, the earliest registered
/// winning a tie; `None` when no domain covers.
pub open spec fn spec_allow(doms: Seq<DomainV>, req: Seq<FileAccessV>) -> Option<DomainV>
    decreases doms.len(),
{
    if doms.len() == 0 {
        None
    } else {
        let rest = spec_allow(doms.drop_last(), req);
        let cand = doms.last();
        if covers(cand.acl, req) {
            match rest {
                None => Some(cand),
                Some(best) => if cand.acl.len() < best.acl.len() {
                    Some(cand)
                } else {
                    rest
                },
            }
        } else {
            rest
        }
    }
}

/// What the pick satisfies: it covers, it is registered, and no covering
/// domain has fewer entries; nothing is picked only when nothing covers.
pub proof fn lemma_spec_allow_props(doms: Seq<DomainV>, req: Seq<FileAccessV>)
    ensures
        spec_allow(doms, req) matches Some(d) ==> {
            &&& covers(d.acl, req)
            &&& exists|i: int| 0 <= i < doms.len() && doms[i] == d
            &&& forall|i: int|
                0 <= i < doms.len() && covers(#[trigger] doms[i].acl, req) ==> d.acl.len()
                    <= doms[i].acl.len()
        },
        spec_allow(doms, req) is None ==> forall|i: int|
            0 <= i < doms.len() ==> !covers(#[trigger] doms[i].acl, req),
    decreases doms.len(),
{
    if doms.len() == 0 {
    } else {
        lemma_spec_allow_props(doms.drop_last(), req);
        assert(forall|i: int| 0 <= i < doms.len() - 1 ==> #[trigger] doms[i] == doms.drop_last()[i]);
        let r = spec_allow(doms, req);
        if r is Some {
            let d = r->0;
            if exists|i: int| 0 <= i < doms.drop_last().len() && doms.drop_last()[i] == d {
                let i = choose|i: int|
                    0 <= i < doms.drop_last().len() && doms.drop_last()[i] == d;
                assert(doms[i] == d);
            }
        }
    }
}

/// The pool of registered domains.
pub struct ResPool {
    pub doms: Vec<Domain>,
}

impl ResPool {
    /// An empty pool.
    pub fn new() -> (r: ResPool)
        ensures
            doms_view(r.doms@) == Seq::<DomainV>::empty(),
    {
        let r = ResPool { doms: Vec::new() };
        proof {
            assert(doms_view(r.doms@) =~= Seq::<DomainV>::empty());
        }
        r
    }

    /// Register a domain.
    pub fn new_dom(&mut self, name: String, acl: Vec<FileAccess>)
        ensures
            doms_view(final(self).doms@) == doms_view(old(self).doms@).push(
                DomainV { name: name@, acl: acl_view(acl@) },
            ),
    {
        let ghost d0 = doms_view(self.doms@);
        self.doms.push(Domain { name, acl });
        proof {
            assert(doms_view(self.doms@) =~= d0.push(self.doms@.last()@));
        }
    }

    /// The least-privileged registered domain that covers `req`: among the
    /// covering domains, one with the fewest access entries, the earliest
    /// registered winning a tie; `None` when no domain covers `req`.
    pub fn allow(&self, req: &Vec<FileAccess>) -> (r: Option<Domain>)
        ensures
            match r {
                Some(d) => spec_allow(doms_view(self.doms@), acl_view(req@)) == Some(d@),
                None => spec_allow(doms_view(self.doms@), acl_view(req@)) is None,
            },
            match r {
                Some(d) => {
                    &&& covers(d@.acl, acl_view(req@))
                    &&& exists|i: int|
                        0 <= i < doms_view(self.doms@).len() && doms_view(self.doms@)[i] == d@
                    &&& forall|i: int|
                        0 <= i < doms_view(self.doms@).len() && covers(
                            #[trigger] doms_view(self.doms@)[i].acl,
                            acl_view(req@),
                        ) ==> d@.acl.len() <= doms_view(self.doms@)[i].acl.len()
                },
                None => forall|i: int|
                    0 <= i < doms_view(self.doms@).len() ==> !covers(
                        #[trigger] doms_view(self.doms@)[i].acl,
                        acl_view(req@),
                    ),
            },
    {
        let ghost dv = doms_view(self.doms@);
        let ghost rv = acl_view(req@);
        let mut best: Option<usize> = None;
        let mut i: usize = 0;
        proof {
            assert(dv.subrange(0, 0) =~= Seq::<DomainV>::empty());
        }
        while i < self.doms.len()
            invariant
                0 <= i <= self.doms@.len(),
                dv == doms_view(self.doms@),
                rv == acl_view(req@),
                match best {
                    Some(b) => 0 <= b < i && spec_allow(dv.subrange(0, i as int), rv) == Some(
                        dv[b as int],
                    ),
                    None => spec_allow(dv.subrange(0, i as int), rv) is None,
                },
            decreases self.doms@.len() - i,
        {
            proof {
                let pre1 = dv.subrange(0, i + 1);
                assert(pre1.drop_last() =~= dv.subrange(0, i as int));
                assert(pre1.last() == dv[i as int]);
            }
            if acl_covers(&self.doms[i].acl, req) {
                let replace = match best {
                    Some(b) => self.doms[i].acl.len() < self.doms[b].acl.len(),
                    None => true,
                };
                if replace {
                    best = Some(i);
                }
            }
            i = i + 1;
        }
        proof {
            assert(dv.subrange(0, dv.len() as int) =~= dv);
            lemma_spec_allow_props(dv, rv);
        }
        match best {
            Some(b) => Some(self.doms[b].duplicate()),
            None => None,
        }
    }

    /// The domain reachable from `cur` once `added` is granted as well:
    /// a registered domain covering both the current accesses and the added
    /// ones, so a transition can only widen what the jail may touch.
    pub fn reachable(&self, cur: &Domain, added: &Vec<FileAccess>) -> (r: Option<Domain>)
        ensures
            match r {
                Some(d) => spec_allow(doms_view(self.doms@), cur@.acl + acl_view(added@)) == Some(
                    d@,
                ),
                None => spec_allow(doms_view(self.doms@), cur@.acl + acl_view(added@)) is None,
            },
            match r {
                Some(d) => {
                    &&& covers(d@.acl, cur@.acl)
                    &&& covers(d@.acl, acl_view(added@))
                    &&& exists|i: int|
                        0 <= i < doms_view(self.doms@).len() && doms_view(self.doms@)[i] == d@
                },
                None => forall|i: int|
                    0 <= i < doms_view(self.doms@).len() ==> !(covers(
                        #[trigger] doms_view(self.doms@)[i].acl,
                        cur@.acl,
                    ) && covers(doms_view(self.doms@)[i].acl, acl_view(added@))),
            },
    {
        let mut req: Vec<FileAccess> = Vec::new();
        let mut i: usize = 0;
        while i < cur.acl.len()
            invariant
                0 <= i <= cur.acl@.len(),
                acl_view(req@) == acl_view(cur.acl@.subrange(0, i as int)),
            decreases cur.acl@.len() - i,
        {
            let ghost r0 = acl_view(req@);
            req.push(cur.acl[i].duplicate());
            proof {
                assert(acl_view(req@) =~= r0.push(cur.acl@[i as int]@));
                assert(acl_view(cur.acl@.subrange(0, i + 1)) =~= r0.push(cur.acl@[i as int]@));
            }
            i = i + 1;
        }
        proof {
            assert(cur.acl@.subrange(0, cur.acl@.len() as int) =~= cur.acl@);
        }
        let ghost cur_len = req@.len();
        let mut j: usize = 0;
        while j < added.len()
            invariant
                0 <= j <= added@.len(),
                acl_view(req@) == acl_view(cur.acl@) + acl_view(added@.subrange(0, j as int)),
            decreases added@.len() - j,
        {
            let ghost r0 = acl_view(req@);
            req.push(added[j].duplicate());
            proof {
                assert(acl_view(req@) =~= r0.push(added@[j as int]@));
                assert(acl_view(cur.acl@) + acl_view(added@.subrange(0, j + 1)) =~= r0.push(
                    added@[j as int]@,
                ));
            }
            j = j + 1;
        }
        proof {
            assert(added@.subrange(0, added@.len() as int) =~= added@);
            assert(acl_view(req@) =~= acl_view(cur.acl@) + acl_view(added@));
        }
        let r = self.allow(&req);
        proof {
            if r is Some {
                assert forall|k: int| 0 <= k < cur@.acl.len() implies allows(
                    r->0@.acl,
                    #[trigger] cur@.acl[k],
                ) by {
                    assert(acl_view(req@)[k] == cur@.acl[k]);
                }
                assert forall|k: int| 0 <= k < acl_view(added@).len() implies allows(
                    r->0@.acl,
                    #[trigger] acl_view(added@)[k],
                ) by {
                    assert(acl_view(req@)[cur@.acl.len() + k] == acl_view(added@)[k]);
                }
            } else {
                assert forall|i: int|
                    0 <= i < doms_view(self.doms@).len() implies !(covers(
                    #[trigger] doms_view(self.doms@)[i].acl,
                    cur@.acl,
                ) && covers(doms_view(self.doms@)[i].acl, acl_view(added@))) by {
                    if covers(doms_view(self.doms@)[i].acl, cur@.acl) && covers(
                        doms_view(self.doms@)[i].acl,
                        acl_view(added@),
                    ) {
                        assert forall|k: int| 0 <= k < acl_view(req@).len() implies allows(
                            doms_view(self.doms@)[i].acl,
                            #[trigger] acl_view(req@)[k],
                        ) by {
                            if k < cur@.acl.len() {
                                assert(acl_view(req@)[k] == cur@.acl[k]);
                            } else {
                                assert(acl_view(req@)[k] == acl_view(added@)[k - cur@.acl.len()]);
                            }
                        }
                    }
                }
            }
        }
        r
    }
}

} // verus!
