//! The portal's policy state: the loaded profiles, the pool built from
//! them, and the confinement switch.

use vstd::prelude::*;

use crate::config::profile::{ProfileConfig, ProfileConfigV, profile_accesses,
    spec_profile_accesses, cmd_view};
use crate::pool::{Domain, DomainV, FileAccess, ResPool, acl_view, covers, doms_view, spec_allow};

verus! {

/// The domain each profile registers: its name and the accesses it grants.
pub open spec fn spec_portal_doms(configs: Seq<ProfileConfigV>) -> Seq<DomainV>
    decreases configs.len(),
{
    if configs.len() == 0 {
        Seq::empty()
    } else {
        spec_portal_doms(configs.drop_last()).push(
            DomainV {
                name: configs.last().name,
                acl: spec_profile_accesses(configs.last()),
            },
        )
    }
}

/// The abstract values of a sequence of profiles.
pub open spec fn configs_view(s: Seq<ProfileConfig>) -> Seq<ProfileConfigV> {
    s.map_values(|c: ProfileConfig| c@)
}

/// The first profile of the list from position `i` on whose name matches.
pub open spec fn spec_first_profile_from(
    configs: Seq<ProfileConfigV>,
    name: Seq<char>,
    i: int,
) -> Option<ProfileConfigV>
    decreases configs.len() - i,
{
    if i < 0 || i >= configs.len() {
        None
    } else if configs[i].name == name {
        Some(configs[i])
    } else {
        spec_first_profile_from(configs, name, i + 1)
    }
}

/// The first profile whose name matches.
pub open spec fn spec_first_profile(configs: Seq<ProfileConfigV>, name: Seq<char>) -> Option<
    ProfileConfigV,
> {
    spec_first_profile_from(configs, name, 0)
}

/// One node line of the lattice rendering.
pub open spec fn spec_dot_node(name: Seq<char>) -> Seq<char> {
    "    \""@ + name + "\";\n"@
}

/// The node lines of the registered domains, in order.
pub open spec fn spec_dot_nodes(doms: Seq<DomainV>) -> Seq<char>
    decreases doms.len(),
{
    if doms.len() == 0 {
        Seq::empty()
    } else {
        spec_dot_nodes(doms.drop_last()) + spec_dot_node(doms.last().name)
    }
}

/// The whole rendering: the graph header, the node lines, the closing brace.
pub open spec fn spec_dot(doms: Seq<DomainV>) -> Seq<char> {
    "digraph stemjail {\n"@ + spec_dot_nodes(doms) + "}\n"@
}

/// The portal's policy state.
pub struct Portal {
    pub configs: Vec<ProfileConfig>,
    pub pool: ResPool,
    pub confined: bool,
}

impl Portal {
    /// Build the pool: one domain per profile, granting what its binds
    /// declare.
    pub fn new(configs: Vec<ProfileConfig>, confined: bool) -> (r: Portal)
        ensures
            r.confined == confined,
            configs_view(r.configs@) == configs_view(configs@),
            doms_view(r.pool.doms@) == spec_portal_doms(configs_view(configs@)),
    {
        let mut pool = ResPool::new();
        let mut i: usize = 0;
        proof {
            assert(configs_view(configs@.subrange(0, 0)) =~= Seq::<ProfileConfigV>::empty());
            assert(doms_view(pool.doms@) =~= spec_portal_doms(
                configs_view(configs@.subrange(0, 0)),
            ));
        }
        while i < configs.len()
            invariant
                0 <= i <= configs@.len(),
                doms_view(pool.doms@) == spec_portal_doms(
                    configs_view(configs@.subrange(0, i as int)),
                ),
            decreases configs@.len() - i,
        {
            let acl = profile_accesses(&configs[i]);
            pool.new_dom(configs[i].name.clone(), acl);
            proof {
                let pre1 = configs_view(configs@.subrange(0, i + 1));
                assert(pre1.drop_last() =~= configs_view(configs@.subrange(0, i as int)));
                assert(pre1.last() == configs@[i as int]@);
            }
            i = i + 1;
        }
        proof {
            assert(configs@.subrange(0, configs@.len() as int) =~= configs@);
        }
        Portal { configs, pool, confined }
    }

    /// The first profile with the given name.
    pub fn profile(&self, name: &str) -> (r: Option<&ProfileConfig>)
        ensures
            match r {
                Some(c) => spec_first_profile(configs_view(self.configs@), name@) == Some(c@),
                None => spec_first_profile(configs_view(self.configs@), name@) is None,
            },
    {
        let ghost cv = configs_view(self.configs@);
        let mut i: usize = 0;
        while i < self.configs.len()
            invariant
                0 <= i <= self.configs@.len(),
                cv == configs_view(self.configs@),
                spec_first_profile(cv, name@) == spec_first_profile_from(cv, name@, i as int),
            decreases self.configs@.len() - i,
        {
            if crate::path::str_eq(self.configs[i].name.as_str(), name) {
                proof {
                    assert(cv[i as int] == self.configs@[i as int]@);
                }
                return Some(&self.configs[i]);
            }
            i = i + 1;
        }
        None
    }

    /// The least-privileged domain covering the access set, if any.
    pub fn allow(&self, acl: &Vec<FileAccess>) -> (r: Option<Domain>)
        ensures
            match r {
                Some(d) => spec_allow(doms_view(self.pool.doms@), acl_view(acl@)) == Some(d@),
                None => spec_allow(doms_view(self.pool.doms@), acl_view(acl@)) is None,
            },
            match r {
                Some(d) => covers(d@.acl, acl_view(acl@)) && exists|i: int|
                    0 <= i < doms_view(self.pool.doms@).len() && doms_view(self.pool.doms@)[i]
                        == d@,
                None => forall|i: int|
                    0 <= i < doms_view(self.pool.doms@).len() ==> !covers(
                        #[trigger] doms_view(self.pool.doms@)[i].acl,
                        acl_view(acl@),
                    ),
            },
    {
        self.pool.allow(acl)
    }

    /// The domain realizing the named profile: the pool's pick for the
    /// profile's accesses, owed exactly when the profile is loaded with
    /// binds and some registered domain covers it.
    pub fn domain(&self, name: &str) -> (r: Option<Domain>)
        ensures
            ({
                let fp = spec_first_profile(configs_view(self.configs@), name@);
                &&& (r is Some <==> (fp matches Some(c) && c.fs.bind is Some && spec_allow(
                    doms_view(self.pool.doms@),
                    spec_profile_accesses(c),
                ) is Some))
                &&& r matches Some(d) ==> spec_allow(
                    doms_view(self.pool.doms@),
                    spec_profile_accesses(fp->0),
                ) == Some(d@)
            }),
    {
        let config = match self.profile(name) {
            Some(c) => c,
            None => {
                return None;
            },
        };
        match &config.fs.bind {
            Some(_) => {
                let acl = profile_accesses(config);
                let r = self.allow(&acl);
                proof {
                    let fp = spec_first_profile(configs_view(self.configs@), name@);
                    assert(fp == Some(config@));
                    assert(acl_view(acl@) == spec_profile_accesses(fp->0));
                }
                r
            },
            None => {
                proof {
                    let fp = spec_first_profile(configs_view(self.configs@), name@);
                    assert(fp == Some(config@));
                    assert(fp->0.fs.bind is None);
                }
                None
            },
        }
    }

    /// Whether jails started by this portal refuse unconfined helpers.
    pub fn is_confined(&self) -> (r: bool)
        ensures
            r == self.confined,
    {
        self.confined
    }

    /// The lattice as a Graphviz text: one node line per registered domain.
    /// Before any domain exists this is an empty but well-formed graph.
    pub fn render(&self) -> (r: String)
        ensures
            r@ == spec_dot(doms_view(self.pool.doms@)),
    {
        let mut out = String::from_str("digraph stemjail {\n");
        let ghost head = out@;
        let mut i: usize = 0;
        proof {
            assert(doms_view(self.pool.doms@).subrange(0, 0) =~= Seq::<DomainV>::empty());
            assert(out@ =~= head + spec_dot_nodes(doms_view(self.pool.doms@).subrange(0, 0)));
        }
        while i < self.pool.doms.len()
            invariant
                0 <= i <= self.pool.doms@.len(),
                head == "digraph stemjail {\n"@,
                out@ == head + spec_dot_nodes(doms_view(self.pool.doms@).subrange(0, i as int)),
            decreases self.pool.doms@.len() - i,
        {
            out.append("    \"");
            out.append(self.pool.doms[i].name.as_str());
            out.append("\";\n");
            proof {
                let pre1 = doms_view(self.pool.doms@).subrange(0, i + 1);
                assert(pre1.drop_last() =~= doms_view(self.pool.doms@).subrange(0, i as int));
                assert(pre1.last() == self.pool.doms@[i as int]@);
                assert(out@ =~= head + spec_dot_nodes(pre1));
            }
            i = i + 1;
        }
        proof {
            assert(doms_view(self.pool.doms@).subrange(0, self.pool.doms@.len() as int)
                =~= doms_view(self.pool.doms@));
        }
        out.append("}\n");
        out
    }
}

} // verus!
