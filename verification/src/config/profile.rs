//! Profile data: a user-authored named domain with a command template, and
//! its conversion to access entries and to a jail realization plan.

use vstd::prelude::*;

use crate::jail::{BindMount, BindMountV, binds_view};
use crate::path::is_absolute;
use crate::pool::{Action, Domain, FileAccess, FileAccessV, acl_view, acl_allows, allows};

verus! {

/// Abstract value of a [`BindConfig`].
pub ghost struct BindConfigV {
    pub path: Seq<char>,
    pub write: Option<bool>,
}

/// One `fs.bind` entry of a profile.
#[derive(Debug)]
pub struct BindConfig {
    pub path: String,
    pub write: Option<bool>,
}

impl View for BindConfig {
    type V = BindConfigV;

    open spec fn view(&self) -> BindConfigV {
        BindConfigV { path: self.path@, write: self.write }
    }
}

impl PartialEq for BindConfig {
    fn eq(&self, o: &BindConfig) -> (r: bool) {
        self.path == o.path && match (self.write, o.write) {
            (Some(a), Some(b)) => a == b,
            (None, None) => true,
            _ => false,
        }
    }
}

impl vstd::std_specs::cmp::PartialEqSpecImpl for BindConfig {
    open spec fn obeys_eq_spec() -> bool {
        true
    }

    open spec fn eq_spec(&self, o: &BindConfig) -> bool {
        self@ == o@
    }
}

/// Abstract value of an [`FsConfig`].
pub ghost struct FsConfigV {
    pub bind: Option<Seq<BindConfigV>>,
}

/// The `fs` table of a profile.
#[derive(Debug)]
pub struct FsConfig {
    pub bind: Option<Vec<BindConfig>>,
}

/// The abstract values of a sequence of bind entries.
pub open spec fn bind_configs_view(s: Seq<BindConfig>) -> Seq<BindConfigV> {
    s.map_values(|b: BindConfig| b@)
}

impl View for FsConfig {
    type V = FsConfigV;

    open spec fn view(&self) -> FsConfigV {
        FsConfigV {
            bind: match self.bind {
                Some(ref v) => Some(bind_configs_view(v@)),
                None => None,
            },
        }
    }
}

/// Element-wise equality of two bind-entry lists.
fn bind_vecs_eq(a: &Vec<BindConfig>, b: &Vec<BindConfig>) -> (r: bool)
    ensures
        r == (bind_configs_view(a@) == bind_configs_view(b@)),
{
    proof {
        assert(bind_configs_view(a@).len() == a@.len());
        assert(bind_configs_view(b@).len() == b@.len());
    }
    if a.len() != b.len() {
        return false;
    }
    let mut i: usize = 0;
    while i < a.len()
        invariant
            0 <= i <= a@.len(),
            a@.len() == b@.len(),
            forall|j: int| 0 <= j < i ==> a@[j]@ == b@[j]@,
        decreases a@.len() - i,
    {
        if !(a[i] == b[i]) {
            proof {
                assert(bind_configs_view(a@)[i as int] == a@[i as int]@);
                assert(bind_configs_view(b@)[i as int] == b@[i as int]@);
            }
            return false;
        }
        i = i + 1;
    }
    proof {
        assert(bind_configs_view(a@) =~= bind_configs_view(b@));
    }
    true
}

impl PartialEq for FsConfig {
    fn eq(&self, o: &FsConfig) -> (r: bool) {
        match (&self.bind, &o.bind) {
            (None, None) => true,
            (Some(a), Some(b)) => bind_vecs_eq(a, b),
            _ => false,
        }
    }
}

impl vstd::std_specs::cmp::PartialEqSpecImpl for FsConfig {
    open spec fn obeys_eq_spec() -> bool {
        true
    }

    open spec fn eq_spec(&self, o: &FsConfig) -> bool {
        self@ == o@
    }
}

/// Abstract value of a [`RunConfig`].
pub ghost struct RunConfigV {
    pub cmd: Seq<Seq<char>>,
}

/// The `run` table of a profile: the argv template.
#[derive(Debug)]
pub struct RunConfig {
    pub cmd: Vec<String>,
}

/// The abstract values of a sequence of strings.
pub open spec fn cmd_view(s: Seq<String>) -> Seq<Seq<char>> {
    s.map_values(|x: String| x@)
}

impl View for RunConfig {
    type V = RunConfigV;

    open spec fn view(&self) -> RunConfigV {
        RunConfigV { cmd: cmd_view(self.cmd@) }
    }
}

impl PartialEq for RunConfig {
    fn eq(&self, o: &RunConfig) -> (r: bool) {
        if self.cmd.len() != o.cmd.len() {
            proof {
                assert(cmd_view(self.cmd@).len() == self.cmd@.len());
                assert(cmd_view(o.cmd@).len() == o.cmd@.len());
            }
            return false;
        }
        let mut i: usize = 0;
        while i < self.cmd.len()
            invariant
                0 <= i <= self.cmd@.len(),
                self.cmd@.len() == o.cmd@.len(),
                forall|j: int| 0 <= j < i ==> self.cmd@[j]@ == o.cmd@[j]@,
            decreases self.cmd@.len() - i,
        {
            if !(self.cmd[i] == o.cmd[i]) {
                proof {
                    if self@ == o@ {
                        assert(cmd_view(self.cmd@)[i as int] == cmd_view(o.cmd@)[i as int]);
                    }
                }
                return false;
            }
            i = i + 1;
        }
        proof {
            assert(cmd_view(self.cmd@) =~= cmd_view(o.cmd@));
        }
        true
    }
}

impl vstd::std_specs::cmp::PartialEqSpecImpl for RunConfig {
    open spec fn obeys_eq_spec() -> bool {
        true
    }

    open spec fn eq_spec(&self, o: &RunConfig) -> bool {
        self@ == o@
    }
}

/// Abstract value of a [`ProfileConfig`].
pub ghost struct ProfileConfigV {
    pub name: Seq<char>,
    pub fs: FsConfigV,
    pub run: RunConfigV,
}

/// One profile: a name, its file-system grants, and its command template.
#[derive(Debug)]
pub struct ProfileConfig {
    pub name: String,
    pub fs: FsConfig,
    pub run: RunConfig,
}

impl View for ProfileConfig {
    type V = ProfileConfigV;

    open spec fn view(&self) -> ProfileConfigV {
        ProfileConfigV { name: self.name@, fs: self.fs@, run: self.run@ }
    }
}

impl PartialEq for ProfileConfig {
    fn eq(&self, o: &ProfileConfig) -> (r: bool) {
        self.name == o.name && self.fs == o.fs && self.run == o.run
    }
}

impl vstd::std_specs::cmp::PartialEqSpecImpl for ProfileConfig {
    open spec fn obeys_eq_spec() -> bool {
        true
    }

    open spec fn eq_spec(&self, o: &ProfileConfig) -> bool {
        self@ == o@
    }
}

/// The access entries one bind entry grants: read on its path, and write as
/// well when `write` is set.  A relative path grants nothing.
pub open spec fn spec_bind_accesses(b: BindConfigV) -> Seq<FileAccessV> {
    if !(b.path.len() > 0 && b.path[0] == '/') {
        Seq::empty()
    } else if b.write == Some(true) {
        seq![
            FileAccessV { path: b.path, action: Action::Read },
            FileAccessV { path: b.path, action: Action::Write },
        ]
    } else {
        seq![FileAccessV { path: b.path, action: Action::Read }]
    }
}

/// The access entries one bind entry grants.
pub fn bind_accesses(b: &BindConfig) -> (r: Vec<FileAccess>)
    ensures
        acl_view(r@) == spec_bind_accesses(b@),
{
    let mut out: Vec<FileAccess> = Vec::new();
    if is_absolute(b.path.as_str()) {
        out.push(FileAccess::new(b.path.clone(), Action::Read));
        let write = match b.write {
            Some(w) => w,
            None => false,
        };
        if write {
            out.push(FileAccess::new(b.path.clone(), Action::Write));
        }
    }
    proof {
        assert(acl_view(out@) =~= spec_bind_accesses(b@));
    }
    out
}

/// The access entries a whole profile grants.
pub open spec fn spec_profile_accesses(p: ProfileConfigV) -> Seq<FileAccessV>
    decreases p.fs.bind->0.len(),
    when p.fs.bind is Some ==> p.fs.bind->0.len() >= 0
{
    match p.fs.bind {
        None => Seq::empty(),
        Some(binds) => if binds.len() == 0 {
            Seq::empty()
        } else {
            spec_profile_accesses(
                ProfileConfigV {
                    fs: FsConfigV { bind: Some(binds.drop_last()) },
                    ..p
                },
            ) + spec_bind_accesses(binds.last())
        },
    }
}

/// The access entries a whole profile grants.
pub fn profile_accesses(p: &ProfileConfig) -> (r: Vec<FileAccess>)
    ensures
        acl_view(r@) == spec_profile_accesses(p@),
{
    let mut out: Vec<FileAccess> = Vec::new();
    match &p.fs.bind {
        None => {
            proof {
                assert(acl_view(out@) =~= spec_profile_accesses(p@));
            }
        },
        Some(binds) => {
            let mut i: usize = 0;
            proof {
                assert(bind_configs_view(binds@.subrange(0, 0)) =~= Seq::<BindConfigV>::empty());
                assert(acl_view(out@) =~= spec_profile_accesses(
                    ProfileConfigV {
                        fs: FsConfigV { bind: Some(bind_configs_view(binds@.subrange(0, 0))) },
                        ..p@
                    },
                ));
            }
            while i < binds.len()
                invariant
                    0 <= i <= binds@.len(),
                    p.fs.bind == Some(*binds),
                    acl_view(out@) == spec_profile_accesses(
                        ProfileConfigV {
                            fs: FsConfigV {
                                bind: Some(bind_configs_view(binds@.subrange(0, i as int))),
                            },
                            ..p@
                        },
                    ),
                decreases binds@.len() - i,
            {
                let add = bind_accesses(&binds[i]);
                let ghost out0 = acl_view(out@);
                let mut k: usize = 0;
                while k < add.len()
                    invariant
                        0 <= k <= add@.len(),
                        acl_view(out@) == out0 + acl_view(add@).subrange(0, k as int),
                    decreases add@.len() - k,
                {
                    let ghost o1 = acl_view(out@);
                    out.push(add[k].duplicate());
                    proof {
                        assert(acl_view(out@) =~= o1.push(add@[k as int]@));
                        assert(out0 + acl_view(add@).subrange(0, k + 1) =~= o1.push(
                            add@[k as int]@,
                        ));
                    }
                    k = k + 1;
                }
                proof {
                    assert(acl_view(add@).subrange(0, add@.len() as int) =~= acl_view(add@));
                    let pre1 = bind_configs_view(binds@.subrange(0, i + 1));
                    assert(pre1.drop_last() =~= bind_configs_view(binds@.subrange(0, i as int)));
                    assert(pre1.last() == binds@[i as int]@);
                }
                i = i + 1;
            }
            proof {
                assert(binds@.subrange(0, binds@.len() as int) =~= binds@);
                assert(bind_configs_view(binds@) == p@.fs.bind->0);
            }
        },
    }
    out
}

/// Abstract value of a [`JailDom`].
pub ghost struct JailDomV {
    pub binds: Seq<BindMountV>,
    pub dom: crate::pool::DomainV,
}

/// The concrete realization of a domain: its bind plan together with the
/// domain itself.
pub struct JailDom {
    pub binds: Vec<BindMount>,
    pub dom: Domain,
}

impl View for JailDom {
    type V = JailDomV;

    open spec fn view(&self) -> JailDomV {
        JailDomV { binds: binds_view(self.binds@), dom: self.dom@ }
    }
}

/// The bind realizing one read access: the path bound onto itself, writable
/// when the control list also grants write on it.
pub open spec fn spec_access_bind(acl: Seq<FileAccessV>, path: Seq<char>) -> BindMountV {
    BindMountV {
        src: path,
        dst: path,
        writable: allows(acl, FileAccessV { path, action: Action::Write }),
        from_parent: false,
    }
}

/// The bind plan derived from the first `n` entries of a control list, each
/// read entry judged against the whole list.
pub open spec fn spec_domain_binds_partial(acl: Seq<FileAccessV>, n: int) -> Seq<BindMountV>
    decreases n,
{
    if n <= 0 {
        Seq::empty()
    } else {
        let rest = spec_domain_binds_partial(acl, n - 1);
        if acl[n - 1].action == Action::Read {
            rest.push(spec_access_bind(acl, acl[n - 1].path))
        } else {
            rest
        }
    }
}

/// The bind plan of a domain: for each read entry, its path bound onto
/// itself, merged with the matching write entry if both are present.
pub open spec fn spec_domain_binds(acl: Seq<FileAccessV>) -> Seq<BindMountV> {
    spec_domain_binds_partial(acl, acl.len() as int)
}

/// Derive a domain's realization: each read entry becomes a bind of its path
/// onto itself, writable when a write entry also covers the path.
pub fn from_domain(dom: Domain) -> (r: JailDom)
    ensures
        r.dom@ == dom@,
        binds_view(r.binds@) == spec_domain_binds(dom@.acl),
{
    let mut binds: Vec<BindMount> = Vec::new();
    let mut i: usize = 0;
    proof {
        assert(binds_view(binds@) =~= spec_domain_binds_partial(acl_view(dom.acl@), 0));
    }
    while i < dom.acl.len()
        invariant
            0 <= i <= dom.acl@.len(),
            binds_view(binds@) == spec_domain_binds_partial(acl_view(dom.acl@), i as int),
        decreases dom.acl@.len() - i,
    {
        let is_read = match dom.acl[i].action {
            Action::Read => true,
            Action::Write => false,
        };
        if is_read {
            let w = acl_allows(
                &dom.acl,
                &FileAccess::new(dom.acl[i].path.clone(), Action::Write),
            );
            let nb = BindMount::new(dom.acl[i].path.clone(), dom.acl[i].path.clone()).writable(w);
            proof {
                assert(nb@ == spec_access_bind(acl_view(dom.acl@), acl_view(dom.acl@)[i as int].path));
            }
            let ghost b0 = binds_view(binds@);
            binds.push(nb);
            proof {
                assert(binds_view(binds@) =~= b0.push(nb@));
            }
        }
        i = i + 1;
    }
    JailDom { binds, dom }
}

/// A copy of a list of strings.
pub fn clone_strings(v: &Vec<String>) -> (r: Vec<String>)
    ensures
        cmd_view(r@) == cmd_view(v@),
{
    let mut out: Vec<String> = Vec::new();
    let mut i: usize = 0;
    while i < v.len()
        invariant
            0 <= i <= v@.len(),
            cmd_view(out@) == cmd_view(v@).subrange(0, i as int),
        decreases v@.len() - i,
    {
        let ghost o0 = cmd_view(out@);
        out.push(v[i].clone());
        proof {
            assert(cmd_view(out@) =~= o0.push(v@[i as int]@));
            assert(cmd_view(v@).subrange(0, i + 1) =~= o0.push(v@[i as int]@));
        }
        i = i + 1;
    }
    proof {
        assert(cmd_view(v@).subrange(0, v@.len() as int) =~= cmd_view(v@));
    }
    out
}

/// A profile resolved by the manager: the command template and the jail
/// realization.
pub struct ProfileDom {
    pub name: String,
    pub cmd: Vec<String>,
    pub jdom: JailDom,
}

} // verus!
