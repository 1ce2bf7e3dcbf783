//! The manager: the one place that consults the policy state.  Handler
//! threads send it actions; it answers each from the portal's pool, so the
//! lattice is only ever read and changed from one task.

use vstd::prelude::*;

use crate::config::portal::{Portal, configs_view, spec_first_profile};
use crate::config::profile::{JailDom, ProfileDom, ProfileConfig, from_domain, clone_strings,
    spec_domain_binds, spec_profile_accesses, cmd_view};
use crate::jail::binds_view;
use crate::pool::{Action, FileAccess, FileAccessV, acl_view, doms_view, spec_allow};

verus! {

/// How the client described the domain it wants.
pub ghost enum DomDescV {
    Name(Seq<char>),
    Cmd(Seq<Seq<char>>),
}

/// How the client described the domain it wants: a profile by name, or a
/// command whose executable the domain must cover.
pub enum DomDesc {
    Name(String),
    Cmd(Vec<String>),
}

impl View for DomDesc {
    type V = DomDescV;

    open spec fn view(&self) -> DomDescV {
        match self {
            DomDesc::Name(n) => DomDescV::Name(n@),
            DomDesc::Cmd(c) => DomDescV::Cmd(cmd_view(c@)),
        }
    }
}

/// A request for a new domain.
pub struct NewDomRequest {
    pub desc: DomDesc,
}

/// The manager's answer: the resolved profile, or nothing when no domain
/// covers the request, and whether the jail must stay confined.
pub struct NewDomResponse {
    pub profile: Option<ProfileDom>,
    pub confined: bool,
}

/// A request for the lattice rendering.
pub struct GetDotRequest {}

/// The rendered lattice.
pub struct GetDotResponse {
    pub dot: Option<String>,
}

/// What a handler may ask of the manager.
pub enum ManagerAction {
    NewDom(NewDomRequest),
    GetDot(GetDotRequest),
}

/// What the manager answers.
pub enum ManagerReply {
    NewDom(NewDomResponse),
    GetDot(GetDotResponse),
}

/// Resolve a domain description.  A profile is owed exactly when the pool
/// can serve the description: for a name, the first profile so named is
/// loaded with binds and a registered domain covers its accesses; for a
/// command, a registered domain covers reading its executable.  The answer
/// carries the pool's pick and its realization.
pub fn new_dom_response(portal: &Portal, desc: &DomDesc) -> (r: NewDomResponse)
    ensures
        r.confined == portal.confined,
        match desc@ {
            DomDescV::Name(n) => {
                let fp = spec_first_profile(configs_view(portal.configs@), n);
                &&& (r.profile is Some <==> (fp matches Some(c) && c.fs.bind is Some
                    && spec_allow(
                    doms_view(portal.pool.doms@),
                    spec_profile_accesses(c),
                ) is Some))
                &&& r.profile matches Some(pd) ==> {
                    let d = spec_allow(
                        doms_view(portal.pool.doms@),
                        spec_profile_accesses(fp->0),
                    )->0;
                    &&& pd.name@ == n
                    &&& cmd_view(pd.cmd@) == fp->0.run.cmd
                    &&& pd.jdom.dom@ == d
                    &&& binds_view(pd.jdom.binds@) == spec_domain_binds(d.acl)
                }
            },
            DomDescV::Cmd(c) => {
                &&& (r.profile is Some <==> c.len() > 0 && spec_allow(
                    doms_view(portal.pool.doms@),
                    seq![FileAccessV { path: c[0], action: Action::Read }],
                ) is Some)
                &&& r.profile matches Some(pd) ==> {
                    let d = spec_allow(
                        doms_view(portal.pool.doms@),
                        seq![FileAccessV { path: c[0], action: Action::Read }],
                    )->0;
                    &&& pd.name@ == d.name
                    &&& cmd_view(pd.cmd@) == c
                    &&& pd.jdom.dom@ == d
                    &&& binds_view(pd.jdom.binds@) == spec_domain_binds(d.acl)
                }
            },
        },
{
    let profile: Option<ProfileDom> = match desc {
        DomDesc::Name(name) => {
            let cmd_opt: Option<Vec<String>> = match portal.profile(name.as_str()) {
                Some(config) => Some(clone_strings(&config.run.cmd)),
                None => None,
            };
            match cmd_opt {
                Some(cmd) => match portal.domain(name.as_str()) {
                    Some(dom) => Some(
                        ProfileDom { name: name.clone(), cmd, jdom: from_domain(dom) },
                    ),
                    None => None,
                },
                None => None,
            }
        },
        DomDesc::Cmd(cmd) => {
            if cmd.len() == 0 {
                None
            } else {
                let mut acl: Vec<FileAccess> = Vec::new();
                acl.push(FileAccess::new(cmd[0].clone(), Action::Read));
                proof {
                    assert(acl_view(acl@) =~= seq![
                        FileAccessV { path: cmd@[0]@, action: Action::Read },
                    ]);
                }
                match portal.allow(&acl) {
                    Some(dom) => Some(
                        ProfileDom {
                            name: dom.name.clone(),
                            cmd: clone_strings(cmd),
                            jdom: from_domain(dom),
                        },
                    ),
                    None => None,
                }
            }
        },
    };
    NewDomResponse { profile, confined: portal.is_confined() }
}

/// Render the lattice; an empty pool still renders an empty, well-formed
/// graph.
pub fn get_dot_response(portal: &Portal) -> (r: GetDotResponse)
    ensures
        r.dot matches Some(d) && d@ == crate::config::portal::spec_dot(
            doms_view(portal.pool.doms@),
        ),
{
    GetDotResponse { dot: Some(portal.render()) }
}

/// One turn of the manager: answer one action from the policy state.
pub fn manager_handle(portal: &Portal, action: &ManagerAction) -> (r: ManagerReply)
    ensures
        match action {
            ManagerAction::NewDom(req) => r matches ManagerReply::NewDom(resp) && resp.confined
                == portal.confined,
            ManagerAction::GetDot(_) => r matches ManagerReply::GetDot(resp) && resp.dot is Some,
        },
{
    match action {
        ManagerAction::NewDom(req) => ManagerReply::NewDom(new_dom_response(portal, &req.desc)),
        ManagerAction::GetDot(_) => ManagerReply::GetDot(get_dot_response(portal)),
    }
}

} // verus!
