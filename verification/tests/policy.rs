//! The policy pool, the portal, the manager, and live transitions.

use stemjail::cmd::run::{RunRequest, require_profile};
use stemjail::cmd::shim::{access_response, list_response, AccessCache, AccessData, AccessRequest,
    ListRequest};
use stemjail::jail::BindMount;
use stemjail::config::get_config;
use stemjail::config::portal::Portal;
use stemjail::config::profile::{JailDom, from_domain};
use stemjail::jail::Jail;
use stemjail::pool::{Action, Domain, FileAccess, ResPool};
use stemjail::srv::{DomDesc, ManagerAction, ManagerReply, NewDomRequest, get_dot_response,
    manager_handle, new_dom_response};

fn fa(path: &str, action: Action) -> FileAccess {
    FileAccess::new(path.to_string(), action)
}

fn portal_with(texts: &[String], confined: bool) -> Portal {
    let mut configs = Vec::new();
    for t in texts {
        match get_config(t) {
            Ok(c) => configs.push(c),
            Err(e) => panic!("{}", e.description()),
        }
    }
    Portal::new(configs, confined)
}

fn ex1_text() -> String {
    [
        "name = \"ex1\"",
        "[[fs.bind]]",
        "path = \"/tmp\"",
        "write = true",
        "[run]",
        "cmd = [ \"/bin/sh\", \"-c\", \"id\" ]",
    ].join("\n")
}

fn home_text() -> String {
    [
        "name = \"home\"",
        "[[fs.bind]]",
        "path = \"/tmp\"",
        "write = true",
        "[[fs.bind]]",
        "path = \"/home/u\"",
        "[run]",
        "cmd = [ \"/bin/sh\" ]",
    ].join("\n")
}

#[test]
fn test_pool_allow_picks_least_privileged() {
    let mut pool = ResPool::new();
    pool.new_dom("small".to_string(), vec!(fa("/tmp", Action::Read)));
    pool.new_dom(
        "big".to_string(),
        vec!(fa("/", Action::Read), fa("/", Action::Write)),
    );
    let got = pool.allow(&vec!(fa("/tmp/x", Action::Read))).unwrap();
    assert_eq!(got.name, "small".to_string());
    // Only the bigger domain grants writing.
    let got = pool.allow(&vec!(fa("/tmp/x", Action::Write))).unwrap();
    assert_eq!(got.name, "big".to_string());
    // Nothing grants an unrelated action set when the pool is empty.
    let empty = ResPool::new();
    assert!(empty.allow(&vec!(fa("/tmp", Action::Read))).is_none());
}

#[test]
fn test_pool_reachable_is_monotone() {
    let mut pool = ResPool::new();
    pool.new_dom("small".to_string(), vec!(fa("/tmp", Action::Read)));
    pool.new_dom(
        "wide".to_string(),
        vec!(fa("/tmp", Action::Read), fa("/home/u", Action::Read)),
    );
    let cur = Domain { name: "small".to_string(), acl: vec!(fa("/tmp", Action::Read)) };
    let next = pool.reachable(&cur, &vec!(fa("/home/u/x", Action::Read))).unwrap();
    assert_eq!(next.name, "wide".to_string());
    // Nothing reachable grants writing to /etc.
    assert!(pool.reachable(&cur, &vec!(fa("/etc", Action::Write))).is_none());
}

#[test]
fn test_startup_empty_profiles() {
    let portal = portal_with(&[], true);
    // The portal still renders an empty but well-formed graph.
    let dot = get_dot_response(&portal).dot.unwrap();
    assert!(dot.starts_with("digraph "));
    // `run foo` finds no domain and the client reports it.
    let resp = new_dom_response(&portal, &DomDesc::Cmd(vec!("foo".to_string())));
    assert!(resp.profile.is_none());
    match require_profile(resp) {
        Err(err) => assert_eq!(err, "No domain found".to_string()),
        Ok(_) => panic!("no domain can be found in an empty pool"),
    }
}

#[test]
fn test_unknown_profile_name_yields_no_domain() {
    let portal = portal_with(&[ex1_text()], true);
    let resp = new_dom_response(&portal, &DomDesc::Name("nope".to_string()));
    assert!(resp.profile.is_none());
    assert!(resp.confined);
}

#[test]
fn test_minimal_confined_run_resolves() {
    let portal = portal_with(&[ex1_text()], true);
    let resp = new_dom_response(&portal, &DomDesc::Name("ex1".to_string()));
    let (pd, confined) = match require_profile(resp) {
        Ok(x) => x,
        Err(e) => panic!("{}", e),
    };
    assert!(confined);
    assert_eq!(pd.cmd, vec!("/bin/sh".to_string(), "-c".to_string(), "id".to_string()));
    // The realization grants /tmp writable and nothing else.
    assert_eq!(pd.jdom.binds.len(), 1);
    assert_eq!(pd.jdom.binds[0].src, "/tmp".to_string());
    assert_eq!(pd.jdom.binds[0].dst, "/tmp".to_string());
    assert!(pd.jdom.binds[0].writable);
    // A command under /tmp resolves through the oracle as well.
    let resp = new_dom_response(&portal, &DomDesc::Cmd(vec!("/tmp/prog".to_string())));
    assert!(resp.profile.is_some());
}

#[test]
fn test_manager_handle_matches_action() {
    let portal = portal_with(&[ex1_text()], false);
    let reply = manager_handle(
        &portal,
        &ManagerAction::NewDom(NewDomRequest { desc: DomDesc::Name("ex1".to_string()) }),
    );
    match reply {
        ManagerReply::NewDom(resp) => {
            assert!(!resp.confined);
            assert!(resp.profile.is_some());
        }
        _ => panic!("a new-domain request deserves a new-domain reply"),
    }
    let reply = manager_handle(
        &portal,
        &ManagerAction::GetDot(stemjail::srv::GetDotRequest {}),
    );
    match reply {
        ManagerReply::GetDot(resp) => assert!(resp.dot.unwrap().contains("ex1")),
        _ => panic!("a dot request deserves a dot reply"),
    }
}

#[test]
fn test_work_command_empty_argv() {
    let req = RunRequest { profile: Some("p".to_string()), command: vec!(), stdio: false };
    let err = req.work_command(&vec!()).unwrap_err();
    assert!(err.starts_with("Missing executable"));
    // The profile template fills in when the client gave no words.
    let (exe, args) = req.work_command(&vec!("/bin/sh".to_string(), "-c".to_string())).unwrap();
    assert_eq!(exe, "/bin/sh".to_string());
    assert_eq!(args, vec!("-c".to_string()));
    // The client's own words win over the template.
    let req = RunRequest {
        profile: None,
        command: vec!("/bin/true".to_string(), "x".to_string()),
        stdio: false,
    };
    let (exe, args) = req.work_command(&vec!("/bin/sh".to_string())).unwrap();
    assert_eq!(exe, "/bin/true".to_string());
    assert_eq!(args, vec!("x".to_string()));
}

#[test]
fn test_access_transition_grows_the_jail() {
    let portal = portal_with(&[ex1_text(), home_text()], true);
    let resp = new_dom_response(&portal, &DomDesc::Name("ex1".to_string()));
    let (pd, _) = match require_profile(resp) {
        Ok(x) => x,
        Err(e) => panic!("{}", e),
    };
    let mut jail = Jail::new("ex1".to_string(), pd.jdom, vec!(), 7, true);
    let _ = jail.init_fs(&vec!(), 7, &None);
    let before = jail.ns.mounts.len();
    // Ask to read a path only the wider domain grants.
    let granted = match jail.gain_access(
        vec!(fa("/home/u/x", Action::Read)),
        &portal.pool,
        &vec!(),
    ) {
        Ok(g) => g,
        Err(()) => panic!("the wider domain must be reachable"),
    };
    assert!(!granted.is_empty());
    assert!(granted.iter().any(|b| b.dst == "/home/u".to_string()));
    assert!(granted.iter().all(|b| b.from_parent));
    // Everything granted before stays mounted; the new binds joined.
    assert_eq!(jail.ns.mounts.len(), before + granted.len());
    assert_eq!(jail.jdom.dom.name, "home".to_string());
    // An unreachable access leaves the jail unchanged.
    let after = jail.ns.mounts.len();
    assert!(jail.gain_access(vec!(fa("/etc", Action::Write)), &portal.pool, &vec!()).is_err());
    assert_eq!(jail.ns.mounts.len(), after);
}

#[test]
fn test_gain_access_same_domain_adds_nothing() {
    let portal = portal_with(&[ex1_text()], true);
    let resp = new_dom_response(&portal, &DomDesc::Name("ex1".to_string()));
    let (pd, _) = match require_profile(resp) {
        Ok(x) => x,
        Err(e) => panic!("{}", e),
    };
    let mut jail = Jail::new("ex1".to_string(), pd.jdom, vec!(), 7, true);
    let _ = jail.init_fs(&vec!(), 7, &None);
    let before = jail.ns.mounts.len();
    let granted = match jail.gain_access(vec!(fa("/tmp/y", Action::Read)), &portal.pool, &vec!()) {
        Ok(g) => g,
        Err(()) => panic!("the current domain already grants this"),
    };
    assert!(granted.is_empty());
    assert_eq!(jail.ns.mounts.len(), before);
    // The same-identity answer leaves the domain untouched.
    assert_eq!(jail.jdom.dom.name, "ex1".to_string());
}

#[test]
fn test_failed_transition_import_reverts_the_domain() {
    let portal = portal_with(&[ex1_text(), home_text()], true);
    let resp = new_dom_response(&portal, &DomDesc::Name("ex1".to_string()));
    let (pd, _) = match require_profile(resp) {
        Ok(x) => x,
        Err(e) => panic!("{}", e),
    };
    let mut jail = Jail::new("ex1".to_string(), pd.jdom, vec!(), 7, true);
    let _ = jail.init_fs(&vec!(), 7, &None);
    let before = jail.ns.mounts.len();
    // The transition plan names the binds to import.
    let acl = vec!(fa("/home/u/x", Action::Read));
    let planned = jail.transition_binds(&acl, &portal.pool).unwrap();
    assert_eq!(planned.len(), 1);
    // The import failed: the domain reverts, nothing half-applied shows.
    let r = jail.gain_access(acl, &portal.pool, &vec!(false));
    assert!(r.is_err());
    assert_eq!(jail.jdom.dom.name, "ex1".to_string());
    assert_eq!(jail.ns.mounts.len(), before);
}

#[test]
fn test_access_request_checks() {
    // A relative path is refused.
    let req = AccessRequest::new("relative".to_string(), false);
    assert_eq!(req.check().unwrap_err(), "The path is not absolute".to_string());
    // /proc is never served.
    let req = AccessRequest::new("/proc/1".to_string(), false);
    assert_eq!(req.check().unwrap_err(), "Access denied to /proc".to_string());
    let req = AccessRequest::new("/home/u".to_string(), true);
    assert!(req.check().is_ok());
    // The same rule guards directory listing.
    let list = ListRequest { path: "/proc/1".to_string() };
    assert!(list.check().is_err());
    let list = ListRequest { path: "/etc".to_string() };
    assert!(list.check().is_ok());
}

#[test]
fn test_access_cache_suppresses_repeats() {
    let mut cache = AccessCache::new();
    let data = AccessData { path: "/home/u/x".to_string(), write: false };
    // A cold cache asks, and asks for the full list.
    let req = cache.check(&data).unwrap();
    assert!(req.get_all_access);
    assert_eq!(req.data.path, "/home/u/x".to_string());
    // A grant of the parent prefix-covers the request.
    cache.grant(&vec!(AccessData { path: "/home/u".to_string(), write: false }));
    assert!(cache.check(&data).is_none());
    // A warm cache no longer asks for everything.
    let other = AccessData { path: "/var/db".to_string(), write: false };
    let req = cache.check(&other).unwrap();
    assert!(!req.get_all_access);
    // An exact denial is remembered; a write wish on the same path is not
    // covered by the read grant.
    let wr = AccessData { path: "/home/u/x".to_string(), write: true };
    assert!(cache.check(&wr).is_some());
    cache.deny(&wr);
    assert!(cache.check(&wr).is_none());
}

#[test]
fn test_monitor_responses() {
    // A confined jail serves no listing.
    let r = list_response(true, vec!("x".to_string()));
    assert!(r.result.is_empty());
    let r = list_response(false, vec!("x".to_string()));
    assert_eq!(r.result, vec!("x".to_string()));
    // The full bind set comes back only when asked for.
    let granted = vec!(BindMount::new("/home/u".to_string(), "/home/u".to_string()));
    let current = vec!(
        BindMount::new("/tmp".to_string(), "/tmp".to_string()).writable(true),
        BindMount::new("/home/u".to_string(), "/home/u".to_string()),
    );
    let r = access_response(&granted, &current, false);
    assert_eq!(r.new_access.len(), 1);
    assert_eq!(r.new_access[0].path, "/home/u".to_string());
    assert!(!r.new_access[0].write);
    let r = access_response(&granted, &current, true);
    assert_eq!(r.new_access.len(), 2);
    assert_eq!(r.new_access[0].path, "/tmp".to_string());
    assert!(r.new_access[0].write);
}

#[test]
fn test_from_domain_merges_read_write() {
    let d = Domain {
        name: "d".to_string(),
        acl: vec!(
            fa("/tmp", Action::Read),
            fa("/tmp", Action::Write),
            fa("/etc", Action::Read),
        ),
    };
    let jdom: JailDom = from_domain(d);
    assert_eq!(jdom.binds.len(), 2);
    assert!(jdom.binds[0].writable);
    assert_eq!(jdom.binds[0].src, "/tmp".to_string());
    assert!(!jdom.binds[1].writable);
    assert_eq!(jdom.binds[1].src, "/etc".to_string());
}
