//! The per-call state machines and the plugin front end.

use stemjail::cmd::{PortalAck, PortalCall, PortalRequest, list_kage_cmd_names};
use stemjail::cmd::info::{DotResponse};
use stemjail::cmd::info::fsm_portal::PortalFsm;
use stemjail::cmd::mount::{MountRequest, fsm_kage::KageFsm as MountKageFsm};
use stemjail::cmd::run::{RunAction, RunRequest, fsm_kage::KageFsm as RunKageFsm};
use stemjail::cmd::run::fsm_portal::RequestFsm;
use stemjail::cmd::shim::fsm_kage::KageFsm as ShimKageFsm;
use stemjail::cmd::shim::fsm_monitor::MonitorFsm;
use stemjail::cmd::shim::{AccessResponse, ListRequest, ListResponse};
use stemjail::jail::BindMount;
use stemjail::plugins::{KageAction, Plugin, PluginCommand, get_plugin, get_plugins_name};
use stemjail::wire::parse_frame;

#[test]
fn test_run_fsm_round() {
    // Client side: the call goes out framed, and the acknowledgement is
    // validated against the terminal wish.
    let machine = RunKageFsm::new();
    let req = RunRequest { profile: Some("ex1".to_string()), command: vec!(), stdio: true };
    let (machine, bytes) = machine.send_run(req).unwrap();
    let (payload, _) = parse_frame(&bytes).unwrap();
    match PortalCall::decode(&payload).unwrap() {
        PortalCall::Run(RunAction::DoRun(r)) => assert!(r.stdio),
        _ => panic!("the framed bytes must decode to the call"),
    }
    let (_machine, granted) = machine.recv_ack(
        &PortalAck { request: PortalRequest::CreateTty },
    ).unwrap();
    assert_eq!(granted, PortalRequest::CreateTty);

    // A terminal offered to a client that asked for none is a protocol
    // violation and aborts the exchange.
    let machine = RunKageFsm::new();
    let req = RunRequest { profile: None, command: vec!("/bin/true".to_string()), stdio: false };
    let (machine, _) = machine.send_run(req).unwrap();
    match machine.recv_ack(&PortalAck { request: PortalRequest::CreateTty }) {
        Err(err) => assert_eq!(err, "Invalid request".to_string()),
        Ok(_) => panic!("an unsolicited terminal offer must be refused"),
    }

    // Portal side: the acknowledgement frames, then the machine walks the
    // descriptor steps in order.
    let portal = RequestFsm::new();
    let (portal, bytes) = portal.send_ack(&PortalAck { request: PortalRequest::Nop }).unwrap();
    let (payload, _) = parse_frame(&bytes).unwrap();
    assert_eq!(PortalAck::decode(&payload).unwrap().request, PortalRequest::Nop);
    let _ready = portal.no_recv_fd();
}

#[test]
fn test_mount_fsm_frames_the_call() {
    let machine = MountKageFsm::new();
    let req = MountRequest {
        bind: BindMount::new("/a".to_string(), "/b".to_string()).writable(true),
    };
    assert!(req.check().is_ok());
    let bytes = machine.send_mount(req).unwrap();
    assert!(parse_frame(&bytes).is_some());

    let bad = MountRequest { bind: BindMount::new("a".to_string(), "/b".to_string()) };
    assert_eq!(
        bad.check().unwrap_err(),
        "The mount source is not an absolute path".to_string(),
    );
    let bad = MountRequest { bind: BindMount::new("/a".to_string(), "b".to_string()) };
    assert_eq!(
        bad.check().unwrap_err(),
        "The mount destination is not an absolute path".to_string(),
    );
}

#[test]
fn test_shim_fsm_round() {
    let machine = ShimKageFsm::new();
    let (machine, bytes) = machine.send_list_request(
        ListRequest { path: "/etc".to_string() },
    ).unwrap();
    assert!(parse_frame(&bytes).is_some());

    // Monitor side: the response frames; the client reads it back.
    let monitor = MonitorFsm::new();
    let resp = ListResponse { result: vec!("passwd".to_string()) };
    let framed = monitor.send_list_response(&resp).unwrap();
    let (payload, _) = parse_frame(&framed).unwrap();
    let back = machine.recv_list_response(&payload).unwrap();
    assert_eq!(back.result, vec!("passwd".to_string()));

    let machine = ShimKageFsm::new();
    let (machine, _) = machine.send_access_request(
        stemjail::cmd::shim::AccessRequest::new("/home/u".to_string(), false),
    ).unwrap();
    let monitor = MonitorFsm::new();
    let framed = monitor.send_access_response(&AccessResponse { new_access: vec!() }).unwrap();
    let (payload, _) = parse_frame(&framed).unwrap();
    assert!(machine.recv_access_response(&payload).unwrap().new_access.is_empty());
}

#[test]
fn test_info_fsm_sends_dot() {
    let machine = PortalFsm::new();
    let framed = machine.send_dot_response(
        &DotResponse { result: Some("digraph stemjail {\n}\n".to_string()) },
    ).unwrap();
    let (payload, _) = parse_frame(&framed).unwrap();
    assert_eq!(
        DotResponse::decode(&payload).unwrap().result,
        Some("digraph stemjail {\n}\n".to_string()),
    );
}

#[test]
fn test_kage_cmd_names() {
    let names = list_kage_cmd_names();
    assert_eq!(
        names,
        vec!("info".to_string(), "mount".to_string(), "run".to_string(), "shim".to_string()),
    );
}

#[test]
fn test_run_plugin_parses_arguments() {
    assert_eq!(get_plugins_name(), vec!("run".to_string()));
    assert!(get_plugin("nope").is_none());
    let mut plugin = get_plugin("run").unwrap();
    assert_eq!(plugin.get_name(), &"run".to_string());
    assert_eq!(
        plugin.init_client(&vec!("-h".to_string())).unwrap(),
        KageAction::PrintHelp,
    );
    assert_eq!(
        plugin.init_client(&vec!()).unwrap_err(),
        "Need a profile name".to_string(),
    );
    let action = plugin.init_client(
        &vec!("ex1".to_string(), "/bin/sh".to_string()),
    ).unwrap();
    assert_eq!(action, KageAction::SendPortalCommand);
    match plugin.get_portal_cmd().unwrap() {
        PluginCommand::Run(cmd) => {
            assert_eq!(cmd.profile, "ex1".to_string());
            assert_eq!(cmd.command, vec!("/bin/sh".to_string()));
            assert!(!cmd.stdio);
            // A terminal offer without a terminal wish is a violation.
            let cmd = PluginCommand::Run(cmd);
            assert!(cmd.is_valid_request(&stemjail::plugins::PortalRequest::Nop));
            assert!(!cmd.is_valid_request(&stemjail::plugins::PortalRequest::CreateTty));
        }
    }
    // With the terminal flag the offer is admitted.
    let mut plugin = get_plugin("run").unwrap();
    plugin.init_client(&vec!("-t".to_string(), "ex1".to_string())).unwrap();
    match plugin.get_portal_cmd().unwrap() {
        PluginCommand::Run(cmd) => {
            assert!(cmd.stdio);
            assert!(PluginCommand::Run(cmd).is_valid_request(
                &stemjail::plugins::PortalRequest::CreateTty,
            ));
        }
    }
}
