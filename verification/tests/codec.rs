//! Wire encodings travel there and back.

use stemjail::cmd::{MonitorCall, PortalAck, PortalCall, PortalRequest};
use stemjail::cmd::info::{DotRequest, DotResponse, InfoAction};
use stemjail::cmd::mount::{MountAction, MountRequest};
use stemjail::cmd::run::{RunAction, RunRequest};
use stemjail::cmd::shim::{AccessData, AccessRequest, AccessResponse, ListRequest, ListResponse,
    ShimAction};
use stemjail::jail::BindMount;
use stemjail::wire::{frame_message, parse_frame};

#[test]
fn test_portal_call_run_round_trip() {
    let call = PortalCall::Run(RunAction::DoRun(RunRequest {
        profile: Some("example1".to_string()),
        command: vec!("/bin/sh".to_string(), "-c".to_string(), "id".to_string()),
        stdio: true,
    }));
    let bytes = call.encode().unwrap();
    let back = PortalCall::decode(&bytes).unwrap();
    match back {
        PortalCall::Run(RunAction::DoRun(req)) => {
            assert_eq!(req.profile, Some("example1".to_string()));
            assert_eq!(req.command, vec!("/bin/sh".to_string(), "-c".to_string(), "id".to_string()));
            assert!(req.stdio);
        }
        _ => panic!("wrong call came back"),
    }
}

#[test]
fn test_portal_call_info_round_trip() {
    let call = PortalCall::Info(InfoAction::GetDot(DotRequest {}));
    let bytes = call.encode().unwrap();
    let back = PortalCall::decode(&bytes).unwrap();
    assert!(matches!(back, PortalCall::Info(InfoAction::GetDot(_))));
}

#[test]
fn test_portal_call_no_profile_round_trip() {
    let call = PortalCall::Run(RunAction::DoRun(RunRequest {
        profile: None,
        command: vec!("/bin/true".to_string()),
        stdio: false,
    }));
    let bytes = call.encode().unwrap();
    match PortalCall::decode(&bytes).unwrap() {
        PortalCall::Run(RunAction::DoRun(req)) => {
            assert_eq!(req.profile, None);
            assert_eq!(req.command, vec!("/bin/true".to_string()));
            assert!(!req.stdio);
        }
        _ => panic!("wrong call came back"),
    }
}

#[test]
fn test_monitor_call_mount_round_trip() {
    let call = MonitorCall::Mount(MountAction::DoMount(MountRequest {
        bind: BindMount {
            src: "/home/u".to_string(),
            dst: "/data".to_string(),
            writable: true,
            from_parent: true,
        },
    }));
    let bytes = call.encode().unwrap();
    match MonitorCall::decode(&bytes).unwrap() {
        MonitorCall::Mount(MountAction::DoMount(req)) => {
            assert_eq!(req.bind.src, "/home/u".to_string());
            assert_eq!(req.bind.dst, "/data".to_string());
            assert!(req.bind.writable);
            assert!(req.bind.from_parent);
        }
        _ => panic!("wrong call came back"),
    }
}

#[test]
fn test_monitor_call_shim_round_trip() {
    let call = MonitorCall::Shim(ShimAction::Access(AccessRequest {
        data: AccessData { path: "/home/u/x".to_string(), write: false },
        get_all_access: true,
    }));
    let bytes = call.encode().unwrap();
    match MonitorCall::decode(&bytes).unwrap() {
        MonitorCall::Shim(ShimAction::Access(req)) => {
            assert_eq!(req.data.path, "/home/u/x".to_string());
            assert!(!req.data.write);
            assert!(req.get_all_access);
        }
        _ => panic!("wrong call came back"),
    }

    let list = MonitorCall::Shim(ShimAction::List(ListRequest { path: "/etc".to_string() }));
    let bytes = list.encode().unwrap();
    match MonitorCall::decode(&bytes).unwrap() {
        MonitorCall::Shim(ShimAction::List(req)) => assert_eq!(req.path, "/etc".to_string()),
        _ => panic!("wrong call came back"),
    }
}

#[test]
fn test_portal_ack_round_trip() {
    for request in [PortalRequest::Nop, PortalRequest::CreateTty] {
        let ack = PortalAck { request };
        let bytes = ack.encode().unwrap();
        let back = PortalAck::decode(&bytes).unwrap();
        assert_eq!(back.request, request);
    }
}

#[test]
fn test_access_response_round_trip() {
    let resp = AccessResponse {
        new_access: vec!(
            AccessData { path: "/home/u".to_string(), write: false },
            AccessData { path: "/tmp".to_string(), write: true },
        ),
    };
    let bytes = resp.encode().unwrap();
    let back = AccessResponse::decode(&bytes).unwrap();
    assert_eq!(back.new_access.len(), 2);
    assert_eq!(back.new_access[0].path, "/home/u".to_string());
    assert!(!back.new_access[0].write);
    assert_eq!(back.new_access[1].path, "/tmp".to_string());
    assert!(back.new_access[1].write);

    let empty = AccessResponse { new_access: vec!() };
    let bytes = empty.encode().unwrap();
    assert_eq!(AccessResponse::decode(&bytes).unwrap().new_access.len(), 0);
}

#[test]
fn test_list_and_dot_responses_round_trip() {
    let resp = ListResponse { result: vec!("passwd".to_string(), "hosts".to_string()) };
    let bytes = resp.encode().unwrap();
    let back = ListResponse::decode(&bytes).unwrap();
    assert_eq!(back.result, vec!("passwd".to_string(), "hosts".to_string()));

    let dot = DotResponse { result: Some("digraph stemjail {\n}\n".to_string()) };
    let bytes = dot.encode().unwrap();
    assert_eq!(DotResponse::decode(&bytes).unwrap().result, dot.result);
    let none = DotResponse { result: None };
    let bytes = none.encode().unwrap();
    assert_eq!(DotResponse::decode(&bytes).unwrap().result, None);
}

#[test]
fn test_decode_rejects_garbage() {
    let garbage = vec![0xffu8, 0xee, 0xdd];
    assert!(PortalCall::decode(&garbage).is_err());
    assert!(MonitorCall::decode(&garbage).is_err());
    assert!(PortalAck::decode(&vec![9u8]).is_err());
    assert!(PortalCall::decode(&Vec::new()).is_err());
}

#[test]
fn test_encode_rejects_oversized_strings() {
    let big = "x".repeat(70000);
    let call = PortalCall::Run(RunAction::DoRun(RunRequest {
        profile: Some(big),
        command: vec!(),
        stdio: false,
    }));
    assert!(call.encode().is_err());
}

#[test]
fn test_frame_round_trip_and_limit() {
    let payload = vec![1u8, 2, 3, 4, 5];
    let framed = frame_message(&payload).unwrap();
    assert_eq!(framed.len(), payload.len() + 2);
    let (back, consumed) = parse_frame(&framed).unwrap();
    assert_eq!(back, payload);
    assert_eq!(consumed, framed.len());

    let over = vec![0u8; 70000];
    assert!(frame_message(&over).is_none());

    // A frame that has not fully arrived is not parsed.
    let partial = vec![5u8, 0, 1, 2];
    assert!(parse_frame(&partial).is_none());
}
