//! The mount engine: expansion, sealing, staged imports, and the
//! initialization plan.

use stemjail::config::profile::JailDom;
use stemjail::jail::{BindMount, HostMount, Jail, JailError, MountOp, expand_binds,
    add_bind_ops, protected_paths, MS_RDONLY, MS_BIND, MS_REC, MS_MOVE, MS_REMOUNT};
use stemjail::pool::{Action, Domain, FileAccess};

fn host(file: &str) -> HostMount {
    HostMount {
        file: file.to_string(),
        read_only: false,
        noatime: false,
        nodiratime: false,
        relatime: false,
        nodev: false,
        noexec: false,
        nosuid: false,
    }
}

fn dom(name: &str, acl: Vec<FileAccess>) -> Domain {
    Domain { name: name.to_string(), acl }
}

fn jail_with_workdir() -> Jail {
    let jdom = JailDom { binds: vec!(), dom: dom("d0", vec!()) };
    let mut jail = Jail::new("j".to_string(), jdom, vec!(), 42, true);
    // Establish the workdir by planning the file-system initialization.
    let _ = jail.init_fs(&vec!(), 42, &None);
    jail
}

#[test]
fn test_expand_binds_adds_submounts_read_only() {
    let hosts = vec!(host("/"), host("/home"), host("/home/u/private"));
    let binds = vec!(BindMount::new("/home".to_string(), "/data".to_string()));
    let out = expand_binds(binds, &hosts, &vec!());
    assert_eq!(out.len(), 2);
    assert_eq!(out[0].src, "/home".to_string());
    assert_eq!(out[0].dst, "/data".to_string());
    assert_eq!(out[1].src, "/home/u/private".to_string());
    assert_eq!(out[1].dst, "/data/u/private".to_string());
    assert!(!out[1].writable);
}

#[test]
fn test_expand_binds_writable_stays_alone() {
    let hosts = vec!(host("/"), host("/home"), host("/home/u/private"));
    let binds = vec!(BindMount::new("/home".to_string(), "/data".to_string()).writable(true));
    let out = expand_binds(binds, &hosts, &vec!());
    assert_eq!(out.len(), 1);
    assert!(out[0].writable);
}

#[test]
fn test_expand_binds_masks_earlier_destinations() {
    let hosts = vec!(host("/"));
    let binds = vec!(
        BindMount::new("/a".to_string(), "/data/x".to_string()).writable(true),
        BindMount::new("/b".to_string(), "/data".to_string()).writable(true),
    );
    let out = expand_binds(binds, &hosts, &vec!());
    // The later bind overlays /data, so the earlier one at /data/x is gone.
    assert_eq!(out.len(), 1);
    assert_eq!(out[0].src, "/b".to_string());
}

#[test]
fn test_expand_binds_honors_excludes() {
    let hosts = vec!(host("/"), host("/home/sub"), host("/proc/fs"));
    let binds = vec!(BindMount::new("/".to_string(), "/root".to_string()));
    let excludes = vec!("/proc".to_string(), "/home".to_string());
    let out = expand_binds(binds, &hosts, &excludes);
    // Only the bind itself survives: both submounts are excluded, and "/"
    // itself is not a strict submount of its own source.
    assert_eq!(out.len(), 1);
    assert_eq!(out[0].dst, "/root".to_string());
}

#[test]
fn test_read_only_bind_is_sealed() {
    let hosts = vec!(host("/"));
    let bind = BindMount::new("/etc".to_string(), "/etc".to_string());
    let ops = add_bind_ops(&bind, "/proc/42/fdinfo", false, &hosts);
    // Destination creation, the recursive bind, the private remount, and
    // the read-only seal.
    assert_eq!(ops.len(), 4);
    match &ops[1] {
        MountOp::Bind { flags, .. } => assert_eq!(*flags, MS_BIND | MS_REC),
        _ => panic!("expected the bind"),
    }
    match &ops[3] {
        MountOp::Remount { flags, .. } => assert_eq!(*flags & MS_RDONLY, MS_RDONLY),
        _ => panic!("expected the sealing remount"),
    }

    let writable = BindMount::new("/tmp".to_string(), "/tmp".to_string()).writable(true);
    let ops = add_bind_ops(&writable, "/proc/42/fdinfo", false, &hosts);
    assert_eq!(ops.len(), 2);
}

#[test]
fn test_sealing_inherits_source_mount_bits() {
    let mut h = host("/etc");
    h.nosuid = true;
    h.nodev = true;
    let hosts = vec!(host("/"), h);
    let bind = BindMount::new("/etc/ssl".to_string(), "/etc/ssl".to_string());
    let ops = add_bind_ops(&bind, "/root", true, &hosts);
    match &ops[3] {
        MountOp::Remount { flags, .. } => {
            assert_eq!(*flags & MS_RDONLY, MS_RDONLY);
            assert_ne!(*flags & 2, 0);  // nosuid carried over
            assert_ne!(*flags & 4, 0);  // nodev carried over
            assert_eq!(*flags & MS_REMOUNT, MS_REMOUNT);
        }
        _ => panic!("expected the sealing remount"),
    }
}

#[test]
fn test_init_fs_plan_provides_proc_and_dev() {
    let mut jail = jail_with_workdir();
    let hosts = vec!(host("/"));
    let ops = jail.init_fs(&hosts, 42, &None);
    let root = "/proc/42/fdinfo";
    assert!(ops.iter().any(|op| matches!(op, MountOp::Procfs { dst } if dst == &format!("{}/proc", root))));
    assert!(ops.iter().any(|op| matches!(op, MountOp::Bind { src, .. } if src == "/dev/null")));
    assert!(ops.iter().any(|op| matches!(op, MountOp::Bind { src, .. } if src == "/dev/urandom")));
    assert!(ops.iter().any(|op| matches!(op, MountOp::Symlink { src, .. } if src == "/proc/self/fd")));
    // The pivot is third from the end, followed only by the change of
    // directory and the move hiding the workdir.
    let n = ops.len();
    assert!(matches!(&ops[n - 3], MountOp::PivotRoot { new_root, .. } if new_root == root));
    assert!(matches!(&ops[n - 2], MountOp::Chdir { .. }));
    assert!(matches!(&ops[n - 1], MountOp::Move { .. }));
    assert_eq!(jail.workdir, Some("/proc/42/fdinfo".to_string()));
}

#[test]
fn test_import_plan_rejects_protected_paths() {
    let jail = jail_with_workdir();
    let to_proc = BindMount::new("/a".to_string(), "/proc/sys".to_string());
    match jail.import_plan(&to_proc, false, &vec!()) {
        Err(JailError::ProtectedDestination) => {}
        _ => panic!("a destination under /proc must be refused"),
    }
    let from_dev = BindMount::new("/dev/mem".to_string(), "/x".to_string()).from_parent(true);
    match jail.import_plan(&from_dev, false, &vec!()) {
        Err(JailError::ParentAccessDenied) => {}
        _ => panic!("a parent source under /dev must be refused"),
    }
}

#[test]
fn test_import_plan_requires_workdir() {
    let jdom = JailDom { binds: vec!(), dom: dom("d0", vec!()) };
    let jail = Jail::new("j".to_string(), jdom, vec!(), 42, true);
    let bind = BindMount::new("/a".to_string(), "/b".to_string());
    match jail.import_plan(&bind, false, &vec!()) {
        Err(JailError::NoWorkdir) => {}
        _ => panic!("an import needs an established workdir"),
    }
}

#[test]
fn test_import_plan_stages_then_moves() {
    let jail = jail_with_workdir();
    let bind = BindMount::new("/home".to_string(), "/data".to_string()).writable(true);
    let plan = jail.import_plan(&bind, true, &vec!(host("/"))).unwrap();
    assert_eq!(plan.visible.len(), 1);
    assert_eq!(plan.visible[0].dst, "/data".to_string());
    assert!(plan.staged[0].dst.starts_with(&plan.staging_dir));
    match plan.ops.last().unwrap() {
        MountOp::Move { src, dst } => {
            assert_eq!(src, &plan.staging_dir);
            assert_eq!(dst, &"/data".to_string());
        }
        _ => panic!("the final operation must be the move"),
    }
}

#[test]
fn test_failed_import_leaves_mounts_unchanged() {
    let mut jail = jail_with_workdir();
    let before = jail.ns.mounts.len();
    let bind = BindMount::new("/home".to_string(), "/data".to_string()).writable(true);
    // A staged mount failed: nothing becomes visible.
    match jail.import_bind(&bind, true, &vec!(host("/")), 0, true) {
        Err(JailError::MountFailure) => {}
        _ => panic!("a failed staging mount must surface"),
    }
    assert_eq!(jail.ns.mounts.len(), before);
    // The move onto the destination collided: the original error surfaces
    // and nothing becomes visible.
    match jail.import_bind(&bind, true, &vec!(host("/")), usize::MAX, false) {
        Err(JailError::MoveFailure) => {}
        _ => panic!("a failed move must surface"),
    }
    assert_eq!(jail.ns.mounts.len(), before);
    assert_eq!(
        JailError::MoveFailure.message(),
        "Failed to move the temporary mount point".to_string(),
    );
    // With every operation succeeding the bind appears.
    jail.import_bind(&bind, true, &vec!(host("/")), usize::MAX, true).unwrap();
    assert_eq!(jail.ns.mounts.len(), before + 1);
    assert_eq!(jail.ns.mounts[before].dst, "/data".to_string());
}

#[test]
fn test_protected_paths_are_dev_and_proc() {
    let p = protected_paths();
    assert_eq!(p, vec!("/dev".to_string(), "/proc".to_string()));
    assert_eq!(MS_MOVE, 8192);
}

#[test]
fn test_expand_binds_reapplication_is_stable() {
    let hosts = vec!(host("/"), host("/home"), host("/home/u/private"));
    let binds = vec!(
        BindMount::new("/tmp".to_string(), "/tmp".to_string()).writable(true),
        BindMount::new("/etc".to_string(), "/etc".to_string()),
    );
    let once = expand_binds(binds, &hosts, &vec!());
    let again = expand_binds(
        once.iter().map(|b| b.duplicate()).collect(),
        &hosts,
        &vec!(),
    );
    assert_eq!(once.len(), again.len());
    for (a, b) in once.iter().zip(again.iter()) {
        assert!(a == b);
    }
}

#[test]
fn test_two_jails_are_independent() {
    let mut a = jail_with_workdir();
    let b = jail_with_workdir();
    let before_b = b.ns.mounts.len();
    let bind = BindMount::new("/home".to_string(), "/data".to_string()).writable(true);
    a.import_bind(&bind, true, &vec!(host("/")), usize::MAX, true).unwrap();
    assert_eq!(b.ns.mounts.len(), before_b);
    assert!(a.ns.mounts.len() > before_b);
}
