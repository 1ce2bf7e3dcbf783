//! StemJail: an unprivileged per-application sandbox.
//!
//! The library plans and models the mount-namespace operations that confine a
//! process to a subset of the file system, mediates runtime access-escalation
//! requests, and speaks the portal/monitor wire protocol.

use vstd::prelude::*;

pub mod cmd;
pub mod config;
pub mod jail;
pub mod path;
pub mod plugins;
pub mod pool;
pub mod srv;
pub mod text;
pub mod wire;

verus! {

/// Absolute path of the in-jail monitor socket.
pub fn monitor_socket_path() -> (r: String)
    ensures
        r@ == "/tmp/monitor.sock"@,
{
    String::from_str("/tmp/monitor.sock")
}

/// Path of the portal socket, relative to the portal's working directory.
pub fn portal_socket_path() -> (r: String)
    ensures
        r@ == "./portal.sock"@,
{
    String::from_str("./portal.sock")
}

/// Directory scanned for profile files, relative to the portal's working directory.
pub fn portal_profiles_path() -> (r: String)
    ensures
        r@ == "./config/profiles"@,
{
    String::from_str("./config/profiles")
}

/// Environment variable naming the shim library preloaded into jailed processes.
pub fn portal_lib_preload_env() -> (r: String)
    ensures
        r@ == "STEMJAIL_LIB_SHIM_PATH"@,
{
    String::from_str("STEMJAIL_LIB_SHIM_PATH")
}

} // verus!
