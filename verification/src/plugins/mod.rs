//! The first-generation client commands, kept for the older portal
//! protocol: a plugin parses its arguments and yields the command to send.

use vstd::prelude::*;

use crate::config::profile::cmd_view;

pub mod run;

verus! {

/// What the client does after a plugin has seen the arguments.
#[derive(Clone, Copy, Debug, PartialEq, Eq, Structural)]
pub enum KageAction {
    Nop,
    PrintHelp,
    SendPortalCommand,
}

/// What the portal asks of the client right after a call.
#[derive(Clone, Copy, Debug, PartialEq, Eq, Structural)]
pub enum PortalRequest {
    Nop,
    CreateTty,
}

/// The portal's acknowledgement of a plugin command.
#[derive(Clone, Copy, Debug, PartialEq, Eq, Structural)]
pub struct PortalAck {
    pub request: PortalRequest,
}

/// A command a plugin sends to the portal.
pub enum PluginCommand {
    Run(run::PortalRunCommand),
}

impl PluginCommand {
    /// Whether the portal's follow-up request is one this command admits:
    /// doing nothing always is, and a terminal may only be offered to a
    /// command that asked for one — anything else is a protocol violation.
    pub fn is_valid_request(&self, req: &PortalRequest) -> (r: bool)
        ensures
            r == (match self {
                PluginCommand::Run(c) => *req == PortalRequest::Nop || (*req
                    == PortalRequest::CreateTty && c.stdio),
            }),
    {
        match self {
            PluginCommand::Run(c) => match req {
                PortalRequest::Nop => true,
                PortalRequest::CreateTty => c.stdio,
            },
        }
    }
}

/// A client sub-command of the older protocol.
pub trait Plugin {
    /// The sub-command's name.
    fn get_name(&self) -> &String;

    /// Its usage text.
    fn get_usage(&self) -> String;

    /// The command to send, once the arguments have been seen.
    fn get_portal_cmd(&self) -> Option<PluginCommand>;

    /// Digest the arguments and say what to do next.
    fn init_client(&mut self, args: &Vec<String>) -> Result<KageAction, String>;
}

/// The plugin with the given name, if one exists.
pub fn get_plugin(name: &str) -> (r: Option<run::RunPlugin>)
    ensures
        r is Some <==> name@ == "run"@,
{
    if crate::path::str_eq(name, "run") {
        Some(run::RunPlugin::new())
    } else {
        None
    }
}

/// The names of the available plugins.
pub fn get_plugins_name() -> (r: Vec<String>)
    ensures
        cmd_view(r@) == seq!["run"@],
{
    let mut v: Vec<String> = Vec::new();
    v.push(String::from_str("run"));
    proof {
        assert(cmd_view(v@) =~= seq!["run"@]);
    }
    v
}

} // verus!
