//! The `run` plugin of the older protocol.

use vstd::prelude::*;

use crate::config::profile::{clone_strings, cmd_view};
use crate::plugins::{KageAction, PluginCommand};

verus! {

/// The run command of the older protocol: a profile name, the words to
/// execute, and whether a terminal was asked for.
pub struct PortalRunCommand {
    pub profile: String,
    pub command: Vec<String>,
    pub stdio: bool,
}

impl PortalRunCommand {
    /// An identical copy.
    pub fn duplicate(&self) -> (r: PortalRunCommand)
        ensures
            r.profile@ == self.profile@,
            cmd_view(r.command@) == cmd_view(self.command@),
            r.stdio == self.stdio,
    {
        PortalRunCommand {
            profile: self.profile.clone(),
            command: clone_strings(&self.command),
            stdio: self.stdio,
        }
    }
}

/// The `run` sub-command: its name and, once the arguments have been seen,
/// the command it will send.
pub struct RunPlugin {
    name: String,
    portal_cmd: Option<PortalRunCommand>,
}

impl RunPlugin {
    /// The recorded command, for specifications.
    pub closed spec fn spec_portal_cmd(&self) -> Option<PortalRunCommand> {
        self.portal_cmd
    }

    /// A fresh plugin with nothing parsed yet.
    pub fn new() -> (r: RunPlugin)
        ensures
            r.spec_portal_cmd() is None,
    {
        RunPlugin { name: String::from_str("run"), portal_cmd: None }
    }
}

impl crate::plugins::Plugin for RunPlugin {
    fn get_name(&self) -> &String {
        &self.name
    }

    fn get_usage(&self) -> String {
        String::from_str("usage: run [-t] PROFILE [COMMAND...]")
    }

    fn get_portal_cmd(&self) -> Option<PluginCommand> {
        match &self.portal_cmd {
            Some(c) => Some(PluginCommand::Run(c.duplicate())),
            None => None,
        }
    }

    fn init_client(&mut self, args: &Vec<String>) -> Result<KageAction, String> {
        let mut stdio = false;
        let mut rest: Vec<String> = Vec::new();
        let mut i: usize = 0;
        while i < args.len()
            invariant
                0 <= i <= args@.len(),
            decreases args@.len() - i,
        {
            if crate::path::str_eq(args[i].as_str(), "-h") || crate::path::str_eq(
                args[i].as_str(),
                "--help",
            ) {
                return Ok(KageAction::PrintHelp);
            }
            if crate::path::str_eq(args[i].as_str(), "-t") || crate::path::str_eq(
                args[i].as_str(),
                "--tty",
            ) {
                stdio = true;
            } else {
                rest.push(args[i].clone());
            }
            i = i + 1;
        }
        if rest.len() == 0 {
            let e = String::from_str("Need a profile name");
            return Err(e);
        }
        let profile = rest[0].clone();
        let mut command: Vec<String> = Vec::new();
        let mut j: usize = 1;
        while j < rest.len()
            invariant
                1 <= j <= rest@.len(),
            decreases rest@.len() - j,
        {
            command.push(rest[j].clone());
            j = j + 1;
        }
        self.portal_cmd = Some(PortalRunCommand { profile, command, stdio });
        Ok(KageAction::SendPortalCommand)
    }
}

} // verus!
