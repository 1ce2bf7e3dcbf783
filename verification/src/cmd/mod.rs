//! The wire protocol: the calls a client may make on the portal and the
//! monitor, their acknowledgements, and the round-trip guarantees of their
//! encodings.

use vstd::prelude::*;

use crate::cmd::run::{RunAction, RunActionV, spec_run_action_fits, spec_enc_run_action,
    spec_dec_run_action, enc_run_action, dec_run_action, lemma_run_action_frame};
use crate::cmd::info::{InfoAction, InfoActionV, spec_enc_info_action, spec_dec_info_action,
    enc_info_action, dec_info_action, lemma_info_action_frame};
use crate::cmd::mount::{MountAction, MountActionV, spec_mount_action_fits, spec_enc_mount_action,
    spec_dec_mount_action, enc_mount_action, dec_mount_action, lemma_mount_action_frame};
use crate::cmd::shim::{ShimAction, ShimActionV, spec_shim_action_fits, spec_enc_shim_action,
    spec_dec_shim_action, enc_shim_action, dec_shim_action, lemma_shim_action_frame};
use crate::wire::{spec_enc_tag, spec_dec_tag, enc_tag, dec_tag, lemma_tag_frame, lemma_sub_at};

pub mod info;
pub mod mount;
pub mod run;
pub mod shim;
pub mod util;

verus! {

/// Why a message could not travel the wire.
#[derive(Clone, Copy, Debug, PartialEq, Eq, Structural)]
pub enum ProtocolError {
    /// The encoding exceeds the frame limit.
    TooBig,
    /// The bytes do not spell a message.
    Malformed,
}

impl ProtocolError {
    /// A short reason for logs and client replies.
    pub fn message(&self) -> (r: String)
        ensures
            r@ == (match self {
                ProtocolError::TooBig => "Command too big"@,
                ProtocolError::Malformed => "Failed to decode"@,
            }),
    {
        let m: &str = match self {
            ProtocolError::TooBig => "Command too big",
            ProtocolError::Malformed => "Failed to decode",
        };
        m.to_owned()
    }
}

/// What the portal asks of the client right after a call.
#[derive(Clone, Copy, Debug, PartialEq, Eq, Structural)]
pub enum PortalRequest {
    /// Nothing: proceed.
    Nop,
    /// Send a template descriptor so a fresh terminal can be brokered.
    CreateTty,
}

/// Abstract value of a [`PortalAck`].
pub ghost struct PortalAckV {
    pub request: PortalRequest,
}

/// The portal's acknowledgement of a call.
#[derive(Clone, Copy)]
pub struct PortalAck {
    pub request: PortalRequest,
}

impl View for PortalAck {
    type V = PortalAckV;

    open spec fn view(&self) -> PortalAckV {
        PortalAckV { request: self.request }
    }
}

/// The acknowledgement on the wire: one tag.
pub open spec fn spec_enc_portal_ack(v: PortalAckV) -> Seq<u8> {
    match v.request {
        PortalRequest::Nop => spec_enc_tag(0),
        PortalRequest::CreateTty => spec_enc_tag(1),
    }
}

/// The acknowledgement at `i`.
pub open spec fn spec_dec_portal_ack(b: Seq<u8>, i: int) -> Option<(PortalAckV, int)> {
    match spec_dec_tag(b, i) {
        None => None,
        Some((t, j)) => if t == 0 {
            Some((PortalAckV { request: PortalRequest::Nop }, j))
        } else if t == 1 {
            Some((PortalAckV { request: PortalRequest::CreateTty }, j))
        } else {
            None
        },
    }
}

/// Decode-after-encode yields the original acknowledgement.
pub proof fn lemma_portal_ack_round_trip(v: PortalAckV)
    ensures
        spec_dec_portal_ack(spec_enc_portal_ack(v), 0) == Some(
            (v, spec_enc_portal_ack(v).len() as int),
        ),
{
    let e = spec_enc_portal_ack(v);
    assert(e.subrange(0, 1) =~= e);
    match v.request {
        PortalRequest::Nop => lemma_tag_frame(e, 0, 0),
        PortalRequest::CreateTty => lemma_tag_frame(e, 0, 1),
    }
}

impl PortalAck {
    /// Encode for the wire.
    pub fn encode(&self) -> (r: Result<Vec<u8>, ProtocolError>)
        ensures
            r matches Ok(bytes) && bytes@ == spec_enc_portal_ack(self@),
    {
        let mut out: Vec<u8> = Vec::new();
        match self.request {
            PortalRequest::Nop => enc_tag(&mut out, 0),
            PortalRequest::CreateTty => enc_tag(&mut out, 1),
        }
        proof {
            assert(out@ =~= spec_enc_portal_ack(self@));
        }
        Ok(out)
    }

    /// Decode from the wire.
    pub fn decode(b: &Vec<u8>) -> (r: Result<PortalAck, ProtocolError>)
        ensures
            match r {
                Ok(v) => spec_dec_portal_ack(b@, 0) matches Some(p) && p.0 == v@,
                Err(_) => spec_dec_portal_ack(b@, 0) is None,
            },
    {
        match dec_tag(b, 0) {
            Some((t, _)) => if t == 0 {
                Ok(PortalAck { request: PortalRequest::Nop })
            } else if t == 1 {
                Ok(PortalAck { request: PortalRequest::CreateTty })
            } else {
                Err(ProtocolError::Malformed)
            },
            None => Err(ProtocolError::Malformed),
        }
    }
}

/// Abstract value of a [`PortalCall`].
pub ghost enum PortalCallV {
    Run(RunActionV),
    Info(InfoActionV),
}

/// A call on the portal socket.
pub enum PortalCall {
    Run(RunAction),
    Info(InfoAction),
}

impl View for PortalCall {
    type V = PortalCallV;

    open spec fn view(&self) -> PortalCallV {
        match self {
            PortalCall::Run(a) => PortalCallV::Run(a@),
            PortalCall::Info(a) => PortalCallV::Info(a@),
        }
    }
}

/// Whether the call fits the wire limits.
pub open spec fn spec_portal_call_fits(v: PortalCallV) -> bool {
    match v {
        PortalCallV::Run(a) => spec_run_action_fits(a),
        PortalCallV::Info(_) => true,
    }
}

/// The call on the wire: a tag, then the action.
pub open spec fn spec_enc_portal_call(v: PortalCallV) -> Seq<u8> {
    match v {
        PortalCallV::Run(a) => spec_enc_tag(0) + spec_enc_run_action(a),
        PortalCallV::Info(a) => spec_enc_tag(1) + spec_enc_info_action(a),
    }
}

/// The call at `i`.
pub open spec fn spec_dec_portal_call(b: Seq<u8>, i: int) -> Option<(PortalCallV, int)> {
    match spec_dec_tag(b, i) {
        None => None,
        Some((t, j)) => if t == 0 {
            match spec_dec_run_action(b, j) {
                None => None,
                Some((a, k)) => Some((PortalCallV::Run(a), k)),
            }
        } else if t == 1 {
            match spec_dec_info_action(b, j) {
                None => None,
                Some((a, k)) => Some((PortalCallV::Info(a), k)),
            }
        } else {
            None
        },
    }
}

/// Decode-after-encode yields the original portal call.
pub proof fn lemma_portal_call_round_trip(v: PortalCallV)
    requires
        spec_portal_call_fits(v),
    ensures
        spec_dec_portal_call(spec_enc_portal_call(v), 0) == Some(
            (v, spec_enc_portal_call(v).len() as int),
        ),
{
    let e = spec_enc_portal_call(v);
    assert(e.subrange(0, e.len() as int) =~= e);
    match v {
        PortalCallV::Run(a) => {
            assert(spec_enc_tag(0) =~= e.subrange(0, 1));
            lemma_sub_at(e, 0, 0, spec_enc_tag(0), e);
            lemma_tag_frame(e, 0, 0);
            assert(spec_enc_run_action(a) =~= e.subrange(1, e.len() as int));
            lemma_sub_at(e, 0, 1, spec_enc_run_action(a), e);
            lemma_run_action_frame(e, 1, a);
        },
        PortalCallV::Info(a) => {
            assert(spec_enc_tag(1) =~= e.subrange(0, 1));
            lemma_sub_at(e, 0, 0, spec_enc_tag(1), e);
            lemma_tag_frame(e, 0, 1);
            assert(spec_enc_info_action(a) =~= e.subrange(1, e.len() as int));
            lemma_sub_at(e, 0, 1, spec_enc_info_action(a), e);
            lemma_info_action_frame(e, 1, a);
        },
    }
}

impl PortalCall {
    /// Encode for the wire.
    pub fn encode(&self) -> (r: Result<Vec<u8>, ProtocolError>)
        ensures
            match r {
                Ok(bytes) => spec_portal_call_fits(self@) && bytes@ == spec_enc_portal_call(
                    self@,
                ),
                Err(_) => !spec_portal_call_fits(self@),
            },
    {
        let mut out: Vec<u8> = Vec::new();
        match self {
            PortalCall::Run(a) => {
                enc_tag(&mut out, 0);
                if !enc_run_action(&mut out, a) {
                    return Err(ProtocolError::TooBig);
                }
            },
            PortalCall::Info(a) => {
                enc_tag(&mut out, 1);
                enc_info_action(&mut out, a);
            },
        }
        proof {
            assert(out@ =~= spec_enc_portal_call(self@));
        }
        Ok(out)
    }

    /// Decode from the wire.
    pub fn decode(b: &Vec<u8>) -> (r: Result<PortalCall, ProtocolError>)
        ensures
            match r {
                Ok(v) => spec_dec_portal_call(b@, 0) matches Some(p) && p.0 == v@,
                Err(_) => spec_dec_portal_call(b@, 0) is None,
            },
    {
        let (t, j) = match dec_tag(b, 0) {
            Some(x) => x,
            None => {
                return Err(ProtocolError::Malformed);
            },
        };
        if t == 0 {
            match dec_run_action(b, j) {
                Some((a, _)) => Ok(PortalCall::Run(a)),
                None => Err(ProtocolError::Malformed),
            }
        } else if t == 1 {
            match dec_info_action(b, j) {
                Some((a, _)) => Ok(PortalCall::Info(a)),
                None => Err(ProtocolError::Malformed),
            }
        } else {
            Err(ProtocolError::Malformed)
        }
    }
}

/// Abstract value of a [`MonitorCall`].
pub ghost enum MonitorCallV {
    Mount(MountActionV),
    Shim(ShimActionV),
}

/// A call on the in-jail monitor socket.
pub enum MonitorCall {
    Mount(MountAction),
    Shim(ShimAction),
}

impl View for MonitorCall {
    type V = MonitorCallV;

    open spec fn view(&self) -> MonitorCallV {
        match self {
            MonitorCall::Mount(a) => MonitorCallV::Mount(a@),
            MonitorCall::Shim(a) => MonitorCallV::Shim(a@),
        }
    }
}

/// Whether the call fits the wire limits.
pub open spec fn spec_monitor_call_fits(v: MonitorCallV) -> bool {
    match v {
        MonitorCallV::Mount(a) => spec_mount_action_fits(a),
        MonitorCallV::Shim(a) => spec_shim_action_fits(a),
    }
}

/// The call on the wire: a tag, then the action.
pub open spec fn spec_enc_monitor_call(v: MonitorCallV) -> Seq<u8> {
    match v {
        MonitorCallV::Mount(a) => spec_enc_tag(0) + spec_enc_mount_action(a),
        MonitorCallV::Shim(a) => spec_enc_tag(1) + spec_enc_shim_action(a),
    }
}

/// The call at `i`.
pub open spec fn spec_dec_monitor_call(b: Seq<u8>, i: int) -> Option<(MonitorCallV, int)> {
    match spec_dec_tag(b, i) {
        None => None,
        Some((t, j)) => if t == 0 {
            match spec_dec_mount_action(b, j) {
                None => None,
                Some((a, k)) => Some((MonitorCallV::Mount(a), k)),
            }
        } else if t == 1 {
            match spec_dec_shim_action(b, j) {
                None => None,
                Some((a, k)) => Some((MonitorCallV::Shim(a), k)),
            }
        } else {
            None
        },
    }
}

/// Decode-after-encode yields the original monitor call.
pub proof fn lemma_monitor_call_round_trip(v: MonitorCallV)
    requires
        spec_monitor_call_fits(v),
    ensures
        spec_dec_monitor_call(spec_enc_monitor_call(v), 0) == Some(
            (v, spec_enc_monitor_call(v).len() as int),
        ),
{
    let e = spec_enc_monitor_call(v);
    assert(e.subrange(0, e.len() as int) =~= e);
    match v {
        MonitorCallV::Mount(a) => {
            assert(spec_enc_tag(0) =~= e.subrange(0, 1));
            lemma_sub_at(e, 0, 0, spec_enc_tag(0), e);
            lemma_tag_frame(e, 0, 0);
            assert(spec_enc_mount_action(a) =~= e.subrange(1, e.len() as int));
            lemma_sub_at(e, 0, 1, spec_enc_mount_action(a), e);
            lemma_mount_action_frame(e, 1, a);
        },
        MonitorCallV::Shim(a) => {
            assert(spec_enc_tag(1) =~= e.subrange(0, 1));
            lemma_sub_at(e, 0, 0, spec_enc_tag(1), e);
            lemma_tag_frame(e, 0, 1);
            assert(spec_enc_shim_action(a) =~= e.subrange(1, e.len() as int));
            lemma_sub_at(e, 0, 1, spec_enc_shim_action(a), e);
            lemma_shim_action_frame(e, 1, a);
        },
    }
}

impl MonitorCall {
    /// Encode for the wire.
    pub fn encode(&self) -> (r: Result<Vec<u8>, ProtocolError>)
        ensures
            match r {
                Ok(bytes) => spec_monitor_call_fits(self@) && bytes@ == spec_enc_monitor_call(
                    self@,
                ),
                Err(_) => !spec_monitor_call_fits(self@),
            },
    {
        let mut out: Vec<u8> = Vec::new();
        match self {
            MonitorCall::Mount(a) => {
                enc_tag(&mut out, 0);
                if !enc_mount_action(&mut out, a) {
                    return Err(ProtocolError::TooBig);
                }
            },
            MonitorCall::Shim(a) => {
                enc_tag(&mut out, 1);
                if !enc_shim_action(&mut out, a) {
                    return Err(ProtocolError::TooBig);
                }
            },
        }
        proof {
            assert(out@ =~= spec_enc_monitor_call(self@));
        }
        Ok(out)
    }

    /// Decode from the wire.
    pub fn decode(b: &Vec<u8>) -> (r: Result<MonitorCall, ProtocolError>)
        ensures
            match r {
                Ok(v) => spec_dec_monitor_call(b@, 0) matches Some(p) && p.0 == v@,
                Err(_) => spec_dec_monitor_call(b@, 0) is None,
            },
    {
        let (t, j) = match dec_tag(b, 0) {
            Some(x) => x,
            None => {
                return Err(ProtocolError::Malformed);
            },
        };
        if t == 0 {
            match dec_mount_action(b, j) {
                Some((a, _)) => Ok(MonitorCall::Mount(a)),
                None => Err(ProtocolError::Malformed),
            }
        } else if t == 1 {
            match dec_shim_action(b, j) {
                Some((a, _)) => Ok(MonitorCall::Shim(a)),
                None => Err(ProtocolError::Malformed),
            }
        } else {
            Err(ProtocolError::Malformed)
        }
    }
}

/// The names of the client's sub-commands.
pub fn list_kage_cmd_names() -> (r: Vec<String>)
    ensures
        crate::config::profile::cmd_view(r@) == seq!["info"@, "mount"@, "run"@, "shim"@],
{
    let mut v: Vec<String> = Vec::new();
    v.push(String::from_str("info"));
    v.push(String::from_str("mount"));
    v.push(String::from_str("run"));
    v.push(String::from_str("shim"));
    proof {
        assert(crate::config::profile::cmd_view(v@) =~= seq!["info"@, "mount"@, "run"@, "shim"@]);
    }
    v
}

} // verus!
