//! The portal's side of a `run` exchange, one state per step: the
//! acknowledgement goes out first, a template descriptor may be received
//! exactly once, and only then may the terminal's master end be sent.

use vstd::prelude::*;

use crate::cmd::{PortalAck, ProtocolError};
use crate::cmd::{spec_enc_portal_ack};
use crate::wire::{frame_message, spec_frame};

verus! {

/// Nothing sent yet.
pub struct Init {}

/// The acknowledgement went out; a descriptor may be received.
pub struct RecvFd {}

/// The descriptor step is settled; the master end may be sent.
pub struct SendFd {}

/// The portal-side machine before the acknowledgement.
pub struct RequestFsm {
    state: Init,
}

/// The portal-side machine that may receive a template descriptor.
pub struct RequestFsmRecvFd {
    state: RecvFd,
}

/// The portal-side machine that may send the terminal's master end.
pub struct RequestFsmSendFd {
    state: SendFd,
}

impl RequestFsm {
    /// A machine for a fresh connection.
    pub fn new() -> (r: RequestFsm)
        ensures
            true,
    {
        RequestFsm { state: Init {  } }
    }

    /// Produce the framed bytes of the acknowledgement; the machine moves
    /// on, so the acknowledgement goes out exactly once.
    pub fn send_ack(self, ack: &PortalAck) -> (r: Result<(RequestFsmRecvFd, Vec<u8>), ProtocolError>)
        ensures
            match r {
                Ok((m, bytes)) => bytes@ == spec_frame(spec_enc_portal_ack(ack@)),
                Err(_) => false,
            },
    {
        let payload = match ack.encode() {
            Ok(p) => p,
            Err(e) => {
                return Err(e);
            },
        };
        match frame_message(&payload) {
            Some(framed) => Ok((RequestFsmRecvFd { state: RecvFd {  } }, framed)),
            None => Err(ProtocolError::TooBig),
        }
    }
}

impl RequestFsmSendFd {
    /// Take the descriptor-sending step: the master end itself travels by
    /// kernel descriptor passing; consuming the machine here ends the
    /// exchange, so it happens at most once and only after the
    /// acknowledgement and the template descriptor.
    pub fn send_fd(self)
        ensures
            true,
    {
    }
}

impl RequestFsmRecvFd {
    /// Record that the template descriptor arrived.
    pub fn recv_fd(self) -> (r: RequestFsmSendFd)
        ensures
            true,
    {
        RequestFsmSendFd { state: SendFd {  } }
    }

    /// No terminal was asked for: skip the descriptor exchange.
    pub fn no_recv_fd(self) -> (r: RequestFsmSendFd)
        ensures
            true,
    {
        RequestFsmSendFd { state: SendFd {  } }
    }
}

} // verus!
