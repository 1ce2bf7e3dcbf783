//! The client's side of a `run` exchange, one state per step: the call is
//! sent once, the acknowledgement is checked once, and only a terminal
//! request leads to the descriptor-passing state.

use vstd::prelude::*;

use crate::cmd::{PortalAck, PortalCall, PortalRequest, ProtocolError};
use crate::cmd::run::{RunAction, RunRequest, spec_run_request_fits, spec_enc_run_action};
use crate::wire::{frame_message, spec_frame, spec_enc_tag};

verus! {

/// Nothing sent yet.
pub struct Init {}

/// The acknowledgement arrived; descriptors may now be exchanged.
pub struct SendFd {}

/// The client-side machine before the call.
pub struct KageFsm {
    state: Init,
}

/// The client-side machine waiting for the acknowledgement.
pub struct KageFsmAck {
    stdio: bool,
}

/// The client-side machine ready for descriptor passing.
pub struct KageFsmSendFd {
    state: SendFd,
}

impl KageFsm {
    /// A machine for a fresh connection.
    pub fn new() -> (r: KageFsm)
        ensures
            true,
    {
        KageFsm { state: Init {  } }
    }

    /// Produce the framed bytes of the call and move to the waiting state;
    /// the machine is consumed, so the call goes out once.
    pub fn send_run(self, req: RunRequest) -> (r: Result<(KageFsmAck, Vec<u8>), ProtocolError>)
        ensures
            match r {
                Ok((m, bytes)) => {
                    &&& spec_run_request_fits(req@)
                    &&& bytes@ == spec_frame(
                        spec_enc_tag(0) + spec_enc_run_action(
                            crate::cmd::run::RunActionV::DoRun(req@),
                        ),
                    )
                    &&& m.spec_stdio() == req@.stdio
                },
                Err(_) => true,
            },
    {
        let stdio = req.stdio;
        let call = PortalCall::Run(RunAction::DoRun(req));
        let payload = match call.encode() {
            Ok(p) => p,
            Err(e) => {
                return Err(e);
            },
        };
        match frame_message(&payload) {
            Some(framed) => Ok((KageFsmAck { stdio }, framed)),
            None => Err(ProtocolError::TooBig),
        }
    }
}

impl KageFsmAck {
    /// The terminal wish recorded when the call went out.
    pub closed spec fn spec_stdio(&self) -> bool {
        self.stdio
    }

    /// Check the portal's acknowledgement: a terminal may only be offered
    /// when the client asked for one; anything else is a protocol violation
    /// that aborts the exchange.
    pub fn recv_ack(self, ack: &PortalAck) -> (r: Result<(KageFsmSendFd, PortalRequest), String>)
        ensures
            r is Ok <==> (ack@.request == PortalRequest::Nop || self.spec_stdio()),
            r matches Ok((m, req)) ==> req == ack@.request,
            r matches Err(e) ==> e@.len() > 0,
    {
        let valid = match ack.request {
            PortalRequest::Nop => true,
            PortalRequest::CreateTty => self.stdio,
        };
        if !valid {
            let e = String::from_str("Invalid request");
            proof {
                reveal_strlit("Invalid request");
            }
            return Err(e);
        }
        Ok((KageFsmSendFd { state: SendFd {  } }, ack.request))
    }
}

} // verus!
