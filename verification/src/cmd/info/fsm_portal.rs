//! The portal's side of an `info` exchange, as a one-shot machine: the
//! response may be produced once, and the machine is consumed doing it.

use vstd::prelude::*;

use crate::cmd::ProtocolError;
use crate::cmd::info::{DotResponse, spec_enc_dot_response, spec_dot_response_fits};
use crate::wire::{frame_message, spec_frame};

verus! {

/// The machine's single state: nothing sent yet.
pub struct Init {}

/// The portal-side machine for one `info` call.
pub struct PortalFsm {
    state: Init,
}

impl PortalFsm {
    /// A machine for a fresh connection.
    pub fn new() -> (r: PortalFsm)
        ensures
            true,
    {
        PortalFsm { state: Init {  } }
    }

    /// Produce the framed bytes of the response; the machine is consumed,
    /// so a second response cannot be sent on the same exchange.
    pub fn send_dot_response(self, response: &DotResponse) -> (r: Result<Vec<u8>, ProtocolError>)
        ensures
            match r {
                Ok(bytes) => spec_dot_response_fits(response@) && spec_enc_dot_response(
                    response@,
                ).len() < 65536 && bytes@ == spec_frame(spec_enc_dot_response(response@)),
                Err(_) => !spec_dot_response_fits(response@) || spec_enc_dot_response(
                    response@,
                ).len() >= 65536,
            },
    {
        let payload = match response.encode() {
            Ok(p) => p,
            Err(e) => {
                return Err(e);
            },
        };
        match frame_message(&payload) {
            Some(framed) => Ok(framed),
            None => Err(ProtocolError::TooBig),
        }
    }
}

} // verus!
