//! The client's side of a `mount` exchange: a single send.

use vstd::prelude::*;

use crate::cmd::{MonitorCall, ProtocolError};
use crate::cmd::mount::{MountAction, MountRequest, spec_bind_fits, spec_enc_mount_action};
use crate::wire::{frame_message, spec_frame, spec_enc_tag};

verus! {

/// Nothing sent yet.
pub struct Init {}

/// The client-side machine for one `mount` call.
pub struct KageFsm {
    state: Init,
}

impl KageFsm {
    /// A machine for a fresh connection.
    pub fn new() -> (r: KageFsm)
        ensures
            true,
    {
        KageFsm { state: Init {  } }
    }

    /// Produce the framed bytes of the call; the machine is consumed.
    pub fn send_mount(self, req: MountRequest) -> (r: Result<Vec<u8>, ProtocolError>)
        ensures
            match r {
                Ok(bytes) => spec_bind_fits(req@.bind) && bytes@ == spec_frame(
                    spec_enc_tag(0) + spec_enc_mount_action(
                        crate::cmd::mount::MountActionV::DoMount(req@),
                    ),
                ),
                Err(_) => true,
            },
    {
        let call = MonitorCall::Mount(MountAction::DoMount(req));
        let payload = match call.encode() {
            Ok(p) => p,
            Err(e) => {
                return Err(e);
            },
        };
        match frame_message(&payload) {
            Some(framed) => Ok(framed),
            None => Err(ProtocolError::TooBig),
        }
    }
}

} // verus!
