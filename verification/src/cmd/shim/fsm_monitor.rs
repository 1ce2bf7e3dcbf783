//! The monitor's side of a shim exchange: one response, then the machine is
//! spent.

use vstd::prelude::*;

use crate::cmd::ProtocolError;
use crate::cmd::shim::{AccessResponse, ListResponse, spec_enc_access_response,
    spec_access_response_fits};
use crate::wire::{frame_message, spec_frame, spec_enc_str_list, spec_strs_fit};

verus! {

/// Nothing sent yet.
pub struct Init {}

/// The monitor-side machine for one shim call.
pub struct MonitorFsm {
    state: Init,
}

impl MonitorFsm {
    /// A machine for a fresh connection.
    pub fn new() -> (r: MonitorFsm)
        ensures
            true,
    {
        MonitorFsm { state: Init {  } }
    }

    /// Produce the framed bytes of a list response; the machine is consumed.
    pub fn send_list_response(self, response: &ListResponse) -> (r: Result<Vec<u8>, ProtocolError>)
        ensures
            match r {
                Ok(bytes) => spec_strs_fit(response@.result) && bytes@ == spec_frame(
                    spec_enc_str_list(response@.result),
                ),
                Err(_) => true,
            },
    {
        let payload = match response.encode() {
            Ok(p) => p,
            Err(e) => {
                return Err(e);
            },
        };
        match frame_message(&payload) {
            Some(framed) => Ok(framed),
            None => Err(ProtocolError::TooBig),
        }
    }

    /// Produce the framed bytes of an access response; the machine is
    /// consumed.
    pub fn send_access_response(self, response: &AccessResponse) -> (r: Result<
        Vec<u8>,
        ProtocolError,
    >)
        ensures
            match r {
                Ok(bytes) => spec_access_response_fits(response@) && bytes@ == spec_frame(
                    spec_enc_access_response(response@),
                ),
                Err(_) => true,
            },
    {
        let payload = match response.encode() {
            Ok(p) => p,
            Err(e) => {
                return Err(e);
            },
        };
        match frame_message(&payload) {
            Some(framed) => Ok(framed),
            None => Err(ProtocolError::TooBig),
        }
    }
}

} // verus!
