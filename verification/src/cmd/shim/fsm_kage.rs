//! The shim's client side, one state per step: a request goes out once, and
//! only the matching kind of response may be read back.

use vstd::prelude::*;

use crate::cmd::{MonitorCall, ProtocolError};
use crate::cmd::shim::{AccessRequest, AccessResponse, ListRequest, ListResponse, ShimAction};
use crate::cmd::shim::{spec_data_fits, spec_enc_shim_action};
use crate::wire::{frame_message, spec_frame, spec_enc_tag, spec_str_fits};

verus! {

/// Nothing sent yet.
pub struct Init {}

/// A list request went out; a list response is owed.
pub struct RecvList {}

/// An access request went out; an access response is owed.
pub struct RecvAcl {}

/// The shim-side machine before a request.
pub struct KageFsm {
    state: Init,
}

/// The shim-side machine owed a list response.
pub struct KageFsmRecvList {
    state: RecvList,
}

/// The shim-side machine owed an access response.
pub struct KageFsmRecvAcl {
    state: RecvAcl,
}

impl KageFsm {
    /// A machine for a fresh connection.
    pub fn new() -> (r: KageFsm)
        ensures
            true,
    {
        KageFsm { state: Init {  } }
    }

    /// Produce the framed bytes of a list request.
    pub fn send_list_request(self, req: ListRequest) -> (r: Result<
        (KageFsmRecvList, Vec<u8>),
        ProtocolError,
    >)
        ensures
            match r {
                Ok((m, bytes)) => spec_str_fits(req@.path) && bytes@ == spec_frame(
                    spec_enc_tag(1) + spec_enc_shim_action(
                        crate::cmd::shim::ShimActionV::List(req@),
                    ),
                ),
                Err(_) => true,
            },
    {
        let call = MonitorCall::Shim(ShimAction::List(req));
        let payload = match call.encode() {
            Ok(p) => p,
            Err(e) => {
                return Err(e);
            },
        };
        match frame_message(&payload) {
            Some(framed) => Ok((KageFsmRecvList { state: RecvList {  } }, framed)),
            None => Err(ProtocolError::TooBig),
        }
    }

    /// Produce the framed bytes of an access request.
    pub fn send_access_request(self, req: AccessRequest) -> (r: Result<
        (KageFsmRecvAcl, Vec<u8>),
        ProtocolError,
    >)
        ensures
            match r {
                Ok((m, bytes)) => spec_data_fits(req@.data) && bytes@ == spec_frame(
                    spec_enc_tag(1) + spec_enc_shim_action(
                        crate::cmd::shim::ShimActionV::Access(req@),
                    ),
                ),
                Err(_) => true,
            },
    {
        let call = MonitorCall::Shim(ShimAction::Access(req));
        let payload = match call.encode() {
            Ok(p) => p,
            Err(e) => {
                return Err(e);
            },
        };
        match frame_message(&payload) {
            Some(framed) => Ok((KageFsmRecvAcl { state: RecvAcl {  } }, framed)),
            None => Err(ProtocolError::TooBig),
        }
    }
}

impl KageFsmRecvList {
    /// Decode the list response; the machine is consumed.
    pub fn recv_list_response(self, payload: &Vec<u8>) -> (r: Result<ListResponse, ProtocolError>)
        ensures
            match r {
                Ok(v) => crate::wire::spec_dec_str_list(payload@, 0) matches Some(p) && p.0
                    == v@.result,
                Err(_) => crate::wire::spec_dec_str_list(payload@, 0) is None,
            },
    {
        ListResponse::decode(payload)
    }
}

impl KageFsmRecvAcl {
    /// Decode the access response; the machine is consumed.
    pub fn recv_access_response(self, payload: &Vec<u8>) -> (r: Result<
        AccessResponse,
        ProtocolError,
    >)
        ensures
            match r {
                Ok(v) => crate::cmd::shim::spec_dec_access_response(payload@, 0) matches Some(p)
                    && p.0 == v@,
                Err(_) => crate::cmd::shim::spec_dec_access_response(payload@, 0) is None,
            },
    {
        AccessResponse::decode(payload)
    }
}

} // verus!
