//! The `info` request: render the portal's policy lattice.

use vstd::prelude::*;

use crate::cmd::ProtocolError;
use crate::wire::{spec_enc_tag, spec_dec_tag, spec_enc_str, spec_dec_str, spec_str_fits};
use crate::wire::{enc_tag, dec_tag, enc_str, dec_str, lemma_tag_frame, lemma_str_frame,
    lemma_sub_at};

pub mod fsm_portal;

verus! {

/// Abstract value of a [`DotRequest`].
pub ghost struct DotRequestV {}

/// Ask the portal for its lattice as a Graphviz text.
pub struct DotRequest {}

impl View for DotRequest {
    type V = DotRequestV;

    open spec fn view(&self) -> DotRequestV {
        DotRequestV {  }
    }
}

/// Abstract value of a [`DotResponse`].
pub ghost struct DotResponseV {
    pub result: Option<Seq<char>>,
}

/// The rendered lattice, or nothing when rendering failed.
pub struct DotResponse {
    pub result: Option<String>,
}

impl View for DotResponse {
    type V = DotResponseV;

    open spec fn view(&self) -> DotResponseV {
        DotResponseV {
            result: match self.result {
                Some(ref s) => Some(s@),
                None => None,
            },
        }
    }
}

/// Whether the response fits the wire limits.
pub open spec fn spec_dot_response_fits(v: DotResponseV) -> bool {
    match v.result {
        Some(s) => spec_str_fits(s),
        None => true,
    }
}

/// The response on the wire: an option tag, then the text.
pub open spec fn spec_enc_dot_response(v: DotResponseV) -> Seq<u8> {
    match v.result {
        None => spec_enc_tag(0),
        Some(s) => spec_enc_tag(1) + spec_enc_str(s),
    }
}

/// The response at `i`.
pub open spec fn spec_dec_dot_response(b: Seq<u8>, i: int) -> Option<(DotResponseV, int)> {
    match spec_dec_tag(b, i) {
        None => None,
        Some((t, j)) => if t == 0 {
            Some((DotResponseV { result: None }, j))
        } else if t == 1 {
            match spec_dec_str(b, j) {
                None => None,
                Some((s, k)) => Some((DotResponseV { result: Some(s) }, k)),
            }
        } else {
            None
        },
    }
}

/// Decoding reads back exactly the encoded response.
pub proof fn lemma_dot_response_frame(b: Seq<u8>, i: int, v: DotResponseV)
    requires
        spec_dot_response_fits(v),
        0 <= i,
        i + spec_enc_dot_response(v).len() <= b.len(),
        b.subrange(i, i + spec_enc_dot_response(v).len()) == spec_enc_dot_response(v),
    ensures
        spec_dec_dot_response(b, i) == Some((v, i + spec_enc_dot_response(v).len())),
{
    let e = spec_enc_dot_response(v);
    match v.result {
        None => {
            assert(spec_enc_tag(0) =~= e.subrange(0, 1));
            lemma_sub_at(b, i, 0, spec_enc_tag(0), e);
            lemma_tag_frame(b, i, 0);
        },
        Some(s) => {
            assert(spec_enc_tag(1) =~= e.subrange(0, 1));
            lemma_sub_at(b, i, 0, spec_enc_tag(1), e);
            lemma_tag_frame(b, i, 1);
            assert(spec_enc_str(s) =~= e.subrange(1, 1 + spec_enc_str(s).len() as int));
            lemma_sub_at(b, i, 1, spec_enc_str(s), e);
            lemma_str_frame(b, i + 1, s);
        },
    }
}

impl DotResponse {
    /// Encode for the wire; a text over the frame limit is refused.
    pub fn encode(&self) -> (r: Result<Vec<u8>, ProtocolError>)
        ensures
            match r {
                Ok(bytes) => spec_dot_response_fits(self@) && bytes@ == spec_enc_dot_response(
                    self@,
                ),
                Err(_) => !spec_dot_response_fits(self@),
            },
    {
        let mut out: Vec<u8> = Vec::new();
        match &self.result {
            None => {
                enc_tag(&mut out, 0);
                proof {
                    assert(out@ =~= spec_enc_dot_response(self@));
                }
                Ok(out)
            },
            Some(s) => {
                enc_tag(&mut out, 1);
                if !enc_str(&mut out, s.as_str()) {
                    return Err(ProtocolError::TooBig);
                }
                proof {
                    assert(out@ =~= spec_enc_dot_response(self@));
                }
                Ok(out)
            },
        }
    }

    /// Decode from the wire.
    pub fn decode(b: &Vec<u8>) -> (r: Result<DotResponse, ProtocolError>)
        ensures
            match r {
                Ok(v) => spec_dec_dot_response(b@, 0) matches Some(p) && p.0 == v@,
                Err(_) => spec_dec_dot_response(b@, 0) is None,
            },
    {
        let (t, j) = match dec_tag(b, 0) {
            Some(x) => x,
            None => {
                return Err(ProtocolError::Malformed);
            },
        };
        if t == 0 {
            Ok(DotResponse { result: None })
        } else if t == 1 {
            match dec_str(b, j) {
                Some((s, _)) => Ok(DotResponse { result: Some(s) }),
                None => Err(ProtocolError::Malformed),
            }
        } else {
            Err(ProtocolError::Malformed)
        }
    }
}

/// Abstract value of an [`InfoAction`].
pub ghost enum InfoActionV {
    GetDot(DotRequestV),
}

/// What an `info` call asks for.
pub enum InfoAction {
    GetDot(DotRequest),
}

impl View for InfoAction {
    type V = InfoActionV;

    open spec fn view(&self) -> InfoActionV {
        match self {
            InfoAction::GetDot(_) => InfoActionV::GetDot(DotRequestV {  }),
        }
    }
}

/// The action on the wire: a tag; the request itself carries nothing.
pub open spec fn spec_enc_info_action(v: InfoActionV) -> Seq<u8> {
    spec_enc_tag(0)
}

/// The action at `i`.
pub open spec fn spec_dec_info_action(b: Seq<u8>, i: int) -> Option<(InfoActionV, int)> {
    match spec_dec_tag(b, i) {
        None => None,
        Some((t, j)) => if t == 0 {
            Some((InfoActionV::GetDot(DotRequestV {  }), j))
        } else {
            None
        },
    }
}

/// Decoding reads back exactly the encoded action.
pub proof fn lemma_info_action_frame(b: Seq<u8>, i: int, v: InfoActionV)
    requires
        0 <= i,
        i + spec_enc_info_action(v).len() <= b.len(),
        b.subrange(i, i + spec_enc_info_action(v).len()) == spec_enc_info_action(v),
    ensures
        spec_dec_info_action(b, i) == Some((v, i + spec_enc_info_action(v).len())),
{
    lemma_tag_frame(b, i, 0);
}

/// Append the encoded action.
pub fn enc_info_action(out: &mut Vec<u8>, v: &InfoAction)
    ensures
        final(out)@ == old(out)@ + spec_enc_info_action(v@),
{
    enc_tag(out, 0);
}

/// Read the action at `pos`.
pub fn dec_info_action(b: &Vec<u8>, pos: usize) -> (r: Option<(InfoAction, usize)>)
    ensures
        match r {
            Some((v, next)) => spec_dec_info_action(b@, pos as int) == Some((v@, next as int)),
            None => spec_dec_info_action(b@, pos as int) is None,
        },
{
    match dec_tag(b, pos) {
        Some((t, j)) => if t == 0 {
            Some((InfoAction::GetDot(DotRequest {  }), j))
        } else {
            None
        },
        None => None,
    }
}

} // verus!
