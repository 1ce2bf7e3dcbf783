//! The `run` request: start a command inside a fresh jail.

use vstd::prelude::*;

use crate::cmd::ProtocolError;
use crate::config::profile::cmd_view;
use crate::wire::{spec_enc_tag, spec_dec_tag, spec_enc_str, spec_dec_str, spec_str_fits,
    spec_enc_str_list, spec_dec_str_list, spec_strs_fit, spec_enc_bool, spec_dec_bool};
use crate::wire::{enc_tag, dec_tag, enc_str, dec_str, enc_str_list, dec_str_list, enc_bool,
    dec_bool, lemma_tag_frame, lemma_str_frame, lemma_str_list_frame, lemma_bool_frame,
    lemma_sub_at};

pub mod fsm_kage;
pub mod fsm_portal;

verus! {

/// Abstract value of a [`RunRequest`].
pub ghost struct RunRequestV {
    pub profile: Option<Seq<char>>,
    pub command: Seq<Seq<char>>,
    pub stdio: bool,
}

/// A client's wish: run `command`, under the named profile when one is
/// given, with a fresh terminal when `stdio` is set.
pub struct RunRequest {
    pub profile: Option<String>,
    pub command: Vec<String>,
    pub stdio: bool,
}

impl View for RunRequest {
    type V = RunRequestV;

    open spec fn view(&self) -> RunRequestV {
        RunRequestV {
            profile: match self.profile {
                Some(ref p) => Some(p@),
                None => None,
            },
            command: cmd_view(self.command@),
            stdio: self.stdio,
        }
    }
}

/// Whether the request fits the wire limits.
pub open spec fn spec_run_request_fits(v: RunRequestV) -> bool {
    &&& match v.profile {
        Some(p) => spec_str_fits(p),
        None => true,
    }
    &&& spec_strs_fit(v.command)
}

/// The request on the wire: the optional profile, the command words, and
/// the terminal flag.
pub open spec fn spec_enc_run_request(v: RunRequestV) -> Seq<u8> {
    (match v.profile {
        None => spec_enc_tag(0),
        Some(p) => spec_enc_tag(1) + spec_enc_str(p),
    }) + spec_enc_str_list(v.command) + spec_enc_bool(v.stdio)
}

/// The request at `i`.
pub open spec fn spec_dec_run_request(b: Seq<u8>, i: int) -> Option<(RunRequestV, int)> {
    match spec_dec_tag(b, i) {
        None => None,
        Some((t, j)) => {
            let profile_part: Option<(Option<Seq<char>>, int)> = if t == 0 {
                Some((None, j))
            } else if t == 1 {
                match spec_dec_str(b, j) {
                    None => None,
                    Some((p, k)) => Some((Some(p), k)),
                }
            } else {
                None
            };
            match profile_part {
                None => None,
                Some((profile, k)) => match spec_dec_str_list(b, k) {
                    None => None,
                    Some((command, m)) => match spec_dec_bool(b, m) {
                        None => None,
                        Some((stdio, n)) => Some((RunRequestV { profile, command, stdio }, n)),
                    },
                },
            }
        },
    }
}

/// Decoding reads back exactly the encoded request.
pub proof fn lemma_run_request_frame(b: Seq<u8>, i: int, v: RunRequestV)
    requires
        spec_run_request_fits(v),
        0 <= i,
        i + spec_enc_run_request(v).len() <= b.len(),
        b.subrange(i, i + spec_enc_run_request(v).len()) == spec_enc_run_request(v),
    ensures
        spec_dec_run_request(b, i) == Some((v, i + spec_enc_run_request(v).len())),
{
    let e = spec_enc_run_request(v);
    let head = match v.profile {
        None => spec_enc_tag(0),
        Some(p) => spec_enc_tag(1) + spec_enc_str(p),
    };
    let lst = spec_enc_str_list(v.command);
    let tail = spec_enc_bool(v.stdio);
    match v.profile {
        None => {
            assert(spec_enc_tag(0) =~= e.subrange(0, 1));
            lemma_sub_at(b, i, 0, spec_enc_tag(0), e);
            lemma_tag_frame(b, i, 0);
        },
        Some(p) => {
            assert(spec_enc_tag(1) =~= e.subrange(0, 1));
            lemma_sub_at(b, i, 0, spec_enc_tag(1), e);
            lemma_tag_frame(b, i, 1);
            assert(spec_enc_str(p) =~= e.subrange(1, 1 + spec_enc_str(p).len() as int));
            lemma_sub_at(b, i, 1, spec_enc_str(p), e);
            lemma_str_frame(b, i + 1, p);
        },
    }
    assert(lst =~= e.subrange(head.len() as int, head.len() as int + lst.len() as int));
    lemma_sub_at(b, i, head.len() as int, lst, e);
    lemma_str_list_frame(b, i + head.len() as int, v.command);
    assert(tail =~= e.subrange(
        head.len() as int + lst.len() as int,
        head.len() as int + lst.len() as int + tail.len() as int,
    ));
    lemma_sub_at(b, i, head.len() as int + lst.len() as int, tail, e);
    lemma_bool_frame(b, i + head.len() as int + lst.len() as int, v.stdio);
}

impl RunRequest {
    /// Encode for the wire.
    pub fn encode(&self) -> (r: Result<Vec<u8>, ProtocolError>)
        ensures
            match r {
                Ok(bytes) => spec_run_request_fits(self@) && bytes@ == spec_enc_run_request(
                    self@,
                ),
                Err(_) => !spec_run_request_fits(self@),
            },
    {
        let mut out: Vec<u8> = Vec::new();
        match &self.profile {
            None => {
                enc_tag(&mut out, 0);
            },
            Some(p) => {
                enc_tag(&mut out, 1);
                if !enc_str(&mut out, p.as_str()) {
                    return Err(ProtocolError::TooBig);
                }
            },
        }
        if !enc_str_list(&mut out, &self.command) {
            return Err(ProtocolError::TooBig);
        }
        enc_bool(&mut out, self.stdio);
        proof {
            assert(out@ =~= spec_enc_run_request(self@));
        }
        Ok(out)
    }

    /// Decode from the wire.
    pub fn decode(b: &Vec<u8>) -> (r: Result<RunRequest, ProtocolError>)
        ensures
            match r {
                Ok(v) => spec_dec_run_request(b@, 0) matches Some(p) && p.0 == v@,
                Err(_) => spec_dec_run_request(b@, 0) is None,
            },
    {
        match dec_run_request(b, 0) {
            Some((v, _)) => Ok(v),
            None => Err(ProtocolError::Malformed),
        }
    }

    /// The command to execute and its arguments: the client's words when it
    /// gave any, else the profile's template; the first word is the
    /// executable and must exist.
    pub fn work_command(&self, profile_cmd: &Vec<String>) -> (r: Result<
        (String, Vec<String>),
        String,
    >)
        ensures
            match r {
                Ok((exe, args)) => {
                    let chosen = if self@.command.len() > 0 {
                        self@.command
                    } else {
                        cmd_view(profile_cmd@)
                    };
                    &&& chosen.len() > 0
                    &&& exe@ == chosen[0]
                    &&& cmd_view(args@) == chosen.drop_first()
                },
                Err(e) => (if self@.command.len() > 0 {
                    self@.command
                } else {
                    cmd_view(profile_cmd@)
                }).len() == 0 && e@ == "Missing executable in the command (first argument)"@,
            },
    {
        let chosen: &Vec<String> = if self.command.len() > 0 {
            &self.command
        } else {
            profile_cmd
        };
        if chosen.len() == 0 {
            let e = String::from_str("Missing executable in the command (first argument)");
            proof {
                reveal_strlit("Missing executable in the command (first argument)");
            }
            return Err(e);
        }
        let exe = chosen[0].clone();
        let mut args: Vec<String> = Vec::new();
        let mut i: usize = 1;
        while i < chosen.len()
            invariant
                1 <= i <= chosen@.len(),
                cmd_view(args@) == cmd_view(chosen@).subrange(1, i as int),
            decreases chosen@.len() - i,
        {
            let ghost a0 = cmd_view(args@);
            args.push(chosen[i].clone());
            proof {
                assert(cmd_view(args@) =~= a0.push(chosen@[i as int]@));
                assert(cmd_view(chosen@).subrange(1, i + 1) =~= a0.push(chosen@[i as int]@));
            }
            i = i + 1;
        }
        proof {
            assert(cmd_view(chosen@).subrange(1, chosen@.len() as int) =~= cmd_view(
                chosen@,
            ).drop_first());
        }
        Ok((exe, args))
    }
}

/// The client's view of the manager's answer: an absent profile means no
/// domain was found for the request.
pub fn require_profile(resp: crate::srv::NewDomResponse) -> (r: Result<
    (crate::config::profile::ProfileDom, bool),
    String,
>)
    ensures
        r is Err <==> resp.profile is None,
        r matches Err(e) ==> e@ == "No domain found"@,
        r matches Ok((pd, confined)) ==> confined == resp.confined,
{
    match resp.profile {
        Some(p) => Ok((p, resp.confined)),
        None => {
            let e = String::from_str("No domain found");
            proof {
                reveal_strlit("No domain found");
            }
            Err(e)
        },
    }
}

/// Read the request at `pos`.
pub fn dec_run_request(b: &Vec<u8>, pos: usize) -> (r: Option<(RunRequest, usize)>)
    ensures
        match r {
            Some((v, next)) => spec_dec_run_request(b@, pos as int) == Some((v@, next as int)),
            None => spec_dec_run_request(b@, pos as int) is None,
        },
{
    let (t, j) = match dec_tag(b, pos) {
        Some(x) => x,
        None => {
            return None;
        },
    };
    let (profile, k) = if t == 0 {
        (None, j)
    } else if t == 1 {
        match dec_str(b, j) {
            Some((p, k)) => (Some(p), k),
            None => {
                return None;
            },
        }
    } else {
        return None;
    };
    let (command, m) = match dec_str_list(b, k) {
        Some(x) => x,
        None => {
            return None;
        },
    };
    let (stdio, n) = match dec_bool(b, m) {
        Some(x) => x,
        None => {
            return None;
        },
    };
    Some((RunRequest { profile, command, stdio }, n))
}

/// Abstract value of a [`RunAction`].
pub ghost enum RunActionV {
    DoRun(RunRequestV),
}

/// What a `run` call asks for.
pub enum RunAction {
    DoRun(RunRequest),
}

impl View for RunAction {
    type V = RunActionV;

    open spec fn view(&self) -> RunActionV {
        match self {
            RunAction::DoRun(req) => RunActionV::DoRun(req@),
        }
    }
}

/// Whether the action fits the wire limits.
pub open spec fn spec_run_action_fits(v: RunActionV) -> bool {
    match v {
        RunActionV::DoRun(req) => spec_run_request_fits(req),
    }
}

/// The action on the wire: a tag, then the request.
pub open spec fn spec_enc_run_action(v: RunActionV) -> Seq<u8> {
    match v {
        RunActionV::DoRun(req) => spec_enc_tag(0) + spec_enc_run_request(req),
    }
}

/// The action at `i`.
pub open spec fn spec_dec_run_action(b: Seq<u8>, i: int) -> Option<(RunActionV, int)> {
    match spec_dec_tag(b, i) {
        None => None,
        Some((t, j)) => if t == 0 {
            match spec_dec_run_request(b, j) {
                None => None,
                Some((req, k)) => Some((RunActionV::DoRun(req), k)),
            }
        } else {
            None
        },
    }
}

/// Decoding reads back exactly the encoded action.
pub proof fn lemma_run_action_frame(b: Seq<u8>, i: int, v: RunActionV)
    requires
        spec_run_action_fits(v),
        0 <= i,
        i + spec_enc_run_action(v).len() <= b.len(),
        b.subrange(i, i + spec_enc_run_action(v).len()) == spec_enc_run_action(v),
    ensures
        spec_dec_run_action(b, i) == Some((v, i + spec_enc_run_action(v).len())),
{
    let e = spec_enc_run_action(v);
    match v {
        RunActionV::DoRun(req) => {
            assert(spec_enc_tag(0) =~= e.subrange(0, 1));
            lemma_sub_at(b, i, 0, spec_enc_tag(0), e);
            lemma_tag_frame(b, i, 0);
            assert(spec_enc_run_request(req) =~= e.subrange(1, e.len() as int));
            lemma_sub_at(b, i, 1, spec_enc_run_request(req), e);
            lemma_run_request_frame(b, i + 1, req);
        },
    }
}

/// Append the encoded action.
pub fn enc_run_action(out: &mut Vec<u8>, v: &RunAction) -> (ok: bool)
    ensures
        ok == spec_run_action_fits(v@),
        ok ==> final(out)@ == old(out)@ + spec_enc_run_action(v@),
{
    match v {
        RunAction::DoRun(req) => {
            let payload = match req.encode() {
                Ok(p) => p,
                Err(_) => {
                    return false;
                },
            };
            let ghost o0 = out@;
            enc_tag(out, 0);
            let mut i: usize = 0;
            let ghost o1 = out@;
            while i < payload.len()
                invariant
                    0 <= i <= payload@.len(),
                    out@ == o1 + payload@.subrange(0, i as int),
                decreases payload@.len() - i,
            {
                out.push(payload[i]);
                proof {
                    assert(out@ =~= o1 + payload@.subrange(0, i + 1));
                }
                i = i + 1;
            }
            proof {
                assert(payload@.subrange(0, payload@.len() as int) =~= payload@);
                assert(out@ =~= o0 + spec_enc_run_action(v@));
            }
            true
        },
    }
}

/// Read the action at `pos`.
pub fn dec_run_action(b: &Vec<u8>, pos: usize) -> (r: Option<(RunAction, usize)>)
    ensures
        match r {
            Some((v, next)) => spec_dec_run_action(b@, pos as int) == Some((v@, next as int)),
            None => spec_dec_run_action(b@, pos as int) is None,
        },
{
    match dec_tag(b, pos) {
        Some((t, j)) => if t == 0 {
            match dec_run_request(b, j) {
                Some((req, k)) => Some((RunAction::DoRun(req), k)),
                None => None,
            }
        } else {
            None
        },
        None => None,
    }
}

} // verus!
