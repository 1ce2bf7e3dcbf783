//! The `mount` request: graft one bind into the running jail.

use vstd::prelude::*;

use crate::cmd::ProtocolError;
use crate::jail::{BindMount, BindMountV};
use crate::path::is_absolute;
use crate::wire::{spec_enc_tag, spec_dec_tag, spec_enc_str, spec_dec_str, spec_str_fits,
    spec_enc_bool, spec_dec_bool};
use crate::wire::{enc_tag, dec_tag, enc_str, dec_str, enc_bool, dec_bool, lemma_tag_frame,
    lemma_str_frame, lemma_bool_frame, lemma_sub_at};

pub mod fsm_kage;

verus! {

/// Whether the bind fits the wire limits.
pub open spec fn spec_bind_fits(v: BindMountV) -> bool {
    spec_str_fits(v.src) && spec_str_fits(v.dst)
}

/// A bind on the wire: source, destination, and its two flags.
pub open spec fn spec_enc_bind(v: BindMountV) -> Seq<u8> {
    spec_enc_str(v.src) + spec_enc_str(v.dst) + spec_enc_bool(v.writable) + spec_enc_bool(
        v.from_parent,
    )
}

/// The bind at `i`.
pub open spec fn spec_dec_bind(b: Seq<u8>, i: int) -> Option<(BindMountV, int)> {
    match spec_dec_str(b, i) {
        None => None,
        Some((src, j)) => match spec_dec_str(b, j) {
            None => None,
            Some((dst, k)) => match spec_dec_bool(b, k) {
                None => None,
                Some((writable, m)) => match spec_dec_bool(b, m) {
                    None => None,
                    Some((from_parent, n)) => Some(
                        (BindMountV { src, dst, writable, from_parent }, n),
                    ),
                },
            },
        },
    }
}

/// Decoding reads back exactly the encoded bind.
pub proof fn lemma_bind_frame(b: Seq<u8>, i: int, v: BindMountV)
    requires
        spec_bind_fits(v),
        0 <= i,
        i + spec_enc_bind(v).len() <= b.len(),
        b.subrange(i, i + spec_enc_bind(v).len()) == spec_enc_bind(v),
    ensures
        spec_dec_bind(b, i) == Some((v, i + spec_enc_bind(v).len())),
{
    let e = spec_enc_bind(v);
    let e1 = spec_enc_str(v.src);
    let e2 = spec_enc_str(v.dst);
    let e3 = spec_enc_bool(v.writable);
    let e4 = spec_enc_bool(v.from_parent);
    assert(e1 =~= e.subrange(0, e1.len() as int));
    lemma_sub_at(b, i, 0, e1, e);
    lemma_str_frame(b, i, v.src);
    assert(e2 =~= e.subrange(e1.len() as int, e1.len() as int + e2.len() as int));
    lemma_sub_at(b, i, e1.len() as int, e2, e);
    lemma_str_frame(b, i + e1.len() as int, v.dst);
    assert(e3 =~= e.subrange(
        e1.len() as int + e2.len() as int,
        e1.len() as int + e2.len() as int + 1,
    ));
    lemma_sub_at(b, i, e1.len() as int + e2.len() as int, e3, e);
    lemma_bool_frame(b, i + e1.len() as int + e2.len() as int, v.writable);
    assert(e4 =~= e.subrange(
        e1.len() as int + e2.len() as int + 1,
        e1.len() as int + e2.len() as int + 2,
    ));
    lemma_sub_at(b, i, e1.len() as int + e2.len() as int + 1, e4, e);
    lemma_bool_frame(b, i + e1.len() as int + e2.len() as int + 1, v.from_parent);
}

/// Append the encoded bind.
pub fn enc_bind(out: &mut Vec<u8>, v: &BindMount) -> (ok: bool)
    ensures
        ok == spec_bind_fits(v@),
        ok ==> final(out)@ == old(out)@ + spec_enc_bind(v@),
        !ok ==> final(out)@ == old(out)@,
{
    if v.src.as_str().as_bytes_vec().len() >= 65536 || v.dst.as_str().as_bytes_vec().len()
        >= 65536 {
        return false;
    }
    let ghost o0 = out@;
    let ok1 = enc_str(out, v.src.as_str());
    let ok2 = enc_str(out, v.dst.as_str());
    enc_bool(out, v.writable);
    enc_bool(out, v.from_parent);
    proof {
        assert(ok1 && ok2);
        assert(out@ =~= o0 + spec_enc_bind(v@));
    }
    true
}

/// Read the bind at `pos`.
pub fn dec_bind(b: &Vec<u8>, pos: usize) -> (r: Option<(BindMount, usize)>)
    ensures
        match r {
            Some((v, next)) => spec_dec_bind(b@, pos as int) == Some((v@, next as int)),
            None => spec_dec_bind(b@, pos as int) is None,
        },
{
    let (src, j) = match dec_str(b, pos) {
        Some(x) => x,
        None => {
            return None;
        },
    };
    let (dst, k) = match dec_str(b, j) {
        Some(x) => x,
        None => {
            return None;
        },
    };
    let (writable, m) = match dec_bool(b, k) {
        Some(x) => x,
        None => {
            return None;
        },
    };
    let (from_parent, n) = match dec_bool(b, m) {
        Some(x) => x,
        None => {
            return None;
        },
    };
    Some((BindMount { src, dst, writable, from_parent }, n))
}

/// Abstract value of a [`MountRequest`].
pub ghost struct MountRequestV {
    pub bind: BindMountV,
}

/// Ask the monitor to graft one bind into the jail.
pub struct MountRequest {
    pub bind: BindMount,
}

impl View for MountRequest {
    type V = MountRequestV;

    open spec fn view(&self) -> MountRequestV {
        MountRequestV { bind: self.bind@ }
    }
}

impl MountRequest {
    /// Both ends of the bind must be absolute paths: a relative path would
    /// resolve against the jail's private workdir.
    pub fn check(&self) -> (r: Result<(), String>)
        ensures
            r is Ok <==> crate::path::abs_path(self@.bind.src) && crate::path::abs_path(
                self@.bind.dst,
            ),
            r matches Err(e) ==> e@ == (if !crate::path::abs_path(self@.bind.src) {
                "The mount source is not an absolute path"@
            } else {
                "The mount destination is not an absolute path"@
            }),
    {
        if !is_absolute(self.bind.src.as_str()) {
            let e = String::from_str("The mount source is not an absolute path");
            proof {
                reveal_strlit("The mount source is not an absolute path");
            }
            return Err(e);
        }
        if !is_absolute(self.bind.dst.as_str()) {
            let e = String::from_str("The mount destination is not an absolute path");
            proof {
                reveal_strlit("The mount destination is not an absolute path");
            }
            return Err(e);
        }
        Ok(())
    }
}

/// Abstract value of a [`MountAction`].
pub ghost enum MountActionV {
    DoMount(MountRequestV),
}

/// What a `mount` call asks for.
pub enum MountAction {
    DoMount(MountRequest),
}

impl View for MountAction {
    type V = MountActionV;

    open spec fn view(&self) -> MountActionV {
        match self {
            MountAction::DoMount(req) => MountActionV::DoMount(req@),
        }
    }
}

/// Whether the action fits the wire limits.
pub open spec fn spec_mount_action_fits(v: MountActionV) -> bool {
    match v {
        MountActionV::DoMount(req) => spec_bind_fits(req.bind),
    }
}

/// The action on the wire: a tag, then the bind.
pub open spec fn spec_enc_mount_action(v: MountActionV) -> Seq<u8> {
    match v {
        MountActionV::DoMount(req) => spec_enc_tag(0) + spec_enc_bind(req.bind),
    }
}

/// The action at `i`.
pub open spec fn spec_dec_mount_action(b: Seq<u8>, i: int) -> Option<(MountActionV, int)> {
    match spec_dec_tag(b, i) {
        None => None,
        Some((t, j)) => if t == 0 {
            match spec_dec_bind(b, j) {
                None => None,
                Some((bind, k)) => Some((MountActionV::DoMount(MountRequestV { bind }), k)),
            }
        } else {
            None
        },
    }
}

/// Decoding reads back exactly the encoded action.
pub proof fn lemma_mount_action_frame(b: Seq<u8>, i: int, v: MountActionV)
    requires
        spec_mount_action_fits(v),
        0 <= i,
        i + spec_enc_mount_action(v).len() <= b.len(),
        b.subrange(i, i + spec_enc_mount_action(v).len()) == spec_enc_mount_action(v),
    ensures
        spec_dec_mount_action(b, i) == Some((v, i + spec_enc_mount_action(v).len())),
{
    let e = spec_enc_mount_action(v);
    match v {
        MountActionV::DoMount(req) => {
            assert(spec_enc_tag(0) =~= e.subrange(0, 1));
            lemma_sub_at(b, i, 0, spec_enc_tag(0), e);
            lemma_tag_frame(b, i, 0);
            assert(spec_enc_bind(req.bind) =~= e.subrange(1, e.len() as int));
            lemma_sub_at(b, i, 1, spec_enc_bind(req.bind), e);
            lemma_bind_frame(b, i + 1, req.bind);
        },
    }
}

/// Append the encoded action.
pub fn enc_mount_action(out: &mut Vec<u8>, v: &MountAction) -> (ok: bool)
    ensures
        ok == spec_mount_action_fits(v@),
        ok ==> final(out)@ == old(out)@ + spec_enc_mount_action(v@),
{
    match v {
        MountAction::DoMount(req) => {
            let mut payload: Vec<u8> = Vec::new();
            if !enc_bind(&mut payload, &req.bind) {
                return false;
            }
            let ghost o0 = out@;
            enc_tag(out, 0);
            let ghost o1 = out@;
            let mut i: usize = 0;
            while i < payload.len()
                invariant
                    0 <= i <= payload@.len(),
                    out@ == o1 + payload@.subrange(0, i as int),
                decreases payload@.len() - i,
            {
                out.push(payload[i]);
                proof {
                    assert(out@ =~= o1 + payload@.subrange(0, i + 1));
                }
                i = i + 1;
            }
            proof {
                assert(payload@.subrange(0, payload@.len() as int) =~= payload@);
                assert(out@ =~= o0 + spec_enc_mount_action(v@));
            }
            true
        },
    }
}

/// Read the action at `pos`.
pub fn dec_mount_action(b: &Vec<u8>, pos: usize) -> (r: Option<(MountAction, usize)>)
    ensures
        match r {
            Some((v, next)) => spec_dec_mount_action(b@, pos as int) == Some((v@, next as int)),
            None => spec_dec_mount_action(b@, pos as int) is None,
        },
{
    match dec_tag(b, pos) {
        Some((t, j)) => if t == 0 {
            match dec_bind(b, j) {
                Some((bind, k)) => Some((MountAction::DoMount(MountRequest { bind }), k)),
                None => None,
            }
        } else {
            None
        },
        None => None,
    }
}

} // verus!
