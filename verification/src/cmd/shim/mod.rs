//! The in-jail shim protocol: list a parent directory, or ask for access to
//! an additional parent-side path, and the client-side cache that suppresses
//! repeat queries.

use vstd::prelude::*;

use crate::cmd::ProtocolError;
use crate::cmd::util::{check_parent_path, spec_parent_path_ok};
use crate::config::profile::cmd_view;
use crate::path::{is_path_prefix, path_starts_with, str_eq};
use crate::pool::{Action, FileAccess, FileAccessV, acl_view, allows};
use crate::wire::{spec_enc_tag, spec_dec_tag, spec_enc_str, spec_dec_str, spec_str_fits,
    spec_enc_bool, spec_dec_bool, spec_enc_u16, spec_dec_u16, spec_enc_str_list,
    spec_dec_str_list, spec_strs_fit};
use crate::wire::{enc_tag, dec_tag, enc_str, dec_str, enc_bool, dec_bool, enc_u16, dec_u16,
    enc_str_list, dec_str_list, lemma_tag_frame, lemma_str_frame, lemma_bool_frame,
    lemma_u16_frame, lemma_str_list_frame, lemma_sub_at};

pub mod fsm_kage;
pub mod fsm_monitor;

verus! {

/// Abstract value of an [`AccessData`].
pub ghost struct AccessDataV {
    pub path: Seq<char>,
    pub write: bool,
}

/// One requested or granted access; a read is always implied.
pub struct AccessData {
    pub path: String,
    pub write: bool,
}

impl View for AccessData {
    type V = AccessDataV;

    open spec fn view(&self) -> AccessDataV {
        AccessDataV { path: self.path@, write: self.write }
    }
}

/// The access entries the data stands for: a read, and a write as well when
/// asked.
pub open spec fn spec_data_accesses(d: AccessDataV) -> Seq<FileAccessV> {
    if d.write {
        seq![
            FileAccessV { path: d.path, action: Action::Read },
            FileAccessV { path: d.path, action: Action::Write },
        ]
    } else {
        seq![FileAccessV { path: d.path, action: Action::Read }]
    }
}

impl AccessData {
    /// The access entries the data stands for.
    pub fn accesses(&self) -> (r: Vec<FileAccess>)
        ensures
            acl_view(r@) == spec_data_accesses(self@),
    {
        let mut out: Vec<FileAccess> = Vec::new();
        out.push(FileAccess::new(self.path.clone(), Action::Read));
        if self.write {
            out.push(FileAccess::new(self.path.clone(), Action::Write));
        }
        proof {
            assert(acl_view(out@) =~= spec_data_accesses(self@));
        }
        out
    }

    /// An identical copy.
    pub fn duplicate(&self) -> (r: AccessData)
        ensures
            r@ == self@,
    {
        AccessData { path: self.path.clone(), write: self.write }
    }
}

/// The abstract values of a sequence of access data.
pub open spec fn datas_view(s: Seq<AccessData>) -> Seq<AccessDataV> {
    s.map_values(|d: AccessData| d@)
}

/// Whether the data fits the wire limits.
pub open spec fn spec_data_fits(v: AccessDataV) -> bool {
    spec_str_fits(v.path)
}

/// One access on the wire: its path and the write flag.
pub open spec fn spec_enc_data(v: AccessDataV) -> Seq<u8> {
    spec_enc_str(v.path) + spec_enc_bool(v.write)
}

/// The access at `i`.
pub open spec fn spec_dec_data(b: Seq<u8>, i: int) -> Option<(AccessDataV, int)> {
    match spec_dec_str(b, i) {
        None => None,
        Some((path, j)) => match spec_dec_bool(b, j) {
            None => None,
            Some((write, k)) => Some((AccessDataV { path, write }, k)),
        },
    }
}

/// Decoding reads back exactly the encoded access.
pub proof fn lemma_data_frame(b: Seq<u8>, i: int, v: AccessDataV)
    requires
        spec_data_fits(v),
        0 <= i,
        i + spec_enc_data(v).len() <= b.len(),
        b.subrange(i, i + spec_enc_data(v).len()) == spec_enc_data(v),
    ensures
        spec_dec_data(b, i) == Some((v, i + spec_enc_data(v).len())),
{
    let e = spec_enc_data(v);
    let e1 = spec_enc_str(v.path);
    let e2 = spec_enc_bool(v.write);
    assert(e1 =~= e.subrange(0, e1.len() as int));
    lemma_sub_at(b, i, 0, e1, e);
    lemma_str_frame(b, i, v.path);
    assert(e2 =~= e.subrange(e1.len() as int, e1.len() as int + 1));
    lemma_sub_at(b, i, e1.len() as int, e2, e);
    lemma_bool_frame(b, i + e1.len() as int, v.write);
}

/// Append the encoded access.
pub fn enc_data(out: &mut Vec<u8>, v: &AccessData) -> (ok: bool)
    ensures
        ok == spec_data_fits(v@),
        ok ==> final(out)@ == old(out)@ + spec_enc_data(v@),
        !ok ==> final(out)@ == old(out)@,
{
    let ghost o0 = out@;
    if !enc_str(out, v.path.as_str()) {
        return false;
    }
    enc_bool(out, v.write);
    proof {
        assert(out@ =~= o0 + spec_enc_data(v@));
    }
    true
}

/// Read the access at `pos`.
pub fn dec_data(b: &Vec<u8>, pos: usize) -> (r: Option<(AccessData, usize)>)
    ensures
        match r {
            Some((v, next)) => spec_dec_data(b@, pos as int) == Some((v@, next as int)),
            None => spec_dec_data(b@, pos as int) is None,
        },
{
    let (path, j) = match dec_str(b, pos) {
        Some(x) => x,
        None => {
            return None;
        },
    };
    let (write, k) = match dec_bool(b, j) {
        Some(x) => x,
        None => {
            return None;
        },
    };
    Some((AccessData { path, write }, k))
}

/// The concatenated encodings of a list of accesses, head first.
pub open spec fn spec_enc_datas(l: Seq<AccessDataV>) -> Seq<u8>
    decreases l.len(),
{
    if l.len() == 0 {
        Seq::empty()
    } else {
        spec_enc_data(l.first()) + spec_enc_datas(l.drop_first())
    }
}

/// Encoding a list one element longer appends one encoding.
pub proof fn lemma_enc_datas_push(l: Seq<AccessDataV>, x: AccessDataV)
    ensures
        spec_enc_datas(l.push(x)) == spec_enc_datas(l) + spec_enc_data(x),
    decreases l.len(),
{
    if l.len() == 0 {
        assert(l.push(x).drop_first() =~= Seq::<AccessDataV>::empty());
        assert(l.push(x).first() == x);
        assert(spec_enc_datas(l.push(x)) == spec_enc_data(x) + spec_enc_datas(
            Seq::<AccessDataV>::empty(),
        ));
        assert(spec_enc_data(x) + Seq::<u8>::empty() =~= spec_enc_data(x));
        assert(spec_enc_datas(l) + spec_enc_data(x) =~= spec_enc_data(x));
    } else {
        assert(l.push(x).drop_first() =~= l.drop_first().push(x));
        assert(l.push(x).first() == l.first());
        lemma_enc_datas_push(l.drop_first(), x);
        assert(spec_enc_datas(l.push(x)) =~= spec_enc_datas(l) + spec_enc_data(x));
    }
}

/// The `n` accesses decoded from `i` on.
pub open spec fn spec_dec_data_n(b: Seq<u8>, i: int, n: int) -> Option<(Seq<AccessDataV>, int)>
    decreases n,
{
    if n <= 0 {
        Some((Seq::empty(), i))
    } else {
        match spec_dec_data(b, i) {
            None => None,
            Some((d, j)) => match spec_dec_data_n(b, j, n - 1) {
                None => None,
                Some((rest, k)) => Some((seq![d] + rest, k)),
            },
        }
    }
}

/// Whether every access of the list fits, and the count fits.
pub open spec fn spec_datas_fit(l: Seq<AccessDataV>) -> bool {
    l.len() < 65536 && forall|i: int| 0 <= i < l.len() ==> spec_data_fits(#[trigger] l[i])
}

/// Decoding reads back exactly the encoded accesses.
pub proof fn lemma_datas_frame(b: Seq<u8>, i: int, l: Seq<AccessDataV>)
    requires
        spec_datas_fit(l),
        0 <= i,
        i + spec_enc_datas(l).len() <= b.len(),
        b.subrange(i, i + spec_enc_datas(l).len()) == spec_enc_datas(l),
    ensures
        spec_dec_data_n(b, i, l.len() as int) == Some((l, i + spec_enc_datas(l).len())),
    decreases l.len(),
{
    if l.len() == 0 {
    } else {
        let head = spec_enc_data(l.first());
        let tail = spec_enc_datas(l.drop_first());
        let e = spec_enc_datas(l);
        assert(e == head + tail);
        assert(head =~= e.subrange(0, head.len() as int));
        lemma_sub_at(b, i, 0, head, e);
        assert(spec_data_fits(l.first())) by {
            assert(l[0] == l.first());
        }
        lemma_data_frame(b, i, l.first());
        let j = i + head.len() as int;
        assert(tail =~= e.subrange(head.len() as int, e.len() as int));
        lemma_sub_at(b, i, head.len() as int, tail, e);
        assert(spec_datas_fit(l.drop_first())) by {
            assert(forall|m: int|
                0 <= m < l.drop_first().len() ==> #[trigger] l.drop_first()[m] == l[m + 1]);
        }
        lemma_datas_frame(b, j, l.drop_first());
        assert(seq![l.first()] + l.drop_first() =~= l);
    }
}

/// An access list on the wire: its count, then each access in order.
pub open spec fn spec_enc_data_list(l: Seq<AccessDataV>) -> Seq<u8> {
    spec_enc_u16(l.len() as int) + spec_enc_datas(l)
}

/// The access list at `i`.
pub open spec fn spec_dec_data_list(b: Seq<u8>, i: int) -> Option<(Seq<AccessDataV>, int)> {
    match spec_dec_u16(b, i) {
        None => None,
        Some((n, j)) => spec_dec_data_n(b, j, n),
    }
}

/// Decoding reads back exactly the encoded access list.
pub proof fn lemma_data_list_frame(b: Seq<u8>, i: int, l: Seq<AccessDataV>)
    requires
        spec_datas_fit(l),
        0 <= i,
        i + spec_enc_data_list(l).len() <= b.len(),
        b.subrange(i, i + spec_enc_data_list(l).len()) == spec_enc_data_list(l),
    ensures
        spec_dec_data_list(b, i) == Some((l, i + spec_enc_data_list(l).len())),
{
    let e = spec_enc_data_list(l);
    assert(spec_enc_u16(l.len() as int) =~= e.subrange(0, 2));
    lemma_sub_at(b, i, 0, spec_enc_u16(l.len() as int), e);
    lemma_u16_frame(b, i, l.len() as int);
    let tail = spec_enc_datas(l);
    assert(tail =~= e.subrange(2, e.len() as int));
    lemma_sub_at(b, i, 2, tail, e);
    lemma_datas_frame(b, i + 2, l);
}

/// Append the count and each access of the list.
pub fn enc_data_list(out: &mut Vec<u8>, l: &Vec<AccessData>) -> (ok: bool)
    ensures
        ok == spec_datas_fit(datas_view(l@)),
        ok ==> final(out)@ == old(out)@ + spec_enc_data_list(datas_view(l@)),
        !ok ==> final(out)@ == old(out)@,
{
    let ghost lv = datas_view(l@);
    if l.len() >= 65536 {
        return false;
    }
    let mut c: usize = 0;
    while c < l.len()
        invariant
            0 <= c <= l@.len(),
            lv == datas_view(l@),
            forall|m: int| 0 <= m < c ==> spec_data_fits(#[trigger] lv[m]),
        decreases l@.len() - c,
    {
        if l[c].path.as_str().as_bytes_vec().len() >= 65536 {
            proof {
                assert(!spec_data_fits(lv[c as int]));
            }
            return false;
        }
        c = c + 1;
    }
    enc_u16(out, l.len() as u16);
    let ghost o1 = out@;
    let mut i: usize = 0;
    proof {
        assert(lv.subrange(0, 0) =~= Seq::<AccessDataV>::empty());
    }
    while i < l.len()
        invariant
            0 <= i <= l@.len(),
            lv == datas_view(l@),
            forall|m: int| 0 <= m < lv.len() ==> spec_data_fits(#[trigger] lv[m]),
            out@ == o1 + spec_enc_datas(lv.subrange(0, i as int)),
        decreases l@.len() - i,
    {
        let ok = enc_data(out, &l[i]);
        proof {
            assert(lv[i as int] == l@[i as int]@);
            assert(ok);
            lemma_enc_datas_push(lv.subrange(0, i as int), lv[i as int]);
            assert(lv.subrange(0, i as int).push(lv[i as int]) =~= lv.subrange(0, i + 1));
        }
        i = i + 1;
    }
    proof {
        assert(lv.subrange(0, lv.len() as int) =~= lv);
    }
    true
}

/// Read the access list at `pos`.
pub fn dec_data_list(b: &Vec<u8>, pos: usize) -> (r: Option<(Vec<AccessData>, usize)>)
    ensures
        match r {
            Some((l, next)) => spec_dec_data_list(b@, pos as int) == Some(
                (datas_view(l@), next as int),
            ),
            None => spec_dec_data_list(b@, pos as int) is None,
        },
{
    let (n, j) = match dec_u16(b, pos) {
        Some(x) => x,
        None => {
            return None;
        },
    };
    let n = n as usize;
    let mut out: Vec<AccessData> = Vec::new();
    let mut cur = j;
    let mut i: usize = 0;
    proof {
        assert(datas_view(out@) =~= Seq::<AccessDataV>::empty());
    }
    while i < n
        invariant
            0 <= i <= n,
            spec_dec_u16(b@, pos as int) == Some((n as int, j as int)),
            spec_dec_data_n(b@, j as int, n as int) == (match spec_dec_data_n(
                b@,
                cur as int,
                n - i,
            ) {
                Some((rest, k)) => Some((datas_view(out@) + rest, k)),
                None => None::<(Seq<AccessDataV>, int)>,
            }),
        decreases n - i,
    {
        let ghost cur0 = cur as int;
        let (d, next) = match dec_data(b, cur) {
            Some(x) => x,
            None => {
                proof {
                    assert(spec_dec_data_n(b@, cur as int, n - i) is None);
                }
                return None;
            },
        };
        let ghost out0 = datas_view(out@);
        out.push(d);
        cur = next;
        i = i + 1;
        proof {
            assert(datas_view(out@) =~= out0.push(out@.last()@));
            let r2 = spec_dec_data_n(b@, cur as int, n - i);
            if r2 is Some {
                let rest = (r2->0).0;
                let k = (r2->0).1;
                assert(spec_dec_data_n(b@, cur0, n - i + 1) == Some(
                    (seq![out@.last()@] + rest, k),
                ));
                assert(out0.push(out@.last()@) + rest =~= out0 + (seq![out@.last()@] + rest));
            } else {
                assert(spec_dec_data_n(b@, cur0, n - i + 1) is None);
            }
        }
    }
    proof {
        assert(datas_view(out@) + Seq::<AccessDataV>::empty() =~= datas_view(out@));
    }
    Some((out, cur))
}

/// Abstract value of an [`AccessRequest`].
pub ghost struct AccessRequestV {
    pub data: AccessDataV,
    pub get_all_access: bool,
}

/// Ask for access to a parent-side path, or, with `get_all_access`, for the
/// full current access list.
pub struct AccessRequest {
    pub data: AccessData,
    pub get_all_access: bool,
}

impl View for AccessRequest {
    type V = AccessRequestV;

    open spec fn view(&self) -> AccessRequestV {
        AccessRequestV { data: self.data@, get_all_access: self.get_all_access }
    }
}

impl AccessRequest {
    /// A plain request for one path.
    pub fn new(path: String, write: bool) -> (r: AccessRequest)
        ensures
            r@ == (AccessRequestV {
                data: AccessDataV { path: path@, write },
                get_all_access: false,
            }),
    {
        AccessRequest { data: AccessData { path, write }, get_all_access: false }
    }

    /// The path must be absolute and outside `/proc`.
    pub fn check(&self) -> (r: Result<(), String>)
        ensures
            r is Ok <==> spec_parent_path_ok(self@.data.path),
            r matches Err(e) ==> e@ == (if !crate::path::abs_path(self@.data.path) {
                "The path is not absolute"@
            } else {
                "Access denied to /proc"@
            }),
    {
        check_parent_path(self.data.path.as_str())
    }
}

/// Abstract value of a [`ListRequest`].
pub ghost struct ListRequestV {
    pub path: Seq<char>,
}

/// Ask for the entries of a parent-side directory.
pub struct ListRequest {
    pub path: String,
}

impl View for ListRequest {
    type V = ListRequestV;

    open spec fn view(&self) -> ListRequestV {
        ListRequestV { path: self.path@ }
    }
}

impl ListRequest {
    /// The path must be absolute and outside `/proc`.
    pub fn check(&self) -> (r: Result<(), String>)
        ensures
            r is Ok <==> spec_parent_path_ok(self@.path),
            r matches Err(e) ==> e@ == (if !crate::path::abs_path(self@.path) {
                "The path is not absolute"@
            } else {
                "Access denied to /proc"@
            }),
    {
        check_parent_path(self.path.as_str())
    }
}

/// Abstract value of a [`ListResponse`].
pub ghost struct ListResponseV {
    pub result: Seq<Seq<char>>,
}

/// The entries of the listed directory.
pub struct ListResponse {
    pub result: Vec<String>,
}

impl View for ListResponse {
    type V = ListResponseV;

    open spec fn view(&self) -> ListResponseV {
        ListResponseV { result: cmd_view(self.result@) }
    }
}

impl ListResponse {
    /// Encode for the wire.
    pub fn encode(&self) -> (r: Result<Vec<u8>, ProtocolError>)
        ensures
            match r {
                Ok(bytes) => spec_strs_fit(self@.result) && bytes@ == spec_enc_str_list(
                    self@.result,
                ),
                Err(_) => !spec_strs_fit(self@.result),
            },
    {
        let mut out: Vec<u8> = Vec::new();
        if !enc_str_list(&mut out, &self.result) {
            return Err(ProtocolError::TooBig);
        }
        Ok(out)
    }

    /// Decode from the wire.
    pub fn decode(b: &Vec<u8>) -> (r: Result<ListResponse, ProtocolError>)
        ensures
            match r {
                Ok(v) => spec_dec_str_list(b@, 0) matches Some(p) && p.0 == v@.result,
                Err(_) => spec_dec_str_list(b@, 0) is None,
            },
    {
        match dec_str_list(b, 0) {
            Some((result, _)) => Ok(ListResponse { result }),
            None => Err(ProtocolError::Malformed),
        }
    }
}

/// Abstract value of an [`AccessResponse`].
pub ghost struct AccessResponseV {
    pub new_access: Seq<AccessDataV>,
}

/// The accesses that became available; empty when the request was denied.
pub struct AccessResponse {
    pub new_access: Vec<AccessData>,
}

impl View for AccessResponse {
    type V = AccessResponseV;

    open spec fn view(&self) -> AccessResponseV {
        AccessResponseV { new_access: datas_view(self.new_access@) }
    }
}

/// Whether the response fits the wire limits.
pub open spec fn spec_access_response_fits(v: AccessResponseV) -> bool {
    spec_datas_fit(v.new_access)
}

/// The response on the wire: the access list.
pub open spec fn spec_enc_access_response(v: AccessResponseV) -> Seq<u8> {
    spec_enc_data_list(v.new_access)
}

/// The response at `i`.
pub open spec fn spec_dec_access_response(b: Seq<u8>, i: int) -> Option<(AccessResponseV, int)> {
    match spec_dec_data_list(b, i) {
        None => None,
        Some((new_access, k)) => Some((AccessResponseV { new_access }, k)),
    }
}

/// Decode-after-encode yields the original access response.
pub proof fn lemma_access_response_round_trip(v: AccessResponseV)
    requires
        spec_access_response_fits(v),
    ensures
        spec_dec_access_response(spec_enc_access_response(v), 0) == Some(
            (v, spec_enc_access_response(v).len() as int),
        ),
{
    let e = spec_enc_access_response(v);
    assert(e.subrange(0, e.len() as int) =~= e);
    lemma_data_list_frame(e, 0, v.new_access);
}

impl AccessResponse {
    /// Encode for the wire.
    pub fn encode(&self) -> (r: Result<Vec<u8>, ProtocolError>)
        ensures
            match r {
                Ok(bytes) => spec_access_response_fits(self@) && bytes@
                    == spec_enc_access_response(self@),
                Err(_) => !spec_access_response_fits(self@),
            },
    {
        let mut out: Vec<u8> = Vec::new();
        if !enc_data_list(&mut out, &self.new_access) {
            return Err(ProtocolError::TooBig);
        }
        Ok(out)
    }

    /// Decode from the wire.
    pub fn decode(b: &Vec<u8>) -> (r: Result<AccessResponse, ProtocolError>)
        ensures
            match r {
                Ok(v) => spec_dec_access_response(b@, 0) matches Some(p) && p.0 == v@,
                Err(_) => spec_dec_access_response(b@, 0) is None,
            },
    {
        match dec_data_list(b, 0) {
            Some((new_access, _)) => Ok(AccessResponse { new_access }),
            None => Err(ProtocolError::Malformed),
        }
    }
}

/// Abstract value of a [`ShimAction`].
pub ghost enum ShimActionV {
    Access(AccessRequestV),
    List(ListRequestV),
}

/// What a shim call asks for.
pub enum ShimAction {
    Access(AccessRequest),
    List(ListRequest),
}

impl View for ShimAction {
    type V = ShimActionV;

    open spec fn view(&self) -> ShimActionV {
        match self {
            ShimAction::Access(req) => ShimActionV::Access(req@),
            ShimAction::List(req) => ShimActionV::List(req@),
        }
    }
}

/// Whether the action fits the wire limits.
pub open spec fn spec_shim_action_fits(v: ShimActionV) -> bool {
    match v {
        ShimActionV::Access(req) => spec_data_fits(req.data),
        ShimActionV::List(req) => spec_str_fits(req.path),
    }
}

/// The action on the wire: a tag, then the request.
pub open spec fn spec_enc_shim_action(v: ShimActionV) -> Seq<u8> {
    match v {
        ShimActionV::Access(req) => spec_enc_tag(0) + spec_enc_data(req.data) + spec_enc_bool(
            req.get_all_access,
        ),
        ShimActionV::List(req) => spec_enc_tag(1) + spec_enc_str(req.path),
    }
}

/// The action at `i`.
pub open spec fn spec_dec_shim_action(b: Seq<u8>, i: int) -> Option<(ShimActionV, int)> {
    match spec_dec_tag(b, i) {
        None => None,
        Some((t, j)) => if t == 0 {
            match spec_dec_data(b, j) {
                None => None,
                Some((data, k)) => match spec_dec_bool(b, k) {
                    None => None,
                    Some((g, m)) => Some(
                        (ShimActionV::Access(AccessRequestV { data, get_all_access: g }), m),
                    ),
                },
            }
        } else if t == 1 {
            match spec_dec_str(b, j) {
                None => None,
                Some((path, k)) => Some((ShimActionV::List(ListRequestV { path }), k)),
            }
        } else {
            None
        },
    }
}

/// Decoding reads back exactly the encoded action.
pub proof fn lemma_shim_action_frame(b: Seq<u8>, i: int, v: ShimActionV)
    requires
        spec_shim_action_fits(v),
        0 <= i,
        i + spec_enc_shim_action(v).len() <= b.len(),
        b.subrange(i, i + spec_enc_shim_action(v).len()) == spec_enc_shim_action(v),
    ensures
        spec_dec_shim_action(b, i) == Some((v, i + spec_enc_shim_action(v).len())),
{
    let e = spec_enc_shim_action(v);
    match v {
        ShimActionV::Access(req) => {
            assert(spec_enc_tag(0) =~= e.subrange(0, 1));
            lemma_sub_at(b, i, 0, spec_enc_tag(0), e);
            lemma_tag_frame(b, i, 0);
            let e1 = spec_enc_data(req.data);
            assert(e1 =~= e.subrange(1, 1 + e1.len() as int));
            lemma_sub_at(b, i, 1, e1, e);
            lemma_data_frame(b, i + 1, req.data);
            let e2 = spec_enc_bool(req.get_all_access);
            assert(e2 =~= e.subrange(1 + e1.len() as int, e.len() as int));
            lemma_sub_at(b, i, 1 + e1.len() as int, e2, e);
            lemma_bool_frame(b, i + 1 + e1.len() as int, req.get_all_access);
        },
        ShimActionV::List(req) => {
            assert(spec_enc_tag(1) =~= e.subrange(0, 1));
            lemma_sub_at(b, i, 0, spec_enc_tag(1), e);
            lemma_tag_frame(b, i, 1);
            let e1 = spec_enc_str(req.path);
            assert(e1 =~= e.subrange(1, e.len() as int));
            lemma_sub_at(b, i, 1, e1, e);
            lemma_str_frame(b, i + 1, req.path);
        },
    }
}

/// Append the encoded action.
pub fn enc_shim_action(out: &mut Vec<u8>, v: &ShimAction) -> (ok: bool)
    ensures
        ok == spec_shim_action_fits(v@),
        ok ==> final(out)@ == old(out)@ + spec_enc_shim_action(v@),
{
    match v {
        ShimAction::Access(req) => {
            if req.data.path.as_str().as_bytes_vec().len() >= 65536 {
                return false;
            }
            let ghost o0 = out@;
            enc_tag(out, 0);
            let ok = enc_data(out, &req.data);
            enc_bool(out, req.get_all_access);
            proof {
                assert(ok);
                assert(out@ =~= o0 + spec_enc_shim_action(v@));
            }
            true
        },
        ShimAction::List(req) => {
            let ghost o0 = out@;
            enc_tag(out, 1);
            if !enc_str(out, req.path.as_str()) {
                proof {
                    assert(out@ =~= o0 + spec_enc_tag(1));
                }
                return false;
            }
            proof {
                assert(out@ =~= o0 + spec_enc_shim_action(v@));
            }
            true
        },
    }
}

/// Read the action at `pos`.
pub fn dec_shim_action(b: &Vec<u8>, pos: usize) -> (r: Option<(ShimAction, usize)>)
    ensures
        match r {
            Some((v, next)) => spec_dec_shim_action(b@, pos as int) == Some((v@, next as int)),
            None => spec_dec_shim_action(b@, pos as int) is None,
        },
{
    let (t, j) = match dec_tag(b, pos) {
        Some(x) => x,
        None => {
            return None;
        },
    };
    if t == 0 {
        let (data, k) = match dec_data(b, j) {
            Some(x) => x,
            None => {
                return None;
            },
        };
        match dec_bool(b, k) {
            Some((g, m)) => Some(
                (ShimAction::Access(AccessRequest { data, get_all_access: g }), m),
            ),
            None => None,
        }
    } else if t == 1 {
        match dec_str(b, j) {
            Some((path, k)) => Some((ShimAction::List(ListRequest { path }), k)),
            None => None,
        }
    } else {
        None
    }
}

/// The access each bind stands for: its destination, writable or not.
pub open spec fn spec_binds_accesses(binds: Seq<crate::jail::BindMountV>) -> Seq<AccessDataV> {
    binds.map_values(|b: crate::jail::BindMountV| AccessDataV { path: b.dst, write: b.writable })
}

/// The monitor's answer to an access request: the freshly granted accesses,
/// or, when the full list was asked for, everything the jail's domain
/// currently binds.
pub fn access_response(
    granted: &Vec<crate::jail::BindMount>,
    current: &Vec<crate::jail::BindMount>,
    get_all_access: bool,
) -> (r: AccessResponse)
    ensures
        get_all_access ==> r@.new_access == spec_binds_accesses(crate::jail::binds_view(current@)),
        !get_all_access ==> r@.new_access == spec_binds_accesses(
            crate::jail::binds_view(granted@),
        ),
{
    let chosen: &Vec<crate::jail::BindMount> = if get_all_access {
        current
    } else {
        granted
    };
    let mut new_access: Vec<AccessData> = Vec::new();
    let mut i: usize = 0;
    while i < chosen.len()
        invariant
            0 <= i <= chosen@.len(),
            datas_view(new_access@) == spec_binds_accesses(
                crate::jail::binds_view(chosen@.subrange(0, i as int)),
            ),
        decreases chosen@.len() - i,
    {
        let ghost d0 = datas_view(new_access@);
        new_access.push(AccessData { path: chosen[i].dst.clone(), write: chosen[i].writable });
        proof {
            assert(datas_view(new_access@) =~= d0.push(
                AccessDataV { path: chosen@[i as int]@.dst, write: chosen@[i as int]@.writable },
            ));
            assert(spec_binds_accesses(crate::jail::binds_view(chosen@.subrange(0, i + 1)))
                =~= d0.push(
                AccessDataV { path: chosen@[i as int]@.dst, write: chosen@[i as int]@.writable },
            ));
        }
        i = i + 1;
    }
    proof {
        assert(chosen@.subrange(0, chosen@.len() as int) =~= chosen@);
        assert(spec_binds_accesses(crate::jail::binds_view(chosen@)) =~= datas_view(
            new_access@,
        ));
    }
    AccessResponse { new_access }
}

/// The monitor's answer to a listing request: a confined jail serves no
/// unconfined helper, so its answer is empty.
pub fn list_response(confined: bool, entries: Vec<String>) -> (r: ListResponse)
    ensures
        confined ==> r@.result.len() == 0,
        !confined ==> r@.result == cmd_view(entries@),
{
    if confined {
        let r = ListResponse { result: Vec::new() };
        proof {
            assert(cmd_view(r.result@) =~= Seq::<Seq<char>>::empty());
        }
        r
    } else {
        ListResponse { result: entries }
    }
}

/// Whether a control list holds an exact entry for the access.
pub open spec fn denied_exact(denied: Seq<FileAccessV>, fa: FileAccessV) -> bool {
    exists|i: int| 0 <= i < denied.len() && denied[i] == fa
}

/// Adding entries never revokes a grant.
proof fn lemma_allows_push(acl: Seq<FileAccessV>, x: FileAccessV, fa: FileAccessV)
    requires
        allows(acl, fa),
    ensures
        allows(acl.push(x), fa),
{
    let i = choose|i: int|
        0 <= i < acl.len() && acl[i].action == fa.action && is_path_prefix(acl[i].path, fa.path);
    assert(acl.push(x)[i] == acl[i]);
}

/// The shim's client-side cache: `granted` prunes requests whose access is
/// already prefix-covered, `denied` records exact refusals so only a truly
/// new request goes out.
pub struct AccessCache {
    pub granted: Vec<FileAccess>,
    pub denied: Vec<FileAccess>,
}

impl AccessCache {
    /// An empty cache.
    pub fn new() -> (r: AccessCache)
        ensures
            acl_view(r.granted@) == Seq::<FileAccessV>::empty(),
            acl_view(r.denied@) == Seq::<FileAccessV>::empty(),
    {
        let r = AccessCache { granted: Vec::new(), denied: Vec::new() };
        proof {
            assert(acl_view(r.granted@) =~= Seq::<FileAccessV>::empty());
            assert(acl_view(r.denied@) =~= Seq::<FileAccessV>::empty());
        }
        r
    }

    /// Decide whether to ask the monitor at all: nothing goes out when every
    /// implied access is already granted by prefix or denied exactly.  A
    /// request that does go out asks for the full current access list when
    /// the cache holds no grant yet.
    pub fn check(&self, data: &AccessData) -> (r: Option<AccessRequest>)
        ensures
            r is None <==> forall|k: int|
                0 <= k < spec_data_accesses(data@).len() ==> {
                    let fa = #[trigger] spec_data_accesses(data@)[k];
                    allows(acl_view(self.granted@), fa) || denied_exact(acl_view(self.denied@), fa)
                },
            r matches Some(req) ==> req@.data == data@ && req@.get_all_access == (acl_view(
                self.granted@,
            ).len() == 0),
    {
        let acl = data.accesses();
        let mut k: usize = 0;
        while k < acl.len()
            invariant
                0 <= k <= acl@.len(),
                acl_view(acl@) == spec_data_accesses(data@),
                forall|j: int|
                    0 <= j < k ==> {
                        let fa = #[trigger] acl_view(acl@)[j];
                        allows(acl_view(self.granted@), fa) || denied_exact(
                            acl_view(self.denied@),
                            fa,
                        )
                    },
            decreases acl@.len() - k,
        {
            let covered = crate::pool::acl_allows(&self.granted, &acl[k]) || denied_contains(
                &self.denied,
                &acl[k],
            );
            if !covered {
                proof {
                    assert(acl_view(acl@)[k as int] == acl@[k as int]@);
                }
                return Some(
                    AccessRequest {
                        data: data.duplicate(),
                        get_all_access: self.granted.len() == 0,
                    },
                );
            }
            k = k + 1;
        }
        None
    }

    /// Record a refusal: the implied accesses join the denied set exactly.
    pub fn deny(&mut self, data: &AccessData)
        ensures
            acl_view(final(self).granted@) == acl_view(old(self).granted@),
            acl_view(final(self).denied@) == acl_view(old(self).denied@) + spec_data_accesses(
                data@,
            ),
    {
        let add = data.accesses();
        let mut k: usize = 0;
        while k < add.len()
            invariant
                0 <= k <= add@.len(),
                acl_view(add@) == spec_data_accesses(data@),
                acl_view(self.granted@) == acl_view(old(self).granted@),
                acl_view(self.denied@) == acl_view(old(self).denied@) + acl_view(
                    add@,
                ).subrange(0, k as int),
            decreases add@.len() - k,
        {
            let ghost d0 = acl_view(self.denied@);
            self.denied.push(add[k].duplicate());
            proof {
                assert(acl_view(self.denied@) =~= d0.push(add@[k as int]@));
                assert(acl_view(old(self).denied@) + acl_view(add@).subrange(0, k + 1) =~= d0.push(
                    add@[k as int]@,
                ));
            }
            k = k + 1;
        }
        proof {
            assert(acl_view(add@).subrange(0, add@.len() as int) =~= acl_view(add@));
        }
    }

    /// Record fresh grants: each implied access becomes prefix-covered, a
    /// grant already covered is not stored twice, and nothing once granted
    /// is lost.
    pub fn grant(&mut self, new_access: &Vec<AccessData>)
        ensures
            acl_view(final(self).denied@) == acl_view(old(self).denied@),
            forall|fa: FileAccessV|
                allows(acl_view(old(self).granted@), fa) ==> allows(
                    acl_view(final(self).granted@),
                    fa,
                ),
            forall|i: int, k: int|
                0 <= i < new_access@.len() && 0 <= k < spec_data_accesses(
                    new_access@[i]@,
                ).len() ==> allows(
                    acl_view(final(self).granted@),
                    #[trigger] spec_data_accesses(new_access@[i]@)[k],
                ),
    {
        let mut i: usize = 0;
        while i < new_access.len()
            invariant
                0 <= i <= new_access@.len(),
                acl_view(self.denied@) == acl_view(old(self).denied@),
                forall|fa: FileAccessV|
                    allows(acl_view(old(self).granted@), fa) ==> allows(
                        acl_view(self.granted@),
                        fa,
                    ),
                forall|j: int, k: int|
                    0 <= j < i && 0 <= k < spec_data_accesses(new_access@[j]@).len() ==> allows(
                        acl_view(self.granted@),
                        #[trigger] spec_data_accesses(new_access@[j]@)[k],
                    ),
            decreases new_access@.len() - i,
        {
            let add = new_access[i].accesses();
            let mut k: usize = 0;
            while k < add.len()
                invariant
                    0 <= k <= add@.len(),
                    0 <= i < new_access@.len(),
                    acl_view(add@) == spec_data_accesses(new_access@[i as int]@),
                    acl_view(self.denied@) == acl_view(old(self).denied@),
                    forall|fa: FileAccessV|
                        allows(acl_view(old(self).granted@), fa) ==> allows(
                            acl_view(self.granted@),
                            fa,
                        ),
                    forall|j: int, m: int|
                        0 <= j < i && 0 <= m < spec_data_accesses(new_access@[j]@).len()
                            ==> allows(
                            acl_view(self.granted@),
                            #[trigger] spec_data_accesses(new_access@[j]@)[m],
                        ),
                    forall|m: int|
                        0 <= m < k ==> allows(
                            acl_view(self.granted@),
                            #[trigger] acl_view(add@)[m],
                        ),
                decreases add@.len() - k,
            {
                let ghost g0 = acl_view(self.granted@);
                if !crate::pool::acl_allows(&self.granted, &add[k]) {
                    self.granted.push(add[k].duplicate());
                    proof {
                        assert(acl_view(self.granted@) =~= g0.push(add@[k as int]@));
                        let fa = add@[k as int]@;
                        assert(acl_view(self.granted@).last() == fa);
                        assert(is_path_prefix(fa.path, fa.path));
                        assert(allows(acl_view(self.granted@), fa));
                        assert forall|x: FileAccessV| allows(g0, x) implies allows(
                            acl_view(self.granted@),
                            x,
                        ) by {
                            lemma_allows_push(g0, fa, x);
                        }
                        assert forall|j: int, m: int|
                            0 <= j < i && 0 <= m < spec_data_accesses(new_access@[j]@).len()
                                implies allows(
                            acl_view(self.granted@),
                            #[trigger] spec_data_accesses(new_access@[j]@)[m],
                        ) by {
                            lemma_allows_push(g0, fa, spec_data_accesses(new_access@[j]@)[m]);
                        }
                        assert forall|m: int| 0 <= m < k + 1 implies allows(
                            acl_view(self.granted@),
                            #[trigger] acl_view(add@)[m],
                        ) by {
                            if m < k {
                                lemma_allows_push(g0, fa, acl_view(add@)[m]);
                            }
                        }
                        assert forall|x: FileAccessV| allows(
                            acl_view(old(self).granted@),
                            x,
                        ) implies allows(acl_view(self.granted@), x) by {
                            lemma_allows_push(g0, fa, x);
                        }
                    }
                }
                k = k + 1;
            }
            i = i + 1;
        }
    }
}

/// Whether the list holds an entry with the same value.
fn denied_contains(v: &Vec<FileAccess>, fa: &FileAccess) -> (r: bool)
    ensures
        r == denied_exact(acl_view(v@), fa@),
{
    let mut i: usize = 0;
    while i < v.len()
        invariant
            0 <= i <= v@.len(),
            forall|j: int| 0 <= j < i ==> acl_view(v@)[j] != fa@,
        decreases v@.len() - i,
    {
        let same_action = match (v[i].action, fa.action) {
            (Action::Read, Action::Read) => true,
            (Action::Write, Action::Write) => true,
            _ => false,
        };
        if same_action && str_eq(v[i].path.as_str(), fa.path.as_str()) {
            proof {
                assert(acl_view(v@)[i as int] == fa@);
            }
            return true;
        }
        i = i + 1;
    }
    false
}

} // verus!
