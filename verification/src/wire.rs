//! Wire primitives: little-endian integers, UTF-8 strings, and the
//! two-byte length framing every socket message travels in.
//!
//! Each primitive has a specification-level encoding and decoding, an
//! executable counterpart proved to match, and a frame lemma: decoding at an
//! offset where the encoding sits yields the encoded value back, whatever
//! surrounds it.  Message round trips are assembled from these.

use vstd::prelude::*;

use vstd::utf8::{valid_utf8, decode_utf8, encode_utf8};
use vstd::utf8::{encode_utf8_valid_utf8, encode_utf8_decode_utf8};

verus! {

/// The largest value a two-byte length field can carry.
pub const WIRE_MAX: usize = 65535;

/// The two little-endian bytes of `n`.
pub open spec fn spec_enc_u16(n: int) -> Seq<u8>
    recommends
        0 <= n < 65536,
{
    seq![(n % 256) as u8, ((n / 256) % 256) as u8]
}

/// The value of the two little-endian bytes at `i`, and the next offset.
pub open spec fn spec_dec_u16(b: Seq<u8>, i: int) -> Option<(int, int)> {
    if 0 <= i && i + 2 <= b.len() {
        Some((b[i] + 256 * b[i + 1], i + 2))
    } else {
        None
    }
}

/// Decoding reads back exactly the encoded value, whatever surrounds it.
pub proof fn lemma_u16_frame(b: Seq<u8>, i: int, n: int)
    requires
        0 <= n < 65536,
        0 <= i,
        i + 2 <= b.len(),
        b.subrange(i, i + 2) == spec_enc_u16(n),
    ensures
        spec_dec_u16(b, i) == Some((n, i + 2)),
{
    assert(b[i] == spec_enc_u16(n)[0]);
    assert(b[i + 1] == spec_enc_u16(n)[1]);
    assert(n % 256 + 256 * ((n / 256) % 256) == n) by (nonlinear_arith)
        requires
            0 <= n < 65536,
    ;
}

/// Append the two little-endian bytes of `n`.
pub fn enc_u16(out: &mut Vec<u8>, n: u16)
    ensures
        final(out)@ == old(out)@ + spec_enc_u16(n as int),
{
    let ghost o0 = out@;
    out.push((n % 256) as u8);
    out.push((n / 256) as u8);
    proof {
        assert((n / 256) as u8 == ((n as int / 256) % 256) as u8) by (nonlinear_arith);
        assert(out@ =~= o0 + spec_enc_u16(n as int));
    }
}

/// Read the two little-endian bytes at `pos`.
pub fn dec_u16(b: &Vec<u8>, pos: usize) -> (r: Option<(u16, usize)>)
    ensures
        match r {
            Some((v, next)) => spec_dec_u16(b@, pos as int) == Some((v as int, next as int)),
            None => spec_dec_u16(b@, pos as int) is None,
        },
{
    if pos < b.len() && b.len() - pos >= 2 {
        let lo = b[pos];
        let hi = b[pos + 1];
        let v: u16 = lo as u16 + 256 * (hi as u16);
        Some((v, pos + 2))
    } else {
        None
    }
}

/// One byte for a boolean.
pub open spec fn spec_enc_bool(v: bool) -> Seq<u8> {
    if v {
        seq![1u8]
    } else {
        seq![0u8]
    }
}

/// The boolean at `i`: zero or one; anything else is a protocol error.
pub open spec fn spec_dec_bool(b: Seq<u8>, i: int) -> Option<(bool, int)> {
    if 0 <= i && i + 1 <= b.len() {
        if b[i] == 0 {
            Some((false, i + 1))
        } else if b[i] == 1 {
            Some((true, i + 1))
        } else {
            None
        }
    } else {
        None
    }
}

/// Decoding reads back exactly the encoded boolean.
pub proof fn lemma_bool_frame(b: Seq<u8>, i: int, v: bool)
    requires
        0 <= i,
        i + 1 <= b.len(),
        b.subrange(i, i + 1) == spec_enc_bool(v),
    ensures
        spec_dec_bool(b, i) == Some((v, i + 1)),
{
    assert(b[i] == spec_enc_bool(v)[0]);
}

/// Append one byte for the boolean.
pub fn enc_bool(out: &mut Vec<u8>, v: bool)
    ensures
        final(out)@ == old(out)@ + spec_enc_bool(v),
{
    let ghost o0 = out@;
    if v {
        out.push(1u8);
    } else {
        out.push(0u8);
    }
    proof {
        assert(out@ =~= o0 + spec_enc_bool(v));
    }
}

/// Read the boolean at `pos`.
pub fn dec_bool(b: &Vec<u8>, pos: usize) -> (r: Option<(bool, usize)>)
    ensures
        match r {
            Some((v, next)) => spec_dec_bool(b@, pos as int) == Some((v, next as int)),
            None => spec_dec_bool(b@, pos as int) is None,
        },
{
    if pos < b.len() {
        if b[pos] == 0 {
            Some((false, pos + 1))
        } else if b[pos] == 1 {
            Some((true, pos + 1))
        } else {
            None
        }
    } else {
        None
    }
}

/// One tag byte of an enumeration.
pub open spec fn spec_enc_tag(t: int) -> Seq<u8>
    recommends
        0 <= t < 256,
{
    seq![t as u8]
}

/// The tag byte at `i`.
pub open spec fn spec_dec_tag(b: Seq<u8>, i: int) -> Option<(int, int)> {
    if 0 <= i && i + 1 <= b.len() {
        Some((b[i] as int, i + 1))
    } else {
        None
    }
}

/// Decoding reads back exactly the encoded tag.
pub proof fn lemma_tag_frame(b: Seq<u8>, i: int, t: int)
    requires
        0 <= t < 256,
        0 <= i,
        i + 1 <= b.len(),
        b.subrange(i, i + 1) == spec_enc_tag(t),
    ensures
        spec_dec_tag(b, i) == Some((t, i + 1)),
{
    assert(b[i] == spec_enc_tag(t)[0]);
}

/// Append one tag byte.
pub fn enc_tag(out: &mut Vec<u8>, t: u8)
    ensures
        final(out)@ == old(out)@ + spec_enc_tag(t as int),
{
    let ghost o0 = out@;
    out.push(t);
    proof {
        assert(out@ =~= o0 + spec_enc_tag(t as int));
    }
}

/// Read the tag byte at `pos`.
pub fn dec_tag(b: &Vec<u8>, pos: usize) -> (r: Option<(u8, usize)>)
    ensures
        match r {
            Some((t, next)) => spec_dec_tag(b@, pos as int) == Some((t as int, next as int)),
            None => spec_dec_tag(b@, pos as int) is None,
        },
{
    if pos < b.len() {
        Some((b[pos], pos + 1))
    } else {
        None
    }
}

/// Whether a character sequence fits a two-byte byte-length field.
pub open spec fn spec_str_fits(s: Seq<char>) -> bool {
    encode_utf8(s).len() < 65536
}

/// A string on the wire: its UTF-8 byte length, then its bytes.
pub open spec fn spec_enc_str(s: Seq<char>) -> Seq<u8> {
    spec_enc_u16(encode_utf8(s).len() as int) + encode_utf8(s)
}

/// The character sequence at `i`: a byte length, then that many bytes of
/// valid UTF-8.
pub open spec fn spec_dec_str(b: Seq<u8>, i: int) -> Option<(Seq<char>, int)> {
    match spec_dec_u16(b, i) {
        None => None,
        Some((n, j)) => if j + n <= b.len() && valid_utf8(b.subrange(j, j + n)) {
            Some((decode_utf8(b.subrange(j, j + n)), j + n))
        } else {
            None
        },
    }
}

/// Decoding reads back exactly the encoded string, whatever surrounds it.
pub proof fn lemma_str_frame(b: Seq<u8>, i: int, s: Seq<char>)
    requires
        spec_str_fits(s),
        0 <= i,
        i + spec_enc_str(s).len() <= b.len(),
        b.subrange(i, i + spec_enc_str(s).len()) == spec_enc_str(s),
    ensures
        spec_dec_str(b, i) == Some((s, i + spec_enc_str(s).len())),
{
    broadcast use encode_utf8_valid_utf8, encode_utf8_decode_utf8;

    let bytes = encode_utf8(s);
    let n = bytes.len() as int;
    let e = spec_enc_str(s);
    assert(forall|k: int| 0 <= k < e.len() ==> b[i + k] == #[trigger] e[k]) by {
        assert(forall|k: int|
            0 <= k < e.len() ==> b.subrange(i, i + e.len() as int)[k] == #[trigger] e[k]);
    }
    assert(b.subrange(i, i + 2) =~= spec_enc_u16(n));
    lemma_u16_frame(b, i, n);
    assert forall|m: int| 0 <= m < n implies b[i + 2 + m] == bytes[m] by {
        assert(e[2 + m] == bytes[m]);
        assert(b[i + (2 + m)] == e[2 + m]);
    }
    assert(b.subrange(i + 2, i + 2 + n) =~= bytes);
}

/// Append the byte-length field and the UTF-8 bytes of `s`.
pub fn enc_str(out: &mut Vec<u8>, s: &str) -> (ok: bool)
    ensures
        ok == spec_str_fits(s@),
        ok ==> final(out)@ == old(out)@ + spec_enc_str(s@),
        !ok ==> final(out)@ == old(out)@,
{
    let bytes = s.as_bytes_vec();
    if bytes.len() >= 65536 {
        return false;
    }
    enc_u16(out, bytes.len() as u16);
    let ghost o1 = out@;
    let mut k: usize = 0;
    while k < bytes.len()
        invariant
            0 <= k <= bytes@.len(),
            out@ == o1 + bytes@.subrange(0, k as int),
        decreases bytes@.len() - k,
    {
        out.push(bytes[k]);
        proof {
            assert(out@ =~= o1 + bytes@.subrange(0, k + 1));
        }
        k = k + 1;
    }
    proof {
        assert(bytes@.subrange(0, bytes@.len() as int) =~= bytes@);
        assert(out@ =~= old(out)@ + spec_enc_str(s@));
    }
    true
}

/// Relies on String::from_utf8: it succeeds exactly on valid UTF-8 and the
/// resulting string's bytes are the input bytes.
#[verifier::external_body]
fn string_from_utf8(v: Vec<u8>) -> (r: Option<String>)
    ensures
        match r {
            Some(s) => encode_utf8(s@) == v@ && valid_utf8(v@),
            None => !valid_utf8(v@),
        },
{
    String::from_utf8(v).ok()
}

/// Read the string at `pos`.
pub fn dec_str(b: &Vec<u8>, pos: usize) -> (r: Option<(String, usize)>)
    ensures
        match r {
            Some((s, next)) => spec_dec_str(b@, pos as int) == Some((s@, next as int)),
            None => spec_dec_str(b@, pos as int) is None,
        },
{
    broadcast use encode_utf8_decode_utf8;

    let (n, j) = match dec_u16(b, pos) {
        Some(x) => x,
        None => {
            return None;
        },
    };
    let n = n as usize;
    if j > b.len() || n > b.len() - j {
        return None;
    }
    let mut bytes: Vec<u8> = Vec::new();
    let end = j + n;
    let mut idx = j;
    while idx < end
        invariant
            j <= idx <= end,
            end == j + n,
            end <= b@.len(),
            bytes@ == b@.subrange(j as int, idx as int),
        decreases end - idx,
    {
        bytes.push(b[idx]);
        proof {
            assert(bytes@ =~= b@.subrange(j as int, idx + 1));
        }
        idx = idx + 1;
    }
    match string_from_utf8(bytes) {
        Some(s) => Some((s, j + n)),
        None => None,
    }
}

/// The concatenated encodings of a list of strings, head first.
pub open spec fn spec_enc_strs(l: Seq<Seq<char>>) -> Seq<u8>
    decreases l.len(),
{
    if l.len() == 0 {
        Seq::empty()
    } else {
        spec_enc_str(l.first()) + spec_enc_strs(l.drop_first())
    }
}

/// Encoding a list one element longer appends one encoding.
pub proof fn lemma_enc_strs_push(l: Seq<Seq<char>>, x: Seq<char>)
    ensures
        spec_enc_strs(l.push(x)) == spec_enc_strs(l) + spec_enc_str(x),
    decreases l.len(),
{
    if l.len() == 0 {
        assert(l.push(x).drop_first() =~= Seq::<Seq<char>>::empty());
        assert(l.push(x).first() == x);
        assert(spec_enc_strs(l.push(x)) == spec_enc_str(x) + spec_enc_strs(
            Seq::<Seq<char>>::empty(),
        ));
        assert(spec_enc_str(x) + Seq::<u8>::empty() =~= spec_enc_str(x));
        assert(spec_enc_strs(l) + spec_enc_str(x) =~= spec_enc_str(x));
    } else {
        assert(l.push(x).drop_first() =~= l.drop_first().push(x));
        assert(l.push(x).first() == l.first());
        lemma_enc_strs_push(l.drop_first(), x);
        assert(spec_enc_strs(l.push(x)) =~= spec_enc_strs(l) + spec_enc_str(x));
    }
}

/// The `n` strings decoded from `i` on, and the offset after them.
pub open spec fn spec_dec_str_n(b: Seq<u8>, i: int, n: int) -> Option<(Seq<Seq<char>>, int)>
    decreases n,
{
    if n <= 0 {
        Some((Seq::empty(), i))
    } else {
        match spec_dec_str(b, i) {
            None => None,
            Some((s, j)) => match spec_dec_str_n(b, j, n - 1) {
                None => None,
                Some((rest, k)) => Some((seq![s] + rest, k)),
            },
        }
    }
}

/// Whether every string of the list fits its length field, and the count
/// fits its own.
pub open spec fn spec_strs_fit(l: Seq<Seq<char>>) -> bool {
    l.len() < 65536 && forall|i: int| 0 <= i < l.len() ==> spec_str_fits(#[trigger] l[i])
}

/// Decoding reads back exactly the encoded strings, whatever surrounds them.
pub proof fn lemma_strs_frame(b: Seq<u8>, i: int, l: Seq<Seq<char>>)
    requires
        spec_strs_fit(l),
        0 <= i,
        i + spec_enc_strs(l).len() <= b.len(),
        b.subrange(i, i + spec_enc_strs(l).len()) == spec_enc_strs(l),
    ensures
        spec_dec_str_n(b, i, l.len() as int) == Some((l, i + spec_enc_strs(l).len())),
    decreases l.len(),
{
    if l.len() == 0 {
        assert(spec_enc_strs(l).len() == 0);
    } else {
        let head = spec_enc_str(l.first());
        let tail = spec_enc_strs(l.drop_first());
        let e = spec_enc_strs(l);
        assert(e == head + tail);
        assert(forall|k: int| 0 <= k < e.len() ==> b[i + k] == #[trigger] e[k]) by {
            assert(forall|k: int|
                0 <= k < e.len() ==> b.subrange(i, i + e.len() as int)[k] == #[trigger] e[k]);
        }
        assert(b.subrange(i, i + head.len() as int) =~= head);
        assert(spec_str_fits(l.first())) by {
            assert(l[0] == l.first());
        }
        lemma_str_frame(b, i, l.first());
        let j = i + head.len() as int;
        assert forall|m: int| 0 <= m < tail.len() implies b[j + m] == tail[m] by {
            assert(e[head.len() + m] == tail[m]);
            assert(b[i + (head.len() + m)] == e[head.len() + m]);
        }
        assert(b.subrange(j, j + tail.len() as int) =~= tail);
        assert(spec_strs_fit(l.drop_first())) by {
            assert(forall|m: int|
                0 <= m < l.drop_first().len() ==> #[trigger] l.drop_first()[m] == l[m + 1]);
        }
        lemma_strs_frame(b, j, l.drop_first());
        assert(seq![l.first()] + l.drop_first() =~= l);
    }
}

/// A string list on the wire: its count, then each string in order.
pub open spec fn spec_enc_str_list(l: Seq<Seq<char>>) -> Seq<u8> {
    spec_enc_u16(l.len() as int) + spec_enc_strs(l)
}

/// The string list at `i`.
pub open spec fn spec_dec_str_list(b: Seq<u8>, i: int) -> Option<(Seq<Seq<char>>, int)> {
    match spec_dec_u16(b, i) {
        None => None,
        Some((n, j)) => spec_dec_str_n(b, j, n),
    }
}

/// Decoding reads back exactly the encoded string list.
pub proof fn lemma_str_list_frame(b: Seq<u8>, i: int, l: Seq<Seq<char>>)
    requires
        spec_strs_fit(l),
        0 <= i,
        i + spec_enc_str_list(l).len() <= b.len(),
        b.subrange(i, i + spec_enc_str_list(l).len()) == spec_enc_str_list(l),
    ensures
        spec_dec_str_list(b, i) == Some((l, i + spec_enc_str_list(l).len())),
{
    let e = spec_enc_str_list(l);
    assert(forall|k: int| 0 <= k < e.len() ==> b[i + k] == #[trigger] e[k]) by {
        assert(forall|k: int|
            0 <= k < e.len() ==> b.subrange(i, i + e.len() as int)[k] == #[trigger] e[k]);
    }
    assert(b.subrange(i, i + 2) =~= spec_enc_u16(l.len() as int));
    lemma_u16_frame(b, i, l.len() as int);
    let tail = spec_enc_strs(l);
    assert forall|m: int| 0 <= m < tail.len() implies b[i + 2 + m] == tail[m] by {
        assert(e[2 + m] == tail[m]);
        assert(b[i + (2 + m)] == e[2 + m]);
    }
    assert(b.subrange(i + 2, i + 2 + spec_enc_strs(l).len() as int) =~= spec_enc_strs(l));
    lemma_strs_frame(b, i + 2, l);
}

/// Append the count and each string of the list.
pub fn enc_str_list(out: &mut Vec<u8>, l: &Vec<String>) -> (ok: bool)
    ensures
        ok == spec_strs_fit(crate::config::profile::cmd_view(l@)),
        ok ==> final(out)@ == old(out)@ + spec_enc_str_list(crate::config::profile::cmd_view(l@)),
        !ok ==> final(out)@ == old(out)@,
{
    let ghost lv = crate::config::profile::cmd_view(l@);
    if l.len() >= 65536 {
        return false;
    }
    // Check every element before writing anything.
    let mut c: usize = 0;
    while c < l.len()
        invariant
            0 <= c <= l@.len(),
            lv == crate::config::profile::cmd_view(l@),
            forall|m: int| 0 <= m < c ==> spec_str_fits(#[trigger] lv[m]),
        decreases l@.len() - c,
    {
        if l[c].as_str().as_bytes_vec().len() >= 65536 {
            proof {
                assert(!spec_str_fits(lv[c as int]));
            }
            return false;
        }
        c = c + 1;
    }
    enc_u16(out, l.len() as u16);
    let ghost o1 = out@;
    let mut i: usize = 0;
    proof {
        assert(lv.subrange(0, 0) =~= Seq::<Seq<char>>::empty());
    }
    while i < l.len()
        invariant
            0 <= i <= l@.len(),
            lv == crate::config::profile::cmd_view(l@),
            forall|m: int| 0 <= m < lv.len() ==> spec_str_fits(#[trigger] lv[m]),
            out@ == o1 + spec_enc_strs(lv.subrange(0, i as int)),
        decreases l@.len() - i,
    {
        let ghost o2 = out@;
        let ok = enc_str(out, l[i].as_str());
        proof {
            assert(lv[i as int] == l@[i as int]@);
            assert(ok);
            lemma_enc_strs_push(lv.subrange(0, i as int), lv[i as int]);
            assert(lv.subrange(0, i as int).push(lv[i as int]) =~= lv.subrange(0, i + 1));
        }
        i = i + 1;
    }
    proof {
        assert(lv.subrange(0, lv.len() as int) =~= lv);
    }
    true
}

/// Read the string list at `pos`.
pub fn dec_str_list(b: &Vec<u8>, pos: usize) -> (r: Option<(Vec<String>, usize)>)
    ensures
        match r {
            Some((l, next)) => spec_dec_str_list(b@, pos as int) == Some(
                (crate::config::profile::cmd_view(l@), next as int),
            ),
            None => spec_dec_str_list(b@, pos as int) is None,
        },
{
    let (n, j) = match dec_u16(b, pos) {
        Some(x) => x,
        None => {
            return None;
        },
    };
    let n = n as usize;
    let mut out: Vec<String> = Vec::new();
    let mut cur = j;
    let mut i: usize = 0;
    proof {
        assert(crate::config::profile::cmd_view(out@) =~= Seq::<Seq<char>>::empty());
    }
    while i < n
        invariant
            0 <= i <= n,
            spec_dec_u16(b@, pos as int) == Some((n as int, j as int)),
            spec_dec_str_n(b@, j as int, n as int) == (match spec_dec_str_n(
                b@,
                cur as int,
                n - i,
            ) {
                Some((rest, k)) => Some(
                    (crate::config::profile::cmd_view(out@) + rest, k),
                ),
                None => None::<(Seq<Seq<char>>, int)>,
            }),
        decreases n - i,
    {
        let ghost cur0 = cur as int;
        let (s, next) = match dec_str(b, cur) {
            Some(x) => x,
            None => {
                proof {
                    assert(spec_dec_str_n(b@, cur as int, n - i) is None);
                    assert(spec_dec_str_n(b@, j as int, n as int) is None);
                    assert(spec_dec_str_list(b@, pos as int) is None);
                }
                return None;
            },
        };
        let ghost out0 = crate::config::profile::cmd_view(out@);
        out.push(s);
        cur = next;
        i = i + 1;
        proof {
            assert(crate::config::profile::cmd_view(out@) =~= out0.push(s@));
            let r2 = spec_dec_str_n(b@, cur as int, n - i);
            if r2 is Some {
                let rest = (r2->0).0;
                let k = (r2->0).1;
                assert(spec_dec_str_n(b@, cur0, n - i + 1) == Some((seq![s@] + rest, k)));
                assert(out0.push(s@) + rest =~= out0 + (seq![s@] + rest));
            } else {
                assert(spec_dec_str_n(b@, cur0, n - i + 1) is None);
            }
        }
    }
    proof {
        assert(crate::config::profile::cmd_view(out@) + Seq::<Seq<char>>::empty()
            =~= crate::config::profile::cmd_view(out@));
    }
    Some((out, cur))
}

/// A part of an encoding found inside `b` is found at its offset: the
/// workhorse for decomposing concatenated fields.
pub proof fn lemma_sub_at(b: Seq<u8>, i: int, off: int, part: Seq<u8>, whole: Seq<u8>)
    requires
        0 <= i,
        i + whole.len() <= b.len(),
        b.subrange(i, i + whole.len()) == whole,
        0 <= off,
        off + part.len() <= whole.len(),
        part == whole.subrange(off, off + part.len()),
    ensures
        b.subrange(i + off, i + off + part.len()) == part,
{
    assert forall|m: int| 0 <= m < part.len() implies b[i + off + m] == part[m] by {
        assert(whole[off + m] == part[m]);
        assert(b.subrange(i, i + whole.len())[off + m] == whole[off + m]);
        assert(b[i + (off + m)] == whole[off + m]);
    }
    assert(b.subrange(i + off, i + off + part.len()) =~= part);
}

/// A message frame: the payload behind its two-byte little-endian length.
pub open spec fn spec_frame(payload: Seq<u8>) -> Seq<u8>
    recommends
        payload.len() < 65536,
{
    spec_enc_u16(payload.len() as int) + payload
}

/// Put the payload behind its length header; a payload over the frame limit
/// is refused, as the sender must not silently truncate it.
pub fn frame_message(payload: &Vec<u8>) -> (r: Option<Vec<u8>>)
    ensures
        match r {
            Some(framed) => payload@.len() < 65536 && framed@ == spec_frame(payload@),
            None => payload@.len() >= 65536,
        },
{
    if payload.len() > WIRE_MAX {
        return None;
    }
    let mut out: Vec<u8> = Vec::new();
    enc_u16(&mut out, payload.len() as u16);
    let ghost o1 = out@;
    let mut k: usize = 0;
    while k < payload.len()
        invariant
            0 <= k <= payload@.len(),
            out@ == o1 + payload@.subrange(0, k as int),
        decreases payload@.len() - k,
    {
        out.push(payload[k]);
        proof {
            assert(out@ =~= o1 + payload@.subrange(0, k + 1));
        }
        k = k + 1;
    }
    proof {
        assert(payload@.subrange(0, payload@.len() as int) =~= payload@);
        assert(out@ =~= spec_frame(payload@));
    }
    Some(out)
}

/// The payload of the frame starting at the head of `b`, when the whole
/// frame has arrived.
pub fn parse_frame(b: &Vec<u8>) -> (r: Option<(Vec<u8>, usize)>)
    ensures
        match r {
            Some((payload, consumed)) => {
                &&& spec_dec_u16(b@, 0) matches Some((n, j)) && n == payload@.len() && consumed
                    == j + n
                &&& payload@ == b@.subrange(2, 2 + payload@.len() as int)
            },
            None => spec_dec_u16(b@, 0) matches Some((n, _)) ==> 2 + n > b@.len(),
        },
{
    let (n, j) = match dec_u16(b, 0) {
        Some(x) => x,
        None => {
            return None;
        },
    };
    let n = n as usize;
    if j > b.len() || n > b.len() - j {
        return None;
    }
    let mut payload: Vec<u8> = Vec::new();
    let end = j + n;
    let mut idx = j;
    while idx < end
        invariant
            j == 2,
            j <= idx <= end,
            end == j + n,
            end <= b@.len(),
            payload@ == b@.subrange(2, idx as int),
        decreases end - idx,
    {
        payload.push(b[idx]);
        proof {
            assert(payload@ =~= b@.subrange(2, idx + 1));
        }
        idx = idx + 1;
    }
    Some((payload, j + n))
}

/// A framed payload is read back exactly.
pub proof fn lemma_frame_round_trip(payload: Seq<u8>)
    requires
        payload.len() < 65536,
    ensures
        spec_dec_u16(spec_frame(payload), 0) == Some((payload.len() as int, 2int)),
        spec_frame(payload).subrange(2, 2 + payload.len() as int) == payload,
{
    let framed = spec_frame(payload);
    assert(framed.subrange(0, 2) =~= spec_enc_u16(payload.len() as int));
    lemma_u16_frame(framed, 0, payload.len() as int);
    assert(framed.subrange(2, 2 + payload.len() as int) =~= payload);
}

} // verus!
