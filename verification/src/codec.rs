//! The wire format of the protocol: a byte-level codec for requests and
//! responses. Serializing and then deserializing any message yields the
//! message back; trailing bytes, unknown tags and malformed payloads are
//! rejected rather than coerced.
//!
//! Integers are little-endian; byte strings and lists carry a 64-bit
//! length; text is UTF-8.

use vstd::prelude::*;
use vstd::utf8::{decode_utf8, encode_utf8, valid_utf8};

use crate::protocol::{pairs_model, results_model, RemoteKeystore, RemoteKeystoreResponse, RequestModel, ResponseModel};
use crate::types::KeyTypeId;

verus! {

/// The little-endian 8-byte encoding of a 64-bit integer.
pub open spec fn senc_u64(x: u64) -> Seq<u8> {
    seq![
        (x % 256) as u8,
        ((x / 256) % 256) as u8,
        ((x / 65536) % 256) as u8,
        ((x / 16777216) % 256) as u8,
        ((x / 4294967296) % 256) as u8,
        ((x / 1099511627776) % 256) as u8,
        ((x / 281474976710656) % 256) as u8,
        ((x / 72057594037927936) % 256) as u8,
    ]
}

/// The value of 8 little-endian bytes.
pub open spec fn scomb_u64(b: Seq<u8>, i: int) -> int {
    b[i] + b[i + 1] * 256 + b[i + 2] * 65536 + b[i + 3] * 16777216 + b[i + 4] * 4294967296 + b[i
        + 5] * 1099511627776 + b[i + 6] * 281474976710656 + b[i + 7] * 72057594037927936
}

/// Reads a 64-bit little-endian integer.
pub open spec fn sdec_u64(b: Seq<u8>, i: int) -> Option<(u64, int)> {
    if 0 <= i && i + 8 <= b.len() {
        Some((scomb_u64(b, i) as u64, i + 8))
    } else {
        None
    }
}

/// Reads one byte.
pub open spec fn sdec_u8(b: Seq<u8>, i: int) -> Option<(u8, int)> {
    if 0 <= i && i + 1 <= b.len() {
        Some((b[i], i + 1))
    } else {
        None
    }
}

/// The little-endian decomposition of a 64-bit value recombines to the
/// value.
proof fn lemma_u64_decompose(x: u64)
    ensures
        (x % 256) + ((x / 256) % 256) * 256 + ((x / 65536) % 256) * 65536 + ((x / 16777216) % 256)
            * 16777216 + ((x / 4294967296) % 256) * 4294967296 + ((x / 1099511627776) % 256)
            * 1099511627776 + ((x / 281474976710656) % 256) * 281474976710656 + ((x
            / 72057594037927936) % 256) * 72057594037927936 == x,
{
    assert((x % 256) + ((x / 256) % 256) * 256 + ((x / 65536) % 256) * 65536 + ((x / 16777216)
        % 256) * 16777216 + ((x / 4294967296) % 256) * 4294967296 + ((x / 1099511627776) % 256)
        * 1099511627776 + ((x / 281474976710656) % 256) * 281474976710656 + ((x
        / 72057594037927936) % 256) * 72057594037927936 == x) by (bit_vector);
}

/// Decoding an encoded 64-bit integer, at its place in a larger buffer,
/// yields the integer back.
pub proof fn lemma_rt_u64(x: u64, pre: Seq<u8>, suf: Seq<u8>)
    ensures
        sdec_u64(pre + senc_u64(x) + suf, pre.len() as int) == Some(
            (x, pre.len() + senc_u64(x).len() as int),
        ),
{
    let b = pre + senc_u64(x) + suf;
    let i = pre.len() as int;
    assert forall|k: int| 0 <= k < 8 implies b[i + k] == senc_u64(x)[k] by {}
    lemma_u64_decompose(x);
    assert(scomb_u64(b, i) == x);
}

/// Appends the little-endian encoding of a 64-bit integer.
fn enc_u64(out: &mut Vec<u8>, x: u64)
    ensures
        final(out)@ == old(out)@ + senc_u64(x),
{
    out.push((x % 256) as u8);
    out.push(((x / 256) % 256) as u8);
    out.push(((x / 65536) % 256) as u8);
    out.push(((x / 16777216) % 256) as u8);
    out.push(((x / 4294967296) % 256) as u8);
    out.push(((x / 1099511627776) % 256) as u8);
    out.push(((x / 281474976710656) % 256) as u8);
    out.push(((x / 72057594037927936) % 256) as u8);
    proof {
        assert(out@ =~= old(out)@ + senc_u64(x));
    }
}

/// Reads a 64-bit little-endian integer.
fn dec_u64(buf: &Vec<u8>, pos: &mut usize) -> (r: Option<u64>)
    requires
        *old(pos) <= buf@.len(),
    ensures
        match sdec_u64(buf@, *old(pos) as int) {
            Some((v, j)) => r == Some(v) && *final(pos) == j && j <= buf@.len(),
            None => r is None && *final(pos) == *old(pos),
        },
{
    if buf.len() - *pos < 8 {
        return None;
    }
    let i = *pos;
    let v: u64 = (buf[i] as u64) + (buf[i + 1] as u64) * 256 + (buf[i + 2] as u64) * 65536 + (buf[i
        + 3] as u64) * 16777216 + (buf[i + 4] as u64) * 4294967296 + (buf[i + 5] as u64)
        * 1099511627776 + (buf[i + 6] as u64) * 281474976710656 + (buf[i + 7] as u64)
        * 72057594037927936;
    *pos = i + 8;
    proof {
        assert(v == scomb_u64(buf@, i as int) as u64);
    }
    Some(v)
}

/// Reads one byte.
fn dec_u8(buf: &Vec<u8>, pos: &mut usize) -> (r: Option<u8>)
    requires
        *old(pos) <= buf@.len(),
    ensures
        match sdec_u8(buf@, *old(pos) as int) {
            Some((v, j)) => r == Some(v) && *final(pos) == j && j <= buf@.len(),
            None => r is None && *final(pos) == *old(pos),
        },
{
    if buf.len() - *pos < 1 {
        return None;
    }
    let v = buf[*pos];
    *pos = *pos + 1;
    Some(v)
}

/// A length-prefixed byte string.
pub open spec fn senc_bytes(bs: Seq<u8>) -> Seq<u8> {
    senc_u64(bs.len() as u64) + bs
}

/// Reads a length-prefixed byte string.
pub open spec fn sdec_bytes(b: Seq<u8>, i: int) -> Option<(Seq<u8>, int)> {
    match sdec_u64(b, i) {
        None => None,
        Some((n, j)) => if j + n <= b.len() {
            Some((b.subrange(j, j + n), j + n))
        } else {
            None
        },
    }
}

/// Decoding an encoded byte string, at its place in a larger buffer,
/// yields the bytes back.
pub proof fn lemma_rt_bytes(bs: Seq<u8>, pre: Seq<u8>, suf: Seq<u8>)
    requires
        bs.len() <= u64::MAX,
    ensures
        sdec_bytes(pre + senc_bytes(bs) + suf, pre.len() as int) == Some(
            (bs, pre.len() + senc_bytes(bs).len() as int),
        ),
{
    let n = bs.len() as u64;
    let b = pre + senc_bytes(bs) + suf;
    assert(b =~= pre + senc_u64(n) + (bs + suf));
    lemma_rt_u64(n, pre, bs + suf);
    let j = pre.len() + 8;
    assert(b.subrange(j as int, j + n) =~= bs);
}

/// Appends a length-prefixed byte string.
fn enc_bytes(out: &mut Vec<u8>, bs: &Vec<u8>)
    ensures
        final(out)@ == old(out)@ + senc_bytes(bs@),
{
    enc_u64(out, bs.len() as u64);
    let ghost mid = out@;
    let n = bs.len();
    let mut k: usize = 0;
    while k < n
        invariant
            n == bs.len(),
            0 <= k <= n,
            out@ == mid + bs@.take(k as int),
        decreases n - k,
    {
        out.push(bs[k]);
        proof {
            assert(out@ =~= mid + bs@.take(k + 1 as int));
        }
        k += 1;
    }
    proof {
        assert(out@ =~= old(out)@ + senc_bytes(bs@));
    }
}

/// Reads a length-prefixed byte string.
fn dec_bytes(buf: &Vec<u8>, pos: &mut usize) -> (r: Option<Vec<u8>>)
    requires
        *old(pos) <= buf@.len(),
    ensures
        match sdec_bytes(buf@, *old(pos) as int) {
            Some((v, j)) => r is Some && r.unwrap()@ == v && *final(pos) == j && j <= buf@.len(),
            None => r is None,
        },
{
    let n = match dec_u64(buf, pos) {
        Some(n) => n,
        None => {
            return None;
        },
    };
    if n > (buf.len() - *pos) as u64 {
        return None;
    }
    let cnt = n as usize;
    let start = *pos;
    let mut out: Vec<u8> = Vec::new();
    let mut k: usize = 0;
    while k < cnt
        invariant
            start + cnt <= buf.len(),
            0 <= k <= cnt,
            out@ == buf@.subrange(start as int, start + k as int),
        decreases cnt - k,
    {
        proof {
            assert(start + k < buf@.len());
        }
        out.push(buf[start + k]);
        proof {
            assert(out@ =~= buf@.subrange(start as int, start + (k + 1) as int));
        }
        k += 1;
    }
    *pos = start + cnt;
    Some(out)
}

/// A length-prefixed UTF-8 string.
pub open spec fn senc_string(s: Seq<char>) -> Seq<u8> {
    senc_bytes(encode_utf8(s))
}

/// Reads a length-prefixed UTF-8 string; invalid UTF-8 is rejected.
pub open spec fn sdec_string(b: Seq<u8>, i: int) -> Option<(Seq<char>, int)> {
    match sdec_bytes(b, i) {
        None => None,
        Some((bs, j)) => if valid_utf8(bs) {
            Some((decode_utf8(bs), j))
        } else {
            None
        },
    }
}

/// Decoding an encoded string yields the characters back.
pub proof fn lemma_rt_string(s: Seq<char>, pre: Seq<u8>, suf: Seq<u8>)
    requires
        encode_utf8(s).len() <= u64::MAX,
    ensures
        sdec_string(pre + senc_string(s) + suf, pre.len() as int) == Some(
            (s, pre.len() + senc_string(s).len() as int),
        ),
{
    broadcast use vstd::utf8::encode_utf8_valid_utf8, vstd::utf8::encode_utf8_decode_utf8;

    lemma_rt_bytes(encode_utf8(s), pre, suf);
}

/// Appends a length-prefixed UTF-8 string.
fn enc_string(out: &mut Vec<u8>, s: &str)
    ensures
        final(out)@ == old(out)@ + senc_string(s@),
{
    let bv = s.as_bytes_vec();
    enc_bytes(out, &bv);
}

/// Reads a length-prefixed UTF-8 string.
fn dec_string(buf: &Vec<u8>, pos: &mut usize) -> (r: Option<String>)
    requires
        *old(pos) <= buf@.len(),
    ensures
        match sdec_string(buf@, *old(pos) as int) {
            Some((v, j)) => r is Some && r.unwrap()@ == v && *final(pos) == j && j <= buf@.len(),
            None => r is None,
        },
{
    let bs = match dec_bytes(buf, pos) {
        Some(bs) => bs,
        None => {
            return None;
        },
    };
    crate::crypto::string_from_utf8(bs)
}

/// A 4-byte key-type tag, as its bytes.
pub open spec fn senc_ktid(k: KeyTypeId) -> Seq<u8> {
    seq![k.0, k.1, k.2, k.3]
}

/// Reads a 4-byte key-type tag.
pub open spec fn sdec_ktid(b: Seq<u8>, i: int) -> Option<(KeyTypeId, int)> {
    if 0 <= i && i + 4 <= b.len() {
        Some((KeyTypeId(b[i], b[i + 1], b[i + 2], b[i + 3]), i + 4))
    } else {
        None
    }
}

/// Decoding an encoded key-type tag yields the tag back.
pub proof fn lemma_rt_ktid(k: KeyTypeId, pre: Seq<u8>, suf: Seq<u8>)
    ensures
        sdec_ktid(pre + senc_ktid(k) + suf, pre.len() as int) == Some(
            (k, pre.len() + senc_ktid(k).len() as int),
        ),
{
    let b = pre + senc_ktid(k) + suf;
    let i = pre.len() as int;
    assert(b[i] == k.0 && b[i + 1] == k.1 && b[i + 2] == k.2 && b[i + 3] == k.3);
}

/// Appends a 4-byte key-type tag.
fn enc_ktid(out: &mut Vec<u8>, k: KeyTypeId)
    ensures
        final(out)@ == old(out)@ + senc_ktid(k),
{
    out.push(k.0);
    out.push(k.1);
    out.push(k.2);
    out.push(k.3);
    proof {
        assert(out@ =~= old(out)@ + senc_ktid(k));
    }
}

/// Reads a 4-byte key-type tag.
fn dec_ktid(buf: &Vec<u8>, pos: &mut usize) -> (r: Option<KeyTypeId>)
    requires
        *old(pos) <= buf@.len(),
    ensures
        match sdec_ktid(buf@, *old(pos) as int) {
            Some((v, j)) => r == Some(v) && *final(pos) == j && j <= buf@.len(),
            None => r is None,
        },
{
    if buf.len() - *pos < 4 {
        return None;
    }
    let i = *pos;
    let k = KeyTypeId(buf[i], buf[i + 1], buf[i + 2], buf[i + 3]);
    *pos = i + 4;
    Some(k)
}

/// A scheme tag, as one byte.
pub open spec fn senc_scheme(s: crate::types::SchemeTag) -> Seq<u8> {
    match s {
        crate::types::SchemeTag::Sr25519 => seq![0u8],
        crate::types::SchemeTag::Ed25519 => seq![1u8],
        crate::types::SchemeTag::Ecdsa => seq![2u8],
    }
}

/// Reads a scheme tag; unknown tags are rejected.
pub open spec fn sdec_scheme(b: Seq<u8>, i: int) -> Option<(crate::types::SchemeTag, int)> {
    match sdec_u8(b, i) {
        None => None,
        Some((t, j)) => if t == 0 {
            Some((crate::types::SchemeTag::Sr25519, j))
        } else if t == 1 {
            Some((crate::types::SchemeTag::Ed25519, j))
        } else if t == 2 {
            Some((crate::types::SchemeTag::Ecdsa, j))
        } else {
            None
        },
    }
}

/// Decoding an encoded scheme tag yields the tag back.
pub proof fn lemma_rt_scheme(s: crate::types::SchemeTag, pre: Seq<u8>, suf: Seq<u8>)
    ensures
        sdec_scheme(pre + senc_scheme(s) + suf, pre.len() as int) == Some(
            (s, pre.len() + senc_scheme(s).len() as int),
        ),
{
    let b = pre + senc_scheme(s) + suf;
    assert(b[pre.len() as int] == senc_scheme(s)[0]);
}

/// Appends a scheme tag.
fn enc_scheme(out: &mut Vec<u8>, s: crate::types::SchemeTag)
    ensures
        final(out)@ == old(out)@ + senc_scheme(s),
{
    let t: u8 = match s {
        crate::types::SchemeTag::Sr25519 => 0,
        crate::types::SchemeTag::Ed25519 => 1,
        crate::types::SchemeTag::Ecdsa => 2,
    };
    out.push(t);
    proof {
        assert(out@ =~= old(out)@ + senc_scheme(s));
    }
}

/// Reads a scheme tag.
fn dec_scheme(buf: &Vec<u8>, pos: &mut usize) -> (r: Option<crate::types::SchemeTag>)
    requires
        *old(pos) <= buf@.len(),
    ensures
        match sdec_scheme(buf@, *old(pos) as int) {
            Some((v, j)) => r == Some(v) && *final(pos) == j && j <= buf@.len(),
            None => r is None,
        },
{
    let t = match dec_u8(buf, pos) {
        Some(t) => t,
        None => {
            return None;
        },
    };
    if t == 0 {
        Some(crate::types::SchemeTag::Sr25519)
    } else if t == 1 {
        Some(crate::types::SchemeTag::Ed25519)
    } else if t == 2 {
        Some(crate::types::SchemeTag::Ecdsa)
    } else {
        None
    }
}

/// A boolean, as one byte.
pub open spec fn senc_bool(v: bool) -> Seq<u8> {
    if v {
        seq![1u8]
    } else {
        seq![0u8]
    }
}

/// Reads a boolean; bytes other than 0 and 1 are rejected.
pub open spec fn sdec_bool(b: Seq<u8>, i: int) -> Option<(bool, int)> {
    match sdec_u8(b, i) {
        None => None,
        Some((t, j)) => if t == 0 {
            Some((false, j))
        } else if t == 1 {
            Some((true, j))
        } else {
            None
        },
    }
}

/// Decoding an encoded boolean yields the value back.
pub proof fn lemma_rt_bool(v: bool, pre: Seq<u8>, suf: Seq<u8>)
    ensures
        sdec_bool(pre + senc_bool(v) + suf, pre.len() as int) == Some(
            (v, pre.len() + senc_bool(v).len() as int),
        ),
{
    let b = pre + senc_bool(v) + suf;
    assert(b[pre.len() as int] == senc_bool(v)[0]);
}

/// Appends a boolean.
fn enc_bool(out: &mut Vec<u8>, v: bool)
    ensures
        final(out)@ == old(out)@ + senc_bool(v),
{
    out.push(if v { 1 } else { 0 });
    proof {
        assert(out@ =~= old(out)@ + senc_bool(v));
    }
}

/// Reads a boolean.
fn dec_bool(buf: &Vec<u8>, pos: &mut usize) -> (r: Option<bool>)
    requires
        *old(pos) <= buf@.len(),
    ensures
        match sdec_bool(buf@, *old(pos) as int) {
            Some((v, j)) => r == Some(v) && *final(pos) == j && j <= buf@.len(),
            None => r is None,
        },
{
    let t = match dec_u8(buf, pos) {
        Some(t) => t,
        None => {
            return None;
        },
    };
    if t == 0 {
        Some(false)
    } else if t == 1 {
        Some(true)
    } else {
        None
    }
}

/// The items of a list, encoded one after the other.
pub open spec fn senc_list<T>(s: Seq<T>, enc1: spec_fn(T) -> Seq<u8>) -> Seq<u8>
    decreases s.len(),
{
    if s.len() == 0 {
        Seq::empty()
    } else {
        senc_list(s.drop_last(), enc1) + enc1(s.last())
    }
}

/// Reads `n` items, one after the other.
pub open spec fn sdec_list_n<T>(
    b: Seq<u8>,
    i: int,
    n: int,
    dec1: spec_fn(Seq<u8>, int) -> Option<(T, int)>,
) -> Option<(Seq<T>, int)>
    decreases n,
{
    if n <= 0 {
        Some((Seq::empty(), i))
    } else {
        match sdec_list_n(b, i, n - 1, dec1) {
            None => None,
            Some((s, j)) => match dec1(b, j) {
                None => None,
                Some((v, k)) => Some((s.push(v), k)),
            },
        }
    }
}

/// A length-prefixed list.
pub open spec fn senc_listed<T>(s: Seq<T>, enc1: spec_fn(T) -> Seq<u8>) -> Seq<u8> {
    senc_u64(s.len() as u64) + senc_list(s, enc1)
}

/// Reads a length-prefixed list.
pub open spec fn sdec_listed<T>(
    b: Seq<u8>,
    i: int,
    dec1: spec_fn(Seq<u8>, int) -> Option<(T, int)>,
) -> Option<(Seq<T>, int)> {
    match sdec_u64(b, i) {
        None => None,
        Some((n, j)) => sdec_list_n(b, j, n as int, dec1),
    }
}

/// Decoding an encoded list of items yields the items back, provided each
/// item's codec round-trips at any place in a buffer.
pub proof fn lemma_rt_list<T>(
    s: Seq<T>,
    enc1: spec_fn(T) -> Seq<u8>,
    dec1: spec_fn(Seq<u8>, int) -> Option<(T, int)>,
    pre: Seq<u8>,
    suf: Seq<u8>,
)
    requires
        forall|v: T, p2: Seq<u8>, s2: Seq<u8>|
            s.contains(v) ==> #[trigger] dec1(p2 + enc1(v) + s2, p2.len() as int) == Some(
                (v, p2.len() + enc1(v).len() as int),
            ),
    ensures
        sdec_list_n(pre + senc_list(s, enc1) + suf, pre.len() as int, s.len() as int, dec1)
            == Some((s, pre.len() + senc_list(s, enc1).len() as int)),
    decreases s.len(),
{
    if s.len() == 0 {
        assert(pre + senc_list(s, enc1) + suf =~= pre + suf);
    } else {
        let dl = s.drop_last();
        let last = s.last();
        let e_dl = senc_list(dl, enc1);
        let e_last = enc1(last);
        let b = pre + senc_list(s, enc1) + suf;
        assert(b =~= pre + e_dl + (e_last + suf));
        assert forall|v: T, p2: Seq<u8>, s2: Seq<u8>|
            dl.contains(v) implies #[trigger] dec1(p2 + enc1(v) + s2, p2.len() as int) == Some(
            (v, p2.len() + enc1(v).len() as int),
        ) by {
            let ix = choose|ix: int| 0 <= ix < dl.len() && dl[ix] == v;
            assert(s[ix] == v);
            assert(s.contains(v));
        }
        lemma_rt_list(dl, enc1, dec1, pre, e_last + suf);
        assert(sdec_list_n(b, pre.len() as int, dl.len() as int, dec1) == Some(
            (dl, pre.len() + e_dl.len() as int),
        ));
        let p2 = pre + e_dl;
        assert(b =~= p2 + e_last + suf);
        assert(s[s.len() - 1] == last);
        assert(s.contains(last));
        assert(dec1(p2 + enc1(last) + suf, p2.len() as int) == Some(
            (last, p2.len() + enc1(last).len() as int),
        ));
        assert(dl.push(last) =~= s);
    }
}

/// A failed item decode fails the whole list, for any claimed count past
/// the failing item.
pub proof fn lemma_list_fail<T>(
    b: Seq<u8>,
    i: int,
    k: int,
    n: int,
    dec1: spec_fn(Seq<u8>, int) -> Option<(T, int)>,
    s: Seq<T>,
    j: int,
)
    requires
        0 <= k < n,
        sdec_list_n(b, i, k, dec1) == Some((s, j)),
        dec1(b, j) is None,
    ensures
        sdec_list_n(b, i, n, dec1) is None,
    decreases n,
{
    if n == k + 1 {
    } else {
        lemma_list_fail(b, i, k, n - 1, dec1, s, j);
    }
}

/// An optional seed string: an absence flag, then the string if present.
pub open spec fn senc_opt_string(o: Option<Seq<char>>) -> Seq<u8> {
    match o {
        None => seq![0u8],
        Some(s) => seq![1u8] + senc_string(s),
    }
}

/// Reads an optional string.
pub open spec fn sdec_opt_string(b: Seq<u8>, i: int) -> Option<(Option<Seq<char>>, int)> {
    match sdec_u8(b, i) {
        None => None,
        Some((t, j)) => if t == 0 {
            Some((None, j))
        } else if t == 1 {
            match sdec_string(b, j) {
                None => None,
                Some((s, k)) => Some((Some(s), k)),
            }
        } else {
            None
        },
    }
}

/// Decoding an encoded optional string yields the value back.
pub proof fn lemma_rt_opt_string(o: Option<Seq<char>>, pre: Seq<u8>, suf: Seq<u8>)
    requires
        o is Some ==> encode_utf8(o.unwrap()).len() <= u64::MAX,
    ensures
        sdec_opt_string(pre + senc_opt_string(o) + suf, pre.len() as int) == Some(
            (o, pre.len() + senc_opt_string(o).len() as int),
        ),
{
    let b = pre + senc_opt_string(o) + suf;
    match o {
        None => {
            assert(b[pre.len() as int] == 0u8);
        },
        Some(s) => {
            assert(b[pre.len() as int] == 1u8);
            let p2 = pre.push(1u8);
            assert(b =~= p2 + senc_string(s) + suf);
            lemma_rt_string(s, p2, suf);
        },
    }
}

/// Appends an optional seed string.
fn enc_opt_string(out: &mut Vec<u8>, o: &Option<String>)
    ensures
        final(out)@ == old(out)@ + senc_opt_string(
            match o {
                Some(s) => Some(s@),
                None => None,
            },
        ),
{
    match o {
        None => {
            out.push(0);
            proof {
                assert(out@ =~= old(out)@ + senc_opt_string(None));
            }
        },
        Some(s) => {
            out.push(1);
            enc_string(out, s.as_str());
            proof {
                assert(out@ =~= old(out)@ + senc_opt_string(Some(s@)));
            }
        },
    }
}

/// Reads an optional seed string.
fn dec_opt_string(buf: &Vec<u8>, pos: &mut usize) -> (r: Option<Option<String>>)
    requires
        *old(pos) <= buf@.len(),
    ensures
        match sdec_opt_string(buf@, *old(pos) as int) {
            Some((v, j)) => r is Some && (match (r.unwrap(), v) {
                (Some(s), Some(m)) => s@ == m,
                (None, None) => true,
                _ => false,
            }) && *final(pos) == j && j <= buf@.len(),
            None => r is None,
        },
{
    let t = match dec_u8(buf, pos) {
        Some(t) => t,
        None => {
            return None;
        },
    };
    if t == 0 {
        Some(None)
    } else if t == 1 {
        match dec_string(buf, pos) {
            Some(s) => Some(Some(s)),
            None => None,
        }
    } else {
        None
    }
}

/// A public-key handle: its scheme tag, then its public key bytes.
pub open spec fn senc_handle(h: crate::types::HandleModel) -> Seq<u8> {
    senc_scheme(h.scheme) + senc_bytes(h.public)
}

/// Reads a public-key handle.
pub open spec fn sdec_handle(b: Seq<u8>, i: int) -> Option<(crate::types::HandleModel, int)> {
    match sdec_scheme(b, i) {
        None => None,
        Some((s, j)) => match sdec_bytes(b, j) {
            None => None,
            Some((p, k)) => Some((crate::types::HandleModel { scheme: s, public: p }, k)),
        },
    }
}

/// The handle's public key bytes fit the length prefix.
pub open spec fn handle_size_ok(h: crate::types::HandleModel) -> bool {
    h.public.len() <= u64::MAX
}

/// Decoding an encoded handle yields the handle back.
pub proof fn lemma_rt_handle(h: crate::types::HandleModel, pre: Seq<u8>, suf: Seq<u8>)
    requires
        handle_size_ok(h),
    ensures
        sdec_handle(pre + senc_handle(h) + suf, pre.len() as int) == Some(
            (h, pre.len() + senc_handle(h).len() as int),
        ),
{
    let b = pre + senc_handle(h) + suf;
    assert(b =~= pre + senc_scheme(h.scheme) + (senc_bytes(h.public) + suf));
    lemma_rt_scheme(h.scheme, pre, senc_bytes(h.public) + suf);
    let p2 = pre + senc_scheme(h.scheme);
    assert(b =~= p2 + senc_bytes(h.public) + suf);
    lemma_rt_bytes(h.public, p2, suf);
}

/// Appends a public-key handle.
fn enc_handle(out: &mut Vec<u8>, h: &crate::types::PublicKeyHandle)
    ensures
        final(out)@ == old(out)@ + senc_handle(h@),
{
    enc_scheme(out, h.scheme);
    enc_bytes(out, &h.public);
    proof {
        assert(out@ =~= old(out)@ + senc_handle(h@));
    }
}

/// Reads a public-key handle.
fn dec_handle(buf: &Vec<u8>, pos: &mut usize) -> (r: Option<crate::types::PublicKeyHandle>)
    requires
        *old(pos) <= buf@.len(),
    ensures
        match sdec_handle(buf@, *old(pos) as int) {
            Some((v, j)) => r is Some && r.unwrap()@ == v && *final(pos) == j && j <= buf@.len(),
            None => r is None,
        },
{
    let s = match dec_scheme(buf, pos) {
        Some(s) => s,
        None => {
            return None;
        },
    };
    let p = match dec_bytes(buf, pos) {
        Some(p) => p,
        None => {
            return None;
        },
    };
    Some(crate::types::PublicKeyHandle::new(s, p))
}

/// A domain error: a tag byte, plus the key type for the unsupported-type
/// error.
pub open spec fn senc_err(e: crate::types::KeystoreError) -> Seq<u8> {
    match e {
        crate::types::KeystoreError::Unavailable => seq![0u8],
        crate::types::KeystoreError::KeyNotSupported(k) => seq![1u8] + senc_ktid(k),
        crate::types::KeystoreError::InvalidSeed => seq![2u8],
        crate::types::KeystoreError::PairNotFound => seq![3u8],
    }
}

/// Reads a domain error.
pub open spec fn sdec_err(b: Seq<u8>, i: int) -> Option<(crate::types::KeystoreError, int)> {
    match sdec_u8(b, i) {
        None => None,
        Some((t, j)) => if t == 0 {
            Some((crate::types::KeystoreError::Unavailable, j))
        } else if t == 1 {
            match sdec_ktid(b, j) {
                None => None,
                Some((k, m)) => Some((crate::types::KeystoreError::KeyNotSupported(k), m)),
            }
        } else if t == 2 {
            Some((crate::types::KeystoreError::InvalidSeed, j))
        } else if t == 3 {
            Some((crate::types::KeystoreError::PairNotFound, j))
        } else {
            None
        },
    }
}

/// Decoding an encoded domain error yields the error back.
pub proof fn lemma_rt_err(e: crate::types::KeystoreError, pre: Seq<u8>, suf: Seq<u8>)
    ensures
        sdec_err(pre + senc_err(e) + suf, pre.len() as int) == Some(
            (e, pre.len() + senc_err(e).len() as int),
        ),
{
    let b = pre + senc_err(e) + suf;
    assert(b[pre.len() as int] == senc_err(e)[0]);
    match e {
        crate::types::KeystoreError::KeyNotSupported(k) => {
            let p2 = pre.push(1u8);
            assert(b =~= p2 + senc_ktid(k) + suf);
            lemma_rt_ktid(k, p2, suf);
        },
        _ => (),
    }
}

/// Appends a domain error.
fn enc_err(out: &mut Vec<u8>, e: crate::types::KeystoreError)
    ensures
        final(out)@ == old(out)@ + senc_err(e),
{
    match e {
        crate::types::KeystoreError::Unavailable => out.push(0),
        crate::types::KeystoreError::KeyNotSupported(k) => {
            out.push(1);
            enc_ktid(out, k);
        },
        crate::types::KeystoreError::InvalidSeed => out.push(2),
        crate::types::KeystoreError::PairNotFound => out.push(3),
    }
    proof {
        assert(out@ =~= old(out)@ + senc_err(e));
    }
}

/// Reads a domain error.
fn dec_err(buf: &Vec<u8>, pos: &mut usize) -> (r: Option<crate::types::KeystoreError>)
    requires
        *old(pos) <= buf@.len(),
    ensures
        match sdec_err(buf@, *old(pos) as int) {
            Some((v, j)) => r == Some(v) && *final(pos) == j && j <= buf@.len(),
            None => r is None,
        },
{
    let t = match dec_u8(buf, pos) {
        Some(t) => t,
        None => {
            return None;
        },
    };
    if t == 0 {
        Some(crate::types::KeystoreError::Unavailable)
    } else if t == 1 {
        match dec_ktid(buf, pos) {
            Some(k) => Some(crate::types::KeystoreError::KeyNotSupported(k)),
            None => None,
        }
    } else if t == 2 {
        Some(crate::types::KeystoreError::InvalidSeed)
    } else if t == 3 {
        Some(crate::types::KeystoreError::PairNotFound)
    } else {
        None
    }
}

/// The handle item encoder, as one shared function value.
pub open spec fn enc_handle_fn() -> spec_fn(crate::types::HandleModel) -> Seq<u8> {
    |h: crate::types::HandleModel| senc_handle(h)
}

/// The handle item decoder, as one shared function value.
pub open spec fn dec_handle_fn() -> spec_fn(Seq<u8>, int) -> Option<
    (crate::types::HandleModel, int),
> {
    |b: Seq<u8>, i: int| sdec_handle(b, i)
}

/// A length-prefixed list of handles.
pub open spec fn senc_handles(ks: Seq<crate::types::HandleModel>) -> Seq<u8> {
    senc_listed(ks, enc_handle_fn())
}

/// Reads a length-prefixed list of handles.
pub open spec fn sdec_handles(b: Seq<u8>, i: int) -> Option<
    (Seq<crate::types::HandleModel>, int),
> {
    sdec_listed(b, i, dec_handle_fn())
}

/// Every handle in the list fits the wire format, and so does the list.
pub open spec fn handles_size_ok(ks: Seq<crate::types::HandleModel>) -> bool {
    ks.len() <= u64::MAX && forall|ix: int| 0 <= ix < ks.len() ==> handle_size_ok(#[trigger] ks[ix])
}

/// Decoding an encoded handle list yields the handles back.
pub proof fn lemma_rt_handles(ks: Seq<crate::types::HandleModel>, pre: Seq<u8>, suf: Seq<u8>)
    requires
        handles_size_ok(ks),
    ensures
        sdec_handles(pre + senc_handles(ks) + suf, pre.len() as int) == Some(
            (ks, pre.len() + senc_handles(ks).len() as int),
        ),
{
    let n = ks.len() as u64;
    let f = enc_handle_fn();
    let g = dec_handle_fn();
    let b = pre + senc_handles(ks) + suf;
    assert(b =~= pre + senc_u64(n) + (senc_list(ks, f) + suf));
    lemma_rt_u64(n, pre, senc_list(ks, f) + suf);
    let p2 = pre + senc_u64(n);
    assert(b =~= p2 + senc_list(ks, f) + suf);
    assert forall|v: crate::types::HandleModel, q: Seq<u8>, s2: Seq<u8>|
        ks.contains(v) implies #[trigger] g(q + f(v) + s2, q.len() as int) == Some(
        (v, q.len() + f(v).len() as int),
    ) by {
        let ix = choose|ix: int| 0 <= ix < ks.len() && ks[ix] == v;
        assert(handle_size_ok(ks[ix]));
        lemma_rt_handle(v, q, s2);
    }
    lemma_rt_list(ks, f, g, p2, suf);
}

/// Appends a length-prefixed list of handles.
fn enc_handles(out: &mut Vec<u8>, ks: &Vec<crate::types::PublicKeyHandle>)
    ensures
        final(out)@ == old(out)@ + senc_handles(ks.deep_view()),
{
    let ghost dv = ks.deep_view();
    let ghost f = enc_handle_fn();
    enc_u64(out, ks.len() as u64);
    let ghost mid = out@;
    let n = ks.len();
    let mut k: usize = 0;
    while k < n
        invariant
            n == ks.len(),
            dv == ks.deep_view(),
            f == enc_handle_fn(),
            0 <= k <= n,
            out@ == mid + senc_list(dv.take(k as int), f),
        decreases n - k,
    {
        proof {
            assert(dv.take(k + 1 as int).drop_last() =~= dv.take(k as int));
            assert(dv.take(k + 1 as int).last() == dv[k as int]);
            assert(dv[k as int] == ks[k as int]@);
        }
        enc_handle(out, &ks[k]);
        proof {
            assert(out@ =~= mid + senc_list(dv.take(k + 1 as int), f));
        }
        k += 1;
    }
    proof {
        assert(dv.take(n as int) =~= dv);
        assert(out@ =~= old(out)@ + senc_handles(dv));
    }
}

/// Reads a length-prefixed list of handles.
fn dec_handles(buf: &Vec<u8>, pos: &mut usize) -> (r: Option<Vec<crate::types::PublicKeyHandle>>)
    requires
        *old(pos) <= buf@.len(),
    ensures
        match sdec_handles(buf@, *old(pos) as int) {
            Some((v, j)) => r is Some && r.unwrap().deep_view() == v && *final(pos) == j && j
                <= buf@.len(),
            None => r is None,
        },
{
    let ghost g = dec_handle_fn();
    let n = match dec_u64(buf, pos) {
        Some(n) => n,
        None => {
            return None;
        },
    };
    let ghost j0 = *pos as int;
    let mut out: Vec<crate::types::PublicKeyHandle> = Vec::new();
    let mut k: u64 = 0;
    proof {
        assert(out.deep_view() =~~= Seq::<crate::types::HandleModel>::empty());
    }
    while k < n
        invariant
            g == dec_handle_fn(),
            *pos <= buf@.len(),
            0 <= k <= n,
            sdec_u64(buf@, *old(pos) as int) == Some((n, j0)),
            sdec_list_n(buf@, j0, k as int, g) == Some((out.deep_view(), *pos as int)),
        decreases n - k,
    {
        let ghost pre_dv = out.deep_view();
        let ghost pre_pos = *pos as int;
        let h = match dec_handle(buf, pos) {
            Some(h) => h,
            None => {
                proof {
                    assert(g(buf@, pre_pos) == sdec_handle(buf@, pre_pos));
                    assert(g(buf@, pre_pos) is None);
                    assert(sdec_list_n(buf@, j0, k as int, g) == Some((pre_dv, pre_pos)));
                    lemma_list_fail(buf@, j0, k as int, n as int, g, pre_dv, pre_pos);
                    assert(sdec_list_n(buf@, j0, n as int, g) is None);
                    assert(sdec_u64(buf@, *old(pos) as int) == Some((n, j0)));
                    assert(sdec_handles(buf@, *old(pos) as int) is None);
                }
                return None;
            },
        };
        out.push(h);
        proof {
            assert(out.deep_view() =~~= pre_dv.push(h@));
        }
        k += 1;
    }
    Some(out)
}

/// A (public key bytes, key type) pair.
pub open spec fn senc_pair(p: (Seq<u8>, KeyTypeId)) -> Seq<u8> {
    senc_bytes(p.0) + senc_ktid(p.1)
}

/// Reads a (public key bytes, key type) pair.
pub open spec fn sdec_pair(b: Seq<u8>, i: int) -> Option<((Seq<u8>, KeyTypeId), int)> {
    match sdec_bytes(b, i) {
        None => None,
        Some((bs, j)) => match sdec_ktid(b, j) {
            None => None,
            Some((kt, m)) => Some(((bs, kt), m)),
        },
    }
}

/// The pair item encoder, as one shared function value.
pub open spec fn enc_pair_fn() -> spec_fn((Seq<u8>, KeyTypeId)) -> Seq<u8> {
    |p: (Seq<u8>, KeyTypeId)| senc_pair(p)
}

/// The pair item decoder, as one shared function value.
pub open spec fn dec_pair_fn() -> spec_fn(Seq<u8>, int) -> Option<((Seq<u8>, KeyTypeId), int)> {
    |b: Seq<u8>, i: int| sdec_pair(b, i)
}

/// A length-prefixed list of (public key bytes, key type) pairs.
pub open spec fn senc_pairs(ps: Seq<(Seq<u8>, KeyTypeId)>) -> Seq<u8> {
    senc_listed(ps, enc_pair_fn())
}

/// Reads a length-prefixed list of pairs.
pub open spec fn sdec_pairs(b: Seq<u8>, i: int) -> Option<(Seq<(Seq<u8>, KeyTypeId)>, int)> {
    sdec_listed(b, i, dec_pair_fn())
}

/// Every pair in the list fits the wire format, and so does the list.
pub open spec fn pairs_size_ok(ps: Seq<(Seq<u8>, KeyTypeId)>) -> bool {
    ps.len() <= u64::MAX && forall|ix: int|
        0 <= ix < ps.len() ==> (#[trigger] ps[ix]).0.len() <= u64::MAX
}

/// Decoding one encoded pair yields the pair back.
pub proof fn lemma_rt_pair(p: (Seq<u8>, KeyTypeId), pre: Seq<u8>, suf: Seq<u8>)
    requires
        p.0.len() <= u64::MAX,
    ensures
        sdec_pair(pre + senc_pair(p) + suf, pre.len() as int) == Some(
            (p, pre.len() + senc_pair(p).len() as int),
        ),
{
    let b = pre + senc_pair(p) + suf;
    assert(b =~= pre + senc_bytes(p.0) + (senc_ktid(p.1) + suf));
    lemma_rt_bytes(p.0, pre, senc_ktid(p.1) + suf);
    let p2 = pre + senc_bytes(p.0);
    assert(b =~= p2 + senc_ktid(p.1) + suf);
    lemma_rt_ktid(p.1, p2, suf);
}

/// Decoding an encoded pair list yields the pairs back.
pub proof fn lemma_rt_pairs(ps: Seq<(Seq<u8>, KeyTypeId)>, pre: Seq<u8>, suf: Seq<u8>)
    requires
        pairs_size_ok(ps),
    ensures
        sdec_pairs(pre + senc_pairs(ps) + suf, pre.len() as int) == Some(
            (ps, pre.len() + senc_pairs(ps).len() as int),
        ),
{
    let n = ps.len() as u64;
    let f = enc_pair_fn();
    let g = dec_pair_fn();
    let b = pre + senc_pairs(ps) + suf;
    assert(b =~= pre + senc_u64(n) + (senc_list(ps, f) + suf));
    lemma_rt_u64(n, pre, senc_list(ps, f) + suf);
    let p2 = pre + senc_u64(n);
    assert(b =~= p2 + senc_list(ps, f) + suf);
    assert forall|v: (Seq<u8>, KeyTypeId), q: Seq<u8>, s2: Seq<u8>|
        ps.contains(v) implies #[trigger] g(q + f(v) + s2, q.len() as int) == Some(
        (v, q.len() + f(v).len() as int),
    ) by {
        let ix = choose|ix: int| 0 <= ix < ps.len() && ps[ix] == v;
        assert(ps[ix].0.len() <= u64::MAX);
        lemma_rt_pair(v, q, s2);
    }
    lemma_rt_list(ps, f, g, p2, suf);
}

/// Appends a length-prefixed list of pairs.
fn enc_pairs(out: &mut Vec<u8>, ps: &Vec<(Vec<u8>, KeyTypeId)>)
    ensures
        final(out)@ == old(out)@ + senc_pairs(crate::protocol::pairs_model(ps@)),
{
    let ghost dv = crate::protocol::pairs_model(ps@);
    let ghost f = enc_pair_fn();
    enc_u64(out, ps.len() as u64);
    let ghost mid = out@;
    let n = ps.len();
    let mut k: usize = 0;
    while k < n
        invariant
            n == ps.len(),
            dv == crate::protocol::pairs_model(ps@),
            f == enc_pair_fn(),
            0 <= k <= n,
            out@ == mid + senc_list(dv.take(k as int), f),
        decreases n - k,
    {
        proof {
            assert(dv.take(k + 1 as int).drop_last() =~= dv.take(k as int));
            assert(dv.take(k + 1 as int).last() == dv[k as int]);
            assert(dv[k as int] == (ps@[k as int].0@, ps@[k as int].1));
        }
        let p = &ps[k];
        enc_bytes(out, &p.0);
        enc_ktid(out, p.1);
        proof {
            assert(out@ =~= mid + senc_list(dv.take(k + 1 as int), f));
        }
        k += 1;
    }
    proof {
        assert(dv.take(n as int) =~= dv);
        assert(out@ =~= old(out)@ + senc_pairs(dv));
    }
}

/// Reads a length-prefixed list of pairs.
fn dec_pairs(buf: &Vec<u8>, pos: &mut usize) -> (r: Option<Vec<(Vec<u8>, KeyTypeId)>>)
    requires
        *old(pos) <= buf@.len(),
    ensures
        match sdec_pairs(buf@, *old(pos) as int) {
            Some((v, j)) => r is Some && crate::protocol::pairs_model(r.unwrap()@) == v
                && *final(pos) == j && j <= buf@.len(),
            None => r is None,
        },
{
    let ghost g = dec_pair_fn();
    let n = match dec_u64(buf, pos) {
        Some(n) => n,
        None => {
            return None;
        },
    };
    let ghost j0 = *pos as int;
    let mut out: Vec<(Vec<u8>, KeyTypeId)> = Vec::new();
    let mut k: u64 = 0;
    proof {
        assert(crate::protocol::pairs_model(out@) =~~= Seq::<(Seq<u8>, KeyTypeId)>::empty());
    }
    while k < n
        invariant
            g == dec_pair_fn(),
            *pos <= buf@.len(),
            0 <= k <= n,
            sdec_u64(buf@, *old(pos) as int) == Some((n, j0)),
            sdec_list_n(buf@, j0, k as int, g) == Some(
                (crate::protocol::pairs_model(out@), *pos as int),
            ),
        decreases n - k,
    {
        let ghost pre_dv = crate::protocol::pairs_model(out@);
        let ghost pre_pos = *pos as int;
        let ghost item = sdec_pair(buf@, pre_pos);
        let bs = match dec_bytes(buf, pos) {
            Some(bs) => bs,
            None => {
                proof {
                    assert(g(buf@, pre_pos) == sdec_pair(buf@, pre_pos));
                    lemma_list_fail(buf@, j0, k as int, n as int, g, pre_dv, pre_pos);
                    assert(sdec_pairs(buf@, *old(pos) as int) is None);
                }
                return None;
            },
        };
        let kt = match dec_ktid(buf, pos) {
            Some(kt) => kt,
            None => {
                proof {
                    assert(g(buf@, pre_pos) == sdec_pair(buf@, pre_pos));
                    lemma_list_fail(buf@, j0, k as int, n as int, g, pre_dv, pre_pos);
                    assert(sdec_pairs(buf@, *old(pos) as int) is None);
                }
                return None;
            },
        };
        out.push((bs, kt));
        proof {
            assert(crate::protocol::pairs_model(out@) =~~= pre_dv.push((bs@, kt)));
        }
        k += 1;
    }
    Some(out)
}

/// A VRF transcript value: a tagged byte string or 64-bit integer.
pub open spec fn senc_vrf_value(v: crate::types::VrfTranscriptValueModel) -> Seq<u8> {
    match v {
        crate::types::VrfTranscriptValueModel::Bytes(bs) => seq![0u8] + senc_bytes(bs),
        crate::types::VrfTranscriptValueModel::U64(x) => seq![1u8] + senc_u64(x),
    }
}

/// Reads a VRF transcript value.
pub open spec fn sdec_vrf_value(b: Seq<u8>, i: int) -> Option<
    (crate::types::VrfTranscriptValueModel, int),
> {
    match sdec_u8(b, i) {
        None => None,
        Some((t, j)) => if t == 0 {
            match sdec_bytes(b, j) {
                None => None,
                Some((bs, k)) => Some((crate::types::VrfTranscriptValueModel::Bytes(bs), k)),
            }
        } else if t == 1 {
            match sdec_u64(b, j) {
                None => None,
                Some((x, k)) => Some((crate::types::VrfTranscriptValueModel::U64(x), k)),
            }
        } else {
            None
        },
    }
}

/// The value's byte string fits the wire format.
pub open spec fn vrf_value_size_ok(v: crate::types::VrfTranscriptValueModel) -> bool {
    match v {
        crate::types::VrfTranscriptValueModel::Bytes(bs) => bs.len() <= u64::MAX,
        crate::types::VrfTranscriptValueModel::U64(_) => true,
    }
}

/// Decoding an encoded VRF transcript value yields the value back.
pub proof fn lemma_rt_vrf_value(
    v: crate::types::VrfTranscriptValueModel,
    pre: Seq<u8>,
    suf: Seq<u8>,
)
    requires
        vrf_value_size_ok(v),
    ensures
        sdec_vrf_value(pre + senc_vrf_value(v) + suf, pre.len() as int) == Some(
            (v, pre.len() + senc_vrf_value(v).len() as int),
        ),
{
    let b = pre + senc_vrf_value(v) + suf;
    assert(b[pre.len() as int] == senc_vrf_value(v)[0]);
    match v {
        crate::types::VrfTranscriptValueModel::Bytes(bs) => {
            let p2 = pre.push(0u8);
            assert(b =~= p2 + senc_bytes(bs) + suf);
            lemma_rt_bytes(bs, p2, suf);
        },
        crate::types::VrfTranscriptValueModel::U64(x) => {
            let p2 = pre.push(1u8);
            assert(b =~= p2 + senc_u64(x) + suf);
            lemma_rt_u64(x, p2, suf);
        },
    }
}

/// Appends a VRF transcript value.
fn enc_vrf_value(out: &mut Vec<u8>, v: &crate::types::VrfTranscriptValue)
    ensures
        final(out)@ == old(out)@ + senc_vrf_value(v@),
{
    match v {
        crate::types::VrfTranscriptValue::Bytes(bs) => {
            out.push(0);
            enc_bytes(out, bs);
        },
        crate::types::VrfTranscriptValue::U64(x) => {
            out.push(1);
            enc_u64(out, *x);
        },
    }
    proof {
        assert(out@ =~= old(out)@ + senc_vrf_value(v@));
    }
}

/// Reads a VRF transcript value.
fn dec_vrf_value(buf: &Vec<u8>, pos: &mut usize) -> (r: Option<crate::types::VrfTranscriptValue>)
    requires
        *old(pos) <= buf@.len(),
    ensures
        match sdec_vrf_value(buf@, *old(pos) as int) {
            Some((v, j)) => r is Some && r.unwrap()@ == v && *final(pos) == j && j <= buf@.len(),
            None => r is None,
        },
{
    let t = match dec_u8(buf, pos) {
        Some(t) => t,
        None => {
            return None;
        },
    };
    if t == 0 {
        match dec_bytes(buf, pos) {
            Some(bs) => Some(crate::types::VrfTranscriptValue::Bytes(bs)),
            None => None,
        }
    } else if t == 1 {
        match dec_u64(buf, pos) {
            Some(x) => Some(crate::types::VrfTranscriptValue::U64(x)),
            None => None,
        }
    } else {
        None
    }
}

/// A VRF transcript item: its name, then its value.
pub open spec fn senc_vrf_item(it: (Seq<char>, crate::types::VrfTranscriptValueModel)) -> Seq<u8> {
    senc_string(it.0) + senc_vrf_value(it.1)
}

/// Reads a VRF transcript item.
pub open spec fn sdec_vrf_item(b: Seq<u8>, i: int) -> Option<
    ((Seq<char>, crate::types::VrfTranscriptValueModel), int),
> {
    match sdec_string(b, i) {
        None => None,
        Some((s, j)) => match sdec_vrf_value(b, j) {
            None => None,
            Some((v, k)) => Some(((s, v), k)),
        },
    }
}

/// The item's name and value fit the wire format.
pub open spec fn vrf_item_size_ok(it: (Seq<char>, crate::types::VrfTranscriptValueModel)) -> bool {
    encode_utf8(it.0).len() <= u64::MAX && vrf_value_size_ok(it.1)
}

/// Decoding an encoded VRF transcript item yields the item back.
pub proof fn lemma_rt_vrf_item(
    it: (Seq<char>, crate::types::VrfTranscriptValueModel),
    pre: Seq<u8>,
    suf: Seq<u8>,
)
    requires
        vrf_item_size_ok(it),
    ensures
        sdec_vrf_item(pre + senc_vrf_item(it) + suf, pre.len() as int) == Some(
            (it, pre.len() + senc_vrf_item(it).len() as int),
        ),
{
    let b = pre + senc_vrf_item(it) + suf;
    assert(b =~= pre + senc_string(it.0) + (senc_vrf_value(it.1) + suf));
    lemma_rt_string(it.0, pre, senc_vrf_value(it.1) + suf);
    let p2 = pre + senc_string(it.0);
    assert(b =~= p2 + senc_vrf_value(it.1) + suf);
    lemma_rt_vrf_value(it.1, p2, suf);
}

/// The VRF item encoder, as one shared function value.
pub open spec fn enc_vrf_item_fn() -> spec_fn(
    (Seq<char>, crate::types::VrfTranscriptValueModel),
) -> Seq<u8> {
    |it: (Seq<char>, crate::types::VrfTranscriptValueModel)| senc_vrf_item(it)
}

/// The VRF item decoder, as one shared function value.
pub open spec fn dec_vrf_item_fn() -> spec_fn(Seq<u8>, int) -> Option<
    ((Seq<char>, crate::types::VrfTranscriptValueModel), int),
> {
    |b: Seq<u8>, i: int| sdec_vrf_item(b, i)
}

/// The VRF transcript parameters: the label, then the items.
pub open spec fn senc_vrf_data(d: crate::types::VrfTranscriptDataModel) -> Seq<u8> {
    senc_bytes(d.label) + senc_listed(d.items, enc_vrf_item_fn())
}

/// Reads the VRF transcript parameters.
pub open spec fn sdec_vrf_data(b: Seq<u8>, i: int) -> Option<
    (crate::types::VrfTranscriptDataModel, int),
> {
    match sdec_bytes(b, i) {
        None => None,
        Some((label, j)) => match sdec_listed(b, j, dec_vrf_item_fn()) {
            None => None,
            Some((items, k)) => Some(
                (crate::types::VrfTranscriptDataModel { label, items }, k),
            ),
        },
    }
}

/// The transcript's label and items fit the wire format.
pub open spec fn vrf_data_size_ok(d: crate::types::VrfTranscriptDataModel) -> bool {
    d.label.len() <= u64::MAX && d.items.len() <= u64::MAX && forall|ix: int|
        0 <= ix < d.items.len() ==> vrf_item_size_ok(#[trigger] d.items[ix])
}

/// Decoding encoded VRF transcript parameters yields them back.
#[verifier::rlimit(50)]
pub proof fn lemma_rt_vrf_data(
    d: crate::types::VrfTranscriptDataModel,
    pre: Seq<u8>,
    suf: Seq<u8>,
)
    requires
        vrf_data_size_ok(d),
    ensures
        sdec_vrf_data(pre + senc_vrf_data(d) + suf, pre.len() as int) == Some(
            (d, pre.len() + senc_vrf_data(d).len() as int),
        ),
{
    let f = enc_vrf_item_fn();
    let g = dec_vrf_item_fn();
    let b = pre + senc_vrf_data(d) + suf;
    let items_enc = senc_listed(d.items, f);
    assert(b =~= pre + senc_bytes(d.label) + (items_enc + suf));
    lemma_rt_bytes(d.label, pre, items_enc + suf);
    let p2 = pre + senc_bytes(d.label);
    let n = d.items.len() as u64;
    assert(b =~= p2 + senc_u64(n) + (senc_list(d.items, f) + suf));
    lemma_rt_u64(n, p2, senc_list(d.items, f) + suf);
    let p3 = p2 + senc_u64(n);
    assert(b =~= p3 + senc_list(d.items, f) + suf);
    assert forall|v: (Seq<char>, crate::types::VrfTranscriptValueModel), q: Seq<u8>, s2: Seq<u8>|
        d.items.contains(v) implies #[trigger] g(q + f(v) + s2, q.len() as int) == Some(
        (v, q.len() + f(v).len() as int),
    ) by {
        let ix = choose|ix: int| 0 <= ix < d.items.len() && d.items[ix] == v;
        assert(vrf_item_size_ok(d.items[ix]));
        lemma_rt_vrf_item(v, q, s2);
    }
    lemma_rt_list(d.items, f, g, p3, suf);
    assert(b =~= p2 + items_enc + suf);
}

/// Appends the VRF transcript parameters.
fn enc_vrf_data(out: &mut Vec<u8>, d: &crate::types::VrfTranscriptData)
    ensures
        final(out)@ == old(out)@ + senc_vrf_data(d@),
{
    let ghost dv = crate::types::vrf_items_model(d.items@);
    let ghost f = enc_vrf_item_fn();
    enc_bytes(out, &d.label);
    enc_u64(out, d.items.len() as u64);
    let ghost mid = out@;
    let n = d.items.len();
    let mut k: usize = 0;
    while k < n
        invariant
            n == d.items.len(),
            dv == crate::types::vrf_items_model(d.items@),
            f == enc_vrf_item_fn(),
            0 <= k <= n,
            out@ == mid + senc_list(dv.take(k as int), f),
        decreases n - k,
    {
        proof {
            assert(dv.take(k + 1 as int).drop_last() =~= dv.take(k as int));
            assert(dv.take(k + 1 as int).last() == dv[k as int]);
            assert(dv[k as int] == (d.items@[k as int].0@, d.items@[k as int].1@));
        }
        let it = &d.items[k];
        enc_string(out, it.0.as_str());
        enc_vrf_value(out, &it.1);
        proof {
            assert(out@ =~= mid + senc_list(dv.take(k + 1 as int), f));
        }
        k += 1;
    }
    proof {
        assert(dv.take(n as int) =~= dv);
        assert(out@ =~= old(out)@ + senc_vrf_data(d@));
    }
}

/// Reads the VRF transcript parameters.
fn dec_vrf_data(buf: &Vec<u8>, pos: &mut usize) -> (r: Option<crate::types::VrfTranscriptData>)
    requires
        *old(pos) <= buf@.len(),
    ensures
        match sdec_vrf_data(buf@, *old(pos) as int) {
            Some((v, j)) => r is Some && r.unwrap()@ == v && *final(pos) == j && j <= buf@.len(),
            None => r is None,
        },
{
    let ghost g = dec_vrf_item_fn();
    let label = match dec_bytes(buf, pos) {
        Some(label) => label,
        None => {
            return None;
        },
    };
    let ghost jl = *pos as int;
    let n = match dec_u64(buf, pos) {
        Some(n) => n,
        None => {
            return None;
        },
    };
    let ghost j0 = *pos as int;
    let mut items: Vec<(String, crate::types::VrfTranscriptValue)> = Vec::new();
    let mut k: u64 = 0;
    proof {
        assert(crate::types::vrf_items_model(items@) =~~= Seq::<
            (Seq<char>, crate::types::VrfTranscriptValueModel),
        >::empty());
    }
    while k < n
        invariant
            g == dec_vrf_item_fn(),
            *pos <= buf@.len(),
            0 <= k <= n,
            sdec_bytes(buf@, *old(pos) as int) == Some((label@, jl)),
            sdec_u64(buf@, jl) == Some((n, j0)),
            sdec_list_n(buf@, j0, k as int, g) == Some(
                (crate::types::vrf_items_model(items@), *pos as int),
            ),
        decreases n - k,
    {
        let ghost pre_dv = crate::types::vrf_items_model(items@);
        let ghost pre_pos = *pos as int;
        let name = match dec_string(buf, pos) {
            Some(name) => name,
            None => {
                proof {
                    assert(g(buf@, pre_pos) == sdec_vrf_item(buf@, pre_pos));
                    lemma_list_fail(buf@, j0, k as int, n as int, g, pre_dv, pre_pos);
                }
                return None;
            },
        };
        let value = match dec_vrf_value(buf, pos) {
            Some(value) => value,
            None => {
                proof {
                    assert(g(buf@, pre_pos) == sdec_vrf_item(buf@, pre_pos));
                    lemma_list_fail(buf@, j0, k as int, n as int, g, pre_dv, pre_pos);
                }
                return None;
            },
        };
        items.push((name, value));
        proof {
            assert(crate::types::vrf_items_model(items@) =~~= pre_dv.push((name@, value@)));
        }
        k += 1;
    }
    Some(crate::types::VrfTranscriptData { label, items })
}

/// A VRF signature: the output bytes, then the proof bytes.
pub open spec fn senc_vrf_sig(s: crate::types::VrfSignatureModel) -> Seq<u8> {
    senc_bytes(s.output) + senc_bytes(s.proof)
}

/// Reads a VRF signature.
pub open spec fn sdec_vrf_sig(b: Seq<u8>, i: int) -> Option<
    (crate::types::VrfSignatureModel, int),
> {
    match sdec_bytes(b, i) {
        None => None,
        Some((o, j)) => match sdec_bytes(b, j) {
            None => None,
            Some((p, k)) => Some((crate::types::VrfSignatureModel { output: o, proof: p }, k)),
        },
    }
}

/// The signature's parts fit the wire format.
pub open spec fn vrf_sig_size_ok(s: crate::types::VrfSignatureModel) -> bool {
    s.output.len() <= u64::MAX && s.proof.len() <= u64::MAX
}

/// Decoding an encoded VRF signature yields the signature back.
#[verifier::rlimit(50)]
pub proof fn lemma_rt_vrf_sig(s: crate::types::VrfSignatureModel, pre: Seq<u8>, suf: Seq<u8>)
    requires
        vrf_sig_size_ok(s),
    ensures
        sdec_vrf_sig(pre + senc_vrf_sig(s) + suf, pre.len() as int) == Some(
            (s, pre.len() + senc_vrf_sig(s).len() as int),
        ),
{
    let b = pre + senc_vrf_sig(s) + suf;
    assert(b =~= pre + senc_bytes(s.output) + (senc_bytes(s.proof) + suf));
    lemma_rt_bytes(s.output, pre, senc_bytes(s.proof) + suf);
    let p2 = pre + senc_bytes(s.output);
    assert(b =~= p2 + senc_bytes(s.proof) + suf);
    lemma_rt_bytes(s.proof, p2, suf);
}

/// Appends a VRF signature.
fn enc_vrf_sig(out: &mut Vec<u8>, s: &crate::types::VrfSignature)
    ensures
        final(out)@ == old(out)@ + senc_vrf_sig(s@),
{
    enc_bytes(out, &s.output);
    enc_bytes(out, &s.proof);
    proof {
        assert(out@ =~= old(out)@ + senc_vrf_sig(s@));
    }
}

/// Reads a VRF signature.
fn dec_vrf_sig(buf: &Vec<u8>, pos: &mut usize) -> (r: Option<crate::types::VrfSignature>)
    requires
        *old(pos) <= buf@.len(),
    ensures
        match sdec_vrf_sig(buf@, *old(pos) as int) {
            Some((v, j)) => r is Some && r.unwrap()@ == v && *final(pos) == j && j <= buf@.len(),
            None => r is None,
        },
{
    let o = match dec_bytes(buf, pos) {
        Some(o) => o,
        None => {
            return None;
        },
    };
    let p = match dec_bytes(buf, pos) {
        Some(p) => p,
        None => {
            return None;
        },
    };
    Some(crate::types::VrfSignature { output: o, proof: p })
}

/// One per-candidate signing result: a signature or a domain error.
pub open spec fn senc_sig_result(r: Result<Seq<u8>, crate::types::KeystoreError>) -> Seq<u8> {
    match r {
        Ok(bs) => seq![0u8] + senc_bytes(bs),
        Err(e) => seq![1u8] + senc_err(e),
    }
}

/// Reads one per-candidate signing result.
pub open spec fn sdec_sig_result(b: Seq<u8>, i: int) -> Option<
    (Result<Seq<u8>, crate::types::KeystoreError>, int),
> {
    match sdec_u8(b, i) {
        None => None,
        Some((t, j)) => if t == 0 {
            match sdec_bytes(b, j) {
                None => None,
                Some((bs, k)) => Some((Ok(bs), k)),
            }
        } else if t == 1 {
            match sdec_err(b, j) {
                None => None,
                Some((e, k)) => Some((Err(e), k)),
            }
        } else {
            None
        },
    }
}

/// The result's signature bytes fit the wire format.
pub open spec fn sig_result_size_ok(r: Result<Seq<u8>, crate::types::KeystoreError>) -> bool {
    match r {
        Ok(bs) => bs.len() <= u64::MAX,
        Err(_) => true,
    }
}

/// Decoding an encoded signing result yields the result back.
pub proof fn lemma_rt_sig_result(
    r: Result<Seq<u8>, crate::types::KeystoreError>,
    pre: Seq<u8>,
    suf: Seq<u8>,
)
    requires
        sig_result_size_ok(r),
    ensures
        sdec_sig_result(pre + senc_sig_result(r) + suf, pre.len() as int) == Some(
            (r, pre.len() + senc_sig_result(r).len() as int),
        ),
{
    let b = pre + senc_sig_result(r) + suf;
    assert(b[pre.len() as int] == senc_sig_result(r)[0]);
    match r {
        Ok(bs) => {
            let p2 = pre.push(0u8);
            assert(b =~= p2 + senc_bytes(bs) + suf);
            lemma_rt_bytes(bs, p2, suf);
        },
        Err(e) => {
            let p2 = pre.push(1u8);
            assert(b =~= p2 + senc_err(e) + suf);
            lemma_rt_err(e, p2, suf);
        },
    }
}

/// The signing-result item encoder, as one shared function value.
pub open spec fn enc_sig_result_fn() -> spec_fn(
    Result<Seq<u8>, crate::types::KeystoreError>,
) -> Seq<u8> {
    |r: Result<Seq<u8>, crate::types::KeystoreError>| senc_sig_result(r)
}

/// The signing-result item decoder, as one shared function value.
pub open spec fn dec_sig_result_fn() -> spec_fn(Seq<u8>, int) -> Option<
    (Result<Seq<u8>, crate::types::KeystoreError>, int),
> {
    |b: Seq<u8>, i: int| sdec_sig_result(b, i)
}

/// A length-prefixed list of per-candidate signing results.
pub open spec fn senc_sig_results(rs: Seq<Result<Seq<u8>, crate::types::KeystoreError>>) -> Seq<
    u8,
> {
    senc_listed(rs, enc_sig_result_fn())
}

/// Reads a length-prefixed list of signing results.
pub open spec fn sdec_sig_results(b: Seq<u8>, i: int) -> Option<
    (Seq<Result<Seq<u8>, crate::types::KeystoreError>>, int),
> {
    sdec_listed(b, i, dec_sig_result_fn())
}

/// Every result in the list fits the wire format, and so does the list.
pub open spec fn sig_results_size_ok(
    rs: Seq<Result<Seq<u8>, crate::types::KeystoreError>>,
) -> bool {
    rs.len() <= u64::MAX && forall|ix: int|
        0 <= ix < rs.len() ==> sig_result_size_ok(#[trigger] rs[ix])
}

/// Decoding an encoded signing-result list yields the results back.
pub proof fn lemma_rt_sig_results(
    rs: Seq<Result<Seq<u8>, crate::types::KeystoreError>>,
    pre: Seq<u8>,
    suf: Seq<u8>,
)
    requires
        sig_results_size_ok(rs),
    ensures
        sdec_sig_results(pre + senc_sig_results(rs) + suf, pre.len() as int) == Some(
            (rs, pre.len() + senc_sig_results(rs).len() as int),
        ),
{
    let n = rs.len() as u64;
    let f = enc_sig_result_fn();
    let g = dec_sig_result_fn();
    let b = pre + senc_sig_results(rs) + suf;
    assert(b =~= pre + senc_u64(n) + (senc_list(rs, f) + suf));
    lemma_rt_u64(n, pre, senc_list(rs, f) + suf);
    let p2 = pre + senc_u64(n);
    assert(b =~= p2 + senc_list(rs, f) + suf);
    assert forall|v: Result<Seq<u8>, crate::types::KeystoreError>, q: Seq<u8>, s2: Seq<u8>|
        rs.contains(v) implies #[trigger] g(q + f(v) + s2, q.len() as int) == Some(
        (v, q.len() + f(v).len() as int),
    ) by {
        let ix = choose|ix: int| 0 <= ix < rs.len() && rs[ix] == v;
        assert(sig_result_size_ok(rs[ix]));
        lemma_rt_sig_result(v, q, s2);
    }
    lemma_rt_list(rs, f, g, p2, suf);
}

/// Appends a length-prefixed list of signing results.
fn enc_sig_results(out: &mut Vec<u8>, rs: &Vec<Result<Vec<u8>, crate::types::KeystoreError>>)
    ensures
        final(out)@ == old(out)@ + senc_sig_results(crate::protocol::results_model(rs@)),
{
    let ghost dv = crate::protocol::results_model(rs@);
    let ghost f = enc_sig_result_fn();
    enc_u64(out, rs.len() as u64);
    let ghost mid = out@;
    let n = rs.len();
    let mut k: usize = 0;
    while k < n
        invariant
            n == rs.len(),
            dv == crate::protocol::results_model(rs@),
            f == enc_sig_result_fn(),
            0 <= k <= n,
            out@ == mid + senc_list(dv.take(k as int), f),
        decreases n - k,
    {
        proof {
            assert(dv.take(k + 1 as int).drop_last() =~= dv.take(k as int));
            assert(dv.take(k + 1 as int).last() == dv[k as int]);
        }
        match &rs[k] {
            Ok(bs) => {
                out.push(0);
                enc_bytes(out, bs);
            },
            Err(e) => {
                out.push(1);
                enc_err(out, *e);
            },
        }
        proof {
            assert(out@ =~= mid + senc_list(dv.take(k + 1 as int), f));
        }
        k += 1;
    }
    proof {
        assert(dv.take(n as int) =~= dv);
        assert(out@ =~= old(out)@ + senc_sig_results(dv));
    }
}

/// Reads a length-prefixed list of signing results.
fn dec_sig_results(buf: &Vec<u8>, pos: &mut usize) -> (r: Option<
    Vec<Result<Vec<u8>, crate::types::KeystoreError>>,
>)
    requires
        *old(pos) <= buf@.len(),
    ensures
        match sdec_sig_results(buf@, *old(pos) as int) {
            Some((v, j)) => r is Some && crate::protocol::results_model(r.unwrap()@) == v
                && *final(pos) == j && j <= buf@.len(),
            None => r is None,
        },
{
    let ghost g = dec_sig_result_fn();
    let n = match dec_u64(buf, pos) {
        Some(n) => n,
        None => {
            return None;
        },
    };
    let ghost j0 = *pos as int;
    let mut out: Vec<Result<Vec<u8>, crate::types::KeystoreError>> = Vec::new();
    let mut k: u64 = 0;
    proof {
        assert(crate::protocol::results_model(out@) =~~= Seq::<
            Result<Seq<u8>, crate::types::KeystoreError>,
        >::empty());
    }
    while k < n
        invariant
            g == dec_sig_result_fn(),
            *pos <= buf@.len(),
            0 <= k <= n,
            sdec_u64(buf@, *old(pos) as int) == Some((n, j0)),
            sdec_list_n(buf@, j0, k as int, g) == Some(
                (crate::protocol::results_model(out@), *pos as int),
            ),
        decreases n - k,
    {
        let ghost pre_dv = crate::protocol::results_model(out@);
        let ghost pre_pos = *pos as int;
        let t = match dec_u8(buf, pos) {
            Some(t) => t,
            None => {
                proof {
                    assert(g(buf@, pre_pos) == sdec_sig_result(buf@, pre_pos));
                    lemma_list_fail(buf@, j0, k as int, n as int, g, pre_dv, pre_pos);
                }
                return None;
            },
        };
        let item: Result<Vec<u8>, crate::types::KeystoreError> = if t == 0 {
            match dec_bytes(buf, pos) {
                Some(bs) => Ok(bs),
                None => {
                    proof {
                        assert(g(buf@, pre_pos) == sdec_sig_result(buf@, pre_pos));
                        lemma_list_fail(buf@, j0, k as int, n as int, g, pre_dv, pre_pos);
                    }
                    return None;
                },
            }
        } else if t == 1 {
            match dec_err(buf, pos) {
                Some(e) => Err(e),
                None => {
                    proof {
                        assert(g(buf@, pre_pos) == sdec_sig_result(buf@, pre_pos));
                        lemma_list_fail(buf@, j0, k as int, n as int, g, pre_dv, pre_pos);
                    }
                    return None;
                },
            }
        } else {
            proof {
                assert(g(buf@, pre_pos) == sdec_sig_result(buf@, pre_pos));
                lemma_list_fail(buf@, j0, k as int, n as int, g, pre_dv, pre_pos);
            }
            return None;
        };
        out.push(item);
        proof {
            assert(crate::protocol::results_model(out@) =~~= pre_dv.push(
                match item {
                    Ok(s) => Ok(s@),
                    Err(e) => Err(e),
                },
            ));
        }
        k += 1;
    }
    Some(out)
}

/// The byte-string item encoder, as one shared function value.
pub open spec fn enc_bytes_fn() -> spec_fn(Seq<u8>) -> Seq<u8> {
    |bs: Seq<u8>| senc_bytes(bs)
}

/// The byte-string item decoder, as one shared function value.
pub open spec fn dec_bytes_fn() -> spec_fn(Seq<u8>, int) -> Option<(Seq<u8>, int)> {
    |b: Seq<u8>, i: int| sdec_bytes(b, i)
}

/// A length-prefixed list of byte strings.
pub open spec fn senc_bytes_list(vs: Seq<Seq<u8>>) -> Seq<u8> {
    senc_listed(vs, enc_bytes_fn())
}

/// Reads a length-prefixed list of byte strings.
pub open spec fn sdec_bytes_list(b: Seq<u8>, i: int) -> Option<(Seq<Seq<u8>>, int)> {
    sdec_listed(b, i, dec_bytes_fn())
}

/// Every byte string in the list fits the wire format, and so does the
/// list.
pub open spec fn bytes_list_size_ok(vs: Seq<Seq<u8>>) -> bool {
    vs.len() <= u64::MAX && forall|ix: int| 0 <= ix < vs.len() ==> (#[trigger] vs[ix]).len() <= u64::MAX
}

/// Decoding an encoded byte-string list yields the strings back.
pub proof fn lemma_rt_bytes_list(vs: Seq<Seq<u8>>, pre: Seq<u8>, suf: Seq<u8>)
    requires
        bytes_list_size_ok(vs),
    ensures
        sdec_bytes_list(pre + senc_bytes_list(vs) + suf, pre.len() as int) == Some(
            (vs, pre.len() + senc_bytes_list(vs).len() as int),
        ),
{
    let n = vs.len() as u64;
    let f = enc_bytes_fn();
    let g = dec_bytes_fn();
    let b = pre + senc_bytes_list(vs) + suf;
    assert(b =~= pre + senc_u64(n) + (senc_list(vs, f) + suf));
    lemma_rt_u64(n, pre, senc_list(vs, f) + suf);
    let p2 = pre + senc_u64(n);
    assert(b =~= p2 + senc_list(vs, f) + suf);
    assert forall|v: Seq<u8>, q: Seq<u8>, s2: Seq<u8>|
        vs.contains(v) implies #[trigger] g(q + f(v) + s2, q.len() as int) == Some(
        (v, q.len() + f(v).len() as int),
    ) by {
        let ix = choose|ix: int| 0 <= ix < vs.len() && vs[ix] == v;
        assert(vs[ix].len() <= u64::MAX);
        lemma_rt_bytes(v, q, s2);
    }
    lemma_rt_list(vs, f, g, p2, suf);
}

/// Appends a length-prefixed list of byte strings.
fn enc_bytes_list(out: &mut Vec<u8>, vs: &Vec<Vec<u8>>)
    ensures
        final(out)@ == old(out)@ + senc_bytes_list(vs.deep_view()),
{
    let ghost dv = vs.deep_view();
    let ghost f = enc_bytes_fn();
    enc_u64(out, vs.len() as u64);
    let ghost mid = out@;
    let n = vs.len();
    let mut k: usize = 0;
    while k < n
        invariant
            n == vs.len(),
            dv == vs.deep_view(),
            f == enc_bytes_fn(),
            0 <= k <= n,
            out@ == mid + senc_list(dv.take(k as int), f),
        decreases n - k,
    {
        proof {
            assert(dv.take(k + 1 as int).drop_last() =~= dv.take(k as int));
            assert(dv.take(k + 1 as int).last() == dv[k as int]);
            assert(dv[k as int] == vs[k as int]@);
        }
        enc_bytes(out, &vs[k]);
        proof {
            assert(out@ =~= mid + senc_list(dv.take(k + 1 as int), f));
        }
        k += 1;
    }
    proof {
        assert(dv.take(n as int) =~= dv);
        assert(out@ =~= old(out)@ + senc_bytes_list(dv));
    }
}

/// Reads a length-prefixed list of byte strings.
fn dec_bytes_list(buf: &Vec<u8>, pos: &mut usize) -> (r: Option<Vec<Vec<u8>>>)
    requires
        *old(pos) <= buf@.len(),
    ensures
        match sdec_bytes_list(buf@, *old(pos) as int) {
            Some((v, j)) => r is Some && r.unwrap().deep_view() == v && *final(pos) == j && j
                <= buf@.len(),
            None => r is None,
        },
{
    let ghost g = dec_bytes_fn();
    let n = match dec_u64(buf, pos) {
        Some(n) => n,
        None => {
            return None;
        },
    };
    let ghost j0 = *pos as int;
    let mut out: Vec<Vec<u8>> = Vec::new();
    let mut k: u64 = 0;
    proof {
        assert(out.deep_view() =~~= Seq::<Seq<u8>>::empty());
    }
    while k < n
        invariant
            g == dec_bytes_fn(),
            *pos <= buf@.len(),
            0 <= k <= n,
            sdec_u64(buf@, *old(pos) as int) == Some((n, j0)),
            sdec_list_n(buf@, j0, k as int, g) == Some((out.deep_view(), *pos as int)),
        decreases n - k,
    {
        let ghost pre_dv = out.deep_view();
        let ghost pre_pos = *pos as int;
        let bs = match dec_bytes(buf, pos) {
            Some(bs) => bs,
            None => {
                proof {
                    assert(g(buf@, pre_pos) == sdec_bytes(buf@, pre_pos));
                    lemma_list_fail(buf@, j0, k as int, n as int, g, pre_dv, pre_pos);
                }
                return None;
            },
        };
        out.push(bs);
        proof {
            assert(out.deep_view() =~~= pre_dv.push(out@.last()@));
        }
        k += 1;
    }
    Some(out)
}

/// The wire form of a request: a tag byte, then the operation's
/// parameters.
pub open spec fn senc_request(m: RequestModel) -> Seq<u8> {
    match m {
        RequestModel::Sr25519PublicKeys(id) => seq![0u8] + senc_ktid(id),
        RequestModel::Sr25519GenerateNew { id, seed } => seq![1u8] + senc_ktid(id)
            + senc_opt_string(seed),
        RequestModel::Ed25519PublicKeys(id) => seq![2u8] + senc_ktid(id),
        RequestModel::Ed25519GenerateNew { id, seed } => seq![3u8] + senc_ktid(id)
            + senc_opt_string(seed),
        RequestModel::EcdsaPublicKeys(id) => seq![4u8] + senc_ktid(id),
        RequestModel::EcdsaGenerateNew { id, seed } => seq![5u8] + senc_ktid(id)
            + senc_opt_string(seed),
        RequestModel::InsertUnknown { id, suri, public } => seq![6u8] + senc_ktid(id)
            + senc_string(suri) + senc_bytes(public),
        RequestModel::SupportedKeys { id, keys } => seq![7u8] + senc_ktid(id) + senc_handles(keys),
        RequestModel::Keys(id) => seq![8u8] + senc_ktid(id),
        RequestModel::HasKeys(pairs) => seq![9u8] + senc_pairs(pairs),
        RequestModel::SignWith { id, key, msg } => seq![10u8] + senc_ktid(id) + senc_handle(key)
            + senc_bytes(msg),
        RequestModel::SignWithAny { id, keys, msg } => seq![11u8] + senc_ktid(id) + senc_handles(
            keys,
        ) + senc_bytes(msg),
        RequestModel::SignWithAll { id, keys, msg } => seq![12u8] + senc_ktid(id) + senc_handles(
            keys,
        ) + senc_bytes(msg),
        RequestModel::Sr25519VrfSign { key_type, public, transcript_data } => seq![13u8]
            + senc_ktid(key_type) + senc_bytes(public) + senc_vrf_data(transcript_data),
    }
}

/// Reads a whole request: the tag chooses the shape; unknown tags, short
/// payloads and trailing bytes are rejected.
pub open spec fn sdec_request(b: Seq<u8>) -> Option<RequestModel> {
    match sdec_u8(b, 0) {
        None => None,
        Some((t, j)) => if t == 0 {
            match sdec_ktid(b, j) {
                Some((id, k)) => if k == b.len() {
                    Some(RequestModel::Sr25519PublicKeys(id))
                } else {
                    None
                },
                None => None,
            }
        } else if t == 1 {
            match sdec_ktid(b, j) {
                Some((id, k)) => match sdec_opt_string(b, k) {
                    Some((seed, m)) => if m == b.len() {
                        Some(RequestModel::Sr25519GenerateNew { id, seed })
                    } else {
                        None
                    },
                    None => None,
                },
                None => None,
            }
        } else if t == 2 {
            match sdec_ktid(b, j) {
                Some((id, k)) => if k == b.len() {
                    Some(RequestModel::Ed25519PublicKeys(id))
                } else {
                    None
                },
                None => None,
            }
        } else if t == 3 {
            match sdec_ktid(b, j) {
                Some((id, k)) => match sdec_opt_string(b, k) {
                    Some((seed, m)) => if m == b.len() {
                        Some(RequestModel::Ed25519GenerateNew { id, seed })
                    } else {
                        None
                    },
                    None => None,
                },
                None => None,
            }
        } else if t == 4 {
            match sdec_ktid(b, j) {
                Some((id, k)) => if k == b.len() {
                    Some(RequestModel::EcdsaPublicKeys(id))
                } else {
                    None
                },
                None => None,
            }
        } else if t == 5 {
            match sdec_ktid(b, j) {
                Some((id, k)) => match sdec_opt_string(b, k) {
                    Some((seed, m)) => if m == b.len() {
                        Some(RequestModel::EcdsaGenerateNew { id, seed })
                    } else {
                        None
                    },
                    None => None,
                },
                None => None,
            }
        } else if t == 6 {
            match sdec_ktid(b, j) {
                Some((id, k)) => match sdec_string(b, k) {
                    Some((suri, m)) => match sdec_bytes(b, m) {
                        Some((public, e)) => if e == b.len() {
                            Some(RequestModel::InsertUnknown { id, suri, public })
                        } else {
                            None
                        },
                        None => None,
                    },
                    None => None,
                },
                None => None,
            }
        } else if t == 7 {
            match sdec_ktid(b, j) {
                Some((id, k)) => match sdec_handles(b, k) {
                    Some((keys, m)) => if m == b.len() {
                        Some(RequestModel::SupportedKeys { id, keys })
                    } else {
                        None
                    },
                    None => None,
                },
                None => None,
            }
        } else if t == 8 {
            match sdec_ktid(b, j) {
                Some((id, k)) => if k == b.len() {
                    Some(RequestModel::Keys(id))
                } else {
                    None
                },
                None => None,
            }
        } else if t == 9 {
            match sdec_pairs(b, j) {
                Some((pairs, k)) => if k == b.len() {
                    Some(RequestModel::HasKeys(pairs))
                } else {
                    None
                },
                None => None,
            }
        } else if t == 10 {
            match sdec_ktid(b, j) {
                Some((id, k)) => match sdec_handle(b, k) {
                    Some((key, m)) => match sdec_bytes(b, m) {
                        Some((msg, e)) => if e == b.len() {
                            Some(RequestModel::SignWith { id, key, msg })
                        } else {
                            None
                        },
                        None => None,
                    },
                    None => None,
                },
                None => None,
            }
        } else if t == 11 {
            match sdec_ktid(b, j) {
                Some((id, k)) => match sdec_handles(b, k) {
                    Some((keys, m)) => match sdec_bytes(b, m) {
                        Some((msg, e)) => if e == b.len() {
                            Some(RequestModel::SignWithAny { id, keys, msg })
                        } else {
                            None
                        },
                        None => None,
                    },
                    None => None,
                },
                None => None,
            }
        } else if t == 12 {
            match sdec_ktid(b, j) {
                Some((id, k)) => match sdec_handles(b, k) {
                    Some((keys, m)) => match sdec_bytes(b, m) {
                        Some((msg, e)) => if e == b.len() {
                            Some(RequestModel::SignWithAll { id, keys, msg })
                        } else {
                            None
                        },
                        None => None,
                    },
                    None => None,
                },
                None => None,
            }
        } else if t == 13 {
            match sdec_ktid(b, j) {
                Some((kt, k)) => match sdec_bytes(b, k) {
                    Some((public, m)) => match sdec_vrf_data(b, m) {
                        Some((td, e)) => if e == b.len() {
                            Some(
                                RequestModel::Sr25519VrfSign {
                                    key_type: kt,
                                    public,
                                    transcript_data: td,
                                },
                            )
                        } else {
                            None
                        },
                        None => None,
                    },
                    None => None,
                },
                None => None,
            }
        } else {
            None
        },
    }
}

/// Every field of the request fits the wire format's length prefixes.
/// Always true of a request built from in-memory values.
pub open spec fn req_size_ok(m: RequestModel) -> bool {
    match m {
        RequestModel::Sr25519PublicKeys(_) => true,
        RequestModel::Sr25519GenerateNew { id, seed } => seed is Some ==> encode_utf8(
            seed.unwrap(),
        ).len() <= u64::MAX,
        RequestModel::Ed25519PublicKeys(_) => true,
        RequestModel::Ed25519GenerateNew { id, seed } => seed is Some ==> encode_utf8(
            seed.unwrap(),
        ).len() <= u64::MAX,
        RequestModel::EcdsaPublicKeys(_) => true,
        RequestModel::EcdsaGenerateNew { id, seed } => seed is Some ==> encode_utf8(
            seed.unwrap(),
        ).len() <= u64::MAX,
        RequestModel::InsertUnknown { id, suri, public } => encode_utf8(suri).len() <= u64::MAX
            && public.len() <= u64::MAX,
        RequestModel::SupportedKeys { id, keys } => handles_size_ok(keys),
        RequestModel::Keys(_) => true,
        RequestModel::HasKeys(pairs) => pairs_size_ok(pairs),
        RequestModel::SignWith { id, key, msg } => handle_size_ok(key) && msg.len() <= u64::MAX,
        RequestModel::SignWithAny { id, keys, msg } => handles_size_ok(keys) && msg.len()
            <= u64::MAX,
        RequestModel::SignWithAll { id, keys, msg } => handles_size_ok(keys) && msg.len()
            <= u64::MAX,
        RequestModel::Sr25519VrfSign { key_type, public, transcript_data } => public.len()
            <= u64::MAX && vrf_data_size_ok(transcript_data),
    }
}

/// Serializing a request and deserializing the bytes yields the request
/// back, for every request variant.
#[verifier::rlimit(100)]
pub proof fn lemma_request_round_trip(m: RequestModel)
    requires
        req_size_ok(m),
    ensures
        sdec_request(senc_request(m)) == Some(m),
{
    let b = senc_request(m);
    let nil = Seq::<u8>::empty();
    assert(b[0] == senc_request(m)[0]);
    match m {
        RequestModel::Sr25519PublicKeys(id) => {
            let t = seq![0u8];
            assert(b =~= t + senc_ktid(id) + nil);
            lemma_rt_ktid(id, t, nil);
        },
        RequestModel::Sr25519GenerateNew { id, seed } => {
            let t = seq![1u8];
            let e1 = senc_ktid(id);
            let e2 = senc_opt_string(seed);
            assert(b =~= t + e1 + e2);
            lemma_rt_ktid(id, t, e2);
            assert(b =~= (t + e1) + e2 + nil);
            lemma_rt_opt_string(seed, t + e1, nil);
        },
        RequestModel::Ed25519PublicKeys(id) => {
            let t = seq![2u8];
            assert(b =~= t + senc_ktid(id) + nil);
            lemma_rt_ktid(id, t, nil);
        },
        RequestModel::Ed25519GenerateNew { id, seed } => {
            let t = seq![3u8];
            let e1 = senc_ktid(id);
            let e2 = senc_opt_string(seed);
            assert(b =~= t + e1 + e2);
            lemma_rt_ktid(id, t, e2);
            assert(b =~= (t + e1) + e2 + nil);
            lemma_rt_opt_string(seed, t + e1, nil);
        },
        RequestModel::EcdsaPublicKeys(id) => {
            let t = seq![4u8];
            assert(b =~= t + senc_ktid(id) + nil);
            lemma_rt_ktid(id, t, nil);
        },
        RequestModel::EcdsaGenerateNew { id, seed } => {
            let t = seq![5u8];
            let e1 = senc_ktid(id);
            let e2 = senc_opt_string(seed);
            assert(b =~= t + e1 + e2);
            lemma_rt_ktid(id, t, e2);
            assert(b =~= (t + e1) + e2 + nil);
            lemma_rt_opt_string(seed, t + e1, nil);
        },
        RequestModel::InsertUnknown { id, suri, public } => {
            let t = seq![6u8];
            let e1 = senc_ktid(id);
            let e2 = senc_string(suri);
            let e3 = senc_bytes(public);
            assert(b =~= t + e1 + (e2 + e3));
            lemma_rt_ktid(id, t, e2 + e3);
            assert(b =~= (t + e1) + e2 + e3);
            lemma_rt_string(suri, t + e1, e3);
            assert(b =~= ((t + e1) + e2) + e3 + nil);
            lemma_rt_bytes(public, (t + e1) + e2, nil);
        },
        RequestModel::SupportedKeys { id, keys } => {
            let t = seq![7u8];
            let e1 = senc_ktid(id);
            let e2 = senc_handles(keys);
            assert(b =~= t + e1 + e2);
            lemma_rt_ktid(id, t, e2);
            assert(b =~= (t + e1) + e2 + nil);
            lemma_rt_handles(keys, t + e1, nil);
        },
        RequestModel::Keys(id) => {
            let t = seq![8u8];
            assert(b =~= t + senc_ktid(id) + nil);
            lemma_rt_ktid(id, t, nil);
        },
        RequestModel::HasKeys(pairs) => {
            let t = seq![9u8];
            assert(b =~= t + senc_pairs(pairs) + nil);
            lemma_rt_pairs(pairs, t, nil);
        },
        RequestModel::SignWith { id, key, msg } => {
            let t = seq![10u8];
            let e1 = senc_ktid(id);
            let e2 = senc_handle(key);
            let e3 = senc_bytes(msg);
            assert(b =~= t + e1 + (e2 + e3));
            lemma_rt_ktid(id, t, e2 + e3);
            assert(b =~= (t + e1) + e2 + e3);
            lemma_rt_handle(key, t + e1, e3);
            assert(b =~= ((t + e1) + e2) + e3 + nil);
            lemma_rt_bytes(msg, (t + e1) + e2, nil);
        },
        RequestModel::SignWithAny { id, keys, msg } => {
            let t = seq![11u8];
            let e1 = senc_ktid(id);
            let e2 = senc_handles(keys);
            let e3 = senc_bytes(msg);
            assert(b =~= t + e1 + (e2 + e3));
            lemma_rt_ktid(id, t, e2 + e3);
            assert(b =~= (t + e1) + e2 + e3);
            lemma_rt_handles(keys, t + e1, e3);
            assert(b =~= ((t + e1) + e2) + e3 + nil);
            lemma_rt_bytes(msg, (t + e1) + e2, nil);
        },
        RequestModel::SignWithAll { id, keys, msg } => {
            let t = seq![12u8];
            let e1 = senc_ktid(id);
            let e2 = senc_handles(keys);
            let e3 = senc_bytes(msg);
            assert(b =~= t + e1 + (e2 + e3));
            lemma_rt_ktid(id, t, e2 + e3);
            assert(b =~= (t + e1) + e2 + e3);
            lemma_rt_handles(keys, t + e1, e3);
            assert(b =~= ((t + e1) + e2) + e3 + nil);
            lemma_rt_bytes(msg, (t + e1) + e2, nil);
        },
        RequestModel::Sr25519VrfSign { key_type, public, transcript_data } => {
            let t = seq![13u8];
            let e1 = senc_ktid(key_type);
            let e2 = senc_bytes(public);
            let e3 = senc_vrf_data(transcript_data);
            assert(b =~= t + e1 + (e2 + e3));
            lemma_rt_ktid(key_type, t, e2 + e3);
            assert(b =~= (t + e1) + e2 + e3);
            lemma_rt_bytes(public, t + e1, e3);
            assert(b =~= ((t + e1) + e2) + e3 + nil);
            lemma_rt_vrf_data(transcript_data, (t + e1) + e2, nil);
        },
    }
}

/// Serializes a request for the wire.
pub fn encode_request(req: &RemoteKeystore) -> (r: Vec<u8>)
    ensures
        r@ == senc_request(req@),
{
    let mut out: Vec<u8> = Vec::new();
    match req {
        RemoteKeystore::Sr25519PublicKeys(id) => {
            out.push(0);
            enc_ktid(&mut out, *id);
            proof {
                assert(out@ =~= senc_request(req@));
            }
        },
        RemoteKeystore::Sr25519GenerateNew { id, seed } => {
            out.push(1);
            enc_ktid(&mut out, *id);
            enc_opt_string(&mut out, seed);
            proof {
                assert(out@ =~= senc_request(req@));
            }
        },
        RemoteKeystore::Ed25519PublicKeys(id) => {
            out.push(2);
            enc_ktid(&mut out, *id);
            proof {
                assert(out@ =~= senc_request(req@));
            }
        },
        RemoteKeystore::Ed25519GenerateNew { id, seed } => {
            out.push(3);
            enc_ktid(&mut out, *id);
            enc_opt_string(&mut out, seed);
            proof {
                assert(out@ =~= senc_request(req@));
            }
        },
        RemoteKeystore::EcdsaPublicKeys(id) => {
            out.push(4);
            enc_ktid(&mut out, *id);
            proof {
                assert(out@ =~= senc_request(req@));
            }
        },
        RemoteKeystore::EcdsaGenerateNew { id, seed } => {
            out.push(5);
            enc_ktid(&mut out, *id);
            enc_opt_string(&mut out, seed);
            proof {
                assert(out@ =~= senc_request(req@));
            }
        },
        RemoteKeystore::InsertUnknown { id, suri, public } => {
            out.push(6);
            enc_ktid(&mut out, *id);
            enc_string(&mut out, suri.as_str());
            enc_bytes(&mut out, public);
            proof {
                assert(out@ =~= senc_request(req@));
            }
        },
        RemoteKeystore::SupportedKeys { id, keys } => {
            out.push(7);
            enc_ktid(&mut out, *id);
            enc_handles(&mut out, keys);
            proof {
                assert(out@ =~= senc_request(req@));
            }
        },
        RemoteKeystore::Keys(id) => {
            out.push(8);
            enc_ktid(&mut out, *id);
            proof {
                assert(out@ =~= senc_request(req@));
            }
        },
        RemoteKeystore::HasKeys(pairs) => {
            out.push(9);
            enc_pairs(&mut out, pairs);
            proof {
                assert(out@ =~= senc_request(req@));
            }
        },
        RemoteKeystore::SignWith { id, key, msg } => {
            out.push(10);
            enc_ktid(&mut out, *id);
            enc_handle(&mut out, key);
            enc_bytes(&mut out, msg);
            proof {
                assert(out@ =~= senc_request(req@));
            }
        },
        RemoteKeystore::SignWithAny { id, keys, msg } => {
            out.push(11);
            enc_ktid(&mut out, *id);
            enc_handles(&mut out, keys);
            enc_bytes(&mut out, msg);
            proof {
                assert(out@ =~= senc_request(req@));
            }
        },
        RemoteKeystore::SignWithAll { id, keys, msg } => {
            out.push(12);
            enc_ktid(&mut out, *id);
            enc_handles(&mut out, keys);
            enc_bytes(&mut out, msg);
            proof {
                assert(out@ =~= senc_request(req@));
            }
        },
        RemoteKeystore::Sr25519VrfSign { key_type, public, transcript_data } => {
            out.push(13);
            enc_ktid(&mut out, *key_type);
            enc_bytes(&mut out, public);
            enc_vrf_data(&mut out, transcript_data);
            proof {
                assert(out@ =~= senc_request(req@));
            }
        },
    }
    out
}

/// Deserializes a request from the wire; unknown tags, malformed payloads
/// and trailing bytes yield nothing.
pub fn decode_request(buf: &Vec<u8>) -> (r: Option<RemoteKeystore>)
    ensures
        match r {
            Some(req) => sdec_request(buf@) == Some(req@),
            None => sdec_request(buf@) is None,
        },
{
    let mut pos: usize = 0;
    let t = match dec_u8(buf, &mut pos) {
        Some(t) => t,
        None => {
            return None;
        },
    };
    if t == 0 {
        let id = match dec_ktid(buf, &mut pos) {
            Some(v) => v,
            None => {
                return None;
            },
        };
        if pos != buf.len() {
            return None;
        }
        Some(RemoteKeystore::Sr25519PublicKeys(id))
    } else if t == 1 {
        let id = match dec_ktid(buf, &mut pos) {
            Some(v) => v,
            None => {
                return None;
            },
        };
        let seed = match dec_opt_string(buf, &mut pos) {
            Some(v) => v,
            None => {
                return None;
            },
        };
        if pos != buf.len() {
            return None;
        }
        Some(RemoteKeystore::Sr25519GenerateNew { id, seed })
    } else if t == 2 {
        let id = match dec_ktid(buf, &mut pos) {
            Some(v) => v,
            None => {
                return None;
            },
        };
        if pos != buf.len() {
            return None;
        }
        Some(RemoteKeystore::Ed25519PublicKeys(id))
    } else if t == 3 {
        let id = match dec_ktid(buf, &mut pos) {
            Some(v) => v,
            None => {
                return None;
            },
        };
        let seed = match dec_opt_string(buf, &mut pos) {
            Some(v) => v,
            None => {
                return None;
            },
        };
        if pos != buf.len() {
            return None;
        }
        Some(RemoteKeystore::Ed25519GenerateNew { id, seed })
    } else if t == 4 {
        let id = match dec_ktid(buf, &mut pos) {
            Some(v) => v,
            None => {
                return None;
            },
        };
        if pos != buf.len() {
            return None;
        }
        Some(RemoteKeystore::EcdsaPublicKeys(id))
    } else if t == 5 {
        let id = match dec_ktid(buf, &mut pos) {
            Some(v) => v,
            None => {
                return None;
            },
        };
        let seed = match dec_opt_string(buf, &mut pos) {
            Some(v) => v,
            None => {
                return None;
            },
        };
        if pos != buf.len() {
            return None;
        }
        Some(RemoteKeystore::EcdsaGenerateNew { id, seed })
    } else if t == 6 {
        let id = match dec_ktid(buf, &mut pos) {
            Some(v) => v,
            None => {
                return None;
            },
        };
        let suri = match dec_string(buf, &mut pos) {
            Some(v) => v,
            None => {
                return None;
            },
        };
        let public = match dec_bytes(buf, &mut pos) {
            Some(v) => v,
            None => {
                return None;
            },
        };
        if pos != buf.len() {
            return None;
        }
        Some(RemoteKeystore::InsertUnknown { id, suri, public })
    } else if t == 7 {
        let id = match dec_ktid(buf, &mut pos) {
            Some(v) => v,
            None => {
                return None;
            },
        };
        let keys = match dec_handles(buf, &mut pos) {
            Some(v) => v,
            None => {
                return None;
            },
        };
        if pos != buf.len() {
            return None;
        }
        Some(RemoteKeystore::SupportedKeys { id, keys })
    } else if t == 8 {
        let id = match dec_ktid(buf, &mut pos) {
            Some(v) => v,
            None => {
                return None;
            },
        };
        if pos != buf.len() {
            return None;
        }
        Some(RemoteKeystore::Keys(id))
    } else if t == 9 {
        let pairs = match dec_pairs(buf, &mut pos) {
            Some(v) => v,
            None => {
                return None;
            },
        };
        if pos != buf.len() {
            return None;
        }
        Some(RemoteKeystore::HasKeys(pairs))
    } else if t == 10 {
        let id = match dec_ktid(buf, &mut pos) {
            Some(v) => v,
            None => {
                return None;
            },
        };
        let key = match dec_handle(buf, &mut pos) {
            Some(v) => v,
            None => {
                return None;
            },
        };
        let msg = match dec_bytes(buf, &mut pos) {
            Some(v) => v,
            None => {
                return None;
            },
        };
        if pos != buf.len() {
            return None;
        }
        Some(RemoteKeystore::SignWith { id, key, msg })
    } else if t == 11 {
        let id = match dec_ktid(buf, &mut pos) {
            Some(v) => v,
            None => {
                return None;
            },
        };
        let keys = match dec_handles(buf, &mut pos) {
            Some(v) => v,
            None => {
                return None;
            },
        };
        let msg = match dec_bytes(buf, &mut pos) {
            Some(v) => v,
            None => {
                return None;
            },
        };
        if pos != buf.len() {
            return None;
        }
        Some(RemoteKeystore::SignWithAny { id, keys, msg })
    } else if t == 12 {
        let id = match dec_ktid(buf, &mut pos) {
            Some(v) => v,
            None => {
                return None;
            },
        };
        let keys = match dec_handles(buf, &mut pos) {
            Some(v) => v,
            None => {
                return None;
            },
        };
        let msg = match dec_bytes(buf, &mut pos) {
            Some(v) => v,
            None => {
                return None;
            },
        };
        if pos != buf.len() {
            return None;
        }
        Some(RemoteKeystore::SignWithAll { id, keys, msg })
    } else if t == 13 {
        let key_type = match dec_ktid(buf, &mut pos) {
            Some(v) => v,
            None => {
                return None;
            },
        };
        let public = match dec_bytes(buf, &mut pos) {
            Some(v) => v,
            None => {
                return None;
            },
        };
        let transcript_data = match dec_vrf_data(buf, &mut pos) {
            Some(v) => v,
            None => {
                return None;
            },
        };
        if pos != buf.len() {
            return None;
        }
        Some(RemoteKeystore::Sr25519VrfSign { key_type, public, transcript_data })
    } else {
        None
    }
}

/// A success-or-unit-failure result, as one byte.
pub open spec fn senc_unit_result(r: Result<(), ()>) -> Seq<u8> {
    match r {
        Ok(_) => seq![0u8],
        Err(_) => seq![1u8],
    }
}

/// Reads a success-or-unit-failure result.
pub open spec fn sdec_unit_result(b: Seq<u8>, i: int) -> Option<(Result<(), ()>, int)> {
    match sdec_u8(b, i) {
        None => None,
        Some((t, j)) => if t == 0 {
            Some((Ok(()), j))
        } else if t == 1 {
            Some((Err(()), j))
        } else {
            None
        },
    }
}

/// Decoding an encoded unit result yields the result back.
pub proof fn lemma_rt_unit_result(r: Result<(), ()>, pre: Seq<u8>, suf: Seq<u8>)
    ensures
        sdec_unit_result(pre + senc_unit_result(r) + suf, pre.len() as int) == Some(
            (r, pre.len() + senc_unit_result(r).len() as int),
        ),
{
    let b = pre + senc_unit_result(r) + suf;
    assert(b[pre.len() as int] == senc_unit_result(r)[0]);
    match r {
        Ok(u) => {
            assert(u == ());
            assert(r == Ok::<(), ()>(()));
        },
        Err(u) => {
            assert(u == ());
            assert(r == Err::<(), ()>(()));
        },
    }
}

/// A handle-list result: the handles, or a domain error.
pub open spec fn senc_handles_result(
    r: Result<Seq<crate::types::HandleModel>, crate::types::KeystoreError>,
) -> Seq<u8> {
    match r {
        Ok(ks) => seq![0u8] + senc_handles(ks),
        Err(e) => seq![1u8] + senc_err(e),
    }
}

/// Reads a handle-list result.
pub open spec fn sdec_handles_result(b: Seq<u8>, i: int) -> Option<
    (Result<Seq<crate::types::HandleModel>, crate::types::KeystoreError>, int),
> {
    match sdec_u8(b, i) {
        None => None,
        Some((t, j)) => if t == 0 {
            match sdec_handles(b, j) {
                None => None,
                Some((ks, k)) => Some((Ok(ks), k)),
            }
        } else if t == 1 {
            match sdec_err(b, j) {
                None => None,
                Some((e, k)) => Some((Err(e), k)),
            }
        } else {
            None
        },
    }
}

/// Decoding an encoded handle-list result yields the result back.
pub proof fn lemma_rt_handles_result(
    r: Result<Seq<crate::types::HandleModel>, crate::types::KeystoreError>,
    pre: Seq<u8>,
    suf: Seq<u8>,
)
    requires
        r is Ok ==> handles_size_ok(r.unwrap()),
    ensures
        sdec_handles_result(pre + senc_handles_result(r) + suf, pre.len() as int) == Some(
            (r, pre.len() + senc_handles_result(r).len() as int),
        ),
{
    let b = pre + senc_handles_result(r) + suf;
    assert(b[pre.len() as int] == senc_handles_result(r)[0]);
    match r {
        Ok(ks) => {
            let p2 = pre.push(0u8);
            assert(b =~= p2 + senc_handles(ks) + suf);
            lemma_rt_handles(ks, p2, suf);
        },
        Err(e) => {
            let p2 = pre.push(1u8);
            assert(b =~= p2 + senc_err(e) + suf);
            lemma_rt_err(e, p2, suf);
        },
    }
}

/// A "sign with any" result: the chosen handle and its signature, or a
/// domain error.
pub open spec fn senc_any_result(
    r: Result<(crate::types::HandleModel, Seq<u8>), crate::types::KeystoreError>,
) -> Seq<u8> {
    match r {
        Ok(p) => seq![0u8] + senc_handle(p.0) + senc_bytes(p.1),
        Err(e) => seq![1u8] + senc_err(e),
    }
}

/// Reads a "sign with any" result.
pub open spec fn sdec_any_result(b: Seq<u8>, i: int) -> Option<
    (Result<(crate::types::HandleModel, Seq<u8>), crate::types::KeystoreError>, int),
> {
    match sdec_u8(b, i) {
        None => None,
        Some((t, j)) => if t == 0 {
            match sdec_handle(b, j) {
                None => None,
                Some((h, k)) => match sdec_bytes(b, k) {
                    None => None,
                    Some((bs, m)) => Some((Ok((h, bs)), m)),
                },
            }
        } else if t == 1 {
            match sdec_err(b, j) {
                None => None,
                Some((e, k)) => Some((Err(e), k)),
            }
        } else {
            None
        },
    }
}

/// Decoding an encoded "sign with any" result yields the result back.
#[verifier::rlimit(100)]
pub proof fn lemma_rt_any_result(
    r: Result<(crate::types::HandleModel, Seq<u8>), crate::types::KeystoreError>,
    pre: Seq<u8>,
    suf: Seq<u8>,
)
    requires
        r is Ok ==> handle_size_ok(r.unwrap().0) && r.unwrap().1.len() <= u64::MAX,
    ensures
        sdec_any_result(pre + senc_any_result(r) + suf, pre.len() as int) == Some(
            (r, pre.len() + senc_any_result(r).len() as int),
        ),
{
    let b = pre + senc_any_result(r) + suf;
    assert(b[pre.len() as int] == senc_any_result(r)[0]);
    match r {
        Ok(p) => {
            let p2 = pre.push(0u8);
            assert(b =~= p2 + senc_handle(p.0) + (senc_bytes(p.1) + suf));
            lemma_rt_handle(p.0, p2, senc_bytes(p.1) + suf);
            let p3 = p2 + senc_handle(p.0);
            assert(b =~= p3 + senc_bytes(p.1) + suf);
            lemma_rt_bytes(p.1, p3, suf);
        },
        Err(e) => {
            let p2 = pre.push(1u8);
            assert(b =~= p2 + senc_err(e) + suf);
            lemma_rt_err(e, p2, suf);
        },
    }
}

/// A "sign with all" result: the per-candidate results, or the unit
/// failure.
pub open spec fn senc_all_result(
    r: Result<Seq<Result<Seq<u8>, crate::types::KeystoreError>>, ()>,
) -> Seq<u8> {
    match r {
        Ok(rs) => seq![0u8] + senc_sig_results(rs),
        Err(_) => seq![1u8],
    }
}

/// Reads a "sign with all" result.
pub open spec fn sdec_all_result(b: Seq<u8>, i: int) -> Option<
    (Result<Seq<Result<Seq<u8>, crate::types::KeystoreError>>, ()>, int),
> {
    match sdec_u8(b, i) {
        None => None,
        Some((t, j)) => if t == 0 {
            match sdec_sig_results(b, j) {
                None => None,
                Some((rs, k)) => Some((Ok(rs), k)),
            }
        } else if t == 1 {
            Some((Err(()), j))
        } else {
            None
        },
    }
}

/// Decoding an encoded "sign with all" result yields the result back.
pub proof fn lemma_rt_all_result(
    r: Result<Seq<Result<Seq<u8>, crate::types::KeystoreError>>, ()>,
    pre: Seq<u8>,
    suf: Seq<u8>,
)
    requires
        r is Ok ==> sig_results_size_ok(r.unwrap()),
    ensures
        sdec_all_result(pre + senc_all_result(r) + suf, pre.len() as int) == Some(
            (r, pre.len() + senc_all_result(r).len() as int),
        ),
{
    let b = pre + senc_all_result(r) + suf;
    assert(b[pre.len() as int] == senc_all_result(r)[0]);
    match r {
        Ok(rs) => {
            let p2 = pre.push(0u8);
            assert(b =~= p2 + senc_sig_results(rs) + suf);
            lemma_rt_sig_results(rs, p2, suf);
        },
        Err(u) => {
            assert(u == ());
            assert(r == Err::<Seq<Result<Seq<u8>, crate::types::KeystoreError>>, ()>(()));
        },
    }
}

/// A VRF signing result: the signature, or a domain error.
pub open spec fn senc_vrf_result(
    r: Result<crate::types::VrfSignatureModel, crate::types::KeystoreError>,
) -> Seq<u8> {
    match r {
        Ok(s) => seq![0u8] + senc_vrf_sig(s),
        Err(e) => seq![1u8] + senc_err(e),
    }
}

/// Reads a VRF signing result.
pub open spec fn sdec_vrf_result(b: Seq<u8>, i: int) -> Option<
    (Result<crate::types::VrfSignatureModel, crate::types::KeystoreError>, int),
> {
    match sdec_u8(b, i) {
        None => None,
        Some((t, j)) => if t == 0 {
            match sdec_vrf_sig(b, j) {
                None => None,
                Some((s, k)) => Some((Ok(s), k)),
            }
        } else if t == 1 {
            match sdec_err(b, j) {
                None => None,
                Some((e, k)) => Some((Err(e), k)),
            }
        } else {
            None
        },
    }
}

/// Decoding an encoded VRF signing result yields the result back.
#[verifier::rlimit(100)]
pub proof fn lemma_rt_vrf_result(
    r: Result<crate::types::VrfSignatureModel, crate::types::KeystoreError>,
    pre: Seq<u8>,
    suf: Seq<u8>,
)
    requires
        r is Ok ==> vrf_sig_size_ok(r.unwrap()),
    ensures
        sdec_vrf_result(pre + senc_vrf_result(r) + suf, pre.len() as int) == Some(
            (r, pre.len() + senc_vrf_result(r).len() as int),
        ),
{
    let b = pre + senc_vrf_result(r) + suf;
    assert(b[pre.len() as int] == senc_vrf_result(r)[0]);
    match r {
        Ok(s) => {
            let p2 = pre.push(0u8);
            assert(b =~= p2 + senc_vrf_sig(s) + suf);
            lemma_rt_vrf_sig(s, p2, suf);
        },
        Err(e) => {
            let p2 = pre.push(1u8);
            assert(b =~= p2 + senc_err(e) + suf);
            lemma_rt_err(e, p2, suf);
        },
    }
}

/// The wire form of a response: a tag byte mirroring the request's tag,
/// then the operation's result.
pub open spec fn senc_response(m: ResponseModel) -> Seq<u8> {
    match m {
        ResponseModel::Sr25519PublicKeys(vs) => seq![0u8] + senc_bytes_list(vs),
        ResponseModel::Sr25519GenerateNew(r) => seq![1u8] + senc_sig_result(r),
        ResponseModel::Ed25519PublicKeys(vs) => seq![2u8] + senc_bytes_list(vs),
        ResponseModel::Ed25519GenerateNew(r) => seq![3u8] + senc_sig_result(r),
        ResponseModel::EcdsaPublicKeys(vs) => seq![4u8] + senc_bytes_list(vs),
        ResponseModel::EcdsaGenerateNew(r) => seq![5u8] + senc_sig_result(r),
        ResponseModel::InsertUnknown(r) => seq![6u8] + senc_unit_result(r),
        ResponseModel::SupportedKeys(r) => seq![7u8] + senc_handles_result(r),
        ResponseModel::Keys(r) => seq![8u8] + senc_handles_result(r),
        ResponseModel::HasKeys(v) => seq![9u8] + senc_bool(v),
        ResponseModel::SignWith(r) => seq![10u8] + senc_sig_result(r),
        ResponseModel::SignWithAny(r) => seq![11u8] + senc_any_result(r),
        ResponseModel::SignWithAll(r) => seq![12u8] + senc_all_result(r),
        ResponseModel::Sr25519VrfSign(r) => seq![13u8] + senc_vrf_result(r),
    }
}

/// Reads a whole response; unknown tags, malformed payloads and trailing
/// bytes are rejected.
pub open spec fn sdec_response(b: Seq<u8>) -> Option<ResponseModel> {
    match sdec_u8(b, 0) {
        None => None,
        Some((t, j)) => if t == 0 {
            match sdec_bytes_list(b, j) {
                Some((vs, k)) => if k == b.len() {
                    Some(ResponseModel::Sr25519PublicKeys(vs))
                } else {
                    None
                },
                None => None,
            }
        } else if t == 1 {
            match sdec_sig_result(b, j) {
                Some((r, k)) => if k == b.len() {
                    Some(ResponseModel::Sr25519GenerateNew(r))
                } else {
                    None
                },
                None => None,
            }
        } else if t == 2 {
            match sdec_bytes_list(b, j) {
                Some((vs, k)) => if k == b.len() {
                    Some(ResponseModel::Ed25519PublicKeys(vs))
                } else {
                    None
                },
                None => None,
            }
        } else if t == 3 {
            match sdec_sig_result(b, j) {
                Some((r, k)) => if k == b.len() {
                    Some(ResponseModel::Ed25519GenerateNew(r))
                } else {
                    None
                },
                None => None,
            }
        } else if t == 4 {
            match sdec_bytes_list(b, j) {
                Some((vs, k)) => if k == b.len() {
                    Some(ResponseModel::EcdsaPublicKeys(vs))
                } else {
                    None
                },
                None => None,
            }
        } else if t == 5 {
            match sdec_sig_result(b, j) {
                Some((r, k)) => if k == b.len() {
                    Some(ResponseModel::EcdsaGenerateNew(r))
                } else {
                    None
                },
                None => None,
            }
        } else if t == 6 {
            match sdec_unit_result(b, j) {
                Some((r, k)) => if k == b.len() {
                    Some(ResponseModel::InsertUnknown(r))
                } else {
                    None
                },
                None => None,
            }
        } else if t == 7 {
            match sdec_handles_result(b, j) {
                Some((r, k)) => if k == b.len() {
                    Some(ResponseModel::SupportedKeys(r))
                } else {
                    None
                },
                None => None,
            }
        } else if t == 8 {
            match sdec_handles_result(b, j) {
                Some((r, k)) => if k == b.len() {
                    Some(ResponseModel::Keys(r))
                } else {
                    None
                },
                None => None,
            }
        } else if t == 9 {
            match sdec_bool(b, j) {
                Some((v, k)) => if k == b.len() {
                    Some(ResponseModel::HasKeys(v))
                } else {
                    None
                },
                None => None,
            }
        } else if t == 10 {
            match sdec_sig_result(b, j) {
                Some((r, k)) => if k == b.len() {
                    Some(ResponseModel::SignWith(r))
                } else {
                    None
                },
                None => None,
            }
        } else if t == 11 {
            match sdec_any_result(b, j) {
                Some((r, k)) => if k == b.len() {
                    Some(ResponseModel::SignWithAny(r))
                } else {
                    None
                },
                None => None,
            }
        } else if t == 12 {
            match sdec_all_result(b, j) {
                Some((r, k)) => if k == b.len() {
                    Some(ResponseModel::SignWithAll(r))
                } else {
                    None
                },
                None => None,
            }
        } else if t == 13 {
            match sdec_vrf_result(b, j) {
                Some((r, k)) => if k == b.len() {
                    Some(ResponseModel::Sr25519VrfSign(r))
                } else {
                    None
                },
                None => None,
            }
        } else {
            None
        },
    }
}

/// Every field of the response fits the wire format's length prefixes.
/// Always true of a response built from in-memory values.
pub open spec fn resp_size_ok(m: ResponseModel) -> bool {
    match m {
        ResponseModel::Sr25519PublicKeys(vs) => bytes_list_size_ok(vs),
        ResponseModel::Sr25519GenerateNew(r) => sig_result_size_ok(r),
        ResponseModel::Ed25519PublicKeys(vs) => bytes_list_size_ok(vs),
        ResponseModel::Ed25519GenerateNew(r) => sig_result_size_ok(r),
        ResponseModel::EcdsaPublicKeys(vs) => bytes_list_size_ok(vs),
        ResponseModel::EcdsaGenerateNew(r) => sig_result_size_ok(r),
        ResponseModel::InsertUnknown(_) => true,
        ResponseModel::SupportedKeys(r) => r is Ok ==> handles_size_ok(r.unwrap()),
        ResponseModel::Keys(r) => r is Ok ==> handles_size_ok(r.unwrap()),
        ResponseModel::HasKeys(_) => true,
        ResponseModel::SignWith(r) => sig_result_size_ok(r),
        ResponseModel::SignWithAny(r) => r is Ok ==> handle_size_ok(r.unwrap().0)
            && r.unwrap().1.len() <= u64::MAX,
        ResponseModel::SignWithAll(r) => r is Ok ==> sig_results_size_ok(r.unwrap()),
        ResponseModel::Sr25519VrfSign(r) => r is Ok ==> vrf_sig_size_ok(r.unwrap()),
    }
}

/// Serializing a response and deserializing the bytes yields the response
/// back, for every response variant.
#[verifier::rlimit(100)]
pub proof fn lemma_response_round_trip(m: ResponseModel)
    requires
        resp_size_ok(m),
    ensures
        sdec_response(senc_response(m)) == Some(m),
{
    let b = senc_response(m);
    let nil = Seq::<u8>::empty();
    assert(b[0] == senc_response(m)[0]);
    match m {
        ResponseModel::Sr25519PublicKeys(vs) => {
            let t = seq![0u8];
            assert(b =~= t + senc_bytes_list(vs) + nil);
            lemma_rt_bytes_list(vs, t, nil);
        },
        ResponseModel::Sr25519GenerateNew(r) => {
            let t = seq![1u8];
            assert(b =~= t + senc_sig_result(r) + nil);
            lemma_rt_sig_result(r, t, nil);
        },
        ResponseModel::Ed25519PublicKeys(vs) => {
            let t = seq![2u8];
            assert(b =~= t + senc_bytes_list(vs) + nil);
            lemma_rt_bytes_list(vs, t, nil);
        },
        ResponseModel::Ed25519GenerateNew(r) => {
            let t = seq![3u8];
            assert(b =~= t + senc_sig_result(r) + nil);
            lemma_rt_sig_result(r, t, nil);
        },
        ResponseModel::EcdsaPublicKeys(vs) => {
            let t = seq![4u8];
            assert(b =~= t + senc_bytes_list(vs) + nil);
            lemma_rt_bytes_list(vs, t, nil);
        },
        ResponseModel::EcdsaGenerateNew(r) => {
            let t = seq![5u8];
            assert(b =~= t + senc_sig_result(r) + nil);
            lemma_rt_sig_result(r, t, nil);
        },
        ResponseModel::InsertUnknown(r) => {
            let t = seq![6u8];
            assert(b =~= t + senc_unit_result(r) + nil);
            lemma_rt_unit_result(r, t, nil);
        },
        ResponseModel::SupportedKeys(r) => {
            let t = seq![7u8];
            assert(b =~= t + senc_handles_result(r) + nil);
            lemma_rt_handles_result(r, t, nil);
        },
        ResponseModel::Keys(r) => {
            let t = seq![8u8];
            assert(b =~= t + senc_handles_result(r) + nil);
            lemma_rt_handles_result(r, t, nil);
        },
        ResponseModel::HasKeys(v) => {
            let t = seq![9u8];
            assert(b =~= t + senc_bool(v) + nil);
            lemma_rt_bool(v, t, nil);
        },
        ResponseModel::SignWith(r) => {
            let t = seq![10u8];
            assert(b =~= t + senc_sig_result(r) + nil);
            lemma_rt_sig_result(r, t, nil);
        },
        ResponseModel::SignWithAny(r) => {
            let t = seq![11u8];
            assert(b =~= t + senc_any_result(r) + nil);
            lemma_rt_any_result(r, t, nil);
        },
        ResponseModel::SignWithAll(r) => {
            let t = seq![12u8];
            assert(b =~= t + senc_all_result(r) + nil);
            lemma_rt_all_result(r, t, nil);
        },
        ResponseModel::Sr25519VrfSign(r) => {
            let t = seq![13u8];
            assert(b =~= t + senc_vrf_result(r) + nil);
            lemma_rt_vrf_result(r, t, nil);
        },
    }
}

/// Serializes a response for the wire.
pub fn encode_response(resp: &RemoteKeystoreResponse) -> (r: Vec<u8>)
    ensures
        r@ == senc_response(resp@),
{
    let mut out: Vec<u8> = Vec::new();
    match resp {
        RemoteKeystoreResponse::Sr25519PublicKeys(vs) => {
            out.push(0);
            enc_bytes_list(&mut out, vs);
            proof {
                assert(out@ =~= senc_response(resp@));
            }
        },
        RemoteKeystoreResponse::Sr25519GenerateNew(r) => {
            out.push(1);
            enc_sig_result(&mut out, r);
            proof {
                assert(out@ =~= senc_response(resp@));
            }
        },
        RemoteKeystoreResponse::Ed25519PublicKeys(vs) => {
            out.push(2);
            enc_bytes_list(&mut out, vs);
            proof {
                assert(out@ =~= senc_response(resp@));
            }
        },
        RemoteKeystoreResponse::Ed25519GenerateNew(r) => {
            out.push(3);
            enc_sig_result(&mut out, r);
            proof {
                assert(out@ =~= senc_response(resp@));
            }
        },
        RemoteKeystoreResponse::EcdsaPublicKeys(vs) => {
            out.push(4);
            enc_bytes_list(&mut out, vs);
            proof {
                assert(out@ =~= senc_response(resp@));
            }
        },
        RemoteKeystoreResponse::EcdsaGenerateNew(r) => {
            out.push(5);
            enc_sig_result(&mut out, r);
            proof {
                assert(out@ =~= senc_response(resp@));
            }
        },
        RemoteKeystoreResponse::InsertUnknown(r) => {
            out.push(6);
            match r {
                Ok(_) => out.push(0),
                Err(_) => out.push(1),
            }
            proof {
                assert(out@ =~= senc_response(resp@));
            }
        },
        RemoteKeystoreResponse::SupportedKeys(r) => {
            out.push(7);
            enc_handles_result(&mut out, r);
            proof {
                assert(out@ =~= senc_response(resp@));
            }
        },
        RemoteKeystoreResponse::Keys(r) => {
            out.push(8);
            enc_handles_result(&mut out, r);
            proof {
                assert(out@ =~= senc_response(resp@));
            }
        },
        RemoteKeystoreResponse::HasKeys(v) => {
            out.push(9);
            enc_bool(&mut out, *v);
            proof {
                assert(out@ =~= senc_response(resp@));
            }
        },
        RemoteKeystoreResponse::SignWith(r) => {
            out.push(10);
            enc_sig_result(&mut out, r);
            proof {
                assert(out@ =~= senc_response(resp@));
            }
        },
        RemoteKeystoreResponse::SignWithAny(r) => {
            out.push(11);
            match r {
                Ok(p) => {
                    out.push(0);
                    enc_handle(&mut out, &p.0);
                    enc_bytes(&mut out, &p.1);
                },
                Err(e) => {
                    out.push(1);
                    enc_err(&mut out, *e);
                },
            }
            proof {
                assert(out@ =~= senc_response(resp@));
            }
        },
        RemoteKeystoreResponse::SignWithAll(r) => {
            out.push(12);
            match r {
                Ok(rs) => {
                    out.push(0);
                    enc_sig_results(&mut out, rs);
                },
                Err(_) => out.push(1),
            }
            proof {
                assert(out@ =~= senc_response(resp@));
            }
        },
        RemoteKeystoreResponse::Sr25519VrfSign(r) => {
            out.push(13);
            match r {
                Ok(s) => {
                    out.push(0);
                    enc_vrf_sig(&mut out, s);
                },
                Err(e) => {
                    out.push(1);
                    enc_err(&mut out, *e);
                },
            }
            proof {
                assert(out@ =~= senc_response(resp@));
            }
        },
    }
    out
}

/// Appends one signing result.
fn enc_sig_result(out: &mut Vec<u8>, r: &Result<Vec<u8>, crate::types::KeystoreError>)
    ensures
        final(out)@ == old(out)@ + senc_sig_result(
            match r {
                Ok(v) => Ok(v@),
                Err(e) => Err(*e),
            },
        ),
{
    match r {
        Ok(bs) => {
            out.push(0);
            enc_bytes(out, bs);
        },
        Err(e) => {
            out.push(1);
            enc_err(out, *e);
        },
    }
    proof {
        assert(out@ =~= old(out)@ + senc_sig_result(
            match r {
                Ok(v) => Ok(v@),
                Err(e) => Err(*e),
            },
        ));
    }
}

/// Reads one signing result.
fn dec_sig_result_exec(buf: &Vec<u8>, pos: &mut usize) -> (r: Option<
    Result<Vec<u8>, crate::types::KeystoreError>,
>)
    requires
        *old(pos) <= buf@.len(),
    ensures
        match sdec_sig_result(buf@, *old(pos) as int) {
            Some((v, j)) => r is Some && (match (r.unwrap(), v) {
                (Ok(bs), Ok(m)) => bs@ == m,
                (Err(e1), Err(e2)) => e1 == e2,
                _ => false,
            }) && *final(pos) == j && j <= buf@.len(),
            None => r is None,
        },
{
    let t = match dec_u8(buf, pos) {
        Some(t) => t,
        None => {
            return None;
        },
    };
    if t == 0 {
        match dec_bytes(buf, pos) {
            Some(bs) => Some(Ok(bs)),
            None => None,
        }
    } else if t == 1 {
        match dec_err(buf, pos) {
            Some(e) => Some(Err(e)),
            None => None,
        }
    } else {
        None
    }
}

/// Appends a handle-list result.
fn enc_handles_result(
    out: &mut Vec<u8>,
    r: &Result<Vec<crate::types::PublicKeyHandle>, crate::types::KeystoreError>,
)
    ensures
        final(out)@ == old(out)@ + senc_handles_result(
            match r {
                Ok(v) => Ok(v.deep_view()),
                Err(e) => Err(*e),
            },
        ),
{
    match r {
        Ok(ks) => {
            out.push(0);
            enc_handles(out, ks);
        },
        Err(e) => {
            out.push(1);
            enc_err(out, *e);
        },
    }
    proof {
        assert(out@ =~= old(out)@ + senc_handles_result(
            match r {
                Ok(v) => Ok(v.deep_view()),
                Err(e) => Err(*e),
            },
        ));
    }
}

/// Reads a handle-list result.
fn dec_handles_result(buf: &Vec<u8>, pos: &mut usize) -> (r: Option<
    Result<Vec<crate::types::PublicKeyHandle>, crate::types::KeystoreError>,
>)
    requires
        *old(pos) <= buf@.len(),
    ensures
        match sdec_handles_result(buf@, *old(pos) as int) {
            Some((v, j)) => r is Some && (match (r.unwrap(), v) {
                (Ok(ks), Ok(m)) => ks.deep_view() == m,
                (Err(e1), Err(e2)) => e1 == e2,
                _ => false,
            }) && *final(pos) == j && j <= buf@.len(),
            None => r is None,
        },
{
    let t = match dec_u8(buf, pos) {
        Some(t) => t,
        None => {
            return None;
        },
    };
    if t == 0 {
        match dec_handles(buf, pos) {
            Some(ks) => Some(Ok(ks)),
            None => None,
        }
    } else if t == 1 {
        match dec_err(buf, pos) {
            Some(e) => Some(Err(e)),
            None => None,
        }
    } else {
        None
    }
}

/// Deserializes a response from the wire; unknown tags, malformed
/// payloads and trailing bytes yield nothing.
pub fn decode_response(buf: &Vec<u8>) -> (r: Option<RemoteKeystoreResponse>)
    ensures
        match r {
            Some(resp) => sdec_response(buf@) == Some(resp@),
            None => sdec_response(buf@) is None,
        },
{
    let mut pos: usize = 0;
    let t = match dec_u8(buf, &mut pos) {
        Some(t) => t,
        None => {
            return None;
        },
    };
    if t == 0 {
        let vs = match dec_bytes_list(buf, &mut pos) {
            Some(v) => v,
            None => {
                return None;
            },
        };
        if pos != buf.len() {
            return None;
        }
        Some(RemoteKeystoreResponse::Sr25519PublicKeys(vs))
    } else if t == 1 {
        let v = match dec_sig_result_exec(buf, &mut pos) {
            Some(v) => v,
            None => {
                return None;
            },
        };
        if pos != buf.len() {
            return None;
        }
        Some(RemoteKeystoreResponse::Sr25519GenerateNew(v))
    } else if t == 2 {
        let vs = match dec_bytes_list(buf, &mut pos) {
            Some(v) => v,
            None => {
                return None;
            },
        };
        if pos != buf.len() {
            return None;
        }
        Some(RemoteKeystoreResponse::Ed25519PublicKeys(vs))
    } else if t == 3 {
        let v = match dec_sig_result_exec(buf, &mut pos) {
            Some(v) => v,
            None => {
                return None;
            },
        };
        if pos != buf.len() {
            return None;
        }
        Some(RemoteKeystoreResponse::Ed25519GenerateNew(v))
    } else if t == 4 {
        let vs = match dec_bytes_list(buf, &mut pos) {
            Some(v) => v,
            None => {
                return None;
            },
        };
        if pos != buf.len() {
            return None;
        }
        Some(RemoteKeystoreResponse::EcdsaPublicKeys(vs))
    } else if t == 5 {
        let v = match dec_sig_result_exec(buf, &mut pos) {
            Some(v) => v,
            None => {
                return None;
            },
        };
        if pos != buf.len() {
            return None;
        }
        Some(RemoteKeystoreResponse::EcdsaGenerateNew(v))
    } else if t == 6 {
        let u = match dec_u8(buf, &mut pos) {
            Some(u) => u,
            None => {
                return None;
            },
        };
        let v: Result<(), ()> = if u == 0 {
            Ok(())
        } else if u == 1 {
            Err(())
        } else {
            return None;
        };
        if pos != buf.len() {
            return None;
        }
        Some(RemoteKeystoreResponse::InsertUnknown(v))
    } else if t == 7 {
        let v = match dec_handles_result(buf, &mut pos) {
            Some(v) => v,
            None => {
                return None;
            },
        };
        if pos != buf.len() {
            return None;
        }
        Some(RemoteKeystoreResponse::SupportedKeys(v))
    } else if t == 8 {
        let v = match dec_handles_result(buf, &mut pos) {
            Some(v) => v,
            None => {
                return None;
            },
        };
        if pos != buf.len() {
            return None;
        }
        Some(RemoteKeystoreResponse::Keys(v))
    } else if t == 9 {
        let v = match dec_bool(buf, &mut pos) {
            Some(v) => v,
            None => {
                return None;
            },
        };
        if pos != buf.len() {
            return None;
        }
        Some(RemoteKeystoreResponse::HasKeys(v))
    } else if t == 10 {
        let v = match dec_sig_result_exec(buf, &mut pos) {
            Some(v) => v,
            None => {
                return None;
            },
        };
        if pos != buf.len() {
            return None;
        }
        Some(RemoteKeystoreResponse::SignWith(v))
    } else if t == 11 {
        let u = match dec_u8(buf, &mut pos) {
            Some(u) => u,
            None => {
                return None;
            },
        };
        let v: Result<(crate::types::PublicKeyHandle, Vec<u8>), crate::types::KeystoreError> = if u
            == 0 {
            let h = match dec_handle(buf, &mut pos) {
                Some(h) => h,
                None => {
                    return None;
                },
            };
            let bs = match dec_bytes(buf, &mut pos) {
                Some(bs) => bs,
                None => {
                    return None;
                },
            };
            Ok((h, bs))
        } else if u == 1 {
            match dec_err(buf, &mut pos) {
                Some(e) => Err(e),
                None => {
                    return None;
                },
            }
        } else {
            return None;
        };
        if pos != buf.len() {
            return None;
        }
        Some(RemoteKeystoreResponse::SignWithAny(v))
    } else if t == 12 {
        let u = match dec_u8(buf, &mut pos) {
            Some(u) => u,
            None => {
                return None;
            },
        };
        let v: Result<Vec<Result<Vec<u8>, crate::types::KeystoreError>>, ()> = if u == 0 {
            match dec_sig_results(buf, &mut pos) {
                Some(rs) => Ok(rs),
                None => {
                    return None;
                },
            }
        } else if u == 1 {
            Err(())
        } else {
            return None;
        };
        if pos != buf.len() {
            return None;
        }
        Some(RemoteKeystoreResponse::SignWithAll(v))
    } else if t == 13 {
        let u = match dec_u8(buf, &mut pos) {
            Some(u) => u,
            None => {
                return None;
            },
        };
        let v: Result<crate::types::VrfSignature, crate::types::KeystoreError> = if u == 0 {
            match dec_vrf_sig(buf, &mut pos) {
                Some(s) => Ok(s),
                None => {
                    return None;
                },
            }
        } else if u == 1 {
            match dec_err(buf, &mut pos) {
                Some(e) => Err(e),
                None => {
                    return None;
                },
            }
        } else {
            return None;
        };
        if pos != buf.len() {
            return None;
        }
        Some(RemoteKeystoreResponse::Sr25519VrfSign(v))
    } else {
        None
    }
}

} // verus!

