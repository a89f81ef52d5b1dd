//! Binary wire primitives: fixed-width little-endian integers,
//! length-prefixed byte strings, and length-prefixed UTF-8 text, together
//! with the spec-level readers the codec contracts are stated over.
//!
//! Every emitter appends to an output buffer; every parser takes the buffer
//! and a position and is specified exactly by the matching `spec_parse_*`
//! function, which returns the parsed value and the next position, or nothing
//! when the bytes at that position do not hold one.

use vstd::prelude::*;
use vstd::bytes::{
    spec_u32_from_le_bytes, spec_u32_to_le_bytes, spec_u64_from_le_bytes, spec_u64_to_le_bytes,
    u32_from_le_bytes, u32_to_le_bytes, u64_from_le_bytes, u64_to_le_bytes,
    lemma_auto_spec_u32_to_from_le_bytes, lemma_auto_spec_u64_to_from_le_bytes,
};
use vstd::slice::slice_subrange;
use vstd::utf8::{valid_utf8, decode_utf8, encode_utf8};

verus! {

broadcast use vstd::slice::group_slice_axioms;

/// A byte string with its 8-byte little-endian length in front.
pub open spec fn lp_bytes(d: Seq<u8>) -> Seq<u8> {
    spec_u64_to_le_bytes(d.len() as u64) + d
}

/// A character string as length-prefixed UTF-8.
pub open spec fn lp_string(s: Seq<char>) -> Seq<u8> {
    lp_bytes(encode_utf8(s))
}

/// Reads one byte.
pub open spec fn spec_parse_u8(b: Seq<u8>, p: int) -> Option<(u8, int)> {
    if 0 <= p < b.len() {
        Some((b[p], p + 1))
    } else {
        None
    }
}

/// Reads a 4-byte little-endian unsigned integer.
pub open spec fn spec_parse_u32(b: Seq<u8>, p: int) -> Option<(u32, int)> {
    if 0 <= p && p + 4 <= b.len() {
        Some((spec_u32_from_le_bytes(b.subrange(p, p + 4)), p + 4))
    } else {
        None
    }
}

/// Reads an 8-byte little-endian unsigned integer.
pub open spec fn spec_parse_u64(b: Seq<u8>, p: int) -> Option<(u64, int)> {
    if 0 <= p && p + 8 <= b.len() {
        Some((spec_u64_from_le_bytes(b.subrange(p, p + 8)), p + 8))
    } else {
        None
    }
}

/// Reads a length-prefixed byte string.
pub open spec fn spec_parse_lp_bytes(b: Seq<u8>, p: int) -> Option<(Seq<u8>, int)> {
    match spec_parse_u64(b, p) {
        None => None,
        Some((n, q)) => {
            if q + n <= b.len() {
                Some((b.subrange(q, q + n), q + n))
            } else {
                None
            }
        },
    }
}

/// Reads a length-prefixed UTF-8 character string.
pub open spec fn spec_parse_lp_string(b: Seq<u8>, p: int) -> Option<(Seq<char>, int)> {
    match spec_parse_lp_bytes(b, p) {
        None => None,
        Some((d, q)) => {
            if valid_utf8(d) {
                Some((decode_utf8(d), q))
            } else {
                None
            }
        },
    }
}

/// Appends one byte.
pub fn emit_u8(x: u8, out: &mut Vec<u8>)
    ensures
        final(out)@ == old(out)@ + seq![x],
{
    out.push(x);
    assert(out@ =~= old(out)@ + seq![x]);
}

/// Appends a 4-byte little-endian unsigned integer.
pub fn emit_u32(x: u32, out: &mut Vec<u8>)
    ensures
        final(out)@ == old(out)@ + spec_u32_to_le_bytes(x),
{
    let mut bs = u32_to_le_bytes(x);
    out.append(&mut bs);
}

/// Appends an 8-byte little-endian unsigned integer.
pub fn emit_u64(x: u64, out: &mut Vec<u8>)
    ensures
        final(out)@ == old(out)@ + spec_u64_to_le_bytes(x),
{
    let mut bs = u64_to_le_bytes(x);
    out.append(&mut bs);
}

/// Appends a length-prefixed byte string.
pub fn emit_lp_bytes(d: &Vec<u8>, out: &mut Vec<u8>)
    ensures
        final(out)@ == old(out)@ + lp_bytes(d@),
{
    emit_u64(d.len() as u64, out);
    let mut copy = d.clone();
    proof {
        assert(copy@ =~= d@);
    }
    out.append(&mut copy);
    assert(out@ =~= old(out)@ + lp_bytes(d@));
}

/// Appends a character string as length-prefixed UTF-8.
pub fn emit_lp_string(s: &str, out: &mut Vec<u8>)
    ensures
        final(out)@ == old(out)@ + lp_string(s@),
{
    let bytes = s.as_bytes_vec();
    emit_lp_bytes(&bytes, out);
}

/// Reads one byte, exactly as [`spec_parse_u8`].
pub fn parse_u8(b: &Vec<u8>, pos: usize) -> (r: Option<(u8, usize)>)
    ensures
        match r {
            Some((x, e)) => spec_parse_u8(b@, pos as int) == Some((x, e as int)),
            None => spec_parse_u8(b@, pos as int) is None,
        },
{
    if pos < b.len() {
        Some((b[pos], pos + 1))
    } else {
        None
    }
}

/// Reads a 4-byte little-endian unsigned integer, exactly as
/// [`spec_parse_u32`].
pub fn parse_u32(b: &Vec<u8>, pos: usize) -> (r: Option<(u32, usize)>)
    ensures
        match r {
            Some((x, e)) => spec_parse_u32(b@, pos as int) == Some((x, e as int)),
            None => spec_parse_u32(b@, pos as int) is None,
        },
{
    if pos <= b.len() && b.len() - pos >= 4 {
        let x = u32_from_le_bytes(slice_subrange(b.as_slice(), pos, pos + 4));
        Some((x, pos + 4))
    } else {
        None
    }
}

/// Reads an 8-byte little-endian unsigned integer, exactly as
/// [`spec_parse_u64`].
pub fn parse_u64(b: &Vec<u8>, pos: usize) -> (r: Option<(u64, usize)>)
    ensures
        match r {
            Some((x, e)) => spec_parse_u64(b@, pos as int) == Some((x, e as int)),
            None => spec_parse_u64(b@, pos as int) is None,
        },
{
    if pos <= b.len() && b.len() - pos >= 8 {
        let x = u64_from_le_bytes(slice_subrange(b.as_slice(), pos, pos + 8));
        Some((x, pos + 8))
    } else {
        None
    }
}

/// Reads a length-prefixed byte string, exactly as [`spec_parse_lp_bytes`].
pub fn parse_lp_bytes(b: &Vec<u8>, pos: usize) -> (r: Option<(Vec<u8>, usize)>)
    ensures
        match r {
            Some((d, e)) => spec_parse_lp_bytes(b@, pos as int) == Some((d@, e as int)),
            None => spec_parse_lp_bytes(b@, pos as int) is None,
        },
{
    match parse_u64(b, pos) {
        None => None,
        Some((n, q)) => {
            if n <= (b.len() - q) as u64 {
                let end = q + (n as usize);
                let d = vstd::slice::slice_to_vec(slice_subrange(b.as_slice(), q, end));
                Some((d, end))
            } else {
                None
            }
        },
    }
}

/// Compares two strings by contents.
pub fn str_eq(a: &str, b: &str) -> (r: bool)
    ensures
        r == (a@ == b@),
{
    let ab = a.as_bytes();
    let bb = b.as_bytes();
    let n = ab.len();
    if n != bb.len() {
        proof {
            if a@ == b@ {
                assert(encode_utf8(a@) == encode_utf8(b@));
            }
        }
        return false;
    }
    let mut k: usize = 0;
    while k < n
        invariant
            0 <= k <= n,
            n == ab@.len() == bb@.len(),
            ab@ == encode_utf8(a@),
            bb@ == encode_utf8(b@),
            forall|j: int| 0 <= j < k ==> ab@[j] == bb@[j],
        decreases n - k,
    {
        if *vstd::slice::slice_index_get(ab, k) != *vstd::slice::slice_index_get(bb, k) {
            proof {
                if a@ == b@ {
                    assert(encode_utf8(a@) == encode_utf8(b@));
                    assert(ab@[k as int] == bb@[k as int]);
                }
            }
            return false;
        }
        k = k + 1;
    }
    proof {
        assert(encode_utf8(a@) =~= encode_utf8(b@));
        vstd::utf8::encode_utf8_decode_utf8(a@);
        vstd::utf8::encode_utf8_decode_utf8(b@);
    }
    true
}

/// Relies on `String::from_utf8`: it returns `Ok` exactly on valid UTF-8
/// input, and the returned string's bytes are the input bytes.
#[verifier::external_body]
pub fn string_from_utf8(v: Vec<u8>) -> (r: Option<String>)
    ensures
        match r {
            Some(s) => valid_utf8(v@) && encode_utf8(s@) == v@,
            None => !valid_utf8(v@),
        },
{
    String::from_utf8(v).ok()
}

/// Reads a length-prefixed UTF-8 string, exactly as [`spec_parse_lp_string`].
pub fn parse_lp_string(b: &Vec<u8>, pos: usize) -> (r: Option<(String, usize)>)
    ensures
        match r {
            Some((s, e)) => spec_parse_lp_string(b@, pos as int) == Some((s@, e as int)),
            None => spec_parse_lp_string(b@, pos as int) is None,
        },
{
    match parse_lp_bytes(b, pos) {
        None => None,
        Some((d, e)) => {
            let ghost dv = d@;
            match string_from_utf8(d) {
                None => None,
                Some(s) => {
                    proof {
                        vstd::utf8::encode_utf8_decode_utf8(s@);
                    }
                    Some((s, e))
                },
            }
        },
    }
}

/// Reading one byte just past a known prefix yields that byte.
pub proof fn lemma_parse_u8_emitted(pre: Seq<u8>, x: u8, rest: Seq<u8>)
    ensures
        spec_parse_u8(pre + seq![x] + rest, pre.len() as int) == Some((x, pre.len() + 1 as int)),
{
    let b = pre + seq![x] + rest;
    assert(b[pre.len() as int] == x);
}

/// Reading a 4-byte integer just past a known prefix yields the written value.
pub proof fn lemma_parse_u32_emitted(pre: Seq<u8>, x: u32, rest: Seq<u8>)
    ensures
        spec_parse_u32(pre + spec_u32_to_le_bytes(x) + rest, pre.len() as int) == Some(
            (x, pre.len() + 4 as int),
        ),
{
    lemma_auto_spec_u32_to_from_le_bytes();
    let b = pre + spec_u32_to_le_bytes(x) + rest;
    assert(b.subrange(pre.len() as int, pre.len() + 4 as int) =~= spec_u32_to_le_bytes(x));
}

/// Reading an 8-byte integer just past a known prefix yields the written value.
pub proof fn lemma_parse_u64_emitted(pre: Seq<u8>, x: u64, rest: Seq<u8>)
    ensures
        spec_parse_u64(pre + spec_u64_to_le_bytes(x) + rest, pre.len() as int) == Some(
            (x, pre.len() + 8 as int),
        ),
{
    lemma_auto_spec_u64_to_from_le_bytes();
    let b = pre + spec_u64_to_le_bytes(x) + rest;
    assert(b.subrange(pre.len() as int, pre.len() + 8 as int) =~= spec_u64_to_le_bytes(x));
}

/// Reading a length-prefixed byte string just past a known prefix yields the
/// written bytes.
pub proof fn lemma_parse_lp_bytes_emitted(pre: Seq<u8>, d: Seq<u8>, rest: Seq<u8>)
    requires
        d.len() <= u64::MAX,
    ensures
        spec_parse_lp_bytes(pre + lp_bytes(d) + rest, pre.len() as int) == Some(
            (d, pre.len() + 8 + d.len() as int),
        ),
{
    lemma_auto_spec_u64_to_from_le_bytes();
    let b = pre + lp_bytes(d) + rest;
    assert(pre + lp_bytes(d) + rest =~= pre + spec_u64_to_le_bytes(d.len() as u64) + (d + rest));
    lemma_parse_u64_emitted(pre, d.len() as u64, d + rest);
    let q = pre.len() + 8;
    assert(b.subrange(q as int, q + d.len() as int) =~= d);
}

/// Reading a length-prefixed string just past a known prefix yields the
/// written characters.
pub proof fn lemma_parse_lp_string_emitted(pre: Seq<u8>, s: Seq<char>, rest: Seq<u8>)
    requires
        encode_utf8(s).len() <= u64::MAX,
    ensures
        spec_parse_lp_string(pre + lp_string(s) + rest, pre.len() as int) == Some(
            (s, pre.len() + 8 + encode_utf8(s).len() as int),
        ),
{
    lemma_parse_lp_bytes_emitted(pre, encode_utf8(s), rest);
    vstd::utf8::encode_utf8_valid_utf8(s);
    vstd::utf8::encode_utf8_decode_utf8(s);
}

} // verus!
