//! Structured-text wire primitives.
//!
//! The text stream is a compact, JSON-shaped grammar over bytes: objects and
//! arrays written without spacing, strings quoted with `"` and escaped with
//! `\` (exactly `\"` and `\\`; all other bytes pass through verbatim), and
//! integers as decimal numerals. Emitters append to an output buffer; each
//! parser is specified exactly by its `spec_parse_*` function.

use vstd::prelude::*;
use vstd::utf8::{valid_utf8, decode_utf8, encode_utf8};
use crate::decimal::{dec_bytes, is_digit, spec_parse_dec, parse_dec_u64, lemma_dec_bytes_digits,
    emit_dec_u64};
use crate::wire::string_from_utf8;

verus! {

/// The escaped form of one byte inside a quoted string.
pub open spec fn esc_byte(x: u8) -> Seq<u8> {
    if x == 34 || x == 92 {
        seq![92u8, x]
    } else {
        seq![x]
    }
}

/// The escaped form of a byte string.
pub open spec fn esc_bytes(d: Seq<u8>) -> Seq<u8>
    decreases d.len(),
{
    if d.len() == 0 {
        Seq::empty()
    } else {
        esc_byte(d[0]) + esc_bytes(d.drop_first())
    }
}

/// Escaping distributes over appending one byte at the end.
pub proof fn lemma_esc_bytes_push(d: Seq<u8>, x: u8)
    ensures
        esc_bytes(d.push(x)) == esc_bytes(d) + esc_byte(x),
    decreases d.len(),
{
    reveal_with_fuel(esc_bytes, 2);
    if d.len() == 0 {
        assert(d.push(x).drop_first() =~= Seq::<u8>::empty());
        assert(esc_bytes(d.push(x)) =~= esc_byte(x));
        assert(esc_bytes(d) + esc_byte(x) =~= esc_byte(x));
    } else {
        lemma_esc_bytes_push(d.drop_first(), x);
        assert(d.push(x).drop_first() =~= d.drop_first().push(x));
        assert(esc_bytes(d.push(x)) =~= esc_bytes(d) + esc_byte(x));
    }
}

/// A byte string as a quoted, escaped text token.
pub open spec fn quoted_bytes(d: Seq<u8>) -> Seq<u8> {
    seq![34u8] + esc_bytes(d) + seq![34u8]
}

/// A character string as a quoted, escaped text token over its UTF-8 bytes.
pub open spec fn quoted_string(s: Seq<char>) -> Seq<u8> {
    quoted_bytes(encode_utf8(s))
}

/// Reads the contents of a quoted token, starting just after the opening
/// quote; consumes through the closing quote and yields the unescaped bytes.
pub open spec fn spec_parse_qcontent(b: Seq<u8>, p: int) -> Option<(Seq<u8>, int)>
    decreases b.len() - p,
{
    if !(0 <= p < b.len()) {
        None
    } else if b[p] == 34 {
        Some((Seq::empty(), p + 1))
    } else if b[p] == 92 {
        if p + 1 < b.len() && (b[p + 1] == 34 || b[p + 1] == 92) {
            match spec_parse_qcontent(b, p + 2) {
                None => None,
                Some((d, q)) => Some((seq![b[p + 1]] + d, q)),
            }
        } else {
            None
        }
    } else {
        match spec_parse_qcontent(b, p + 1) {
            None => None,
            Some((d, q)) => Some((seq![b[p]] + d, q)),
        }
    }
}

/// Reads a whole quoted token: the opening quote, the contents, the closing
/// quote.
pub open spec fn spec_parse_quoted_bytes(b: Seq<u8>, p: int) -> Option<(Seq<u8>, int)> {
    if 0 <= p < b.len() && b[p] == 34 {
        spec_parse_qcontent(b, p + 1)
    } else {
        None
    }
}

/// Reads a quoted token holding UTF-8 text.
pub open spec fn spec_parse_quoted_string(b: Seq<u8>, p: int) -> Option<(Seq<char>, int)> {
    match spec_parse_quoted_bytes(b, p) {
        None => None,
        Some((d, q)) => {
            if valid_utf8(d) {
                Some((decode_utf8(d), q))
            } else {
                None
            }
        },
    }
}

/// Reading quoted contents just past a known prefix yields the escaped bytes.
pub proof fn lemma_parse_qcontent_emitted(pre: Seq<u8>, d: Seq<u8>, rest: Seq<u8>)
    ensures
        spec_parse_qcontent(pre + esc_bytes(d) + seq![34u8] + rest, pre.len() as int) == Some(
            (d, pre.len() + esc_bytes(d).len() + 1 as int),
        ),
    decreases d.len(),
{
    let b = pre + esc_bytes(d) + seq![34u8] + rest;
    if d.len() == 0 {
        assert(b[pre.len() as int] == 34);
    } else {
        let h = esc_byte(d[0]);
        let pre2 = pre + h;
        assert(b =~= pre2 + esc_bytes(d.drop_first()) + seq![34u8] + rest);
        lemma_parse_qcontent_emitted(pre2, d.drop_first(), rest);
        if d[0] == 34 || d[0] == 92 {
            assert(b[pre.len() as int] == 92);
            assert(b[pre.len() + 1 as int] == d[0]);
            let r = spec_parse_qcontent(b, pre.len() + 2 as int);
            assert(r == Some((d.drop_first(), pre2.len() + esc_bytes(d.drop_first()).len() + 1 as int)));
            assert(seq![d[0]] + d.drop_first() =~= d);
            assert(esc_bytes(d).len() == 2 + esc_bytes(d.drop_first()).len());
        } else {
            assert(b[pre.len() as int] == d[0]);
            assert(b[pre.len() as int] != 34 && b[pre.len() as int] != 92);
            assert(seq![d[0]] + d.drop_first() =~= d);
            assert(esc_bytes(d).len() == 1 + esc_bytes(d.drop_first()).len());
        }
    }
}

/// Reading a quoted token just past a known prefix yields the written bytes.
pub proof fn lemma_parse_quoted_bytes_emitted(pre: Seq<u8>, d: Seq<u8>, rest: Seq<u8>)
    ensures
        spec_parse_quoted_bytes(pre + quoted_bytes(d) + rest, pre.len() as int) == Some(
            (d, pre.len() + quoted_bytes(d).len() as int),
        ),
{
    let b = pre + quoted_bytes(d) + rest;
    assert(b[pre.len() as int] == 34);
    let pre2 = pre + seq![34u8];
    assert(b =~= pre2 + esc_bytes(d) + seq![34u8] + rest);
    lemma_parse_qcontent_emitted(pre2, d, rest);
}

/// Reading a quoted token just past a known prefix yields the written string.
pub proof fn lemma_parse_quoted_string_emitted(pre: Seq<u8>, s: Seq<char>, rest: Seq<u8>)
    ensures
        spec_parse_quoted_string(pre + quoted_string(s) + rest, pre.len() as int) == Some(
            (s, pre.len() + quoted_string(s).len() as int),
        ),
{
    lemma_parse_quoted_bytes_emitted(pre, encode_utf8(s), rest);
    vstd::utf8::encode_utf8_valid_utf8(s);
    vstd::utf8::encode_utf8_decode_utf8(s);
}

/// Appends a byte string as a quoted, escaped token.
pub fn emit_quoted_bytes(d: &Vec<u8>, out: &mut Vec<u8>)
    ensures
        final(out)@ == old(out)@ + quoted_bytes(d@),
{
    out.push(34);
    let ghost base = out@;
    let mut i: usize = 0;
    while i < d.len()
        invariant
            i <= d@.len(),
            base == old(out)@ + seq![34u8],
            out@ == base + esc_bytes(d@.take(i as int)),
        decreases d@.len() - i,
    {
        let x = d[i];
        if x == 34 || x == 92 {
            out.push(92);
        }
        out.push(x);
        proof {
            lemma_esc_bytes_push(d@.take(i as int), x);
            assert(d@.take(i as int + 1) =~= d@.take(i as int).push(x));
            assert(out@ =~= base + esc_bytes(d@.take(i as int + 1)));
        }
        i = i + 1;
    }
    out.push(34);
    proof {
        assert(d@.take(d@.len() as int) =~= d@);
        assert(out@ =~= old(out)@ + quoted_bytes(d@));
    }
}

/// Appends a character string as a quoted, escaped token.
pub fn emit_quoted_string(s: &str, out: &mut Vec<u8>)
    ensures
        final(out)@ == old(out)@ + quoted_string(s@),
{
    let bytes = s.as_bytes_vec();
    emit_quoted_bytes(&bytes, out);
}

/// Reads a quoted token, exactly as [`spec_parse_quoted_bytes`].
pub fn parse_quoted_bytes(b: &Vec<u8>, pos: usize) -> (r: Option<(Vec<u8>, usize)>)
    ensures
        match r {
            Some((d, e)) => spec_parse_quoted_bytes(b@, pos as int) == Some((d@, e as int))
                && pos <= e <= b@.len(),
            None => spec_parse_quoted_bytes(b@, pos as int) is None,
        },
{
    let ghost gb = b@;
    if !(pos < b.len() && b[pos] == 34) {
        return None;
    }
    let mut acc: Vec<u8> = Vec::new();
    let mut i: usize = pos + 1;
    loop
        invariant
            pos + 1 <= i <= gb.len(),
            gb == b@,
            pos < gb.len() && gb[pos as int] == 34,
            spec_parse_qcontent(gb, pos + 1 as int) == match spec_parse_qcontent(gb, i as int) {
                None => None::<(Seq<u8>, int)>,
                Some((d, q)) => Some((acc@ + d, q)),
            },
        decreases gb.len() - i,
    {
        if i == b.len() {
            return None;
        }
        let x = b[i];
        if x == 34 {
            proof {
                assert(spec_parse_qcontent(gb, i as int) == Some((Seq::<u8>::empty(), i + 1 as int)));
                assert(acc@ + Seq::<u8>::empty() =~= acc@);
                assert(spec_parse_qcontent(gb, pos + 1 as int) == Some((acc@, i + 1 as int)));
                assert(spec_parse_quoted_bytes(gb, pos as int) == Some((acc@, i + 1 as int)));
            }
            return Some((acc, i + 1));
        } else if x == 92 {
            if i + 1 < b.len() && (b[i + 1] == 34 || b[i + 1] == 92) {
                let y = b[i + 1];
                proof {
                    if spec_parse_qcontent(gb, i + 2 as int) is Some {
                        let (d2, q2) = spec_parse_qcontent(gb, i + 2 as int).unwrap();
                        assert(acc@ + (seq![y] + d2) =~= acc@.push(y) + d2);
                    }
                }
                acc.push(y);
                i = i + 2;
            } else {
                return None;
            }
        } else {
            proof {
                if spec_parse_qcontent(gb, i + 1 as int) is Some {
                    let (d2, q2) = spec_parse_qcontent(gb, i + 1 as int).unwrap();
                    assert(acc@ + (seq![x] + d2) =~= acc@.push(x) + d2);
                }
            }
            acc.push(x);
            i = i + 1;
        }
    }
}

/// Reads a quoted UTF-8 string token, exactly as [`spec_parse_quoted_string`].
pub fn parse_quoted_string(b: &Vec<u8>, pos: usize) -> (r: Option<(String, usize)>)
    ensures
        match r {
            Some((s, e)) => spec_parse_quoted_string(b@, pos as int) == Some((s@, e as int))
                && pos <= e <= b@.len(),
            None => spec_parse_quoted_string(b@, pos as int) is None,
        },
{
    match parse_quoted_bytes(b, pos) {
        None => None,
        Some((d, e)) => {
            match string_from_utf8(d) {
                None => None,
                Some(s) => {
                    proof {
                        vstd::utf8::encode_utf8_decode_utf8(s@);
                    }
                    Some((s, e))
                },
            }
        },
    }
}

/// A literal grammar marker: its UTF-8 bytes.
pub closed spec fn lit(s: Seq<char>) -> Seq<u8> {
    encode_utf8(s)
}

/// Reads an expected literal marker: the position after it when the bytes at
/// `p` are exactly `l`, nothing otherwise.
pub open spec fn spec_expect(b: Seq<u8>, p: int, l: Seq<u8>) -> Option<int> {
    if 0 <= p && p + l.len() <= b.len() && b.subrange(p, p + l.len() as int) == l {
        Some(p + l.len() as int)
    } else {
        None
    }
}

/// An emitted literal is read back as itself.
pub proof fn lemma_expect_emitted(pre: Seq<u8>, l: Seq<u8>, rest: Seq<u8>)
    ensures
        spec_expect(pre + l + rest, pre.len() as int, l) == Some((pre.len() + l.len()) as int),
{
    let b = pre + l + rest;
    assert(b.subrange(pre.len() as int, pre.len() + l.len() as int) =~= l);
}

/// Appends a literal marker.
pub fn emit_lit(s: &str, out: &mut Vec<u8>)
    ensures
        final(out)@ == old(out)@ + lit(s@),
{
    let mut bytes = s.as_bytes_vec();
    out.append(&mut bytes);
}

/// Reads an expected literal marker, exactly as [`spec_expect`].
pub fn expect_lit(b: &Vec<u8>, pos: usize, s: &str) -> (r: Option<usize>)
    ensures
        match r {
            Some(e) => spec_expect(b@, pos as int, lit(s@)) == Some(e as int),
            None => spec_expect(b@, pos as int, lit(s@)) is None,
        },
{
    let l = s.as_bytes_vec();
    if pos > b.len() || b.len() - pos < l.len() {
        return None;
    }
    let mut k: usize = 0;
    while k < l.len()
        invariant
            0 <= k <= l@.len(),
            pos + l@.len() <= b@.len(),
            b@.len() <= usize::MAX,
            l@ == lit(s@),
            forall|j: int| 0 <= j < k ==> b@[pos + j] == l@[j],
        decreases l@.len() - k,
    {
        assert(pos + k < b@.len());
        if b[pos + k] != l[k] {
            proof {
                assert(b@.subrange(pos as int, pos + l@.len() as int)[k as int] != l@[k as int]);
            }
            return None;
        }
        k = k + 1;
    }
    proof {
        assert(b@.subrange(pos as int, pos + l@.len() as int) =~= lit(s@));
    }
    Some(pos + l.len())
}

/// The comma-separated decimal items of a byte array token.
pub open spec fn dec_u8_items(d: Seq<u8>) -> Seq<u8>
    decreases d.len(),
{
    if d.len() == 0 {
        Seq::empty()
    } else if d.len() == 1 {
        dec_bytes(d[0] as nat)
    } else {
        dec_bytes(d[0] as nat) + seq![44u8] + dec_u8_items(d.drop_first())
    }
}

/// A byte array as a text token: `[` items `]`.
pub open spec fn dec_u8_array(d: Seq<u8>) -> Seq<u8> {
    seq![91u8] + dec_u8_items(d) + seq![93u8]
}

/// The items grow at the back by a comma and one more numeral.
pub proof fn lemma_dec_u8_items_push(d: Seq<u8>, x: u8)
    requires
        d.len() >= 1,
    ensures
        dec_u8_items(d.push(x)) == dec_u8_items(d) + seq![44u8] + dec_bytes(x as nat),
    decreases d.len(),
{
    reveal_with_fuel(dec_u8_items, 3);
    if d.len() == 1 {
        assert(d.push(x).drop_first() =~= seq![x]);
        assert(dec_u8_items(d.push(x)) =~= dec_u8_items(d) + seq![44u8] + dec_bytes(x as nat));
    } else {
        lemma_dec_u8_items_push(d.drop_first(), x);
        assert(d.push(x).drop_first() =~= d.drop_first().push(x));
        assert(dec_u8_items(d.push(x)) =~= dec_u8_items(d) + seq![44u8] + dec_bytes(x as nat));
    }
}

/// Reads the items of a byte array token, starting on the first numeral;
/// consumes through the closing bracket.
pub open spec fn spec_parse_u8_items(b: Seq<u8>, p: int) -> Option<(Seq<u8>, int)>
    decreases b.len() - p,
    via spec_parse_u8_items_dec
{
    match spec_parse_dec(b, p) {
        None => None,
        Some((v, q)) => {
            if v > 255 {
                None
            } else if 0 <= q < b.len() && b[q] == 44 {
                match spec_parse_u8_items(b, q + 1) {
                    None => None,
                    Some((d, e)) => Some((seq![v as u8] + d, e)),
                }
            } else if 0 <= q < b.len() && b[q] == 93 {
                Some((seq![v as u8], q + 1))
            } else {
                None
            }
        },
    }
}

#[via_fn]
proof fn spec_parse_u8_items_dec(b: Seq<u8>, p: int) {
    crate::decimal::lemma_digit_run_end_ge(b, p);
}

/// Reads a whole byte array token: `[`, the items, `]`.
pub open spec fn spec_parse_u8_array(b: Seq<u8>, p: int) -> Option<(Seq<u8>, int)> {
    if 0 <= p < b.len() && b[p] == 91 {
        if p + 1 < b.len() && b[p + 1] == 93 {
            Some((Seq::empty(), p + 2))
        } else {
            spec_parse_u8_items(b, p + 1)
        }
    } else {
        None
    }
}

/// Reading array items just past a known prefix yields the written bytes.
pub proof fn lemma_parse_u8_items_emitted(pre: Seq<u8>, d: Seq<u8>, rest: Seq<u8>)
    requires
        d.len() >= 1,
    ensures
        spec_parse_u8_items(pre + dec_u8_items(d) + seq![93u8] + rest, pre.len() as int) == Some(
            (d, pre.len() + dec_u8_items(d).len() + 1 as int),
        ),
    decreases d.len(),
{
    let b = pre + dec_u8_items(d) + seq![93u8] + rest;
    let n0 = dec_bytes(d[0] as nat);
    crate::decimal::lemma_dec_bytes_digits(d[0] as nat);
    if d.len() == 1 {
        assert(b =~= pre + n0 + (seq![93u8] + rest));
        crate::decimal::lemma_parse_dec_emitted(pre, d[0] as u64, seq![93u8] + rest);
        let q = pre.len() + n0.len() as int;
        assert(b[q] == 93);
        assert(seq![d[0]] =~= d);
    } else {
        let pre2 = pre + n0 + seq![44u8];
        assert(b =~= pre2 + dec_u8_items(d.drop_first()) + seq![93u8] + rest);
        lemma_parse_u8_items_emitted(pre2, d.drop_first(), rest);
        assert(b =~= pre + n0 + (seq![44u8] + dec_u8_items(d.drop_first()) + seq![93u8] + rest));
        crate::decimal::lemma_parse_dec_emitted(
            pre,
            d[0] as u64,
            seq![44u8] + dec_u8_items(d.drop_first()) + seq![93u8] + rest,
        );
        let q = pre.len() + n0.len() as int;
        assert(b[q] == 44);
        assert(seq![d[0]] + d.drop_first() =~= d);
    }
}

/// Reading a byte array token just past a known prefix yields the written
/// bytes.
pub proof fn lemma_parse_u8_array_emitted(pre: Seq<u8>, d: Seq<u8>, rest: Seq<u8>)
    ensures
        spec_parse_u8_array(pre + dec_u8_array(d) + rest, pre.len() as int) == Some(
            (d, pre.len() + dec_u8_array(d).len() as int),
        ),
{
    let b = pre + dec_u8_array(d) + rest;
    assert(b[pre.len() as int] == 91);
    if d.len() == 0 {
        assert(b[pre.len() + 1 as int] == 93);
        assert(dec_u8_array(d).len() == 2);
    } else {
        let pre2 = pre + seq![91u8];
        assert(b =~= pre2 + dec_u8_items(d) + seq![93u8] + rest);
        lemma_parse_u8_items_emitted(pre2, d, rest);
        assert(b[pre.len() + 1 as int] == dec_u8_items(d)[0]);
        crate::decimal::lemma_dec_bytes_digits(d[0] as nat);
        if d.len() == 1 {
            assert(dec_u8_items(d)[0] == dec_bytes(d[0] as nat)[0]);
        } else {
            assert(dec_u8_items(d)[0] == dec_bytes(d[0] as nat)[0]);
        }
        assert(b[pre.len() + 1 as int] != 93);
    }
}

/// Appends a byte array as a text token.
pub fn emit_u8_array(d: &Vec<u8>, out: &mut Vec<u8>)
    ensures
        final(out)@ == old(out)@ + dec_u8_array(d@),
{
    out.push(91);
    let ghost base = out@;
    let mut i: usize = 0;
    while i < d.len()
        invariant
            i <= d@.len(),
            base == old(out)@ + seq![91u8],
            out@ == base + dec_u8_items(d@.take(i as int)),
        decreases d@.len() - i,
    {
        if i > 0 {
            out.push(44);
        }
        emit_dec_u64(d[i] as u64, out);
        proof {
            let t = d@.take(i as int);
            if i > 0 {
                lemma_dec_u8_items_push(t, d@[i as int]);
            } else {
                assert(t.len() == 0);
            }
            assert(d@.take(i as int + 1) =~= t.push(d@[i as int]));
            assert(out@ =~= base + dec_u8_items(d@.take(i as int + 1)));
        }
        i = i + 1;
    }
    out.push(93);
    proof {
        assert(d@.take(d@.len() as int) =~= d@);
        assert(out@ =~= old(out)@ + dec_u8_array(d@));
    }
}

/// Reads a byte array token, exactly as [`spec_parse_u8_array`].
pub fn parse_u8_array(b: &Vec<u8>, pos: usize) -> (r: Option<(Vec<u8>, usize)>)
    requires
        pos <= b@.len(),
    ensures
        match r {
            Some((d, e)) => spec_parse_u8_array(b@, pos as int) == Some((d@, e as int)) && pos <= e
                <= b@.len(),
            None => spec_parse_u8_array(b@, pos as int) is None,
        },
{
    let ghost gb = b@;
    if !(pos < b.len() && b[pos] == 91) {
        return None;
    }
    if pos + 1 < b.len() && b[pos + 1] == 93 {
        return Some((Vec::new(), pos + 2));
    }
    let mut acc: Vec<u8> = Vec::new();
    let mut i: usize = pos + 1;
    loop
        invariant
            pos + 1 <= i <= gb.len(),
            gb == b@,
            pos < gb.len() && gb[pos as int] == 91,
            !(pos + 1 < gb.len() && gb[pos + 1 as int] == 93),
            spec_parse_u8_items(gb, pos + 1 as int) == match spec_parse_u8_items(gb, i as int) {
                None => None::<(Seq<u8>, int)>,
                Some((d, q)) => Some((acc@ + d, q)),
            },
        decreases gb.len() - i,
    {
        match crate::decimal::parse_dec_u64(b, i) {
            None => {
                return None;
            },
            Some((v, q)) => {
                proof {
                    crate::decimal::lemma_digit_run_end_ge(gb, i as int);
                }
                if v > 255 {
                    return None;
                }
                if q < b.len() && b[q] == 44 {
                    proof {
                        if spec_parse_u8_items(gb, q + 1 as int) is Some {
                            let (d2, e2) = spec_parse_u8_items(gb, q + 1 as int).unwrap();
                            assert(acc@ + (seq![v as u8] + d2) =~= acc@.push(v as u8) + d2);
                        }
                    }
                    acc.push(v as u8);
                    i = q + 1;
                } else if q < b.len() && b[q] == 93 {
                    proof {
                        assert(acc@ + seq![v as u8] =~= acc@.push(v as u8));
                    }
                    acc.push(v as u8);
                    return Some((acc, q + 1));
                } else {
                    return None;
                }
            },
        }
    }
}

/// Reading quoted contents always advances past at least the closing quote.
pub proof fn lemma_qcontent_advances(b: Seq<u8>, p: int)
    ensures
        spec_parse_qcontent(b, p) matches Some((d, q)) ==> q > p,
    decreases b.len() - p,
{
    if 0 <= p < b.len() {
        if b[p] == 34 {
        } else if b[p] == 92 {
            if p + 1 < b.len() && (b[p + 1] == 34 || b[p + 1] == 92) {
                lemma_qcontent_advances(b, p + 2);
            }
        } else {
            lemma_qcontent_advances(b, p + 1);
        }
    }
}

/// Reading a quoted token always advances.
pub proof fn lemma_quoted_string_advances(b: Seq<u8>, p: int)
    ensures
        spec_parse_quoted_string(b, p) matches Some((s, q)) ==> q > p,
{
    lemma_qcontent_advances(b, p + 1);
}

/// Reading a signed numeral always advances.
pub proof fn lemma_i32_advances(b: Seq<u8>, p: int)
    ensures
        spec_parse_i32_text(b, p) matches Some((v, q)) ==> q > p,
{
    crate::decimal::lemma_digit_run_end_ge(b, p);
    crate::decimal::lemma_digit_run_end_ge(b, p + 1);
}

/// The element tag marker begins with an opening brace.
pub proof fn lemma_lit_type_head()
    ensures
        lit("{\"type\":"@).len() >= 1,
        lit("{\"type\":"@)[0] == 123u8,
{
    reveal_strlit("{\"type\":");
    let s = "{\"type\":"@;
    assert(s[0] == '{');
    assert(vstd::utf8::is_ascii_chars(s)) by {
        assert forall|i: int| 0 <= i < s.len() implies '\0' <= #[trigger] s[i] <= '\u{7f}' by {
            if i == 0 {
            } else if i == 1 {
            } else if i == 2 {
            } else if i == 3 {
            } else if i == 4 {
            } else if i == 5 {
            } else if i == 6 {
            } else {
                assert(i == 7);
            }
        }
    }
    vstd::utf8::is_ascii_chars_encode_utf8(s);
    assert(lit(s)[0] == s[0] as u8);
}

/// A signed 32-bit integer as a text numeral: a `-` sign when negative, then
/// the decimal numeral of the magnitude.
pub open spec fn text_i32(x: int) -> Seq<u8> {
    if x < 0 {
        seq![45u8] + dec_bytes((-x) as nat)
    } else {
        dec_bytes(x as nat)
    }
}

/// Reads a signed 32-bit integer text numeral.
pub open spec fn spec_parse_i32_text(b: Seq<u8>, p: int) -> Option<(i32, int)> {
    if 0 <= p < b.len() && b[p] == 45 {
        match spec_parse_dec(b, p + 1) {
            None => None,
            Some((v, q)) => {
                if v <= 2147483648 {
                    Some(((-(v as int)) as i32, q))
                } else {
                    None
                }
            },
        }
    } else {
        match spec_parse_dec(b, p) {
            None => None,
            Some((v, q)) => {
                if v <= 2147483647 {
                    Some((v as i32, q))
                } else {
                    None
                }
            },
        }
    }
}

/// Appends a signed 32-bit integer text numeral.
pub fn emit_i32_text(x: i32, out: &mut Vec<u8>)
    ensures
        final(out)@ == old(out)@ + text_i32(x as int),
{
    if x < 0 {
        out.push(45);
        let mag: u64 = (-(x as i64)) as u64;
        emit_dec_u64(mag, out);
        assert(out@ =~= old(out)@ + text_i32(x as int));
    } else {
        emit_dec_u64(x as u64, out);
    }
}

/// Reads a signed 32-bit integer text numeral, exactly as
/// [`spec_parse_i32_text`].
pub fn parse_i32_text(b: &Vec<u8>, pos: usize) -> (r: Option<(i32, usize)>)
    requires
        pos <= b@.len(),
    ensures
        match r {
            Some((x, e)) => spec_parse_i32_text(b@, pos as int) == Some((x, e as int)) && pos <= e
                <= b@.len(),
            None => spec_parse_i32_text(b@, pos as int) is None,
        },
{
    if pos < b.len() && b[pos] == 45 {
        match crate::decimal::parse_dec_u64(b, pos + 1) {
            None => None,
            Some((v, q)) => {
                if v <= 2147483648 {
                    let x: i32 = (-(v as i64)) as i32;
                    Some((x, q))
                } else {
                    None
                }
            },
        }
    } else {
        match crate::decimal::parse_dec_u64(b, pos) {
            None => None,
            Some((v, q)) => {
                if v <= 2147483647 {
                    Some((v as i32, q))
                } else {
                    None
                }
            },
        }
    }
}

/// Reading a signed numeral just past a known prefix yields the written
/// value, as long as what follows does not begin with a digit.
pub proof fn lemma_parse_i32_emitted(pre: Seq<u8>, x: i32, rest: Seq<u8>)
    requires
        rest.len() == 0 || !is_digit(rest[0]),
    ensures
        spec_parse_i32_text(pre + text_i32(x as int) + rest, pre.len() as int) == Some(
            (x, pre.len() + text_i32(x as int).len() as int),
        ),
{
    let b = pre + text_i32(x as int) + rest;
    if x < 0 {
        let mag = (-(x as int)) as nat;
        assert(b[pre.len() as int] == 45);
        let pre2 = pre + seq![45u8];
        assert(b =~= pre2 + dec_bytes(mag) + rest);
        crate::decimal::lemma_parse_dec_emitted(pre2, mag as u64, rest);
    } else {
        crate::decimal::lemma_parse_dec_emitted(pre, x as u64, rest);
        crate::decimal::lemma_dec_bytes_digits(x as nat);
        assert(b[pre.len() as int] == dec_bytes(x as nat)[0]);
        assert(b[pre.len() as int] != 45);
    }
}

} // verus!
