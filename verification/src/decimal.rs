//! Decimal numerals: the mapping between unsigned integers and their decimal
//! digit strings, as bytes (for the structured-text wire format) and as
//! characters (for human-readable labels).

use vstd::prelude::*;

verus! {

/// The ASCII byte for decimal digit `d` (`d` is taken modulo 10).
pub open spec fn digit_byte(d: nat) -> u8 {
    (48 + (d % 10)) as u8
}

/// The decimal numeral of `n`, most significant digit first, as ASCII bytes.
pub open spec fn dec_bytes(n: nat) -> Seq<u8>
    decreases n,
{
    if n < 10 {
        seq![digit_byte(n)]
    } else {
        dec_bytes(n / 10).push(digit_byte(n % 10))
    }
}

/// Whether `b` is an ASCII decimal digit.
pub open spec fn is_digit(b: u8) -> bool {
    48 <= b <= 57
}

/// The numeric value of the ASCII digit `b`.
pub open spec fn digit_val(b: u8) -> nat {
    (b - 48) as nat
}

/// The value of a digit string, most significant digit first.
pub open spec fn dec_value(s: Seq<u8>) -> nat
    decreases s.len(),
{
    if s.len() == 0 {
        0
    } else {
        dec_value(s.drop_last()) * 10 + digit_val(s.last())
    }
}

/// Every byte of a decimal numeral is a digit, and there is at least one.
pub proof fn lemma_dec_bytes_digits(n: nat)
    ensures
        dec_bytes(n).len() >= 1,
        forall|k: int| 0 <= k < dec_bytes(n).len() ==> is_digit(#[trigger] dec_bytes(n)[k]),
    decreases n,
{
    if n >= 10 {
        lemma_dec_bytes_digits(n / 10);
        assert forall|k: int| 0 <= k < dec_bytes(n).len() implies is_digit(
            #[trigger] dec_bytes(n)[k],
        ) by {
            if k < dec_bytes(n / 10).len() {
                assert(dec_bytes(n)[k] == dec_bytes(n / 10)[k]);
            }
        }
    }
}

/// Reading a numeral back gives the number it was written from.
pub proof fn lemma_dec_value_of_dec_bytes(n: nat)
    ensures
        dec_value(dec_bytes(n)) == n,
    decreases n,
{
    reveal_with_fuel(dec_value, 3);
    assert(digit_val(digit_byte(n % 10)) == n % 10);
    if n < 10 {
        assert(dec_bytes(n).drop_last() =~= Seq::<u8>::empty());
        assert(n % 10 == n);
    } else {
        lemma_dec_value_of_dec_bytes(n / 10);
        assert(dec_bytes(n).drop_last() =~= dec_bytes(n / 10));
        assert(n / 10 * 10 + n % 10 == n);
    }
}

/// Appends the decimal numeral of `n` to `out`.
pub fn emit_dec_u64(n: u64, out: &mut Vec<u8>)
    ensures
        final(out)@ == old(out)@ + dec_bytes(n as nat),
    decreases n,
{
    if n >= 10 {
        emit_dec_u64(n / 10, out);
    }
    out.push(48 + (n % 10) as u8);
    assert(out@ =~= old(out)@ + dec_bytes(n as nat));
}

/// The first position at or after `p` in `b` that does not hold a digit.
pub open spec fn digit_run_end(b: Seq<u8>, p: int) -> int
    decreases b.len() - p,
{
    if 0 <= p < b.len() && is_digit(b[p]) {
        digit_run_end(b, p + 1)
    } else {
        p
    }
}

/// Parsing a decimal numeral at position `p` of `b`: the value of the maximal
/// digit run starting there, and the position after it; nothing when the run
/// is empty or its value exceeds `u64::MAX`.
pub open spec fn spec_parse_dec(b: Seq<u8>, p: int) -> Option<(u64, int)> {
    let e = digit_run_end(b, p);
    if e == p {
        None
    } else if dec_value(b.subrange(p, e)) <= u64::MAX {
        Some((dec_value(b.subrange(p, e)) as u64, e))
    } else {
        None
    }
}

/// A digit run ends exactly where the digits stop.
pub proof fn lemma_digit_run_end(b: Seq<u8>, p: int, e: int)
    requires
        0 <= p <= e <= b.len(),
        forall|k: int| p <= k < e ==> is_digit(#[trigger] b[k]),
        e == b.len() || !is_digit(b[e]),
    ensures
        digit_run_end(b, p) == e,
    decreases e - p,
{
    if p < e {
        lemma_digit_run_end(b, p + 1, e);
    }
}

/// A digit run never ends before its starting position.
pub proof fn lemma_digit_run_end_ge(b: Seq<u8>, p: int)
    ensures
        digit_run_end(b, p) >= p,
        p <= b.len() ==> digit_run_end(b, p) <= b.len(),
    decreases b.len() - p,
{
    if 0 <= p < b.len() && is_digit(b[p]) {
        lemma_digit_run_end_ge(b, p + 1);
    }
}

/// Reading a numeral just past a known prefix yields the written value, as
/// long as what follows does not begin with a digit.
pub proof fn lemma_parse_dec_emitted(pre: Seq<u8>, n: u64, rest: Seq<u8>)
    requires
        rest.len() == 0 || !is_digit(rest[0]),
    ensures
        spec_parse_dec(pre + dec_bytes(n as nat) + rest, pre.len() as int) == Some(
            (n, pre.len() + dec_bytes(n as nat).len() as int),
        ),
{
    let d = dec_bytes(n as nat);
    let b = pre + d + rest;
    let e = pre.len() + d.len() as int;
    lemma_dec_bytes_digits(n as nat);
    assert forall|k: int| pre.len() <= k < e implies is_digit(#[trigger] b[k]) by {
        assert(b[k] == d[k - pre.len()]);
    }
    if e < b.len() {
        assert(b[e] == rest[0]);
    }
    lemma_digit_run_end(b, pre.len() as int, e);
    assert(b.subrange(pre.len() as int, e) =~= d);
    lemma_dec_value_of_dec_bytes(n as nat);
}

/// Parses a decimal numeral at `pos`, exactly as [`spec_parse_dec`] reads it.
pub fn parse_dec_u64(b: &Vec<u8>, pos: usize) -> (r: Option<(u64, usize)>)
    requires
        pos <= b@.len(),
    ensures
        match r {
            Some((v, e)) => spec_parse_dec(b@, pos as int) == Some((v, e as int)) && pos <= e
                <= b@.len(),
            None => spec_parse_dec(b@, pos as int) is None,
        },
{
    let ghost gb = b@;
    let mut i: usize = pos;
    let mut acc: u64 = 0;
    let mut overflow: bool = false;
    loop
        invariant
            pos <= i <= gb.len(),
            gb == b@,
            forall|k: int| pos <= k < i ==> is_digit(#[trigger] gb[k]),
            digit_run_end(gb, pos as int) == digit_run_end(gb, i as int),
            !overflow ==> acc == dec_value(gb.subrange(pos as int, i as int)),
            overflow ==> dec_value(gb.subrange(pos as int, i as int)) > u64::MAX,
        ensures
            pos <= i <= gb.len(),
            i == gb.len() || !is_digit(gb[i as int]),
        decreases gb.len() - i,
    {
        if i == b.len() || !(48 <= b[i] && b[i] <= 57) {
            break;
        }
        let d: u64 = (b[i] - 48) as u64;
        let ghost pre = gb.subrange(pos as int, i as int);
        let ghost cur = gb.subrange(pos as int, i as int + 1);
        proof {
            assert(cur.drop_last() =~= pre);
        }
        if !overflow {
            if acc > (u64::MAX - d) / 10 {
                proof {
                    assert(dec_value(cur) == dec_value(pre) * 10 + digit_val(gb[i as int]));
                    assert(acc * 10 + d > u64::MAX) by (nonlinear_arith)
                        requires
                            acc > (u64::MAX - d) / 10,
                            d < 10,
                    ;
                }
                overflow = true;
            } else {
                proof {
                    assert(acc * 10 + d <= u64::MAX) by (nonlinear_arith)
                        requires
                            acc <= (u64::MAX - d) / 10,
                            d < 10,
                    ;
                }
                acc = acc * 10 + d;
            }
        } else {
            proof {
                assert(dec_value(pre) * 10 >= dec_value(pre)) by (nonlinear_arith);
                assert(dec_value(cur) >= dec_value(pre));
            }
        }
        i = i + 1;
    }
    proof {
        assert(digit_run_end(gb, i as int) == i);
    }
    if i == pos {
        None
    } else if overflow {
        None
    } else {
        Some((acc, i))
    }
}

/// The decimal numeral of `n` as characters.
pub open spec fn dec_chars(n: nat) -> Seq<char>
    decreases n,
{
    if n < 10 {
        seq![digit_char(n)]
    } else {
        dec_chars(n / 10).push(digit_char(n % 10))
    }
}

/// The character for decimal digit `d` (`d` is taken modulo 10).
pub open spec fn digit_char(d: nat) -> char {
    let m = d % 10;
    if m == 0 {
        '0'
    } else if m == 1 {
        '1'
    } else if m == 2 {
        '2'
    } else if m == 3 {
        '3'
    } else if m == 4 {
        '4'
    } else if m == 5 {
        '5'
    } else if m == 6 {
        '6'
    } else if m == 7 {
        '7'
    } else if m == 8 {
        '8'
    } else {
        '9'
    }
}

/// Appends one decimal digit to `out`.
fn append_digit_char(d: u64, out: &mut String)
    requires
        d < 10,
    ensures
        final(out)@ == old(out)@ + seq![digit_char(d as nat)],
{
    proof {
        reveal_strlit("0");
        reveal_strlit("1");
        reveal_strlit("2");
        reveal_strlit("3");
        reveal_strlit("4");
        reveal_strlit("5");
        reveal_strlit("6");
        reveal_strlit("7");
        reveal_strlit("8");
        reveal_strlit("9");
    }
    if d == 0 {
        out.append("0");
    } else if d == 1 {
        out.append("1");
    } else if d == 2 {
        out.append("2");
    } else if d == 3 {
        out.append("3");
    } else if d == 4 {
        out.append("4");
    } else if d == 5 {
        out.append("5");
    } else if d == 6 {
        out.append("6");
    } else if d == 7 {
        out.append("7");
    } else if d == 8 {
        out.append("8");
    } else {
        out.append("9");
    }
}

/// Appends the decimal numeral of `n` to `out`, as characters.
pub fn append_dec_chars(n: u64, out: &mut String)
    ensures
        final(out)@ == old(out)@ + dec_chars(n as nat),
    decreases n,
{
    if n >= 10 {
        append_dec_chars(n / 10, out);
    }
    append_digit_char(n % 10, out);
    assert(out@ =~= old(out)@ + dec_chars(n as nat));
}

} // verus!
