//! Generic entity serialization: one entity's attribute set to or from the
//! structured-text list form.
//!
//! The serializer walks the component catalog to discover which attribute
//! types the entity currently holds and snapshots each through the dynamic
//! attribute table; the stream is an object with one `comps` field holding a
//! list of elements, each independently tagged with its type's display name:
//! `{"comps":[{"type":NAME,"value":PAYLOAD},...]}`. The reader resolves each
//! tag in the catalog; an unregistered tag is always a hard decode error,
//! never a silent skip.

use vstd::prelude::*;
use crate::catalog::{Catalog, Descriptor, spec_find_name, spec_find_kind, lemma_find_name_props,
    lemma_find_kind_props, lemma_find_name_of_member, lemma_find_kind_of_member};
use crate::codec::DecodeError;
use crate::ecs::{CompKind, CompRecord, CompWire, Registry, EntId};
use crate::text::{lit, quoted_string, spec_expect, spec_parse_quoted_string, expect_lit, emit_lit,
    emit_quoted_string, parse_quoted_string, lemma_expect_emitted, lemma_parse_quoted_string_emitted,
    lemma_quoted_string_advances};

verus! {

/// One tagged list element: the display name under which the component's
/// type is registered, then its own text payload.
pub open spec fn ent_item(cat: Seq<Descriptor<CompKind>>, c: CompRecord) -> Seq<u8>
    recommends
        spec_find_kind(cat, c.kind()) is Some,
{
    lit("{\"type\":"@) + quoted_string(spec_find_kind(cat, c.kind()).unwrap().display_name@) + lit(
        ",\"value\":"@,
    ) + c.enc_text() + seq![125u8]
}

/// The comma-separated elements of an entity's attribute list.
pub open spec fn ent_items_enc(cat: Seq<Descriptor<CompKind>>, s: Seq<CompRecord>) -> Seq<u8>
    decreases s.len(),
{
    if s.len() == 0 {
        Seq::empty()
    } else if s.len() == 1 {
        ent_item(cat, s[0])
    } else {
        ent_item(cat, s[0]) + seq![44u8] + ent_items_enc(cat, s.skip(1))
    }
}

/// The whole text form of one entity's attribute set.
pub open spec fn spec_encode_entity(cat: Seq<Descriptor<CompKind>>, s: Seq<CompRecord>) -> Seq<
    u8,
> {
    lit("{\"comps\":["@) + ent_items_enc(cat, s) + seq![93u8, 125u8]
}

/// The wire contents of a sequence of components.
pub open spec fn wires_of(s: Seq<CompRecord>) -> Seq<CompWire> {
    Seq::new(s.len(), |i: int| s[i].wire())
}

/// The element list grows at the back by a comma and one more element.
pub proof fn lemma_ent_items_enc_push(
    cat: Seq<Descriptor<CompKind>>,
    s: Seq<CompRecord>,
    c: CompRecord,
)
    requires
        s.len() >= 1,
    ensures
        ent_items_enc(cat, s.push(c)) == ent_items_enc(cat, s) + seq![44u8] + ent_item(cat, c),
    decreases s.len(),
{
    reveal_with_fuel(ent_items_enc, 3);
    if s.len() == 1 {
        assert(s.push(c).skip(1) =~= seq![c]);
        assert(ent_items_enc(cat, s.push(c)) =~= ent_items_enc(cat, s) + seq![44u8] + ent_item(
            cat,
            c,
        ));
    } else {
        lemma_ent_items_enc_push(cat, s.skip(1), c);
        assert(s.push(c).skip(1) =~= s.skip(1).push(c));
        assert(ent_items_enc(cat, s.push(c)) =~= ent_items_enc(cat, s) + seq![44u8] + ent_item(
            cat,
            c,
        ));
    }
}

/// Reads the elements of an attribute list, starting on the first element;
/// consumes through the closing bracket. An unregistered tag is the
/// unknown-type error.
pub open spec fn spec_parse_ent_items(
    cat: Seq<Descriptor<CompKind>>,
    b: Seq<u8>,
    p: int,
) -> Result<(Seq<CompWire>, int), DecodeError>
    decreases b.len() - p,
    via spec_parse_ent_items_dec
{
    match spec_expect(b, p, lit("{\"type\":"@)) {
        None => Err(DecodeError::Malformed),
        Some(p1) => match spec_parse_quoted_string(b, p1) {
            None => Err(DecodeError::Malformed),
            Some((name, p2)) => match spec_find_name(cat, name) {
                None => Err(DecodeError::UnknownType),
                Some(d) => match spec_expect(b, p2, lit(",\"value\":"@)) {
                    None => Err(DecodeError::Malformed),
                    Some(p3) => match CompRecord::spec_parse_text(d.kind, b, p3) {
                        None => Err(DecodeError::Malformed),
                        Some((w, e)) => {
                            if !(0 <= e < b.len() && b[e] == 125) {
                                Err(DecodeError::Malformed)
                            } else if e + 1 < b.len() && b[e + 1] == 44 {
                                match spec_parse_ent_items(cat, b, e + 2) {
                                    Err(x) => Err(x),
                                    Ok((ws, q)) => Ok((seq![w] + ws, q)),
                                }
                            } else if e + 1 < b.len() && b[e + 1] == 93 {
                                Ok((seq![w], e + 2))
                            } else {
                                Err(DecodeError::Malformed)
                            }
                        },
                    },
                },
            },
        },
    }
}

#[via_fn]
proof fn spec_parse_ent_items_dec(cat: Seq<Descriptor<CompKind>>, b: Seq<u8>, p: int) {
    match spec_expect(b, p, lit("{\"type\":"@)) {
        None => {},
        Some(p1) => {
            lemma_quoted_string_advances(b, p1);
            match spec_parse_quoted_string(b, p1) {
                None => {},
                Some((name, p2)) => {
                    match spec_find_name(cat, name) {
                        None => {},
                        Some(d) => {
                            match spec_expect(b, p2, lit(",\"value\":"@)) {
                                None => {},
                                Some(p3) => {
                                    CompRecord::lemma_parse_text_advances(d.kind, b, p3);
                                },
                            }
                        },
                    }
                },
            }
        },
    }
}

/// Reads the whole text form of one entity's attribute set: the `comps`
/// field's list, spanning the entire buffer.
pub open spec fn spec_decode_entity(cat: Seq<Descriptor<CompKind>>, b: Seq<u8>) -> Result<
    Seq<CompWire>,
    DecodeError,
> {
    match spec_expect(b, 0, lit("{\"comps\":["@)) {
        None => Err(DecodeError::Malformed),
        Some(p) => {
            if 0 <= p < b.len() && b[p] == 93 {
                if p + 2 == b.len() && b[p + 1] == 125 {
                    Ok(Seq::empty())
                } else {
                    Err(DecodeError::Malformed)
                }
            } else {
                match spec_parse_ent_items(cat, b, p) {
                    Err(e) => Err(e),
                    Ok((ws, q)) => {
                        if q + 1 == b.len() && 0 <= q < b.len() && b[q] == 125 {
                            Ok(ws)
                        } else {
                            Err(DecodeError::Malformed)
                        }
                    },
                }
            }
        },
    }
}

/// The attributes an entity holds, one per registered descriptor, in catalog
/// order.
pub open spec fn present_comps(
    cat: Seq<Descriptor<CompKind>>,
    reg: Registry,
    e: int,
) -> Seq<CompRecord>
    decreases cat.len(),
{
    if cat.len() == 0 {
        Seq::empty()
    } else {
        let rest = present_comps(cat.skip(1), reg, e);
        match reg.comp_at(e, cat[0].kind) {
            Some(c) => {
                if reg.ent_alive(e) {
                    seq![c] + rest
                } else {
                    rest
                }
            },
            None => rest,
        }
    }
}

/// Serializes one entity's attribute set: the catalog is walked in
/// registration order, each attribute the entity holds is snapshotted
/// through the attribute table, and the snapshots are written as the tagged
/// list.
pub fn encode_entity(cat: &Catalog<CompKind>, reg: &Registry, ent: &EntId) -> (r: Vec<u8>)
    requires
        cat.wf(),
    ensures
        r@ == spec_encode_entity(cat.descs(), present_comps(cat.descs(), *reg, ent.0 as int)),
{
    let ghost cs = cat.descs();
    let ghost comps_all = present_comps(cs, *reg, ent.0 as int);
    let mut out: Vec<u8> = Vec::new();
    emit_lit("{\"comps\":[", &mut out);
    let ghost base = out@;
    let n = cat.len();
    proof {
        assert(cs.skip(0) =~= cs);
    }
    let mut i: usize = 0;
    let mut count: usize = 0;
    let ghost mut seen: Seq<CompRecord> = Seq::empty();
    while i < n
        invariant
            0 <= i <= n,
            n == cs.len(),
            cs == cat.descs(),
            cat.wf(),
            base == lit("{\"comps\":["@),
            count <= i,
            comps_all == seen + present_comps(cs.skip(i as int), *reg, ent.0 as int),
            count == seen.len(),
            out@ == base + ent_items_enc(cs, seen),
        decreases n - i,
    {
        let d = cat.at(i);
        proof {
            assert(cs.skip(i as int)[0] == cs[i as int]);
            assert(cs.skip(i as int).skip(1) =~= cs.skip(i as int + 1));
        }
        match d.ent_get(reg, ent) {
            None => {},
            Some(c) => {
                let ghost gc = c;
                if count > 0 {
                    out.push(44);
                }
                emit_lit("{\"type\":", &mut out);
                emit_quoted_string(d.display_name.as_str(), &mut out);
                emit_lit(",\"value\":", &mut out);
                c.encode_text(&mut out);
                out.push(125);
                proof {
                    lemma_find_kind_of_member(cs, i as int);
                    assert(spec_find_kind(cs, gc.kind()) == Some(cs[i as int]));
                    if seen.len() > 0 {
                        lemma_ent_items_enc_push(cs, seen, gc);
                    }
                    assert(out@ =~= base + ent_items_enc(cs, seen.push(gc)));
                    assert(seen + present_comps(cs.skip(i as int), *reg, ent.0 as int) =~= seen.push(
                        gc,
                    ) + present_comps(cs.skip(i as int + 1), *reg, ent.0 as int));
                    seen = seen.push(gc);
                }
                count = count + 1;
            },
        }
        proof {
            if reg.comp_at(ent.0 as int, cs[i as int].kind) is None || !reg.ent_alive(
                ent.0 as int,
            ) {
                assert(seen + present_comps(cs.skip(i as int), *reg, ent.0 as int) =~= seen
                    + present_comps(cs.skip(i as int + 1), *reg, ent.0 as int));
            }
        }
        i = i + 1;
    }
    proof {
        assert(cs.skip(n as int).len() == 0);
        assert(comps_all =~= seen);
    }
    out.push(93);
    out.push(125);
    proof {
        assert(out@ =~= spec_encode_entity(cs, comps_all));
    }
    out
}

/// Reads one entity's attribute set, exactly as [`spec_decode_entity`]: each
/// element's tag resolved in the catalog, an unregistered tag the hard
/// unknown-type error.
pub fn decode_entity(cat: &Catalog<CompKind>, b: &Vec<u8>) -> (r: Result<
    Vec<CompRecord>,
    DecodeError,
>)
    ensures
        match r {
            Ok(v) => {
                &&& spec_decode_entity(cat.descs(), b@) == Ok::<Seq<CompWire>, DecodeError>(
                    wires_of(v@),
                )
                &&& forall|i: int|
                    0 <= i < v@.len() ==> spec_find_kind(
                        cat.descs(),
                        (#[trigger] v@[i]).kind(),
                    ) is Some
            },
            Err(e) => spec_decode_entity(cat.descs(), b@) == Err::<Seq<CompWire>, DecodeError>(e),
        },
{
    let ghost cs = cat.descs();
    let p = match expect_lit(b, 0, "{\"comps\":[") {
        None => {
            return Err(DecodeError::Malformed);
        },
        Some(p) => p,
    };
    if p < b.len() && b[p] == 93 {
        if b.len() - p == 2 && b[p + 1] == 125 {
            let empty: Vec<CompRecord> = Vec::new();
            proof {
                assert(wires_of(empty@) =~= Seq::<CompWire>::empty());
            }
            return Ok(empty);
        } else {
            return Err(DecodeError::Malformed);
        }
    }
    let mut acc: Vec<CompRecord> = Vec::new();
    let mut i: usize = p;
    loop
        invariant
            p <= i <= b@.len(),
            cs == cat.descs(),
            spec_parse_ent_items(cs, b@, p as int) == (match spec_parse_ent_items(
                cs,
                b@,
                i as int,
            ) {
                Err(e) => Err::<(Seq<CompWire>, int), DecodeError>(e),
                Ok((ws, q)) => Ok((wires_of(acc@) + ws, q)),
            }),
            forall|j: int|
                0 <= j < acc@.len() ==> spec_find_kind(cs, (#[trigger] acc@[j]).kind()) is Some,
            !(p < b@.len() && b@[p as int] == 93),
            spec_expect(b@, 0, lit("{\"comps\":["@)) == Some(p as int),
        decreases b@.len() - i,
    {
        let p1 = match expect_lit(b, i, "{\"type\":") {
            None => {
                return Err(DecodeError::Malformed);
            },
            Some(x) => x,
        };
        let (name, p2) = match parse_quoted_string(b, p1) {
            None => {
                return Err(DecodeError::Malformed);
            },
            Some(v) => v,
        };
        let d = match cat.find_by_name(name.as_str()) {
            None => {
                return Err(DecodeError::UnknownType);
            },
            Some(d) => d,
        };
        let ghost gd = *d;
        let p3 = match expect_lit(b, p2, ",\"value\":") {
            None => {
                return Err(DecodeError::Malformed);
            },
            Some(x) => x,
        };
        let (c, e) = match CompRecord::decode_text(d.kind, b, p3) {
            None => {
                return Err(DecodeError::Malformed);
            },
            Some(v) => v,
        };
        let ghost gc = c;
        proof {
            crate::ecs::CompRecord::lemma_parse_text_advances(gd.kind, b@, p3 as int);
        }
        if !(e < b.len() && b[e] == 125) {
            return Err(DecodeError::Malformed);
        }
        proof {
            lemma_find_name_props(cs, name@);
            crate::catalog::lemma_find_kind_of_found(cs, gd, gc.kind());
        }
        if e + 1 < b.len() && b[e + 1] == 44 {
            proof {
                if spec_parse_ent_items(cs, b@, e + 2 as int) is Ok {
                    let (ws2, q2) = spec_parse_ent_items(cs, b@, e + 2 as int).unwrap();
                    assert(wires_of(acc@) + (seq![gc.wire()] + ws2) =~= wires_of(acc@.push(gc))
                        + ws2);
                }
            }
            acc.push(c);
            i = e + 2;
        } else if e + 1 < b.len() && b[e + 1] == 93 {
            proof {
                assert(wires_of(acc@) + seq![gc.wire()] =~= wires_of(acc@.push(gc)));
            }
            acc.push(c);
            let q = e + 2;
            if q < b.len() && b[q] == 125 && q + 1 == b.len() {
                return Ok(acc);
            } else {
                return Err(DecodeError::Malformed);
            }
        } else {
            return Err(DecodeError::Malformed);
        }
    }
}

/// Reading one emitted element just past a known prefix: each part of the
/// element parses as written.
proof fn lemma_parse_item_parts(cat: Catalog<CompKind>, c: CompRecord, pre: Seq<u8>, tail: Seq<u8>)
    requires
        cat.wf(),
        spec_find_kind(cat.descs(), c.kind()) is Some,
    ensures
        ({
            let cs = cat.descs();
            let d = spec_find_kind(cs, c.kind()).unwrap();
            let b = pre + ent_item(cs, c) + tail;
            let l1 = lit("{\"type\":"@);
            let qn = quoted_string(d.display_name@);
            let l2 = lit(",\"value\":"@);
            let p1 = pre.len() + l1.len() as int;
            let p2 = p1 + qn.len() as int;
            let p3 = p2 + l2.len() as int;
            let e = p3 + c.enc_text().len() as int;
            &&& spec_expect(b, pre.len() as int, l1) == Some(p1)
            &&& spec_parse_quoted_string(b, p1) == Some((d.display_name@, p2))
            &&& spec_find_name(cs, d.display_name@) == Some(d)
            &&& spec_expect(b, p2, l2) == Some(p3)
            &&& CompRecord::spec_parse_text(d.kind, b, p3) == Some((c.wire(), e))
            &&& e + 1 == pre.len() + ent_item(cs, c).len()
            &&& b[e] == 125
        }),
{
    let cs = cat.descs();
    let d = spec_find_kind(cs, c.kind()).unwrap();
    lemma_find_kind_props(cs, c.kind());
    let di = choose|i: int| 0 <= i < cs.len() && cs[i] == d;
    lemma_find_name_of_member(cs, di);
    let b = pre + ent_item(cs, c) + tail;
    let l1 = lit("{\"type\":"@);
    let qn = quoted_string(d.display_name@);
    let l2 = lit(",\"value\":"@);
    let pl = c.enc_text();
    let p1 = pre.len() + l1.len() as int;
    let p2 = p1 + qn.len() as int;
    let p3 = p2 + l2.len() as int;
    let e = p3 + pl.len() as int;
    assert(spec_expect(b, pre.len() as int, l1) == Some(p1)) by {
        let t = qn + l2 + pl + seq![125u8] + tail;
        assert(b =~= pre + l1 + t);
        lemma_expect_emitted(pre, l1, t);
    }
    assert(spec_parse_quoted_string(b, p1) == Some((d.display_name@, p2))) by {
        let t = l2 + pl + seq![125u8] + tail;
        assert(b =~= (pre + l1) + qn + t);
        lemma_parse_quoted_string_emitted(pre + l1, d.display_name@, t);
    }
    assert(spec_expect(b, p2, l2) == Some(p3)) by {
        let t = pl + seq![125u8] + tail;
        assert(b =~= (pre + l1 + qn) + l2 + t);
        lemma_expect_emitted(pre + l1 + qn, l2, t);
    }
    assert(CompRecord::spec_parse_text(d.kind, b, p3) == Some((c.wire(), e))) by {
        let t = seq![125u8] + tail;
        assert(b =~= (pre + l1 + qn + l2) + pl + t);
        c.lemma_parse_text_emitted(pre + l1 + qn + l2, t);
    }
    assert(b[e] == 125);
}

/// Reading an element list just past a known prefix yields the written
/// components' wire contents.
#[verifier::rlimit(100)]
#[verifier::spinoff_prover]
pub proof fn lemma_parse_ent_items_emitted(
    cat: Catalog<CompKind>,
    s: Seq<CompRecord>,
    pre: Seq<u8>,
    rest: Seq<u8>,
)
    requires
        cat.wf(),
        s.len() >= 1,
        forall|i: int|
            0 <= i < s.len() ==> spec_find_kind(cat.descs(), (#[trigger] s[i]).kind()) is Some,
    ensures
        spec_parse_ent_items(cat.descs(), pre + ent_items_enc(cat.descs(), s) + seq![93u8] + rest, pre.len() as int)
            == Ok::<(Seq<CompWire>, int), DecodeError>(
            (wires_of(s), pre.len() + ent_items_enc(cat.descs(), s).len() + 1 as int),
        ),
    decreases s.len(),
{
    let cs = cat.descs();
    let b = pre + ent_items_enc(cs, s) + seq![93u8] + rest;
    let c = s[0];
    let item = ent_item(cs, c);
    let e = pre.len() + item.len() - 1;
    if s.len() == 1 {
        assert(ent_items_enc(cs, s) == item);
        lemma_parse_item_parts(cat, c, pre, seq![93u8] + rest);
        assert(b =~= pre + item + (seq![93u8] + rest));
        assert(b[e + 1] == 93);
        assert(e + 1 < b.len());
        assert(wires_of(s) =~= seq![c.wire()]);
    } else {
        let pre2 = pre + item + seq![44u8];
        assert(b =~= pre2 + ent_items_enc(cs, s.skip(1)) + seq![93u8] + rest);
        assert(forall|i: int|
            0 <= i < s.skip(1).len() ==> spec_find_kind(
                cs,
                (#[trigger] s.skip(1)[i]).kind(),
            ) is Some) by {
            assert forall|i: int|
                0 <= i < s.skip(1).len() implies spec_find_kind(
                cs,
                (#[trigger] s.skip(1)[i]).kind(),
            ) is Some by {
                assert(s.skip(1)[i] == s[i + 1]);
            }
        }
        lemma_parse_ent_items_emitted(cat, s.skip(1), pre2, rest);
        let tail = seq![44u8] + ent_items_enc(cs, s.skip(1)) + seq![93u8] + rest;
        lemma_parse_item_parts(cat, c, pre, tail);
        assert(b =~= pre + item + tail);
        assert(b[e + 1] == 44);
        assert(e + 2 == pre2.len());
        assert(seq![c.wire()] + wires_of(s.skip(1)) =~= wires_of(s));
        assert(ent_items_enc(cs, s) =~= item + seq![44u8] + ent_items_enc(cs, s.skip(1)));
    }
}

/// Round-trip, entity form: decoding the text encoding of any attribute set
/// whose concrete types are all registered yields the same components' wire
/// contents.
pub proof fn lemma_round_trip_entity(cat: Catalog<CompKind>, s: Seq<CompRecord>)
    requires
        cat.wf(),
        forall|i: int|
            0 <= i < s.len() ==> spec_find_kind(cat.descs(), (#[trigger] s[i]).kind()) is Some,
    ensures
        spec_decode_entity(cat.descs(), spec_encode_entity(cat.descs(), s)) == Ok::<
            Seq<CompWire>,
            DecodeError,
        >(wires_of(s)),
{
    let cs = cat.descs();
    let b = spec_encode_entity(cs, s);
    let l0 = lit("{\"comps\":["@);
    let items = ent_items_enc(cs, s);
    assert(spec_expect(b, 0, l0) == Some(l0.len() as int)) by {
        let t = items + seq![93u8, 125u8];
        assert(b =~= Seq::<u8>::empty() + l0 + t);
        lemma_expect_emitted(Seq::<u8>::empty(), l0, t);
    }
    let p = l0.len() as int;
    if s.len() == 0 {
        assert(b =~= l0 + seq![93u8, 125u8]);
        assert(b[p] == 93);
        assert(b[p + 1] == 125);
        assert(wires_of(s) =~= Seq::<CompWire>::empty());
    } else {
        assert(b =~= l0 + items + seq![93u8] + seq![125u8]);
        lemma_parse_ent_items_emitted(cat, s, l0, seq![125u8]);
        let q = l0.len() + items.len() + 1 as int;
        assert(b[q] == 125);
        assert(q + 1 == b.len());
        assert(b[p] != 93) by {
            lemma_item_head(cs, s);
            assert(b[p] == items[0]);
        }
    }
}

/// A nonempty element list begins with an opening brace.
proof fn lemma_item_head(cat: Seq<Descriptor<CompKind>>, s: Seq<CompRecord>)
    requires
        s.len() >= 1,
    ensures
        ent_items_enc(cat, s).len() >= 1,
        ent_items_enc(cat, s)[0] == lit("{\"type\":"@)[0],
        ent_items_enc(cat, s)[0] != 93,
{
    let item = ent_item(cat, s[0]);
    let l1 = lit("{\"type\":"@);
    crate::text::lemma_lit_type_head();
    assert(item[0] == l1[0]);
    if s.len() == 1 {
        assert(ent_items_enc(cat, s)[0] == item[0]);
    } else {
        assert(ent_items_enc(cat, s)[0] == item[0]);
    }
}


} // verus!
