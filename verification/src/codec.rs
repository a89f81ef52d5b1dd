//! The dual-format codec: one type-erased value to or from a byte buffer.
//!
//! A buffer starts with a one-byte discriminator: `b` introduces the compact
//! binary stream, `t` the structured-text stream. The binary payload is the
//! length-prefixed display name followed by the concrete type's own binary
//! payload (anything after it is ignored). The text payload is an object with
//! exactly the fields `type` (the display name) and `asset` (the concrete
//! type's own text payload), and must span the whole buffer. In both forms
//! the display name is resolved in the catalog; an unregistered name is a
//! decode error, never a silent skip or a default-constructed value.

use vstd::prelude::*;
use crate::assets::{AssetKind, AssetRecord, AssetWire};
use crate::catalog::{Catalog, Descriptor, spec_find_name, spec_find_kind, lemma_find_name_props,
    lemma_find_kind_props, lemma_find_name_of_member};
use crate::wire::{lp_string, spec_parse_lp_string, parse_lp_string, emit_lp_string,
    lemma_parse_lp_string_emitted};
use crate::text::{lit, quoted_string, spec_expect, spec_parse_quoted_string, expect_lit, emit_lit,
    emit_quoted_string, parse_quoted_string, lemma_expect_emitted, lemma_parse_quoted_string_emitted};
use crate::Error;

verus! {

/// Why a decode failed; each case is distinct and reported to the caller.
#[derive(Debug, Clone, Copy, PartialEq, Eq, Structural)]
pub enum DecodeError {
    /// The buffer is empty, or its first byte selects neither stream format.
    UnrecognizedDiscriminator,
    /// The type tag matches no registered display name.
    UnknownType,
    /// The structured-text object does not begin with its required type
    /// field.
    MissingTypeField,
    /// The tag or payload is malformed or truncated.
    Malformed,
}

impl DecodeError {
    /// A human-readable description of the failure.
    pub fn describe(&self) -> (r: &'static str)
        ensures
            r@ == self.spec_describe(),
    {
        match self {
            DecodeError::UnrecognizedDiscriminator => "unrecognized binary/text discriminator",
            DecodeError::UnknownType => "unrecognized type name",
            DecodeError::MissingTypeField => "missing required field: type",
            DecodeError::Malformed => "malformed or truncated payload",
        }
    }

    /// The description as characters.
    pub open spec fn spec_describe(self) -> Seq<char> {
        match self {
            DecodeError::UnrecognizedDiscriminator => "unrecognized binary/text discriminator"@,
            DecodeError::UnknownType => "unrecognized type name"@,
            DecodeError::MissingTypeField => "missing required field: type"@,
            DecodeError::Malformed => "malformed or truncated payload"@,
        }
    }
}

/// The binary form of one value: the discriminator, the length-prefixed
/// display name under which its type is registered, the concrete payload.
pub open spec fn spec_encode_bin(cat: Seq<Descriptor<AssetKind>>, rec: AssetRecord) -> Seq<u8>
    recommends
        spec_find_kind(cat, rec.kind()) is Some,
{
    seq![98u8] + lp_string(spec_find_kind(cat, rec.kind()).unwrap().display_name@) + rec.enc_bin()
}

/// The text form of one value: the discriminator, then an object tagging the
/// concrete payload with the display name.
pub open spec fn spec_encode_text(cat: Seq<Descriptor<AssetKind>>, rec: AssetRecord) -> Seq<u8>
    recommends
        spec_find_kind(cat, rec.kind()) is Some,
{
    seq![116u8] + lit("{\"type\":"@) + quoted_string(
        spec_find_kind(cat, rec.kind()).unwrap().display_name@,
    ) + lit(",\"asset\":"@) + rec.enc_text() + seq![125u8]
}

/// Reads a binary payload after the discriminator: the display name resolved
/// in the catalog, then the concrete payload; trailing bytes are ignored.
pub open spec fn spec_decode_bin_payload(
    cat: Seq<Descriptor<AssetKind>>,
    b: Seq<u8>,
    p: int,
) -> Result<AssetWire, DecodeError> {
    match spec_parse_lp_string(b, p) {
        None => Err(DecodeError::Malformed),
        Some((name, q)) => match spec_find_name(cat, name) {
            None => Err(DecodeError::UnknownType),
            Some(d) => match AssetRecord::spec_parse_bin(d.kind, b, q) {
                None => Err(DecodeError::Malformed),
                Some((w, _e)) => Ok(w),
            },
        },
    }
}

/// Reads a text payload after the discriminator: the tagging object, whose
/// payload must reach the end of the buffer.
pub open spec fn spec_decode_text_payload(
    cat: Seq<Descriptor<AssetKind>>,
    b: Seq<u8>,
    p: int,
) -> Result<AssetWire, DecodeError> {
    match spec_expect(b, p, lit("{\"type\":"@)) {
        None => {
            if 0 <= p < b.len() && b[p] == 123 {
                Err(DecodeError::MissingTypeField)
            } else {
                Err(DecodeError::Malformed)
            }
        },
        Some(p1) => match spec_parse_quoted_string(b, p1) {
            None => Err(DecodeError::Malformed),
            Some((name, p2)) => match spec_find_name(cat, name) {
                None => Err(DecodeError::UnknownType),
                Some(d) => match spec_expect(b, p2, lit(",\"asset\":"@)) {
                    None => Err(DecodeError::Malformed),
                    Some(p3) => match AssetRecord::spec_parse_text(d.kind, b, p3) {
                        None => Err(DecodeError::Malformed),
                        Some((w, e)) => {
                            if e + 1 == b.len() && b[e] == 125 {
                                Ok(w)
                            } else {
                                Err(DecodeError::Malformed)
                            }
                        },
                    },
                },
            },
        },
    }
}

/// Reads one value from a whole buffer: the discriminator selects the stream
/// format, and the matching payload reader runs on the rest.
pub open spec fn spec_decode(cat: Seq<Descriptor<AssetKind>>, b: Seq<u8>) -> Result<
    AssetWire,
    DecodeError,
> {
    if b.len() == 0 {
        Err(DecodeError::UnrecognizedDiscriminator)
    } else if b[0] == 98 {
        spec_decode_bin_payload(cat, b, 1)
    } else if b[0] == 116 {
        spec_decode_text_payload(cat, b, 1)
    } else {
        Err(DecodeError::UnrecognizedDiscriminator)
    }
}

/// Encodes one value to the binary form. Succeeds exactly when the value's
/// concrete type is registered; the error names the failure.
pub fn encode_bin(cat: &Catalog<AssetKind>, rec: &AssetRecord) -> (r: Result<Vec<u8>, Error>)
    requires
        rec.wf(),
    ensures
        match r {
            Ok(out) => spec_find_kind(cat.descs(), rec.kind()) is Some && out@ == spec_encode_bin(
                cat.descs(),
                *rec,
            ),
            Err(_) => spec_find_kind(cat.descs(), rec.kind()) is None,
        },
{
    let d = match cat.find_by_kind(rec.get_kind()) {
        None => {
            return Err(Error::new("type is not registered in the catalog"));
        },
        Some(d) => d,
    };
    let mut out: Vec<u8> = Vec::new();
    out.push(98);
    emit_lp_string(d.display_name.as_str(), &mut out);
    rec.encode_bin(&mut out);
    proof {
        assert(out@ =~= spec_encode_bin(cat.descs(), *rec));
    }
    Ok(out)
}

/// Encodes one value to the text form. Succeeds exactly when the value's
/// concrete type is registered.
pub fn encode_text(cat: &Catalog<AssetKind>, rec: &AssetRecord) -> (r: Result<Vec<u8>, Error>)
    requires
        rec.wf(),
    ensures
        match r {
            Ok(out) => spec_find_kind(cat.descs(), rec.kind()) is Some && out@ == spec_encode_text(
                cat.descs(),
                *rec,
            ),
            Err(_) => spec_find_kind(cat.descs(), rec.kind()) is None,
        },
{
    let d = match cat.find_by_kind(rec.get_kind()) {
        None => {
            return Err(Error::new("type is not registered in the catalog"));
        },
        Some(d) => d,
    };
    let mut out: Vec<u8> = Vec::new();
    out.push(116);
    emit_lit("{\"type\":", &mut out);
    emit_quoted_string(d.display_name.as_str(), &mut out);
    emit_lit(",\"asset\":", &mut out);
    rec.encode_text(&mut out);
    out.push(125);
    proof {
        assert(out@ =~= spec_encode_text(cat.descs(), *rec));
    }
    Ok(out)
}

/// Decodes one value from a whole buffer, exactly as [`spec_decode`]: the
/// discriminator dispatches, the display name is resolved in the catalog (an
/// unknown or missing type tag is the matching error), and the named type's
/// own decoder reads the payload. The result is well-formed and unnamed.
pub fn decode(cat: &Catalog<AssetKind>, b: &Vec<u8>) -> (r: Result<AssetRecord, DecodeError>)
    ensures
        match r {
            Ok(v) => {
                &&& spec_decode(cat.descs(), b@) == Ok::<AssetWire, DecodeError>(v.wire())
                &&& v.wf()
                &&& v.unnamed()
                &&& spec_find_kind(cat.descs(), v.kind()) is Some
            },
            Err(e) => spec_decode(cat.descs(), b@) == Err::<AssetWire, DecodeError>(e),
        },
{
    if b.len() == 0 {
        return Err(DecodeError::UnrecognizedDiscriminator);
    }
    let disc = b[0];
    if disc == 98 {
        decode_bin_payload(cat, b, 1)
    } else if disc == 116 {
        decode_text_payload(cat, b, 1)
    } else {
        Err(DecodeError::UnrecognizedDiscriminator)
    }
}

/// Reads a binary payload, exactly as [`spec_decode_bin_payload`].
fn decode_bin_payload(cat: &Catalog<AssetKind>, b: &Vec<u8>, pos: usize) -> (r: Result<
    AssetRecord,
    DecodeError,
>)
    ensures
        match r {
            Ok(v) => {
                &&& spec_decode_bin_payload(cat.descs(), b@, pos as int) == Ok::<
                    AssetWire,
                    DecodeError,
                >(v.wire())
                &&& v.wf()
                &&& v.unnamed()
                &&& spec_find_kind(cat.descs(), v.kind()) is Some
            },
            Err(e) => spec_decode_bin_payload(cat.descs(), b@, pos as int) == Err::<
                AssetWire,
                DecodeError,
            >(e),
        },
{
    let (name, q) = match parse_lp_string(b, pos) {
        None => {
            return Err(DecodeError::Malformed);
        },
        Some(v) => v,
    };
    let d = match cat.find_by_name(name.as_str()) {
        None => {
            return Err(DecodeError::UnknownType);
        },
        Some(d) => d,
    };
    let ghost gd = *d;
    match AssetRecord::decode_bin(d.kind, b, q) {
        None => Err(DecodeError::Malformed),
        Some((v, _e)) => {
            proof {
                lemma_find_name_props(cat.descs(), name@);
                crate::catalog::lemma_find_kind_of_found(cat.descs(), gd, v.kind());
            }
            Ok(v)
        },
    }
}

/// Reads a text payload, exactly as [`spec_decode_text_payload`].
fn decode_text_payload(cat: &Catalog<AssetKind>, b: &Vec<u8>, pos: usize) -> (r: Result<
    AssetRecord,
    DecodeError,
>)
    requires
        pos <= b@.len(),
    ensures
        match r {
            Ok(v) => {
                &&& spec_decode_text_payload(cat.descs(), b@, pos as int) == Ok::<
                    AssetWire,
                    DecodeError,
                >(v.wire())
                &&& v.wf()
                &&& v.unnamed()
                &&& spec_find_kind(cat.descs(), v.kind()) is Some
            },
            Err(e) => spec_decode_text_payload(cat.descs(), b@, pos as int) == Err::<
                AssetWire,
                DecodeError,
            >(e),
        },
{
    let p1 = match expect_lit(b, pos, "{\"type\":") {
        None => {
            if pos < b.len() && b[pos] == 123 {
                return Err(DecodeError::MissingTypeField);
            } else {
                return Err(DecodeError::Malformed);
            }
        },
        Some(p) => p,
    };
    let (name, p2) = match parse_quoted_string(b, p1) {
        None => {
            return Err(DecodeError::Malformed);
        },
        Some(v) => v,
    };
    let d = match cat.find_by_name(name.as_str()) {
        None => {
            return Err(DecodeError::UnknownType);
        },
        Some(d) => d,
    };
    let ghost gd = *d;
    let p3 = match expect_lit(b, p2, ",\"asset\":") {
        None => {
            return Err(DecodeError::Malformed);
        },
        Some(p) => p,
    };
    match AssetRecord::decode_text(d.kind, b, p3) {
        None => Err(DecodeError::Malformed),
        Some((v, e)) => {
            if e < b.len() && e + 1 == b.len() && b[e] == 125 {
                proof {
                    lemma_find_name_props(cat.descs(), name@);
                    crate::catalog::lemma_find_kind_of_found(cat.descs(), gd, v.kind());
                }
                Ok(v)
            } else {
                Err(DecodeError::Malformed)
            }
        },
    }
}

/// Round-trip, binary form: decoding the binary encoding of any well-formed
/// value whose concrete type is registered yields a value with the same wire
/// contents (equality under the concrete type's own wire equality; the
/// logical name, which the wire does not carry, is reattached by the cache's
/// post-load hook).
pub proof fn lemma_round_trip_bin(cat: Catalog<AssetKind>, rec: AssetRecord)
    requires
        cat.wf(),
        rec.wf(),
        spec_find_kind(cat.descs(), rec.kind()) is Some,
    ensures
        spec_decode(cat.descs(), spec_encode_bin(cat.descs(), rec)) == Ok::<
            AssetWire,
            DecodeError,
        >(rec.wire()),
{
    vstd::bytes::lemma_auto_spec_u64_to_from_le_bytes();
    let s = cat.descs();
    let d = spec_find_kind(s, rec.kind()).unwrap();
    lemma_find_kind_props(s, rec.kind());
    let i = choose|i: int| 0 <= i < s.len() && s[i] == d;
    let b = spec_encode_bin(s, rec);
    assert(b[0] == 98);
    let name = d.display_name@;
    assert(vstd::utf8::encode_utf8(name).len() <= u64::MAX);
    assert(b =~= seq![98u8] + lp_string(name) + rec.enc_bin());
    lemma_parse_lp_string_emitted(seq![98u8], name, rec.enc_bin());
    assert(spec_parse_lp_string(b, 1) == Some(
        (name, 1 + lp_string(name).len() as int),
    ));
    lemma_find_name_of_member(s, i);
    assert(spec_find_name(s, name) == Some(d));
    let q = 1 + lp_string(name).len() as int;
    assert(b =~= (seq![98u8] + lp_string(name)) + rec.enc_bin() + Seq::<u8>::empty());
    rec.lemma_parse_bin_emitted(seq![98u8] + lp_string(name), Seq::<u8>::empty());
    assert(AssetRecord::spec_parse_bin(d.kind, b, q) == Some(
        (rec.wire(), q + rec.enc_bin().len() as int),
    ));
}

/// Round-trip, text form: decoding the text encoding of any well-formed
/// value whose concrete type is registered yields a value with the same wire
/// contents.
pub proof fn lemma_round_trip_text(cat: Catalog<AssetKind>, rec: AssetRecord)
    requires
        cat.wf(),
        rec.wf(),
        spec_find_kind(cat.descs(), rec.kind()) is Some,
    ensures
        spec_decode(cat.descs(), spec_encode_text(cat.descs(), rec)) == Ok::<
            AssetWire,
            DecodeError,
        >(rec.wire()),
{
    let s = cat.descs();
    let d = spec_find_kind(s, rec.kind()).unwrap();
    lemma_find_kind_props(s, rec.kind());
    let i = choose|i: int| 0 <= i < s.len() && s[i] == d;
    lemma_find_name_of_member(s, i);
    let name = d.display_name@;
    let b = spec_encode_text(s, rec);
    assert(b[0] == 116);
    let l1 = lit("{\"type\":"@);
    let qn = quoted_string(name);
    let l2 = lit(",\"asset\":"@);
    let pl = rec.enc_text();
    let p1 = 1 + l1.len() as int;
    let p2 = p1 + qn.len() as int;
    let p3 = p2 + l2.len() as int;
    let e = p3 + pl.len() as int;
    assert(spec_expect(b, 1, l1) == Some(p1)) by {
        let t = qn + l2 + pl + seq![125u8];
        assert(b =~= seq![116u8] + l1 + t);
        lemma_expect_emitted(seq![116u8], l1, t);
    }
    assert(spec_parse_quoted_string(b, p1) == Some((name, p2))) by {
        let t = l2 + pl + seq![125u8];
        assert(b =~= (seq![116u8] + l1) + qn + t);
        lemma_parse_quoted_string_emitted(seq![116u8] + l1, name, t);
    }
    assert(spec_expect(b, p2, l2) == Some(p3)) by {
        let t = pl + seq![125u8];
        assert(b =~= (seq![116u8] + l1 + qn) + l2 + t);
        lemma_expect_emitted(seq![116u8] + l1 + qn, l2, t);
    }
    assert(AssetRecord::spec_parse_text(d.kind, b, p3) == Some((rec.wire(), e))) by {
        assert(b =~= (seq![116u8] + l1 + qn + l2) + pl + seq![125u8]);
        rec.lemma_parse_text_emitted(seq![116u8] + l1 + qn + l2, seq![125u8]);
    }
    assert(b[e] == 125 && e + 1 == b.len());
}

/// Discriminator dispatch: a buffer starting with the binary discriminator
/// is only ever read by the binary reader, one starting with the text
/// discriminator only by the text reader, and any other first byte (or an
/// empty buffer) is a decode error.
pub proof fn lemma_discriminator_dispatch(cat: Seq<Descriptor<AssetKind>>, b: Seq<u8>)
    ensures
        b.len() > 0 && b[0] == 98 ==> spec_decode(cat, b) == spec_decode_bin_payload(cat, b, 1),
        b.len() > 0 && b[0] == 116 ==> spec_decode(cat, b) == spec_decode_text_payload(cat, b, 1),
        b.len() == 0 || (b[0] != 98 && b[0] != 116) ==> spec_decode(cat, b) == Err::<
            AssetWire,
            DecodeError,
        >(DecodeError::UnrecognizedDiscriminator),
{
}

/// Unknown-type rejection, binary form: a buffer whose type tag matches no
/// registered display name decodes to the unknown-type error, whatever its
/// payload.
pub proof fn lemma_unknown_type_rejected_bin(
    cat: Seq<Descriptor<AssetKind>>,
    name: Seq<char>,
    payload: Seq<u8>,
)
    requires
        spec_find_name(cat, name) is None,
        vstd::utf8::encode_utf8(name).len() <= u64::MAX,
    ensures
        spec_decode(cat, seq![98u8] + lp_string(name) + payload) == Err::<AssetWire, DecodeError>(
            DecodeError::UnknownType,
        ),
{
    vstd::bytes::lemma_auto_spec_u64_to_from_le_bytes();
    let b = seq![98u8] + lp_string(name) + payload;
    assert(b[0] == 98);
    lemma_parse_lp_string_emitted(seq![98u8], name, payload);
}

/// Unknown-type rejection, text form: a text object whose type tag matches
/// no registered display name decodes to the unknown-type error, whatever
/// follows the tag.
pub proof fn lemma_unknown_type_rejected_text(
    cat: Seq<Descriptor<AssetKind>>,
    name: Seq<char>,
    rest: Seq<u8>,
)
    requires
        spec_find_name(cat, name) is None,
    ensures
        spec_decode(cat, seq![116u8] + lit("{\"type\":"@) + quoted_string(name) + rest) == Err::<
            AssetWire,
            DecodeError,
        >(DecodeError::UnknownType),
{
    let l1 = lit("{\"type\":"@);
    let qn = quoted_string(name);
    let b = seq![116u8] + l1 + qn + rest;
    assert(b[0] == 116);
    assert(spec_expect(b, 1, l1) == Some(1 + l1.len() as int)) by {
        assert(b =~= seq![116u8] + l1 + (qn + rest));
        lemma_expect_emitted(seq![116u8], l1, qn + rest);
    }
    assert(spec_parse_quoted_string(b, 1 + l1.len() as int) == Some(
        (name, 1 + l1.len() + qn.len() as int),
    )) by {
        assert(b =~= (seq![116u8] + l1) + qn + rest);
        lemma_parse_quoted_string_emitted(seq![116u8] + l1, name, rest);
    }
}

} // verus!
