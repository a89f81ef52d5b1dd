//! The asset hierarchy: concrete asset record types, the type-erased
//! [`AssetRecord`] that holds one of them, and each type's binary and
//! structured-text payload codec.
//!
//! A concrete type's binary payload is its own fixed-width little-endian
//! encoding; its text payload is a structured object. Neither carries the
//! type tag: the surrounding codec writes the display name, looked up in the
//! catalog, in front of the payload.

use vstd::prelude::*;
use crate::math::Vec2u;
use crate::wire::{spec_parse_u8, spec_parse_u32, spec_parse_lp_bytes, lp_bytes, parse_u8, parse_u32,
    parse_lp_bytes, emit_u8, emit_u32, emit_lp_bytes, lemma_parse_u8_emitted,
    lemma_parse_u32_emitted, lemma_parse_lp_bytes_emitted};
use vstd::bytes::spec_u32_to_le_bytes;
use crate::text::{lit, spec_expect, expect_lit, emit_lit, dec_u8_array, spec_parse_u8_array,
    emit_u8_array, parse_u8_array, lemma_expect_emitted, lemma_parse_u8_array_emitted};
use crate::decimal::{dec_bytes, spec_parse_dec, parse_dec_u64, emit_dec_u64,
    lemma_parse_dec_emitted};

verus! {

/// The stage a shader runs at.
#[derive(Debug, Clone, Copy, PartialEq, Eq, Structural)]
pub enum ShaderType {
    Vertex,
    Fragment,
}

impl ShaderType {
    /// The wire code of this stage.
    pub open spec fn spec_code(self) -> u8 {
        match self {
            ShaderType::Vertex => 1,
            ShaderType::Fragment => 2,
        }
    }

    /// The stage a wire code names, if any.
    pub open spec fn spec_of_code(c: u8) -> Option<ShaderType> {
        if c == 1 {
            Some(ShaderType::Vertex)
        } else if c == 2 {
            Some(ShaderType::Fragment)
        } else {
            None
        }
    }

    /// Returns the wire code of this stage.
    pub fn code(&self) -> (r: u8)
        ensures
            r == self.spec_code(),
    {
        match self {
            ShaderType::Vertex => 1,
            ShaderType::Fragment => 2,
        }
    }

    /// Decodes a wire code back to a stage.
    pub fn of_code(c: u8) -> (r: Option<ShaderType>)
        ensures
            r == Self::spec_of_code(c),
    {
        if c == 1 {
            Some(ShaderType::Vertex)
        } else if c == 2 {
            Some(ShaderType::Fragment)
        } else {
            None
        }
    }
}

/// An image asset: a size and its raw pixel bytes, 4 bytes per pixel, plus
/// the logical name attached after a cache load.
#[derive(Debug)]
pub struct ImageAsset {
    pub size: Vec2u,
    pub data: Vec<u8>,
    pub name: String,
}

impl ImageAsset {
    /// The pixel data matches the size, 4 bytes per pixel.
    pub open spec fn wf(&self) -> bool {
        self.data@.len() == self.size.x as int * self.size.y as int * 4
    }

    /// The logical name attached by the post-load hook.
    pub open spec fn spec_name(&self) -> Seq<char> {
        self.name@
    }

    /// Returns the logical name attached by the post-load hook.
    pub fn name(&self) -> (r: &String)
        ensures
            r@ == self.spec_name(),
    {
        &self.name
    }

    /// A default-initialized image: empty, unnamed.
    pub fn new() -> (r: Self)
        ensures
            r.wf(),
            r.size.x == 0 && r.size.y == 0,
            r.data@ == Seq::<u8>::empty(),
            r.spec_name() == Seq::<char>::empty(),
    {
        Self { size: Vec2u::new(0, 0), data: Vec::new(), name: String::new() }
    }

    /// The binary payload: both extents, then the raw pixel bytes, whose
    /// count the extents imply.
    pub open spec fn enc_bin(self) -> Seq<u8> {
        spec_u32_to_le_bytes(self.size.x) + spec_u32_to_le_bytes(self.size.y) + self.data@
    }

    /// Reads a binary payload: the size parsed, then exactly the implied
    /// pixel bytes.
    pub open spec fn spec_parse_bin(b: Seq<u8>, p: int) -> Option<((Vec2u, Seq<u8>), int)> {
        match spec_parse_u32(b, p) {
            None => None,
            Some((x, p1)) => match spec_parse_u32(b, p1) {
                None => None,
                Some((y, p2)) => {
                    let need = x as int * y as int * 4;
                    if p2 + need <= b.len() {
                        Some(((Vec2u { x, y }, b.subrange(p2, p2 + need)), p2 + need))
                    } else {
                        None
                    }
                },
            },
        }
    }

    /// Appends the binary payload.
    pub fn encode_bin(&self, out: &mut Vec<u8>)
        requires
            self.wf(),
        ensures
            final(out)@ == old(out)@ + self.enc_bin(),
    {
        emit_u32(self.size.x, out);
        emit_u32(self.size.y, out);
        let mut d = self.data.clone();
        proof {
            assert(d@ =~= self.data@);
        }
        out.append(&mut d);
        assert(out@ =~= old(out)@ + self.enc_bin());
    }

    /// Reads a binary payload, exactly as [`ImageAsset::spec_parse_bin`]; the
    /// result is well-formed and unnamed.
    pub fn decode_bin(b: &Vec<u8>, pos: usize) -> (r: Option<(Self, usize)>)
        ensures
            match r {
                Some((v, e)) => {
                    &&& Self::spec_parse_bin(b@, pos as int) == Some(((v.size, v.data@), e as int))
                    &&& v.wf()
                    &&& v.spec_name() == Seq::<char>::empty()
                },
                None => Self::spec_parse_bin(b@, pos as int) is None,
            },
    {
        match parse_u32(b, pos) {
            None => None,
            Some((x, p1)) => match parse_u32(b, p1) {
                None => None,
                Some((y, p2)) => {
                    proof {
                        assert((x as u128) * (y as u128) * 4 <= u128::MAX) by (nonlinear_arith)
                            requires
                                x <= u32::MAX,
                                y <= u32::MAX,
                        ;
                    }
                    let need128: u128 = (x as u128) * (y as u128) * 4;
                    let rem: usize = b.len() - p2;
                    if need128 <= rem as u128 {
                        let need: usize = need128 as usize;
                        let d = vstd::slice::slice_to_vec(
                            vstd::slice::slice_subrange(b.as_slice(), p2, p2 + need),
                        );
                        let v = Self { size: Vec2u::new(x, y), data: d, name: String::new() };
                        Some((v, p2 + need))
                    } else {
                        None
                    }
                },
            },
        }
    }

    /// Reading a binary payload just past a known prefix yields the written
    /// fields.
    pub proof fn lemma_parse_bin_emitted(self, pre: Seq<u8>, rest: Seq<u8>)
        requires
            self.wf(),
        ensures
            Self::spec_parse_bin(pre + self.enc_bin() + rest, pre.len() as int) == Some(
                ((self.size, self.data@), pre.len() + self.enc_bin().len() as int),
            ),
    {
        vstd::bytes::lemma_auto_spec_u32_to_from_le_bytes();
        let b = pre + self.enc_bin() + rest;
        let bx = spec_u32_to_le_bytes(self.size.x);
        let by = spec_u32_to_le_bytes(self.size.y);
        assert(b =~= pre + bx + (by + self.data@ + rest));
        lemma_parse_u32_emitted(pre, self.size.x, by + self.data@ + rest);
        let p1 = pre.len() + 4;
        assert(b =~= (pre + bx) + by + (self.data@ + rest));
        lemma_parse_u32_emitted(pre + bx, self.size.y, self.data@ + rest);
        let p2 = p1 + 4;
        assert(b.subrange(p2 as int, p2 + self.data@.len() as int) =~= self.data@);
    }

    /// The text payload: the size as a nested object, then the pixel bytes
    /// as an array.
    pub open spec fn enc_text(self) -> Seq<u8> {
        lit("{\"size\":{\"x\":"@) + dec_bytes(self.size.x as nat) + seq![44u8] + lit("\"y\":"@)
            + dec_bytes(self.size.y as nat) + seq![125u8, 44u8] + lit("\"data\":"@) + dec_u8_array(
            self.data@,
        ) + seq![125u8]
    }

    /// The leading part of the text payload: the size as a nested object,
    /// through the separator before the data field.
    pub open spec fn enc_size_prefix(self) -> Seq<u8> {
        lit("{\"size\":{\"x\":"@) + dec_bytes(self.size.x as nat) + seq![44u8] + lit("\"y\":"@)
            + dec_bytes(self.size.y as nat) + seq![125u8, 44u8]
    }

    /// Reads the leading size object of a text payload, through the separator
    /// before the data field.
    pub open spec fn spec_parse_size_prefix(b: Seq<u8>, p: int) -> Option<((u64, u64), int)> {
        match spec_expect(b, p, lit("{\"size\":{\"x\":"@)) {
            None => None,
            Some(p1) => match spec_parse_dec(b, p1) {
                None => None,
                Some((x, p2)) => {
                    if !(0 <= p2 < b.len() && b[p2] == 44) {
                        None
                    } else {
                        match spec_expect(b, p2 + 1, lit("\"y\":"@)) {
                            None => None,
                            Some((p3)) => match spec_parse_dec(b, p3) {
                                None => None,
                                Some((y, p4)) => {
                                    if p4 + 2 <= b.len() && b[p4] == 125 && b[p4 + 1] == 44 {
                                        Some(((x, y), p4 + 2))
                                    } else {
                                        None
                                    }
                                },
                            },
                        }
                    }
                },
            },
        }
    }

    /// Reads a text payload.
    pub open spec fn spec_parse_text(b: Seq<u8>, p: int) -> Option<((Vec2u, Seq<u8>), int)> {
        match Self::spec_parse_size_prefix(b, p) {
            None => None,
            Some(((x, y), p4)) => {
                if x > 0xffff_ffffu64 || y > 0xffff_ffffu64 {
                    None
                } else {
                    match spec_expect(b, p4, lit("\"data\":"@)) {
                        None => None,
                        Some(p5) => match spec_parse_u8_array(b, p5) {
                            None => None,
                            Some((d, p6)) => {
                                if 0 <= p6 < b.len() && b[p6] == 125 && d.len() == x as int
                                    * y as int * 4 {
                                    Some(((Vec2u { x: x as u32, y: y as u32 }, d), p6 + 1))
                                } else {
                                    None
                                }
                            },
                        },
                    }
                }
            },
        }
    }

    /// Reading the leading size object just past a known prefix yields the
    /// written extents.
    pub proof fn lemma_parse_size_prefix_emitted(self, pre: Seq<u8>, rest: Seq<u8>)
        ensures
            Self::spec_parse_size_prefix(pre + self.enc_size_prefix() + rest, pre.len() as int)
                == Some(
                ((self.size.x as u64, self.size.y as u64), pre.len()
                    + self.enc_size_prefix().len() as int),
            ),
    {
        let b = pre + self.enc_size_prefix() + rest;
        let l1 = lit("{\"size\":{\"x\":"@);
        let nx = dec_bytes(self.size.x as nat);
        let l2 = lit("\"y\":"@);
        let ny = dec_bytes(self.size.y as nat);
        let p1 = pre.len() + l1.len() as int;
        let p2 = p1 + nx.len() as int;
        let p3 = p2 + 1 + l2.len() as int;
        let p4 = p3 + ny.len() as int;
        assert(spec_expect(b, pre.len() as int, l1) == Some(p1)) by {
            let t = nx + seq![44u8] + l2 + ny + seq![125u8, 44u8] + rest;
            assert(b =~= pre + l1 + t);
            lemma_expect_emitted(pre, l1, t);
        }
        assert(spec_parse_dec(b, p1) == Some((self.size.x as u64, p2)) && b[p2] == 44) by {
            let t = seq![44u8] + l2 + ny + seq![125u8, 44u8] + rest;
            assert(b =~= (pre + l1) + nx + t);
            lemma_parse_dec_emitted(pre + l1, self.size.x as u64, t);
        }
        assert(spec_expect(b, p2 + 1, l2) == Some(p3)) by {
            let t = ny + seq![125u8, 44u8] + rest;
            assert(b =~= (pre + l1 + nx + seq![44u8]) + l2 + t);
            lemma_expect_emitted(pre + l1 + nx + seq![44u8], l2, t);
        }
        assert(spec_parse_dec(b, p3) == Some((self.size.y as u64, p4)) && b[p4] == 125 && b[p4 + 1]
            == 44) by {
            let t = seq![125u8, 44u8] + rest;
            assert(b =~= (pre + l1 + nx + seq![44u8] + l2) + ny + t);
            lemma_parse_dec_emitted(pre + l1 + nx + seq![44u8] + l2, self.size.y as u64, t);
        }
    }

    /// Appends the text payload.
    pub fn encode_text(&self, out: &mut Vec<u8>)
        requires
            self.wf(),
        ensures
            final(out)@ == old(out)@ + self.enc_text(),
    {
        emit_lit("{\"size\":{\"x\":", out);
        emit_dec_u64(self.size.x as u64, out);
        out.push(44);
        emit_lit("\"y\":", out);
        emit_dec_u64(self.size.y as u64, out);
        out.push(125);
        out.push(44);
        emit_lit("\"data\":", out);
        emit_u8_array(&self.data, out);
        out.push(125);
        assert(out@ =~= old(out)@ + self.enc_text());
    }

    /// Reads a text payload, exactly as [`ImageAsset::spec_parse_text`]: the
    /// pixel array must match the size, and the result is unnamed.
    pub fn decode_text(b: &Vec<u8>, pos: usize) -> (r: Option<(Self, usize)>)
        requires
            pos <= b@.len(),
        ensures
            match r {
                Some((v, e)) => {
                    &&& Self::spec_parse_text(b@, pos as int) == Some(((v.size, v.data@), e as int))
                    &&& v.wf()
                    &&& v.spec_name() == Seq::<char>::empty()
                },
                None => Self::spec_parse_text(b@, pos as int) is None,
            },
    {
        let p1 = match expect_lit(b, pos, "{\"size\":{\"x\":") {
            None => {
                return None;
            },
            Some(p) => p,
        };
        let (x, p2) = match parse_dec_u64(b, p1) {
            None => {
                return None;
            },
            Some(v) => v,
        };
        if x > 0xffff_ffffu64 || !(p2 < b.len() && b[p2] == 44) {
            return None;
        }
        let p3 = match expect_lit(b, p2 + 1, "\"y\":") {
            None => {
                return None;
            },
            Some(p) => p,
        };
        let (y, p4) = match parse_dec_u64(b, p3) {
            None => {
                return None;
            },
            Some(v) => v,
        };
        if y > 0xffff_ffffu64 || b.len() - p4 < 2 || b[p4] != 125 || b[p4 + 1] != 44 {
            return None;
        }
        let p5 = match expect_lit(b, p4 + 2, "\"data\":") {
            None => {
                return None;
            },
            Some(p) => p,
        };
        let (d, p6) = match parse_u8_array(b, p5) {
            None => {
                return None;
            },
            Some(v) => v,
        };
        proof {
            assert((x as u128) * (y as u128) * 4 <= u128::MAX) by (nonlinear_arith)
                requires
                    x <= 0xffff_ffffu64,
                    y <= 0xffff_ffffu64,
            ;
        }
        let need128: u128 = (x as u128) * (y as u128) * 4;
        if !(p6 < b.len() && b[p6] == 125 && (d.len() as u128) == need128) {
            return None;
        }
        let v = Self { size: Vec2u::new(x as u32, y as u32), data: d, name: String::new() };
        Some((v, p6 + 1))
    }

    /// Reading a text payload just past a known prefix yields the written
    /// fields.
    #[verifier::rlimit(100)]
    pub proof fn lemma_parse_text_emitted(self, pre: Seq<u8>, rest: Seq<u8>)
        requires
            self.wf(),
        ensures
            Self::spec_parse_text(pre + self.enc_text() + rest, pre.len() as int) == Some(
                ((self.size, self.data@), pre.len() + self.enc_text().len() as int),
            ),
    {
        let b = pre + self.enc_text() + rest;
        let sp = self.enc_size_prefix();
        let l3 = lit("\"data\":"@);
        let arr = dec_u8_array(self.data@);
        let p4 = pre.len() + sp.len() as int;
        let p5 = p4 + l3.len() as int;
        let p6 = p5 + arr.len() as int;
        assert(Self::spec_parse_size_prefix(b, pre.len() as int) == Some(
            ((self.size.x as u64, self.size.y as u64), p4),
        )) by {
            let t = l3 + arr + seq![125u8] + rest;
            assert(b =~= pre + sp + t);
            self.lemma_parse_size_prefix_emitted(pre, t);
        }
        assert(spec_expect(b, p4, l3) == Some(p5)) by {
            let t = arr + seq![125u8] + rest;
            assert(b =~= (pre + sp) + l3 + t);
            lemma_expect_emitted(pre + sp, l3, t);
        }
        assert(spec_parse_u8_array(b, p5) == Some((self.data@, p6)) && b[p6] == 125) by {
            let t = seq![125u8] + rest;
            assert(b =~= (pre + sp + l3) + arr + t);
            lemma_parse_u8_array_emitted(pre + sp + l3, self.data@, t);
        }
        assert(p6 + 1 == pre.len() + self.enc_text().len() as int);
    }
}

/// A shader asset: the stage it runs at and its compiled bytecode.
#[derive(Debug)]
pub struct ShaderAsset {
    pub shader_type: ShaderType,
    pub code: Vec<u8>,
}

impl ShaderAsset {
    /// The bytecode length fits the wire format's 8-byte length prefix.
    pub open spec fn wf(&self) -> bool {
        self.code@.len() <= u64::MAX
    }

    /// A new shader from a stage and its bytecode.
    pub fn new(shader_type: ShaderType, code: &Vec<u8>) -> (r: Self)
        ensures
            r.shader_type == shader_type,
            r.code@ == code@,
    {
        Self { shader_type, code: code.clone() }
    }

    /// A default-initialized shader: a vertex shader with no bytecode.
    pub fn make_vertex_default() -> (r: Self)
        ensures
            r.shader_type == ShaderType::Vertex,
            r.code@ == Seq::<u8>::empty(),
    {
        Self { shader_type: ShaderType::Vertex, code: Vec::new() }
    }

    /// The binary payload: the stage's wire code, then the length-prefixed
    /// bytecode.
    pub open spec fn enc_bin(self) -> Seq<u8> {
        seq![self.shader_type.spec_code()] + lp_bytes(self.code@)
    }

    /// Reads a binary payload: a known stage code, then the bytecode.
    pub open spec fn spec_parse_bin(b: Seq<u8>, p: int) -> Option<((ShaderType, Seq<u8>), int)> {
        match spec_parse_u8(b, p) {
            None => None,
            Some((c, p1)) => match ShaderType::spec_of_code(c) {
                None => None,
                Some(st) => match spec_parse_lp_bytes(b, p1) {
                    None => None,
                    Some((d, p2)) => Some(((st, d), p2)),
                },
            },
        }
    }

    /// Appends the binary payload.
    pub fn encode_bin(&self, out: &mut Vec<u8>)
        ensures
            final(out)@ == old(out)@ + self.enc_bin(),
    {
        emit_u8(self.shader_type.code(), out);
        emit_lp_bytes(&self.code, out);
        assert(out@ =~= old(out)@ + self.enc_bin());
    }

    /// Reads a binary payload, exactly as [`ShaderAsset::spec_parse_bin`].
    pub fn decode_bin(b: &Vec<u8>, pos: usize) -> (r: Option<(Self, usize)>)
        ensures
            match r {
                Some((v, e)) => Self::spec_parse_bin(b@, pos as int) == Some(
                    ((v.shader_type, v.code@), e as int),
                ) && v.wf(),
                None => Self::spec_parse_bin(b@, pos as int) is None,
            },
    {
        match parse_u8(b, pos) {
            None => None,
            Some((c, p1)) => match ShaderType::of_code(c) {
                None => None,
                Some(st) => match parse_lp_bytes(b, p1) {
                    None => None,
                    Some((d, p2)) => {
                        let code_len = d.len();
                        assert(code_len as int == d@.len() && d@.len() <= u64::MAX);
                        Some((Self { shader_type: st, code: d }, p2))
                    },
                },
            },
        }
    }

    /// Reading a binary payload just past a known prefix yields the written
    /// fields.
    pub proof fn lemma_parse_bin_emitted(self, pre: Seq<u8>, rest: Seq<u8>)
        requires
            self.code@.len() <= u64::MAX,
        ensures
            Self::spec_parse_bin(pre + self.enc_bin() + rest, pre.len() as int) == Some(
                ((self.shader_type, self.code@), pre.len() + self.enc_bin().len() as int),
            ),
    {
        vstd::bytes::lemma_auto_spec_u64_to_from_le_bytes();
        let b = pre + self.enc_bin() + rest;
        let c = self.shader_type.spec_code();
        assert(b =~= pre + seq![c] + (lp_bytes(self.code@) + rest));
        lemma_parse_u8_emitted(pre, c, lp_bytes(self.code@) + rest);
        assert(b =~= (pre + seq![c]) + lp_bytes(self.code@) + rest);
        lemma_parse_lp_bytes_emitted(pre + seq![c], self.code@, rest);
    }

    /// The text payload: the stage's wire code, then the bytecode as an
    /// array.
    pub open spec fn enc_text(self) -> Seq<u8> {
        lit("{\"shader_type\":"@) + dec_bytes(self.shader_type.spec_code() as nat) + seq![44u8]
            + lit("\"code\":"@) + dec_u8_array(self.code@) + seq![125u8]
    }

    /// Reads a text payload.
    pub open spec fn spec_parse_text(b: Seq<u8>, p: int) -> Option<((ShaderType, Seq<u8>), int)> {
        match spec_expect(b, p, lit("{\"shader_type\":"@)) {
            None => None,
            Some(p1) => match spec_parse_dec(b, p1) {
                None => None,
                Some((c, p2)) => {
                    if c > 255 || !(0 <= p2 < b.len() && b[p2] == 44) {
                        None
                    } else {
                        match ShaderType::spec_of_code(c as u8) {
                            None => None,
                            Some(st) => match spec_expect(b, p2 + 1, lit("\"code\":"@)) {
                                None => None,
                                Some(p3) => match spec_parse_u8_array(b, p3) {
                                    None => None,
                                    Some((d, p4)) => {
                                        if 0 <= p4 < b.len() && b[p4] == 125 {
                                            Some(((st, d), p4 + 1))
                                        } else {
                                            None
                                        }
                                    },
                                },
                            },
                        }
                    }
                },
            },
        }
    }

    /// Appends the text payload.
    pub fn encode_text(&self, out: &mut Vec<u8>)
        ensures
            final(out)@ == old(out)@ + self.enc_text(),
    {
        emit_lit("{\"shader_type\":", out);
        emit_dec_u64(self.shader_type.code() as u64, out);
        out.push(44);
        emit_lit("\"code\":", out);
        emit_u8_array(&self.code, out);
        out.push(125);
        assert(out@ =~= old(out)@ + self.enc_text());
    }

    /// Reads a text payload, exactly as [`ShaderAsset::spec_parse_text`].
    pub fn decode_text(b: &Vec<u8>, pos: usize) -> (r: Option<(Self, usize)>)
        requires
            pos <= b@.len(),
        ensures
            match r {
                Some((v, e)) => Self::spec_parse_text(b@, pos as int) == Some(
                    ((v.shader_type, v.code@), e as int),
                ) && v.wf(),
                None => Self::spec_parse_text(b@, pos as int) is None,
            },
    {
        let p1 = match expect_lit(b, pos, "{\"shader_type\":") {
            None => {
                return None;
            },
            Some(p) => p,
        };
        let (c, p2) = match parse_dec_u64(b, p1) {
            None => {
                return None;
            },
            Some(v) => v,
        };
        if c > 255 || !(p2 < b.len() && b[p2] == 44) {
            return None;
        }
        let st = match ShaderType::of_code(c as u8) {
            None => {
                return None;
            },
            Some(s) => s,
        };
        let p3 = match expect_lit(b, p2 + 1, "\"code\":") {
            None => {
                return None;
            },
            Some(p) => p,
        };
        let (d, p4) = match parse_u8_array(b, p3) {
            None => {
                return None;
            },
            Some(v) => v,
        };
        if !(p4 < b.len() && b[p4] == 125) {
            return None;
        }
        let code_len = d.len();
        assert(code_len as int == d@.len() && d@.len() <= u64::MAX);
        Some((Self { shader_type: st, code: d }, p4 + 1))
    }

    /// Reading a text payload just past a known prefix yields the written
    /// fields.
    #[verifier::rlimit(100)]
    pub proof fn lemma_parse_text_emitted(self, pre: Seq<u8>, rest: Seq<u8>)
        ensures
            Self::spec_parse_text(pre + self.enc_text() + rest, pre.len() as int) == Some(
                ((self.shader_type, self.code@), pre.len() + self.enc_text().len() as int),
            ),
    {
        let b = pre + self.enc_text() + rest;
        let l1 = lit("{\"shader_type\":"@);
        let nc = dec_bytes(self.shader_type.spec_code() as nat);
        let l2 = lit("\"code\":"@);
        let arr = dec_u8_array(self.code@);
        let t2 = nc + seq![44u8] + l2 + arr + seq![125u8] + rest;
        assert(b =~= pre + l1 + t2);
        lemma_expect_emitted(pre, l1, t2);
        let p1 = pre.len() + l1.len() as int;
        let t3 = seq![44u8] + l2 + arr + seq![125u8] + rest;
        assert(b =~= (pre + l1) + nc + t3);
        lemma_parse_dec_emitted(pre + l1, self.shader_type.spec_code() as u64, t3);
        let p2 = p1 + nc.len() as int;
        assert(b[p2] == 44);
        let t4 = arr + seq![125u8] + rest;
        assert(b =~= (pre + l1 + nc + seq![44u8]) + l2 + t4);
        lemma_expect_emitted(pre + l1 + nc + seq![44u8], l2, t4);
        let p3 = p2 + 1 + l2.len() as int;
        let t5 = seq![125u8] + rest;
        assert(b =~= (pre + l1 + nc + seq![44u8] + l2) + arr + t5);
        lemma_parse_u8_array_emitted(pre + l1 + nc + seq![44u8] + l2, self.code@, t5);
        let p4 = p3 + arr.len() as int;
        assert(b[p4] == 125);
        assert(p4 + 1 == pre.len() + self.enc_text().len() as int);
    }
}


/// The dispatch tag naming one concrete asset type of the closed set.
#[derive(Debug, Clone, Copy, PartialEq, Eq, Structural, Hash)]
pub enum AssetKind {
    Image,
    Shader,
}

/// What one type-erased asset value carries on the wire: its concrete type's
/// tag and the mathematical contents of its payload fields.
pub enum AssetWire {
    Image { size: Vec2u, data: Seq<u8> },
    Shader { shader_type: ShaderType, code: Seq<u8> },
}

/// A type-erased, owned asset value: exactly one concrete record.
///
/// Narrowing back to a concrete type is checked: it fails, rather than
/// aliasing the wrong type, when the stored record is of another type.
#[derive(Debug)]
pub enum AssetRecord {
    Image(ImageAsset),
    Shader(ShaderAsset),
}

impl AssetRecord {
    /// The tag of the concrete type stored in this value.
    pub open spec fn kind(self) -> AssetKind {
        match self {
            AssetRecord::Image(_) => AssetKind::Image,
            AssetRecord::Shader(_) => AssetKind::Shader,
        }
    }

    /// Structural well-formedness of the stored record.
    pub open spec fn wf(self) -> bool {
        match self {
            AssetRecord::Image(v) => v.wf(),
            AssetRecord::Shader(v) => v.wf(),
        }
    }

    /// The wire contents of the stored record.
    pub open spec fn wire(self) -> AssetWire {
        match self {
            AssetRecord::Image(v) => AssetWire::Image { size: v.size, data: v.data@ },
            AssetRecord::Shader(v) => AssetWire::Shader {
                shader_type: v.shader_type,
                code: v.code@,
            },
        }
    }

    /// Whether this is the default-initialized value of its concrete type:
    /// an empty, unnamed image, or a vertex shader with no bytecode.
    pub open spec fn is_default(self) -> bool {
        match self {
            AssetRecord::Image(v) => v.size.x == 0 && v.size.y == 0 && v.data@ == Seq::<
                u8,
            >::empty() && v.spec_name() == Seq::<char>::empty(),
            AssetRecord::Shader(v) => v.shader_type == ShaderType::Vertex && v.code@ == Seq::<
                u8,
            >::empty(),
        }
    }

    /// Whether every field that the wire does not carry is still at its
    /// default; true of freshly decoded values.
    pub open spec fn unnamed(self) -> bool {
        match self {
            AssetRecord::Image(v) => v.spec_name() == Seq::<char>::empty(),
            AssetRecord::Shader(_) => true,
        }
    }

    /// How the post-load hook relates a value before and after it runs: the
    /// wire contents are kept, and the value now carries the logical name.
    pub open spec fn post_load_rel(pre: Self, post: Self, name: Seq<char>) -> bool {
        &&& post.wire() == pre.wire()
        &&& post.kind() == pre.kind()
        &&& match post {
            AssetRecord::Image(v) => v.spec_name() == name,
            AssetRecord::Shader(_) => true,
        }
    }

    /// Returns the tag of the concrete type stored in this value.
    pub fn get_kind(&self) -> (k: AssetKind)
        ensures
            k == self.kind(),
    {
        match self {
            AssetRecord::Image(_) => AssetKind::Image,
            AssetRecord::Shader(_) => AssetKind::Shader,
        }
    }

    /// A default-initialized value of the concrete type `k` names.
    pub fn make_default(k: AssetKind) -> (r: Self)
        ensures
            r.kind() == k,
            r.is_default(),
            r.wf(),
            r.unnamed(),
    {
        match k {
            AssetKind::Image => AssetRecord::Image(ImageAsset::new()),
            AssetKind::Shader => AssetRecord::Shader(ShaderAsset::make_vertex_default()),
        }
    }

    /// The hierarchy-specific post-load hook: attaches the logical name so
    /// the value can self-report its identity later.
    pub fn post_load(&mut self, name: &str)
        ensures
            Self::post_load_rel(*old(self), *final(self), name@),
    {
        match self {
            AssetRecord::Image(v) => {
                AssetPostLoad::post_load(v, name);
            },
            AssetRecord::Shader(v) => {
                AssetPostLoad::post_load(v, name);
            },
        }
    }

    /// The concrete type's own binary payload.
    pub open spec fn enc_bin(self) -> Seq<u8> {
        match self {
            AssetRecord::Image(v) => v.enc_bin(),
            AssetRecord::Shader(v) => v.enc_bin(),
        }
    }

    /// The concrete type's own text payload.
    pub open spec fn enc_text(self) -> Seq<u8> {
        match self {
            AssetRecord::Image(v) => v.enc_text(),
            AssetRecord::Shader(v) => v.enc_text(),
        }
    }

    /// Reads the binary payload of the concrete type `k` names.
    pub open spec fn spec_parse_bin(k: AssetKind, b: Seq<u8>, p: int) -> Option<(AssetWire, int)> {
        match k {
            AssetKind::Image => match ImageAsset::spec_parse_bin(b, p) {
                None => None,
                Some(((size, data), e)) => Some((AssetWire::Image { size, data }, e)),
            },
            AssetKind::Shader => match ShaderAsset::spec_parse_bin(b, p) {
                None => None,
                Some(((shader_type, code), e)) => Some(
                    (AssetWire::Shader { shader_type, code }, e),
                ),
            },
        }
    }

    /// Reads the text payload of the concrete type `k` names.
    pub open spec fn spec_parse_text(k: AssetKind, b: Seq<u8>, p: int) -> Option<(AssetWire, int)> {
        match k {
            AssetKind::Image => match ImageAsset::spec_parse_text(b, p) {
                None => None,
                Some(((size, data), e)) => Some((AssetWire::Image { size, data }, e)),
            },
            AssetKind::Shader => match ShaderAsset::spec_parse_text(b, p) {
                None => None,
                Some(((shader_type, code), e)) => Some(
                    (AssetWire::Shader { shader_type, code }, e),
                ),
            },
        }
    }

    /// Appends the stored record's binary payload.
    pub fn encode_bin(&self, out: &mut Vec<u8>)
        requires
            self.wf(),
        ensures
            final(out)@ == old(out)@ + self.enc_bin(),
    {
        match self {
            AssetRecord::Image(v) => v.encode_bin(out),
            AssetRecord::Shader(v) => v.encode_bin(out),
        }
    }

    /// Appends the stored record's text payload.
    pub fn encode_text(&self, out: &mut Vec<u8>)
        requires
            self.wf(),
        ensures
            final(out)@ == old(out)@ + self.enc_text(),
    {
        match self {
            AssetRecord::Image(v) => v.encode_text(out),
            AssetRecord::Shader(v) => v.encode_text(out),
        }
    }

    /// Reads a binary payload as the concrete type `k` names, exactly as
    /// [`AssetRecord::spec_parse_bin`]; the result is well-formed, unnamed,
    /// and of that type.
    pub fn decode_bin(k: AssetKind, b: &Vec<u8>, pos: usize) -> (r: Option<(Self, usize)>)
        ensures
            match r {
                Some((v, e)) => {
                    &&& Self::spec_parse_bin(k, b@, pos as int) == Some((v.wire(), e as int))
                    &&& v.kind() == k
                    &&& v.wf()
                    &&& v.unnamed()
                },
                None => Self::spec_parse_bin(k, b@, pos as int) is None,
            },
    {
        match k {
            AssetKind::Image => match ImageAsset::decode_bin(b, pos) {
                None => None,
                Some((v, e)) => Some((AssetRecord::Image(v), e)),
            },
            AssetKind::Shader => match ShaderAsset::decode_bin(b, pos) {
                None => None,
                Some((v, e)) => Some((AssetRecord::Shader(v), e)),
            },
        }
    }

    /// Reads a text payload as the concrete type `k` names, exactly as
    /// [`AssetRecord::spec_parse_text`]; the result is well-formed, unnamed,
    /// and of that type.
    pub fn decode_text(k: AssetKind, b: &Vec<u8>, pos: usize) -> (r: Option<(Self, usize)>)
        requires
            pos <= b@.len(),
        ensures
            match r {
                Some((v, e)) => {
                    &&& Self::spec_parse_text(k, b@, pos as int) == Some((v.wire(), e as int))
                    &&& v.kind() == k
                    &&& v.wf()
                    &&& v.unnamed()
                },
                None => Self::spec_parse_text(k, b@, pos as int) is None,
            },
    {
        match k {
            AssetKind::Image => match ImageAsset::decode_text(b, pos) {
                None => None,
                Some((v, e)) => Some((AssetRecord::Image(v), e)),
            },
            AssetKind::Shader => match ShaderAsset::decode_text(b, pos) {
                None => None,
                Some((v, e)) => Some((AssetRecord::Shader(v), e)),
            },
        }
    }

    /// Reading a binary payload just past a known prefix yields the written
    /// record's wire contents.
    pub proof fn lemma_parse_bin_emitted(self, pre: Seq<u8>, rest: Seq<u8>)
        requires
            self.wf(),
        ensures
            Self::spec_parse_bin(self.kind(), pre + self.enc_bin() + rest, pre.len() as int)
                == Some((self.wire(), pre.len() + self.enc_bin().len() as int)),
    {
        match self {
            AssetRecord::Image(v) => v.lemma_parse_bin_emitted(pre, rest),
            AssetRecord::Shader(v) => v.lemma_parse_bin_emitted(pre, rest),
        }
    }

    /// Reading a text payload just past a known prefix yields the written
    /// record's wire contents.
    pub proof fn lemma_parse_text_emitted(self, pre: Seq<u8>, rest: Seq<u8>)
        requires
            self.wf(),
        ensures
            Self::spec_parse_text(self.kind(), pre + self.enc_text() + rest, pre.len() as int)
                == Some((self.wire(), pre.len() + self.enc_text().len() as int)),
    {
        match self {
            AssetRecord::Image(v) => v.lemma_parse_text_emitted(pre, rest),
            AssetRecord::Shader(v) => v.lemma_parse_text_emitted(pre, rest),
        }
    }
}

/// The hierarchy-specific hook run on a freshly decoded value before it
/// enters the cache.
pub trait AssetPostLoad: Sized {
    /// How the hook relates the value before and after it runs.
    spec fn post_load_spec(pre: Self, post: Self, name: Seq<char>) -> bool;

    /// Attaches the logical name the value was loaded under.
    fn post_load(&mut self, name: &str)
        ensures
            Self::post_load_spec(*old(self), *final(self), name@),
    ;
}

impl AssetPostLoad for ImageAsset {
    /// The hook keeps the wire fields and records the logical name.
    open spec fn post_load_spec(pre: Self, post: Self, name: Seq<char>) -> bool {
        post.size == pre.size && post.data == pre.data && post.spec_name() == name
    }

    fn post_load(&mut self, name: &str) {
        self.name = String::from_str(name);
    }
}

impl AssetPostLoad for ShaderAsset {
    /// The hook leaves a shader unchanged.
    open spec fn post_load_spec(pre: Self, post: Self, name: Seq<char>) -> bool {
        post == pre
    }

    fn post_load(&mut self, name: &str) {
    }
}

/// The capability interface of one concrete asset type: what the generic
/// registration, construction, and narrowing machinery needs of it.
pub trait AssetExt: AssetPostLoad {
    /// Structural validity.
    spec fn inv(&self) -> bool;

    /// Whether this is the default-initialized value.
    spec fn spec_is_default(&self) -> bool;

    /// The dispatch tag of this concrete type.
    spec fn spec_kind() -> AssetKind;

    /// This value as a type-erased record.
    spec fn spec_record(self) -> AssetRecord;

    /// Returns the dispatch tag of this concrete type.
    fn kind() -> (k: AssetKind)
        ensures
            k == Self::spec_kind(),
    ;

    /// Constructs a new, default-initialized value of this concrete type.
    fn make_default() -> (r: Self)
        ensures
            r.inv(),
            r.spec_is_default(),
    ;

    /// Wraps this value into a type-erased record.
    fn into_record(self) -> (r: AssetRecord)
        ensures
            r == self.spec_record(),
    ;

    /// Checked narrowing: the stored concrete value when the record is of
    /// this type, and nothing otherwise.
    fn narrow(rec: &AssetRecord) -> (r: Option<&Self>)
        ensures
            match r {
                Some(v) => *rec == v.spec_record(),
                None => forall|v: Self| *rec != #[trigger] v.spec_record(),
            },
    ;

    /// Wrapping is faithful: the record carries this type's tag, and its
    /// validity is the value's.
    proof fn lemma_record_kind(v: Self)
        ensures
            v.spec_record().kind() == Self::spec_kind(),
            v.spec_record().wf() <==> v.inv(),
    ;
}

impl AssetExt for ImageAsset {
    open spec fn inv(&self) -> bool {
        self.wf()
    }

    open spec fn spec_is_default(&self) -> bool {
        self.size.x == 0 && self.size.y == 0 && self.data@ == Seq::<u8>::empty()
            && self.spec_name() == Seq::<char>::empty()
    }

    open spec fn spec_kind() -> AssetKind {
        AssetKind::Image
    }

    open spec fn spec_record(self) -> AssetRecord {
        AssetRecord::Image(self)
    }

    fn kind() -> AssetKind {
        AssetKind::Image
    }

    fn make_default() -> Self {
        ImageAsset::new()
    }

    fn into_record(self) -> AssetRecord {
        AssetRecord::Image(self)
    }

    fn narrow(rec: &AssetRecord) -> Option<&Self> {
        match rec {
            AssetRecord::Image(v) => Some(v),
            _ => None,
        }
    }

    proof fn lemma_record_kind(v: Self) {
    }
}

impl AssetExt for ShaderAsset {
    open spec fn inv(&self) -> bool {
        self.wf()
    }

    open spec fn spec_is_default(&self) -> bool {
        self.shader_type == ShaderType::Vertex && self.code@ == Seq::<u8>::empty()
    }

    open spec fn spec_kind() -> AssetKind {
        AssetKind::Shader
    }

    open spec fn spec_record(self) -> AssetRecord {
        AssetRecord::Shader(self)
    }

    fn kind() -> AssetKind {
        AssetKind::Shader
    }

    fn make_default() -> Self {
        ShaderAsset::make_vertex_default()
    }

    fn into_record(self) -> AssetRecord {
        AssetRecord::Shader(self)
    }

    fn narrow(rec: &AssetRecord) -> Option<&Self> {
        match rec {
            AssetRecord::Shader(v) => Some(v),
            _ => None,
        }
    }

    proof fn lemma_record_kind(v: Self) {
    }
}


/// Registers one concrete asset type: the descriptor is built from the
/// type's capability interface and the caller's process-stable identity and
/// display name, once, during the startup phase.
pub fn register_asset_type<T: AssetExt>(
    cat: &mut crate::catalog::Catalog<AssetKind>,
    type_identity: u64,
    display_name: &str,
) -> (r: Result<(), crate::Error>)
    ensures
        match r {
            Ok(()) => {
                &&& crate::catalog::spec_find_name(old(cat).descs(), display_name@) is None
                &&& crate::catalog::spec_find_id(old(cat).descs(), type_identity) is None
                &&& crate::catalog::spec_find_kind(old(cat).descs(), T::spec_kind()) is None
                &&& final(cat).descs().len() == old(cat).descs().len() + 1
                &&& final(cat).descs().subrange(0, old(cat).descs().len() as int) == old(
                    cat,
                ).descs()
                &&& final(cat).descs().last().type_identity == type_identity
                &&& final(cat).descs().last().display_name@ == display_name@
                &&& final(cat).descs().last().kind == T::spec_kind()
                &&& old(cat).wf() ==> final(cat).wf()
            },
            Err(_) => {
                &&& *final(cat) == *old(cat)
                &&& !(crate::catalog::spec_find_name(old(cat).descs(), display_name@) is None
                    && crate::catalog::spec_find_id(old(cat).descs(), type_identity) is None
                    && crate::catalog::spec_find_kind(old(cat).descs(), T::spec_kind()) is None)
            },
        },
{
    let r = cat.register(crate::catalog::Descriptor::new(type_identity, display_name, T::kind()));
    proof {
        if r is Ok {
            assert(final(cat).descs().subrange(0, old(cat).descs().len() as int) =~= old(
                cat,
            ).descs());
        }
    }
    r
}

} // verus!
