//! The wire-stable binary record encoding.
//!
//! A record is written as: the UTF-8 bytes of its name behind a 64-bit
//! little-endian length prefix, a 64-bit little-endian count of values, and
//! each value as one tag byte followed by its payload. Strings carry their
//! UTF-8 bytes behind a length prefix, booleans one byte, and every integer
//! its two's-complement image in eight little-endian bytes. Decoding accepts
//! exactly the canonical encodings and reports anything else as corrupt.

use vstd::prelude::*;
use vstd::bytes::*;
use vstd::utf8::*;
use vstd::slice::slice_subrange;

use crate::errors::KvError;
use crate::record::{Record, RecordView, TypeView, Types, record_wf, type_wf};

verus! {

pub const TAG_STRING: u8 = 0;

pub const TAG_BOOL: u8 = 1;

pub const TAG_I16: u8 = 2;

pub const TAG_I32: u8 = 3;

pub const TAG_I64: u8 = 4;

pub const TAG_U16: u8 = 5;

pub const TAG_U32: u8 = 6;

pub const TAG_U64: u8 = 7;

// ---------------------------------------------------------------------------
// Two's-complement images of the signed widths.
// ---------------------------------------------------------------------------

pub open spec fn i16_as_u16(x: i16) -> u16 {
    if x >= 0 {
        x as u16
    } else {
        (x + 0x1_0000) as u16
    }
}

pub open spec fn u16_as_i16(u: u16) -> i16 {
    if u < 0x8000 {
        u as i16
    } else {
        (u - 0x1_0000) as i16
    }
}

pub open spec fn i32_as_u32(x: i32) -> u32 {
    if x >= 0 {
        x as u32
    } else {
        (x + 0x1_0000_0000) as u32
    }
}

pub open spec fn u32_as_i32(u: u32) -> i32 {
    if u < 0x8000_0000 {
        u as i32
    } else {
        (u - 0x1_0000_0000) as i32
    }
}

pub open spec fn i64_as_u64(x: i64) -> u64 {
    if x >= 0 {
        x as u64
    } else {
        (x + 0x1_0000_0000_0000_0000) as u64
    }
}

pub open spec fn u64_as_i64(u: u64) -> i64 {
    if u < 0x8000_0000_0000_0000 {
        u as i64
    } else {
        (u - 0x1_0000_0000_0000_0000) as i64
    }
}

pub proof fn lemma_i16_image(x: i16)
    ensures
        u16_as_i16(i16_as_u16(x)) == x,
{
}

pub proof fn lemma_i32_image(x: i32)
    ensures
        u32_as_i32(i32_as_u32(x)) == x,
{
}

pub proof fn lemma_i64_image(x: i64)
    ensures
        u64_as_i64(i64_as_u64(x)) == x,
{
}

fn conv_i16_u16(x: i16) -> (u: u16)
    ensures
        u == i16_as_u16(x),
{
    if x >= 0 {
        x as u16
    } else {
        ((x as i32) + 0x1_0000) as u16
    }
}

fn conv_u16_i16(u: u16) -> (x: i16)
    ensures
        x == u16_as_i16(u),
{
    if u < 0x8000 {
        u as i16
    } else {
        ((u as i32) - 0x1_0000) as i16
    }
}

fn conv_i32_u32(x: i32) -> (u: u32)
    ensures
        u == i32_as_u32(x),
{
    if x >= 0 {
        x as u32
    } else {
        ((x as i64) + 0x1_0000_0000) as u32
    }
}

fn conv_u32_i32(u: u32) -> (x: i32)
    ensures
        x == u32_as_i32(u),
{
    if u < 0x8000_0000 {
        u as i32
    } else {
        ((u as i64) - 0x1_0000_0000) as i32
    }
}

fn conv_i64_u64(x: i64) -> (u: u64)
    ensures
        u == i64_as_u64(x),
{
    if x >= 0 {
        x as u64
    } else {
        ((x as i128) + 0x1_0000_0000_0000_0000) as u64
    }
}

fn conv_u64_i64(u: u64) -> (x: i64)
    ensures
        x == u64_as_i64(u),
{
    if u < 0x8000_0000_0000_0000 {
        u as i64
    } else {
        ((u as i128) - 0x1_0000_0000_0000_0000) as i64
    }
}

// ---------------------------------------------------------------------------
// What the encoder writes.
// ---------------------------------------------------------------------------

/// A character sequence on the wire: its UTF-8 bytes behind a length prefix.
pub open spec fn enc_str(s: Seq<char>) -> Seq<u8> {
    spec_u64_to_le_bytes(encode_utf8(s).len() as u64) + encode_utf8(s)
}

/// One value on the wire: a tag byte followed by the payload.
pub open spec fn enc_value(t: TypeView) -> Seq<u8> {
    match t {
        TypeView::String(s) => seq![TAG_STRING] + enc_str(s),
        TypeView::Bool(b) => seq![TAG_BOOL, if b { 1u8 } else { 0u8 }],
        TypeView::I16(x) => seq![TAG_I16] + spec_u64_to_le_bytes(i16_as_u16(x) as u64),
        TypeView::I32(x) => seq![TAG_I32] + spec_u64_to_le_bytes(i32_as_u32(x) as u64),
        TypeView::I64(x) => seq![TAG_I64] + spec_u64_to_le_bytes(i64_as_u64(x)),
        TypeView::U16(x) => seq![TAG_U16] + spec_u64_to_le_bytes(x as u64),
        TypeView::U32(x) => seq![TAG_U32] + spec_u64_to_le_bytes(x as u64),
        TypeView::U64(x) => seq![TAG_U64] + spec_u64_to_le_bytes(x),
    }
}

/// A sequence of values on the wire, in order.
pub open spec fn enc_values(vs: Seq<TypeView>) -> Seq<u8>
    decreases vs.len(),
{
    if vs.len() == 0 {
        Seq::empty()
    } else {
        enc_value(vs[0]) + enc_values(vs.skip(1))
    }
}

/// A whole record on the wire.
pub open spec fn enc_record(r: RecordView) -> Seq<u8> {
    enc_str(r.name) + spec_u64_to_le_bytes(r.values.len() as u64) + enc_values(r.values)
}

// ---------------------------------------------------------------------------
// What the decoder accepts. Each parser consumes a prefix and yields the
// parsed value together with the remaining bytes; `None` is a corrupt input.
// ---------------------------------------------------------------------------

pub open spec fn dec_u64(s: Seq<u8>) -> Option<(u64, Seq<u8>)> {
    if s.len() >= 8 {
        Some((spec_u64_from_le_bytes(s.take(8)), s.skip(8)))
    } else {
        None
    }
}

pub open spec fn dec_str(s: Seq<u8>) -> Option<(Seq<char>, Seq<u8>)> {
    match dec_u64(s) {
        Some((n, rest)) => {
            if n <= rest.len() && valid_utf8(rest.take(n as int)) {
                Some((decode_utf8(rest.take(n as int)), rest.skip(n as int)))
            } else {
                None
            }
        },
        None => None,
    }
}

pub open spec fn dec_value(s: Seq<u8>) -> Option<(TypeView, Seq<u8>)> {
    if s.len() == 0 {
        None
    } else {
        let tag = s[0];
        let body = s.skip(1);
        if tag == TAG_STRING {
            match dec_str(body) {
                Some((t, rest)) => Some((TypeView::String(t), rest)),
                None => None,
            }
        } else if tag == TAG_BOOL {
            if body.len() >= 1 && (body[0] == 0 || body[0] == 1) {
                Some((TypeView::Bool(body[0] == 1), body.skip(1)))
            } else {
                None
            }
        } else if tag == TAG_I16 {
            match dec_u64(body) {
                Some((x, rest)) => if x <= u16::MAX as u64 {
                    Some((TypeView::I16(u16_as_i16(x as u16)), rest))
                } else {
                    None
                },
                None => None,
            }
        } else if tag == TAG_I32 {
            match dec_u64(body) {
                Some((x, rest)) => if x <= u32::MAX as u64 {
                    Some((TypeView::I32(u32_as_i32(x as u32)), rest))
                } else {
                    None
                },
                None => None,
            }
        } else if tag == TAG_I64 {
            match dec_u64(body) {
                Some((x, rest)) => Some((TypeView::I64(u64_as_i64(x)), rest)),
                None => None,
            }
        } else if tag == TAG_U16 {
            match dec_u64(body) {
                Some((x, rest)) => if x <= u16::MAX as u64 {
                    Some((TypeView::U16(x as u16), rest))
                } else {
                    None
                },
                None => None,
            }
        } else if tag == TAG_U32 {
            match dec_u64(body) {
                Some((x, rest)) => if x <= u32::MAX as u64 {
                    Some((TypeView::U32(x as u32), rest))
                } else {
                    None
                },
                None => None,
            }
        } else if tag == TAG_U64 {
            match dec_u64(body) {
                Some((x, rest)) => Some((TypeView::U64(x), rest)),
                None => None,
            }
        } else {
            None
        }
    }
}

pub open spec fn dec_values(s: Seq<u8>, n: nat) -> Option<(Seq<TypeView>, Seq<u8>)>
    decreases n,
{
    if n == 0 {
        Some((Seq::empty(), s))
    } else {
        match dec_value(s) {
            Some((v, rest)) => match dec_values(rest, (n - 1) as nat) {
                Some((vs, rest2)) => Some((seq![v] + vs, rest2)),
                None => None,
            },
            None => None,
        }
    }
}

/// The whole-record parser: a name, a count, that many values, and nothing
/// left over.
pub open spec fn dec_record(s: Seq<u8>) -> Option<RecordView> {
    match dec_str(s) {
        Some((name, r1)) => match dec_u64(r1) {
            Some((n, r2)) => match dec_values(r2, n as nat) {
                Some((vs, r3)) => if r3.len() == 0 {
                    Some(RecordView { name, values: vs })
                } else {
                    None
                },
                None => None,
            },
            None => None,
        },
        None => None,
    }
}

// ---------------------------------------------------------------------------
// The round-trip law: decoding what the encoder wrote yields the record back,
// tags, widths, signs and order preserved.
// ---------------------------------------------------------------------------

proof fn lemma_dec_u64_enc(x: u64, rest: Seq<u8>)
    ensures
        dec_u64(spec_u64_to_le_bytes(x) + rest) == Some((x, rest)),
{
    lemma_auto_spec_u64_to_from_le_bytes();
    let s = spec_u64_to_le_bytes(x) + rest;
    assert(s.take(8) =~= spec_u64_to_le_bytes(x));
    assert(s.skip(8) =~= rest);
}

proof fn lemma_dec_str_enc(t: Seq<char>, rest: Seq<u8>)
    requires
        encode_utf8(t).len() <= u64::MAX,
    ensures
        dec_str(enc_str(t) + rest) == Some((t, rest)),
{
    lemma_auto_spec_u64_to_from_le_bytes();
    let eb = encode_utf8(t);
    let n = eb.len() as u64;
    assert(enc_str(t) + rest =~= spec_u64_to_le_bytes(n) + (eb + rest));
    lemma_dec_u64_enc(n, eb + rest);
    assert((eb + rest).take(n as int) =~= eb);
    assert((eb + rest).skip(n as int) =~= rest);
    encode_utf8_valid_utf8(t);
    encode_utf8_decode_utf8(t);
}

proof fn lemma_dec_value_enc(v: TypeView, rest: Seq<u8>)
    requires
        type_wf(v),
    ensures
        dec_value(enc_value(v) + rest) == Some((v, rest)),
{
    lemma_auto_spec_u64_to_from_le_bytes();
    let s = enc_value(v) + rest;
    match v {
        TypeView::String(t) => {
            assert(s[0] == TAG_STRING);
            assert(s.skip(1) =~= enc_str(t) + rest);
            lemma_dec_str_enc(t, rest);
        },
        TypeView::Bool(b) => {
            assert(s[0] == TAG_BOOL);
            assert(s.skip(1) =~= seq![if b { 1u8 } else { 0u8 }] + rest);
            assert(s.skip(1)[0] == if b { 1u8 } else { 0u8 });
            assert(s.skip(1).skip(1) =~= rest);
        },
        TypeView::I16(x) => {
            assert(s[0] == TAG_I16);
            assert(s.skip(1) =~= spec_u64_to_le_bytes(i16_as_u16(x) as u64) + rest);
            lemma_dec_u64_enc(i16_as_u16(x) as u64, rest);
            lemma_i16_image(x);
        },
        TypeView::I32(x) => {
            assert(s[0] == TAG_I32);
            assert(s.skip(1) =~= spec_u64_to_le_bytes(i32_as_u32(x) as u64) + rest);
            lemma_dec_u64_enc(i32_as_u32(x) as u64, rest);
            lemma_i32_image(x);
        },
        TypeView::I64(x) => {
            assert(s[0] == TAG_I64);
            assert(s.skip(1) =~= spec_u64_to_le_bytes(i64_as_u64(x)) + rest);
            lemma_dec_u64_enc(i64_as_u64(x), rest);
            lemma_i64_image(x);
        },
        TypeView::U16(x) => {
            assert(s[0] == TAG_U16);
            assert(s.skip(1) =~= spec_u64_to_le_bytes(x as u64) + rest);
            lemma_dec_u64_enc(x as u64, rest);
        },
        TypeView::U32(x) => {
            assert(s[0] == TAG_U32);
            assert(s.skip(1) =~= spec_u64_to_le_bytes(x as u64) + rest);
            lemma_dec_u64_enc(x as u64, rest);
        },
        TypeView::U64(x) => {
            assert(s[0] == TAG_U64);
            assert(s.skip(1) =~= spec_u64_to_le_bytes(x) + rest);
            lemma_dec_u64_enc(x, rest);
        },
    }
}

proof fn lemma_dec_values_enc(vs: Seq<TypeView>, rest: Seq<u8>)
    requires
        forall|i: int| 0 <= i < vs.len() ==> type_wf(#[trigger] vs[i]),
    ensures
        dec_values(enc_values(vs) + rest, vs.len()) == Some((vs, rest)),
    decreases vs.len(),
{
    if vs.len() == 0 {
        assert(enc_values(vs) + rest =~= rest);
        assert(dec_values(rest, 0) == Some((Seq::<TypeView>::empty(), rest)));
        assert(vs =~= Seq::<TypeView>::empty());
    } else {
        let tail = vs.skip(1);
        assert(enc_values(vs) + rest =~= enc_value(vs[0]) + (enc_values(tail) + rest));
        lemma_dec_value_enc(vs[0], enc_values(tail) + rest);
        assert(forall|i: int| 0 <= i < tail.len() ==> type_wf(#[trigger] tail[i]));
        lemma_dec_values_enc(tail, rest);
        assert(seq![vs[0]] + tail =~= vs);
    }
}

/// The round-trip law: every representable record decodes from its own
/// encoding, preserving value tags, numeric widths, signs, and the order of
/// the value sequence.
pub proof fn lemma_record_round_trip(r: RecordView)
    requires
        record_wf(r),
    ensures
        dec_record(enc_record(r)) == Some(r),
{
    lemma_auto_spec_u64_to_from_le_bytes();
    let n = r.values.len() as u64;
    let middle = spec_u64_to_le_bytes(n) + enc_values(r.values);
    assert(enc_record(r) =~= enc_str(r.name) + middle);
    lemma_dec_str_enc(r.name, middle);
    lemma_dec_u64_enc(n, enc_values(r.values));
    assert(enc_values(r.values) =~= enc_values(r.values) + Seq::<u8>::empty());
    lemma_dec_values_enc(r.values, Seq::empty());
    assert(dec_record(enc_record(r)) == Some(RecordView { name: r.name, values: r.values }));
    assert(RecordView { name: r.name, values: r.values } =~= r);
}

// ---------------------------------------------------------------------------
// The executable encoder.
// ---------------------------------------------------------------------------

fn push_u64(out: &mut Vec<u8>, x: u64)
    ensures
        final(out)@ == old(out)@ + spec_u64_to_le_bytes(x),
{
    let mut b = u64_to_le_bytes(x);
    out.append(&mut b);
}

fn push_str(out: &mut Vec<u8>, s: &str)
    ensures
        final(out)@ == old(out)@ + enc_str(s@),
        encode_utf8(s@).len() <= u64::MAX,
{
    let bytes: Vec<u8> = s.as_bytes_vec();
    push_u64(out, bytes.len() as u64);
    let mut b = bytes;
    out.append(&mut b);
    assert(final(out)@ =~= old(out)@ + enc_str(s@));
}

fn push_value(out: &mut Vec<u8>, t: &Types)
    ensures
        final(out)@ == old(out)@ + enc_value(t@),
        type_wf(t@),
{
    match t {
        Types::String(s) => {
            out.push(TAG_STRING);
            push_str(out, s.as_str());
            assert(final(out)@ =~= old(out)@ + enc_value(t@));
        },
        Types::Bool(b) => {
            out.push(TAG_BOOL);
            out.push(if *b { 1u8 } else { 0u8 });
            assert(final(out)@ =~= old(out)@ + enc_value(t@));
        },
        Types::I16(x) => {
            out.push(TAG_I16);
            push_u64(out, conv_i16_u16(*x) as u64);
            assert(final(out)@ =~= old(out)@ + enc_value(t@));
        },
        Types::I32(x) => {
            out.push(TAG_I32);
            push_u64(out, conv_i32_u32(*x) as u64);
            assert(final(out)@ =~= old(out)@ + enc_value(t@));
        },
        Types::I64(x) => {
            out.push(TAG_I64);
            push_u64(out, conv_i64_u64(*x));
            assert(final(out)@ =~= old(out)@ + enc_value(t@));
        },
        Types::U16(x) => {
            out.push(TAG_U16);
            push_u64(out, *x as u64);
            assert(final(out)@ =~= old(out)@ + enc_value(t@));
        },
        Types::U32(x) => {
            out.push(TAG_U32);
            push_u64(out, *x as u64);
            assert(final(out)@ =~= old(out)@ + enc_value(t@));
        },
        Types::U64(x) => {
            out.push(TAG_U64);
            push_u64(out, *x);
            assert(final(out)@ =~= old(out)@ + enc_value(t@));
        },
    }
}

proof fn lemma_enc_values_push(vs: Seq<TypeView>, v: TypeView)
    ensures
        enc_values(vs.push(v)) == enc_values(vs) + enc_value(v),
    decreases vs.len(),
{
    if vs.len() == 0 {
        assert(vs.push(v).skip(1) =~= Seq::<TypeView>::empty());
        assert(vs.push(v)[0] == v);
        assert(enc_values(vs.push(v)) == enc_value(v) + enc_values(Seq::<TypeView>::empty()));
        assert(enc_value(v) + Seq::<u8>::empty() =~= enc_value(v));
        assert(vs =~= Seq::<TypeView>::empty());
        assert(Seq::<u8>::empty() + enc_value(v) =~= enc_value(v));
    } else {
        assert(vs.push(v).skip(1) =~= vs.skip(1).push(v));
        lemma_enc_values_push(vs.skip(1), v);
        assert(vs.push(v)[0] == vs[0]);
        assert(enc_values(vs.push(v)) == enc_value(vs[0]) + (enc_values(vs.skip(1)) + enc_value(
            v,
        )));
        assert(enc_value(vs[0]) + (enc_values(vs.skip(1)) + enc_value(v)) =~= (enc_value(vs[0])
            + enc_values(vs.skip(1))) + enc_value(v));
    }
}

/// Encodes a record into its wire bytes. The encoding is total: every
/// in-memory record is representable.
pub fn encode(r: &Record) -> (out: Vec<u8>)
    ensures
        out@ == enc_record(r@),
        record_wf(r@),
{
    let ghost vals = r@.values;
    let mut out: Vec<u8> = Vec::new();
    push_str(&mut out, r.name.as_str());
    let n = r.values.len();
    push_u64(&mut out, n as u64);
    let ghost prefix = out@;
    let mut i: usize = 0;
    while i < n
        invariant
            i <= n,
            n == r.values@.len(),
            vals == r@.values,
            vals.len() == n,
            out@ == prefix + enc_values(vals.take(i as int)),
            forall|j: int| 0 <= j < i ==> type_wf(#[trigger] vals[j]),
        decreases n - i,
    {
        assert(vals[i as int] == r.values@[i as int]@);
        push_value(&mut out, &r.values[i]);
        proof {
            assert(vals.take(i + 1) =~= vals.take(i as int).push(vals[i as int]));
            lemma_enc_values_push(vals.take(i as int), vals[i as int]);
            assert(prefix + enc_values(vals.take(i as int)) + enc_value(vals[i as int]) =~= prefix
                + (enc_values(vals.take(i as int)) + enc_value(vals[i as int])));
        }
        i = i + 1;
    }
    proof {
        assert(vals.take(n as int) =~= vals);
        assert(prefix + enc_values(vals) =~= enc_record(r@));
    }
    out
}

// ---------------------------------------------------------------------------
// The executable decoder.
// ---------------------------------------------------------------------------

/// Relies on core::str::from_utf8: it succeeds exactly on the valid UTF-8
/// byte sequences and yields the string whose characters are their decoding.
#[verifier::external_body]
pub(crate) fn utf8_to_str(v: &[u8]) -> (r: Option<&str>)
    ensures
        match r {
            Some(s) => valid_utf8(v@) && s@ == decode_utf8(v@),
            None => !valid_utf8(v@),
        },
{
    match core::str::from_utf8(v) {
        Ok(s) => Some(s),
        Err(_) => None,
    }
}

fn read_u64(bytes: &Vec<u8>, pos: usize) -> (r: Option<(u64, usize)>)
    requires
        pos <= bytes@.len(),
    ensures
        match r {
            Some(xp) => {
                &&& xp.1 == pos + 8
                &&& xp.1 <= bytes@.len()
                &&& dec_u64(bytes@.skip(pos as int)) == Some((xp.0, bytes@.skip(xp.1 as int)))
            },
            None => dec_u64(bytes@.skip(pos as int)) is None,
        },
{
    if bytes.len() - pos >= 8 {
        let sl = slice_subrange(bytes.as_slice(), pos, pos + 8);
        let x = u64_from_le_bytes(sl);
        proof {
            assert(bytes@.skip(pos as int).take(8) =~= bytes@.subrange(
                pos as int,
                pos as int + 8,
            ));
            assert(bytes@.skip(pos as int).skip(8) =~= bytes@.skip(pos as int + 8));
        }
        Some((x, pos + 8))
    } else {
        None
    }
}

fn read_str(bytes: &Vec<u8>, pos: usize) -> (r: Option<(String, usize)>)
    requires
        pos <= bytes@.len(),
    ensures
        match r {
            Some(sp) => {
                &&& pos <= sp.1 <= bytes@.len()
                &&& dec_str(bytes@.skip(pos as int)) == Some((sp.0@, bytes@.skip(sp.1 as int)))
                &&& encode_utf8(sp.0@).len() <= u64::MAX
            },
            None => dec_str(bytes@.skip(pos as int)) is None,
        },
{
    match read_u64(bytes, pos) {
        None => None,
        Some((n, p)) => {
            if n <= (bytes.len() - p) as u64 {
                let m = n as usize;
                let sl = slice_subrange(bytes.as_slice(), p, p + m);
                proof {
                    assert(sl@ =~= bytes@.skip(p as int).take(n as int));
                }
                match utf8_to_str(sl) {
                    Some(st) => {
                        let s = st.to_owned();
                        proof {
                            decode_utf8_encode_utf8(sl@);
                            assert(bytes@.skip(p as int).skip(n as int) =~= bytes@.skip(
                                p as int + n as int,
                            ));
                        }
                        Some((s, p + m))
                    },
                    None => None,
                }
            } else {
                None
            }
        },
    }
}

fn read_value(bytes: &Vec<u8>, pos: usize) -> (r: Option<(Types, usize)>)
    requires
        pos <= bytes@.len(),
    ensures
        match r {
            Some(tp) => {
                &&& pos <= tp.1 <= bytes@.len()
                &&& dec_value(bytes@.skip(pos as int)) == Some((tp.0@, bytes@.skip(tp.1 as int)))
                &&& type_wf(tp.0@)
            },
            None => dec_value(bytes@.skip(pos as int)) is None,
        },
{
    if pos >= bytes.len() {
        return None;
    }
    let tag = bytes[pos];
    let body_pos = pos + 1;
    proof {
        assert(bytes@.skip(pos as int)[0] == bytes@[pos as int]);
        assert(bytes@.skip(pos as int).skip(1) =~= bytes@.skip(body_pos as int));
    }
    if tag == TAG_STRING {
        match read_str(bytes, body_pos) {
            Some((s, p)) => Some((Types::String(s), p)),
            None => None,
        }
    } else if tag == TAG_BOOL {
        if bytes.len() - body_pos >= 1 {
            let b = bytes[body_pos];
            proof {
                assert(bytes@.skip(body_pos as int)[0] == bytes@[body_pos as int]);
                assert(bytes@.skip(body_pos as int).skip(1) =~= bytes@.skip(body_pos as int + 1));
            }
            if b == 0 || b == 1 {
                Some((Types::Bool(b == 1), body_pos + 1))
            } else {
                None
            }
        } else {
            None
        }
    } else if tag == TAG_I16 {
        match read_u64(bytes, body_pos) {
            Some((x, p)) => if x <= u16::MAX as u64 {
                Some((Types::I16(conv_u16_i16(x as u16)), p))
            } else {
                None
            },
            None => None,
        }
    } else if tag == TAG_I32 {
        match read_u64(bytes, body_pos) {
            Some((x, p)) => if x <= u32::MAX as u64 {
                Some((Types::I32(conv_u32_i32(x as u32)), p))
            } else {
                None
            },
            None => None,
        }
    } else if tag == TAG_I64 {
        match read_u64(bytes, body_pos) {
            Some((x, p)) => Some((Types::I64(conv_u64_i64(x)), p)),
            None => None,
        }
    } else if tag == TAG_U16 {
        match read_u64(bytes, body_pos) {
            Some((x, p)) => if x <= u16::MAX as u64 {
                Some((Types::U16(x as u16), p))
            } else {
                None
            },
            None => None,
        }
    } else if tag == TAG_U32 {
        match read_u64(bytes, body_pos) {
            Some((x, p)) => if x <= u32::MAX as u64 {
                Some((Types::U32(x as u32), p))
            } else {
                None
            },
            None => None,
        }
    } else if tag == TAG_U64 {
        match read_u64(bytes, body_pos) {
            Some((x, p)) => Some((Types::U64(x), p)),
            None => None,
        }
    } else {
        None
    }
}

fn read_values(bytes: &Vec<u8>, pos: usize, n: u64) -> (r: Option<(Vec<Types>, usize)>)
    requires
        pos <= bytes@.len(),
    ensures
        match r {
            Some(vp) => {
                &&& pos <= vp.1 <= bytes@.len()
                &&& vp.0@.len() == n
                &&& dec_values(bytes@.skip(pos as int), n as nat) == Some(
                    (vp.0@.map_values(|t: Types| t@), bytes@.skip(vp.1 as int)),
                )
                &&& forall|i: int| 0 <= i < vp.0@.len() ==> type_wf(#[trigger] vp.0@[i]@)
            },
            None => dec_values(bytes@.skip(pos as int), n as nat) is None,
        },
{
    let mut out: Vec<Types> = Vec::new();
    let mut cur = pos;
    let mut i: u64 = 0;
    while i < n
        invariant
            i <= n,
            pos <= cur <= bytes@.len(),
            out@.len() == i,
            forall|j: int| 0 <= j < out@.len() ==> type_wf(#[trigger] out@[j]@),
            ({
                let full = dec_values(bytes@.skip(pos as int), n as nat);
                match dec_values(bytes@.skip(cur as int), (n - i) as nat) {
                    Some((vs, rest)) => full == Some((out@.map_values(|t: Types| t@) + vs, rest)),
                    None => full is None,
                }
            }),
        decreases n - i,
    {
        match read_value(bytes, cur) {
            Some((t, p)) => {
                proof {
                    let cur_rest = bytes@.skip(cur as int);
                    let m = (n - i) as nat;
                    assert(dec_values(cur_rest, m) == (match dec_values(
                        bytes@.skip(p as int),
                        (m - 1) as nat,
                    ) {
                        Some((vs, rest2)) => Some((seq![t@] + vs, rest2)),
                        None => None,
                    }));
                    let prev_map = out@.map_values(|x: Types| x@);
                    let next_map = out@.push(t).map_values(|x: Types| x@);
                    assert(next_map =~= prev_map.push(t@));
                    match dec_values(bytes@.skip(p as int), (m - 1) as nat) {
                        Some((vs, rest2)) => {
                            assert(prev_map + (seq![t@] + vs) =~= next_map + vs);
                        },
                        None => {},
                    }
                }
                out.push(t);
                cur = p;
                i = i + 1;
            },
            None => {
                return None;
            },
        }
    }
    proof {
        assert(dec_values(bytes@.skip(cur as int), 0) == Some(
            (Seq::<TypeView>::empty(), bytes@.skip(cur as int)),
        ));
        assert(out@.map_values(|t: Types| t@) + Seq::<TypeView>::empty() =~= out@.map_values(
            |t: Types| t@,
        ));
    }
    Some((out, cur))
}

/// Decodes wire bytes back into a record. Succeeds exactly on the canonical
/// encodings; anything else is reported as a corrupt record, never a panic.
pub fn decode(bytes: &Vec<u8>) -> (r: Result<Record, KvError>)
    ensures
        match r {
            Ok(rec) => dec_record(bytes@) == Some(rec@) && record_wf(rec@),
            Err(e) => e == KvError::CorruptRecord && dec_record(bytes@) is None,
        },
{
    proof {
        assert(bytes@.skip(0) =~= bytes@);
    }
    match read_str(bytes, 0) {
        None => Err(KvError::CorruptRecord),
        Some((name, p1)) => match read_u64(bytes, p1) {
            None => Err(KvError::CorruptRecord),
            Some((n, p2)) => match read_values(bytes, p2, n) {
                None => Err(KvError::CorruptRecord),
                Some((values, p3)) => {
                    if p3 == bytes.len() {
                        proof {
                            assert(bytes@.skip(p3 as int).len() == 0);
                        }
                        let rec = Record { name, values };
                        assert(rec@ =~= RecordView {
                            name: rec.name@,
                            values: rec.values@.map_values(|t: Types| t@),
                        });
                        Ok(rec)
                    } else {
                        Err(KvError::CorruptRecord)
                    }
                },
            },
        },
    }
}

} // verus!
