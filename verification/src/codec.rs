//! The wire codec: a compact, length-determined binary encoding of the
//! control-stream messages, together with the length-prefix framing used on
//! reliable streams. An unreliable datagram carries exactly one encoded
//! message with no framing, so the message codecs serve both paths.
//!
//! Every decoder is strict: it accepts exactly the encodings its encoder
//! produces, and an unknown tag or an invalid character is a decode error,
//! never a silent default.

use vstd::prelude::*;
use vstd::wrapping::{i64_specs, u64_specs};

use crate::chunk::Chunk;
use crate::messages::{
    AccountCredentials, AccountInfo, AccountInfoView, CharacterRecord, CharacterView,
    ChunkView, ClientControlStreamMessage, ClientMsgView, CredView,
    ServerControlStreamMessage, ServerMsgView,
};
use crate::pos::{ChunkPos, TilePos};
use crate::tile::{Tile, TileKind};

verus! {

// ---------------------------------------------------------------------------
// Unsigned integers, big-endian
// ---------------------------------------------------------------------------

/// Big-endian bytes of `v`.
pub open spec fn enc_u32(v: u32) -> Seq<u8> {
    seq![
        ((v >> 24u32) & 0xFF) as u8,
        ((v >> 16u32) & 0xFF) as u8,
        ((v >> 8u32) & 0xFF) as u8,
        (v & 0xFF) as u8,
    ]
}

pub open spec fn u32_of_bytes(b0: u8, b1: u8, b2: u8, b3: u8) -> u32 {
    ((b0 as u32) << 24u32) | ((b1 as u32) << 16u32) | ((b2 as u32) << 8u32) | (b3 as u32)
}

/// Read a `u32` off the front of `b`; fails on a short buffer.
pub open spec fn dec_u32(b: Seq<u8>) -> Option<(u32, Seq<u8>)> {
    if b.len() >= 4 {
        Some((u32_of_bytes(b[0], b[1], b[2], b[3]), b.skip(4)))
    } else {
        None
    }
}

/// Big-endian bytes of `v`.
pub open spec fn enc_u64(v: u64) -> Seq<u8> {
    seq![
        ((v >> 56u64) & 0xFF) as u8,
        ((v >> 48u64) & 0xFF) as u8,
        ((v >> 40u64) & 0xFF) as u8,
        ((v >> 32u64) & 0xFF) as u8,
        ((v >> 24u64) & 0xFF) as u8,
        ((v >> 16u64) & 0xFF) as u8,
        ((v >> 8u64) & 0xFF) as u8,
        (v & 0xFF) as u8,
    ]
}

pub open spec fn u64_of_bytes(b0: u8, b1: u8, b2: u8, b3: u8, b4: u8, b5: u8, b6: u8, b7: u8) -> u64 {
    ((b0 as u64) << 56u64) | ((b1 as u64) << 48u64) | ((b2 as u64) << 40u64) | ((b3 as u64) << 32u64)
        | ((b4 as u64) << 24u64) | ((b5 as u64) << 16u64) | ((b6 as u64) << 8u64) | (b7 as u64)
}

/// Read a `u64` off the front of `b`; fails on a short buffer.
pub open spec fn dec_u64(b: Seq<u8>) -> Option<(u64, Seq<u8>)> {
    if b.len() >= 8 {
        Some((u64_of_bytes(b[0], b[1], b[2], b[3], b[4], b[5], b[6], b[7]), b.skip(8)))
    } else {
        None
    }
}

proof fn lemma_u32_of_enc(v: u32)
    ensures
        u32_of_bytes(
            ((v >> 24u32) & 0xFF) as u8,
            ((v >> 16u32) & 0xFF) as u8,
            ((v >> 8u32) & 0xFF) as u8,
            (v & 0xFF) as u8,
        ) == v,
{
    assert(((((v >> 24u32) & 0xFF) as u8 as u32) << 24u32)
        | ((((v >> 16u32) & 0xFF) as u8 as u32) << 16u32)
        | ((((v >> 8u32) & 0xFF) as u8 as u32) << 8u32)
        | ((v & 0xFF) as u8 as u32) == v) by (bit_vector);
}

proof fn lemma_enc_of_u32(b0: u8, b1: u8, b2: u8, b3: u8)
    ensures
        ((u32_of_bytes(b0, b1, b2, b3) >> 24u32) & 0xFF) as u8 == b0,
        ((u32_of_bytes(b0, b1, b2, b3) >> 16u32) & 0xFF) as u8 == b1,
        ((u32_of_bytes(b0, b1, b2, b3) >> 8u32) & 0xFF) as u8 == b2,
        (u32_of_bytes(b0, b1, b2, b3) & 0xFF) as u8 == b3,
{
    assert({
        let v = ((b0 as u32) << 24u32) | ((b1 as u32) << 16u32) | ((b2 as u32) << 8u32) | (b3 as u32);
        ((v >> 24u32) & 0xFF) as u8 == b0 && ((v >> 16u32) & 0xFF) as u8 == b1
            && ((v >> 8u32) & 0xFF) as u8 == b2 && (v & 0xFF) as u8 == b3
    }) by (bit_vector);
}

proof fn lemma_u64_of_enc(v: u64)
    ensures
        u64_of_bytes(
            ((v >> 56u64) & 0xFF) as u8,
            ((v >> 48u64) & 0xFF) as u8,
            ((v >> 40u64) & 0xFF) as u8,
            ((v >> 32u64) & 0xFF) as u8,
            ((v >> 24u64) & 0xFF) as u8,
            ((v >> 16u64) & 0xFF) as u8,
            ((v >> 8u64) & 0xFF) as u8,
            (v & 0xFF) as u8,
        ) == v,
{
    assert(((((v >> 56u64) & 0xFF) as u8 as u64) << 56u64)
        | ((((v >> 48u64) & 0xFF) as u8 as u64) << 48u64)
        | ((((v >> 40u64) & 0xFF) as u8 as u64) << 40u64)
        | ((((v >> 32u64) & 0xFF) as u8 as u64) << 32u64)
        | ((((v >> 24u64) & 0xFF) as u8 as u64) << 24u64)
        | ((((v >> 16u64) & 0xFF) as u8 as u64) << 16u64)
        | ((((v >> 8u64) & 0xFF) as u8 as u64) << 8u64)
        | ((v & 0xFF) as u8 as u64) == v) by (bit_vector);
}

proof fn lemma_enc_of_u64(b0: u8, b1: u8, b2: u8, b3: u8, b4: u8, b5: u8, b6: u8, b7: u8)
    ensures
        ((u64_of_bytes(b0, b1, b2, b3, b4, b5, b6, b7) >> 56u64) & 0xFF) as u8 == b0,
        ((u64_of_bytes(b0, b1, b2, b3, b4, b5, b6, b7) >> 48u64) & 0xFF) as u8 == b1,
        ((u64_of_bytes(b0, b1, b2, b3, b4, b5, b6, b7) >> 40u64) & 0xFF) as u8 == b2,
        ((u64_of_bytes(b0, b1, b2, b3, b4, b5, b6, b7) >> 32u64) & 0xFF) as u8 == b3,
        ((u64_of_bytes(b0, b1, b2, b3, b4, b5, b6, b7) >> 24u64) & 0xFF) as u8 == b4,
        ((u64_of_bytes(b0, b1, b2, b3, b4, b5, b6, b7) >> 16u64) & 0xFF) as u8 == b5,
        ((u64_of_bytes(b0, b1, b2, b3, b4, b5, b6, b7) >> 8u64) & 0xFF) as u8 == b6,
        (u64_of_bytes(b0, b1, b2, b3, b4, b5, b6, b7) & 0xFF) as u8 == b7,
{
    assert({
        let v = ((b0 as u64) << 56u64) | ((b1 as u64) << 48u64) | ((b2 as u64) << 40u64)
            | ((b3 as u64) << 32u64) | ((b4 as u64) << 24u64) | ((b5 as u64) << 16u64)
            | ((b6 as u64) << 8u64) | (b7 as u64);
        ((v >> 56u64) & 0xFF) as u8 == b0 && ((v >> 48u64) & 0xFF) as u8 == b1
            && ((v >> 40u64) & 0xFF) as u8 == b2 && ((v >> 32u64) & 0xFF) as u8 == b3
            && ((v >> 24u64) & 0xFF) as u8 == b4 && ((v >> 16u64) & 0xFF) as u8 == b5
            && ((v >> 8u64) & 0xFF) as u8 == b6 && (v & 0xFF) as u8 == b7
    }) by (bit_vector);
}

pub proof fn lemma_dec_enc_u32(v: u32, rest: Seq<u8>)
    ensures
        dec_u32(enc_u32(v) + rest) == Some((v, rest)),
{
    let b = enc_u32(v) + rest;
    lemma_u32_of_enc(v);
    assert(b.skip(4) =~= rest);
    assert(b[0] == enc_u32(v)[0] && b[1] == enc_u32(v)[1] && b[2] == enc_u32(v)[2] && b[3] == enc_u32(v)[3]);
}

pub proof fn lemma_enc_dec_u32(b: Seq<u8>, v: u32, rest: Seq<u8>)
    requires
        dec_u32(b) == Some((v, rest)),
    ensures
        b =~= enc_u32(v) + rest,
        rest.len() == b.len() - 4,
{
    lemma_enc_of_u32(b[0], b[1], b[2], b[3]);
}

pub proof fn lemma_dec_enc_u64(v: u64, rest: Seq<u8>)
    ensures
        dec_u64(enc_u64(v) + rest) == Some((v, rest)),
{
    let b = enc_u64(v) + rest;
    lemma_u64_of_enc(v);
    assert(b.skip(8) =~= rest);
    assert(b[0] == enc_u64(v)[0] && b[1] == enc_u64(v)[1] && b[2] == enc_u64(v)[2]
        && b[3] == enc_u64(v)[3] && b[4] == enc_u64(v)[4] && b[5] == enc_u64(v)[5]
        && b[6] == enc_u64(v)[6] && b[7] == enc_u64(v)[7]);
}

pub proof fn lemma_enc_dec_u64(b: Seq<u8>, v: u64, rest: Seq<u8>)
    requires
        dec_u64(b) == Some((v, rest)),
    ensures
        b =~= enc_u64(v) + rest,
        rest.len() == b.len() - 8,
{
    lemma_enc_of_u64(b[0], b[1], b[2], b[3], b[4], b[5], b[6], b[7]);
}

// ---------------------------------------------------------------------------
// Signed 64-bit integers, two's complement
// ---------------------------------------------------------------------------

/// The unsigned 64-bit pattern standing for `x`.
pub open spec fn i64_to_u64(x: i64) -> u64 {
    u64_specs::wrapping_add_signed(0u64, x)
}

/// The signed value a 64-bit pattern stands for.
pub open spec fn u64_to_i64(v: u64) -> i64 {
    i64_specs::wrapping_add_unsigned(0i64, v)
}

pub proof fn lemma_i64_u64_roundtrip(x: i64, v: u64)
    ensures
        u64_to_i64(i64_to_u64(x)) == x,
        i64_to_u64(u64_to_i64(v)) == v,
{
}

pub open spec fn enc_i64(x: i64) -> Seq<u8> {
    enc_u64(i64_to_u64(x))
}

pub open spec fn dec_i64(b: Seq<u8>) -> Option<(i64, Seq<u8>)> {
    match dec_u64(b) {
        Some((v, rest)) => Some((u64_to_i64(v), rest)),
        None => None,
    }
}

pub proof fn lemma_dec_enc_i64(x: i64, rest: Seq<u8>)
    ensures
        dec_i64(enc_i64(x) + rest) == Some((x, rest)),
{
    lemma_dec_enc_u64(i64_to_u64(x), rest);
    lemma_i64_u64_roundtrip(x, 0);
}

pub proof fn lemma_enc_dec_i64(b: Seq<u8>, x: i64, rest: Seq<u8>)
    requires
        dec_i64(b) == Some((x, rest)),
    ensures
        b =~= enc_i64(x) + rest,
        rest.len() == b.len() - 8,
{
    let (v, r) = dec_u64(b).unwrap();
    lemma_enc_dec_u64(b, v, r);
    lemma_i64_u64_roundtrip(0, v);
}

// ---------------------------------------------------------------------------
// Executable helpers over a byte buffer
// ---------------------------------------------------------------------------

/// Append the big-endian bytes of `v`.
pub fn push_u32(out: &mut Vec<u8>, v: u32)
    ensures
        final(out)@ == old(out)@ + enc_u32(v),
{
    proof {
        assert((v >> 24u32) & 0xFF < 256 && (v >> 16u32) & 0xFF < 256 && (v >> 8u32) & 0xFF < 256
            && v & 0xFF < 256) by (bit_vector);
    }
    out.push(((v >> 24) & 0xFF) as u8);
    out.push(((v >> 16) & 0xFF) as u8);
    out.push(((v >> 8) & 0xFF) as u8);
    out.push((v & 0xFF) as u8);
    proof {
        assert(out@ =~= old(out)@ + enc_u32(v));
    }
}

/// Append the big-endian bytes of `v`.
pub fn push_u64(out: &mut Vec<u8>, v: u64)
    ensures
        final(out)@ == old(out)@ + enc_u64(v),
{
    proof {
        assert((v >> 56u64) & 0xFF < 256 && (v >> 48u64) & 0xFF < 256 && (v >> 40u64) & 0xFF < 256
            && (v >> 32u64) & 0xFF < 256 && (v >> 24u64) & 0xFF < 256 && (v >> 16u64) & 0xFF < 256
            && (v >> 8u64) & 0xFF < 256 && v & 0xFF < 256) by (bit_vector);
    }
    out.push(((v >> 56) & 0xFF) as u8);
    out.push(((v >> 48) & 0xFF) as u8);
    out.push(((v >> 40) & 0xFF) as u8);
    out.push(((v >> 32) & 0xFF) as u8);
    out.push(((v >> 24) & 0xFF) as u8);
    out.push(((v >> 16) & 0xFF) as u8);
    out.push(((v >> 8) & 0xFF) as u8);
    out.push((v & 0xFF) as u8);
    proof {
        assert(out@ =~= old(out)@ + enc_u64(v));
    }
}

/// Append the two's-complement big-endian bytes of `x`.
pub fn push_i64(out: &mut Vec<u8>, x: i64)
    ensures
        final(out)@ == old(out)@ + enc_i64(x),
{
    let v: u64 = 0u64.wrapping_add_signed(x);
    push_u64(out, v);
}

/// Read a big-endian `u32` at `pos`.
pub fn read_u32(b: &Vec<u8>, pos: usize) -> (r: Option<(u32, usize)>)
    requires
        pos <= b@.len(),
    ensures
        match r {
            Some(vp) => {
                &&& dec_u32(b@.skip(pos as int)) == Some((vp.0, b@.skip(vp.1 as int)))
                &&& vp.1 == pos + 4
                &&& vp.1 <= b@.len()
            },
            None => dec_u32(b@.skip(pos as int)) is None,
        },
{
    if b.len() - pos >= 4 {
        let b0 = b[pos];
        let b1 = b[pos + 1];
        let b2 = b[pos + 2];
        let b3 = b[pos + 3];
        let v: u32 = ((b0 as u32) << 24) | ((b1 as u32) << 16) | ((b2 as u32) << 8) | (b3 as u32);
        proof {
            let s = b@.skip(pos as int);
            assert(s[0] == b@[pos as int] && s[1] == b@[pos + 1int] && s[2] == b@[pos + 2int]
                && s[3] == b@[pos + 3int]);
            assert(s.skip(4) =~= b@.skip(pos + 4int));
        }
        Some((v, pos + 4))
    } else {
        None
    }
}

/// Read a big-endian `u64` at `pos`.
pub fn read_u64(b: &Vec<u8>, pos: usize) -> (r: Option<(u64, usize)>)
    requires
        pos <= b@.len(),
    ensures
        match r {
            Some(vp) => {
                &&& dec_u64(b@.skip(pos as int)) == Some((vp.0, b@.skip(vp.1 as int)))
                &&& vp.1 == pos + 8
                &&& vp.1 <= b@.len()
            },
            None => dec_u64(b@.skip(pos as int)) is None,
        },
{
    if b.len() - pos >= 8 {
        let b0 = b[pos];
        let b1 = b[pos + 1];
        let b2 = b[pos + 2];
        let b3 = b[pos + 3];
        let b4 = b[pos + 4];
        let b5 = b[pos + 5];
        let b6 = b[pos + 6];
        let b7 = b[pos + 7];
        let v: u64 = ((b0 as u64) << 56) | ((b1 as u64) << 48) | ((b2 as u64) << 40)
            | ((b3 as u64) << 32) | ((b4 as u64) << 24) | ((b5 as u64) << 16)
            | ((b6 as u64) << 8) | (b7 as u64);
        proof {
            let s = b@.skip(pos as int);
            assert(s[0] == b@[pos as int] && s[1] == b@[pos + 1int] && s[2] == b@[pos + 2int]
                && s[3] == b@[pos + 3int] && s[4] == b@[pos + 4int] && s[5] == b@[pos + 5int]
                && s[6] == b@[pos + 6int] && s[7] == b@[pos + 7int]);
            assert(s.skip(8) =~= b@.skip(pos + 8int));
        }
        Some((v, pos + 8))
    } else {
        None
    }
}

// ---------------------------------------------------------------------------
// Single bytes
// ---------------------------------------------------------------------------

pub open spec fn enc_u8(v: u8) -> Seq<u8> {
    seq![v]
}

/// Read one byte off the front of `b`.
pub open spec fn dec_u8(b: Seq<u8>) -> Option<(u8, Seq<u8>)> {
    if b.len() >= 1 {
        Some((b[0], b.skip(1)))
    } else {
        None
    }
}

pub proof fn lemma_dec_enc_u8(v: u8, rest: Seq<u8>)
    ensures
        dec_u8(enc_u8(v) + rest) == Some((v, rest)),
{
    assert((enc_u8(v) + rest).skip(1) =~= rest);
}

pub proof fn lemma_enc_dec_u8(b: Seq<u8>, v: u8, rest: Seq<u8>)
    requires
        dec_u8(b) == Some((v, rest)),
    ensures
        b =~= enc_u8(v) + rest,
        rest.len() == b.len() - 1,
{
}

/// Read one byte at `pos`.
pub fn read_u8(b: &Vec<u8>, pos: usize) -> (r: Option<(u8, usize)>)
    requires
        pos <= b@.len(),
    ensures
        match r {
            Some(vp) => {
                &&& dec_u8(b@.skip(pos as int)) == Some((vp.0, b@.skip(vp.1 as int)))
                &&& vp.1 == pos + 1
                &&& vp.1 <= b@.len()
            },
            None => dec_u8(b@.skip(pos as int)) is None,
        },
{
    if b.len() - pos >= 1 {
        let v = b[pos];
        proof {
            assert(b@.skip(pos as int)[0] == b@[pos as int]);
            assert(b@.skip(pos as int).skip(1) =~= b@.skip(pos + 1int));
        }
        Some((v, pos + 1))
    } else {
        None
    }
}

/// Read a two's-complement big-endian `i64` at `pos`.
pub fn read_i64(b: &Vec<u8>, pos: usize) -> (r: Option<(i64, usize)>)
    requires
        pos <= b@.len(),
    ensures
        match r {
            Some(vp) => {
                &&& dec_i64(b@.skip(pos as int)) == Some((vp.0, b@.skip(vp.1 as int)))
                &&& vp.1 == pos + 8
                &&& vp.1 <= b@.len()
            },
            None => dec_i64(b@.skip(pos as int)) is None,
        },
{
    match read_u64(b, pos) {
        Some((v, p2)) => Some((0i64.wrapping_add_unsigned(v), p2)),
        None => None,
    }
}

// ---------------------------------------------------------------------------
// Characters and strings
// ---------------------------------------------------------------------------

/// `v` is a Unicode scalar value, i.e. the code of some `char`.
pub open spec fn valid_scalar(v: u32) -> bool {
    v < 0xD800 || (0xE000 <= v && v <= 0x10FFFF)
}

/// Relies on char::from_u32: `Some` exactly for Unicode scalar values, and
/// then the character with that code.
#[verifier::external_body]
fn char_from_u32(v: u32) -> (r: Option<char>)
    ensures
        r == (if valid_scalar(v) { Some(v as char) } else { None::<char> }),
{
    char::from_u32(v)
}

/// Relies on String::push: appends exactly the one character.
#[verifier::external_body]
fn push_char(s: &mut String, c: char)
    ensures
        final(s)@ == old(s)@.push(c),
{
    s.push(c);
}

/// A character is encoded as its scalar value, big-endian.
pub open spec fn enc_char(c: char) -> Seq<u8> {
    enc_u32(c as u32)
}

/// Read a character off the front of `b`; a code outside the scalar range is
/// an error.
pub open spec fn dec_char(b: Seq<u8>) -> Option<(char, Seq<u8>)> {
    match dec_u32(b) {
        Some((v, rest)) => if valid_scalar(v) {
            Some((v as char, rest))
        } else {
            None
        },
        None => None,
    }
}

pub proof fn lemma_dec_enc_char(c: char, rest: Seq<u8>)
    ensures
        dec_char(enc_char(c) + rest) == Some((c, rest)),
{
    lemma_dec_enc_u32(c as u32, rest);
}

pub proof fn lemma_enc_dec_char(b: Seq<u8>, c: char, rest: Seq<u8>)
    requires
        dec_char(b) == Some((c, rest)),
    ensures
        b =~= enc_char(c) + rest,
        rest.len() == b.len() - 4,
{
    let (v, r) = dec_u32(b).unwrap();
    lemma_enc_dec_u32(b, v, r);
}

/// Each character in order, 4 bytes apiece.
pub open spec fn enc_chars(s: Seq<char>) -> Seq<u8>
    decreases s.len(),
{
    if s.len() == 0 {
        Seq::empty()
    } else {
        enc_char(s[0]) + enc_chars(s.skip(1))
    }
}

/// Read exactly `n` characters off the front of `b`.
pub open spec fn dec_chars(b: Seq<u8>, n: int) -> Option<(Seq<char>, Seq<u8>)>
    decreases n,
{
    if n <= 0 {
        Some((Seq::empty(), b))
    } else {
        match dec_char(b) {
            Some((c, rest)) => match dec_chars(rest, n - 1) {
                Some((s, rest2)) => Some((seq![c] + s, rest2)),
                None => None,
            },
            None => None,
        }
    }
}

pub proof fn lemma_dec_enc_chars(s: Seq<char>, rest: Seq<u8>)
    ensures
        dec_chars(enc_chars(s) + rest, s.len() as int) == Some((s, rest)),
    decreases s.len(),
{
    if s.len() == 0 {
        assert(enc_chars(s) + rest =~= rest);
    } else {
        assert(enc_chars(s) + rest =~= enc_char(s[0]) + (enc_chars(s.skip(1)) + rest));
        lemma_dec_enc_char(s[0], enc_chars(s.skip(1)) + rest);
        lemma_dec_enc_chars(s.skip(1), rest);
        assert(seq![s[0]] + s.skip(1) =~= s);
    }
}

#[verifier::rlimit(50)]
pub proof fn lemma_enc_dec_chars(b: Seq<u8>, n: int, s: Seq<char>, rest: Seq<u8>)
    requires
        dec_chars(b, n) == Some((s, rest)),
        n >= 0,
    ensures
        s.len() == n,
        b =~= enc_chars(s) + rest,
        rest.len() <= b.len(),
    decreases n,
{
    if n == 0 {
        assert(b =~= enc_chars(s) + rest);
    } else {
        let (c, r) = dec_char(b).unwrap();
        let (s2, rest2) = dec_chars(r, n - 1).unwrap();
        lemma_enc_dec_char(b, c, r);
        lemma_enc_dec_chars(r, n - 1, s2, rest2);
        assert(s == seq![c] + s2);
        assert(s[0] == c && s.skip(1) =~= s2);
        assert(b =~= enc_char(c) + (enc_chars(s2) + rest));
    }
}

/// Extending a successful character parse by one more character.
#[verifier::rlimit(50)]
proof fn lemma_dec_chars_snoc(b: Seq<u8>, i: int, s: Seq<char>, r: Seq<u8>, c: char, r2: Seq<u8>)
    requires
        i >= 0,
        dec_chars(b, i) == Some((s, r)),
        dec_char(r) == Some((c, r2)),
    ensures
        dec_chars(b, i + 1) == Some((s.push(c), r2)),
    decreases i,
{
    if i == 0 {
        assert(s =~= Seq::<char>::empty());
        assert(r == b);
        assert(dec_chars(r2, i) == Some((Seq::<char>::empty(), r2)));
        assert(dec_chars(b, i + 1) == Some((seq![c] + Seq::<char>::empty(), r2)));
        assert(seq![c] + Seq::<char>::empty() =~= s.push(c));
    } else {
        let (c0, r0) = dec_char(b).unwrap();
        let (s1, rr) = dec_chars(r0, i - 1).unwrap();
        lemma_dec_chars_snoc(r0, i - 1, s1, rr, c, r2);
        assert(s == seq![c0] + s1);
        assert(dec_chars(b, i + 1) == Some((seq![c0] + s1.push(c), r2)));
        assert(seq![c0] + s1.push(c) =~= s.push(c));
    }
}

/// A failing character after a successful prefix fails the whole parse.
proof fn lemma_dec_chars_fail(b: Seq<u8>, n: int, i: int, s: Seq<char>, r: Seq<u8>)
    requires
        0 <= i < n,
        dec_chars(b, i) == Some((s, r)),
        dec_char(r) is None,
    ensures
        dec_chars(b, n) is None,
    decreases i,
{
    if i == 0 {
        assert(r == b);
    } else {
        let (c0, r0) = dec_char(b).unwrap();
        let (s1, rr) = dec_chars(r0, i - 1).unwrap();
        lemma_dec_chars_fail(r0, n - 1, i - 1, s1, rr);
    }
}

/// The string's characters fit behind a 32-bit count.
pub open spec fn string_fits(s: Seq<char>) -> bool {
    s.len() <= u32::MAX
}

/// A string is its character count followed by its characters.
pub open spec fn enc_string(s: Seq<char>) -> Seq<u8> {
    enc_u32(s.len() as u32) + enc_chars(s)
}

/// Read a string off the front of `b`.
pub open spec fn dec_string(b: Seq<u8>) -> Option<(Seq<char>, Seq<u8>)> {
    match dec_u32(b) {
        Some((n, rest)) => dec_chars(rest, n as int),
        None => None,
    }
}

pub proof fn lemma_dec_enc_string(s: Seq<char>, rest: Seq<u8>)
    requires
        string_fits(s),
    ensures
        dec_string(enc_string(s) + rest) == Some((s, rest)),
{
    assert(enc_string(s) + rest =~= enc_u32(s.len() as u32) + (enc_chars(s) + rest));
    lemma_dec_enc_u32(s.len() as u32, enc_chars(s) + rest);
    lemma_dec_enc_chars(s, rest);
}

pub proof fn lemma_enc_dec_string(b: Seq<u8>, s: Seq<char>, rest: Seq<u8>)
    requires
        dec_string(b) == Some((s, rest)),
    ensures
        string_fits(s),
        b =~= enc_string(s) + rest,
        rest.len() <= b.len(),
{
    let (n, r) = dec_u32(b).unwrap();
    lemma_enc_dec_u32(b, n, r);
    lemma_enc_dec_chars(r, n as int, s, rest);
    assert(b =~= enc_u32(n) + (enc_chars(s) + rest));
}

/// Append the encoding of `s`; fails (leaving `out` unchanged) only when the
/// string is too long for a 32-bit count.
pub fn encode_string(out: &mut Vec<u8>, s: &String) -> (ok: bool)
    ensures
        ok <==> string_fits(s@),
        ok ==> final(out)@ == old(out)@ + enc_string(s@),
        !ok ==> final(out)@ == old(out)@,
{
    let str_ref = s.as_str();
    let n = str_ref.unicode_len();
    if n > u32::MAX as usize {
        return false;
    }
    push_u32(out, n as u32);
    proof {
        assert(s@.skip(0) =~= s@);
        assert(out@ + enc_chars(s@) =~= old(out)@ + enc_string(s@));
    }
    let mut i: usize = 0;
    while i < n
        invariant
            n == s@.len(),
            string_fits(s@),
            str_ref@ == s@,
            i <= n,
            out@ + enc_chars(s@.skip(i as int)) == old(out)@ + enc_string(s@),
        decreases n - i,
    {
        let c = str_ref.get_char(i);
        let ghost pre = out@;
        push_u32(out, c as u32);
        proof {
            let tail = s@.skip(i as int);
            assert(tail[0] == s@[i as int]);
            assert(tail.skip(1) =~= s@.skip(i + 1int));
            assert(enc_chars(tail) == enc_char(c) + enc_chars(s@.skip(i + 1int)));
            assert(out@ + enc_chars(s@.skip(i + 1int)) =~= pre + enc_chars(tail));
        }
        i += 1;
    }
    proof {
        assert(s@.skip(n as int) =~= Seq::<char>::empty());
        assert(out@ + enc_chars(s@.skip(n as int)) =~= out@);
    }
    true
}

/// Read a string at `pos`, building it character by character.
pub fn decode_string(b: &Vec<u8>, pos: usize) -> (r: Option<(String, usize)>)
    requires
        pos <= b@.len(),
    ensures
        match r {
            Some(sp) => {
                &&& dec_string(b@.skip(pos as int)) == Some((sp.0@, b@.skip(sp.1 as int)))
                &&& pos <= sp.1 <= b@.len()
            },
            None => dec_string(b@.skip(pos as int)) is None,
        },
{
    match read_u32(b, pos) {
        Some((n, p1)) => {
            let ghost b0 = b@.skip(p1 as int);
            let mut s = String::new();
            let mut cur: usize = p1;
            let mut i: u32 = 0;
            while i < n
                invariant
                    pos <= p1 <= cur <= b@.len(),
                    i <= n,
                    b0 == b@.skip(p1 as int),
                    dec_chars(b0, i as int) == Some((s@, b@.skip(cur as int))),
                    dec_string(b@.skip(pos as int)) == dec_chars(b0, n as int),
                decreases n - i,
            {
                let ghost pre_s = s@;
                let ghost pre_cur = cur;
                match read_u32(b, cur) {
                    Some((v, c2)) => {
                        match char_from_u32(v) {
                            Some(c) => {
                                push_char(&mut s, c);
                                proof {
                                    assert(dec_char(b@.skip(pre_cur as int)) == Some((c, b@.skip(c2 as int))));
                                    lemma_dec_chars_snoc(b0, i as int, pre_s, b@.skip(pre_cur as int), c, b@.skip(c2 as int));
                                }
                                cur = c2;
                                i += 1;
                            }
                            None => {
                                proof {
                                    assert(dec_char(b@.skip(cur as int)) is None);
                                    lemma_dec_chars_fail(b0, n as int, i as int, pre_s, b@.skip(cur as int));
                                }
                                return None;
                            }
                        }
                    }
                    None => {
                        proof {
                            assert(dec_char(b@.skip(cur as int)) is None);
                            lemma_dec_chars_fail(b0, n as int, i as int, pre_s, b@.skip(cur as int));
                        }
                        return None;
                    }
                }
            }
            Some((s, cur))
        }
        None => None,
    }
}

// ---------------------------------------------------------------------------
// Optional strings
// ---------------------------------------------------------------------------

pub open spec fn opt_string_fits(o: Option<Seq<char>>) -> bool {
    match o {
        Some(s) => string_fits(s),
        None => true,
    }
}

/// A presence byte, then the string if present.
pub open spec fn enc_opt_string(o: Option<Seq<char>>) -> Seq<u8> {
    match o {
        None => enc_u8(0),
        Some(s) => enc_u8(1) + enc_string(s),
    }
}

/// Read an optional string; a presence byte other than 0 or 1 is an error.
pub open spec fn dec_opt_string(b: Seq<u8>) -> Option<(Option<Seq<char>>, Seq<u8>)> {
    match dec_u8(b) {
        Some((tag, rest)) => if tag == 0 {
            Some((None, rest))
        } else if tag == 1 {
            match dec_string(rest) {
                Some((s, rest2)) => Some((Some(s), rest2)),
                None => None,
            }
        } else {
            None
        },
        None => None,
    }
}

pub proof fn lemma_dec_enc_opt_string(o: Option<Seq<char>>, rest: Seq<u8>)
    requires
        opt_string_fits(o),
    ensures
        dec_opt_string(enc_opt_string(o) + rest) == Some((o, rest)),
{
    match o {
        None => {
            lemma_dec_enc_u8(0, rest);
        }
        Some(s) => {
            assert(enc_opt_string(o) + rest =~= enc_u8(1) + (enc_string(s) + rest));
            lemma_dec_enc_u8(1, enc_string(s) + rest);
            lemma_dec_enc_string(s, rest);
        }
    }
}

pub proof fn lemma_enc_dec_opt_string(b: Seq<u8>, o: Option<Seq<char>>, rest: Seq<u8>)
    requires
        dec_opt_string(b) == Some((o, rest)),
    ensures
        opt_string_fits(o),
        b =~= enc_opt_string(o) + rest,
        rest.len() <= b.len(),
{
    let (tag, r) = dec_u8(b).unwrap();
    lemma_enc_dec_u8(b, tag, r);
    if tag == 0 {
    } else {
        let (s, rest2) = dec_string(r).unwrap();
        lemma_enc_dec_string(r, s, rest2);
        assert(b =~= enc_u8(1) + (enc_string(s) + rest));
    }
}

/// Append the encoding of an optional string.
pub fn encode_opt_string(out: &mut Vec<u8>, o: &Option<String>) -> (ok: bool)
    ensures
        ok <==> opt_string_fits(match o {
            Some(s) => Some(s@),
            None => None,
        }),
        ok ==> final(out)@ == old(out)@ + enc_opt_string(match o {
            Some(s) => Some(s@),
            None => None,
        }),
{
    match o {
        None => {
            out.push(0);
            proof {
                assert(out@ =~= old(out)@ + enc_u8(0));
            }
            true
        }
        Some(s) => {
            let str_ref = s.as_str();
            let n = str_ref.unicode_len();
            if n > u32::MAX as usize {
                return false;
            }
            out.push(1);
            proof {
                assert(out@ =~= old(out)@ + enc_u8(1));
            }
            let _fits = encode_string(out, s);
            proof {
                assert(out@ =~= old(out)@ + (enc_u8(1) + enc_string(s@)));
            }
            true
        }
    }
}

/// Read an optional string at `pos`.
pub fn decode_opt_string(b: &Vec<u8>, pos: usize) -> (r: Option<(Option<String>, usize)>)
    requires
        pos <= b@.len(),
    ensures
        match r {
            Some(sp) => {
                &&& dec_opt_string(b@.skip(pos as int)) == Some((
                    match sp.0 {
                        Some(ref s) => Some(s@),
                        None => None,
                    },
                    b@.skip(sp.1 as int),
                ))
                &&& pos <= sp.1 <= b@.len()
            },
            None => dec_opt_string(b@.skip(pos as int)) is None,
        },
{
    match read_u8(b, pos) {
        Some((tag, p1)) => {
            if tag == 0 {
                Some((None, p1))
            } else if tag == 1 {
                match decode_string(b, p1) {
                    Some((s, p2)) => Some((Some(s), p2)),
                    None => None,
                }
            } else {
                None
            }
        }
        None => None,
    }
}

// ---------------------------------------------------------------------------
// Credentials
// ---------------------------------------------------------------------------

pub open spec fn cred_fits(c: CredView) -> bool {
    &&& string_fits(c.username)
    &&& string_fits(c.user_password)
    &&& opt_string_fits(c.server_password)
}

#[verifier::opaque]
pub open spec fn enc_cred(c: CredView) -> Seq<u8> {
    enc_string(c.username) + enc_string(c.user_password) + enc_opt_string(c.server_password)
}

#[verifier::opaque]
pub open spec fn dec_cred(b: Seq<u8>) -> Option<(CredView, Seq<u8>)> {
    match dec_string(b) {
        Some((username, r1)) => match dec_string(r1) {
            Some((user_password, r2)) => match dec_opt_string(r2) {
                Some((server_password, r3)) => Some((
                    CredView { username, user_password, server_password },
                    r3,
                )),
                None => None,
            },
            None => None,
        },
        None => None,
    }
}

pub proof fn lemma_dec_enc_cred(c: CredView, rest: Seq<u8>)
    requires
        cred_fits(c),
    ensures
        dec_cred(enc_cred(c) + rest) == Some((c, rest)),
{
    reveal(enc_cred);
    reveal(dec_cred);
    assert(enc_cred(c) + rest =~= enc_string(c.username)
        + (enc_string(c.user_password) + (enc_opt_string(c.server_password) + rest)));
    lemma_dec_enc_string(c.username, enc_string(c.user_password) + (enc_opt_string(c.server_password) + rest));
    lemma_dec_enc_string(c.user_password, enc_opt_string(c.server_password) + rest);
    lemma_dec_enc_opt_string(c.server_password, rest);
}

pub proof fn lemma_enc_dec_cred(b: Seq<u8>, c: CredView, rest: Seq<u8>)
    requires
        dec_cred(b) == Some((c, rest)),
    ensures
        cred_fits(c),
        b =~= enc_cred(c) + rest,
        rest.len() <= b.len(),
{
    reveal(enc_cred);
    reveal(dec_cred);
    let (username, r1) = dec_string(b).unwrap();
    let (user_password, r2) = dec_string(r1).unwrap();
    let (server_password, r3) = dec_opt_string(r2).unwrap();
    lemma_enc_dec_string(b, username, r1);
    lemma_enc_dec_string(r1, user_password, r2);
    lemma_enc_dec_opt_string(r2, server_password, r3);
    assert(b =~= enc_string(c.username)
        + (enc_string(c.user_password) + (enc_opt_string(c.server_password) + rest)));
}

/// Append the encoding of credentials.
pub fn encode_cred(out: &mut Vec<u8>, c: &AccountCredentials) -> (ok: bool)
    ensures
        ok <==> cred_fits(c@),
        ok ==> final(out)@ == old(out)@ + enc_cred(c@),
{
    proof {
        reveal(enc_cred);
    }
    if !encode_string(out, &c.username) {
        return false;
    }
    if !encode_string(out, &c.user_password) {
        return false;
    }
    if !encode_opt_string(out, &c.server_password) {
        return false;
    }
    proof {
        assert(out@ =~= old(out)@ + enc_cred(c@));
    }
    true
}

/// Read credentials at `pos`.
pub fn decode_cred(b: &Vec<u8>, pos: usize) -> (r: Option<(AccountCredentials, usize)>)
    requires
        pos <= b@.len(),
    ensures
        match r {
            Some(sp) => {
                &&& dec_cred(b@.skip(pos as int)) == Some((sp.0@, b@.skip(sp.1 as int)))
                &&& pos <= sp.1 <= b@.len()
            },
            None => dec_cred(b@.skip(pos as int)) is None,
        },
{
    proof {
        reveal(dec_cred);
    }
    match decode_string(b, pos) {
        Some((username, p1)) => match decode_string(b, p1) {
            Some((user_password, p2)) => match decode_opt_string(b, p2) {
                Some((server_password, p3)) => Some((
                    AccountCredentials { username, user_password, server_password },
                    p3,
                )),
                None => None,
            },
            None => None,
        },
        None => None,
    }
}

// ---------------------------------------------------------------------------
// Character records
// ---------------------------------------------------------------------------

pub open spec fn character_fits(c: CharacterView) -> bool {
    &&& string_fits(c.account_username)
    &&& string_fits(c.name)
}

pub open spec fn enc_character(c: CharacterView) -> Seq<u8> {
    enc_i64(c.character_id) + enc_string(c.account_username) + enc_string(c.name)
        + enc_i64(c.created_at)
}

pub open spec fn dec_character(b: Seq<u8>) -> Option<(CharacterView, Seq<u8>)> {
    match dec_i64(b) {
        Some((character_id, r1)) => match dec_string(r1) {
            Some((account_username, r2)) => match dec_string(r2) {
                Some((name, r3)) => match dec_i64(r3) {
                    Some((created_at, r4)) => Some((
                        CharacterView { character_id, account_username, name, created_at },
                        r4,
                    )),
                    None => None,
                },
                None => None,
            },
            None => None,
        },
        None => None,
    }
}

pub proof fn lemma_dec_enc_character(c: CharacterView, rest: Seq<u8>)
    requires
        character_fits(c),
    ensures
        dec_character(enc_character(c) + rest) == Some((c, rest)),
{
    assert(enc_character(c) + rest =~= enc_i64(c.character_id)
        + (enc_string(c.account_username)
            + (enc_string(c.name) + (enc_i64(c.created_at) + rest))));
    lemma_dec_enc_i64(c.character_id,
        enc_string(c.account_username) + (enc_string(c.name) + (enc_i64(c.created_at) + rest)));
    lemma_dec_enc_string(c.account_username, enc_string(c.name) + (enc_i64(c.created_at) + rest));
    lemma_dec_enc_string(c.name, enc_i64(c.created_at) + rest);
    lemma_dec_enc_i64(c.created_at, rest);
}

pub proof fn lemma_enc_dec_character(b: Seq<u8>, c: CharacterView, rest: Seq<u8>)
    requires
        dec_character(b) == Some((c, rest)),
    ensures
        character_fits(c),
        b =~= enc_character(c) + rest,
        rest.len() <= b.len(),
{
    let (character_id, r1) = dec_i64(b).unwrap();
    let (account_username, r2) = dec_string(r1).unwrap();
    let (name, r3) = dec_string(r2).unwrap();
    let (created_at, r4) = dec_i64(r3).unwrap();
    lemma_enc_dec_i64(b, character_id, r1);
    lemma_enc_dec_string(r1, account_username, r2);
    lemma_enc_dec_string(r2, name, r3);
    lemma_enc_dec_i64(r3, created_at, r4);
    assert(b =~= enc_i64(c.character_id)
        + (enc_string(c.account_username)
            + (enc_string(c.name) + (enc_i64(c.created_at) + rest))));
}

/// Append the encoding of one character record.
pub fn encode_character(out: &mut Vec<u8>, c: &CharacterRecord) -> (ok: bool)
    ensures
        ok <==> character_fits(c@),
        ok ==> final(out)@ == old(out)@ + enc_character(c@),
{
    push_i64(out, c.character_id);
    if !encode_string(out, &c.account_username) {
        return false;
    }
    if !encode_string(out, &c.name) {
        return false;
    }
    push_i64(out, c.created_at);
    proof {
        assert(out@ =~= old(out)@ + enc_character(c@));
    }
    true
}

/// Read one character record at `pos`.
pub fn decode_character(b: &Vec<u8>, pos: usize) -> (r: Option<(CharacterRecord, usize)>)
    requires
        pos <= b@.len(),
    ensures
        match r {
            Some(sp) => {
                &&& dec_character(b@.skip(pos as int)) == Some((sp.0@, b@.skip(sp.1 as int)))
                &&& pos <= sp.1 <= b@.len()
            },
            None => dec_character(b@.skip(pos as int)) is None,
        },
{
    match read_i64(b, pos) {
        Some((character_id, p1)) => match decode_string(b, p1) {
            Some((account_username, p2)) => match decode_string(b, p2) {
                Some((name, p3)) => match read_i64(b, p3) {
                    Some((created_at, p4)) => Some((
                        CharacterRecord { character_id, account_username, name, created_at },
                        p4,
                    )),
                    None => None,
                },
                None => None,
            },
            None => None,
        },
        None => None,
    }
}

// ---------------------------------------------------------------------------
// Sequences of character records
// ---------------------------------------------------------------------------

pub open spec fn characters_fit(s: Seq<CharacterView>) -> bool {
    &&& s.len() <= u32::MAX
    &&& forall|i: int| 0 <= i < s.len() ==> character_fits(#[trigger] s[i])
}

pub open spec fn enc_characters(s: Seq<CharacterView>) -> Seq<u8>
    decreases s.len(),
{
    if s.len() == 0 {
        Seq::empty()
    } else {
        enc_character(s[0]) + enc_characters(s.skip(1))
    }
}

/// Read exactly `n` character records off the front of `b`.
pub open spec fn dec_characters(b: Seq<u8>, n: int) -> Option<(Seq<CharacterView>, Seq<u8>)>
    decreases n,
{
    if n <= 0 {
        Some((Seq::empty(), b))
    } else {
        match dec_character(b) {
            Some((c, rest)) => match dec_characters(rest, n - 1) {
                Some((s, rest2)) => Some((seq![c] + s, rest2)),
                None => None,
            },
            None => None,
        }
    }
}

pub proof fn lemma_dec_enc_characters(s: Seq<CharacterView>, rest: Seq<u8>)
    requires
        forall|i: int| 0 <= i < s.len() ==> character_fits(#[trigger] s[i]),
    ensures
        dec_characters(enc_characters(s) + rest, s.len() as int) == Some((s, rest)),
    decreases s.len(),
{
    if s.len() == 0 {
        assert(enc_characters(s) + rest =~= rest);
    } else {
        assert(enc_characters(s) + rest =~= enc_character(s[0]) + (enc_characters(s.skip(1)) + rest));
        lemma_dec_enc_character(s[0], enc_characters(s.skip(1)) + rest);
        lemma_dec_enc_characters(s.skip(1), rest);
        assert(seq![s[0]] + s.skip(1) =~= s);
    }
}

#[verifier::rlimit(50)]
pub proof fn lemma_enc_dec_characters(b: Seq<u8>, n: int, s: Seq<CharacterView>, rest: Seq<u8>)
    requires
        dec_characters(b, n) == Some((s, rest)),
        n >= 0,
    ensures
        s.len() == n,
        forall|i: int| 0 <= i < s.len() ==> character_fits(#[trigger] s[i]),
        b =~= enc_characters(s) + rest,
        rest.len() <= b.len(),
    decreases n,
{
    if n == 0 {
        assert(b =~= enc_characters(s) + rest);
    } else {
        let (c, r) = dec_character(b).unwrap();
        let (s2, rest2) = dec_characters(r, n - 1).unwrap();
        lemma_enc_dec_character(b, c, r);
        lemma_enc_dec_characters(r, n - 1, s2, rest2);
        assert(s == seq![c] + s2);
        assert(s[0] == c && s.skip(1) =~= s2);
        assert(b =~= enc_character(c) + (enc_characters(s2) + rest));
    }
}

#[verifier::rlimit(50)]
proof fn lemma_dec_characters_snoc(
    b: Seq<u8>,
    i: int,
    s: Seq<CharacterView>,
    r: Seq<u8>,
    c: CharacterView,
    r2: Seq<u8>,
)
    requires
        i >= 0,
        dec_characters(b, i) == Some((s, r)),
        dec_character(r) == Some((c, r2)),
    ensures
        dec_characters(b, i + 1) == Some((s.push(c), r2)),
    decreases i,
{
    if i == 0 {
        assert(s =~= Seq::<CharacterView>::empty());
        assert(r == b);
        assert(dec_characters(r2, i) == Some((Seq::<CharacterView>::empty(), r2)));
        assert(dec_characters(b, i + 1) == Some((seq![c] + Seq::<CharacterView>::empty(), r2)));
        assert(seq![c] + Seq::<CharacterView>::empty() =~= s.push(c));
    } else {
        let (c0, r0) = dec_character(b).unwrap();
        let (s1, rr) = dec_characters(r0, i - 1).unwrap();
        lemma_dec_characters_snoc(r0, i - 1, s1, rr, c, r2);
        assert(s == seq![c0] + s1);
        assert(dec_characters(b, i + 1) == Some((seq![c0] + s1.push(c), r2)));
        assert(seq![c0] + s1.push(c) =~= s.push(c));
    }
}

proof fn lemma_dec_characters_fail(b: Seq<u8>, n: int, i: int, s: Seq<CharacterView>, r: Seq<u8>)
    requires
        0 <= i < n,
        dec_characters(b, i) == Some((s, r)),
        dec_character(r) is None,
    ensures
        dec_characters(b, n) is None,
    decreases i,
{
    if i == 0 {
    } else {
        let (c0, r0) = dec_character(b).unwrap();
        let (s1, rr) = dec_characters(r0, i - 1).unwrap();
        lemma_dec_characters_fail(r0, n - 1, i - 1, s1, rr);
    }
}

// ---------------------------------------------------------------------------
// Account info
// ---------------------------------------------------------------------------

pub open spec fn account_info_fits(a: AccountInfoView) -> bool {
    &&& string_fits(a.username)
    &&& characters_fit(a.characters)
}

#[verifier::opaque]
pub open spec fn enc_account_info(a: AccountInfoView) -> Seq<u8> {
    enc_string(a.username) + enc_u32(a.characters.len() as u32) + enc_characters(a.characters)
}

#[verifier::opaque]
pub open spec fn dec_account_info(b: Seq<u8>) -> Option<(AccountInfoView, Seq<u8>)> {
    match dec_string(b) {
        Some((username, r1)) => match dec_u32(r1) {
            Some((n, r2)) => match dec_characters(r2, n as int) {
                Some((characters, r3)) => Some((AccountInfoView { username, characters }, r3)),
                None => None,
            },
            None => None,
        },
        None => None,
    }
}

pub proof fn lemma_dec_enc_account_info(a: AccountInfoView, rest: Seq<u8>)
    requires
        account_info_fits(a),
    ensures
        dec_account_info(enc_account_info(a) + rest) == Some((a, rest)),
{
    reveal(enc_account_info);
    reveal(dec_account_info);
    assert(enc_account_info(a) + rest =~= enc_string(a.username)
        + (enc_u32(a.characters.len() as u32) + (enc_characters(a.characters) + rest)));
    lemma_dec_enc_string(a.username,
        enc_u32(a.characters.len() as u32) + (enc_characters(a.characters) + rest));
    lemma_dec_enc_u32(a.characters.len() as u32, enc_characters(a.characters) + rest);
    lemma_dec_enc_characters(a.characters, rest);
}

#[verifier::rlimit(50)]
pub proof fn lemma_enc_dec_account_info(b: Seq<u8>, a: AccountInfoView, rest: Seq<u8>)
    requires
        dec_account_info(b) == Some((a, rest)),
    ensures
        account_info_fits(a),
        b =~= enc_account_info(a) + rest,
        rest.len() <= b.len(),
{
    reveal(enc_account_info);
    reveal(dec_account_info);
    let (username, r1) = dec_string(b).unwrap();
    let (n, r2) = dec_u32(r1).unwrap();
    let (characters, r3) = dec_characters(r2, n as int).unwrap();
    lemma_enc_dec_string(b, username, r1);
    lemma_enc_dec_u32(r1, n, r2);
    lemma_enc_dec_characters(r2, n as int, characters, r3);
    assert(a.characters.len() as u32 == n);
    assert(b =~= enc_string(a.username)
        + (enc_u32(a.characters.len() as u32) + (enc_characters(a.characters) + rest)));
}

/// Append the encoding of an account-info value.
pub fn encode_account_info(out: &mut Vec<u8>, a: &AccountInfo) -> (ok: bool)
    ensures
        ok <==> account_info_fits(a@),
        ok ==> final(out)@ == old(out)@ + enc_account_info(a@),
{
    proof {
        reveal(enc_account_info);
    }
    if !encode_string(out, &a.username) {
        return false;
    }
    if a.characters.len() > u32::MAX as usize {
        return false;
    }
    let n: usize = a.characters.len();
    push_u32(out, n as u32);
    let ghost base = out@;
    let ghost views = a.characters@.map_values(|c: CharacterRecord| c@);
    proof {
        assert(views.skip(0) =~= views);
    }
    let mut i: usize = 0;
    while i < n
        invariant
            n == a.characters@.len(),
            string_fits(a.username@),
            n <= u32::MAX,
            base == old(out)@ + enc_string(a.username@) + enc_u32(n as u32),
            views == a.characters@.map_values(|c: CharacterRecord| c@),
            i <= n,
            forall|j: int| 0 <= j < i ==> character_fits(#[trigger] views[j]),
            out@ + enc_characters(views.skip(i as int)) == base + enc_characters(views),
        decreases n - i,
    {
        let ghost pre = out@;
        if !encode_character(out, &a.characters[i]) {
            proof {
                assert(!character_fits(views[i as int]));
            }
            return false;
        }
        proof {
            let tail = views.skip(i as int);
            assert(tail[0] == views[i as int]);
            assert(tail.skip(1) =~= views.skip(i + 1int));
            assert(enc_characters(tail) == enc_character(views[i as int]) + enc_characters(views.skip(i + 1int)));
            assert(out@ + enc_characters(views.skip(i + 1int)) =~= pre + enc_characters(tail));
        }
        i += 1;
    }
    proof {
        assert(views.skip(n as int) =~= Seq::<CharacterView>::empty());
        assert(out@ + enc_characters(views.skip(n as int)) =~= out@);
        assert(out@ =~= old(out)@ + enc_account_info(a@));
    }
    true
}

/// Read an account-info value at `pos`.
pub fn decode_account_info(b: &Vec<u8>, pos: usize) -> (r: Option<(AccountInfo, usize)>)
    requires
        pos <= b@.len(),
    ensures
        match r {
            Some(sp) => {
                &&& dec_account_info(b@.skip(pos as int)) == Some((sp.0@, b@.skip(sp.1 as int)))
                &&& pos <= sp.1 <= b@.len()
            },
            None => dec_account_info(b@.skip(pos as int)) is None,
        },
{
    proof {
        reveal(dec_account_info);
    }
    match decode_string(b, pos) {
        Some((username, p1)) => match read_u32(b, p1) {
            Some((n, p2)) => {
                let ghost b0 = b@.skip(p2 as int);
                let mut characters: Vec<CharacterRecord> = Vec::new();
                let mut cur: usize = p2;
                let mut i: u32 = 0;
                while i < n
                    invariant
                        pos <= p2 <= cur <= b@.len(),
                        i <= n,
                        b0 == b@.skip(p2 as int),
                        dec_string(b@.skip(pos as int)) == Some((username@, b@.skip(p1 as int))),
                        dec_u32(b@.skip(p1 as int)) == Some((n, b0)),
                        dec_characters(b0, i as int) == Some((
                            characters@.map_values(|c: CharacterRecord| c@),
                            b@.skip(cur as int),
                        )),
                    decreases n - i,
                {
                    let ghost pre_views = characters@.map_values(|c: CharacterRecord| c@);
                    let ghost pre_cur = cur;
                    match decode_character(b, cur) {
                        Some((c, c2)) => {
                            proof {
                                lemma_dec_characters_snoc(b0, i as int, pre_views,
                                    b@.skip(pre_cur as int), c@, b@.skip(c2 as int));
                            }
                            characters.push(c);
                            proof {
                                assert(characters@.map_values(|cc: CharacterRecord| cc@)
                                    =~= pre_views.push(c@));
                            }
                            cur = c2;
                            i += 1;
                        }
                        None => {
                            proof {
                                reveal(dec_account_info);
                                lemma_dec_characters_fail(b0, n as int, i as int, pre_views,
                                    b@.skip(cur as int));
                            }
                            return None;
                        }
                    }
                }
                proof {
                    reveal(dec_account_info);
                }
                Some((AccountInfo { username, characters }, cur))
            }
            None => None,
        },
        None => None,
    }
}

// ---------------------------------------------------------------------------
// Tiles
// ---------------------------------------------------------------------------

pub open spec fn enc_tile(t: Tile) -> Seq<u8> {
    enc_u8(0) + enc_i64(t.position.x) + enc_i64(t.position.y) + enc_i64(t.position.z)
}

/// Read one tile off the front of `b`; a kind tag other than the one known
/// kind is an error.
pub open spec fn dec_tile(b: Seq<u8>) -> Option<(Tile, Seq<u8>)> {
    match dec_u8(b) {
        Some((tag, r0)) => if tag == 0 {
            match dec_i64(r0) {
                Some((x, r1)) => match dec_i64(r1) {
                    Some((y, r2)) => match dec_i64(r2) {
                        Some((z, r3)) => Some((
                            Tile { tile_kind: TileKind::Grass, position: TilePos { x, y, z } },
                            r3,
                        )),
                        None => None,
                    },
                    None => None,
                },
                None => None,
            }
        } else {
            None
        },
        None => None,
    }
}

pub proof fn lemma_dec_enc_tile(t: Tile, rest: Seq<u8>)
    ensures
        dec_tile(enc_tile(t) + rest) == Some((t, rest)),
{
    assert(enc_tile(t) + rest =~= enc_u8(0)
        + (enc_i64(t.position.x) + (enc_i64(t.position.y) + (enc_i64(t.position.z) + rest))));
    lemma_dec_enc_u8(0,
        enc_i64(t.position.x) + (enc_i64(t.position.y) + (enc_i64(t.position.z) + rest)));
    lemma_dec_enc_i64(t.position.x, enc_i64(t.position.y) + (enc_i64(t.position.z) + rest));
    lemma_dec_enc_i64(t.position.y, enc_i64(t.position.z) + rest);
    lemma_dec_enc_i64(t.position.z, rest);
}

pub proof fn lemma_enc_dec_tile(b: Seq<u8>, t: Tile, rest: Seq<u8>)
    requires
        dec_tile(b) == Some((t, rest)),
    ensures
        b =~= enc_tile(t) + rest,
        rest.len() <= b.len(),
{
    let (tag, r0) = dec_u8(b).unwrap();
    let (x, r1) = dec_i64(r0).unwrap();
    let (y, r2) = dec_i64(r1).unwrap();
    let (z, r3) = dec_i64(r2).unwrap();
    lemma_enc_dec_u8(b, tag, r0);
    lemma_enc_dec_i64(r0, x, r1);
    lemma_enc_dec_i64(r1, y, r2);
    lemma_enc_dec_i64(r2, z, r3);
    assert(b =~= enc_u8(0)
        + (enc_i64(t.position.x) + (enc_i64(t.position.y) + (enc_i64(t.position.z) + rest))));
}

/// Append the encoding of one tile.
pub fn encode_tile(out: &mut Vec<u8>, t: &Tile)
    ensures
        final(out)@ == old(out)@ + enc_tile(*t),
{
    out.push(0);
    proof {
        assert(out@ =~= old(out)@ + enc_u8(0));
    }
    push_i64(out, t.position.x);
    push_i64(out, t.position.y);
    push_i64(out, t.position.z);
    proof {
        assert(out@ =~= old(out)@ + enc_tile(*t));
    }
}

/// Read one tile at `pos`.
pub fn decode_tile(b: &Vec<u8>, pos: usize) -> (r: Option<(Tile, usize)>)
    requires
        pos <= b@.len(),
    ensures
        match r {
            Some(sp) => {
                &&& dec_tile(b@.skip(pos as int)) == Some((sp.0, b@.skip(sp.1 as int)))
                &&& pos <= sp.1 <= b@.len()
            },
            None => dec_tile(b@.skip(pos as int)) is None,
        },
{
    match read_u8(b, pos) {
        Some((tag, p0)) => {
            if tag != 0 {
                return None;
            }
            match read_i64(b, p0) {
                Some((x, p1)) => match read_i64(b, p1) {
                    Some((y, p2)) => match read_i64(b, p2) {
                        Some((z, p3)) => Some((
                            Tile { tile_kind: TileKind::Grass, position: TilePos { x, y, z } },
                            p3,
                        )),
                        None => None,
                    },
                    None => None,
                },
                None => None,
            }
        }
        None => None,
    }
}

// ---------------------------------------------------------------------------
// Sequences of tiles
// ---------------------------------------------------------------------------

pub open spec fn enc_tiles(s: Seq<Tile>) -> Seq<u8>
    decreases s.len(),
{
    if s.len() == 0 {
        Seq::empty()
    } else {
        enc_tile(s[0]) + enc_tiles(s.skip(1))
    }
}

/// Read exactly `n` tiles off the front of `b`.
pub open spec fn dec_tiles(b: Seq<u8>, n: int) -> Option<(Seq<Tile>, Seq<u8>)>
    decreases n,
{
    if n <= 0 {
        Some((Seq::empty(), b))
    } else {
        match dec_tile(b) {
            Some((t, rest)) => match dec_tiles(rest, n - 1) {
                Some((s, rest2)) => Some((seq![t] + s, rest2)),
                None => None,
            },
            None => None,
        }
    }
}

pub proof fn lemma_dec_enc_tiles(s: Seq<Tile>, rest: Seq<u8>)
    ensures
        dec_tiles(enc_tiles(s) + rest, s.len() as int) == Some((s, rest)),
    decreases s.len(),
{
    if s.len() == 0 {
        assert(enc_tiles(s) + rest =~= rest);
    } else {
        assert(enc_tiles(s) + rest =~= enc_tile(s[0]) + (enc_tiles(s.skip(1)) + rest));
        lemma_dec_enc_tile(s[0], enc_tiles(s.skip(1)) + rest);
        lemma_dec_enc_tiles(s.skip(1), rest);
        assert(seq![s[0]] + s.skip(1) =~= s);
    }
}

#[verifier::rlimit(50)]
pub proof fn lemma_enc_dec_tiles(b: Seq<u8>, n: int, s: Seq<Tile>, rest: Seq<u8>)
    requires
        dec_tiles(b, n) == Some((s, rest)),
        n >= 0,
    ensures
        s.len() == n,
        b =~= enc_tiles(s) + rest,
        rest.len() <= b.len(),
    decreases n,
{
    if n == 0 {
        assert(b =~= enc_tiles(s) + rest);
    } else {
        let (t, r) = dec_tile(b).unwrap();
        let (s2, rest2) = dec_tiles(r, n - 1).unwrap();
        lemma_enc_dec_tile(b, t, r);
        lemma_enc_dec_tiles(r, n - 1, s2, rest2);
        assert(s == seq![t] + s2);
        assert(s[0] == t && s.skip(1) =~= s2);
        assert(b =~= enc_tile(t) + (enc_tiles(s2) + rest));
    }
}

#[verifier::rlimit(50)]
proof fn lemma_dec_tiles_snoc(b: Seq<u8>, i: int, s: Seq<Tile>, r: Seq<u8>, t: Tile, r2: Seq<u8>)
    requires
        i >= 0,
        dec_tiles(b, i) == Some((s, r)),
        dec_tile(r) == Some((t, r2)),
    ensures
        dec_tiles(b, i + 1) == Some((s.push(t), r2)),
    decreases i,
{
    if i == 0 {
        assert(s =~= Seq::<Tile>::empty());
        assert(r == b);
        assert(dec_tiles(r2, i) == Some((Seq::<Tile>::empty(), r2)));
        assert(dec_tiles(b, i + 1) == Some((seq![t] + Seq::<Tile>::empty(), r2)));
        assert(seq![t] + Seq::<Tile>::empty() =~= s.push(t));
    } else {
        let (t0, r0) = dec_tile(b).unwrap();
        let (s1, rr) = dec_tiles(r0, i - 1).unwrap();
        lemma_dec_tiles_snoc(r0, i - 1, s1, rr, t, r2);
        assert(s == seq![t0] + s1);
        assert(dec_tiles(b, i + 1) == Some((seq![t0] + s1.push(t), r2)));
        assert(seq![t0] + s1.push(t) =~= s.push(t));
    }
}

proof fn lemma_dec_tiles_fail(b: Seq<u8>, n: int, i: int, s: Seq<Tile>, r: Seq<u8>)
    requires
        0 <= i < n,
        dec_tiles(b, i) == Some((s, r)),
        dec_tile(r) is None,
    ensures
        dec_tiles(b, n) is None,
    decreases i,
{
    if i == 0 {
    } else {
        let (t0, r0) = dec_tile(b).unwrap();
        let (s1, rr) = dec_tiles(r0, i - 1).unwrap();
        lemma_dec_tiles_fail(r0, n - 1, i - 1, s1, rr);
    }
}

// ---------------------------------------------------------------------------
// Chunks
// ---------------------------------------------------------------------------

pub open spec fn chunk_fits(c: ChunkView) -> bool {
    &&& c.size <= u32::MAX
    &&& c.tiles.len() <= u32::MAX
}

#[verifier::opaque]
pub open spec fn enc_chunk(c: ChunkView) -> Seq<u8> {
    enc_i64(c.pos.x) + enc_i64(c.pos.y) + enc_u32(c.size as u32)
        + enc_u32(c.tiles.len() as u32) + enc_tiles(c.tiles)
}

/// Read one chunk off the front of `b`.
#[verifier::opaque]
pub open spec fn dec_chunk(b: Seq<u8>) -> Option<(ChunkView, Seq<u8>)> {
    match dec_i64(b) {
        Some((x, r0)) => match dec_i64(r0) {
            Some((y, r1)) => match dec_u32(r1) {
                Some((size, r2)) => match dec_u32(r2) {
                    Some((n, r3)) => match dec_tiles(r3, n as int) {
                        Some((tiles, r4)) => Some((
                            ChunkView {
                                pos: ChunkPos { x, y },
                                size: size as usize,
                                tiles,
                            },
                            r4,
                        )),
                        None => None,
                    },
                    None => None,
                },
                None => None,
            },
            None => None,
        },
        None => None,
    }
}

pub proof fn lemma_dec_enc_chunk(c: ChunkView, rest: Seq<u8>)
    requires
        chunk_fits(c),
    ensures
        dec_chunk(enc_chunk(c) + rest) == Some((c, rest)),
{
    reveal(enc_chunk);
    reveal(dec_chunk);
    assert(enc_chunk(c) + rest =~= enc_i64(c.pos.x)
        + (enc_i64(c.pos.y)
            + (enc_u32(c.size as u32) + (enc_u32(c.tiles.len() as u32) + (enc_tiles(c.tiles) + rest)))));
    lemma_dec_enc_i64(c.pos.x,
        enc_i64(c.pos.y)
            + (enc_u32(c.size as u32) + (enc_u32(c.tiles.len() as u32) + (enc_tiles(c.tiles) + rest))));
    lemma_dec_enc_i64(c.pos.y,
        enc_u32(c.size as u32) + (enc_u32(c.tiles.len() as u32) + (enc_tiles(c.tiles) + rest)));
    lemma_dec_enc_u32(c.size as u32, enc_u32(c.tiles.len() as u32) + (enc_tiles(c.tiles) + rest));
    lemma_dec_enc_u32(c.tiles.len() as u32, enc_tiles(c.tiles) + rest);
    lemma_dec_enc_tiles(c.tiles, rest);
}

#[verifier::rlimit(50)]
pub proof fn lemma_enc_dec_chunk(b: Seq<u8>, c: ChunkView, rest: Seq<u8>)
    requires
        dec_chunk(b) == Some((c, rest)),
    ensures
        chunk_fits(c),
        b =~= enc_chunk(c) + rest,
        rest.len() <= b.len(),
{
    reveal(enc_chunk);
    reveal(dec_chunk);
    let (x, r0) = dec_i64(b).unwrap();
    let (y, r1) = dec_i64(r0).unwrap();
    let (size, r2) = dec_u32(r1).unwrap();
    let (n, r3) = dec_u32(r2).unwrap();
    let (tiles, r4) = dec_tiles(r3, n as int).unwrap();
    lemma_enc_dec_i64(b, x, r0);
    lemma_enc_dec_i64(r0, y, r1);
    lemma_enc_dec_u32(r1, size, r2);
    lemma_enc_dec_u32(r2, n, r3);
    lemma_enc_dec_tiles(r3, n as int, tiles, r4);
    assert(c.size as u32 == size && c.tiles.len() as u32 == n);
    assert(b =~= enc_i64(c.pos.x)
        + (enc_i64(c.pos.y)
            + (enc_u32(c.size as u32) + (enc_u32(c.tiles.len() as u32) + (enc_tiles(c.tiles) + rest)))));
}

/// Append the encoding of a chunk.
pub fn encode_chunk(out: &mut Vec<u8>, c: &Chunk) -> (ok: bool)
    ensures
        ok <==> chunk_fits(c@),
        ok ==> final(out)@ == old(out)@ + enc_chunk(c@),
{
    proof {
        reveal(enc_chunk);
    }
    if c.size > u32::MAX as usize {
        return false;
    }
    if c.tiles.len() > u32::MAX as usize {
        return false;
    }
    push_i64(out, c.pos.x);
    push_i64(out, c.pos.y);
    push_u32(out, c.size as u32);
    let n: usize = c.tiles.len();
    push_u32(out, n as u32);
    let ghost base = out@;
    proof {
        assert(c.tiles@.skip(0) =~= c.tiles@);
    }
    let mut i: usize = 0;
    while i < n
        invariant
            n == c.tiles@.len(),
            i <= n,
            out@ + enc_tiles(c.tiles@.skip(i as int)) == base + enc_tiles(c.tiles@),
        decreases n - i,
    {
        let ghost pre = out@;
        encode_tile(out, &c.tiles[i]);
        proof {
            let tail = c.tiles@.skip(i as int);
            assert(tail[0] == c.tiles@[i as int]);
            assert(tail.skip(1) =~= c.tiles@.skip(i + 1int));
            assert(enc_tiles(tail) == enc_tile(c.tiles@[i as int]) + enc_tiles(c.tiles@.skip(i + 1int)));
            assert(out@ + enc_tiles(c.tiles@.skip(i + 1int)) =~= pre + enc_tiles(tail));
        }
        i += 1;
    }
    proof {
        assert(c.tiles@.skip(n as int) =~= Seq::<Tile>::empty());
        assert(out@ + enc_tiles(c.tiles@.skip(n as int)) =~= out@);
        assert(out@ =~= old(out)@ + enc_chunk(c@));
    }
    true
}

/// Read a chunk at `pos`.
pub fn decode_chunk(b: &Vec<u8>, pos: usize) -> (r: Option<(Chunk, usize)>)
    requires
        pos <= b@.len(),
    ensures
        match r {
            Some(sp) => {
                &&& dec_chunk(b@.skip(pos as int)) == Some((sp.0@, b@.skip(sp.1 as int)))
                &&& pos <= sp.1 <= b@.len()
            },
            None => dec_chunk(b@.skip(pos as int)) is None,
        },
{
    proof {
        reveal(dec_chunk);
    }
    match read_i64(b, pos) {
        Some((x, p0)) => match read_i64(b, p0) {
            Some((y, p1)) => match read_u32(b, p1) {
                Some((size, p2)) => match read_u32(b, p2) {
                    Some((n, p3)) => {
                        let ghost b0 = b@.skip(p3 as int);
                        let mut tiles: Vec<Tile> = Vec::new();
                        let mut cur: usize = p3;
                        let mut i: u32 = 0;
                        while i < n
                            invariant
                                pos <= p3 <= cur <= b@.len(),
                                i <= n,
                                b0 == b@.skip(p3 as int),
                                dec_i64(b@.skip(pos as int)) == Some((x, b@.skip(p0 as int))),
                                dec_i64(b@.skip(p0 as int)) == Some((y, b@.skip(p1 as int))),
                                dec_u32(b@.skip(p1 as int)) == Some((size, b@.skip(p2 as int))),
                                dec_u32(b@.skip(p2 as int)) == Some((n, b0)),
                                dec_tiles(b0, i as int) == Some((tiles@, b@.skip(cur as int))),
                            decreases n - i,
                        {
                            let ghost pre_tiles = tiles@;
                            let ghost pre_cur = cur;
                            match decode_tile(b, cur) {
                                Some((t, c2)) => {
                                    proof {
                                        lemma_dec_tiles_snoc(b0, i as int, pre_tiles,
                                            b@.skip(pre_cur as int), t, b@.skip(c2 as int));
                                    }
                                    tiles.push(t);
                                    cur = c2;
                                    i += 1;
                                }
                                None => {
                                    proof {
                                        reveal(dec_chunk);
                                        lemma_dec_tiles_fail(b0, n as int, i as int, pre_tiles,
                                            b@.skip(cur as int));
                                    }
                                    return None;
                                }
                            }
                        }
                        Some((
                            Chunk { pos: ChunkPos { x, y }, size: size as usize, tiles },
                            cur,
                        ))
                    }
                    None => None,
                },
                None => None,
            },
            None => None,
        },
        None => None,
    }
}


// ---------------------------------------------------------------------------
// Chunk entries (position, chunk) of the initial-world message
// ---------------------------------------------------------------------------

pub open spec fn enc_entry(e: (ChunkPos, ChunkView)) -> Seq<u8> {
    enc_i64(e.0.x) + enc_i64(e.0.y) + enc_chunk(e.1)
}

pub open spec fn dec_entry(b: Seq<u8>) -> Option<((ChunkPos, ChunkView), Seq<u8>)> {
    match dec_i64(b) {
        Some((x, r0)) => match dec_i64(r0) {
            Some((y, r1)) => match dec_chunk(r1) {
                Some((c, r2)) => Some(((ChunkPos { x, y }, c), r2)),
                None => None,
            },
            None => None,
        },
        None => None,
    }
}

pub proof fn lemma_dec_enc_entry(e: (ChunkPos, ChunkView), rest: Seq<u8>)
    requires
        chunk_fits(e.1),
    ensures
        dec_entry(enc_entry(e) + rest) == Some((e, rest)),
{
    assert(enc_entry(e) + rest =~= enc_i64(e.0.x) + (enc_i64(e.0.y) + (enc_chunk(e.1) + rest)));
    lemma_dec_enc_i64(e.0.x, enc_i64(e.0.y) + (enc_chunk(e.1) + rest));
    lemma_dec_enc_i64(e.0.y, enc_chunk(e.1) + rest);
    lemma_dec_enc_chunk(e.1, rest);
}

pub proof fn lemma_enc_dec_entry(b: Seq<u8>, e: (ChunkPos, ChunkView), rest: Seq<u8>)
    requires
        dec_entry(b) == Some((e, rest)),
    ensures
        chunk_fits(e.1),
        b =~= enc_entry(e) + rest,
        rest.len() <= b.len(),
{
    let (x, r0) = dec_i64(b).unwrap();
    let (y, r1) = dec_i64(r0).unwrap();
    let (c, r2) = dec_chunk(r1).unwrap();
    lemma_enc_dec_i64(b, x, r0);
    lemma_enc_dec_i64(r0, y, r1);
    lemma_enc_dec_chunk(r1, c, r2);
    assert(b =~= enc_i64(e.0.x) + (enc_i64(e.0.y) + (enc_chunk(e.1) + rest)));
}

pub open spec fn entries_fit(s: Seq<(ChunkPos, ChunkView)>) -> bool {
    &&& s.len() <= u32::MAX
    &&& forall|i: int| 0 <= i < s.len() ==> chunk_fits((#[trigger] s[i]).1)
}

pub open spec fn enc_entries(s: Seq<(ChunkPos, ChunkView)>) -> Seq<u8>
    decreases s.len(),
{
    if s.len() == 0 {
        Seq::empty()
    } else {
        enc_entry(s[0]) + enc_entries(s.skip(1))
    }
}

/// Read exactly `n` chunk entries off the front of `b`.
pub open spec fn dec_entries(b: Seq<u8>, n: int) -> Option<(Seq<(ChunkPos, ChunkView)>, Seq<u8>)>
    decreases n,
{
    if n <= 0 {
        Some((Seq::empty(), b))
    } else {
        match dec_entry(b) {
            Some((e, rest)) => match dec_entries(rest, n - 1) {
                Some((s, rest2)) => Some((seq![e] + s, rest2)),
                None => None,
            },
            None => None,
        }
    }
}

pub proof fn lemma_dec_enc_entries(s: Seq<(ChunkPos, ChunkView)>, rest: Seq<u8>)
    requires
        forall|i: int| 0 <= i < s.len() ==> chunk_fits((#[trigger] s[i]).1),
    ensures
        dec_entries(enc_entries(s) + rest, s.len() as int) == Some((s, rest)),
    decreases s.len(),
{
    if s.len() == 0 {
        assert(enc_entries(s) + rest =~= rest);
    } else {
        assert(enc_entries(s) + rest =~= enc_entry(s[0]) + (enc_entries(s.skip(1)) + rest));
        lemma_dec_enc_entry(s[0], enc_entries(s.skip(1)) + rest);
        lemma_dec_enc_entries(s.skip(1), rest);
        assert(seq![s[0]] + s.skip(1) =~= s);
    }
}

#[verifier::spinoff_prover]
#[verifier::rlimit(100)]
pub proof fn lemma_enc_dec_entries(b: Seq<u8>, n: int, s: Seq<(ChunkPos, ChunkView)>, rest: Seq<u8>)
    requires
        dec_entries(b, n) == Some((s, rest)),
        n >= 0,
    ensures
        s.len() == n,
        forall|i: int| 0 <= i < s.len() ==> chunk_fits((#[trigger] s[i]).1),
        b =~= enc_entries(s) + rest,
        rest.len() <= b.len(),
    decreases n,
{
    if n == 0 {
        assert(b =~= enc_entries(s) + rest);
    } else {
        let (e, r) = dec_entry(b).unwrap();
        let (s2, rest2) = dec_entries(r, n - 1).unwrap();
        lemma_enc_dec_entry(b, e, r);
        lemma_enc_dec_entries(r, n - 1, s2, rest2);
        assert(s == seq![e] + s2);
        assert(s[0] == e && s.skip(1) =~= s2);
        assert(b == enc_entry(e) + r);
        assert(r == enc_entries(s2) + rest);
        assert(enc_entries(s) == enc_entry(e) + enc_entries(s2));
        assert(enc_entry(e) + (enc_entries(s2) + rest) =~= (enc_entry(e) + enc_entries(s2)) + rest);
        assert(b == enc_entries(s) + rest);
    }
}

#[verifier::rlimit(50)]
proof fn lemma_dec_entries_snoc(
    b: Seq<u8>,
    i: int,
    s: Seq<(ChunkPos, ChunkView)>,
    r: Seq<u8>,
    e: (ChunkPos, ChunkView),
    r2: Seq<u8>,
)
    requires
        i >= 0,
        dec_entries(b, i) == Some((s, r)),
        dec_entry(r) == Some((e, r2)),
    ensures
        dec_entries(b, i + 1) == Some((s.push(e), r2)),
    decreases i,
{
    if i == 0 {
        assert(s =~= Seq::<(ChunkPos, ChunkView)>::empty());
        assert(r == b);
        assert(dec_entries(r2, i) == Some((Seq::<(ChunkPos, ChunkView)>::empty(), r2)));
        assert(dec_entries(b, i + 1) == Some((seq![e] + Seq::<(ChunkPos, ChunkView)>::empty(), r2)));
        assert(seq![e] + Seq::<(ChunkPos, ChunkView)>::empty() =~= s.push(e));
    } else {
        let (e0, r0) = dec_entry(b).unwrap();
        let (s1, rr) = dec_entries(r0, i - 1).unwrap();
        lemma_dec_entries_snoc(r0, i - 1, s1, rr, e, r2);
        assert(s == seq![e0] + s1);
        assert(dec_entries(b, i + 1) == Some((seq![e0] + s1.push(e), r2)));
        assert(seq![e0] + s1.push(e) =~= s.push(e));
    }
}

proof fn lemma_dec_entries_fail(b: Seq<u8>, n: int, i: int, s: Seq<(ChunkPos, ChunkView)>, r: Seq<u8>)
    requires
        0 <= i < n,
        dec_entries(b, i) == Some((s, r)),
        dec_entry(r) is None,
    ensures
        dec_entries(b, n) is None,
    decreases i,
{
    if i == 0 {
    } else {
        let (e0, r0) = dec_entry(b).unwrap();
        let (s1, rr) = dec_entries(r0, i - 1).unwrap();
        lemma_dec_entries_fail(r0, n - 1, i - 1, s1, rr);
    }
}


// ---------------------------------------------------------------------------
// Client control-stream messages
// ---------------------------------------------------------------------------

pub open spec fn client_fits(m: ClientMsgView) -> bool {
    match m {
        ClientMsgView::ConnectionRequest => true,
        ClientMsgView::CreateAccount(c) => cred_fits(c),
        ClientMsgView::Login(c) => cred_fits(c),
        ClientMsgView::CreateCharacter(n) => string_fits(n),
        ClientMsgView::SelectCharacter(_) => true,
        ClientMsgView::JoinWorldRequest => true,
    }
}

/// A one-byte tag, then the variant payload.
pub open spec fn enc_client_msg(m: ClientMsgView) -> Seq<u8> {
    match m {
        ClientMsgView::ConnectionRequest => enc_u8(0),
        ClientMsgView::CreateAccount(c) => enc_u8(1) + enc_cred(c),
        ClientMsgView::Login(c) => enc_u8(2) + enc_cred(c),
        ClientMsgView::CreateCharacter(n) => enc_u8(3) + enc_string(n),
        ClientMsgView::SelectCharacter(id) => enc_u8(4) + enc_i64(id),
        ClientMsgView::JoinWorldRequest => enc_u8(5),
    }
}

/// Decode a whole client message: unknown tags and trailing bytes are
/// errors.
pub open spec fn dec_client_msg(b: Seq<u8>) -> Option<ClientMsgView> {
    match dec_u8(b) {
        Some((tag, r)) => if tag == 0 {
            if r.len() == 0 { Some(ClientMsgView::ConnectionRequest) } else { None }
        } else if tag == 1 {
            match dec_cred(r) {
                Some((c, r2)) => if r2.len() == 0 { Some(ClientMsgView::CreateAccount(c)) } else { None },
                None => None,
            }
        } else if tag == 2 {
            match dec_cred(r) {
                Some((c, r2)) => if r2.len() == 0 { Some(ClientMsgView::Login(c)) } else { None },
                None => None,
            }
        } else if tag == 3 {
            match dec_string(r) {
                Some((n, r2)) => if r2.len() == 0 { Some(ClientMsgView::CreateCharacter(n)) } else { None },
                None => None,
            }
        } else if tag == 4 {
            match dec_i64(r) {
                Some((id, r2)) => if r2.len() == 0 { Some(ClientMsgView::SelectCharacter(id)) } else { None },
                None => None,
            }
        } else if tag == 5 {
            if r.len() == 0 { Some(ClientMsgView::JoinWorldRequest) } else { None }
        } else {
            None
        },
        None => None,
    }
}

/// Codec symmetry, decoding direction: every message that fits decodes back
/// from its own encoding.
pub proof fn lemma_client_codec_roundtrip(m: ClientMsgView)
    requires
        client_fits(m),
    ensures
        dec_client_msg(enc_client_msg(m)) == Some(m),
{
    match m {
        ClientMsgView::ConnectionRequest => {
            lemma_dec_enc_u8(0, Seq::<u8>::empty());
            assert(enc_u8(0) + Seq::<u8>::empty() =~= enc_u8(0));
        }
        ClientMsgView::CreateAccount(c) => {
            lemma_dec_enc_u8(1, enc_cred(c));
            lemma_dec_enc_cred(c, Seq::<u8>::empty());
            assert(enc_cred(c) + Seq::<u8>::empty() =~= enc_cred(c));
        }
        ClientMsgView::Login(c) => {
            lemma_dec_enc_u8(2, enc_cred(c));
            lemma_dec_enc_cred(c, Seq::<u8>::empty());
            assert(enc_cred(c) + Seq::<u8>::empty() =~= enc_cred(c));
        }
        ClientMsgView::CreateCharacter(n) => {
            lemma_dec_enc_u8(3, enc_string(n));
            lemma_dec_enc_string(n, Seq::<u8>::empty());
            assert(enc_string(n) + Seq::<u8>::empty() =~= enc_string(n));
        }
        ClientMsgView::SelectCharacter(id) => {
            lemma_dec_enc_u8(4, enc_i64(id));
            lemma_dec_enc_i64(id, Seq::<u8>::empty());
            assert(enc_i64(id) + Seq::<u8>::empty() =~= enc_i64(id));
        }
        ClientMsgView::JoinWorldRequest => {
            lemma_dec_enc_u8(5, Seq::<u8>::empty());
            assert(enc_u8(5) + Seq::<u8>::empty() =~= enc_u8(5));
        }
    }
}

/// Codec symmetry, encoding direction: any byte string that decodes is
/// exactly the encoding of what it decodes to.
pub proof fn lemma_client_codec_inverse(b: Seq<u8>, m: ClientMsgView)
    requires
        dec_client_msg(b) == Some(m),
    ensures
        client_fits(m),
        enc_client_msg(m) =~= b,
{
    let (tag, r) = dec_u8(b).unwrap();
    lemma_enc_dec_u8(b, tag, r);
    if tag == 0 {
        assert(r =~= Seq::<u8>::empty());
        assert(enc_u8(0) + Seq::<u8>::empty() =~= enc_u8(0));
    } else if tag == 1 {
        let (c, r2) = dec_cred(r).unwrap();
        lemma_enc_dec_cred(r, c, r2);
        assert(r2 =~= Seq::<u8>::empty());
        assert(enc_cred(c) + Seq::<u8>::empty() =~= enc_cred(c));
    } else if tag == 2 {
        let (c, r2) = dec_cred(r).unwrap();
        lemma_enc_dec_cred(r, c, r2);
        assert(r2 =~= Seq::<u8>::empty());
        assert(enc_cred(c) + Seq::<u8>::empty() =~= enc_cred(c));
    } else if tag == 3 {
        let (n, r2) = dec_string(r).unwrap();
        lemma_enc_dec_string(r, n, r2);
        assert(r2 =~= Seq::<u8>::empty());
        assert(enc_string(n) + Seq::<u8>::empty() =~= enc_string(n));
    } else if tag == 4 {
        let (id, r2) = dec_i64(r).unwrap();
        lemma_enc_dec_i64(r, id, r2);
        assert(r2 =~= Seq::<u8>::empty());
        assert(enc_i64(id) + Seq::<u8>::empty() =~= enc_i64(id));
    } else {
        assert(tag == 5);
        assert(r =~= Seq::<u8>::empty());
        assert(enc_u8(5) + Seq::<u8>::empty() =~= enc_u8(5));
    }
}

/// Encode a client message; `None` exactly when a string in it is too long
/// for the wire format.
pub fn encode_client_message(m: &ClientControlStreamMessage) -> (r: Option<Vec<u8>>)
    ensures
        r is Some <==> client_fits(m@),
        match r {
            Some(v) => v@ == enc_client_msg(m@),
            None => true,
        },
{
    let mut out: Vec<u8> = Vec::new();
    match m {
        ClientControlStreamMessage::ConnectionRequest => {
            out.push(0);
            proof {
                assert(out@ =~= enc_u8(0));
            }
            Some(out)
        }
        ClientControlStreamMessage::CreateAccount(c) => {
            out.push(1);
            if !encode_cred(&mut out, c) {
                return None;
            }
            proof {
                assert(out@ =~= enc_u8(1) + enc_cred(c@));
            }
            Some(out)
        }
        ClientControlStreamMessage::Login(c) => {
            out.push(2);
            if !encode_cred(&mut out, c) {
                return None;
            }
            proof {
                assert(out@ =~= enc_u8(2) + enc_cred(c@));
            }
            Some(out)
        }
        ClientControlStreamMessage::CreateCharacter(n) => {
            out.push(3);
            if !encode_string(&mut out, n) {
                return None;
            }
            proof {
                assert(out@ =~= enc_u8(3) + enc_string(n@));
            }
            Some(out)
        }
        ClientControlStreamMessage::SelectCharacter(id) => {
            out.push(4);
            push_i64(&mut out, *id);
            proof {
                assert(out@ =~= enc_u8(4) + enc_i64(*id));
            }
            Some(out)
        }
        ClientControlStreamMessage::JoinWorldRequest => {
            out.push(5);
            proof {
                assert(out@ =~= enc_u8(5));
            }
            Some(out)
        }
    }
}

/// Decode a client message from one whole payload.
pub fn decode_client_message(b: &Vec<u8>) -> (r: Option<ClientControlStreamMessage>)
    ensures
        match r {
            Some(m) => dec_client_msg(b@) == Some(m@),
            None => dec_client_msg(b@) is None,
        },
{
    proof {
        assert(b@.skip(0) =~= b@);
    }
    match read_u8(b, 0) {
        Some((tag, p0)) => {
            if tag == 0 {
                if p0 == b.len() {
                    proof {
                        assert(b@.skip(p0 as int) =~= Seq::<u8>::empty());
                    }
                    Some(ClientControlStreamMessage::ConnectionRequest)
                } else {
                    None
                }
            } else if tag == 1 {
                match decode_cred(b, p0) {
                    Some((c, p1)) => {
                        if p1 == b.len() {
                            proof {
                                assert(b@.skip(p1 as int) =~= Seq::<u8>::empty());
                            }
                            Some(ClientControlStreamMessage::CreateAccount(c))
                        } else {
                            None
                        }
                    }
                    None => None,
                }
            } else if tag == 2 {
                match decode_cred(b, p0) {
                    Some((c, p1)) => {
                        if p1 == b.len() {
                            proof {
                                assert(b@.skip(p1 as int) =~= Seq::<u8>::empty());
                            }
                            Some(ClientControlStreamMessage::Login(c))
                        } else {
                            None
                        }
                    }
                    None => None,
                }
            } else if tag == 3 {
                match decode_string(b, p0) {
                    Some((n, p1)) => {
                        if p1 == b.len() {
                            proof {
                                assert(b@.skip(p1 as int) =~= Seq::<u8>::empty());
                            }
                            Some(ClientControlStreamMessage::CreateCharacter(n))
                        } else {
                            None
                        }
                    }
                    None => None,
                }
            } else if tag == 4 {
                match read_i64(b, p0) {
                    Some((id, p1)) => {
                        if p1 == b.len() {
                            proof {
                                assert(b@.skip(p1 as int) =~= Seq::<u8>::empty());
                            }
                            Some(ClientControlStreamMessage::SelectCharacter(id))
                        } else {
                            None
                        }
                    }
                    None => None,
                }
            } else if tag == 5 {
                if p0 == b.len() {
                    proof {
                        assert(b@.skip(p0 as int) =~= Seq::<u8>::empty());
                    }
                    Some(ClientControlStreamMessage::JoinWorldRequest)
                } else {
                    None
                }
            } else {
                None
            }
        }
        None => None,
    }
}


// ---------------------------------------------------------------------------
// Server control-stream messages
// ---------------------------------------------------------------------------

pub open spec fn server_fits(m: ServerMsgView) -> bool {
    match m {
        ServerMsgView::Connected => true,
        ServerMsgView::Disconnected(s) => string_fits(s),
        ServerMsgView::Authenticated(a) => account_info_fits(a),
        ServerMsgView::LoginDenied(s) => string_fits(s),
        ServerMsgView::AccountCreateDenied(s) => string_fits(s),
        ServerMsgView::CharacterSelected(_) => true,
        ServerMsgView::CharacterDenied(s) => string_fits(s),
        ServerMsgView::InitialWorld(cs) => entries_fit(cs),
    }
}

/// A one-byte tag, then the variant payload.
pub open spec fn enc_server_msg(m: ServerMsgView) -> Seq<u8> {
    match m {
        ServerMsgView::Connected => enc_u8(0),
        ServerMsgView::Disconnected(s) => enc_u8(1) + enc_string(s),
        ServerMsgView::Authenticated(a) => enc_u8(2) + enc_account_info(a),
        ServerMsgView::LoginDenied(s) => enc_u8(3) + enc_string(s),
        ServerMsgView::AccountCreateDenied(s) => enc_u8(4) + enc_string(s),
        ServerMsgView::CharacterSelected(id) => enc_u8(5) + enc_i64(id),
        ServerMsgView::CharacterDenied(s) => enc_u8(6) + enc_string(s),
        ServerMsgView::InitialWorld(cs) => enc_u8(7) + enc_u32(cs.len() as u32) + enc_entries(cs),
    }
}

/// Decode a whole server message: unknown tags and trailing bytes are
/// errors.
pub open spec fn dec_server_msg(b: Seq<u8>) -> Option<ServerMsgView> {
    match dec_u8(b) {
        Some((tag, r)) => if tag == 0 {
            if r.len() == 0 { Some(ServerMsgView::Connected) } else { None }
        } else if tag == 1 {
            match dec_string(r) {
                Some((s, r2)) => if r2.len() == 0 { Some(ServerMsgView::Disconnected(s)) } else { None },
                None => None,
            }
        } else if tag == 2 {
            match dec_account_info(r) {
                Some((a, r2)) => if r2.len() == 0 { Some(ServerMsgView::Authenticated(a)) } else { None },
                None => None,
            }
        } else if tag == 3 {
            match dec_string(r) {
                Some((s, r2)) => if r2.len() == 0 { Some(ServerMsgView::LoginDenied(s)) } else { None },
                None => None,
            }
        } else if tag == 4 {
            match dec_string(r) {
                Some((s, r2)) => if r2.len() == 0 { Some(ServerMsgView::AccountCreateDenied(s)) } else { None },
                None => None,
            }
        } else if tag == 5 {
            match dec_i64(r) {
                Some((id, r2)) => if r2.len() == 0 { Some(ServerMsgView::CharacterSelected(id)) } else { None },
                None => None,
            }
        } else if tag == 6 {
            match dec_string(r) {
                Some((s, r2)) => if r2.len() == 0 { Some(ServerMsgView::CharacterDenied(s)) } else { None },
                None => None,
            }
        } else if tag == 7 {
            match dec_u32(r) {
                Some((n, r2)) => match dec_entries(r2, n as int) {
                    Some((cs, r3)) => if r3.len() == 0 { Some(ServerMsgView::InitialWorld(cs)) } else { None },
                    None => None,
                },
                None => None,
            }
        } else {
            None
        },
        None => None,
    }
}

/// Codec symmetry, decoding direction: every message that fits decodes back
/// from its own encoding.
pub proof fn lemma_server_codec_roundtrip(m: ServerMsgView)
    requires
        server_fits(m),
    ensures
        dec_server_msg(enc_server_msg(m)) == Some(m),
{
    match m {
        ServerMsgView::Connected => {
            lemma_dec_enc_u8(0, Seq::<u8>::empty());
            assert(enc_u8(0) + Seq::<u8>::empty() =~= enc_u8(0));
        }
        ServerMsgView::Disconnected(s) => {
            lemma_dec_enc_u8(1, enc_string(s));
            lemma_dec_enc_string(s, Seq::<u8>::empty());
            assert(enc_string(s) + Seq::<u8>::empty() =~= enc_string(s));
        }
        ServerMsgView::Authenticated(a) => {
            lemma_dec_enc_u8(2, enc_account_info(a));
            lemma_dec_enc_account_info(a, Seq::<u8>::empty());
            assert(enc_account_info(a) + Seq::<u8>::empty() =~= enc_account_info(a));
        }
        ServerMsgView::LoginDenied(s) => {
            lemma_dec_enc_u8(3, enc_string(s));
            lemma_dec_enc_string(s, Seq::<u8>::empty());
            assert(enc_string(s) + Seq::<u8>::empty() =~= enc_string(s));
        }
        ServerMsgView::AccountCreateDenied(s) => {
            lemma_dec_enc_u8(4, enc_string(s));
            lemma_dec_enc_string(s, Seq::<u8>::empty());
            assert(enc_string(s) + Seq::<u8>::empty() =~= enc_string(s));
        }
        ServerMsgView::CharacterSelected(id) => {
            lemma_dec_enc_u8(5, enc_i64(id));
            lemma_dec_enc_i64(id, Seq::<u8>::empty());
            assert(enc_i64(id) + Seq::<u8>::empty() =~= enc_i64(id));
        }
        ServerMsgView::CharacterDenied(s) => {
            lemma_dec_enc_u8(6, enc_string(s));
            lemma_dec_enc_string(s, Seq::<u8>::empty());
            assert(enc_string(s) + Seq::<u8>::empty() =~= enc_string(s));
        }
        ServerMsgView::InitialWorld(cs) => {
            lemma_dec_enc_u8(7, enc_u32(cs.len() as u32) + enc_entries(cs));
            lemma_dec_enc_u32(cs.len() as u32, enc_entries(cs));
            lemma_dec_enc_entries(cs, Seq::<u8>::empty());
            assert(enc_u8(7) + (enc_u32(cs.len() as u32) + enc_entries(cs))
                =~= enc_u8(7) + enc_u32(cs.len() as u32) + enc_entries(cs));
            assert(enc_entries(cs) + Seq::<u8>::empty() =~= enc_entries(cs));
        }
    }
}

/// Codec symmetry, encoding direction: any byte string that decodes is
/// exactly the encoding of what it decodes to.
pub proof fn lemma_server_codec_inverse(b: Seq<u8>, m: ServerMsgView)
    requires
        dec_server_msg(b) == Some(m),
    ensures
        server_fits(m),
        enc_server_msg(m) =~= b,
{
    let (tag, r) = dec_u8(b).unwrap();
    lemma_enc_dec_u8(b, tag, r);
    if tag == 0 {
        assert(r =~= Seq::<u8>::empty());
        assert(enc_u8(0) + Seq::<u8>::empty() =~= enc_u8(0));
    } else if tag == 1 {
        let (s, r2) = dec_string(r).unwrap();
        lemma_enc_dec_string(r, s, r2);
        assert(r2 =~= Seq::<u8>::empty());
        assert(enc_string(s) + Seq::<u8>::empty() =~= enc_string(s));
    } else if tag == 2 {
        let (a, r2) = dec_account_info(r).unwrap();
        lemma_enc_dec_account_info(r, a, r2);
        assert(r2 =~= Seq::<u8>::empty());
        assert(enc_account_info(a) + Seq::<u8>::empty() =~= enc_account_info(a));
    } else if tag == 3 {
        let (s, r2) = dec_string(r).unwrap();
        lemma_enc_dec_string(r, s, r2);
        assert(r2 =~= Seq::<u8>::empty());
        assert(enc_string(s) + Seq::<u8>::empty() =~= enc_string(s));
    } else if tag == 4 {
        let (s, r2) = dec_string(r).unwrap();
        lemma_enc_dec_string(r, s, r2);
        assert(r2 =~= Seq::<u8>::empty());
        assert(enc_string(s) + Seq::<u8>::empty() =~= enc_string(s));
    } else if tag == 5 {
        let (id, r2) = dec_i64(r).unwrap();
        lemma_enc_dec_i64(r, id, r2);
        assert(r2 =~= Seq::<u8>::empty());
        assert(enc_i64(id) + Seq::<u8>::empty() =~= enc_i64(id));
    } else if tag == 6 {
        let (s, r2) = dec_string(r).unwrap();
        lemma_enc_dec_string(r, s, r2);
        assert(r2 =~= Seq::<u8>::empty());
        assert(enc_string(s) + Seq::<u8>::empty() =~= enc_string(s));
    } else {
        assert(tag == 7);
        let (n, r2) = dec_u32(r).unwrap();
        let (cs, r3) = dec_entries(r2, n as int).unwrap();
        lemma_enc_dec_u32(r, n, r2);
        lemma_enc_dec_entries(r2, n as int, cs, r3);
        assert(r3 =~= Seq::<u8>::empty());
        assert(cs.len() as u32 == n);
        assert(enc_entries(cs) + Seq::<u8>::empty() =~= enc_entries(cs));
        assert(r =~= enc_u32(cs.len() as u32) + enc_entries(cs));
        assert(b =~= enc_u8(7) + (enc_u32(cs.len() as u32) + enc_entries(cs)));
        assert(enc_u8(7) + (enc_u32(cs.len() as u32) + enc_entries(cs))
            =~= enc_u8(7) + enc_u32(cs.len() as u32) + enc_entries(cs));
    }
}

/// Append the encoding of one (position, chunk) entry.
pub fn encode_entry(out: &mut Vec<u8>, e: &(ChunkPos, Chunk)) -> (ok: bool)
    ensures
        ok <==> chunk_fits(e.1@),
        ok ==> final(out)@ == old(out)@ + enc_entry((e.0, e.1@)),
{
    push_i64(out, e.0.x);
    push_i64(out, e.0.y);
    if !encode_chunk(out, &e.1) {
        return false;
    }
    proof {
        assert(out@ =~= old(out)@ + enc_entry((e.0, e.1@)));
    }
    true
}

/// Read one (position, chunk) entry at `pos`.
pub fn decode_entry(b: &Vec<u8>, pos: usize) -> (r: Option<((ChunkPos, Chunk), usize)>)
    requires
        pos <= b@.len(),
    ensures
        match r {
            Some(sp) => {
                &&& dec_entry(b@.skip(pos as int)) == Some(((sp.0.0, sp.0.1@), b@.skip(sp.1 as int)))
                &&& pos <= sp.1 <= b@.len()
            },
            None => dec_entry(b@.skip(pos as int)) is None,
        },
{
    match read_i64(b, pos) {
        Some((x, p0)) => match read_i64(b, p0) {
            Some((y, p1)) => match decode_chunk(b, p1) {
                Some((c, p2)) => Some(((ChunkPos { x, y }, c), p2)),
                None => None,
            },
            None => None,
        },
        None => None,
    }
}

/// Encode a server message; `None` exactly when a string or list in it is
/// too long for the wire format.
pub fn encode_server_message(m: &ServerControlStreamMessage) -> (r: Option<Vec<u8>>)
    ensures
        r is Some <==> server_fits(m@),
        match r {
            Some(v) => v@ == enc_server_msg(m@),
            None => true,
        },
{
    let mut out: Vec<u8> = Vec::new();
    match m {
        ServerControlStreamMessage::Connected => {
            out.push(0);
            proof {
                assert(out@ =~= enc_u8(0));
            }
            Some(out)
        }
        ServerControlStreamMessage::Disconnected(s) => {
            out.push(1);
            if !encode_string(&mut out, s) {
                return None;
            }
            proof {
                assert(out@ =~= enc_u8(1) + enc_string(s@));
            }
            Some(out)
        }
        ServerControlStreamMessage::Authenticated(a) => {
            out.push(2);
            if !encode_account_info(&mut out, a) {
                return None;
            }
            proof {
                assert(out@ =~= enc_u8(2) + enc_account_info(a@));
            }
            Some(out)
        }
        ServerControlStreamMessage::LoginDenied(s) => {
            out.push(3);
            if !encode_string(&mut out, s) {
                return None;
            }
            proof {
                assert(out@ =~= enc_u8(3) + enc_string(s@));
            }
            Some(out)
        }
        ServerControlStreamMessage::AccountCreateDenied(s) => {
            out.push(4);
            if !encode_string(&mut out, s) {
                return None;
            }
            proof {
                assert(out@ =~= enc_u8(4) + enc_string(s@));
            }
            Some(out)
        }
        ServerControlStreamMessage::CharacterSelected(id) => {
            out.push(5);
            push_i64(&mut out, *id);
            proof {
                assert(out@ =~= enc_u8(5) + enc_i64(*id));
            }
            Some(out)
        }
        ServerControlStreamMessage::CharacterDenied(s) => {
            out.push(6);
            if !encode_string(&mut out, s) {
                return None;
            }
            proof {
                assert(out@ =~= enc_u8(6) + enc_string(s@));
            }
            Some(out)
        }
        ServerControlStreamMessage::InitialWorld { chunks } => {
            out.push(7);
            if chunks.len() > u32::MAX as usize {
                return None;
            }
            let n: usize = chunks.len();
            push_u32(&mut out, n as u32);
            let ghost views = chunks@.map_values(|e: (ChunkPos, Chunk)| (e.0, e.1@));
            let ghost base = out@;
            proof {
                assert(views.skip(0) =~= views);
            }
            let mut i: usize = 0;
            while i < n
                invariant
                    n == chunks@.len(),
                    n <= u32::MAX,
                    views == chunks@.map_values(|e: (ChunkPos, Chunk)| (e.0, e.1@)),
                    m@ == ServerMsgView::InitialWorld(views),
                    base == enc_u8(7) + enc_u32(n as u32),
                    i <= n,
                    forall|j: int| 0 <= j < i ==> chunk_fits((#[trigger] views[j]).1),
                    out@ + enc_entries(views.skip(i as int)) == base + enc_entries(views),
                decreases n - i,
            {
                let ghost pre = out@;
                if !encode_entry(&mut out, &chunks[i]) {
                    proof {
                        assert(!chunk_fits(views[i as int].1));
                    }
                    return None;
                }
                proof {
                    let tail = views.skip(i as int);
                    assert(tail[0] == views[i as int]);
                    assert(tail.skip(1) =~= views.skip(i + 1int));
                    assert(enc_entries(tail) == enc_entry(views[i as int]) + enc_entries(views.skip(i + 1int)));
                    assert(out@ + enc_entries(views.skip(i + 1int)) =~= pre + enc_entries(tail));
                }
                i += 1;
            }
            proof {
                assert(views.skip(n as int) =~= Seq::<(ChunkPos, ChunkView)>::empty());
                assert(out@ + enc_entries(views.skip(n as int)) =~= out@);
                assert(out@ =~= enc_u8(7) + enc_u32(n as u32) + enc_entries(views));
            }
            Some(out)
        }
    }
}

/// Decode a server message from one whole payload.
pub fn decode_server_message(b: &Vec<u8>) -> (r: Option<ServerControlStreamMessage>)
    ensures
        match r {
            Some(m) => dec_server_msg(b@) == Some(m@),
            None => dec_server_msg(b@) is None,
        },
{
    proof {
        assert(b@.skip(0) =~= b@);
    }
    match read_u8(b, 0) {
        Some((tag, p0)) => {
            if tag == 0 {
                if p0 == b.len() {
                    proof {
                        assert(b@.skip(p0 as int) =~= Seq::<u8>::empty());
                    }
                    Some(ServerControlStreamMessage::Connected)
                } else {
                    None
                }
            } else if tag == 1 {
                match decode_string(b, p0) {
                    Some((s, p1)) => {
                        if p1 == b.len() {
                            proof {
                                assert(b@.skip(p1 as int) =~= Seq::<u8>::empty());
                            }
                            Some(ServerControlStreamMessage::Disconnected(s))
                        } else {
                            None
                        }
                    }
                    None => None,
                }
            } else if tag == 2 {
                match decode_account_info(b, p0) {
                    Some((a, p1)) => {
                        if p1 == b.len() {
                            proof {
                                assert(b@.skip(p1 as int) =~= Seq::<u8>::empty());
                            }
                            Some(ServerControlStreamMessage::Authenticated(a))
                        } else {
                            None
                        }
                    }
                    None => None,
                }
            } else if tag == 3 {
                match decode_string(b, p0) {
                    Some((s, p1)) => {
                        if p1 == b.len() {
                            proof {
                                assert(b@.skip(p1 as int) =~= Seq::<u8>::empty());
                            }
                            Some(ServerControlStreamMessage::LoginDenied(s))
                        } else {
                            None
                        }
                    }
                    None => None,
                }
            } else if tag == 4 {
                match decode_string(b, p0) {
                    Some((s, p1)) => {
                        if p1 == b.len() {
                            proof {
                                assert(b@.skip(p1 as int) =~= Seq::<u8>::empty());
                            }
                            Some(ServerControlStreamMessage::AccountCreateDenied(s))
                        } else {
                            None
                        }
                    }
                    None => None,
                }
            } else if tag == 5 {
                match read_i64(b, p0) {
                    Some((id, p1)) => {
                        if p1 == b.len() {
                            proof {
                                assert(b@.skip(p1 as int) =~= Seq::<u8>::empty());
                            }
                            Some(ServerControlStreamMessage::CharacterSelected(id))
                        } else {
                            None
                        }
                    }
                    None => None,
                }
            } else if tag == 6 {
                match decode_string(b, p0) {
                    Some((s, p1)) => {
                        if p1 == b.len() {
                            proof {
                                assert(b@.skip(p1 as int) =~= Seq::<u8>::empty());
                            }
                            Some(ServerControlStreamMessage::CharacterDenied(s))
                        } else {
                            None
                        }
                    }
                    None => None,
                }
            } else if tag == 7 {
                match read_u32(b, p0) {
                    Some((n, p1)) => {
                        let ghost b0 = b@.skip(p1 as int);
                        let mut chunks: Vec<(ChunkPos, Chunk)> = Vec::new();
                        let mut cur: usize = p1;
                        let mut i: u32 = 0;
                        while i < n
                            invariant
                                p1 <= cur <= b@.len(),
                                i <= n,
                                b0 == b@.skip(p1 as int),
                                dec_u8(b@) == Some((7u8, b@.skip(p0 as int))),
                                dec_u32(b@.skip(p0 as int)) == Some((n, b0)),
                                dec_entries(b0, i as int) == Some((
                                    chunks@.map_values(|e: (ChunkPos, Chunk)| (e.0, e.1@)),
                                    b@.skip(cur as int),
                                )),
                            decreases n - i,
                        {
                            let ghost pre_views = chunks@.map_values(|e: (ChunkPos, Chunk)| (e.0, e.1@));
                            let ghost pre_cur = cur;
                            match decode_entry(b, cur) {
                                Some((e, c2)) => {
                                    proof {
                                        lemma_dec_entries_snoc(b0, i as int, pre_views,
                                            b@.skip(pre_cur as int), (e.0, e.1@), b@.skip(c2 as int));
                                    }
                                    chunks.push(e);
                                    proof {
                                        assert(chunks@.map_values(|ee: (ChunkPos, Chunk)| (ee.0, ee.1@))
                                            =~= pre_views.push((chunks@.last().0, chunks@.last().1@)));
                                    }
                                    cur = c2;
                                    i += 1;
                                }
                                None => {
                                    proof {
                                        lemma_dec_entries_fail(b0, n as int, i as int, pre_views,
                                            b@.skip(cur as int));
                                    }
                                    return None;
                                }
                            }
                        }
                        if cur == b.len() {
                            proof {
                                assert(b@.skip(cur as int) =~= Seq::<u8>::empty());
                            }
                            Some(ServerControlStreamMessage::InitialWorld { chunks })
                        } else {
                            None
                        }
                    }
                    None => None,
                }
            } else {
                None
            }
        }
        None => None,
    }
}

// ---------------------------------------------------------------------------
// Length-prefix framing
// ---------------------------------------------------------------------------

/// The payload fits behind a 32-bit length prefix.
pub open spec fn frame_fits(p: Seq<u8>) -> bool {
    p.len() <= u32::MAX
}

/// A frame is a big-endian `u32` length followed by exactly that many
/// payload bytes.
pub open spec fn spec_frame(p: Seq<u8>) -> Seq<u8> {
    enc_u32(p.len() as u32) + p
}

/// Read one frame off the front of `b`: the length, then an exact read of
/// that many bytes. A short buffer is no frame.
pub open spec fn dec_frame(b: Seq<u8>) -> Option<(Seq<u8>, Seq<u8>)> {
    match dec_u32(b) {
        Some((n, rest)) => if rest.len() >= n {
            Some((rest.take(n as int), rest.skip(n as int)))
        } else {
            None
        },
        None => None,
    }
}

/// Framing round-trip, decoding direction.
pub proof fn lemma_dec_enc_frame(p: Seq<u8>, rest: Seq<u8>)
    requires
        frame_fits(p),
    ensures
        dec_frame(spec_frame(p) + rest) == Some((p, rest)),
{
    assert(spec_frame(p) + rest =~= enc_u32(p.len() as u32) + (p + rest));
    lemma_dec_enc_u32(p.len() as u32, p + rest);
    assert((p + rest).take(p.len() as int) =~= p);
    assert((p + rest).skip(p.len() as int) =~= rest);
}

/// Framing round-trip, encoding direction.
pub proof fn lemma_enc_dec_frame(b: Seq<u8>, p: Seq<u8>, rest: Seq<u8>)
    requires
        dec_frame(b) == Some((p, rest)),
    ensures
        frame_fits(p),
        b =~= spec_frame(p) + rest,
{
    let (n, r) = dec_u32(b).unwrap();
    lemma_enc_dec_u32(b, n, r);
    assert(p.len() == n);
    assert(r =~= p + rest);
    assert(b =~= enc_u32(p.len() as u32) + (p + rest));
}

/// Put a length prefix in front of a payload; `None` exactly when the
/// payload is too long for the prefix.
pub fn frame_message(payload: &Vec<u8>) -> (r: Option<Vec<u8>>)
    ensures
        r is Some <==> frame_fits(payload@),
        match r {
            Some(f) => f@ == spec_frame(payload@),
            None => true,
        },
{
    if payload.len() > u32::MAX as usize {
        return None;
    }
    let mut out: Vec<u8> = Vec::new();
    push_u32(&mut out, payload.len() as u32);
    let mut i: usize = 0;
    while i < payload.len()
        invariant
            i <= payload@.len(),
            out@ == enc_u32(payload@.len() as u32) + payload@.take(i as int),
        decreases payload@.len() - i,
    {
        out.push(payload[i]);
        proof {
            assert(out@ =~= enc_u32(payload@.len() as u32) + payload@.take(i + 1int));
        }
        i += 1;
    }
    proof {
        assert(payload@.take(payload@.len() as int) =~= payload@);
    }
    Some(out)
}

/// Read one frame out of a receive buffer, starting at `pos`: `None` means
/// the buffer does not yet hold a whole frame.
pub fn read_frame(buf: &Vec<u8>, pos: usize) -> (r: Option<(Vec<u8>, usize)>)
    requires
        pos <= buf@.len(),
    ensures
        match r {
            Some(fp) => {
                &&& dec_frame(buf@.skip(pos as int)) == Some((fp.0@, buf@.skip(fp.1 as int)))
                &&& pos <= fp.1 <= buf@.len()
            },
            None => dec_frame(buf@.skip(pos as int)) is None,
        },
{
    match read_u32(buf, pos) {
        Some((n, p1)) => {
            if (buf.len() - p1) as u64 >= n as u64 {
                let end: usize = p1 + (n as usize);
                let mut payload: Vec<u8> = Vec::new();
                let mut i: usize = p1;
                while i < end
                    invariant
                        p1 <= i <= end <= buf@.len(),
                        payload@ == buf@.subrange(p1 as int, i as int),
                    decreases end - i,
                {
                    payload.push(buf[i]);
                    proof {
                        assert(payload@ =~= buf@.subrange(p1 as int, i + 1int));
                    }
                    i += 1;
                }
                proof {
                    assert(buf@.skip(p1 as int).take(n as int) =~= buf@.subrange(p1 as int, end as int));
                    assert(buf@.skip(p1 as int).skip(n as int) =~= buf@.skip(end as int));
                }
                Some((payload, end))
            } else {
                None
            }
        }
        None => None,
    }
}

} // verus!