//! Byte-level primitives of the wire encoding: little-endian integers,
//! length-prefixed byte strings and UTF-8 text, and the positional handle
//! placeholders that stand in for OS descriptors inside an encoded message.
use vstd::prelude::*;
use vstd::utf8::{valid_utf8, decode_utf8, encode_utf8};
use crate::handle::{HandleKind, kind_tag, kind_of_tag, tag_of_kind, kind_from_tag};

verus! {

/// Why a decode failed: the bytes do not form a well-formed encoding, or a
/// decoded handle's kind tag does not match the concrete type expected there.
#[derive(Debug, Clone, Copy, PartialEq, Eq, Structural)]
pub enum DecodeError {
    Malformed,
    TypeMismatch,
}

// ---------------------------------------------------------------------------
// Little-endian integers
// ---------------------------------------------------------------------------

/// The four little-endian bytes of a 32-bit value.
pub open spec fn u32_le_bytes(v: u32) -> Seq<u8> {
    seq![
        (v & 0xff) as u8,
        ((v >> 8) & 0xff) as u8,
        ((v >> 16) & 0xff) as u8,
        ((v >> 24) & 0xff) as u8,
    ]
}

/// The 32-bit value read from four little-endian bytes.
pub open spec fn u32_from_le(b0: u8, b1: u8, b2: u8, b3: u8) -> u32 {
    (b0 as u32) | (b1 as u32) << 8 | (b2 as u32) << 16 | (b3 as u32) << 24
}

pub proof fn lemma_u32_le_round_trip(v: u32)
    ensures
        u32_from_le(
            u32_le_bytes(v)[0],
            u32_le_bytes(v)[1],
            u32_le_bytes(v)[2],
            u32_le_bytes(v)[3],
        ) == v,
{
    assert(((v & 0xff) as u8 as u32) | (((v >> 8) & 0xff) as u8 as u32) << 8 | (((v >> 16)
        & 0xff) as u8 as u32) << 16 | (((v >> 24) & 0xff) as u8 as u32) << 24 == v)
        by (bit_vector);
}

/// The eight little-endian bytes of a 64-bit value.
pub open spec fn u64_le_bytes(v: u64) -> Seq<u8> {
    seq![
        (v & 0xff) as u8,
        ((v >> 8) & 0xff) as u8,
        ((v >> 16) & 0xff) as u8,
        ((v >> 24) & 0xff) as u8,
        ((v >> 32) & 0xff) as u8,
        ((v >> 40) & 0xff) as u8,
        ((v >> 48) & 0xff) as u8,
        ((v >> 56) & 0xff) as u8,
    ]
}

/// The 64-bit value read from eight little-endian bytes.
pub open spec fn u64_from_le(
    b0: u8,
    b1: u8,
    b2: u8,
    b3: u8,
    b4: u8,
    b5: u8,
    b6: u8,
    b7: u8,
) -> u64 {
    (b0 as u64) | (b1 as u64) << 8 | (b2 as u64) << 16 | (b3 as u64) << 24 | (b4 as u64) << 32 | (
    b5 as u64) << 40 | (b6 as u64) << 48 | (b7 as u64) << 56
}

pub proof fn lemma_u64_le_round_trip(v: u64)
    ensures
        u64_from_le(
            u64_le_bytes(v)[0],
            u64_le_bytes(v)[1],
            u64_le_bytes(v)[2],
            u64_le_bytes(v)[3],
            u64_le_bytes(v)[4],
            u64_le_bytes(v)[5],
            u64_le_bytes(v)[6],
            u64_le_bytes(v)[7],
        ) == v,
{
    assert(((v & 0xff) as u8 as u64) | (((v >> 8) & 0xff) as u8 as u64) << 8 | (((v >> 16)
        & 0xff) as u8 as u64) << 16 | (((v >> 24) & 0xff) as u8 as u64) << 24 | (((v >> 32)
        & 0xff) as u8 as u64) << 32 | (((v >> 40) & 0xff) as u8 as u64) << 40 | (((v >> 48)
        & 0xff) as u8 as u64) << 48 | (((v >> 56) & 0xff) as u8 as u64) << 56 == v)
        by (bit_vector);
}

/// Appends the little-endian bytes of `v` to `out`.
pub fn push_u32_le(out: &mut Vec<u8>, v: u32)
    ensures
        final(out)@ == old(out)@ + u32_le_bytes(v),
{
    out.push((v & 0xff) as u8);
    out.push(((v >> 8) & 0xff) as u8);
    out.push(((v >> 16) & 0xff) as u8);
    out.push(((v >> 24) & 0xff) as u8);
    proof {
        assert(out@ =~= old(out)@ + u32_le_bytes(v));
    }
}

/// Appends the little-endian bytes of `v` to `out`.
pub fn push_u64_le(out: &mut Vec<u8>, v: u64)
    ensures
        final(out)@ == old(out)@ + u64_le_bytes(v),
{
    out.push((v & 0xff) as u8);
    out.push(((v >> 8) & 0xff) as u8);
    out.push(((v >> 16) & 0xff) as u8);
    out.push(((v >> 24) & 0xff) as u8);
    out.push(((v >> 32) & 0xff) as u8);
    out.push(((v >> 40) & 0xff) as u8);
    out.push(((v >> 48) & 0xff) as u8);
    out.push(((v >> 56) & 0xff) as u8);
    proof {
        assert(out@ =~= old(out)@ + u64_le_bytes(v));
    }
}

/// What reading a 32-bit little-endian value at `pos` yields: the value and
/// the position just past it, or nothing if fewer than four bytes remain.
pub open spec fn sdec_u32(b: Seq<u8>, pos: int) -> Option<(u32, int)> {
    if 0 <= pos && pos + 4 <= b.len() {
        Some((u32_from_le(b[pos], b[pos + 1], b[pos + 2], b[pos + 3]), pos + 4))
    } else {
        None
    }
}

/// What reading a 64-bit little-endian value at `pos` yields.
pub open spec fn sdec_u64(b: Seq<u8>, pos: int) -> Option<(u64, int)> {
    if 0 <= pos && pos + 8 <= b.len() {
        Some(
            (
                u64_from_le(
                    b[pos],
                    b[pos + 1],
                    b[pos + 2],
                    b[pos + 3],
                    b[pos + 4],
                    b[pos + 5],
                    b[pos + 6],
                    b[pos + 7],
                ),
                pos + 8,
            ),
        )
    } else {
        None
    }
}

/// Reads a 32-bit little-endian value at `pos`.
pub fn dec_u32(b: &Vec<u8>, pos: usize) -> (r: Option<(u32, usize)>)
    ensures
        match r {
            Some(vp) => sdec_u32(b@, pos as int) == Some((vp.0, vp.1 as int)),
            None => sdec_u32(b@, pos as int) is None,
        },
{
    if b.len() >= 4 && pos <= b.len() - 4 {
        let v = (b[pos] as u32) | (b[pos + 1] as u32) << 8 | (b[pos + 2] as u32) << 16 | (b[pos
            + 3] as u32) << 24;
        Some((v, pos + 4))
    } else {
        None
    }
}

/// Reads a 64-bit little-endian value at `pos`.
pub fn dec_u64(b: &Vec<u8>, pos: usize) -> (r: Option<(u64, usize)>)
    ensures
        match r {
            Some(vp) => sdec_u64(b@, pos as int) == Some((vp.0, vp.1 as int)),
            None => sdec_u64(b@, pos as int) is None,
        },
{
    if b.len() >= 8 && pos <= b.len() - 8 {
        let v = (b[pos] as u64) | (b[pos + 1] as u64) << 8 | (b[pos + 2] as u64) << 16 | (b[pos
            + 3] as u64) << 24 | (b[pos + 4] as u64) << 32 | (b[pos + 5] as u64) << 40 | (b[pos
            + 6] as u64) << 48 | (b[pos + 7] as u64) << 56;
        Some((v, pos + 8))
    } else {
        None
    }
}

/// Reading at a position where the little-endian bytes of `v` stand yields
/// `v` and advances past them.
pub proof fn lemma_sdec_u32_of_enc(b: Seq<u8>, pos: int, v: u32)
    requires
        0 <= pos,
        pos + 4 <= b.len(),
        b.subrange(pos, pos + 4) == u32_le_bytes(v),
    ensures
        sdec_u32(b, pos) == Some((v, pos + 4)),
{
    assert(b[pos] == u32_le_bytes(v)[0]);
    assert(b[pos + 1] == u32_le_bytes(v)[1]);
    assert(b[pos + 2] == u32_le_bytes(v)[2]);
    assert(b[pos + 3] == u32_le_bytes(v)[3]);
    lemma_u32_le_round_trip(v);
}

/// Reading at a position where the little-endian bytes of `v` stand yields
/// `v` and advances past them.
pub proof fn lemma_sdec_u64_of_enc(b: Seq<u8>, pos: int, v: u64)
    requires
        0 <= pos,
        pos + 8 <= b.len(),
        b.subrange(pos, pos + 8) == u64_le_bytes(v),
    ensures
        sdec_u64(b, pos) == Some((v, pos + 8)),
{
    assert(b[pos] == u64_le_bytes(v)[0]);
    assert(b[pos + 1] == u64_le_bytes(v)[1]);
    assert(b[pos + 2] == u64_le_bytes(v)[2]);
    assert(b[pos + 3] == u64_le_bytes(v)[3]);
    assert(b[pos + 4] == u64_le_bytes(v)[4]);
    assert(b[pos + 5] == u64_le_bytes(v)[5]);
    assert(b[pos + 6] == u64_le_bytes(v)[6]);
    assert(b[pos + 7] == u64_le_bytes(v)[7]);
    lemma_u64_le_round_trip(v);
}

// ---------------------------------------------------------------------------
// Length-prefixed byte strings and UTF-8 text
// ---------------------------------------------------------------------------

/// The encoding of a byte string: its length, then its bytes.
pub open spec fn senc_bytes(b: Seq<u8>) -> Seq<u8> {
    u64_le_bytes(b.len() as u64) + b
}

/// What reading a length-prefixed byte string at `pos` yields.
pub open spec fn sdec_bytes(b: Seq<u8>, pos: int) -> Option<(Seq<u8>, int)> {
    match sdec_u64(b, pos) {
        Some((n, p)) => if p + n <= b.len() {
            Some((b.subrange(p, p + n), p + n))
        } else {
            None
        },
        None => None,
    }
}

/// The encoding of a text value: its UTF-8 bytes, length-prefixed.
pub open spec fn senc_str(s: Seq<char>) -> Seq<u8> {
    senc_bytes(encode_utf8(s))
}

/// What reading a length-prefixed text value at `pos` yields. Bytes that are
/// not valid UTF-8 yield nothing.
pub open spec fn sdec_str(b: Seq<u8>, pos: int) -> Option<(Seq<char>, int)> {
    match sdec_bytes(b, pos) {
        Some((bs, p)) => if valid_utf8(bs) {
            Some((decode_utf8(bs), p))
        } else {
            None
        },
        None => None,
    }
}

/// Appends every byte of `b` to `out`.
pub fn push_bytes(out: &mut Vec<u8>, b: &[u8])
    ensures
        final(out)@ == old(out)@ + b@,
{
    let n = b.len();
    let mut i: usize = 0;
    while i < n
        invariant
            n == b@.len(),
            i <= n,
            out@ == old(out)@ + b@.subrange(0, i as int),
        decreases n - i,
    {
        let x = b[i];
        out.push(x);
        i = i + 1;
        proof {
            assert(out@ =~= old(out)@ + b@.subrange(0, i as int));
        }
    }
    proof {
        assert(out@ =~= old(out)@ + b@);
    }
}

/// Appends the length-prefixed encoding of `b` to `out`.
pub fn enc_bytes(out: &mut Vec<u8>, b: &Vec<u8>)
    ensures
        final(out)@ == old(out)@ + senc_bytes(b@),
{
    push_u64_le(out, b.len() as u64);
    push_bytes(out, b.as_slice());
    proof {
        assert(out@ =~= old(out)@ + senc_bytes(b@));
    }
}

/// Appends the length-prefixed UTF-8 encoding of `s` to `out`.
pub fn enc_str(out: &mut Vec<u8>, s: &str)
    ensures
        final(out)@ == old(out)@ + senc_str(s@),
{
    let bs = s.as_bytes();
    push_u64_le(out, bs.len() as u64);
    push_bytes(out, bs);
    proof {
        assert(out@ =~= old(out)@ + senc_str(s@));
    }
}

/// Relies on alloc::string::String::from_utf8: it succeeds exactly on valid
/// UTF-8 input, and the string it returns holds the characters those bytes
/// decode to.
#[verifier::external_body]
fn string_from_utf8(bytes: Vec<u8>) -> (r: Option<String>)
    ensures
        r is Some <==> valid_utf8(bytes@),
        r is Some ==> r.unwrap()@ == decode_utf8(bytes@),
{
    String::from_utf8(bytes).ok()
}

/// Reads a length-prefixed byte string at `pos`.
pub fn dec_bytes(b: &Vec<u8>, pos: usize) -> (r: Option<(Vec<u8>, usize)>)
    ensures
        match r {
            Some(vp) => sdec_bytes(b@, pos as int) == Some((vp.0@, vp.1 as int)),
            None => sdec_bytes(b@, pos as int) is None,
        },
{
    match dec_u64(b, pos) {
        Some((n, p)) => {
            if n <= (b.len() - p) as u64 {
                let n_us = n as usize;
                let sub = vstd::slice::slice_subrange(b.as_slice(), p, p + n_us);
                let v = vstd::slice::slice_to_vec(sub);
                Some((v, p + n_us))
            } else {
                None
            }
        },
        None => None,
    }
}

/// Reads a length-prefixed text value at `pos`; fails on bytes that are not
/// valid UTF-8.
pub fn dec_str(b: &Vec<u8>, pos: usize) -> (r: Option<(String, usize)>)
    ensures
        match r {
            Some(vp) => sdec_str(b@, pos as int) == Some((vp.0@, vp.1 as int)),
            None => sdec_str(b@, pos as int) is None,
        },
{
    match dec_bytes(b, pos) {
        Some((bs, p)) => match string_from_utf8(bs) {
            Some(s) => Some((s, p)),
            None => None,
        },
        None => None,
    }
}

/// A window into a window: where the bytes `e` stand at `pos`, any part of
/// `e` stands at the corresponding offset.
pub proof fn lemma_subrange_of_subrange(b: Seq<u8>, pos: int, e: Seq<u8>, a: int, c: int)
    requires
        0 <= pos,
        pos + e.len() <= b.len(),
        b.subrange(pos, pos + e.len()) == e,
        0 <= a <= c <= e.len(),
    ensures
        b.subrange(pos + a, pos + c) == e.subrange(a, c),
{
    assert forall|i: int| 0 <= i < c - a implies b.subrange(pos + a, pos + c)[i] == e.subrange(
        a,
        c,
    )[i] by {
        assert(e[a + i] == b.subrange(pos, pos + e.len())[a + i]);
    }
    assert(b.subrange(pos + a, pos + c) =~= e.subrange(a, c));
}

/// Reading at a position where the encoding of byte string `bs` stands yields
/// `bs` and advances past it.
pub proof fn lemma_sdec_bytes_of_enc(b: Seq<u8>, pos: int, bs: Seq<u8>)
    requires
        0 <= pos,
        bs.len() < 0x1_0000_0000_0000_0000,
        pos + senc_bytes(bs).len() <= b.len(),
        b.subrange(pos, pos + senc_bytes(bs).len()) == senc_bytes(bs),
    ensures
        sdec_bytes(b, pos) == Some((bs, pos + 8 + bs.len())),
{
    let n = bs.len() as u64;
    let e = senc_bytes(bs);
    lemma_subrange_of_subrange(b, pos, e, 0, 8);
    assert(e.subrange(0, 8) =~= u64_le_bytes(n));
    lemma_sdec_u64_of_enc(b, pos, n);
    lemma_subrange_of_subrange(b, pos, e, 8, e.len() as int);
    assert(e.subrange(8, e.len() as int) =~= bs);
}

/// Reading at a position where the encoding of text `s` stands yields `s`
/// and advances past it.
pub proof fn lemma_sdec_str_of_enc(b: Seq<u8>, pos: int, s: Seq<char>)
    requires
        0 <= pos,
        encode_utf8(s).len() < 0x1_0000_0000_0000_0000,
        pos + senc_str(s).len() <= b.len(),
        b.subrange(pos, pos + senc_str(s).len()) == senc_str(s),
    ensures
        sdec_str(b, pos) == Some((s, pos + 8 + encode_utf8(s).len())),
{
    lemma_sdec_bytes_of_enc(b, pos, encode_utf8(s));
    vstd::utf8::encode_utf8_valid_utf8(s);
    vstd::utf8::encode_utf8_decode_utf8(s);
}

// ---------------------------------------------------------------------------
// Handle placeholders
// ---------------------------------------------------------------------------

/// The placeholder written in place of a handle: its kind tag, then its
/// position in the side list of descriptors for this message.
pub open spec fn senc_handle(k: HandleKind, idx: int) -> Seq<u8> {
    seq![kind_tag(k)] + u32_le_bytes(idx as u32)
}

/// What reading a handle placeholder at `pos` yields, given the side list of
/// received descriptors: the kind and the descriptor the placeholder's
/// position binds to.
pub open spec fn sdec_handle(b: Seq<u8>, pos: int, fds: Seq<i32>) -> Option<((HandleKind, i32), int)> {
    if 0 <= pos < b.len() {
        match kind_of_tag(b[pos]) {
            Some(k) => match sdec_u32(b, pos + 1) {
                Some((idx, p)) => if idx < fds.len() && fds[idx as int] >= 0 {
                    Some(((k, fds[idx as int]), p))
                } else {
                    None
                },
                None => None,
            },
            None => None,
        }
    } else {
        None
    }
}

/// Appends the placeholder for one handle to `out` and its descriptor to the
/// side list `fds`; the placeholder records the descriptor's position there.
pub fn enc_handle(out: &mut Vec<u8>, fds: &mut Vec<i32>, k: HandleKind, fd: i32)
    requires
        old(fds)@.len() < 0x1_0000_0000,
    ensures
        final(out)@ == old(out)@ + senc_handle(k, old(fds)@.len() as int),
        final(fds)@ == old(fds)@.push(fd),
{
    out.push(tag_of_kind(k));
    push_u32_le(out, fds.len() as u32);
    fds.push(fd);
    proof {
        assert(out@ =~= old(out)@ + senc_handle(k, old(fds)@.len() as int));
    }
}

/// Reads a handle placeholder at `pos` and binds it to the descriptor at the
/// recorded position of `fds`.
pub fn dec_handle(b: &Vec<u8>, pos: usize, fds: &Vec<i32>) -> (r: Option<((HandleKind, i32), usize)>)
    ensures
        match r {
            Some(vp) => sdec_handle(b@, pos as int, fds@) == Some((vp.0, vp.1 as int)),
            None => sdec_handle(b@, pos as int, fds@) is None,
        },
{
    if pos < b.len() {
        match kind_from_tag(b[pos]) {
            Some(k) => match dec_u32(b, pos + 1) {
                Some((idx, p)) => {
                    if (idx as usize) < fds.len() && fds[idx as usize] >= 0 {
                        Some(((k, fds[idx as usize]), p))
                    } else {
                        None
                    }
                },
                None => None,
            },
            None => None,
        }
    } else {
        None
    }
}

/// Positional binding: a handle encoded while `idx` descriptors stood in the
/// side list decodes to the descriptor at exactly position `idx` of the list
/// the receiver supplies.
pub proof fn lemma_sdec_handle_of_enc(b: Seq<u8>, pos: int, k: HandleKind, idx: int, fds: Seq<i32>)
    requires
        0 <= pos,
        0 <= idx < fds.len(),
        fds.len() < 0x1_0000_0000,
        fds[idx] >= 0,
        pos + 5 <= b.len(),
        b.subrange(pos, pos + 5) == senc_handle(k, idx),
    ensures
        sdec_handle(b, pos, fds) == Some(((k, fds[idx]), pos + 5)),
{
    let e = senc_handle(k, idx);
    assert(b[pos] == b.subrange(pos, pos + 5)[0]);
    crate::handle::lemma_kind_tag_round_trip(k);
    lemma_subrange_of_subrange(b, pos, e, 1, 5);
    assert(e.subrange(1, 5) =~= u32_le_bytes(idx as u32));
    lemma_sdec_u32_of_enc(b, pos + 1, idx as u32);
}

} // verus!

