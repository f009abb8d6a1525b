//! The descriptor-carrying channel's wire framing. One envelope is a fixed
//! 12-byte header — the payload length and the count of descriptors that ride
//! as ancillary data on the same transmission — followed by the payload
//! bytes. The count equals the number of placeholders the serialization layer
//! recorded for this payload, so a receiver knows exactly how many
//! descriptors to collect before it decodes.
use vstd::prelude::*;
use crate::codec::{
    u64_le_bytes, u32_le_bytes, sdec_u64, sdec_u32, push_u64_le, push_u32_le, dec_u64, dec_u32,
    lemma_sdec_u64_of_enc, lemma_sdec_u32_of_enc, lemma_subrange_of_subrange,
};

verus! {

/// Number of bytes in the fixed wire header: an 8-byte payload length
/// followed by a 4-byte descriptor count.
pub const HEADER_LEN: usize = 12;

/// The header bytes of an envelope.
pub open spec fn senc_header(payload_len: u64, fd_count: u32) -> Seq<u8> {
    u64_le_bytes(payload_len) + u32_le_bytes(fd_count)
}

/// A whole envelope: the header, then the payload.
pub open spec fn senc_envelope(payload: Seq<u8>, fd_count: u32) -> Seq<u8> {
    senc_header(payload.len() as u64, fd_count) + payload
}

/// What a buffer holding exactly one envelope contains: its payload and its
/// descriptor count, or nothing if the buffer is not one whole envelope.
pub open spec fn sdec_envelope(b: Seq<u8>) -> Option<(Seq<u8>, u32)> {
    match sdec_u64(b, 0) {
        Some((n, p)) => match sdec_u32(b, p) {
            Some((c, q)) => if b.len() - q == n {
                Some((b.subrange(q, b.len() as int), c))
            } else {
                None
            },
            None => None,
        },
        None => None,
    }
}

/// Frames a payload and its descriptor count as one envelope.
pub fn encode_envelope(payload: &Vec<u8>, fd_count: u32) -> (out: Vec<u8>)
    ensures
        out@ == senc_envelope(payload@, fd_count),
{
    let mut out: Vec<u8> = Vec::new();
    push_u64_le(&mut out, payload.len() as u64);
    push_u32_le(&mut out, fd_count);
    crate::codec::push_bytes(&mut out, payload.as_slice());
    proof {
        assert(out@ =~= senc_envelope(payload@, fd_count));
    }
    out
}

/// Reads a whole buffer as one envelope: its payload bytes and the count of
/// descriptors the receiver must collect before decoding.
pub fn decode_envelope(b: &Vec<u8>) -> (r: Option<(Vec<u8>, u32)>)
    ensures
        match r {
            Some(pc) => sdec_envelope(b@) == Some((pc.0@, pc.1)),
            None => sdec_envelope(b@) is None,
        },
{
    match dec_u64(b, 0) {
        Some((n, p)) => match dec_u32(b, p) {
            Some((c, q)) => {
                if (b.len() - q) as u64 == n {
                    let payload = vstd::slice::slice_to_vec(
                        vstd::slice::slice_subrange(b.as_slice(), q, b.len()),
                    );
                    Some((payload, c))
                } else {
                    None
                }
            },
            None => None,
        },
        None => None,
    }
}

/// Round trip: a framed envelope reads back as exactly its payload and its
/// descriptor count.
pub proof fn lemma_envelope_round_trip(payload: Seq<u8>, fd_count: u32)
    requires
        payload.len() < 0x1_0000_0000_0000_0000,
    ensures
        sdec_envelope(senc_envelope(payload, fd_count)) == Some((payload, fd_count)),
{
    let b = senc_envelope(payload, fd_count);
    let n = payload.len() as u64;
    assert(b.subrange(0, 8) =~= u64_le_bytes(n));
    lemma_sdec_u64_of_enc(b, 0, n);
    assert(b.subrange(8, 12) =~= u32_le_bytes(fd_count));
    lemma_sdec_u32_of_enc(b, 8, fd_count);
    assert(b.subrange(12, b.len() as int) =~= payload);
}

/// Round trip through the whole channel: a well-formed task, framed as one
/// envelope with its side list's descriptor count, is read back as exactly
/// its payload and count, and that payload decodes against the side list to
/// the task itself — its reply endpoint rebound to the descriptor it sent.
pub proof fn lemma_channel_task_round_trip(t: crate::message::TaskV)
    requires
        crate::message::task_wf(t),
        crate::message::spec_enc_task(t).len() < 0x1_0000_0000_0000_0000,
    ensures
        ({
            let payload = crate::message::spec_enc_task(t);
            let fds = crate::message::task_fds(t);
            &&& sdec_envelope(senc_envelope(payload, fds.len() as u32)) == Some(
                (payload, fds.len() as u32),
            )
            &&& crate::message::sdec_task(payload, 0, fds) == Ok::<_, crate::codec::DecodeError>(
                (t, payload.len() as int),
            )
        }),
{
    let payload = crate::message::spec_enc_task(t);
    crate::message::lemma_task_round_trip(t);
    lemma_envelope_round_trip(payload, crate::message::task_fds(t).len() as u32);
}

/// Round trip through the whole channel for a message with no handles: a
/// reply travels as a plain payload with an empty side list — no ancillary
/// transmission at all — and is read back as exactly itself.
pub proof fn lemma_channel_response_round_trip(r: crate::message::ResponseV)
    requires
        crate::message::response_wf(r),
        crate::message::spec_enc_response(r).len() < 0x1_0000_0000_0000_0000,
    ensures
        ({
            let payload = crate::message::spec_enc_response(r);
            &&& sdec_envelope(senc_envelope(payload, 0)) == Some((payload, 0u32))
            &&& crate::message::sdec_response(payload, 0) == Ok::<_, crate::codec::DecodeError>(
                (r, payload.len() as int),
            )
        }),
{
    let payload = crate::message::spec_enc_response(r);
    crate::message::lemma_response_round_trip(r);
    lemma_envelope_round_trip(payload, 0);
}

} // verus!
