//! Length-framed transport encoding: each message is a 4-byte big-endian
//! length prefix followed by that many bytes of payload, bounded by a
//! configured maximum message size.

use vstd::prelude::*;

verus! {

/// The big-endian bytes of a 32-bit length.
pub open spec fn spec_len_prefix(n: u32) -> Seq<u8> {
    seq![(n >> 24) as u8, (n >> 16) as u8, (n >> 8) as u8, n as u8]
}

/// Whether a payload of `len` bytes is accepted under the size bound: a
/// payload of exactly `max` bytes passes, one byte more does not.
pub open spec fn frame_size_ok(len: int, max: int) -> bool {
    len <= max && len <= 0xffff_ffff
}

/// Frame a payload: the 4-byte big-endian length prefix followed by the
/// payload, or `None` when the payload exceeds the size bound.
pub fn encode_frame(payload: &Vec<u8>, max_message_size: usize) -> (r: Option<Vec<u8>>)
    ensures
        r is Some <==> frame_size_ok(payload@.len() as int, max_message_size as int),
        r matches Some(framed) ==> framed@ == spec_len_prefix(payload@.len() as u32) + payload@,
{
    if payload.len() > max_message_size {
        return None;
    }
    if payload.len() > 0xffff_ffff {
        return None;
    }
    let n: u32 = payload.len() as u32;
    let mut framed: Vec<u8> = Vec::new();
    framed.push((n >> 24) as u8);
    framed.push((n >> 16) as u8);
    framed.push((n >> 8) as u8);
    framed.push(n as u8);
    let mut i: usize = 0;
    while i < payload.len()
        invariant
            0 <= i <= payload@.len(),
            payload@.len() <= 0xffff_ffff,
            n == payload@.len() as u32,
            framed@.len() == 4 + i,
            framed@.subrange(0, 4) =~= spec_len_prefix(n),
            forall|j: int| 0 <= j < i ==> framed@[4 + j] == payload@[j],
        decreases payload@.len() - i,
    {
        framed.push(payload[i]);
        i += 1;
    }
    proof {
        assert(framed@ =~= spec_len_prefix(payload@.len() as u32) + payload@);
    }
    Some(framed)
}

/// The length encoded by a 4-byte big-endian prefix.
pub open spec fn spec_decoded_len(b0: u8, b1: u8, b2: u8, b3: u8) -> int {
    (b0 as int) * 0x1000000 + (b1 as int) * 0x10000 + (b2 as int) * 0x100 + (b3 as int)
}

/// Decode a 4-byte big-endian length prefix and check it against the size
/// bound: a length of exactly `max` is accepted, one more is rejected.
pub fn decode_frame_len(b0: u8, b1: u8, b2: u8, b3: u8, max_message_size: usize) -> (r: Option<
    usize,
>)
    ensures
        r is Some <==> spec_decoded_len(b0, b1, b2, b3) <= max_message_size as int,
        r matches Some(len) ==> len as int == spec_decoded_len(b0, b1, b2, b3),
{
    let len: u64 = (b0 as u64) * 0x1000000 + (b1 as u64) * 0x10000 + (b2 as u64) * 0x100 + (
    b3 as u64);
    if len <= max_message_size as u64 {
        Some(len as usize)
    } else {
        None
    }
}

/// Decoding the prefix of a framed payload gives the payload length back.
pub proof fn lemma_frame_roundtrip(n: u32)
    ensures
        spec_decoded_len(
            spec_len_prefix(n)[0],
            spec_len_prefix(n)[1],
            spec_len_prefix(n)[2],
            spec_len_prefix(n)[3],
        ) == n as int,
{
    let b0 = (n >> 24) as u8;
    let b1 = (n >> 16) as u8;
    let b2 = (n >> 8) as u8;
    let b3 = n as u8;
    assert((b0 as u64) * 0x1000000 + (b1 as u64) * 0x10000 + (b2 as u64) * 0x100 + (b3 as u64)
        == n as u64) by (bit_vector)
        requires
            b0 == (n >> 24) as u8,
            b1 == (n >> 16) as u8,
            b2 == (n >> 8) as u8,
            b3 == n as u8,
    ;
}

} // verus!
