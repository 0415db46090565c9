//! Frames: the length-prefixed units in which messages travel over a stream.
//!
//! A frame is a signed 32-bit big-endian length followed by that many bytes
//! of payload.  The length counts the payload only.
use crate::wire::{
    append_bytes, bytes_bound, lemma_signed_bytes_of_value, lemma_signed_value_of_bytes,
    signed_bytes, signed_decode, signed_encode, signed_value,
};
use vstd::array::array_as_slice;
use vstd::prelude::*;

verus! {

/// Number of bytes of the length prefix.
pub const FRAME_PREFIX_LEN: usize = 4;

/// Largest payload that a frame can carry.
pub const MAX_PAYLOAD_LEN: usize = 0x7fff_ffff;

/// The frame around a payload.
pub open spec fn frame_bytes(payload: Seq<u8>) -> Seq<u8> {
    signed_bytes(payload.len() as int, 4) + payload
}

/// The payload length that a prefix announces; a negative number announces
/// none.
pub open spec fn announced_len(prefix: Seq<u8>) -> Option<nat> {
    if signed_value(prefix) >= 0 {
        Some(signed_value(prefix) as nat)
    } else {
        None
    }
}

/// The prefix of a frame announces the length of its payload.
pub proof fn lemma_frame_prefix_round_trip(payload: Seq<u8>)
    requires
        payload.len() <= MAX_PAYLOAD_LEN,
    ensures
        frame_bytes(payload).len() == FRAME_PREFIX_LEN + payload.len(),
        announced_len(frame_bytes(payload).take(4)) == Some(payload.len()),
        frame_bytes(payload).skip(4) == payload,
{
    reveal_with_fuel(bytes_bound, 5);
    lemma_signed_value_of_bytes(payload.len() as int, 4);
    assert(frame_bytes(payload).take(4) =~= signed_bytes(payload.len() as int, 4));
    assert(frame_bytes(payload).skip(4) =~= payload);
}

/// The length prefix for a payload of `payload_len` bytes; `None` if a signed
/// 32-bit number cannot hold the length.
pub fn frame_prefix(payload_len: usize) -> (r: Option<Vec<u8>>)
    ensures
        match r {
            Some(prefix) => payload_len <= MAX_PAYLOAD_LEN && prefix@ == signed_bytes(
                payload_len as int,
                4,
            ),
            None => payload_len > MAX_PAYLOAD_LEN,
        },
{
    if payload_len > MAX_PAYLOAD_LEN {
        return None;
    }
    proof {
        reveal_with_fuel(bytes_bound, 5);
    }
    Some(signed_encode(payload_len as i64, 4))
}

/// Puts a payload in a frame; `None` if the payload is too long for one.
pub fn frame(payload: &[u8]) -> (r: Option<Vec<u8>>)
    ensures
        match r {
            Some(framed) => payload@.len() <= MAX_PAYLOAD_LEN && framed@ == frame_bytes(payload@),
            None => payload@.len() > MAX_PAYLOAD_LEN,
        },
{
    match frame_prefix(payload.len()) {
        Some(mut framed) => {
            append_bytes(&mut framed, payload);
            Some(framed)
        },
        None => None,
    }
}

/// The number of payload bytes that follow a length prefix; `None` if the
/// prefix holds a negative number.
pub fn payload_len(prefix: [u8; 4]) -> (r: Option<usize>)
    ensures
        match r {
            Some(len) => announced_len(prefix@) == Some(len as nat),
            None => announced_len(prefix@) is None,
        },
{
    let bytes = array_as_slice(&prefix);
    proof {
        reveal_with_fuel(bytes_bound, 5);
        lemma_signed_bytes_of_value(bytes@);
    }
    let len = signed_decode(bytes);
    if len < 0 {
        None
    } else {
        Some(len as usize)
    }
}

} // verus!
