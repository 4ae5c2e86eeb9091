//! Length-prefixed frames: a 4-byte little-endian length, then the payload.

use crate::error::DecodeError;
use vstd::pervasive::runtime_assert;
use vstd::prelude::*;
use vstd::slice::slice_subrange;

verus! {

/// Number of bytes in a frame's length prefix.
pub const PREFIX_LEN: usize = 4;

/// The four little-endian bytes of `n`, for `n` below 2^32.
#[verifier::opaque]
pub open spec fn le_bytes(n: nat) -> Seq<u8> {
    seq![
        (n % 256) as u8,
        ((n / 256) % 256) as u8,
        ((n / 65536) % 256) as u8,
        ((n / 16777216) % 256) as u8,
    ]
}

/// The number whose little-endian bytes are the first four of `b`.
#[verifier::opaque]
pub open spec fn le_value(b: Seq<u8>) -> nat {
    (b[0] as nat) + 256 * (b[1] as nat) + 65536 * (b[2] as nat) + 16777216 * (b[3] as nat)
}

/// A payload behind its length prefix.
pub open spec fn framed(payload: Seq<u8>) -> Seq<u8> {
    le_bytes(payload.len()) + payload
}

/// The frame that starts at `offset` in `buffer`: its payload and the offset
/// just behind it. `None` where the buffer ends before the frame does.
pub open spec fn frame_at(buffer: Seq<u8>, offset: int) -> Option<(Seq<u8>, int)> {
    if 0 <= offset && offset + 4 <= buffer.len() {
        let len = le_value(buffer.subrange(offset, offset + 4));
        let start = offset + 4;
        if start + len <= buffer.len() {
            Some((buffer.subrange(start, start + len), start + len))
        } else {
            None
        }
    } else {
        None
    }
}

/// Little-endian encoding and decoding are inverse on 32-bit values.
pub proof fn lemma_le_round_trip(n: nat)
    requires
        n <= u32::MAX,
    ensures
        le_bytes(n).len() == 4,
        le_value(le_bytes(n)) == n,
{
    reveal(le_bytes);
    reveal(le_value);
}

/// Prepends the payload's length, as 4 little-endian bytes, to the payload.
///
/// A length of 2^32 or more has no prefix. Verified callers prove that the
/// payload is shorter; for any other caller the function stops with a panic
/// rather than write a length that is not the payload's.
pub fn write_frame(payload: &[u8]) -> (out: Vec<u8>)
    requires
        payload@.len() <= u32::MAX,
    ensures
        out@ == framed(payload@),
{
    let len: usize = payload.len();
    runtime_assert(len <= 0xffff_ffff);
    let mut out: Vec<u8> = Vec::with_capacity(PREFIX_LEN);
    out.push((len % 256) as u8);
    out.push(((len / 256) % 256) as u8);
    out.push(((len / 65536) % 256) as u8);
    out.push(((len / 16777216) % 256) as u8);
    assert(out@ =~= le_bytes(payload@.len())) by {
        reveal(le_bytes);
    }
    out.extend_from_slice(payload);
    out
}

/// Reads the frame that starts at `offset`: 4 bytes of length, then that many
/// bytes of payload. Returns the payload and the offset just behind it.
pub fn read_frame<'a>(buffer: &'a [u8], offset: usize) -> (r: Result<
    (&'a [u8], usize),
    DecodeError,
>)
    ensures
        match frame_at(buffer@, offset as int) {
            Some((payload, next)) => r matches Ok((p, n)) && p@ == payload && n == next,
            None => r matches Err(DecodeError::TruncatedInput),
        },
{
    let total: usize = buffer.len();
    if total < PREFIX_LEN || offset > total - PREFIX_LEN {
        return Err(DecodeError::TruncatedInput);
    }
    let b0: u32 = buffer[offset] as u32;
    let b1: u32 = buffer[offset + 1] as u32;
    let b2: u32 = buffer[offset + 2] as u32;
    let b3: u32 = buffer[offset + 3] as u32;
    let declared: u32 = b0 + 256 * b1 + 65536 * b2 + 16777216 * b3;
    assert(declared == le_value(buffer@.subrange(offset as int, offset + 4))) by {
        reveal(le_value);
    }
    let start: usize = offset + PREFIX_LEN;
    if declared as u64 > (total - start) as u64 {
        return Err(DecodeError::TruncatedInput);
    }
    let end: usize = start + declared as usize;
    let payload = slice_subrange(buffer, start, end);
    Ok((payload, end))
}

} // verus!
