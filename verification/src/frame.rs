//! Length-prefixed frames: an 8-byte little-endian payload length followed
//! by the payload itself.

use vstd::bytes::*;
use vstd::prelude::*;
use vstd::slice::*;

verus! {

/// The bytes of the frame that carries `payload`.
pub open spec fn frame(payload: Seq<u8>) -> Seq<u8> {
    spec_u64_to_le_bytes(payload.len() as u64) + payload
}

/// The payload length recorded in a header.
pub open spec fn header_len(header: Seq<u8>) -> u64 {
    spec_u64_from_le_bytes(header)
}

/// The payload of the frame that starts at offset `at` of `bytes`, if the
/// whole frame lies inside `bytes`.
pub open spec fn frame_at(bytes: Seq<u8>, at: int) -> Option<Seq<u8>> {
    if 0 <= at && at + 8 <= bytes.len() {
        let len = header_len(bytes.subrange(at, at + 8));
        if at + 8 + len <= bytes.len() {
            Some(bytes.subrange(at + 8, at + 8 + len))
        } else {
            None
        }
    } else {
        None
    }
}

/// Builds the frame that carries `payload`.
pub fn encode_frame(payload: &[u8]) -> (out: Vec<u8>)
    ensures
        out@ == frame(payload@),
{
    let mut out = u64_to_le_bytes(payload.len() as u64);
    let ghost header = out@;
    let mut i: usize = 0;
    while i < payload.len()
        invariant
            i <= payload.len(),
            header == spec_u64_to_le_bytes(payload@.len() as u64),
            out@ == header + payload@.subrange(0, i as int),
        decreases payload.len() - i,
    {
        out.push(payload[i]);
        i = i + 1;
        assert(payload@.subrange(0, i as int) == payload@.subrange(0, i - 1 as int).push(
            payload@[i - 1],
        ));
    }
    assert(payload@.subrange(0, payload.len() as int) == payload@);
    out
}

/// The payload length that the 8-byte header `header` announces.
pub fn payload_len(header: &[u8]) -> (len: u64)
    requires
        header@.len() == 8,
    ensures
        len == header_len(header@),
{
    u64_from_le_bytes(header)
}

/// Why a frame could not be read.
#[derive(Debug, Clone, Copy, PartialEq, Eq, Structural)]
pub enum FrameError {
    /// The 8-byte header does not lie inside the buffer.
    HeaderOutOfBounds,
    /// The header lies inside the buffer but the payload it announces does not.
    PayloadOutOfBounds,
}

/// The error `read_frame` reports for a frame at `at` of `bytes`, if any.
pub open spec fn frame_error(bytes: Seq<u8>, at: int) -> Option<FrameError> {
    if !(0 <= at && at + 8 <= bytes.len()) {
        Some(FrameError::HeaderOutOfBounds)
    } else if at + 8 + header_len(bytes.subrange(at, at + 8)) > bytes.len() {
        Some(FrameError::PayloadOutOfBounds)
    } else {
        None
    }
}

/// Copies the payload of the frame that starts at offset `at` of `bytes`.
pub fn read_frame(bytes: &[u8], at: u64) -> (r: Result<Vec<u8>, FrameError>)
    ensures
        r is Ok <==> frame_at(bytes@, at as int) is Some,
        r matches Ok(p) ==> frame_at(bytes@, at as int) == Some(p@),
        r matches Err(e) ==> frame_error(bytes@, at as int) == Some(e),
{
    let total = bytes.len() as u64;
    if at > total || total - at < 8 {
        return Err(FrameError::HeaderOutOfBounds);
    }
    let start = at as usize;
    let header = slice_subrange(bytes, start, start + 8);
    let len = payload_len(header);
    if total - (at + 8) < len {
        return Err(FrameError::PayloadOutOfBounds);
    }
    let end = (at + 8 + len) as usize;
    let payload = slice_subrange(bytes, start + 8, end);
    Ok(slice_to_vec(payload))
}

/// A frame is self-delimiting: read at the offset where it was placed, the
/// frame of `payload` yields `payload`, whatever bytes precede or follow it.
pub proof fn lemma_frame_roundtrip(prefix: Seq<u8>, payload: Seq<u8>, suffix: Seq<u8>)
    requires
        payload.len() <= u64::MAX,
    ensures
        frame_at(prefix + frame(payload) + suffix, prefix.len() as int) == Some(payload),
{
    lemma_auto_spec_u64_to_from_le_bytes();
    let bytes = prefix + frame(payload) + suffix;
    let at = prefix.len() as int;
    let header = spec_u64_to_le_bytes(payload.len() as u64);
    assert(bytes.subrange(at, at + 8) =~= header);
    assert(bytes.subrange(at + 8, at + 8 + payload.len()) =~= payload);
}

/// Re-encoding the payload read from a buffer gives back exactly the bytes
/// that the frame occupies there.
pub proof fn lemma_frame_reencode(bytes: Seq<u8>, at: int)
    requires
        frame_at(bytes, at) is Some,
    ensures
        frame(frame_at(bytes, at)->0) == bytes.subrange(at, at + 8 + frame_at(bytes, at)->0.len()),
{
    lemma_auto_spec_u64_to_from_le_bytes();
    let header = bytes.subrange(at, at + 8);
    let p = frame_at(bytes, at)->0;
    assert(p.len() == header_len(header));
    assert(spec_u64_to_le_bytes(spec_u64_from_le_bytes(header)) == header);
    assert(bytes.subrange(at, at + 8 + p.len()) =~= header + p);
}

} // verus!
