//! Length-prefixed framing: each frame is its payload's length as four
//! little-endian bytes, followed by the payload itself.
use vstd::bytes::*;
use vstd::prelude::*;

use crate::bytes_util::append_bytes;

verus! {

/// Size of the length prefix in front of every frame.
pub const HEADER_LEN: usize = 4;

/// The bytes of one frame that carries `payload`.
pub open spec fn frame_of(payload: Seq<u8>) -> Seq<u8> {
    spec_u32_to_le_bytes(payload.len() as u32) + payload
}

/// The payload length announced by the first four bytes of `stream`.
pub open spec fn announced_len(stream: Seq<u8>) -> nat
    recommends
        stream.len() >= 4,
{
    spec_u32_from_le_bytes(stream.subrange(0, 4)) as nat
}

/// Reading one frame from the front of `stream`: its payload and the number
/// of bytes it took, or `None` when the stream ends before the frame does.
pub open spec fn parse_frame(stream: Seq<u8>) -> Option<(Seq<u8>, nat)> {
    if stream.len() < 4 || stream.len() < 4 + announced_len(stream) {
        None
    } else {
        Some((stream.subrange(4, 4 + announced_len(stream) as int), (4 + announced_len(stream)) as nat))
    }
}

/// Why a frame could not be read.
#[derive(Debug, Clone, Copy, PartialEq, Eq, Structural)]
pub enum FrameError {
    /// The stream ended inside the length prefix or inside the payload.
    ShortRead,
}

/// The payload length that a four-byte header announces.
pub fn frame_length(header: &[u8]) -> (r: u32)
    requires
        header@.len() == 4,
    ensures
        r as nat == announced_len(header@),
{
    proof {
        assert(header@.subrange(0, 4) == header@);
    }
    u32_from_le_bytes(header)
}

/// Appends to `stream` the frame that carries `payload`.
pub fn write_frame(stream: &mut Vec<u8>, payload: &[u8])
    requires
        payload@.len() <= u32::MAX,
    ensures
        final(stream)@ == old(stream)@ + frame_of(payload@),
{
    let ghost start = stream@;
    let header = u32_to_le_bytes(payload.len() as u32);
    append_bytes(stream, header.as_slice());
    append_bytes(stream, payload);
    proof {
        assert(start + header@ + payload@ == start + (header@ + payload@));
    }
}

/// Reads one frame from the front of `stream`: its payload and the number of
/// bytes that the frame took.
pub fn read_frame(stream: &[u8]) -> (r: Result<(Vec<u8>, usize), FrameError>)
    ensures
        match r {
            Ok((payload, used)) => parse_frame(stream@) == Some((payload@, used as nat)),
            Err(e) => parse_frame(stream@) is None && e == FrameError::ShortRead,
        },
{
    if stream.len() < HEADER_LEN {
        return Err(FrameError::ShortRead);
    }
    let header = vstd::slice::slice_subrange(stream, 0, 4);
    let len = frame_length(header);
    assert(header@.subrange(0, 4) == stream@.subrange(0, 4));
    if stream.len() - HEADER_LEN < len as usize {
        return Err(FrameError::ShortRead);
    }
    let end = HEADER_LEN + len as usize;
    let payload = vstd::slice::slice_to_vec(vstd::slice::slice_subrange(stream, HEADER_LEN, end));
    Ok((payload, end))
}

/// Reading back a written frame gives the payload unchanged, whatever follows
/// it in the stream, and consumes exactly the frame.
pub proof fn lemma_frame_round_trip(payload: Seq<u8>, rest: Seq<u8>)
    requires
        payload.len() <= u32::MAX,
    ensures
        parse_frame(frame_of(payload) + rest) == Some((payload, (4 + payload.len()) as nat)),
{
    lemma_auto_spec_u32_to_from_le_bytes();
    let s = frame_of(payload) + rest;
    let h = spec_u32_to_le_bytes(payload.len() as u32);
    assert(s.subrange(0, 4) == h);
    assert(announced_len(s) == payload.len());
    assert(s.subrange(4, 4 + payload.len() as int) == payload);
}

} // verus!
