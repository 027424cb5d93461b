//! The 25-byte frame header that precedes every video payload on the wire.
//!
//! Layout (all integers little-endian):
//! magic (4) | frame number (8) | timestamp (8) | frame type (1) | data size (4)

use vstd::prelude::*;
use crate::le::{
    le_u32, le_u64, u32_le, u64_le, read_u32_le, read_u64_le, push_u32_le, push_u64_le,
    lemma_u32_le_roundtrip, lemma_u64_le_roundtrip, lemma_le_u32_roundtrip, lemma_le_u64_roundtrip,
};

verus! {

/// Magic number that opens every frame header.
pub const MAGIC_STREAM_FRAME: u32 = 0x53545246;

/// Size in bytes of a frame header.
pub const FRAME_HEADER_SIZE: usize = 25;

/// Frame type of a keyframe.
pub const KEYFRAME: u8 = 0x01;

/// Frame type of a delta frame as the WebTransport relay names it.
pub const DELTA_FRAME: u8 = 0x41;

/// Frame type of the decoder configuration (avcC).
pub const AVCC_CONFIG: u8 = 0xFF;

/// A decoded frame header.
#[derive(Clone, Copy, Debug, PartialEq, Eq, Structural)]
pub struct FrameHeader {
    pub magic: u32,
    pub frame_number: u64,
    pub timestamp: u64,
    pub frame_type: u8,
    pub data_size: u32,
}

/// The header that the first 25 bytes of `s` encode.
pub open spec fn spec_header(s: Seq<u8>) -> FrameHeader {
    FrameHeader {
        magic: le_u32(s.subrange(0, 4)),
        frame_number: le_u64(s.subrange(4, 12)),
        timestamp: le_u64(s.subrange(12, 20)),
        frame_type: s[20],
        data_size: le_u32(s.subrange(21, 25)),
    }
}

/// Decodes the header at the start of `data`; `None` when fewer than 25
/// bytes are given. Bytes past the 25th are ignored.
pub fn parse_frame_header(data: &[u8]) -> (res: Option<FrameHeader>)
    ensures
        data@.len() < FRAME_HEADER_SIZE ==> res is None,
        data@.len() >= FRAME_HEADER_SIZE ==> res == Some(spec_header(data@)),
{
    if data.len() < FRAME_HEADER_SIZE {
        return None;
    }
    let magic = read_u32_le(data, 0);
    let frame_number = read_u64_le(data, 4);
    let timestamp = read_u64_le(data, 12);
    let frame_type = data[20];
    let data_size = read_u32_le(data, 21);
    Some(FrameHeader { magic, frame_number, timestamp, frame_type, data_size })
}

/// The 25 bytes that encode `h`.
pub open spec fn spec_encode_header(h: FrameHeader) -> Seq<u8> {
    u32_le(h.magic) + u64_le(h.frame_number) + u64_le(h.timestamp) + seq![h.frame_type] + u32_le(
        h.data_size,
    )
}

/// Decoding gives back what encoding wrote, whatever follows the header.
pub proof fn lemma_header_roundtrip(h: FrameHeader, rest: Seq<u8>)
    ensures
        spec_encode_header(h).len() == FRAME_HEADER_SIZE,
        spec_header(spec_encode_header(h) + rest) == h,
{
    lemma_u32_le_roundtrip(h.magic);
    lemma_u64_le_roundtrip(h.frame_number);
    lemma_u64_le_roundtrip(h.timestamp);
    lemma_u32_le_roundtrip(h.data_size);
    let a = u32_le(h.magic);
    let b = u64_le(h.frame_number);
    let c = u64_le(h.timestamp);
    let d = u32_le(h.data_size);
    let s = spec_encode_header(h) + rest;
    assert(s.subrange(0, 4) =~= a);
    assert(s.subrange(4, 12) =~= b);
    assert(s.subrange(12, 20) =~= c);
    assert(s[20] == h.frame_type);
    assert(s.subrange(21, 25) =~= d);
}

/// Encoding a decoded header gives back the 25 bytes it was decoded from.
pub proof fn lemma_parsed_header_reencodes(s: Seq<u8>)
    requires
        s.len() >= FRAME_HEADER_SIZE,
    ensures
        spec_encode_header(spec_header(s)) == s.take(FRAME_HEADER_SIZE as int),
{
    let h = spec_header(s);
    lemma_le_u32_roundtrip(s.subrange(0, 4));
    lemma_le_u64_roundtrip(s.subrange(4, 12));
    lemma_le_u64_roundtrip(s.subrange(12, 20));
    lemma_le_u32_roundtrip(s.subrange(21, 25));
    assert(spec_encode_header(h) =~= s.take(FRAME_HEADER_SIZE as int));
}

/// Encodes `h` into its 25 wire bytes.
pub fn encode_frame_header(h: &FrameHeader) -> (out: Vec<u8>)
    ensures
        out@ == spec_encode_header(*h),
{
    let mut out: Vec<u8> = Vec::new();
    push_u32_le(&mut out, h.magic);
    push_u64_le(&mut out, h.frame_number);
    push_u64_le(&mut out, h.timestamp);
    out.push(h.frame_type);
    push_u32_le(&mut out, h.data_size);
    assert(out@ =~= spec_encode_header(*h));
    out
}

} // verus!
