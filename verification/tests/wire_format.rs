use quic_video_relay::wire::{
    encode_frame_header, parse_frame_header, FrameHeader, FRAME_HEADER_SIZE, MAGIC_STREAM_FRAME,
};

fn sample_header_bytes() -> Vec<u8> {
    let mut v = vec![0x46, 0x52, 0x54, 0x53];
    v.extend_from_slice(&7u64.to_le_bytes());
    v.extend_from_slice(&1000u64.to_le_bytes());
    v.push(0x01);
    v.extend_from_slice(&3u32.to_le_bytes());
    v
}

#[test]
fn parse_rejects_short_input() {
    let bytes = sample_header_bytes();
    assert_eq!(parse_frame_header(&bytes[..24]), None);
    assert_eq!(parse_frame_header(&[]), None);
}

#[test]
fn parse_reads_documented_layout() {
    let bytes = sample_header_bytes();
    assert_eq!(bytes.len(), FRAME_HEADER_SIZE);
    let h = parse_frame_header(&bytes).unwrap();
    assert_eq!(
        h,
        FrameHeader { magic: MAGIC_STREAM_FRAME, frame_number: 7, timestamp: 1000, frame_type: 1, data_size: 3 }
    );
}

#[test]
fn parse_ignores_trailing_bytes() {
    let mut bytes = sample_header_bytes();
    bytes.extend_from_slice(&[9, 9, 9, 9]);
    let h = parse_frame_header(&bytes).unwrap();
    assert_eq!(h.data_size, 3);
    assert_eq!(h.frame_type, 1);
}

#[test]
fn parse_reads_little_endian_fields() {
    let mut bytes = vec![0u8; 25];
    bytes[0] = 0x01;
    bytes[3] = 0x02;
    bytes[4] = 0xff;
    bytes[11] = 0x80;
    bytes[12] = 0x10;
    bytes[20] = 0xff;
    bytes[24] = 0x01;
    let h = parse_frame_header(&bytes).unwrap();
    assert_eq!(h.magic, 0x0200_0001);
    assert_eq!(h.frame_number, 0x8000_0000_0000_00ff);
    assert_eq!(h.timestamp, 0x10);
    assert_eq!(h.frame_type, 0xff);
    assert_eq!(h.data_size, 0x0100_0000);
}

#[test]
fn encode_then_parse_gives_back_header() {
    let h = FrameHeader { magic: MAGIC_STREAM_FRAME, frame_number: u64::MAX, timestamp: 42, frame_type: 0x41, data_size: 123456 };
    let bytes = encode_frame_header(&h);
    assert_eq!(bytes.len(), 25);
    assert_eq!(&bytes[0..4], &[0x46, 0x52, 0x54, 0x53]);
    assert_eq!(parse_frame_header(&bytes), Some(h));
}

#[test]
fn encode_matches_documented_layout() {
    let h = FrameHeader { magic: MAGIC_STREAM_FRAME, frame_number: 7, timestamp: 1000, frame_type: 1, data_size: 3 };
    assert_eq!(encode_frame_header(&h), sample_header_bytes());
}
