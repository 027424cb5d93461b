use bytes::BytesMut;
use quic_video_relay::scanner::{drain_frames, ingest_chunk, next_frame};
use quic_video_relay::wire::{encode_frame_header, FrameHeader, MAGIC_STREAM_FRAME};

fn frame_bytes(frame_number: u64, frame_type: u8, data: &[u8]) -> Vec<u8> {
    let h = FrameHeader {
        magic: MAGIC_STREAM_FRAME,
        frame_number,
        timestamp: frame_number * 10,
        frame_type,
        data_size: data.len() as u32,
    };
    let mut v = encode_frame_header(&h);
    v.extend_from_slice(data);
    v
}

#[test]
fn complete_frame_is_handed_out() {
    let mut buf = BytesMut::from(&frame_bytes(1, 1, b"abc")[..]);
    let (h, d) = next_frame(&mut buf).unwrap();
    assert_eq!(h.frame_number, 1);
    assert_eq!(h.timestamp, 10);
    assert_eq!(h.frame_type, 1);
    assert_eq!(h.data_size, 3);
    assert_eq!(&d[..], b"abc");
    assert!(buf.is_empty());
}

#[test]
fn incomplete_payload_waits_for_more_bytes() {
    let bytes = frame_bytes(2, 0, b"hello");
    let mut buf = BytesMut::from(&bytes[..bytes.len() - 1]);
    assert!(next_frame(&mut buf).is_none());
    assert_eq!(&buf[..], &bytes[..bytes.len() - 1]);
    buf.extend_from_slice(b"o");
    let (h, d) = next_frame(&mut buf).unwrap();
    assert_eq!(h.frame_number, 2);
    assert_eq!(&d[..], b"hello");
    assert!(buf.is_empty());
}

#[test]
fn short_buffer_is_left_alone() {
    let bytes = frame_bytes(3, 1, b"");
    let mut buf = BytesMut::from(&bytes[..10]);
    assert!(next_frame(&mut buf).is_none());
    assert_eq!(&buf[..], &bytes[..10]);
}

#[test]
fn garbage_before_frame_is_skipped() {
    let mut bytes = vec![0xAAu8, 0xBB, 0xCC];
    bytes.extend_from_slice(&frame_bytes(4, 0x41, b"xyz"));
    bytes.extend_from_slice(b"tail");
    let mut buf = BytesMut::from(&bytes[..]);
    let (h, d) = next_frame(&mut buf).unwrap();
    assert_eq!(h.frame_number, 4);
    assert_eq!(&d[..], b"xyz");
    assert_eq!(&buf[..], b"tail");
}

#[test]
fn without_magic_only_last_24_bytes_stay() {
    let bytes: Vec<u8> = (0u8..40).collect();
    let mut buf = BytesMut::from(&bytes[..]);
    assert!(next_frame(&mut buf).is_none());
    assert_eq!(&buf[..], &bytes[16..]);
}

#[test]
fn incomplete_frame_after_garbage_keeps_frame_start() {
    let mut bytes = vec![1u8, 2];
    let frame = frame_bytes(5, 1, b"payload");
    bytes.extend_from_slice(&frame[..frame.len() - 2]);
    let mut buf = BytesMut::from(&bytes[..]);
    assert!(next_frame(&mut buf).is_none());
    assert_eq!(&buf[..], &frame[..frame.len() - 2]);
}

#[test]
fn consecutive_frames_come_out_in_order() {
    let mut bytes = frame_bytes(10, 1, b"k");
    bytes.extend_from_slice(&frame_bytes(11, 0, b"dd"));
    bytes.extend_from_slice(&frame_bytes(12, 0, b""));
    let mut buf = BytesMut::from(&bytes[..]);
    let mut numbers = Vec::new();
    while let Some((h, _)) = next_frame(&mut buf) {
        numbers.push(h.frame_number);
    }
    assert_eq!(numbers, vec![10, 11, 12]);
    assert!(buf.is_empty());
}

fn stream_bytes() -> Vec<u8> {
    let mut bytes = vec![0x11u8, 0x22];
    bytes.extend_from_slice(&frame_bytes(20, 1, b"first"));
    bytes.extend_from_slice(&frame_bytes(21, 0, b""));
    bytes.extend_from_slice(&[0x46, 0x52]);
    bytes.extend_from_slice(&frame_bytes(22, 0, &[7u8; 40]));
    bytes.extend_from_slice(&frame_bytes(23, 1, b"tail-incomplete")[..30]);
    bytes
}

fn ingest_in_chunks(bytes: &[u8], chunk: usize) -> (Vec<(u64, Vec<u8>)>, Vec<u8>) {
    let mut buf = BytesMut::new();
    let mut out = Vec::new();
    for c in bytes.chunks(chunk) {
        for (h, d) in ingest_chunk(&mut buf, c) {
            out.push((h.frame_number, d.to_vec()));
        }
    }
    (out, buf.to_vec())
}

#[test]
fn ingest_hands_out_frames_regardless_of_read_boundaries() {
    let bytes = stream_bytes();
    let whole = ingest_in_chunks(&bytes, bytes.len());
    assert_eq!(
        whole.0,
        vec![(20, b"first".to_vec()), (21, vec![]), (22, vec![7u8; 40])]
    );
    for chunk in [1usize, 2, 3, 7, 24, 25, 26, 100] {
        assert_eq!(ingest_in_chunks(&bytes, chunk), whole);
    }
}

#[test]
fn drain_takes_every_complete_frame() {
    let bytes = stream_bytes();
    let mut buf = BytesMut::from(&bytes[..]);
    let frames = drain_frames(&mut buf);
    let numbers: Vec<u64> = frames.iter().map(|(h, _)| h.frame_number).collect();
    assert_eq!(numbers, vec![20, 21, 22]);
    let tail = frame_bytes(23, 1, b"tail-incomplete");
    assert_eq!(&buf[..], &tail[..30]);
}
