use bytes::BytesMut;
use quic_video_relay::scanner::next_frame;
use quic_video_relay::webtransport::{prepare_frame_data, VideoFrame, WebTransportClient};
use quic_video_relay::wire::{AVCC_CONFIG, DELTA_FRAME, KEYFRAME};

#[test]
fn priority_follows_type_and_size() {
    assert_eq!(VideoFrame::new(1, 0, vec![0; 20000], KEYFRAME).priority, 0);
    assert_eq!(VideoFrame::new(1, 0, vec![0; 5], AVCC_CONFIG).priority, 0);
    assert_eq!(VideoFrame::new(1, 0, vec![0; 10000], DELTA_FRAME).priority, 1);
    assert_eq!(VideoFrame::new(1, 0, vec![0; 10001], DELTA_FRAME).priority, 2);
    assert_eq!(VideoFrame::new(1, 0, vec![0; 20000], 0x00).priority, 1);
}

#[test]
fn new_frame_keeps_its_fields() {
    let f = VideoFrame::new(9, 77, vec![1, 2, 3], DELTA_FRAME);
    assert_eq!(f.frame_number, 9);
    assert_eq!(f.timestamp, 77);
    assert_eq!(f.data, vec![1, 2, 3]);
    assert_eq!(f.frame_type, DELTA_FRAME);
}

fn client_with_pending(n: usize) -> WebTransportClient {
    let mut c = WebTransportClient::new("wt_test".to_string());
    for _ in 0..n {
        c.frame_queued();
    }
    c
}

#[test]
fn acceptance_follows_queue_state() {
    let key = VideoFrame::new(1, 0, vec![0; 10], KEYFRAME);
    let small = VideoFrame::new(2, 0, vec![0; 10], DELTA_FRAME);
    let large = VideoFrame::new(3, 0, vec![0; 20000], DELTA_FRAME);
    for pending in [0usize, 7] {
        let c = client_with_pending(pending);
        assert!(c.should_accept_frame(&small));
        assert!(c.should_accept_frame(&large));
    }
    let c8 = client_with_pending(8);
    assert!(c8.should_accept_frame(&small));
    assert!(!c8.should_accept_frame(&large));
    let c9 = client_with_pending(9);
    assert!(!c9.should_accept_frame(&small));
    assert!(!c9.should_accept_frame(&large));
    let c10 = client_with_pending(10);
    assert!(!c10.should_accept_frame(&small));
    assert!(c10.should_accept_frame(&key));
    let c30 = client_with_pending(30);
    assert!(c30.should_accept_frame(&VideoFrame::new(4, 0, vec![], AVCC_CONFIG)));
}

#[test]
fn priority_zero_non_critical_frame_accepted_when_congested() {
    let mut f = VideoFrame::new(1, 0, vec![0; 10], 0x00);
    f.priority = 0;
    assert!(client_with_pending(9).should_accept_frame(&f));
    assert!(!client_with_pending(10).should_accept_frame(&f));
}

#[test]
fn queue_counters_saturate() {
    let mut c = WebTransportClient::new("a".to_string());
    c.frame_sent();
    assert_eq!(c.pending_frames, 0);
    c.pending_frames = usize::MAX;
    c.frame_queued();
    assert_eq!(c.pending_frames, usize::MAX);
    c.frame_dropped();
    assert_eq!(c.dropped_frames, 1);
    assert_eq!(c.pending_frames, usize::MAX);
}

#[test]
fn admit_then_finish_tracks_queue_and_drops() {
    let mut c = client_with_pending(8);
    let large = VideoFrame::new(3, 0, vec![0; 20000], DELTA_FRAME);
    assert!(!c.admit_frame(&large));
    assert_eq!(c.pending_frames, 8);
    assert_eq!(c.dropped_frames, 1);
    let small = VideoFrame::new(4, 0, vec![0; 10], DELTA_FRAME);
    assert!(c.admit_frame(&small));
    assert_eq!(c.pending_frames, 9);
    c.finish_send(true);
    assert_eq!(c.pending_frames, 8);
    assert_eq!(c.dropped_frames, 1);
    assert!(c.admit_frame(&small));
    c.finish_send(false);
    assert_eq!(c.pending_frames, 8);
    assert_eq!(c.dropped_frames, 2);
}

#[test]
fn prepared_frame_has_header_then_payload() {
    let f = VideoFrame::new(0x0102, 0x0304, vec![0xAA, 0xBB], KEYFRAME);
    let bytes = prepare_frame_data(&f);
    let mut expected = vec![0x46, 0x52, 0x54, 0x53];
    expected.extend_from_slice(&0x0102u64.to_le_bytes());
    expected.extend_from_slice(&0x0304u64.to_le_bytes());
    expected.push(KEYFRAME);
    expected.extend_from_slice(&2u32.to_le_bytes());
    expected.extend_from_slice(&[0xAA, 0xBB]);
    assert_eq!(bytes, expected);
}

#[test]
fn prepared_frame_scans_back() {
    let f = VideoFrame::new(55, 66, b"frame payload".to_vec(), DELTA_FRAME);
    let mut bytes = prepare_frame_data(&f);
    bytes.extend_from_slice(b"next");
    let mut buf = BytesMut::from(&bytes[..]);
    let (h, d) = next_frame(&mut buf).unwrap();
    assert_eq!(h.frame_number, 55);
    assert_eq!(h.timestamp, 66);
    assert_eq!(h.frame_type, DELTA_FRAME);
    assert_eq!(h.data_size as usize, f.data.len());
    assert_eq!(&d[..], &f.data[..]);
    assert_eq!(&buf[..], b"next");
}
