use bytes::Bytes;
use quic_video_relay::relay::{
    evaluate_global_backpressure, process_video_frame_smart, total_dropped_frames,
    try_process_video_frame, CounterOverflow, ServerStats, SmartClient, DELTA_PRIORITY,
    KEYFRAME_PRIORITY,
};
use quic_video_relay::wire::{FrameHeader, MAGIC_STREAM_FRAME};

fn header(frame_number: u64, frame_type: u8, size: u32) -> FrameHeader {
    FrameHeader { magic: MAGIC_STREAM_FRAME, frame_number, timestamp: 500 + frame_number, frame_type, data_size: size }
}

#[test]
fn default_stats_are_zero() {
    let s = ServerStats::default();
    assert_eq!(s.total_frames, 0);
    assert_eq!(s.keyframes, 0);
    assert_eq!(s.delta_frames, 0);
    assert_eq!(s.total_bytes, 0);
    assert_eq!(s.connected_clients, 0);
    assert!(s.avcc_config.is_none());
    assert_eq!(s.dropped_frames, 0);
}

#[test]
fn config_frame_is_stored_and_always_broadcast() {
    let mut s = ServerStats::default();
    let out = process_video_frame_smart(&mut s, &header(99, 0xFF, 4), Bytes::from_static(b"avcC"), 0);
    let f = out.expect("config frames are always broadcast");
    assert_eq!(f.frame_number, 0);
    assert_eq!(f.timestamp, 599);
    assert_eq!(f.frame_type, 0xFF);
    assert_eq!(f.priority, KEYFRAME_PRIORITY);
    assert_eq!(f.size, 4);
    assert_eq!(&f.data[..], b"avcC");
    assert_eq!(s.avcc_config.as_deref(), Some(&b"avcC"[..]));
    assert_eq!(s.total_frames, 0);
    assert_eq!(s.total_bytes, 0);
}

#[test]
fn keyframe_and_delta_are_counted() {
    let mut s = ServerStats::default();
    let k = process_video_frame_smart(&mut s, &header(1, 0x01, 3), Bytes::from_static(b"key"), 2).unwrap();
    let d = process_video_frame_smart(&mut s, &header(2, 0x00, 5), Bytes::from_static(b"delta"), 2).unwrap();
    assert_eq!(k.frame_number, 1);
    assert_eq!(k.priority, KEYFRAME_PRIORITY);
    assert_eq!(k.size, 3);
    assert_eq!(d.frame_number, 2);
    assert_eq!(d.timestamp, 502);
    assert_eq!(d.priority, DELTA_PRIORITY);
    assert_eq!(&d.data[..], b"delta");
    assert_eq!(s.total_frames, 2);
    assert_eq!(s.keyframes, 1);
    assert_eq!(s.delta_frames, 1);
    assert_eq!(s.total_bytes, 8);
    assert_eq!(s.total_frames, s.keyframes + s.delta_frames);
}

#[test]
fn delta_frames_need_a_client_keyframes_do_not() {
    let mut s = ServerStats::default();
    assert!(process_video_frame_smart(&mut s, &header(3, 0x00, 1), Bytes::from_static(b"d"), 0).is_none());
    let k = process_video_frame_smart(&mut s, &header(4, 0x01, 1), Bytes::from_static(b"k"), 0);
    assert_eq!(k.map(|f| f.frame_number), Some(4));
    assert!(process_video_frame_smart(&mut s, &header(5, 0x41, 1), Bytes::from_static(b"d"), 1).is_some());
    assert_eq!(s.total_frames, 3);
    assert_eq!(s.delta_frames, 2);
    assert_eq!(s.keyframes, 1);
}

#[test]
fn broadcast_decision() {
    let frame = |priority: u8| quic_video_relay::relay::VideoFrame {
        frame_number: 1,
        timestamp: 0,
        frame_type: 0,
        data: Bytes::new(),
        priority,
        size: 0,
    };
    assert!(!evaluate_global_backpressure(&frame(DELTA_PRIORITY), 0));
    assert!(evaluate_global_backpressure(&frame(DELTA_PRIORITY), 1));
    assert!(evaluate_global_backpressure(&frame(KEYFRAME_PRIORITY), 0));
    assert!(evaluate_global_backpressure(&frame(DELTA_PRIORITY), usize::MAX));
}

#[test]
fn checked_processing_refuses_overflow() {
    let mut s = ServerStats::default();
    s.delta_frames = u64::MAX;
    s.total_frames = 5;
    assert_eq!(
        try_process_video_frame(&mut s, &header(1, 0x00, 1), Bytes::from_static(b"x"), 1).err(),
        Some(CounterOverflow)
    );
    assert_eq!(s.total_frames, 5);
    // A keyframe only changes the keyframe counter, so it still goes through.
    let k = try_process_video_frame(&mut s, &header(2, 0x01, 1), Bytes::from_static(b"x"), 0).unwrap();
    assert!(k.is_some());
    assert_eq!(s.total_frames, 6);
    s.total_bytes = u64::MAX - 1;
    assert!(try_process_video_frame(&mut s, &header(3, 0x01, 2), Bytes::from_static(b"xy"), 0).is_err());
    assert!(try_process_video_frame(&mut s, &header(4, 0xFF, 2), Bytes::from_static(b"xy"), 0).is_ok());
}

#[test]
fn smart_client_counts_drops_and_accepts_all() {
    let mut c = SmartClient::new("wt_1".to_string());
    assert_eq!(c.id, "wt_1");
    let f = quic_video_relay::relay::VideoFrame {
        frame_number: 1,
        timestamp: 0,
        frame_type: 0,
        data: Bytes::new(),
        priority: DELTA_PRIORITY,
        size: 0,
    };
    assert!(c.should_accept_frame(&f));
    c.record_dropped_frame();
    c.record_dropped_frame();
    assert_eq!(c.dropped_frames, 2);
}

#[test]
fn dropped_frames_are_summed() {
    assert_eq!(total_dropped_frames(&[]), Some(0));
    assert_eq!(total_dropped_frames(&[3, 4, 5]), Some(12));
    assert_eq!(total_dropped_frames(&[u64::MAX, 0]), Some(u64::MAX));
    assert_eq!(total_dropped_frames(&[u64::MAX, 1]), None);
}
