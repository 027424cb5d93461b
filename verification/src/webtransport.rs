//! Frames and per-client congestion control of the WebTransport relay.
//!
//! Each client has a queue of frames handed to its send stream and not yet
//! written. Critical frames (keyframes and the decoder configuration) always
//! go through; when the queue fills up, delta frames are refused, large ones
//! first.

use vstd::prelude::*;
use crate::wire::{
    FrameHeader, FRAME_HEADER_SIZE, MAGIC_STREAM_FRAME, KEYFRAME, DELTA_FRAME, AVCC_CONFIG,
    spec_header, spec_encode_header, encode_frame_header, lemma_header_roundtrip,
};
use crate::scanner::{scan, lemma_scan_encoded_frame};

verus! {

/// A delta frame with more payload bytes than this gets the lowest priority.
pub const LARGE_DELTA_BYTES: usize = 10000;

/// A client queue at or above this many frames is full.
pub const MAX_PENDING_FRAMES: usize = 10;

/// A client queue at or above this many frames is congested.
pub const CONGESTION_THRESHOLD: usize = 8;

/// Priority of a frame from its type and payload length:
/// 0 is the highest (keyframes and configuration), 2 the lowest (large deltas).
pub open spec fn spec_priority(frame_type: u8, len: nat) -> u8 {
    if frame_type == KEYFRAME || frame_type == AVCC_CONFIG {
        0
    } else if frame_type == DELTA_FRAME {
        if len > LARGE_DELTA_BYTES { 2 } else { 1 }
    } else {
        1
    }
}

/// A frame on its way to WebTransport clients.
pub struct VideoFrame {
    pub frame_number: u64,
    pub timestamp: u64,
    pub data: Vec<u8>,
    pub frame_type: u8,
    pub priority: u8,
}

impl VideoFrame {
    /// A frame whose priority follows from its type and size.
    pub fn new(frame_number: u64, timestamp: u64, data: Vec<u8>, frame_type: u8) -> (f: Self)
        ensures
            f.frame_number == frame_number,
            f.timestamp == timestamp,
            f.data@ == data@,
            f.frame_type == frame_type,
            f.priority == spec_priority(frame_type, data@.len()),
            frame_type == KEYFRAME || frame_type == AVCC_CONFIG ==> f.priority == 0,
    {
        let priority = if frame_type == KEYFRAME || frame_type == AVCC_CONFIG {
            0
        } else if frame_type == DELTA_FRAME {
            if data.len() > LARGE_DELTA_BYTES { 2 } else { 1 }
        } else {
            1
        };
        VideoFrame { frame_number, timestamp, data, frame_type, priority }
    }
}

/// The header that announces `frame` on the wire. The payload length is
/// written as a `u32`, wrapping as Rust's `as` does.
pub open spec fn spec_frame_header(frame: &VideoFrame) -> FrameHeader {
    FrameHeader {
        magic: MAGIC_STREAM_FRAME,
        frame_number: frame.frame_number,
        timestamp: frame.timestamp,
        frame_type: frame.frame_type,
        data_size: frame.data@.len() as u32,
    }
}

/// The wire bytes of `frame`: its header, then its payload.
///
/// The header follows the frame format that the README documents and that
/// `parse_frame_header` reads: the frame type at offset 20, then the payload
/// size. (The relay this comes from wrote the size before the type, which
/// its own receiver could not have parsed; the documented order is kept.)
pub fn prepare_frame_data(frame: &VideoFrame) -> (out: Vec<u8>)
    ensures
        out@ == spec_encode_header(spec_frame_header(frame)) + frame.data@,
        out@.len() == FRAME_HEADER_SIZE + frame.data@.len(),
        spec_header(out@) == (FrameHeader {
            magic: MAGIC_STREAM_FRAME,
            frame_number: frame.frame_number,
            timestamp: frame.timestamp,
            frame_type: frame.frame_type,
            data_size: frame.data@.len() as u32,
        }),
        out@.skip(FRAME_HEADER_SIZE as int) == frame.data@,
{
    proof {
        lemma_prepared_bytes_read_back(frame);
        lemma_header_roundtrip(spec_frame_header(frame), frame.data@);
    }
    let header = FrameHeader {
        magic: MAGIC_STREAM_FRAME,
        frame_number: frame.frame_number,
        timestamp: frame.timestamp,
        frame_type: frame.frame_type,
        data_size: frame.data.len() as u32,
    };
    let mut out = encode_frame_header(&header);
    let ghost head = out@;
    let n = frame.data.len();
    for i in 0..n
        invariant
            n == frame.data@.len(),
            head == spec_encode_header(spec_frame_header(frame)),
            out@ == head + frame.data@.take(i as int),
    {
        out.push(frame.data[i]);
        assert(frame.data@.take(i + 1) =~= frame.data@.take(i as int).push(frame.data@[i as int]));
    }
    assert(frame.data@.take(n as int) =~= frame.data@);
    out
}

/// What a client sends is what the relay reads back: the bytes that
/// `prepare_frame_data` writes for `frame`, followed by anything, are scanned
/// back as the frame's header and payload, leaving what followed. Payloads
/// longer than `u32::MAX` bytes do not fit the size field and are left out.
pub proof fn lemma_prepared_frame_scans_back(frame: &VideoFrame, rest: Seq<u8>)
    requires
        frame.data@.len() <= u32::MAX,
    ensures
        scan(spec_encode_header(spec_frame_header(frame)) + frame.data@ + rest) == (
            rest,
            Some((spec_frame_header(frame), frame.data@)),
        ),
{
    lemma_scan_encoded_frame(spec_frame_header(frame), frame.data@, rest);
}

/// Keyframes and the decoder configuration get the highest priority,
/// whatever their size, and no frame outranks them.
pub proof fn lemma_critical_frames_have_top_priority(
    frame_type: u8,
    len: nat,
    other_type: u8,
    other_len: nat,
)
    requires
        frame_type == KEYFRAME || frame_type == AVCC_CONFIG,
    ensures
        spec_priority(frame_type, len) == 0,
        spec_priority(frame_type, len) <= spec_priority(other_type, other_len),
{
}

/// A delta frame never gets the highest priority, and a larger delta frame
/// never gets a higher priority than a smaller one.
pub proof fn lemma_delta_priority_by_size(small: nat, large: nat)
    requires
        small <= large,
    ensures
        spec_priority(DELTA_FRAME, small) >= 1,
        spec_priority(DELTA_FRAME, small) <= spec_priority(DELTA_FRAME, large),
{
}

/// The header that `prepare_frame_data` writes, read back, holds the frame's
/// own number, timestamp and type, the magic, and the payload size; the
/// payload follows it unchanged.
pub proof fn lemma_prepared_bytes_read_back(frame: &VideoFrame)
    ensures
        spec_header(spec_encode_header(spec_frame_header(frame)) + frame.data@) == (FrameHeader {
            magic: MAGIC_STREAM_FRAME,
            frame_number: frame.frame_number,
            timestamp: frame.timestamp,
            frame_type: frame.frame_type,
            data_size: frame.data@.len() as u32,
        }),
        (spec_encode_header(spec_frame_header(frame)) + frame.data@).skip(FRAME_HEADER_SIZE as int)
            == frame.data@,
{
    lemma_header_roundtrip(spec_frame_header(frame), frame.data@);
    assert((spec_encode_header(spec_frame_header(frame)) + frame.data@).skip(FRAME_HEADER_SIZE as int)
        =~= frame.data@);
}

/// Whether a client whose queue holds `pending` frames takes a frame of
/// type `frame_type` and priority `priority`.
pub open spec fn spec_should_accept(pending: nat, frame_type: u8, priority: u8) -> bool {
    if frame_type == KEYFRAME || frame_type == AVCC_CONFIG {
        true
    } else if pending >= MAX_PENDING_FRAMES {
        false
    } else if pending >= CONGESTION_THRESHOLD {
        if priority == 0 {
            true
        } else if priority == 1 {
            pending <= CONGESTION_THRESHOLD
        } else {
            false
        }
    } else {
        true
    }
}

/// Keyframes and the decoder configuration are taken however full the
/// client's queue is.
pub proof fn lemma_critical_frames_always_accepted(pending: nat, frame_type: u8, priority: u8)
    requires
        frame_type == KEYFRAME || frame_type == AVCC_CONFIG,
    ensures
        spec_should_accept(pending, frame_type, priority),
{
}

/// A frame that a client takes with `pending` queued frames it also takes
/// with fewer queued frames.
pub proof fn lemma_acceptance_monotone(fewer: nat, pending: nat, frame_type: u8, priority: u8)
    requires
        fewer <= pending,
        spec_should_accept(pending, frame_type, priority),
    ensures
        spec_should_accept(fewer, frame_type, priority),
{
}

/// A frame of the highest priority is refused only by a full queue.
pub proof fn lemma_high_priority_refused_only_when_full(pending: nat, frame_type: u8)
    requires
        !spec_should_accept(pending, frame_type, 0),
    ensures
        pending >= MAX_PENDING_FRAMES,
{
}

/// A full queue takes only keyframes and the decoder configuration.
pub proof fn lemma_full_queue_takes_only_critical_frames(pending: nat, frame_type: u8, priority: u8)
    requires
        pending >= MAX_PENDING_FRAMES,
    ensures
        spec_should_accept(pending, frame_type, priority) <==> (frame_type == KEYFRAME
            || frame_type == AVCC_CONFIG),
{
}

/// Under congestion lower-priority frames go first: a frame taken at some
/// priority would also be taken at any higher (numerically smaller) one.
pub proof fn lemma_acceptance_favours_priority(pending: nat, frame_type: u8, higher: u8, lower: u8)
    requires
        higher <= lower,
        spec_should_accept(pending, frame_type, lower),
    ensures
        spec_should_accept(pending, frame_type, higher),
{
}

/// Queue length after one more frame joins a queue of `pending` (saturating).
pub open spec fn spec_enqueued(pending: usize) -> usize {
    if pending < usize::MAX { (pending + 1) as usize } else { pending }
}

/// Queue length after one frame leaves a queue of `pending` (saturating).
pub open spec fn spec_dequeued(pending: usize) -> usize {
    if pending > 0 { (pending - 1) as usize } else { 0 }
}

/// A frame that joins the queue and then leaves it, whether written or not,
/// leaves the queue as long as it was (below the saturation point).
pub proof fn lemma_enqueue_then_dequeue(pending: usize)
    requires
        pending < usize::MAX,
    ensures
        spec_dequeued(spec_enqueued(pending)) == pending,
{
}

/// Per-client state of the WebTransport relay. The connection quality that
/// the relay reports beside it is a float and is kept outside.
pub struct WebTransportClient {
    pub id: String,
    pub pending_frames: usize,
    pub dropped_frames: u64,
    pub last_keyframe: Option<u64>,
}

impl WebTransportClient {
    /// A client with an empty queue and nothing dropped.
    pub fn new(id: String) -> (c: Self)
        ensures
            c.id@ == id@,
            c.pending_frames == 0,
            c.dropped_frames == 0,
            c.last_keyframe is None,
    {
        WebTransportClient { id, pending_frames: 0, dropped_frames: 0, last_keyframe: None }
    }

    /// Whether this client takes `frame` now.
    pub fn should_accept_frame(&self, frame: &VideoFrame) -> (ok: bool)
        ensures
            ok == spec_should_accept(self.pending_frames as nat, frame.frame_type, frame.priority),
    {
        if frame.frame_type == KEYFRAME || frame.frame_type == AVCC_CONFIG {
            return true;
        }
        if self.pending_frames >= MAX_PENDING_FRAMES {
            false
        } else if self.pending_frames >= CONGESTION_THRESHOLD {
            match frame.priority {
                0 => true,
                1 => self.pending_frames <= CONGESTION_THRESHOLD,
                _ => false,
            }
        } else {
            true
        }
    }

    /// One more frame is in the queue (saturating).
    pub fn frame_queued(&mut self)
        ensures
            final(self).pending_frames == spec_enqueued(old(self).pending_frames),
            final(self).dropped_frames == old(self).dropped_frames,
            final(self).id == old(self).id,
            final(self).last_keyframe == old(self).last_keyframe,
    {
        self.pending_frames = self.pending_frames.saturating_add(1);
    }

    /// One frame left the queue (saturating at zero).
    pub fn frame_sent(&mut self)
        ensures
            final(self).pending_frames == spec_dequeued(old(self).pending_frames),
            final(self).dropped_frames == old(self).dropped_frames,
            final(self).id == old(self).id,
            final(self).last_keyframe == old(self).last_keyframe,
    {
        self.pending_frames = self.pending_frames.saturating_sub(1);
    }

    /// One more frame was dropped for this client.
    pub fn frame_dropped(&mut self)
        requires
            old(self).dropped_frames < u64::MAX,
        ensures
            final(self).dropped_frames == old(self).dropped_frames + 1,
            final(self).pending_frames == old(self).pending_frames,
            final(self).id == old(self).id,
            final(self).last_keyframe == old(self).last_keyframe,
    {
        self.dropped_frames = self.dropped_frames + 1;
    }

    /// Admission of `frame` before it is written: an accepted frame joins the
    /// queue, a refused one counts as dropped. Returns whether it was accepted.
    pub fn admit_frame(&mut self, frame: &VideoFrame) -> (accepted: bool)
        requires
            !spec_should_accept(old(self).pending_frames as nat, frame.frame_type, frame.priority)
                ==> old(self).dropped_frames < u64::MAX,
        ensures
            accepted == spec_should_accept(
                old(self).pending_frames as nat,
                frame.frame_type,
                frame.priority,
            ),
            accepted ==> final(self).pending_frames == spec_enqueued(old(self).pending_frames),
            accepted ==> final(self).dropped_frames == old(self).dropped_frames,
            !accepted ==> final(self).pending_frames == old(self).pending_frames,
            !accepted ==> final(self).dropped_frames == old(self).dropped_frames + 1,
            final(self).id == old(self).id,
            final(self).last_keyframe == old(self).last_keyframe,
    {
        if self.should_accept_frame(frame) {
            self.frame_queued();
            true
        } else {
            self.frame_dropped();
            false
        }
    }

    /// Outcome of writing an admitted frame: on success it leaves the queue;
    /// on failure or timeout it leaves the queue and counts as dropped.
    pub fn finish_send(&mut self, delivered: bool)
        requires
            !delivered ==> old(self).dropped_frames < u64::MAX,
        ensures
            final(self).pending_frames == spec_dequeued(old(self).pending_frames),
            final(self).dropped_frames == if delivered {
                old(self).dropped_frames as int
            } else {
                old(self).dropped_frames + 1
            },
            final(self).id == old(self).id,
            final(self).last_keyframe == old(self).last_keyframe,
    {
        if delivered {
            self.frame_sent();
        } else {
            self.frame_dropped();
            self.pending_frames = self.pending_frames.saturating_sub(1);
        }
    }
}

} // verus!
