//! Per-frame bookkeeping of the QUIC relay: what a received frame does to the
//! server's statistics, and which frame it becomes for the subscribers.

use vstd::prelude::*;
use crate::wire::{FrameHeader, KEYFRAME, AVCC_CONFIG, MAGIC_STREAM_FRAME};
use crate::buffer::{bytes_contents, bytes_len};

verus! {

/// Priority of keyframes (and of the decoder configuration): the highest.
pub const KEYFRAME_PRIORITY: u8 = 0;

/// Priority of every other frame.
pub const DELTA_PRIORITY: u8 = 1;

/// A frame as the relay hands it to its subscribers.
#[derive(Clone, Debug)]
pub struct VideoFrame {
    pub frame_number: u64,
    pub timestamp: u64,
    pub frame_type: u8,
    pub data: bytes::Bytes,
    pub priority: u8,
    pub size: usize,
}

/// Counters of the relay. The start time that the periodic report measures
/// rates against is kept beside them by the server.
#[derive(Debug)]
pub struct ServerStats {
    pub total_frames: u64,
    pub keyframes: u64,
    pub delta_frames: u64,
    pub total_bytes: u64,
    pub connected_clients: usize,
    pub avcc_config: Option<bytes::Bytes>,
    pub dropped_frames: u64,
}

impl ServerStats {
    /// Every counted frame is a keyframe or a delta frame.
    pub open spec fn counts_consistent(&self) -> bool {
        self.total_frames == self.keyframes + self.delta_frames
    }

    /// Whether a media frame of type `frame_type` and `len` payload bytes can
    /// be counted without one of the counters it changes overflowing.
    pub open spec fn can_count(&self, frame_type: u8, len: nat) -> bool {
        &&& self.total_frames < u64::MAX
        &&& self.total_bytes + len <= u64::MAX
        &&& frame_type == KEYFRAME ==> self.keyframes < u64::MAX
        &&& frame_type != KEYFRAME ==> self.delta_frames < u64::MAX
    }
}

impl Default for ServerStats {
    /// All counters at zero, no client, no decoder configuration yet.
    fn default() -> (s: Self)
        ensures
            s.total_frames == 0,
            s.keyframes == 0,
            s.delta_frames == 0,
            s.total_bytes == 0,
            s.connected_clients == 0,
            s.avcc_config is None,
            s.dropped_frames == 0,
            s.counts_consistent(),
    {
        ServerStats {
            total_frames: 0,
            keyframes: 0,
            delta_frames: 0,
            total_bytes: 0,
            connected_clients: 0,
            avcc_config: None,
            dropped_frames: 0,
        }
    }
}

/// `f` is what a received frame with header `header` and payload `data`
/// becomes for the subscribers: the decoder configuration becomes frame 0 of
/// the highest priority; any other frame keeps its number and type, with the
/// highest priority for keyframes and the lower one otherwise.
pub open spec fn relays_as(f: VideoFrame, header: FrameHeader, data: Seq<u8>) -> bool {
    &&& f.frame_number == if header.frame_type == AVCC_CONFIG {
        0
    } else {
        header.frame_number
    }
    &&& f.timestamp == header.timestamp
    &&& f.frame_type == header.frame_type
    &&& bytes_contents(f.data) == data
    &&& f.priority == if header.frame_type == AVCC_CONFIG || header.frame_type == KEYFRAME {
        KEYFRAME_PRIORITY
    } else {
        DELTA_PRIORITY
    }
    &&& f.size == data.len()
}

/// Whether a received frame of type `frame_type` is broadcast while
/// `client_count` clients are registered: the decoder configuration and
/// keyframes always are, delta frames only when someone listens.
pub open spec fn spec_broadcasts(frame_type: u8, client_count: nat) -> bool {
    frame_type == AVCC_CONFIG || frame_type == KEYFRAME || client_count > 0
}

/// One received frame takes the statistics from `before` to `after` and
/// hands `out` to the subscribers. The decoder configuration is stored and
/// not counted; any other frame is counted as a keyframe or a delta frame,
/// with its payload bytes.
pub open spec fn spec_processed(
    before: ServerStats,
    after: ServerStats,
    header: FrameHeader,
    data: Seq<u8>,
    client_count: nat,
    out: Option<VideoFrame>,
) -> bool {
    let is_config = header.frame_type == AVCC_CONFIG;
    let is_key = header.frame_type == KEYFRAME;
    &&& out is Some <==> spec_broadcasts(header.frame_type, client_count)
    &&& out matches Some(f) ==> relays_as(f, header, data)
    &&& after.total_frames == before.total_frames + if is_config { 0int } else { 1 }
    &&& after.total_bytes == before.total_bytes + if is_config { 0int } else { data.len() as int }
    &&& after.keyframes == before.keyframes + if !is_config && is_key { 1int } else { 0 }
    &&& after.delta_frames == before.delta_frames + if !is_config && !is_key { 1int } else { 0 }
    &&& is_config ==> (after.avcc_config matches Some(c) && bytes_contents(c) == data)
    &&& !is_config ==> after.avcc_config == before.avcc_config
    &&& after.connected_clients == before.connected_clients
    &&& after.dropped_frames == before.dropped_frames
}

/// Handles one received frame, with `client_count` clients registered:
/// updates the statistics and returns the frame to broadcast, if any, as
/// `spec_processed` says.
pub fn process_video_frame_smart(
    stats: &mut ServerStats,
    header: &FrameHeader,
    data: bytes::Bytes,
    client_count: usize,
) -> (out: Option<VideoFrame>)
    requires
        header.frame_type != AVCC_CONFIG ==> old(stats).can_count(
            header.frame_type,
            bytes_contents(data).len(),
        ),
    ensures
        spec_processed(
            *old(stats),
            *final(stats),
            *header,
            bytes_contents(data),
            client_count as nat,
            out,
        ),
        old(stats).counts_consistent() ==> final(stats).counts_consistent(),
        out matches Some(f) ==> f.timestamp == header.timestamp && f.frame_type
            == header.frame_type,
{
    let len = bytes_len(&data);
    if header.frame_type == AVCC_CONFIG {
        stats.avcc_config = Some(data.clone());
        let frame = VideoFrame {
            frame_number: 0,
            timestamp: header.timestamp,
            frame_type: AVCC_CONFIG,
            data,
            priority: KEYFRAME_PRIORITY,
            size: len,
        };
        return Some(frame);
    }
    stats.total_frames = stats.total_frames + 1;
    stats.total_bytes = stats.total_bytes + len as u64;
    if header.frame_type == KEYFRAME {
        stats.keyframes = stats.keyframes + 1;
    } else {
        stats.delta_frames = stats.delta_frames + 1;
    }
    let priority = if header.frame_type == KEYFRAME {
        KEYFRAME_PRIORITY
    } else {
        DELTA_PRIORITY
    };
    let frame = VideoFrame {
        frame_number: header.frame_number,
        timestamp: header.timestamp,
        frame_type: header.frame_type,
        data,
        priority,
        size: len,
    };
    if evaluate_global_backpressure(&frame, client_count) {
        Some(frame)
    } else {
        None
    }
}

/// A counter would overflow: the frame was not handled.
#[derive(Debug, PartialEq, Eq, Structural)]
pub struct CounterOverflow;

/// `process_video_frame_smart` for any input: when a counter that the frame
/// would change is already at its maximum, nothing changes and the frame is
/// refused with `CounterOverflow`.
pub fn try_process_video_frame(
    stats: &mut ServerStats,
    header: &FrameHeader,
    data: bytes::Bytes,
    client_count: usize,
) -> (r: Result<Option<VideoFrame>, CounterOverflow>)
    ensures
        r is Err <==> (header.frame_type != AVCC_CONFIG && !old(stats).can_count(
            header.frame_type,
            bytes_contents(data).len(),
        )),
        r is Err ==> *final(stats) == *old(stats),
        r matches Ok(out) ==> spec_processed(
            *old(stats),
            *final(stats),
            *header,
            bytes_contents(data),
            client_count as nat,
            out,
        ),
        old(stats).counts_consistent() ==> final(stats).counts_consistent(),
{
    let len = bytes_len(&data);
    if header.frame_type != AVCC_CONFIG {
        let key_full = header.frame_type == KEYFRAME && stats.keyframes == u64::MAX;
        let delta_full = header.frame_type != KEYFRAME && stats.delta_frames == u64::MAX;
        if stats.total_frames == u64::MAX || len as u64 > u64::MAX - stats.total_bytes || key_full
            || delta_full {
            return Err(CounterOverflow);
        }
    }
    Ok(process_video_frame_smart(stats, header, data, client_count))
}

/// Keyframes are never withheld from the subscribers, whatever the number
/// of registered clients.
pub proof fn lemma_keyframes_always_broadcast(
    before: ServerStats,
    after: ServerStats,
    header: FrameHeader,
    data: Seq<u8>,
    client_count: nat,
    out: Option<VideoFrame>,
)
    requires
        spec_processed(before, after, header, data, client_count, out),
        header.frame_type == KEYFRAME,
    ensures
        out matches Some(f) && relays_as(f, header, data) && f.priority == KEYFRAME_PRIORITY,
{
}

/// A media frame is passed on under the header it arrived with: the number,
/// timestamp, type and size of the frame broadcast, with the magic, form the
/// received header, and its payload is the received one.
pub proof fn lemma_media_frame_keeps_header(
    before: ServerStats,
    after: ServerStats,
    header: FrameHeader,
    data: Seq<u8>,
    client_count: nat,
    out: Option<VideoFrame>,
)
    requires
        spec_processed(before, after, header, data, client_count, out),
        header.frame_type != AVCC_CONFIG,
        header.magic == MAGIC_STREAM_FRAME,
        header.data_size == data.len(),
        out is Some,
    ensures
        out matches Some(f) && (FrameHeader {
            magic: MAGIC_STREAM_FRAME,
            frame_number: f.frame_number,
            timestamp: f.timestamp,
            frame_type: f.frame_type,
            data_size: f.size as u32,
        }) == header && bytes_contents(f.data) == data,
{
}

/// The decoder configuration is broadcast as frame 0 with the timestamp,
/// type and payload it arrived with, and the same payload is stored.
pub proof fn lemma_config_frame_is_passed_on(
    before: ServerStats,
    after: ServerStats,
    header: FrameHeader,
    data: Seq<u8>,
    client_count: nat,
    out: Option<VideoFrame>,
)
    requires
        spec_processed(before, after, header, data, client_count, out),
        header.frame_type == AVCC_CONFIG,
    ensures
        out matches Some(f) && f.frame_number == 0 && f.timestamp == header.timestamp
            && f.frame_type == AVCC_CONFIG && bytes_contents(f.data) == data && f.size == data.len(),
        after.avcc_config matches Some(c) && bytes_contents(c) == data,
        after.total_frames == before.total_frames,
{
}

/// Whether a media frame is broadcast while `client_count` clients are
/// registered: frames of the highest priority always are (keyframes are
/// never dropped), others only when at least one client listens.
pub fn evaluate_global_backpressure(frame: &VideoFrame, client_count: usize) -> (broadcast: bool)
    ensures
        broadcast == (frame.priority == KEYFRAME_PRIORITY || client_count > 0),
{
    frame.priority == KEYFRAME_PRIORITY || client_count != 0
}

/// Per-client state of the QUIC relay. The connection quality reported
/// beside it is a float and is kept outside.
pub struct SmartClient {
    pub id: String,
    pub dropped_frames: u64,
    pub last_keyframe: Option<u64>,
}

impl SmartClient {
    /// A client with nothing dropped.
    pub fn new(id: String) -> (c: Self)
        ensures
            c.id@ == id@,
            c.dropped_frames == 0,
            c.last_keyframe is None,
    {
        SmartClient { id, dropped_frames: 0, last_keyframe: None }
    }

    /// Every frame is taken: the transport's own flow control does the rest.
    pub fn should_accept_frame(&self, frame: &VideoFrame) -> (ok: bool)
        ensures
            ok,
    {
        true
    }

    /// One more frame was dropped for this client.
    pub fn record_dropped_frame(&mut self)
        requires
            old(self).dropped_frames < u64::MAX,
        ensures
            final(self).dropped_frames == old(self).dropped_frames + 1,
            final(self).id == old(self).id,
            final(self).last_keyframe == old(self).last_keyframe,
    {
        self.dropped_frames = self.dropped_frames + 1;
    }
}

/// Sum of a sequence of counters.
pub open spec fn spec_sum(s: Seq<u64>) -> nat
    decreases s.len(),
{
    if s.len() == 0 {
        0
    } else {
        spec_sum(s.drop_last()) + s.last() as nat
    }
}

/// Total number of frames dropped over all clients, given each client's
/// count; `None` when the total does not fit in a `u64`.
pub fn total_dropped_frames(counts: &[u64]) -> (total: Option<u64>)
    ensures
        total matches Some(t) ==> t == spec_sum(counts@),
        total is None <==> spec_sum(counts@) > u64::MAX,
{
    let mut acc: u64 = 0;
    let n = counts.len();
    for i in 0..n
        invariant
            n == counts@.len(),
            acc == spec_sum(counts@.take(i as int)),
    {
        assert(counts@.take(i + 1).drop_last() =~= counts@.take(i as int));
        match acc.checked_add(counts[i]) {
            Some(v) => {
                acc = v;
            },
            None => {
                proof {
                    lemma_sum_prefix_le(counts@, i + 1);
                }
                return None;
            },
        }
    }
    assert(counts@.take(n as int) =~= counts@);
    Some(acc)
}

/// The sum of a prefix is at most the sum of the whole sequence.
proof fn lemma_sum_prefix_le(s: Seq<u64>, k: int)
    requires
        0 <= k <= s.len(),
    ensures
        spec_sum(s.take(k)) <= spec_sum(s),
    decreases s.len() - k,
{
    if k < s.len() {
        lemma_sum_prefix_le(s, k + 1);
        assert(s.take(k + 1).drop_last() =~= s.take(k));
    } else {
        assert(s.take(k) =~= s);
    }
}

} // verus!
