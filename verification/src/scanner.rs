//! Extraction of complete frames from the bytes a sender has streamed so far.
//!
//! Bytes arrive in arbitrary chunks. The scanner looks for a header whose
//! magic is right, skipping one byte at a time until it finds one, and hands
//! out the frame once its whole payload has arrived.

use vstd::prelude::*;
use crate::wire::{
    FrameHeader, FRAME_HEADER_SIZE, MAGIC_STREAM_FRAME, spec_header, spec_encode_header,
    parse_frame_header, lemma_header_roundtrip, lemma_parsed_header_reencodes,
};
use crate::buffer::{
    bytes_mut_contents, bytes_contents, buf_len, buf_as_slice, buf_advance, buf_split_to, buf_freeze,
    buf_extend_from_slice,
};

verus! {

/// A complete header with the right magic starts at offset `i` of `s`.
pub open spec fn is_sync_point(s: Seq<u8>, i: int) -> bool {
    &&& 0 <= i
    &&& i + FRAME_HEADER_SIZE <= s.len()
    &&& spec_header(s.skip(i)).magic == MAGIC_STREAM_FRAME
}

/// The first sync point of `s` at offset `i` or later.
pub open spec fn first_sync_from(s: Seq<u8>, i: int) -> Option<int>
    decreases s.len() - i,
{
    if i < 0 || i + FRAME_HEADER_SIZE > s.len() {
        None
    } else if is_sync_point(s, i) {
        Some(i)
    } else {
        first_sync_from(s, i + 1)
    }
}

/// What one step of the scanner does to the pending bytes `s`: the bytes
/// left pending afterwards, and the frame (header and payload) handed out.
///
/// With no sync point, every byte that cannot start a header any more is
/// dropped: only the last 24 bytes stay. At the first sync point whose
/// payload is incomplete, the bytes before it are dropped and nothing is
/// handed out. Otherwise the frame is handed out and everything up to its
/// end is consumed.
pub open spec fn scan(s: Seq<u8>) -> (Seq<u8>, Option<(FrameHeader, Seq<u8>)>) {
    match first_sync_from(s, 0) {
        None => (
            if s.len() >= FRAME_HEADER_SIZE { s.skip(s.len() - (FRAME_HEADER_SIZE - 1)) } else { s },
            None,
        ),
        Some(k) => {
            let h = spec_header(s.skip(k));
            let end = k + FRAME_HEADER_SIZE + h.data_size;
            if end > s.len() {
                (s.skip(k), None)
            } else {
                (s.skip(end), Some((h, s.subrange(k + FRAME_HEADER_SIZE, end))))
            }
        },
    }
}

proof fn lemma_first_sync_skip(s: Seq<u8>, i: int, j: int)
    requires
        0 <= i <= j,
        forall|m: int| i <= m < j ==> !is_sync_point(s, m),
    ensures
        first_sync_from(s, i) == first_sync_from(s, j),
    decreases j - i,
{
    if i < j {
        lemma_first_sync_skip(s, i + 1, j);
    }
}

/// Resynchronisation: bytes in front of a frame that hold no header with
/// the right magic are skipped, and the frame after them is handed out whole
/// with exactly the bytes after it left pending.
pub proof fn lemma_scan_skips_to_frame(junk: Seq<u8>, h: FrameHeader, data: Seq<u8>, rest: Seq<u8>)
    requires
        h.magic == MAGIC_STREAM_FRAME,
        h.data_size == data.len(),
        forall|m: int|
            0 <= m < junk.len() ==> !is_sync_point(
                junk + spec_encode_header(h) + data + rest,
                m,
            ),
    ensures
        scan(junk + spec_encode_header(h) + data + rest) == (rest, Some((h, data))),
{
    let s = junk + spec_encode_header(h) + data + rest;
    let k = junk.len() as int;
    lemma_header_roundtrip(h, data + rest);
    assert(s.skip(k) =~= spec_encode_header(h) + (data + rest));
    assert(is_sync_point(s, k));
    lemma_first_sync_skip(s, 0, k);
    assert(first_sync_from(s, 0) == Some(k));
    let end = k + FRAME_HEADER_SIZE + data.len();
    assert(s.skip(end) =~= rest);
    assert(s.subrange(k + FRAME_HEADER_SIZE, end) =~= data);
}

/// A frame that was encoded is scanned back whole, whatever follows it.
pub proof fn lemma_scan_encoded_frame(h: FrameHeader, data: Seq<u8>, rest: Seq<u8>)
    requires
        h.magic == MAGIC_STREAM_FRAME,
        h.data_size == data.len(),
    ensures
        scan(spec_encode_header(h) + data + rest) == (rest, Some((h, data))),
{
    let empty = Seq::<u8>::empty();
    assert(empty + spec_encode_header(h) + data + rest =~= spec_encode_header(h) + data + rest);
    lemma_scan_skips_to_frame(empty, h, data, rest);
}

/// The scanner only ever drops bytes from the front: what stays pending is a
/// suffix of what was pending.
pub proof fn lemma_scan_keeps_suffix(s: Seq<u8>)
    ensures
        exists|k: int| 0 <= k <= s.len() && #[trigger] s.skip(k) == scan(s).0,
{
    match first_sync_from(s, 0) {
        None => {
            if s.len() >= FRAME_HEADER_SIZE {
                assert(s.skip(s.len() - (FRAME_HEADER_SIZE - 1)) == scan(s).0);
            } else {
                assert(s.skip(0) =~= s);
            }
        },
        Some(k) => {
            lemma_first_sync_is_sync(s, 0);
            let end = k + FRAME_HEADER_SIZE + spec_header(s.skip(k)).data_size;
            if end > s.len() {
                assert(s.skip(k) == scan(s).0);
            } else {
                assert(s.skip(end) == scan(s).0);
            }
        },
    }
}

/// What `first_sync_from` finds is a sync point at or after `i`.
proof fn lemma_first_sync_is_sync(s: Seq<u8>, i: int)
    ensures
        first_sync_from(s, i) matches Some(k) ==> i <= k && is_sync_point(s, k),
    decreases s.len() - i,
{
    if !(i < 0 || i + FRAME_HEADER_SIZE > s.len()) && !is_sync_point(s, i) {
        lemma_first_sync_is_sync(s, i + 1);
    }
}

/// A frame handed out is exactly what was on the wire: its header has the
/// right magic, its payload has the announced size, and the pending bytes
/// were some skipped bytes, the frame's encoding, and what stays pending.
pub proof fn lemma_scanned_frame_is_exact(s: Seq<u8>)
    ensures
        scan(s).1 matches Some((h, d)) ==> {
            &&& h.magic == MAGIC_STREAM_FRAME
            &&& d.len() == h.data_size
            &&& exists|k: int|
                0 <= k && s == #[trigger] s.take(k) + spec_encode_header(h) + d + scan(s).0
        },
{
    if let Some(k) = first_sync_from(s, 0) {
        lemma_first_sync_is_sync(s, 0);
        let h = spec_header(s.skip(k));
        let end = k + FRAME_HEADER_SIZE + h.data_size;
        if end <= s.len() {
            lemma_parsed_header_reencodes(s.skip(k));
            let d = s.subrange(k + FRAME_HEADER_SIZE, end);
            assert(s.skip(k).take(FRAME_HEADER_SIZE as int) =~= s.subrange(k, k + FRAME_HEADER_SIZE));
            assert(s =~= s.take(k) + spec_encode_header(h) + d + s.skip(end));
        }
    }
}

/// Takes the next complete frame out of `buffer`, as `scan` describes:
/// returns its header and payload, or `None` when more bytes are needed.
pub fn next_frame(buffer: &mut bytes::BytesMut) -> (res: Option<(FrameHeader, bytes::Bytes)>)
    ensures
        bytes_mut_contents(*final(buffer)) == scan(bytes_mut_contents(*old(buffer))).0,
        res is None <==> scan(bytes_mut_contents(*old(buffer))).1 is None,
        res matches Some((h, d)) ==> scan(bytes_mut_contents(*old(buffer))).1 == Some(
            (h, bytes_contents(d)),
        ),
{
    let ghost s = bytes_mut_contents(*buffer);
    let ghost mut i: int = 0;
    loop
        invariant
            s == bytes_mut_contents(*old(buffer)),
            0 <= i <= s.len(),
            bytes_mut_contents(*buffer) == s.skip(i),
            i > 0 ==> i + FRAME_HEADER_SIZE - 1 <= s.len(),
            forall|m: int| 0 <= m < i ==> !is_sync_point(s, m),
        decreases s.len() - i,
    {
        let n = buf_len(buffer);
        if n < FRAME_HEADER_SIZE {
            proof {
                lemma_first_sync_skip(s, 0, i);
                assert(first_sync_from(s, i) is None);
                if i == 0 {
                    assert(s.skip(0) =~= s);
                } else {
                    assert(i == s.len() - (FRAME_HEADER_SIZE - 1));
                }
            }
            return None;
        }
        let header = match parse_frame_header(buf_as_slice(buffer)) {
            Some(h) => h,
            None => {
                return None;
            },
        };
        if header.magic != MAGIC_STREAM_FRAME {
            buf_advance(buffer, 1);
            proof {
                assert(!is_sync_point(s, i));
                assert(s.skip(i).skip(1) =~= s.skip(i + 1));
                i = i + 1;
            }
            continue;
        }
        proof {
            assert(is_sync_point(s, i));
            lemma_first_sync_skip(s, 0, i);
            assert(first_sync_from(s, 0) == Some(i));
        }
        let size = header.data_size as usize;
        if n - FRAME_HEADER_SIZE < size {
            return None;
        }
        buf_advance(buffer, FRAME_HEADER_SIZE);
        let data = buf_split_to(buffer, size);
        proof {
            assert(s.skip(i).skip(FRAME_HEADER_SIZE as int).skip(size as int) =~= s.skip(
                i + FRAME_HEADER_SIZE + size,
            ));
            assert(s.skip(i).skip(FRAME_HEADER_SIZE as int).take(size as int) =~= s.subrange(
                i + FRAME_HEADER_SIZE,
                i + FRAME_HEADER_SIZE + size,
            ));
        }
        return Some((header, buf_freeze(data)));
    }
}

/// Nothing before what `first_sync_from` finds is a sync point.
proof fn lemma_first_sync_is_first(s: Seq<u8>, i: int)
    ensures
        first_sync_from(s, i) matches Some(k) ==> forall|j: int| i <= j < k ==> !is_sync_point(s, j),
    decreases s.len() - i,
{
    if !(i < 0 || i + FRAME_HEADER_SIZE > s.len()) && !is_sync_point(s, i) {
        lemma_first_sync_is_first(s, i + 1);
    }
}

/// A sync point at `j` is found by a search from any `i <= j`.
proof fn lemma_sync_is_found(s: Seq<u8>, i: int, j: int)
    requires
        0 <= i <= j,
        is_sync_point(s, j),
    ensures
        first_sync_from(s, i) is Some,
    decreases j - i,
{
    if i < j && !is_sync_point(s, i) {
        lemma_sync_is_found(s, i + 1, j);
    }
}

/// The header decoded from a byte sequence depends on its first 25 bytes only.
proof fn lemma_header_prefix(x: Seq<u8>, y: Seq<u8>)
    requires
        x.len() >= FRAME_HEADER_SIZE,
        y.len() >= FRAME_HEADER_SIZE,
        x.take(FRAME_HEADER_SIZE as int) == y.take(FRAME_HEADER_SIZE as int),
    ensures
        spec_header(x) == spec_header(y),
{
    assert(x.subrange(0, 4) =~= y.subrange(0, 4)) by {
        assert forall|m: int| 0 <= m < 4 implies x[m] == y[m] by {
            assert(x[m] == x.take(FRAME_HEADER_SIZE as int)[m]);
            assert(y[m] == y.take(FRAME_HEADER_SIZE as int)[m]);
        }
    }
    assert(x.subrange(4, 12) =~= y.subrange(4, 12)) by {
        assert forall|m: int| 4 <= m < 12 implies x[m] == y[m] by {
            assert(x[m] == x.take(FRAME_HEADER_SIZE as int)[m]);
            assert(y[m] == y.take(FRAME_HEADER_SIZE as int)[m]);
        }
    }
    assert(x.subrange(12, 20) =~= y.subrange(12, 20)) by {
        assert forall|m: int| 12 <= m < 20 implies x[m] == y[m] by {
            assert(x[m] == x.take(FRAME_HEADER_SIZE as int)[m]);
            assert(y[m] == y.take(FRAME_HEADER_SIZE as int)[m]);
        }
    }
    assert(x[20] == y[20]) by {
        assert(x[20] == x.take(FRAME_HEADER_SIZE as int)[20]);
        assert(y[20] == y.take(FRAME_HEADER_SIZE as int)[20]);
    }
    assert(x.subrange(21, 25) =~= y.subrange(21, 25)) by {
        assert forall|m: int| 21 <= m < 25 implies x[m] == y[m] by {
            assert(x[m] == x.take(FRAME_HEADER_SIZE as int)[m]);
            assert(y[m] == y.take(FRAME_HEADER_SIZE as int)[m]);
        }
    }
}

/// Appending bytes changes neither whether nor how a header that lies wholly
/// inside `s` is read.
proof fn lemma_header_in_prefix(s: Seq<u8>, c: Seq<u8>, j: int)
    requires
        0 <= j,
        j + FRAME_HEADER_SIZE <= s.len(),
    ensures
        is_sync_point(s + c, j) == is_sync_point(s, j),
        spec_header((s + c).skip(j)) == spec_header(s.skip(j)),
{
    assert((s + c).skip(j).take(FRAME_HEADER_SIZE as int) =~= s.skip(j).take(
        FRAME_HEADER_SIZE as int,
    ));
    lemma_header_prefix((s + c).skip(j), s.skip(j));
}

/// Searching `p + t` from offset `p.len() + i` is searching `t` from `i`.
proof fn lemma_first_sync_shift(p: Seq<u8>, t: Seq<u8>, i: int)
    requires
        0 <= i,
    ensures
        first_sync_from(p + t, p.len() + i) == match first_sync_from(t, i) {
            Some(k) => Some(k + p.len()),
            None => None::<int>,
        },
    decreases t.len() - i,
{
    let s = p + t;
    if i + FRAME_HEADER_SIZE <= t.len() {
        assert(s.skip(p.len() + i) =~= t.skip(i));
        if !is_sync_point(t, i) {
            lemma_first_sync_shift(p, t, i + 1);
        }
    }
}

/// Bytes in front of `t` that start no header are skipped as if they had
/// never been there. (When there are some, `t` must keep at least the 24
/// bytes that the scanner keeps when it finds nothing.)
proof fn lemma_scan_prefix_skip(p: Seq<u8>, t: Seq<u8>)
    requires
        forall|j: int| 0 <= j < p.len() ==> !is_sync_point(p + t, j),
        p.len() > 0 ==> t.len() >= FRAME_HEADER_SIZE - 1,
    ensures
        scan(p + t) == scan(t),
{
    if p.len() == 0 {
        assert(p + t =~= t);
    } else {
        let s = p + t;
        lemma_first_sync_skip(s, 0, p.len() as int);
        lemma_first_sync_shift(p, t, 0);
        match first_sync_from(t, 0) {
            None => {
                assert(s.skip(s.len() - (FRAME_HEADER_SIZE - 1)) =~= t.skip(
                    t.len() - (FRAME_HEADER_SIZE - 1),
                ));
                if t.len() < FRAME_HEADER_SIZE {
                    assert(t.skip(0) =~= t);
                }
            },
            Some(k) => {
                lemma_first_sync_is_sync(t, 0);
                let q = k + p.len();
                assert(s.skip(q) =~= t.skip(k));
                let h = spec_header(t.skip(k));
                let end = k + FRAME_HEADER_SIZE + h.data_size;
                if end <= t.len() {
                    assert(s.skip(q + FRAME_HEADER_SIZE + h.data_size) =~= t.skip(end));
                    assert(s.subrange(q + FRAME_HEADER_SIZE, q + FRAME_HEADER_SIZE + h.data_size)
                        =~= t.subrange(k + FRAME_HEADER_SIZE, end));
                }
            },
        }
    }
}

/// What one scan does to `s` followed by more bytes `c`: a frame found in
/// `s` is found all the same, with `c` left pending after it; when `s` holds
/// no complete frame, it is as if `c` had been appended to what the scan of
/// `s` kept.
pub proof fn lemma_scan_append(s: Seq<u8>, c: Seq<u8>)
    ensures
        scan(s).1 is Some ==> scan(s + c) == (scan(s).0 + c, scan(s).1),
        scan(s).1 is None ==> scan(s + c) == scan(scan(s).0 + c),
{
    let sc = s + c;
    match first_sync_from(s, 0) {
        None => {
            assert forall|j: int| 0 <= j && j + FRAME_HEADER_SIZE <= s.len() implies !is_sync_point(
                sc,
                j,
            ) by {
                lemma_header_in_prefix(s, c, j);
                if is_sync_point(s, j) {
                    lemma_sync_is_found(s, 0, j);
                }
            }
            if s.len() >= FRAME_HEADER_SIZE {
                let d = s.len() - (FRAME_HEADER_SIZE - 1);
                let p = s.take(d);
                let t = s.skip(d) + c;
                assert(sc =~= p + t);
                lemma_scan_prefix_skip(p, t);
            }
        },
        Some(k) => {
            lemma_first_sync_is_sync(s, 0);
            assert forall|j: int| 0 <= j < k implies !is_sync_point(sc, j) by {
                lemma_header_in_prefix(s, c, j);
                lemma_first_sync_is_first(s, 0);
            }
            lemma_header_in_prefix(s, c, k);
            let h = spec_header(s.skip(k));
            let end = k + FRAME_HEADER_SIZE + h.data_size;
            if end <= s.len() {
                lemma_first_sync_skip(sc, 0, k);
                assert(sc.skip(end) =~= s.skip(end) + c);
                assert(sc.subrange(k + FRAME_HEADER_SIZE, end) =~= s.subrange(
                    k + FRAME_HEADER_SIZE,
                    end,
                ));
            } else {
                let p = s.take(k);
                let t = s.skip(k) + c;
                assert(sc =~= p + t);
                lemma_scan_prefix_skip(p, t);
            }
        },
    }
}

/// A scan that hands out a frame consumes at least a header's worth of bytes.
pub proof fn lemma_scan_progress(s: Seq<u8>)
    ensures
        scan(s).1 is Some ==> scan(s).0.len() + FRAME_HEADER_SIZE <= s.len(),
{
    lemma_first_sync_is_sync(s, 0);
}

/// What a scan keeps when it hands out nothing is left as it is by the next
/// scan.
pub proof fn lemma_scan_rest_is_stable(s: Seq<u8>)
    requires
        scan(s).1 is None,
    ensures
        scan(scan(s).0) == (scan(s).0, None::<(FrameHeader, Seq<u8>)>),
{
    let r = scan(s).0;
    match first_sync_from(s, 0) {
        None => {
            assert(first_sync_from(r, 0) is None);
        },
        Some(k) => {
            lemma_first_sync_is_sync(s, 0);
            assert(r =~= s.skip(k));
            assert(r.skip(0) =~= r);
            assert(is_sync_point(r, 0));
            assert(first_sync_from(r, 0) == Some(0int));
        },
    }
}

/// All the frames that repeated scans hand out from `s`, in order, and the
/// bytes left pending once no complete frame remains.
pub open spec fn drain(s: Seq<u8>) -> (Seq<(FrameHeader, Seq<u8>)>, Seq<u8>)
    decreases s.len(),
{
    match scan(s).1 {
        None => (Seq::empty(), scan(s).0),
        Some(f) => {
            proof {
                lemma_scan_progress(s);
            }
            let rest = drain(scan(s).0);
            (seq![f] + rest.0, rest.1)
        },
    }
}

/// Draining `s` followed by `c` hands out what draining `s` hands out, then
/// what draining the bytes it left, followed by `c`, hands out.
pub proof fn lemma_drain_append(s: Seq<u8>, c: Seq<u8>)
    ensures
        drain(s + c) == (drain(s).0 + drain(drain(s).1 + c).0, drain(drain(s).1 + c).1),
    decreases s.len(),
{
    lemma_scan_append(s, c);
    lemma_scan_progress(s);
    match scan(s).1 {
        None => {
            assert(drain(s + c) == drain(scan(s).0 + c));
            assert(drain(s).0 + drain(drain(s).1 + c).0 =~= drain(drain(s).1 + c).0);
        },
        Some(f) => {
            let s1 = scan(s).0;
            lemma_drain_append(s1, c);
            assert(scan(s + c).0 == s1 + c);
            assert(drain(s).0 == seq![f] + drain(s1).0);
            assert(drain(s + c).0 == seq![f] + drain(s1 + c).0);
            assert(seq![f] + (drain(s1).0 + drain(drain(s1).1 + c).0) =~= (seq![f] + drain(s1).0)
                + drain(drain(s1).1 + c).0);
        },
    }
}

/// What draining leaves is settled: draining it again hands out nothing and
/// keeps it whole.
pub proof fn lemma_drain_rest_is_settled(s: Seq<u8>)
    ensures
        drain(drain(s).1) == (Seq::<(FrameHeader, Seq<u8>)>::empty(), drain(s).1),
    decreases s.len(),
{
    lemma_scan_progress(s);
    match scan(s).1 {
        None => {
            lemma_scan_rest_is_stable(s);
        },
        Some(_) => {
            lemma_drain_rest_is_settled(scan(s).0);
        },
    }
}

/// The bytes of `chunks`, one after the other.
pub open spec fn concat(chunks: Seq<Seq<u8>>) -> Seq<u8>
    decreases chunks.len(),
{
    if chunks.len() == 0 {
        Seq::empty()
    } else {
        chunks[0] + concat(chunks.drop_first())
    }
}

/// What the relay does with a stream that arrives in `chunks`, starting with
/// `pending` bytes: append each chunk and drain; returns all frames handed
/// out, in order, and the bytes left pending at the end.
pub open spec fn feed(pending: Seq<u8>, chunks: Seq<Seq<u8>>) -> (
    Seq<(FrameHeader, Seq<u8>)>,
    Seq<u8>,
)
    decreases chunks.len(),
{
    if chunks.len() == 0 {
        (Seq::empty(), pending)
    } else {
        let step = drain(pending + chunks[0]);
        let rest = feed(step.1, chunks.drop_first());
        (step.0 + rest.0, rest.1)
    }
}

/// The frames handed out depend only on the bytes streamed, not on how they
/// were split into reads: feeding the chunks one by one to a settled buffer
/// gives what draining all their bytes at once gives.
pub proof fn lemma_chunking_is_irrelevant(pending: Seq<u8>, chunks: Seq<Seq<u8>>)
    requires
        drain(pending) == (Seq::<(FrameHeader, Seq<u8>)>::empty(), pending),
    ensures
        feed(pending, chunks) == drain(pending + concat(chunks)),
    decreases chunks.len(),
{
    if chunks.len() == 0 {
        assert(pending + concat(chunks) =~= pending);
    } else {
        let c0 = chunks[0];
        let tail = chunks.drop_first();
        let step = drain(pending + c0);
        lemma_drain_rest_is_settled(pending + c0);
        lemma_chunking_is_irrelevant(step.1, tail);
        lemma_drain_append(pending + c0, concat(tail));
        assert(pending + concat(chunks) =~= (pending + c0) + concat(tail));
    }
}

/// A stream read from its start, into an empty buffer, yields the same
/// frames however it is split into reads.
pub proof fn lemma_stream_frames_ignore_read_boundaries(chunks: Seq<Seq<u8>>)
    ensures
        feed(Seq::empty(), chunks) == drain(concat(chunks)),
{
    let e = Seq::<u8>::empty();
    assert(first_sync_from(e, 0) is None);
    assert(e.len() < FRAME_HEADER_SIZE);
    assert(drain(e) == (Seq::<(FrameHeader, Seq<u8>)>::empty(), e));
    lemma_chunking_is_irrelevant(e, chunks);
    assert(e + concat(chunks) =~= concat(chunks));
}

/// The bytes a sender writes for the frames `fs`, one after the other.
pub open spec fn encode_frames(fs: Seq<(FrameHeader, Seq<u8>)>) -> Seq<u8>
    decreases fs.len(),
{
    if fs.len() == 0 {
        Seq::empty()
    } else {
        spec_encode_header(fs[0].0) + fs[0].1 + encode_frames(fs.drop_first())
    }
}

/// Every frame has the right magic and announces the size of its payload.
pub open spec fn well_formed_frames(fs: Seq<(FrameHeader, Seq<u8>)>) -> bool {
    forall|i: int|
        0 <= i < fs.len() ==> (#[trigger] fs[i]).0.magic == MAGIC_STREAM_FRAME && fs[i].0.data_size
            == fs[i].1.len()
}

/// Whatever frames a sender writes, of whatever type, draining its bytes
/// hands out all of them, in order and unchanged, and leaves nothing pending.
pub proof fn lemma_drain_encoded_stream(fs: Seq<(FrameHeader, Seq<u8>)>)
    requires
        well_formed_frames(fs),
    ensures
        drain(encode_frames(fs)) == (fs, Seq::<u8>::empty()),
    decreases fs.len(),
{
    if fs.len() == 0 {
        let e = Seq::<u8>::empty();
        assert(first_sync_from(e, 0) is None);
        assert(drain(e) == (Seq::<(FrameHeader, Seq<u8>)>::empty(), e));
        assert(fs =~= Seq::<(FrameHeader, Seq<u8>)>::empty());
    } else {
        let tail = fs.drop_first();
        assert(well_formed_frames(tail)) by {
            assert forall|i: int| 0 <= i < tail.len() implies (#[trigger] tail[i]).0.magic
                == MAGIC_STREAM_FRAME && tail[i].0.data_size == tail[i].1.len() by {
                assert(tail[i] == fs[i + 1]);
            }
        }
        assert(fs[0].0.magic == MAGIC_STREAM_FRAME && fs[0].0.data_size == fs[0].1.len());
        let rest = encode_frames(tail);
        lemma_scan_encoded_frame(fs[0].0, fs[0].1, rest);
        lemma_drain_encoded_stream(tail);
        let s = encode_frames(fs);
        assert(scan(s) == (rest, Some((fs[0].0, fs[0].1))));
        assert(drain(s).0 == seq![fs[0]] + drain(rest).0);
        assert(seq![fs[0]] + tail =~= fs);
    }
}

/// The frames a sender writes reach the relay all and unchanged, however the
/// stream is split into reads.
pub proof fn lemma_sent_frames_arrive_in_any_chunks(
    fs: Seq<(FrameHeader, Seq<u8>)>,
    chunks: Seq<Seq<u8>>,
)
    requires
        well_formed_frames(fs),
        concat(chunks) == encode_frames(fs),
    ensures
        feed(Seq::empty(), chunks) == (fs, Seq::<u8>::empty()),
{
    lemma_stream_frames_ignore_read_boundaries(chunks);
    lemma_drain_encoded_stream(fs);
}

/// `v` holds the frames `fs`: the same headers, and payloads with the same
/// bytes.
pub open spec fn holds_frames(v: Seq<(FrameHeader, bytes::Bytes)>, fs: Seq<(FrameHeader, Seq<u8>)>) -> bool {
    &&& v.len() == fs.len()
    &&& forall|i: int| 0 <= i < v.len() ==> #[trigger] v[i].0 == fs[i].0 && bytes_contents(v[i].1)
        == fs[i].1
}

/// Takes every complete frame out of `buffer`, in order, as `drain` says.
pub fn drain_frames(buffer: &mut bytes::BytesMut) -> (frames: Vec<(FrameHeader, bytes::Bytes)>)
    ensures
        holds_frames(frames@, drain(bytes_mut_contents(*old(buffer))).0),
        bytes_mut_contents(*final(buffer)) == drain(bytes_mut_contents(*old(buffer))).1,
{
    let ghost s = bytes_mut_contents(*buffer);
    let mut frames: Vec<(FrameHeader, bytes::Bytes)> = Vec::new();
    loop
        invariant
            s == bytes_mut_contents(*old(buffer)),
            drain(s).1 == drain(bytes_mut_contents(*buffer)).1,
            frames@.len() + drain(bytes_mut_contents(*buffer)).0.len() == drain(s).0.len(),
            forall|i: int| 0 <= i < frames@.len() ==> #[trigger] frames@[i].0 == drain(s).0[i].0
                && bytes_contents(frames@[i].1) == drain(s).0[i].1,
            forall|i: int| 0 <= i < drain(bytes_mut_contents(*buffer)).0.len() ==> 
                #[trigger] drain(bytes_mut_contents(*buffer)).0[i] == drain(s).0[frames@.len() + i],
        decreases bytes_mut_contents(*buffer).len(),
    {
        let ghost cur = bytes_mut_contents(*buffer);
        proof {
            lemma_scan_progress(cur);
        }
        match next_frame(buffer) {
            Some(f) => {
                proof {
                    assert(drain(cur).0 == seq![(f.0, bytes_contents(f.1))] + drain(scan(cur).0).0);
                    assert(drain(cur).0[0] == drain(s).0[frames@.len() as int]);
                    assert forall|i: int| 0 <= i < drain(scan(cur).0).0.len() implies
                        #[trigger] drain(scan(cur).0).0[i] == drain(s).0[frames@.len() + 1 + i] by {
                        assert(drain(scan(cur).0).0[i] == drain(cur).0[i + 1]);
                    }
                }
                frames.push(f);
            },
            None => {
                return frames;
            },
        }
    }
}

/// Appends a chunk read from the sender to `buffer`, then takes out every
/// frame now complete: the step the relay performs for each read.
pub fn ingest_chunk(buffer: &mut bytes::BytesMut, chunk: &[u8]) -> (frames: Vec<
    (FrameHeader, bytes::Bytes),
>)
    requires
        bytes_mut_contents(*old(buffer)).len() + chunk@.len() <= isize::MAX,
    ensures
        holds_frames(frames@, drain(bytes_mut_contents(*old(buffer)) + chunk@).0),
        bytes_mut_contents(*final(buffer)) == drain(bytes_mut_contents(*old(buffer)) + chunk@).1,
{
    buf_extend_from_slice(buffer, chunk);
    drain_frames(buffer)
}

} // verus!
