# quic_video_relay

A QUIC video relay: a macOS sender streams H.264 frames over QUIC, the relay
frames them and hands them to Media-over-QUIC (and WebTransport) subscribers.

The verified library (`src/`) holds the logic:

- `le`: little-endian `u32`/`u64` in byte sequences, with definitions that
  Verus can evaluate on given bytes, and their round-trip lemmas.
- `wire`: the 25-byte frame header (magic, frame number, timestamp, frame
  type, payload size; little-endian), its decoding and encoding, and the
  round-trip lemmas.
- `buffer`: the `bytes` crate's `BytesMut` and `Bytes`, seen as byte
  sequences, with the contracts of the methods the scanner calls.
- `scanner`: `next_frame`, which resynchronises on the magic and hands out
  complete frames, specified by `scan`; `drain_frames` and `ingest_chunk`,
  specified by `drain`; the lemmas that encoded frames scan back whole, that
  handed-out frames are exactly what was sent, and that the frames do not
  depend on how the stream was split into reads.
- `relay`: per-frame statistics and the broadcast decision of the QUIC relay
  (the decoder configuration and keyframes always go out, delta frames only
  to registered clients).
- `webtransport`: frame priorities, per-client congestion control and the
  outgoing frame encoding of the WebTransport relay. The outgoing header uses
  the documented layout (frame type at offset 20, then the payload size), so
  the relay's own scanner reads it back; the earlier WebTransport code wrote
  the size before the type.
- `credentials`: parsing of the PEM files (through `rustls-pemfile`) and
  choice of certificate and key, ALPN list and QUIC transport settings.
- `http`: the fallback HTTP endpoint's answers.

`app/` runs the servers (tokio, quinn, rustls, rcgen, moq, wtransport) around
it; the floating-point connection-quality figures and the periodic reports
live there too.
