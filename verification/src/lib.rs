//! Verified core of a QUIC video relay: the wire format of video frames,
//! the resynchronising frame scanner, and the relay's per-frame and
//! per-client bookkeeping.

pub mod le;
pub mod wire;
pub mod buffer;
pub mod scanner;
pub mod webtransport;
pub mod relay;
pub mod credentials;
pub mod http;
