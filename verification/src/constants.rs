//! Protocol constants of the hub.
use vstd::prelude::*;

verus! {

/// After this many milliseconds without a ping or pong from the peer, the
/// hub sends its own ping.
pub const PING_INTERVAL_MS: u64 = 18320;

/// After this many milliseconds without any inbound frame, the connection is
/// closed as idle.
pub const PING_TIMEOUT_MS: u64 = 28560;

/// Hard cap on the bytes buffered while reassembling a fragmented message.
pub const LENGTH_LIMIT: usize = 0x10_0000;

/// Longest accepted submission, in Unicode scalar values.
pub const CONTENT_LIMIT: usize = 128;

} // verus!
