//! Transport-layer primitives for a peer-to-peer broadcast network.
//!
//! Three independent components, each fully specified and verified:
//!
//! - [`frame`]: length-prefixed message framing over a byte stream, as an
//!   incremental (sans-io) encoder/decoder that handles partial reads,
//!   pipelining, size bounds and clean end-of-stream detection.
//! - [`dialer`]: bookkeeping for a deduplicated, cancellable set of
//!   outbound connection attempts; the asynchronous race itself is run by
//!   the embedding application, which feeds completions back in.
//! - [`timers`]: a multiplexer of absolute deadlines carrying opaque
//!   payloads, with a cached earliest wake-up and a batched drain.
//!
//! Beside those stand the wire-format helpers the surrounding project
//! needs: a varint-prefixed request/response protocol ([`protocol`]), a
//! CBOR link scanner ([`cbor`]), a NAT-PMP response decoder ([`natpmp`])
//! and byte-counting stream adapters ([`tracking`]).

use vstd::prelude::*;

pub mod cbor;
pub mod dialer;
pub mod frame;
pub mod natpmp;
pub mod protocol;
pub mod timers;
pub mod tracking;

pub use dialer::Dialer;
pub use frame::FrameError;
pub use frame::FrameReader;
pub use frame::ReadOutcome;
pub use frame::write_message;
pub use timers::TimerMap;
pub use timers::Timers;
pub use tracking::ConcatenateSliceWriter;
pub use tracking::TrackingReader;
pub use tracking::TrackingWriter;

verus! {

} // verus!
