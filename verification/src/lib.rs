//! In-process event bus of a peer-to-peer code-collaboration node.
//!
//! The bus fans node activity out to any number of independent observers:
//! producers publish through an [`emitter::Emitter`] and never block or fail,
//! while each observer owns an [`emitter::Events`] handle over a bounded
//! queue and consumes at its own pace. A consumer that falls too far behind
//! is dropped rather than ever stalling a producer.

pub mod emitter;
pub mod events;
pub mod patch;
