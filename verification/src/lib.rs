//! Shared protocol surface for the predictive-memory transport: record framing,
//! datagram reliability, the block catalog, compression codecs and the
//! cue/object predictive memory, each with machine-checked contracts.

pub mod wire;
pub mod keyed;
pub mod num;
pub mod source;
pub mod chpmt;
pub mod protocol;
pub mod datagram;
pub mod compress;
pub mod assembly;
pub mod transform;
pub mod episode;
pub mod episode_memory;
pub mod episode_completion;
pub mod schema;
pub mod consolidation;
pub mod bootstrap;
pub mod index;
pub mod tuning;
pub mod kernels;
pub mod bandit;
pub mod batch;
pub mod carrier;
pub mod catalog;
pub mod extraction;
pub mod protection;
pub mod record_zstd;
pub mod codec;
pub mod pst;
