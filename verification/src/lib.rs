//! ARM CoreSight TPIU (Trace Port Interface Unit) frame demultiplexer.
//!
//! The Trace Port Interface Unit multiplexes several on-chip trace sources
//! into a stream of fixed 16-byte frames, delimited by a 4-byte sync
//! pattern.  This crate reconstructs the original per-channel byte streams
//! from a raw captured byte stream: it finds frame alignment, validates
//! candidate frames against a table of expected channel IDs, recovers from
//! desynchronization, and demultiplexes validated frames into per-channel
//! data packets.

pub mod codec;
pub mod demux;
pub mod frame;
pub mod ingest;
pub mod regs;
pub mod state;
