//! A verified library for creating and applying structural binary patches.
//!
//! A file is decomposed into fixed-size addressable units, the unit sequence is
//! normalized so position information drops out, two normalized sequences are
//! aligned positionally into change records and offset deltas, and the result
//! is framed into a digest-guarded container that can be compressed, parsed
//! back, and applied in place.

pub mod apply;
pub mod chunker;
pub mod codec;
pub mod compress;
pub mod container;
pub mod differ;
pub mod hashing;
pub mod hex;
pub mod instruction;
pub mod normalizer;
pub mod pipeline;
pub mod strutil;
