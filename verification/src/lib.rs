//! A succinct rank index over a packed bit vector.
//!
//! The bits live in 16-bit words. Two small arrays of cumulative counts, one
//! entry per word and one per block of 64 words, let `rank1` answer "how
//! many bits are set before position `i`" in constant time.

pub mod model;
pub mod store;
pub mod bv;
