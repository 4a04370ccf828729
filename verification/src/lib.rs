//! A pixel-region codec: hides an arbitrary byte payload inside the unused
//! ("void") texture regions of a fixed 64x64 RGBA pixel buffer and recovers
//! it losslessly later.
//!
//! The void pixels are enumerated in a fixed order (`geometry`); the payload
//! length lives in a reserved marker pixel, and padding comes from a
//! pseudo-random filler seeded by hashing the carrier's own cleared bytes
//! (`filler`); `codec` ties these together into embed, extract and clear
//! operations over a caller-owned `buffer::PixelBuffer`, and `laws` states
//! and proves the codec's guarantees.
#![verifier::loop_isolation(false)]

pub mod buffer;
pub mod cli;
pub mod codec;
pub mod filler;
pub mod geometry;
pub mod laws;
