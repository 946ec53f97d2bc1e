//! Extended formatting helpers: a configurable hex-dump renderer for byte
//! buffers, with a trait for dumping primitive values by their little-endian
//! byte representation.

pub mod hexdump;

pub use hexdump::AsHexdump;
pub use hexdump::Hexdump;
