//! A fixed-capacity bitset whose chunks follow a fixed, little-endian bit
//! numbering: bit `i` of the set is bit `i % 32` of chunk `i / 32`, and the
//! unused high bits of the last chunk are always zero.

pub mod bits;
pub mod bitset;

pub use bitset::BitSet;
