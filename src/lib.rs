//! Fixed-width, length-tagged bit vectors over the unsigned integer types
//! `u8`, `u16`, `u32` and `u64`.
//!
//! A [`NanoBV`] pairs a backing integer with a logical length; the bits at or
//! above the length are always zero, and every operation re-establishes that.
pub mod bits;
pub mod bitvec;
pub mod error;
pub mod internals;
pub mod laws;
pub mod ops;
pub mod word;

pub use bitvec::NanoBV;
pub use error::BvError;
pub use internals::min;
