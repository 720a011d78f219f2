//! Random-number generator capabilities.
//!
//! Two capabilities: a basic generator ([`Rng`]) that always yields a word,
//! and a secure generator ([`CryptoRng`]) that yields a word or reports an
//! [`Error`]. Neither is derived from the other; explicit bridges
//! ([`as_rng`], [`as_crng`] and their borrowing forms) convert between them,
//! so a type that implements both keeps its own implementation of each.
//! Filling a byte buffer is derived from word draws, each serialized
//! little-endian, the last one cut to the buffer's end.

pub mod basic;
pub mod bridge;
pub mod bytes;
pub mod laws;
pub mod secure;
pub mod simple;

pub use basic::{impl_fill_from_u64, impl_next_u64_from_fill, Rng};
pub use bridge::{as_crng, as_crng_ref, as_rng, as_rng_ref, AsCRng, AsCRngRef, AsRng, AsRngRef};
pub use secure::{CryptoRng, Error};
pub use simple::{CounterRng, DualRng, FailingCryptoRng, FixedCryptoRng, FixedRng, LimitedCryptoRng};
