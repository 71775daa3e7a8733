//! Base-62 codec between `u64` values and short, sortable, URL-safe codes.
//!
//! A code is a big-endian base-62 numeral over the alphabet `0`-`9`, `A`-`Z`,
//! `a`-`z`. [`encode`] writes the canonical code of a value, [`decode`] reads
//! any code back and rejects foreign characters and values beyond `u64::MAX`.
//! The contracts are stated over the mathematical model in [`numeral`]; the
//! properties that tie the two directions together are proved in [`laws`].

pub mod alphabet;
pub mod decoder;
pub mod encoder;
pub mod error;
pub mod laws;
pub mod numeral;
pub mod order;

pub use crate::decoder::decode;
pub use crate::encoder::encode;
pub use crate::error::Error;
