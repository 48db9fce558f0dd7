//! Paillier homomorphic encryption over base-36 texts, on top of `fast-paillier`.
use vstd::prelude::*;

pub mod radix;
pub mod key_text;
pub mod paillier;
pub mod bignum;
pub mod scheme;
pub mod ops;
pub mod api;
pub mod sums;
pub mod laws;
