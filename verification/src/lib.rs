//! Deterministic visual hashing: an input string is folded into a seed, the
//! seed drives an xorshift128 stream, and the stream fixes every parameter of
//! a closed parametric curve and of the triangle passes drawn over it. The
//! whole decision core is exact integer arithmetic and is verified here; only
//! the final floating-point curve evaluation and rendering live outside.

pub mod compose;
pub mod plan;
pub mod pool;
pub mod prng;
