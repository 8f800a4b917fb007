//! Verified control logic of an adapter-scaled quantized llama model: the
//! causal masks and their memo table, the rotary position window checks,
//! grouped-query head layout, token routing for mixture-of-experts blocks,
//! and the key/value cache arenas of the two-pass forward protocol.
//!
//! The numeric kernels (matrix products, softmax, rotations) run on tensors
//! outside this crate; the functions here decide what those kernels are
//! handed and keep the bookkeeping that surrounds them.
pub mod cache;
pub mod error;
pub mod mask;
pub mod rotary;
pub mod routing;
pub mod shape;
pub mod step;
pub mod tensors;
