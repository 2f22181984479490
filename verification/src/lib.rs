//! Dense tensors, transformer blocks and a mixture-of-experts router.
//!
//! | Module | Role |
//! |--------|------|
//! | [`tensor`] | [`Tensor`], kernels and the finite-value policy |
//! | [`transformer`] | attention, feed-forward networks, blocks, a language model |
//! | [`moe`] | GGUF checkpoints and the mixture-of-experts router |
//! | [`snn`] | the contract of spiking backends and the spiking router |
//! | [`reference_json`] | the rules of the JSON fixtures |
//! | [`types`] | types shared by the router |
//! | [`error`] | [`CortexError`] |
//! | [`float`] | [`float::FloatUnit`], the arithmetic a caller plugs in |
//! | [`ieee`] | bit patterns: classes, order, widening, exact small numbers |
//! | [`random`] | uniform draws |
//! | [`text`] | decimal text of numbers and shapes |
//!
//! Every stored number is an IEEE 754 bit pattern. Classification, comparison,
//! selection and layout are decided on the bits; arithmetic goes through
//! [`float::FloatUnit`], and a contract names each operation, its operands and
//! its place in the order of evaluation.
//!
//! A `try_` function reports what it rejects; its namesake without the prefix
//! requires arguments that are accepted.

pub mod error;
pub mod float;
pub mod ieee;
pub mod moe;
pub mod random;
pub mod reference_json;
pub mod snn;
pub mod tensor;
pub mod text;
pub mod transformer;
pub mod types;

pub use error::{CortexError, HybridError};
pub use tensor::Tensor;
