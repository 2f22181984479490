//! Mixture-of-experts routing over a GGUF checkpoint.
//!
//! - [`gguf`], [`cursor`], [`checkpoint`]: the container format
//! - [`mapped`], [`dequant`]: tensor access and dequantization
//! - [`adapter`]: which tensors a checkpoint offers for routing
//! - [`routing`]: expert selection, gate scores and resampling
//! - [`router`]: the router itself
//! - [`mixing`]: what routing and gating give, by their terms
//! - [`resampling`]: what resampling reads and gives
//! - [`values`]: where the numbers of a checkpoint lie

pub mod adapter;
pub mod checkpoint;
pub mod cursor;
pub mod dequant;
pub mod gguf;
pub mod mapped;
pub mod mixing;
pub mod resampling;
pub mod router;
pub mod routes;
pub mod routing;
pub mod values;
pub mod written;

pub use crate::types::{EMBEDDING_DIM, ExtractTokenOptions, RoutingMode};
pub use router::{MoeOutput, MoeRouter, RouterMetadata};
