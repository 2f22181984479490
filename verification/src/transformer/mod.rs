//! Decoder-only transformer layers.

pub mod attention;
pub mod block;
pub mod causal;
pub mod causal_model;
pub mod composition;
pub mod entries;
pub mod heads;
pub mod inventory;
pub mod laws;
pub mod linear;
pub mod model;
pub mod relations;

pub use attention::MultiHeadAttention;
pub use block::TransformerBlock;
pub use model::{TransformerConfig, TransformerLM};
