//! Small types shared by the router.

use vstd::prelude::*;

verus! {

/// Width of the dense embedding a router takes.
pub const EMBEDDING_DIM: usize = 2048;

/// What happens to a token row after it is extracted from a checkpoint.
#[derive(Debug, Clone, Copy, PartialEq, Eq)]
pub struct ExtractTokenOptions {
    /// Resample the row to this length; `None` keeps the checkpoint's width.
    pub target_dim: Option<usize>,
    /// Divide by the Euclidean norm after resampling.
    pub l2_normalize: bool,
}

impl Default for ExtractTokenOptions {
    fn default() -> (r: Self)
        ensures
            r == (ExtractTokenOptions { target_dim: None, l2_normalize: false }),
    {
        ExtractTokenOptions { target_dim: None, l2_normalize: false }
    }
}

impl ExtractTokenOptions {
    /// Resampled to [`EMBEDDING_DIM`] and normalized: ready for a router.
    pub fn for_projector_forward() -> (r: Self)
        ensures
            r == (ExtractTokenOptions { target_dim: Some(EMBEDDING_DIM), l2_normalize: true }),
    {
        ExtractTokenOptions { target_dim: Some(EMBEDDING_DIM), l2_normalize: true }
    }
}

/// How a router picks experts.
#[derive(Debug, Clone, Copy, PartialEq, Eq)]
pub enum RoutingMode {
    /// Uniform weights, whatever the embedding.
    StubUniform,
    /// Gate scores and top-k selection.
    DenseSim,
}

impl Default for RoutingMode {
    fn default() -> (r: Self)
        ensures
            r == RoutingMode::DenseSim,
    {
        RoutingMode::DenseSim
    }
}

} // verus!
