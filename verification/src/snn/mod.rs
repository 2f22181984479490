//! Spiking networks behind a backend-neutral contract.
//!
//! An encoder maps gate scores to stimuli, a backend takes one step, and a
//! decoder maps its spikes to readouts. [`router::SpikingMoeRouter`] composes
//! the three with a [`crate::moe::MoeRouter`].

pub mod axon_adapter;
pub mod contract;
pub mod readout;
pub mod router;

pub use axon_adapter::AxonEncoder;
pub use contract::{
    RateEncoder, SnnBackend, SnnCapabilities, SnnDecoder, SnnEncoder, SnnStepOutput,
    SpikeCountDecoder,
};
pub use router::SpikingMoeRouter;
