use cortex_tensor::error::{CortexError, HybridError};
use cortex_tensor::float::FloatUnit;
use cortex_tensor::moe::{MoeRouter, RoutingMode, EMBEDDING_DIM};
use cortex_tensor::snn::axon_adapter::net_spikes;
use cortex_tensor::snn::router::route_spikes;
use cortex_tensor::snn::{
    AxonEncoder, RateEncoder, SnnBackend, SnnCapabilities, SnnDecoder, SnnEncoder, SnnStepOutput,
    SpikeCountDecoder, SpikingMoeRouter,
};

/// The arithmetic of the machine the tests run on.
struct Native;

impl FloatUnit for Native {
    fn add32(a: u32, b: u32) -> u32 {
        (f32::from_bits(a) + f32::from_bits(b)).to_bits()
    }
    fn sub32(a: u32, b: u32) -> u32 {
        (f32::from_bits(a) - f32::from_bits(b)).to_bits()
    }
    fn mul32(a: u32, b: u32) -> u32 {
        (f32::from_bits(a) * f32::from_bits(b)).to_bits()
    }
    fn div32(a: u32, b: u32) -> u32 {
        (f32::from_bits(a) / f32::from_bits(b)).to_bits()
    }
    fn sqrt32(a: u32) -> u32 {
        f32::from_bits(a).sqrt().to_bits()
    }
    fn exp32(a: u32) -> u32 {
        f32::from_bits(a).exp().to_bits()
    }
    fn tanh32(a: u32) -> u32 {
        f32::from_bits(a).tanh().to_bits()
    }
    fn ln32(a: u32) -> u32 {
        f32::from_bits(a).ln().to_bits()
    }
    fn cos32(a: u32) -> u32 {
        f32::from_bits(a).cos().to_bits()
    }
    fn floor32(a: u32) -> u32 {
        f32::from_bits(a).floor().to_bits()
    }
    fn ceil32(a: u32) -> u32 {
        f32::from_bits(a).ceil().to_bits()
    }
    fn count32(n: usize) -> u32 {
        (n as f32).to_bits()
    }
    fn int32(n: i32) -> u32 {
        (n as f32).to_bits()
    }
    fn index32(a: u32) -> usize {
        f32::from_bits(a) as usize
    }
    fn add64(a: u64, b: u64) -> u64 {
        (f64::from_bits(a) + f64::from_bits(b)).to_bits()
    }
    fn sub64(a: u64, b: u64) -> u64 {
        (f64::from_bits(a) - f64::from_bits(b)).to_bits()
    }
    fn mul64(a: u64, b: u64) -> u64 {
        (f64::from_bits(a) * f64::from_bits(b)).to_bits()
    }
    fn div64(a: u64, b: u64) -> u64 {
        (f64::from_bits(a) / f64::from_bits(b)).to_bits()
    }
    fn sqrt64(a: u64) -> u64 {
        f64::from_bits(a).sqrt().to_bits()
    }
    fn exp64(a: u64) -> u64 {
        f64::from_bits(a).exp().to_bits()
    }
    fn count64(n: usize) -> u64 {
        (n as f64).to_bits()
    }
    fn widen(a: u32) -> u64 {
        f64::from(f32::from_bits(a)).to_bits()
    }
    fn narrow(a: u64) -> u32 {
        (f64::from_bits(a) as f32).to_bits()
    }
    fn show32(a: u32) -> String {
        format!("{}", f32::from_bits(a))
    }
    fn fixed32(a: u32) -> String {
        format!("{:.4}", f32::from_bits(a))
    }
}

fn bits(values: &[f32]) -> Vec<u32> {
    values.iter().map(|v| v.to_bits()).collect()
}

fn floats(patterns: &[u32]) -> Vec<f32> {
    patterns.iter().map(|b| f32::from_bits(*b)).collect()
}

/// Deterministic backend. Spikes every channel
/// whose stimulus exceeds `threshold`; tracks step count to prove state
/// advances and reset works.
struct MockBackend {
    channels: usize,
    threshold: f32,
    steps: usize,
    frozen_steps: usize,
}

impl MockBackend {
    fn new(channels: usize, threshold: f32) -> Self {
        Self {
            channels,
            threshold,
            steps: 0,
            frozen_steps: 0,
        }
    }
}

impl SnnBackend for MockBackend {
    fn channels(&self) -> usize {
        self.channels
    }

    fn step(&mut self, stimulus: &[u32]) -> Result<SnnStepOutput, CortexError> {
        assert_eq!(stimulus.len(), self.channels);
        self.steps += 1;
        Ok(SnnStepOutput {
            spikes: stimulus
                .iter()
                .enumerate()
                .filter(|(_, v)| f32::from_bits(**v) > self.threshold)
                .map(|(idx, _)| idx)
                .collect(),
        })
    }

    fn step_frozen(&mut self, stimulus: &[u32]) -> Result<SnnStepOutput, CortexError> {
        assert_eq!(stimulus.len(), self.channels);
        self.frozen_steps += 1;
        Ok(SnnStepOutput { spikes: Vec::new() })
    }

    fn reset(&mut self) {
        self.steps = 0;
        self.frozen_steps = 0;
    }

    fn capabilities(&self) -> SnnCapabilities {
        SnnCapabilities {
            backend_name: "mock",
            frozen_evaluation: true,
            plasticity: true,
            caller_rng: false,
            neuromodulation: false,
        }
    }
}

fn spiking_router<'a>(backend: MockBackend) -> SpikingMoeRouter<'a, MockBackend, RateEncoder<Native>> {
    let router = MoeRouter::load_with_mode("", &[], 8, 2, RoutingMode::DenseSim)
        .ok()
        .unwrap();
    SpikingMoeRouter::new(router, backend, RateEncoder::default(), SpikeCountDecoder)
        .ok()
        .unwrap()
}

#[test]
fn rate_encoder_tiles_signal_across_channels() {
    let mut enc = RateEncoder::<Native>::with_gain(2.0f32.to_bits());
    assert_eq!(
        floats(&enc.encode(&bits(&[0.5, -1.0]), 5).unwrap()),
        vec![1.0, -2.0, 1.0, -2.0, 1.0]
    );
    assert_eq!(floats(&enc.encode(&[], 3).unwrap()), vec![0.0; 3]);
}

#[test]
fn spike_count_decoder_counts_per_channel() {
    let out = SnnStepOutput {
        spikes: vec![0, 2, 9],
    };
    assert_eq!(floats(&SpikeCountDecoder.decode(&out, 4)), vec![1.0, 0.0, 1.0, 0.0]);
}

#[test]
fn spiking_forward_routes_and_steps_backend() {
    let backend = MockBackend::new(8, 0.0);
    let mut model = spiking_router(backend);
    let mut embedding = vec![0.0f32; EMBEDDING_DIM];
    let chunk = (EMBEDDING_DIM / 8).max(1);
    embedding[3 * chunk] = f32::INFINITY;
    let out = model.forward::<Native>(&bits(&embedding)).unwrap();
    assert_eq!(out.selected_experts[0], 3);
    assert_eq!(model.backend().steps, 1);
}

#[test]
fn spiking_forward_rejects_nan_before_backend_step() {
    let backend = MockBackend::new(8, 0.0);
    let mut model = spiking_router(backend);
    let mut embedding = vec![0.0f32; EMBEDDING_DIM];
    let chunk = (EMBEDDING_DIM / 8).max(1);
    embedding[3 * chunk] = f32::NAN;
    assert!(matches!(
        model.forward::<Native>(&bits(&embedding)).unwrap_err(),
        HybridError::NanRoutingScore { expert_id: 3 }
    ));
    // Fail-closed: no tick consumed.
    assert_eq!(model.backend().steps, 0);
}

#[test]
fn constructor_rejects_fewer_channels_than_experts() {
    let router = MoeRouter::load_with_mode("", &[], 8, 2, RoutingMode::DenseSim)
        .ok()
        .unwrap();
    assert!(matches!(
        SpikingMoeRouter::new(
            router,
            MockBackend::new(4, 0.0),
            RateEncoder::<Native>::default(),
            SpikeCountDecoder
        ),
        Err(HybridError::SnnChannelMismatch {
            experts: 8,
            channels: 4
        })
    ));
}

#[test]
fn nan_stimulus_rejected_before_backend_step() {
    let router = MoeRouter::load_with_mode("", &[], 8, 2, RoutingMode::DenseSim)
        .ok()
        .unwrap();
    let mut model = SpikingMoeRouter::new(
        router,
        MockBackend::new(8, 0.0),
        RateEncoder::<Native>::with_gain(f32::NAN.to_bits()),
        SpikeCountDecoder,
    )
    .ok()
    .unwrap();
    assert!(matches!(
        model.forward::<Native>(&bits(&[1.0; EMBEDDING_DIM])).unwrap_err(),
        HybridError::SnnNan { .. }
    ));
    // Fail-closed: no tick consumed.
    assert_eq!(model.backend().steps, 0);
}

#[test]
fn forward_frozen_uses_frozen_path_and_reset_clears_state() {
    let backend = MockBackend::new(8, 0.0);
    let mut model = spiking_router(backend);
    let _ = model.forward::<Native>(&bits(&[1.0; EMBEDDING_DIM])).unwrap();
    let _ = model.forward_frozen::<Native>(&bits(&[1.0; EMBEDDING_DIM])).unwrap();
    assert_eq!(model.backend().steps, 1);
    assert_eq!(model.backend().frozen_steps, 1);
    assert!(model.capabilities().frozen_evaluation);
    model.reset();
    assert_eq!(model.backend().steps, 0);
    assert_eq!(model.backend().frozen_steps, 0);
}

#[test]
fn spiking_forward_rejects_wrong_embedding_length() {
    let backend = MockBackend::new(8, 0.0);
    let mut model = spiking_router(backend);
    assert!(matches!(
        model.forward::<Native>(&bits(&[0.0; 8])).unwrap_err(),
        HybridError::InputLengthMismatch { .. }
    ));
}

/// Refuses every step.
struct Refusing;

impl SnnBackend for Refusing {
    fn channels(&self) -> usize {
        8
    }

    fn step(&mut self, _stimulus: &[u32]) -> Result<SnnStepOutput, CortexError> {
        Err(CortexError::SnnBackend(String::from("refused")))
    }

    fn step_frozen(&mut self, _stimulus: &[u32]) -> Result<SnnStepOutput, CortexError> {
        Err(CortexError::SnnBackend(String::from("refused frozen")))
    }

    fn reset(&mut self) {}

    fn capabilities(&self) -> SnnCapabilities {
        SnnCapabilities {
            backend_name: "refusing",
            frozen_evaluation: false,
            plasticity: false,
            caller_rng: false,
            neuromodulation: false,
        }
    }
}

/// Counts its ticks and resets; refuses when it is told to.
struct Ticking {
    ticks: usize,
    refuse: bool,
}

impl SnnEncoder for Ticking {
    fn encode(&mut self, _signal: &[u32], channels: usize) -> Result<Vec<u32>, CortexError> {
        self.ticks += 1;
        if self.refuse {
            return Err(CortexError::SnnSpikeOutOfRange { channel: 9, channels });
        }
        Ok(vec![0; channels])
    }

    fn reset(&mut self) {
        self.ticks = 0;
    }
}

/// Reads too few channels.
struct Short;

impl SnnDecoder for Short {
    fn decode(&self, _output: &SnnStepOutput, channels: usize) -> Vec<u32> {
        vec![0; channels - 1]
    }
}

fn dense<'a>() -> MoeRouter<'a> {
    MoeRouter::load_with_mode("", &[], 8, 2, RoutingMode::DenseSim)
        .ok()
        .unwrap()
}

#[test]
fn backend_and_encoder_refusals_pass_through() {
    let ones = bits(&[1.0; EMBEDDING_DIM]);
    let mut model = SpikingMoeRouter::new(
        dense(),
        Refusing,
        RateEncoder::<Native>::default(),
        SpikeCountDecoder,
    )
    .ok()
    .unwrap();
    assert!(matches!(
        model.forward::<Native>(&ones),
        Err(CortexError::SnnBackend(m)) if m == "refused"
    ));
    assert!(matches!(
        model.forward_frozen::<Native>(&ones),
        Err(CortexError::SnnBackend(m)) if m == "refused frozen"
    ));
    assert_eq!(model.capabilities().backend_name, "refusing");
    assert_eq!(model.router().num_experts(), 8);

    let mut model = SpikingMoeRouter::new(
        dense(),
        MockBackend::new(8, 0.0),
        Ticking { ticks: 0, refuse: true },
        SpikeCountDecoder,
    )
    .ok()
    .unwrap();
    assert!(matches!(
        model.forward::<Native>(&ones),
        Err(CortexError::SnnSpikeOutOfRange { channel: 9, channels: 8 })
    ));
    assert_eq!(model.backend().steps, 0);
    model.backend_mut().steps = 7;
    model.reset();
    assert_eq!(model.backend().steps, 0);
}

#[test]
fn short_readouts_are_refused_after_the_step() {
    let mut model = SpikingMoeRouter::new(
        dense(),
        MockBackend::new(8, 0.0),
        Ticking { ticks: 0, refuse: false },
        Short,
    )
    .ok()
    .unwrap();
    assert!(matches!(
        model.forward::<Native>(&bits(&[1.0; EMBEDDING_DIM])),
        Err(CortexError::SnnNan { stage: "decoder readout" })
    ));
    assert_eq!(model.backend().steps, 1);
}

#[test]
fn spikes_amplify_their_experts() {
    let out = route_spikes::<Native>(
        &bits(&[1.0, 3.0, 2.0]),
        &bits(&[0.0, 0.0, 1.0]),
        3,
        2,
        &bits(&[0.5, -1.0]),
    )
    .unwrap();
    assert_eq!(out.selected_experts, &[2, 1]);
    assert_eq!(floats(&out.hidden), &[0.5, -1.0]);
    let weights = floats(&out.expert_weights);
    assert!(weights[2] > weights[1] && weights[1] > weights[0]);
    assert!(matches!(
        route_spikes::<Native>(&bits(&[1.0]), &bits(&[f32::NAN]), 1, 1, &[]),
        Err(CortexError::SnnNan { stage: "decoder readout" })
    ));
    assert!(matches!(
        route_spikes::<Native>(&bits(&[f32::INFINITY]), &bits(&[-1.0]), 1, 1, &[]),
        Err(CortexError::NanRoutingScore { expert_id: 0 })
    ));
}

#[test]
fn spike_counts_add_up() {
    let out = SnnStepOutput { spikes: vec![1, 1, 0, 1] };
    assert_eq!(floats(&SpikeCountDecoder.decode(&out, 2)), &[1.0, 3.0]);
    assert!(SpikeCountDecoder.decode(&out, 0).is_empty());
}

#[test]
fn axon_spikes_net_per_channel() {
    let spikes = [(0, true), (2, false), (0, true), (1, true), (1, false)];
    let v = floats(&net_spikes::<Native>(&spikes, 4).unwrap());
    assert_eq!(v, &[2.0, 0.0, -1.0, 0.0]);
    assert!(matches!(
        net_spikes::<Native>(&[(0, true), (5, true), (9, true)], 4),
        Err(CortexError::SnnSpikeOutOfRange { channel: 5, channels: 4 })
    ));
    let mut wrapped = AxonEncoder::new(vec![1, 2]);
    assert_eq!(wrapped.encoder().len(), 2);
    wrapped.encoder_mut().push(3);
    assert_eq!(wrapped.encoder(), &[1, 2, 3]);
}
