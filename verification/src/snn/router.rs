//! Routing through a spiking backend.

use vstd::prelude::*;
use crate::error::{CortexError, ErrorView};
use crate::float::{FloatUnit, adds, muls, sum_from, sums};
use crate::ieee::{NEG_ZERO, ONE, ZERO};
use crate::moe::router::{
    MoeOutput, MoeRouter, OutputView, RouterView, gate_outcome, output_view, scaled_by, vec_view,
};
use crate::moe::routing::{nan_error, reject_nan_routing_scores, route_top_k, selects};
use crate::snn::contract::{
    SnnBackend, SnnCapabilities, SnnDecoder, SnnEncoder, SnnStepOutput, SpikeCountDecoder,
};
use crate::tensor::finite::{any_nan, has_nan, softmaxes};
use crate::types::EMBEDDING_DIM;

verus! {

/// The readout of a channel, zero beyond the readouts.
pub open spec fn readout(decoded: Seq<u32>, channel: int) -> u32 {
    if 0 <= channel < decoded.len() { decoded[channel] } else { ZERO }
}

/// `r` is `gate * (1 + spikes)`.
pub open spec fn amplifies<F: FloatUnit>(gate: u32, spikes: u32, r: u32) -> bool {
    exists|t: u32| #[trigger] adds::<F>(ONE, spikes, t) && muls::<F>(gate, t, r)
}

/// `scores` amplifies every gate score by the readout of its channel.
pub open spec fn boosts<F: FloatUnit>(
    gate: Seq<u32>,
    decoded: Seq<u32>,
    scores: Seq<u32>,
) -> bool {
    &&& scores.len() == gate.len()
    &&& forall|e: int|
        0 <= e < gate.len() ==> amplifies::<F>(gate[e], readout(decoded, e), #[trigger] scores[e])
}

/// The readouts of the selected experts, in order of selection.
pub open spec fn selected_readouts(decoded: Seq<u32>, selected: Seq<usize>) -> Seq<u32> {
    Seq::new(selected.len(), |i: int| readout(decoded, selected[i] as int))
}

/// `o` routes by scores without NaN: softmax weights, the best experts, and the
/// embedding times the summed readouts of the selected experts.
pub open spec fn spike_mixes<F: FloatUnit>(
    scores: Seq<u32>,
    decoded: Seq<u32>,
    top_k: usize,
    embedding: Seq<u32>,
    o: OutputView,
) -> bool {
    &&& softmaxes::<F>(scores, o.expert_weights)
    &&& selects(scores, top_k, o.selected_experts)
    &&& exists|mass: u32| #[trigger]
        sums::<F>(NEG_ZERO, selected_readouts(decoded, o.selected_experts), mass) && scaled_by::<
            F,
        >(embedding, mass, o.hidden)
}

/// `r` is what routing gives for gate scores and the readouts of one step.
pub open spec fn spike_outcome<F: FloatUnit>(
    gate: Seq<u32>,
    decoded: Seq<u32>,
    channels: usize,
    top_k: usize,
    embedding: Seq<u32>,
    r: Result<OutputView, ErrorView>,
) -> bool {
    if decoded.len() != channels || any_nan(decoded) {
        r == Err::<OutputView, ErrorView>(ErrorView::SnnNan { stage: "decoder readout"@ })
    } else {
        exists|scores: Seq<u32>| #[trigger]
            boosts::<F>(gate, decoded, scores) && match nan_error(scores) {
                Some(e) => r == Err::<OutputView, ErrorView>(e),
                None => r matches Ok(o) && spike_mixes::<F>(scores, decoded, top_k, embedding, o),
            }
    }
}

/// Routes by gate scores and the readouts of one step.
pub fn route_spikes<F: FloatUnit>(
    gate_scores: &[u32],
    decoded: &[u32],
    channels: usize,
    top_k: usize,
    embedding: &[u32],
) -> (r: Result<MoeOutput, CortexError>)
    ensures
        spike_outcome::<F>(
            gate_scores@,
            decoded@,
            channels,
            top_k,
            embedding@,
            output_view(r),
        ),
{
    if decoded.len() != channels || has_nan(decoded) {
        return Err(CortexError::SnnNan { stage: "decoder readout" });
    }
    let mut scores: Vec<u32> = Vec::new();
    let mut e: usize = 0;
    while e < gate_scores.len()
        invariant
            e <= gate_scores@.len(),
            scores@.len() == e,
            forall|x: int|
                0 <= x < e ==> amplifies::<F>(
                    gate_scores@[x],
                    readout(decoded@, x),
                    #[trigger] scores@[x],
                ),
        decreases gate_scores@.len() - e,
    {
        let spikes: u32 = if e < decoded.len() {
            decoded[e]
        } else {
            ZERO
        };
        let t: u32 = F::add32(ONE, spikes);
        let v: u32 = F::mul32(gate_scores[e], t);
        assert(adds::<F>(ONE, readout(decoded@, e as int), t) && muls::<F>(
            gate_scores@[e as int],
            t,
            v,
        ));
        scores.push(v);
        e += 1;
    }
    assert(boosts::<F>(gate_scores@, decoded@, scores@));
    let (expert_weights, selected_experts): (Vec<u32>, Vec<usize>) = match route_top_k::<F>(
        scores.as_slice(),
        top_k,
    ) {
        Ok(p) => p,
        Err(x) => {
            return Err(x);
        },
    };
    let mut chosen: Vec<u32> = Vec::new();
    let mut i: usize = 0;
    while i < selected_experts.len()
        invariant
            i <= selected_experts@.len(),
            chosen@.len() == i,
            forall|j: int|
                0 <= j < i ==> chosen@[j] == #[trigger] selected_readouts(
                    decoded@,
                    selected_experts@,
                )[j],
        decreases selected_experts@.len() - i,
    {
        let idx: usize = selected_experts[i];
        chosen.push(
            if idx < decoded.len() {
                decoded[idx]
            } else {
                ZERO
            },
        );
        i += 1;
    }
    assert(chosen@ =~= selected_readouts(decoded@, selected_experts@));
    let mass: u32 = sum_from::<F>(NEG_ZERO, chosen.as_slice());
    let mut hidden: Vec<u32> = Vec::new();
    let mut k: usize = 0;
    while k < embedding.len()
        invariant
            k <= embedding@.len(),
            hidden@.len() == k,
            forall|j: int| 0 <= j < k ==> muls::<F>(embedding@[j], mass, #[trigger] hidden@[j]),
        decreases embedding@.len() - k,
    {
        hidden.push(F::mul32(embedding[k], mass));
        k += 1;
    }
    proof {
        assert(sums::<F>(NEG_ZERO, selected_readouts(decoded@, selected_experts@), mass)
            && scaled_by::<F>(embedding@, mass, hidden@));
        let o = OutputView {
            expert_weights: expert_weights@,
            selected_experts: selected_experts@,
            hidden: hidden@,
        };
        assert(softmaxes::<F>(scores@, o.expert_weights));
        assert(selects(scores@, top_k, o.selected_experts));
        assert(spike_mixes::<F>(scores@, decoded@, top_k, embedding@, o));
    }
    Ok(MoeOutput { expert_weights, selected_experts, hidden })
}

// ── Calls into the parts ─────────────────────────────────────────────

/// The backend reports `n` channels.
pub open spec fn reports<B: SnnBackend>(b: B, n: usize) -> bool {
    call_ensures(B::channels, (&b,), n)
}

/// Encoding `signal` through the reference `x` gives `r`.
pub open spec fn encodes<E: SnnEncoder>(
    x: &mut E,
    signal: Seq<u32>,
    n: usize,
    r: Result<Vec<u32>, CortexError>,
) -> bool {
    exists|s: &[u32]| s@ == signal && #[trigger] call_ensures(E::encode, (x, s, n), r)
}

/// A learning or a frozen step through the reference `y` gives `r`.
pub open spec fn steps<B: SnnBackend>(
    y: &mut B,
    stimulus: Seq<u32>,
    frozen: bool,
    r: Result<SnnStepOutput, CortexError>,
) -> bool {
    if frozen {
        exists|s: &[u32]| s@ == stimulus && #[trigger] call_ensures(B::step_frozen, (y, s), r)
    } else {
        exists|s: &[u32]| s@ == stimulus && #[trigger] call_ensures(B::step, (y, s), r)
    }
}

/// Decoding the output of a step gives `d`.
pub open spec fn decodes<D: SnnDecoder>(
    decoder: D,
    out: SnnStepOutput,
    n: usize,
    d: Vec<u32>,
) -> bool {
    call_ensures(D::decode, (&decoder, &out, n), d)
}

/// One encoding; the reference that was handed to the encoder is in the contract.
fn call_encode<E: SnnEncoder>(encoder: &mut E, signal: &[u32], n: usize) -> (r:
    Result<Vec<u32>, CortexError>)
    ensures
        exists|x: &mut E|
            *x == *old(encoder) && *final(x) == *final(encoder) && #[trigger] call_ensures(
                E::encode,
                (x, signal, n),
                r,
            ),
{
    encoder.encode(signal, n)
}

/// One learning step.
fn call_step<B: SnnBackend>(backend: &mut B, stimulus: &[u32]) -> (r: Result<
    SnnStepOutput,
    CortexError,
>)
    ensures
        exists|y: &mut B|
            *y == *old(backend) && *final(y) == *final(backend) && #[trigger] call_ensures(
                B::step,
                (y, stimulus),
                r,
            ),
{
    backend.step(stimulus)
}

/// One held-out step.
fn call_step_frozen<B: SnnBackend>(backend: &mut B, stimulus: &[u32]) -> (r: Result<
    SnnStepOutput,
    CortexError,
>)
    ensures
        exists|y: &mut B|
            *y == *old(backend) && *final(y) == *final(backend) && #[trigger] call_ensures(
                B::step_frozen,
                (y, stimulus),
                r,
            ),
{
    backend.step_frozen(stimulus)
}

/// One reset of a backend.
fn call_reset_backend<B: SnnBackend>(backend: &mut B)
    ensures
        exists|y: &mut B|
            *y == *old(backend) && *final(y) == *final(backend) && #[trigger] call_ensures(
                B::reset,
                (y,),
                (),
            ),
{
    backend.reset();
}

/// One reset of an encoder.
fn call_reset_encoder<E: SnnEncoder>(encoder: &mut E)
    ensures
        exists|x: &mut E|
            *x == *old(encoder) && *final(x) == *final(encoder) && #[trigger] call_ensures(
                E::reset,
                (x,),
                (),
            ),
{
    encoder.reset();
}

/// A router whose gate scores pass through a spiking backend.
///
/// Gate scores become stimuli, the backend takes one step, and its readouts
/// amplify the scores: `gate * (1 + spikes)`. A NaN gate score and a NaN
/// stimulus are refused before the backend steps. Whatever fails later has
/// consumed a step; [`SpikingMoeRouter::reset`] starts a new epoch.
pub struct SpikingMoeRouter<'a, B, E, D = SpikeCountDecoder> where
    B: SnnBackend,
    E: SnnEncoder,
    D: SnnDecoder,
 {
    router: MoeRouter<'a>,
    backend: B,
    encoder: E,
    decoder: D,
}

/// The mathematical content of a [`SpikingMoeRouter`].
pub struct SpikingView<B, E, D> {
    pub router: RouterView,
    pub backend: B,
    pub encoder: E,
    pub decoder: D,
}

impl<'a, B: SnnBackend, E: SnnEncoder, D: SnnDecoder> View for SpikingMoeRouter<'a, B, E, D> {
    type V = SpikingView<B, E, D>;

    closed spec fn view(&self) -> SpikingView<B, E, D> {
        SpikingView {
            router: self.router@,
            backend: self.backend,
            encoder: self.encoder,
            decoder: self.decoder,
        }
    }
}

/// The readouts of a step, and what routing gives for them.
pub open spec fn after_step<F: FloatUnit, B: SnnBackend, E: SnnEncoder, D: SnnDecoder>(
    after: SpikingView<B, E, D>,
    gate: Seq<u32>,
    out: SnnStepOutput,
    embedding: Seq<u32>,
    r: Result<OutputView, ErrorView>,
) -> bool {
    exists|n: usize, d: Vec<u32>| #[trigger]
        reports::<B>(after.backend, n) && #[trigger] decodes::<D>(after.decoder, out, n, d)
            && spike_outcome::<F>(gate, d@, n, after.router.top_k, embedding, r)
}

/// The references a forward pass hands to encoder and backend, and what they
/// hold when they come back.
pub struct Borrows<'x, B, E> {
    pub encoder: &'x mut E,
    pub encoder_after: E,
    pub backend: &'x mut B,
    pub backend_after: B,
}

/// The step on a stimulus without NaN, and what follows from it.
pub open spec fn after_stimulus<F: FloatUnit, B: SnnBackend, E: SnnEncoder, D: SnnDecoder>(
    before: SpikingView<B, E, D>,
    after: SpikingView<B, E, D>,
    m: Borrows<'_, B, E>,
    gate: Seq<u32>,
    stimulus: Seq<u32>,
    embedding: Seq<u32>,
    frozen: bool,
    r: Result<OutputView, ErrorView>,
) -> bool {
    &&& *m.backend == before.backend
    &&& m.backend_after == after.backend
    &&& exists|o: Result<SnnStepOutput, CortexError>| #[trigger]
        steps::<B>(m.backend, stimulus, frozen, o) && match o {
            Err(e) => r == Err::<OutputView, ErrorView>(e@),
            Ok(out) => after_step::<F, B, E, D>(after, gate, out, embedding, r),
        }
}

/// The encoding of gate scores without NaN, and what follows from it. The
/// backend steps only on a stimulus without NaN.
pub open spec fn after_gate<F: FloatUnit, B: SnnBackend, E: SnnEncoder, D: SnnDecoder>(
    before: SpikingView<B, E, D>,
    after: SpikingView<B, E, D>,
    m: Borrows<'_, B, E>,
    gate: Seq<u32>,
    embedding: Seq<u32>,
    frozen: bool,
    r: Result<OutputView, ErrorView>,
) -> bool {
    &&& *m.encoder == before.encoder
    &&& m.encoder_after == after.encoder
    &&& exists|n: usize, st: Result<Vec<u32>, CortexError>| #[trigger]
        reports::<B>(before.backend, n) && #[trigger] encodes::<E>(m.encoder, gate, n, st)
            && match st {
            Err(e) => r == Err::<OutputView, ErrorView>(e@) && after.backend == before.backend,
            Ok(v) => if any_nan(v@) {
                r == Err::<OutputView, ErrorView>(ErrorView::SnnNan { stage: "encoder stimulus"@ })
                    && after.backend == before.backend
            } else {
                after_stimulus::<F, B, E, D>(before, after, m, gate, v@, embedding, frozen, r)
            },
        }
}

/// The stages of one forward pass, in order. The parts behind a refusal are
/// untouched.
pub open spec fn passes<F: FloatUnit, B: SnnBackend, E: SnnEncoder, D: SnnDecoder>(
    before: SpikingView<B, E, D>,
    after: SpikingView<B, E, D>,
    m: Borrows<'_, B, E>,
    embedding: Seq<u32>,
    frozen: bool,
    r: Result<OutputView, ErrorView>,
) -> bool {
    &&& after.router == before.router
    &&& after.decoder == before.decoder
    &&& exists|g: Result<Seq<u32>, ErrorView>| #[trigger]
        gate_outcome::<F>(before.router, embedding, g) && match g {
            Err(e) => r == Err::<OutputView, ErrorView>(e) && after.backend == before.backend
                && after.encoder == before.encoder,
            Ok(s) => match nan_error(s) {
                Some(e) => r == Err::<OutputView, ErrorView>(e) && after.backend == before.backend
                    && after.encoder == before.encoder,
                None => after_gate::<F, B, E, D>(before, after, m, s, embedding, frozen, r),
            },
        }
}

/// A forward pass over an embedding of [`EMBEDDING_DIM`] entries; another length
/// is refused and changes nothing.
pub open spec fn advances<F: FloatUnit, B: SnnBackend, E: SnnEncoder, D: SnnDecoder>(
    before: SpikingView<B, E, D>,
    after: SpikingView<B, E, D>,
    m: Borrows<'_, B, E>,
    embedding: Seq<u32>,
    frozen: bool,
    r: Result<OutputView, ErrorView>,
) -> bool {
    if embedding.len() != EMBEDDING_DIM {
        &&& r == Err::<OutputView, ErrorView>(
            ErrorView::InputLengthMismatch {
                expected: EMBEDDING_DIM,
                got: embedding.len() as usize,
            },
        )
        &&& after == before
    } else {
        passes::<F, B, E, D>(before, after, m, embedding, frozen, r)
    }
}

/// An embedding that gating refuses, or scores as NaN, costs no backend step and
/// no encoder tick.
pub proof fn law_refused_gate_keeps_state<
    F: FloatUnit,
    B: SnnBackend,
    E: SnnEncoder,
    D: SnnDecoder,
>(
    before: SpikingView<B, E, D>,
    after: SpikingView<B, E, D>,
    m: Borrows<'_, B, E>,
    embedding: Seq<u32>,
    frozen: bool,
    r: Result<OutputView, ErrorView>,
)
    requires
        advances::<F, B, E, D>(before, after, m, embedding, frozen, r),
        forall|s: Seq<u32>| #[trigger]
            gate_outcome::<F>(before.router, embedding, Ok::<Seq<u32>, ErrorView>(s)) ==> any_nan(
                s,
            ),
    ensures
        r is Err,
        after.backend == before.backend,
        after.encoder == before.encoder,
        after.router == before.router,
{
}

/// A stimulus with a NaN costs no backend step.
pub proof fn law_nan_stimulus_keeps_backend<
    F: FloatUnit,
    B: SnnBackend,
    E: SnnEncoder,
    D: SnnDecoder,
>(
    before: SpikingView<B, E, D>,
    after: SpikingView<B, E, D>,
    m: Borrows<'_, B, E>,
    gate: Seq<u32>,
    embedding: Seq<u32>,
    frozen: bool,
    r: Result<OutputView, ErrorView>,
)
    requires
        after_gate::<F, B, E, D>(before, after, m, gate, embedding, frozen, r),
        forall|n: usize, v: Vec<u32>| #[trigger]
            encodes::<E>(m.encoder, gate, n, Ok::<Vec<u32>, CortexError>(v)) ==> any_nan(v@),
    ensures
        r is Err,
        after.backend == before.backend,
{
}

impl<'a, B: SnnBackend, E: SnnEncoder, D: SnnDecoder> SpikingMoeRouter<'a, B, E, D> {
    /// The wrapped router is well-formed.
    pub closed spec fn wf(&self) -> bool {
        self.router.wf()
    }

    /// Composes a router with a backend that has a channel for every expert.
    pub fn new(router: MoeRouter<'a>, backend: B, encoder: E, decoder: D) -> (r: Result<
        Self,
        CortexError,
    >)
        requires
            router.wf(),
        ensures
            exists|n: usize| #[trigger]
                reports::<B>(backend, n) && if n < router@.num_experts {
                    r matches Err(e) && e@ == (ErrorView::SnnChannelMismatch {
                        experts: router@.num_experts,
                        channels: n,
                    })
                } else {
                    r matches Ok(x) && x.wf() && x@ == (SpikingView {
                        router: router@,
                        backend,
                        encoder,
                        decoder,
                    })
                },
    {
        let channels: usize = backend.channels();
        assert(reports::<B>(backend, channels));
        if channels < router.num_experts() {
            return Err(
                CortexError::SnnChannelMismatch { experts: router.num_experts(), channels },
            );
        }
        Ok(SpikingMoeRouter { router, backend, encoder, decoder })
    }

    /// The forward pass over an embedding of any length that can be scored.
    fn forward_impl<F: FloatUnit>(&mut self, embedding: &[u32], frozen: bool) -> (r: Result<
        MoeOutput,
        CortexError,
    >)
        requires
            old(self).wf(),
            old(self)@.router.checkpoint is None && old(self)@.router.num_experts > 0
                ==> embedding@.len() > 0,
        ensures
            final(self).wf(),
            exists|x: &mut E, y: &mut B| #[trigger]
                passes::<F, B, E, D>(
                    old(self)@,
                    final(self)@,
                    (Borrows {
                        encoder: x,
                        encoder_after: *final(x),
                        backend: y,
                        backend_after: *final(y),
                    }),
                    embedding@,
                    frozen,
                    output_view(r),
                ),
    {
        let ghost before = self@;
        let ghost x0: &mut E = arbitrary();
        let ghost y0: &mut B = arbitrary();
        let g: Result<Vec<u32>, CortexError> = self.router.gate_scores::<F>(embedding);
        assert(gate_outcome::<F>(before.router, embedding@, vec_view(g)));
        let gate: Vec<u32> = match g {
            Ok(s) => s,
            Err(e) => {
                assert(passes::<F, B, E, D>(
                    before,
                    self@,
                    Borrows {
                        encoder: x0,
                        encoder_after: *final(x0),
                        backend: y0,
                        backend_after: *final(y0),
                    },
                    embedding@,
                    frozen,
                    Err::<OutputView, ErrorView>(e@),
                ));
                return Err(e);
            },
        };
        match reject_nan_routing_scores(gate.as_slice()) {
            Ok(_) => {},
            Err(e) => {
                assert(passes::<F, B, E, D>(
                    before,
                    self@,
                    Borrows {
                        encoder: x0,
                        encoder_after: *final(x0),
                        backend: y0,
                        backend_after: *final(y0),
                    },
                    embedding@,
                    frozen,
                    Err::<OutputView, ErrorView>(e@),
                ));
                return Err(e);
            },
        }
        let channels: usize = self.backend.channels();
        assert(reports::<B>(before.backend, channels));
        let signal: &[u32] = gate.as_slice();
        let st: Result<Vec<u32>, CortexError> = call_encode::<E>(
            &mut self.encoder,
            signal,
            channels,
        );
        let ghost x = choose|x: &mut E|
            *x == before.encoder && *final(x) == self.encoder && #[trigger] call_ensures(
                E::encode,
                (x, signal, channels),
                st,
            );
        let ghost m0 = Borrows {
            encoder: x,
            encoder_after: *final(x),
            backend: y0,
            backend_after: *final(y0),
        };
        assert(*x == before.encoder && *final(x) == self@.encoder);
        assert(self@.backend == before.backend);
        assert(encodes::<E>(x, gate@, channels, st));
        let ghost st_seen = st;
        let stimulus: Vec<u32> = match st {
            Ok(v) => v,
            Err(e) => {
                proof {
                    let r = Err::<OutputView, ErrorView>(e@);
                    assert(after_gate::<F, B, E, D>(
                        before,
                        self@,
                        m0,
                        gate@,
                        embedding@,
                        frozen,
                        r,
                    ));
                    assert(passes::<F, B, E, D>(before, self@, m0, embedding@, frozen, r));
                }
                return Err(e);
            },
        };
        assert(st_seen == Ok::<Vec<u32>, CortexError>(stimulus));
        if has_nan(stimulus.as_slice()) {
            let e: CortexError = CortexError::SnnNan { stage: "encoder stimulus" };
            proof {
                let r = Err::<OutputView, ErrorView>(e@);
                assert(e@ == (ErrorView::SnnNan { stage: "encoder stimulus"@ }));
                assert(encodes::<E>(m0.encoder, gate@, channels, Ok(stimulus)));
                assert(after_gate::<F, B, E, D>(before, self@, m0, gate@, embedding@, frozen, r));
                assert(passes::<F, B, E, D>(before, self@, m0, embedding@, frozen, r));
            }
            return Err(e);
        }
        let kick: &[u32] = stimulus.as_slice();
        let o: Result<SnnStepOutput, CortexError> = if frozen {
            call_step_frozen::<B>(&mut self.backend, kick)
        } else {
            call_step::<B>(&mut self.backend, kick)
        };
        let ghost y = if frozen {
            choose|y: &mut B|
                *y == before.backend && *final(y) == self.backend && #[trigger] call_ensures(
                    B::step_frozen,
                    (y, kick),
                    o,
                )
        } else {
            choose|y: &mut B|
                *y == before.backend && *final(y) == self.backend && #[trigger] call_ensures(
                    B::step,
                    (y, kick),
                    o,
                )
        };
        let ghost m = Borrows {
            encoder: x,
            encoder_after: *final(x),
            backend: y,
            backend_after: *final(y),
        };
        assert(*y == before.backend && *final(y) == self@.backend);
        assert(steps::<B>(y, stimulus@, frozen, o));
        let out: SnnStepOutput = match o {
            Ok(out) => out,
            Err(e) => {
                proof {
                    let r = Err::<OutputView, ErrorView>(e@);
                    assert(steps::<B>(m.backend, stimulus@, frozen, Err(e)));
                    assert(after_stimulus::<F, B, E, D>(
                        before,
                        self@,
                        m,
                        gate@,
                        stimulus@,
                        embedding@,
                        frozen,
                        r,
                    ));
                    assert(after_gate::<F, B, E, D>(
                        before,
                        self@,
                        m,
                        gate@,
                        embedding@,
                        frozen,
                        r,
                    ));
                    assert(passes::<F, B, E, D>(before, self@, m, embedding@, frozen, r));
                }
                return Err(e);
            },
        };
        let width: usize = self.backend.channels();
        assert(reports::<B>(self.backend, width));
        let decoded: Vec<u32> = self.decoder.decode(&out, width);
        assert(decodes::<D>(self.decoder, out, width, decoded));
        let r: Result<MoeOutput, CortexError> = route_spikes::<F>(
            gate.as_slice(),
            decoded.as_slice(),
            width,
            self.router.top_k(),
            embedding,
        );
        proof {
            let v = output_view(r);
            assert(after_step::<F, B, E, D>(self@, gate@, out, embedding@, v));
            assert(after_stimulus::<F, B, E, D>(
                before,
                self@,
                m,
                gate@,
                stimulus@,
                embedding@,
                frozen,
                v,
            ));
            assert(after_gate::<F, B, E, D>(before, self@, m, gate@, embedding@, frozen, v));
            assert(passes::<F, B, E, D>(before, self@, m, embedding@, frozen, v));
        }
        r
    }

    /// Routes an embedding through a learning step.
    pub fn forward<F: FloatUnit>(&mut self, embedding: &[u32]) -> (r: Result<
        MoeOutput,
        CortexError,
    >)
        requires
            old(self).wf(),
        ensures
            final(self).wf(),
            exists|x: &mut E, y: &mut B| #[trigger]
                advances::<F, B, E, D>(
                    old(self)@,
                    final(self)@,
                    (Borrows {
                        encoder: x,
                        encoder_after: *final(x),
                        backend: y,
                        backend_after: *final(y),
                    }),
                    embedding@,
                    false,
                    output_view(r),
                ),
    {
        let ghost before = self@;
        if embedding.len() != EMBEDDING_DIM {
            let e: CortexError = CortexError::InputLengthMismatch {
                expected: EMBEDDING_DIM,
                got: embedding.len(),
            };
            proof {
                let x: &mut E = arbitrary();
                let y: &mut B = arbitrary();
                let m = Borrows {
                    encoder: x,
                    encoder_after: *final(x),
                    backend: y,
                    backend_after: *final(y),
                };
                assert(advances::<F, B, E, D>(
                    before,
                    self@,
                    m,
                    embedding@,
                    false,
                    Err::<OutputView, ErrorView>(e@),
                ));
            }
            return Err(e);
        }
        let r: Result<MoeOutput, CortexError> = self.forward_impl::<F>(embedding, false);
        proof {
            let (x, y) = choose|x: &mut E, y: &mut B| #[trigger]
                passes::<F, B, E, D>(
                    before,
                    self@,
                    Borrows {
                        encoder: x,
                        encoder_after: *final(x),
                        backend: y,
                        backend_after: *final(y),
                    },
                    embedding@,
                    false,
                    output_view(r),
                );
            let m = Borrows {
                encoder: x,
                encoder_after: *final(x),
                backend: y,
                backend_after: *final(y),
            };
            assert(advances::<F, B, E, D>(before, self@, m, embedding@, false, output_view(r)));
        }
        r
    }

    /// Routes an embedding through a held-out step.
    pub fn forward_frozen<F: FloatUnit>(&mut self, embedding: &[u32]) -> (r: Result<
        MoeOutput,
        CortexError,
    >)
        requires
            old(self).wf(),
        ensures
            final(self).wf(),
            exists|x: &mut E, y: &mut B| #[trigger]
                advances::<F, B, E, D>(
                    old(self)@,
                    final(self)@,
                    (Borrows {
                        encoder: x,
                        encoder_after: *final(x),
                        backend: y,
                        backend_after: *final(y),
                    }),
                    embedding@,
                    true,
                    output_view(r),
                ),
    {
        let ghost before = self@;
        if embedding.len() != EMBEDDING_DIM {
            let e: CortexError = CortexError::InputLengthMismatch {
                expected: EMBEDDING_DIM,
                got: embedding.len(),
            };
            proof {
                let x: &mut E = arbitrary();
                let y: &mut B = arbitrary();
                let m = Borrows {
                    encoder: x,
                    encoder_after: *final(x),
                    backend: y,
                    backend_after: *final(y),
                };
                assert(advances::<F, B, E, D>(
                    before,
                    self@,
                    m,
                    embedding@,
                    true,
                    Err::<OutputView, ErrorView>(e@),
                ));
            }
            return Err(e);
        }
        let r: Result<MoeOutput, CortexError> = self.forward_impl::<F>(embedding, true);
        proof {
            let (x, y) = choose|x: &mut E, y: &mut B| #[trigger]
                passes::<F, B, E, D>(
                    before,
                    self@,
                    Borrows {
                        encoder: x,
                        encoder_after: *final(x),
                        backend: y,
                        backend_after: *final(y),
                    },
                    embedding@,
                    true,
                    output_view(r),
                );
            let m = Borrows {
                encoder: x,
                encoder_after: *final(x),
                backend: y,
                backend_after: *final(y),
            };
            assert(advances::<F, B, E, D>(before, self@, m, embedding@, true, output_view(r)));
        }
        r
    }

    /// Starts a new epoch of backend and encoder; the router is untouched.
    pub fn reset(&mut self)
        requires
            old(self).wf(),
        ensures
            final(self).wf(),
            final(self)@.router == old(self)@.router,
            final(self)@.decoder == old(self)@.decoder,
            exists|y: &mut B|
                *y == old(self)@.backend && *final(y) == final(self)@.backend
                    && #[trigger] call_ensures(B::reset, (y,), ()),
            exists|x: &mut E|
                *x == old(self)@.encoder && *final(x) == final(self)@.encoder
                    && #[trigger] call_ensures(E::reset, (x,), ()),
    {
        call_reset_backend(&mut self.backend);
        call_reset_encoder(&mut self.encoder);
    }

    /// What the backend offers.
    pub fn capabilities(&self) -> (r: SnnCapabilities)
        ensures
            call_ensures(B::capabilities, (&self@.backend,), r),
    {
        self.backend.capabilities()
    }

    pub fn router(&self) -> (r: &MoeRouter<'a>)
        requires
            self.wf(),
        ensures
            r@ == self@.router,
            r.wf(),
    {
        &self.router
    }

    pub fn backend(&self) -> (r: &B)
        ensures
            *r == self@.backend,
    {
        &self.backend
    }

    /// The backend, to tune or checkpoint it.
    pub fn backend_mut(&mut self) -> (r: &mut B)
        requires
            old(self).wf(),
        ensures
            *r == old(self)@.backend,
            final(self)@ == (SpikingView { backend: *final(r), ..old(self)@ }),
            final(self).wf(),
    {
        &mut self.backend
    }
}

} // verus!
