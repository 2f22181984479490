//! What spikes do to routing, and how signals become stimuli and readouts.

use vstd::prelude::*;
use crate::error::{CortexError, ErrorView};
use crate::float::{FloatUnit, adds, deterministic, muls, sums};
use crate::ieee::{NEG_ONE, NEG_ZERO, ONE, ZERO, nan};
use crate::moe::mixing::law_selection_grows;
use crate::moe::router::{OutputView, gate_outcome, scaled_by};
use crate::moe::routing::{nan_error, selects};
use crate::snn::axon_adapter::kicks;
use crate::snn::contract::{SnnBackend, SnnDecoder, SnnEncoder, SnnStepOutput, spike_count, tiles};
use crate::snn::router::{
    Borrows, SpikingView, advances, after_gate, after_step, after_stimulus, amplifies, boosts,
    decodes, encodes, readout, reports, selected_readouts, spike_mixes, spike_outcome, steps,
};
use crate::tensor::entries::{adds_up, law_sum_terms};
use crate::tensor::finite::{any_nan, softmaxes};
use crate::tensor::laws::law_softmax_deterministic;

verus! {

// ── Routing by spikes ────────────────────────────────────────────────

/// A successful step scores every expert by its gate score times one plus the
/// readout of its own channel, weighs and selects by these scores, and scales
/// the embedding by the summed readouts of the selected experts: the `j`-th term
/// is the readout of the `j`-th selected expert. Gives the scores and the
/// partial sums.
pub proof fn law_spike_entries<F: FloatUnit>(
    gate: Seq<u32>,
    decoded: Seq<u32>,
    channels: usize,
    top_k: usize,
    embedding: Seq<u32>,
    o: OutputView,
) -> (t: (Seq<u32>, Seq<u32>, Seq<u32>))
    requires
        gate.len() <= decoded.len(),
        spike_outcome::<F>(
            gate,
            decoded,
            channels,
            top_k,
            embedding,
            Ok::<OutputView, ErrorView>(o),
        ),
    ensures
        decoded.len() == channels,
        !any_nan(decoded),
        !any_nan(t.0),
        t.0.len() == gate.len(),
        t.1.len() == gate.len(),
        forall|e: int|
            0 <= e < gate.len() ==> adds::<F>(ONE, decoded[e], #[trigger] t.1[e]),
        forall|e: int|
            0 <= e < gate.len() ==> muls::<F>(gate[e], t.1[e], #[trigger] t.0[e]),
        softmaxes::<F>(t.0, o.expert_weights),
        selects(t.0, top_k, o.selected_experts),
        t.2.len() == o.selected_experts.len() + 1,
        t.2[0] == NEG_ZERO,
        forall|j: int|
            0 <= j < o.selected_experts.len() ==> adds::<F>(
                t.2[j],
                decoded[#[trigger] o.selected_experts[j] as int],
                t.2[j + 1],
            ),
        o.hidden.len() == embedding.len(),
        forall|i: int|
            0 <= i < embedding.len() ==> muls::<F>(
                embedding[i],
                t.2[o.selected_experts.len() as int],
                #[trigger] o.hidden[i],
            ),
{
    let scores = choose|scores: Seq<u32>| #[trigger]
        boosts::<F>(gate, decoded, scores) && match nan_error(scores) {
            Some(e) => Ok::<OutputView, ErrorView>(o) == Err::<OutputView, ErrorView>(e),
            None => Ok::<OutputView, ErrorView>(o) matches Ok(o) && spike_mixes::<F>(
                scores,
                decoded,
                top_k,
                embedding,
                o,
            ),
        };
    let factors = Seq::new(
        gate.len(),
        |e: int|
            choose|t: u32| #[trigger]
                adds::<F>(ONE, decoded[e], t) && muls::<F>(gate[e], t, scores[e]),
    );
    assert forall|e: int| 0 <= e < gate.len() implies adds::<F>(
        ONE,
        decoded[e],
        #[trigger] factors[e],
    ) && muls::<F>(gate[e], factors[e], scores[e]) by {
        assert(amplifies::<F>(gate[e], readout(decoded, e), scores[e]));
    }
    assert forall|e: int| 0 <= e < gate.len() implies muls::<F>(
        gate[e],
        factors[e],
        #[trigger] scores[e],
    ) by {
        assert(adds::<F>(ONE, decoded[e], factors[e]));
    }
    let s = o.selected_experts;
    let terms = selected_readouts(decoded, s);
    let mass = choose|mass: u32| #[trigger]
        sums::<F>(NEG_ZERO, selected_readouts(decoded, o.selected_experts), mass) && scaled_by::<
            F,
        >(embedding, mass, o.hidden);
    law_sum_terms::<F>(NEG_ZERO, terms, mass);
    let partial = choose|p: Seq<u32>| #[trigger]
        adds_up::<F>(NEG_ZERO, terms, p) && p[terms.len() as int] == mass;
    assert forall|j: int| 0 <= j < s.len() implies adds::<F>(
        partial[j],
        decoded[#[trigger] s[j] as int],
        partial[j + 1],
    ) by {
        assert(s[j] < scores.len());
        assert(adds::<F>(partial[j], terms[j], partial[j + 1]));
    }
    (scores, factors, partial)
}

/// The unit is exact on one: adding zero to it and multiplying by it change
/// nothing.
pub open spec fn exact_on_one<F: FloatUnit>() -> bool {
    &&& forall|r: u32| #[trigger] adds::<F>(ONE, ZERO, r) ==> r == ONE
    &&& forall|g: u32, r: u32| !nan(g) && #[trigger] muls::<F>(g, ONE, r) ==> r == g
}

/// A step without spikes routes by unchanged gate scores.
pub proof fn law_silent_step<F: FloatUnit>(
    gate: Seq<u32>,
    decoded: Seq<u32>,
    channels: usize,
    top_k: usize,
    embedding: Seq<u32>,
    o: OutputView,
)
    requires
        exact_on_one::<F>(),
        !any_nan(gate),
        gate.len() <= decoded.len(),
        forall|c: int| 0 <= c < decoded.len() ==> #[trigger] decoded[c] == ZERO,
        spike_outcome::<F>(
            gate,
            decoded,
            channels,
            top_k,
            embedding,
            Ok::<OutputView, ErrorView>(o),
        ),
    ensures
        softmaxes::<F>(gate, o.expert_weights),
        selects(gate, top_k, o.selected_experts),
{
    let (scores, factors, partial) = law_spike_entries::<F>(
        gate,
        decoded,
        channels,
        top_k,
        embedding,
        o,
    );
    assert forall|e: int| 0 <= e < gate.len() implies scores[e] == gate[e] by {
        assert(decoded[e] == ZERO);
        assert(adds::<F>(ONE, decoded[e], factors[e]));
        assert(muls::<F>(gate[e], factors[e], scores[e]));
        assert(!nan(gate[e]));
    }
    assert(scores =~= gate);
}

/// One expert more adds its readout to the mass. Gives both masses.
pub proof fn law_spike_one_more<F: FloatUnit>(
    scores: Seq<u32>,
    decoded: Seq<u32>,
    k: usize,
    embedding: Seq<u32>,
    a: OutputView,
    b: OutputView,
) -> (m: (u32, u32))
    requires
        deterministic::<F>(),
        !any_nan(scores),
        scores.len() <= usize::MAX,
        scores.len() <= decoded.len(),
        k < scores.len(),
        spike_mixes::<F>(scores, decoded, k, embedding, a),
        spike_mixes::<F>(scores, decoded, (k + 1) as usize, embedding, b),
    ensures
        a.expert_weights == b.expert_weights,
        b.selected_experts == a.selected_experts.push(b.selected_experts[k as int]),
        adds::<F>(m.0, decoded[b.selected_experts[k as int] as int], m.1),
        forall|i: int|
            0 <= i < embedding.len() ==> muls::<F>(embedding[i], m.0, #[trigger] a.hidden[i]),
        forall|i: int|
            0 <= i < embedding.len() ==> muls::<F>(embedding[i], m.1, #[trigger] b.hidden[i]),
{
    law_softmax_deterministic::<F>(scores, a.expert_weights, b.expert_weights);
    law_selection_grows(scores, k, a.selected_experts, b.selected_experts);
    let x = b.selected_experts[k as int];
    let (sa, sb) = (
        selected_readouts(decoded, a.selected_experts),
        selected_readouts(decoded, b.selected_experts),
    );
    let ma = choose|mass: u32| #[trigger]
        sums::<F>(NEG_ZERO, selected_readouts(decoded, a.selected_experts), mass) && scaled_by::<
            F,
        >(embedding, mass, a.hidden);
    let mb = choose|mass: u32| #[trigger]
        sums::<F>(NEG_ZERO, selected_readouts(decoded, b.selected_experts), mass) && scaled_by::<
            F,
        >(embedding, mass, b.hidden);
    assert(x < scores.len());
    assert(sb =~= sa.push(decoded[x as int]));
    crate::tensor::entries::law_sum_of_one_more::<F>(
        NEG_ZERO,
        sa,
        decoded[x as int],
        ma,
        mb,
    );
    (ma, mb)
}

/// What a successful pass went through.
pub struct PassTrace {
    pub gate: Seq<u32>,
    pub width: usize,
    pub stimulus: Vec<u32>,
    pub output: SnnStepOutput,
    pub channels: usize,
    pub decoded: Vec<u32>,
}

/// Encoder and backend are those of the router, before and after.
pub open spec fn lent<B, E, D>(
    before: SpikingView<B, E, D>,
    after: SpikingView<B, E, D>,
    m: Borrows<'_, B, E>,
) -> bool {
    &&& *m.encoder == before.encoder
    &&& m.encoder_after == after.encoder
    &&& *m.backend == before.backend
    &&& m.backend_after == after.backend
}

/// A successful pass scores the embedding, encodes the scores for the channels
/// the backend reports, steps the backend on that stimulus, decodes what the
/// step gave, and routes by scores and readouts. Router and decoder stay as they
/// are.
pub proof fn law_pass_in_order<F: FloatUnit, B: SnnBackend, E: SnnEncoder, D: SnnDecoder>(
    before: SpikingView<B, E, D>,
    after: SpikingView<B, E, D>,
    m: Borrows<'_, B, E>,
    embedding: Seq<u32>,
    frozen: bool,
    o: OutputView,
) -> (t: PassTrace)
    requires
        advances::<F, B, E, D>(
            before,
            after,
            m,
            embedding,
            frozen,
            Ok::<OutputView, ErrorView>(o),
        ),
    ensures
        embedding.len() == 2048,
        after.router == before.router,
        after.decoder == before.decoder,
        lent(before, after, m),
        gate_outcome::<F>(before.router, embedding, Ok::<Seq<u32>, ErrorView>(t.gate)),
        !any_nan(t.gate),
        reports::<B>(before.backend, t.width),
        encodes::<E>(m.encoder, t.gate, t.width, Ok::<Vec<u32>, CortexError>(t.stimulus)),
        !any_nan(t.stimulus@),
        steps::<B>(m.backend, t.stimulus@, frozen, Ok::<SnnStepOutput, CortexError>(t.output)),
        reports::<B>(after.backend, t.channels),
        decodes::<D>(before.decoder, t.output, t.channels, t.decoded),
        spike_outcome::<F>(
            t.gate,
            t.decoded@,
            t.channels,
            before.router.top_k,
            embedding,
            Ok::<OutputView, ErrorView>(o),
        ),
{
    let r = Ok::<OutputView, ErrorView>(o);
    let g = choose|g: Result<Seq<u32>, ErrorView>| #[trigger]
        gate_outcome::<F>(before.router, embedding, g) && match g {
            Err(e) => r == Err::<OutputView, ErrorView>(e) && after.backend == before.backend
                && after.encoder == before.encoder,
            Ok(s) => match nan_error(s) {
                Some(e) => r == Err::<OutputView, ErrorView>(e) && after.backend == before.backend
                    && after.encoder == before.encoder,
                None => after_gate::<F, B, E, D>(before, after, m, s, embedding, frozen, r),
            },
        };
    let gate = g->Ok_0;
    let (width, st) = choose|n: usize, st: Result<Vec<u32>, CortexError>| #[trigger]
        reports::<B>(before.backend, n) && #[trigger] encodes::<E>(m.encoder, gate, n, st)
            && match st {
            Err(e) => r == Err::<OutputView, ErrorView>(e@) && after.backend == before.backend,
            Ok(v) => if any_nan(v@) {
                r == Err::<OutputView, ErrorView>(ErrorView::SnnNan { stage: "encoder stimulus"@ })
                    && after.backend == before.backend
            } else {
                after_stimulus::<F, B, E, D>(before, after, m, gate, v@, embedding, frozen, r)
            },
        };
    let stimulus = st->Ok_0;
    let step = choose|s: Result<SnnStepOutput, CortexError>| #[trigger]
        steps::<B>(m.backend, stimulus@, frozen, s) && match s {
            Err(e) => r == Err::<OutputView, ErrorView>(e@),
            Ok(out) => after_step::<F, B, E, D>(after, gate, out, embedding, r),
        };
    let output = step->Ok_0;
    let (channels, decoded) = choose|n: usize, d: Vec<u32>| #[trigger]
        reports::<B>(after.backend, n) && #[trigger] decodes::<D>(after.decoder, output, n, d)
            && spike_outcome::<F>(gate, d@, n, after.router.top_k, embedding, r);
    PassTrace { gate, width, stimulus, output, channels, decoded }
}

// ── Stimuli ──────────────────────────────────────────────────────────

/// A rate stimulus carries every entry of the signal times the gain, in order,
/// and starts over behind the last.
pub proof fn law_rate_repeats<F: FloatUnit>(
    gain: u32,
    signal: Seq<u32>,
    channels: usize,
    stimulus: Seq<u32>,
    i: int,
)
    requires
        deterministic::<F>(),
        signal.len() > 0,
        tiles::<F>(gain, signal, channels, stimulus),
        0 <= i < channels,
    ensures
        stimulus.len() == channels,
        i < signal.len() ==> muls::<F>(signal[i], gain, stimulus[i]),
        i + signal.len() < channels ==> stimulus[i + signal.len()] == stimulus[i],
{
    let n = signal.len() as int;
    assert(muls::<F>(signal[i % n], gain, stimulus[i]));
    if i < n {
        vstd::arithmetic::div_mod::lemma_small_mod(i as nat, n as nat);
    }
    if i + n < channels {
        assert(muls::<F>(signal[(i + n) % n], gain, stimulus[i + n]));
        vstd::arithmetic::div_mod::lemma_mod_add_multiples_vanish(i, n);
        assert((n + i) % n == i % n);
    }
}

// ── Readouts ─────────────────────────────────────────────────────────

/// Counts add up: the spikes of two steps together are those of the first and
/// those of the second.
pub proof fn law_spike_counts_add(a: Seq<usize>, b: Seq<usize>, channel: int)
    ensures
        spike_count(a + b, channel) == spike_count(a, channel) + spike_count(b, channel),
    decreases b.len(),
{
    if b.len() == 0 {
        assert(a + b =~= a);
    } else {
        let ab = a + b;
        assert(ab.drop_last() =~= a + b.drop_last());
        assert(ab.last() == b.last());
        law_spike_counts_add(a, b.drop_last(), channel);
    }
}

/// A single spike counts once on its channel and nowhere else.
pub proof fn law_spike_counts_once(x: usize, channel: int)
    ensures
        spike_count(seq![x], channel) == if x == channel { 1nat } else { 0 },
{
    let s = seq![x];
    assert(s.drop_last() =~= Seq::<usize>::empty());
    assert(spike_count(s.drop_last(), channel) == 0);
    assert(s.last() == x);
}

/// Spikes of two ticks act one after the other, each on its own channel: one for
/// an excitatory, minus one for an inhibitory spike.
pub proof fn law_kicks_append(a: Seq<(usize, bool)>, b: Seq<(usize, bool)>, channel: int)
    ensures
        kicks(a + b, channel) == kicks(a, channel) + kicks(b, channel),
    decreases b.len(),
{
    if b.len() == 0 {
        assert(a + b =~= a);
        assert(kicks(a, channel) + kicks(b, channel) =~= kicks(a, channel));
    } else {
        let ab = a + b;
        assert(ab.drop_last() =~= a + b.drop_last());
        assert(ab.last() == b.last());
        law_kicks_append(a, b.drop_last(), channel);
        assert(kicks(ab, channel) =~= kicks(a, channel) + kicks(b, channel));
    }
}

/// One spike acts on its channel and on no other.
pub proof fn law_kick_of_one(x: usize, excitatory: bool, channel: int)
    ensures
        kicks(seq![(x, excitatory)], channel) == if x == channel {
            seq![if excitatory { ONE } else { NEG_ONE }]
        } else {
            seq![]
        },
{
    let s = seq![(x, excitatory)];
    assert(s.drop_last() =~= Seq::<(usize, bool)>::empty());
    assert(kicks(s.drop_last(), channel) =~= Seq::<u32>::empty());
    assert(s.last() == (x, excitatory));
    assert(kicks(s, channel) =~= if x == channel {
        seq![if excitatory { ONE } else { NEG_ONE }]
    } else {
        seq![]
    });
}

} // verus!
