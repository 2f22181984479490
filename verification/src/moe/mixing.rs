//! What routing makes of gate scores, and gate scores of an embedding.

use vstd::prelude::*;
use crate::float::{FloatUnit, accumulates, adds, deterministic, linked, muls, sums, traces};
use crate::ieee::{INFINITY, NEG_ZERO, ONE, ZERO, nan};
use crate::moe::router::{OutputView, mixes, picked, scaled_by};
use crate::moe::routing::{
    chunk_end, chunk_gates, chunk_len, chunk_start, gate_step, gates, law_selection_distinct,
    law_selection_unique, oriented, ranks_before, selects, weight_position,
};
use crate::tensor::entries::{adds_up, inner, law_sum_terms, lemma_inner_unique, products, total};
use crate::tensor::finite::{any_nan, occurrences, softmaxes};
use crate::tensor::laws::{exact_on_units, law_softmax_deterministic, law_softmax_one_hot, one_hot};

verus! {

// ── Selection ────────────────────────────────────────────────────────

/// Asking for one expert more keeps the selection and adds the best of the
/// others.
pub proof fn law_selection_grows(scores: Seq<u32>, k: usize, a: Seq<usize>, b: Seq<usize>)
    requires
        !any_nan(scores),
        scores.len() <= usize::MAX,
        k < scores.len(),
        selects(scores, k, a),
        selects(scores, (k + 1) as usize, b),
    ensures
        b == a.push(b[k as int]),
        !a.contains(b[k as int]),
        forall|e: int|
            0 <= e < scores.len() && !b.contains(e as usize) ==> #[trigger] ranks_before(
                scores,
                b[k as int] as int,
                e,
            ),
{
    let c = b.take(k as int);
    assert(b.len() == k + 1);
    assert forall|p: int, q: int| 0 <= p < q < c.len() implies ranks_before(
        scores,
        #[trigger] c[p] as int,
        #[trigger] c[q] as int,
    ) by {
        assert(ranks_before(scores, b[p] as int, b[q] as int));
    }
    assert forall|p: int, e: int|
        0 <= p < c.len() && 0 <= e < scores.len() && !c.contains(
            e as usize,
        ) implies #[trigger] ranks_before(scores, c[p] as int, e) by {
        if b.contains(e as usize) {
            let q = choose|q: int| 0 <= q < b.len() && b[q] == e as usize;
            if q < k {
                assert(c[q] == e as usize);
            }
            assert(ranks_before(scores, b[p] as int, b[q] as int));
        } else {
            assert(ranks_before(scores, b[p] as int, e));
        }
    }
    assert forall|p: int| 0 <= p < c.len() implies (#[trigger] c[p]) < scores.len() by {
        assert(b[p] < scores.len());
    }
    assert(selects(scores, k, c));
    law_selection_unique(scores, k, a, c);
    assert(b =~= c.push(b[k as int]));
    if a.contains(b[k as int]) {
        let q = choose|q: int| 0 <= q < a.len() && a[q] == b[k as int];
        law_selection_distinct(scores, (k + 1) as usize, b, q, k as int);
    }
}

// ── Mixing ───────────────────────────────────────────────────────────

/// Negative zero adds nothing.
pub open spec fn neutral_negative_zero<F: FloatUnit>() -> bool {
    forall|x: u32, r: u32| !nan(x) && #[trigger] adds::<F>(NEG_ZERO, x, r) ==> r == x
}

/// Routing scales the embedding by the summed weights of the selected experts:
/// the `j`-th term is the weight of the `j`-th selected expert. Gives the
/// partial sums.
pub proof fn law_mix_entries<F: FloatUnit>(
    scores: Seq<u32>,
    top_k: usize,
    embedding: Seq<u32>,
    o: OutputView,
) -> (partial: Seq<u32>)
    requires
        mixes::<F>(scores, top_k, embedding, o),
    ensures
        softmaxes::<F>(scores, o.expert_weights),
        selects(scores, top_k, o.selected_experts),
        partial.len() == o.selected_experts.len() + 1,
        partial[0] == NEG_ZERO,
        forall|j: int|
            0 <= j < o.selected_experts.len() ==> adds::<F>(
                partial[j],
                o.expert_weights[#[trigger] o.selected_experts[j] as int],
                partial[j + 1],
            ),
        o.hidden.len() == embedding.len(),
        forall|i: int|
            0 <= i < embedding.len() ==> muls::<F>(
                embedding[i],
                partial[o.selected_experts.len() as int],
                #[trigger] o.hidden[i],
            ),
{
    let terms = picked(o.expert_weights, o.selected_experts);
    let mass = choose|mass: u32| #[trigger]
        sums::<F>(NEG_ZERO, picked(o.expert_weights, o.selected_experts), mass) && scaled_by::<F>(
            embedding,
            mass,
            o.hidden,
        );
    law_sum_terms::<F>(NEG_ZERO, terms, mass);
    let partial = choose|p: Seq<u32>| #[trigger]
        adds_up::<F>(NEG_ZERO, terms, p) && p[terms.len() as int] == mass;
    assert forall|j: int| 0 <= j < o.selected_experts.len() implies adds::<F>(
        partial[j],
        o.expert_weights[#[trigger] o.selected_experts[j] as int],
        partial[j + 1],
    ) by {
        assert(adds::<F>(partial[j], terms[j], partial[j + 1]));
    }
    partial
}

/// One expert more adds its weight to the mass: the outputs for `k` and `k + 1`
/// experts have the same weights, the second selects one expert more, and scales
/// the embedding by the mass of the first plus the weight of that expert. Gives
/// both masses.
pub proof fn law_mix_one_more<F: FloatUnit>(
    scores: Seq<u32>,
    k: usize,
    embedding: Seq<u32>,
    a: OutputView,
    b: OutputView,
) -> (m: (u32, u32))
    requires
        deterministic::<F>(),
        !any_nan(scores),
        scores.len() <= usize::MAX,
        k < scores.len(),
        mixes::<F>(scores, k, embedding, a),
        mixes::<F>(scores, (k + 1) as usize, embedding, b),
    ensures
        a.expert_weights == b.expert_weights,
        b.selected_experts == a.selected_experts.push(b.selected_experts[k as int]),
        !a.selected_experts.contains(b.selected_experts[k as int]),
        adds::<F>(m.0, b.expert_weights[b.selected_experts[k as int] as int], m.1),
        forall|i: int|
            0 <= i < embedding.len() ==> muls::<F>(embedding[i], m.0, #[trigger] a.hidden[i]),
        forall|i: int|
            0 <= i < embedding.len() ==> muls::<F>(embedding[i], m.1, #[trigger] b.hidden[i]),
{
    let pa = law_mix_entries::<F>(scores, k, embedding, a);
    let pb = law_mix_entries::<F>(scores, (k + 1) as usize, embedding, b);
    law_softmax_deterministic::<F>(scores, a.expert_weights, b.expert_weights);
    law_selection_grows(scores, k, a.selected_experts, b.selected_experts);
    lemma_same_partial::<F>(a, b, pa, pb, k as int);
    assert(adds::<F>(
        pb[k as int],
        b.expert_weights[b.selected_experts[k as int] as int],
        pb[k + 1],
    ));
    (pa[k as int], pb[k + 1])
}

proof fn lemma_same_partial<F: FloatUnit>(
    a: OutputView,
    b: OutputView,
    pa: Seq<u32>,
    pb: Seq<u32>,
    j: int,
)
    requires
        deterministic::<F>(),
        a.expert_weights == b.expert_weights,
        a.selected_experts.len() <= b.selected_experts.len(),
        forall|i: int|
            0 <= i < a.selected_experts.len() ==> #[trigger] a.selected_experts[i]
                == b.selected_experts[i],
        pa[0] == pb[0],
        forall|i: int|
            0 <= i < a.selected_experts.len() ==> adds::<F>(
                pa[i],
                a.expert_weights[#[trigger] a.selected_experts[i] as int],
                pa[i + 1],
            ),
        forall|i: int|
            0 <= i < b.selected_experts.len() ==> adds::<F>(
                pb[i],
                b.expert_weights[#[trigger] b.selected_experts[i] as int],
                pb[i + 1],
            ),
        0 <= j <= a.selected_experts.len(),
    ensures
        pa[j] == pb[j],
    decreases j,
{
    if j > 0 {
        lemma_same_partial::<F>(a, b, pa, pb, j - 1);
        let e = a.selected_experts[j - 1];
        assert(b.selected_experts[j - 1] == e);
        assert(adds::<F>(pa[j - 1], a.expert_weights[e as int], pa[j]));
        assert(adds::<F>(pb[j - 1], b.expert_weights[e as int], pb[j]));
    }
}

/// A single `+Inf` score carries the whole mass: every entry of the output is
/// the embedding times one, however many experts are selected.
pub proof fn law_mix_one_infinite<F: FloatUnit>(
    scores: Seq<u32>,
    k: int,
    top_k: usize,
    embedding: Seq<u32>,
    o: OutputView,
    i: int,
)
    requires
        exact_on_units::<F>(),
        neutral_negative_zero::<F>(),
        !any_nan(scores),
        scores.len() <= usize::MAX,
        0 <= k < scores.len(),
        scores[k] == INFINITY,
        occurrences(scores, INFINITY) == 1,
        top_k >= 1,
        mixes::<F>(scores, top_k, embedding, o),
        0 <= i < embedding.len(),
    ensures
        o.selected_experts[0] == k,
        muls::<F>(embedding[i], ONE, o.hidden[i]),
{
    let partial = law_mix_entries::<F>(scores, top_k, embedding, o);
    let s = o.selected_experts;
    law_softmax_one_hot::<F>(scores, k, o.expert_weights);
    assert(s.len() >= 1);
    assert(s[0] == k) by {
        if s[0] != k {
            assert forall|e: int| 0 <= e < scores.len() && e != k implies !ranks_before(
                scores,
                e,
                k,
            ) by {
                assert(!nan(scores[e]) && !nan(scores[k]));
                if scores[e] == INFINITY {
                    lemma_two_occurrences(scores, e, k);
                }
            }
            if s.contains(k as usize) {
                let q = choose|q: int| 0 <= q < s.len() && s[q] == k as usize;
                assert(ranks_before(scores, s[0] as int, s[q] as int));
            } else {
                assert(ranks_before(scores, s[0] as int, k));
            }
        }
    }
    lemma_mass_one::<F>(scores, k, top_k, o, partial, s.len() as int);
}

proof fn lemma_mass_one<F: FloatUnit>(
    scores: Seq<u32>,
    k: int,
    top_k: usize,
    o: OutputView,
    partial: Seq<u32>,
    j: int,
)
    requires
        exact_on_units::<F>(),
        neutral_negative_zero::<F>(),
        selects(scores, top_k, o.selected_experts),
        o.expert_weights == one_hot(scores.len(), k),
        o.selected_experts.len() >= 1,
        o.selected_experts[0] == k,
        partial[0] == NEG_ZERO,
        forall|i: int|
            0 <= i < o.selected_experts.len() ==> adds::<F>(
                partial[i],
                o.expert_weights[#[trigger] o.selected_experts[i] as int],
                partial[i + 1],
            ),
        1 <= j <= o.selected_experts.len(),
    ensures
        partial[j] == ONE,
    decreases j,
{
    let s = o.selected_experts;
    let e = s[j - 1];
    assert(e < scores.len());
    assert(adds::<F>(partial[j - 1], o.expert_weights[e as int], partial[j]));
    if j == 1 {
        assert(o.expert_weights[e as int] == ONE);
    } else {
        lemma_mass_one::<F>(scores, k, top_k, o, partial, j - 1);
        law_selection_distinct(scores, top_k, s, 0, j - 1);
        assert(o.expert_weights[e as int] == ZERO);
    }
}

/// A pattern at two places occurs more than once.
proof fn lemma_two_occurrences(s: Seq<u32>, a: int, b: int)
    requires
        0 <= a < s.len(),
        0 <= b < s.len(),
        a != b,
        s[a] == INFINITY,
        s[b] == INFINITY,
    ensures
        occurrences(s, INFINITY) >= 2,
    decreases s.len(),
{
    let t = s.drop_last();
    let last = s.len() - 1;
    if a < last && b < last {
        assert(t[a] == s[a] && t[b] == s[b]);
        lemma_two_occurrences(t, a, b);
    } else if a < last {
        assert(t[a] == s[a]);
        crate::tensor::laws::lemma_occurrences_present(t, INFINITY, a);
    } else {
        assert(t[b] == s[b]);
        crate::tensor::laws::lemma_occurrences_present(t, INFINITY, b);
    }
}

// ── Gate scores ──────────────────────────────────────────────────────

/// The weights of an expert in a tensor with one row per embedding entry.
pub open spec fn weights_by_entry(weights: Seq<u32>, cols: usize, e: int, hidden: nat) -> Seq<u32> {
    Seq::new(hidden, |d: int| weights[d * cols + e])
}

/// The weights of an expert in a tensor with one row per expert.
pub open spec fn weights_by_expert(weights: Seq<u32>, e: int, hidden: nat) -> Seq<u32> {
    Seq::new(hidden, |d: int| weights[e * hidden + d])
}

/// A gate score is the product of the weights of its expert and the embedding:
/// column `e` of a tensor with a row per entry, row `e` of one with a row per
/// expert.
pub proof fn law_gate_entries<F: FloatUnit>(
    weights: Seq<u32>,
    dims: Seq<usize>,
    experts: usize,
    embedding: Seq<u32>,
    scores: Seq<u32>,
    e: int,
)
    requires
        dims.len() == 2,
        oriented(dims, experts, embedding.len()),
        gates::<F>(weights, dims, experts, embedding, scores),
        0 <= e < experts,
    ensures
        scores.len() == experts,
        dims[0] == embedding.len() && dims[1] >= experts ==> inner::<F>(
            weights_by_entry(weights, dims[1], e, embedding.len()),
            embedding,
            scores[e],
        ),
        !(dims[0] == embedding.len() && dims[1] >= experts) ==> inner::<F>(
            weights_by_expert(weights, e, embedding.len()),
            embedding,
            scores[e],
        ),
{
    let n = embedding.len();
    let w = if dims[0] == n && dims[1] >= experts {
        weights_by_entry(weights, dims[1], e, n)
    } else {
        weights_by_expert(weights, e, n)
    };
    let step = gate_step::<F>(weights, dims, e, experts, embedding);
    let trace = choose|t: Seq<u32>| #[trigger] traces(step, ZERO, n, t) && t[n as int] == scores[e];
    let terms = Seq::new(
        n,
        |d: int|
            choose|t: u32| #[trigger]
                muls::<F>(w[d], embedding[d], t) && adds::<F>(trace[d], t, trace[d + 1]),
    );
    assert forall|d: int| 0 <= d < n implies muls::<F>(w[d], embedding[d], #[trigger] terms[d])
        && adds::<F>(trace[d], terms[d], trace[d + 1]) by {
        assert(linked(step, trace, d));
        assert(w[d] == weights[weight_position(dims, e, d, experts, n)->Some_0]);
        assert(accumulates::<F>(w[d], embedding[d], trace[d], trace[d + 1]));
    }
    assert(products::<F>(w, embedding, terms));
    assert(adds_up::<F>(ZERO, terms, trace));
    assert(total::<F>(ZERO, terms, scores[e]));
}

/// The two orientations are transposes of each other: a tensor and its transpose
/// give the same scores.
pub proof fn law_gate_transposed<F: FloatUnit>(
    w1: Seq<u32>,
    w2: Seq<u32>,
    cols: usize,
    experts: usize,
    embedding: Seq<u32>,
    s1: Seq<u32>,
    s2: Seq<u32>,
    e: int,
)
    requires
        deterministic::<F>(),
        embedding.len() <= usize::MAX,
        experts <= cols,
        cols != embedding.len(),
        forall|d: int, c: int|
            0 <= d < embedding.len() && 0 <= c < cols ==> #[trigger] w1[d * cols + c] == w2[c
                * embedding.len() + d],
        gates::<F>(w1, seq![embedding.len() as usize, cols], experts, embedding, s1),
        gates::<F>(w2, seq![cols, embedding.len() as usize], experts, embedding, s2),
        0 <= e < experts,
    ensures
        s1[e] == s2[e],
{
    let n = embedding.len();
    law_gate_entries::<F>(w1, seq![n as usize, cols], experts, embedding, s1, e);
    law_gate_entries::<F>(w2, seq![cols, n as usize], experts, embedding, s2, e);
    let a = weights_by_entry(w1, cols, e, n);
    let b = weights_by_expert(w2, e, n);
    assert forall|d: int| 0 <= d < n implies a[d] == b[d] by {
        assert(w1[d * cols + e] == w2[e * n + d]);
    }
    assert(a =~= b);
    lemma_inner_unique::<F>(a, embedding, s1[e], s2[e]);
}

/// Without a checkpoint, experts that divide the embedding evenly each sum their
/// own part of it: parts of one length, side by side, the last ending with the
/// embedding.
pub proof fn law_chunks_partition<F: FloatUnit>(
    experts: usize,
    c: nat,
    embedding: Seq<u32>,
    scores: Seq<u32>,
    e: int,
)
    requires
        0 < experts,
        0 < c,
        embedding.len() == experts * c,
        chunk_gates::<F>(experts, embedding, scores),
        0 <= e < experts,
    ensures
        0 <= e * c,
        e * c + c <= embedding.len(),
        total::<F>(NEG_ZERO, embedding.subrange(e * c, e * c + c), scores[e]),
{
    let w = embedding.len();
    let n = experts as int;
    crate::tensor::rows::lemma_row_bounds(n, c as int, e);
    assert(w / experts as nat == c) by {
        vstd::arithmetic::div_mod::lemma_div_multiples_vanish(c as int, n);
        assert(n * c == c * n) by (nonlinear_arith);
    }
    assert(chunk_len(experts, w) == c);
    assert((e * c) % (w as int) == e * c) by {
        vstd::arithmetic::div_mod::lemma_small_mod((e * c) as nat, w);
    }
    assert(chunk_start(experts, w, e) == e * c);
    assert(chunk_end(experts, w, e) == e * c + c);
    law_sum_terms::<F>(NEG_ZERO, embedding.subrange(e * c, e * c + c), scores[e]);
}

} // verus!
