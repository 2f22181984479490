//! What a router does with an embedding, and what loading makes of requests.

use vstd::prelude::*;
use vstd::utf8::{encode_utf8, encode_utf8_decode_utf8};
use crate::error::ErrorView;
use crate::float::{FloatUnit, counts, divs};
use crate::ieee::{NEG_ZERO, ONE, ZERO, nan};
use crate::moe::adapter::{AdapterView, first_name, resolved};
use crate::moe::checkpoint::{MetadataView, element_count};
use crate::moe::mapped::{
    CheckpointView, first_with_suffix, has_suffix, law_first_with_suffix_unique, none_with_suffix,
};
use crate::moe::mixing::{
    law_chunks_partition, law_gate_entries, weights_by_entry, weights_by_expert,
};
use crate::moe::router::{
    OutputView, RouterView, checkpoint_outcome, gate_outcome, mix_outcome, mixes, router, routes,
    uniform_output,
};
use crate::moe::routing::{
    first_nan, gates, law_nan_error_lowest, oriented, resamples, resamples_unit,
};
use crate::tensor::entries::{inner, total};
use crate::tensor::finite::{any_nan, constant, shares, unit_length};
use crate::types::RoutingMode;

verus! {

/// A dense router ranks and mixes by the scores of its embedding. Gives
/// the scores.
pub proof fn law_dense_route<F: FloatUnit>(
    v: RouterView,
    embedding: Seq<u32>,
    o: OutputView,
) -> (scores: Seq<u32>)
    requires
        v.routing_mode == RoutingMode::DenseSim,
        routes::<F>(v, embedding, Ok::<OutputView, ErrorView>(o)),
    ensures
        embedding.len() == 2048,
        gate_outcome::<F>(v, embedding, Ok::<Seq<u32>, ErrorView>(scores)),
        !any_nan(scores),
        mixes::<F>(scores, v.top_k, embedding, o),
{
    let r = Ok::<OutputView, ErrorView>(o);
    let g = choose|g: Result<Seq<u32>, ErrorView>| #[trigger]
        gate_outcome::<F>(v, embedding, g) && match g {
            Err(e) => r == Err::<OutputView, ErrorView>(e),
            Ok(s) => mix_outcome::<F>(s, v.top_k, embedding, r),
        };
    g->Ok_0
}

/// Mixing is refused exactly if a score is NaN, and names the lowest such expert.
pub proof fn law_mix_refuses_nan<F: FloatUnit>(
    scores: Seq<u32>,
    top_k: usize,
    embedding: Seq<u32>,
    r: Result<OutputView, ErrorView>,
    i: int,
)
    requires
        scores.len() <= usize::MAX,
        mix_outcome::<F>(scores, top_k, embedding, r),
    ensures
        r is Err <==> any_nan(scores),
        0 <= i < scores.len() && nan(scores[i]) && (forall|j: int|
            0 <= j < i ==> !nan(#[trigger] scores[j])) ==> r == Err::<OutputView, ErrorView>(
            ErrorView::NanRoutingScore { expert_id: i as usize },
        ),
{
    if 0 <= i < scores.len() && nan(scores[i]) && (forall|j: int|
        0 <= j < i ==> !nan(#[trigger] scores[j])) {
        assert(first_nan(scores, i));
        law_nan_error_lowest(scores, i);
    }
}

/// An embedding of another length is refused in every mode.
pub proof fn law_route_refuses_lengths<F: FloatUnit>(
    v: RouterView,
    embedding: Seq<u32>,
    r: Result<OutputView, ErrorView>,
)
    requires
        embedding.len() != 2048,
        embedding.len() <= usize::MAX,
        routes::<F>(v, embedding, r),
    ensures
        r == Err::<OutputView, ErrorView>(
            ErrorView::InputLengthMismatch { expected: 2048, got: embedding.len() as usize },
        ),
{
}

/// A uniform router weighs all experts alike, selects the first, and gives
/// zeros, whatever the embedding holds.
pub proof fn law_uniform_route<F: FloatUnit>(
    v: RouterView,
    embedding: Seq<u32>,
    o: OutputView,
) -> (p: (u32, u32))
    requires
        v.routing_mode == RoutingMode::StubUniform,
        v.num_experts > 0,
        routes::<F>(v, embedding, Ok::<OutputView, ErrorView>(o)),
    ensures
        counts::<F>(v.num_experts, p.0),
        divs::<F>(ONE, p.0, p.1),
        o.expert_weights.len() == v.num_experts,
        forall|e: int| 0 <= e < v.num_experts ==> #[trigger] o.expert_weights[e] == p.1,
        v.top_k <= v.num_experts ==> o.selected_experts.len() == v.top_k,
        forall|j: int|
            0 <= j < o.selected_experts.len() ==> #[trigger] o.selected_experts[j] == j,
        o.hidden.len() == 2048,
        forall|i: int| 0 <= i < o.hidden.len() ==> #[trigger] o.hidden[i] == ZERO,
{
    let n = v.num_experts;
    assert(uniform_output::<F>(v, o));
    let p = choose|p: u32| #[trigger]
        shares::<F>(n, p) && o.expert_weights == constant(n as nat, p);
    let c = choose|c: u32| #[trigger] counts::<F>(n, c) && divs::<F>(ONE, c, p);
    (c, p)
}

/// Under a checkpoint, gate scores are products of the routing tensor and the
/// embedding, resampled to the width of the checkpoint and divided by its norm.
/// Gives the resampled and the divided embedding and the tensor.
pub proof fn law_checkpoint_scores<F: FloatUnit>(
    v: RouterView,
    c: CheckpointView,
    a: AdapterView,
    embedding: Seq<u32>,
    scores: Seq<u32>,
) -> (t: (Seq<u32>, Seq<u32>, Seq<u32>))
    requires
        v.checkpoint == Some(c),
        v.adapter == Some(a),
        c.info(a.routing_tensor).dims.len() == 2,
        gate_outcome::<F>(v, embedding, Ok::<Seq<u32>, ErrorView>(scores)),
    ensures
        resamples::<F>(embedding, a.hidden_size, Some(t.0)),
        unit_length::<F>(t.0, t.1),
        c.singles(a.routing_tensor, v.model_path) == Ok::<Seq<u32>, ErrorView>(t.2),
        scores.len() == v.num_experts,
        t.1.len() > 0 ==> forall|e: int|
            0 <= e < v.num_experts ==> {
                let dims = c.info(a.routing_tensor).dims;
                if dims[0] == t.1.len() && dims[1] >= v.num_experts {
                    inner::<F>(
                        weights_by_entry(t.2, dims[1], e, t.1.len()),
                        t.1,
                        #[trigger] scores[e],
                    )
                } else {
                    inner::<F>(weights_by_expert(t.2, e, t.1.len()), t.1, scores[e])
                }
            },
{
    let g = Ok::<Seq<u32>, ErrorView>(scores);
    let u = choose|u: Option<Seq<u32>>| #[trigger]
        resamples_unit::<F>(embedding, a.hidden_size, u) && checkpoint_outcome::<F>(v, c, a, u, g);
    let e = u->Some_0;
    let m = choose|m: Seq<u32>| #[trigger]
        resamples::<F>(embedding, a.hidden_size, Some(m)) && unit_length::<F>(m, e);
    let w = c.singles(a.routing_tensor, v.model_path)->Ok_0;
    let dims = c.info(a.routing_tensor).dims;
    assert(gates::<F>(w, dims, v.num_experts, e, scores));
    if e.len() > 0 {
        assert forall|k: int| 0 <= k < v.num_experts implies if dims[0] == e.len() && dims[1]
            >= v.num_experts {
            inner::<F>(weights_by_entry(w, dims[1], k, e.len()), e, #[trigger] scores[k])
        } else {
            inner::<F>(weights_by_expert(w, k, e.len()), e, scores[k])
        } by {
            assert(oriented(dims, v.num_experts, e.len()));
            law_gate_entries::<F>(w, dims, v.num_experts, e, scores, k);
        }
    }
    (m, e, w)
}

/// Without a checkpoint, every expert scores by its part of the embedding: where
/// the experts divide it evenly, part `e` is the `c` entries from `e * c` on.
pub proof fn law_stub_scores<F: FloatUnit>(
    v: RouterView,
    embedding: Seq<u32>,
    scores: Seq<u32>,
    c: nat,
    e: int,
)
    requires
        v.checkpoint is None,
        gate_outcome::<F>(v, embedding, Ok::<Seq<u32>, ErrorView>(scores)),
        0 < c,
        embedding.len() == v.num_experts * c,
        0 <= e < v.num_experts,
    ensures
        scores.len() == v.num_experts,
        total::<F>(NEG_ZERO, embedding.subrange(e * c, e * c + c), scores[e]),
{
    law_chunks_partition::<F>(v.num_experts, c, embedding, scores, e);
}

/// Loading honours the counts it is asked for, within the experts there are.
pub proof fn law_load_honours_request(
    path: Seq<char>,
    b: Seq<u8>,
    num_experts: usize,
    top_k: usize,
    mode: RoutingMode,
    v: RouterView,
)
    requires
        0 < top_k <= num_experts,
        router(path, b, num_experts, top_k, mode) == Ok::<RouterView, ErrorView>(v),
    ensures
        v.num_experts == num_experts,
        v.top_k == top_k,
        v.routing_mode == mode,
        v.model_path == path,
{
}

/// Loading without counts takes those of the checkpoint.
pub proof fn law_load_takes_checkpoint(
    path: Seq<char>,
    b: Seq<u8>,
    mode: RoutingMode,
    v: RouterView,
)
    requires
        path.len() > 0,
        router(path, b, 0, 0, mode) == Ok::<RouterView, ErrorView>(v),
    ensures
        v.num_experts == v.metadata.num_experts,
        0 < v.metadata.expert_used_count <= v.num_experts ==> v.top_k
            == v.metadata.expert_used_count,
        v.adapter matches Some(a) && {
            &&& a.hidden_size == v.metadata.hidden_size
            &&& a.num_layers == v.metadata.num_layers
            &&& a.num_experts == v.metadata.num_experts
            &&& a.expert_used_count == v.metadata.expert_used_count
            &&& a.architecture == v.metadata.architecture
            &&& a.quantization == v.metadata.quantization
            &&& a.routing_tensor == v.metadata.routing_tensor_name
        },
        v.checkpoint matches Some(c) && c.bytes == b,
{
}

/// The element count of a tensor grows by every dimension: a scalar has one
/// element, and one more dimension multiplies the count by its extent.
pub proof fn law_element_count_grows(dims: Seq<usize>, d: usize, n: nat)
    requires
        element_count(dims) == Some(n),
    ensures
        element_count(Seq::<usize>::empty()) == Some(1nat),
        n * d <= usize::MAX ==> element_count(dims.push(d)) == Some((n * d) as nat),
        n * d > usize::MAX ==> element_count(dims.push(d)) is None,
{
    assert(dims.push(d).drop_last() =~= dims);
}

/// The adapter of a checkpoint takes its dimensions from the metadata of its
/// architecture, its token rows from `token_embd.weight`, or from
/// `tok_embeddings.weight` without one, and its gate from the first tensor that
/// ends in `ffn_gate_inp.weight`, or in `ffn_gate.weight` without one.
pub proof fn law_adapter_sources(m: MetadataView, c: CheckpointView, path: Seq<char>, a: AdapterView)
    requires
        resolved(m, c, path) == Ok::<AdapterView, ErrorView>(a),
    ensures
        a.architecture == m.architecture,
        a.quantization == m.quantization,
        m.numeric(m.architecture + ".embedding_length"@) == Some(a.hidden_size),
        m.numeric(m.architecture + ".block_count"@) == Some(a.num_layers),
        m.numeric(m.architecture + ".expert_count"@) == Some(a.num_experts),
        match m.numeric(m.architecture + ".expert_used_count"@) {
            Some(n) => a.expert_used_count == n,
            None => a.expert_used_count == 1,
        },
        c.has("token_embd.weight"@) ==> a.token_embedding_tensor == "token_embd.weight"@,
        !c.has("token_embd.weight"@) ==> c.has("tok_embeddings.weight"@)
            && a.token_embedding_tensor == "tok_embeddings.weight"@,
        c.info(a.token_embedding_tensor).dims.len() == 2,
        c.info(a.token_embedding_tensor).dims[0] == a.hidden_size,
        forall|n: Seq<char>|
            first_with_suffix(c.layout.tensors, "ffn_gate_inp.weight"@, n)
                ==> a.routing_tensor == n,
        none_with_suffix(c.layout.tensors, "ffn_gate_inp.weight"@) ==> forall|n: Seq<char>|
            first_with_suffix(c.layout.tensors, "ffn_gate.weight"@, n) ==> a.routing_tensor == n,
{
    assert forall|n: Seq<char>|
        first_with_suffix(c.layout.tensors, "ffn_gate_inp.weight"@, n) implies a.routing_tensor
        == n by {
        lemma_first_name(c, "ffn_gate_inp.weight"@, n);
    }
    if none_with_suffix(c.layout.tensors, "ffn_gate_inp.weight"@) {
        assert forall|n: Seq<char>|
            first_with_suffix(c.layout.tensors, "ffn_gate.weight"@, n) implies a.routing_tensor
            == n by {
            lemma_first_name(c, "ffn_gate.weight"@, n);
        }
    }
}

proof fn lemma_first_name(c: CheckpointView, suffix: Seq<char>, n: Seq<char>)
    requires
        first_with_suffix(c.layout.tensors, suffix, n),
    ensures
        first_name(c, suffix) == Some(n),
{
    assert(c.layout.tensors.contains_key(n));
    let k = choose|k: Seq<char>| first_with_suffix(c.layout.tensors, suffix, k);
    law_first_with_suffix_unique(c.layout.tensors, suffix, k, n);
}

proof fn lemma_encode_joined(a: Seq<char>, s: Seq<char>)
    ensures
        encode_utf8(a + s) == encode_utf8(a) + encode_utf8(s),
    decreases a.len(),
{
    if a.len() == 0 {
        assert(a + s =~= s);
        assert(encode_utf8(a) + encode_utf8(s) =~= encode_utf8(s));
    } else {
        lemma_encode_joined(a.drop_first(), s);
        assert((a + s).drop_first() =~= a.drop_first() + s);
        assert(encode_utf8(a + s) =~= encode_utf8(a) + encode_utf8(s));
    }
}

/// A name ends in what was appended to it.
pub proof fn law_suffix_appended(a: Seq<char>, s: Seq<char>)
    ensures
        has_suffix(a + s, s),
{
    lemma_encode_joined(a, s);
    let n = encode_utf8(a + s);
    let e = encode_utf8(s);
    assert(n.subrange(n.len() - e.len(), n.len() as int) =~= e);
}

/// A name that ends in a suffix is something followed by it, and names are no
/// longer than what they end in only if they are that.
pub proof fn law_suffix_at_the_end(n: Seq<char>, s: Seq<char>) -> (head: Seq<u8>)
    requires
        has_suffix(n, s),
    ensures
        encode_utf8(n) == head + encode_utf8(s),
        head.len() == 0 ==> n == s,
{
    let b = encode_utf8(n);
    let e = encode_utf8(s);
    let head = b.subrange(0, b.len() - e.len());
    assert(b =~= head + e);
    if head.len() == 0 {
        assert(b =~= e);
        encode_utf8_decode_utf8(n);
        encode_utf8_decode_utf8(s);
    }
    head
}

} // verus!
