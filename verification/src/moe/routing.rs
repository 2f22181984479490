//! Routing: expert selection, gate scores and embedding resampling.
//!
//! Experts are ranked by score, highest first, and by id among equals. A NaN
//! score is refused, infinities rank above and below every finite score, and
//! the two zeros are equal. Raw scores are ranked, not softmax weights, which
//! may round distinct scores together.

use vstd::prelude::*;
use vstd::slice::{slice_subrange, slice_to_vec};
use vstd::string::StringExecFns;
use crate::error::{CortexError, ErrorView};
use crate::float::{
    FloatUnit, accumulates, adds, ceils, counts, divs, floors, indexes, lemma_reaches_start,
    lemma_reaches_step, muls, reaches, subs, sum_from, sums,
};
use crate::ieee::{
    INFINITY, NEG_INFINITY, NEG_ZERO, ONE, ZERO, above, finite, is_above, is_nan, nan, pick_smaller,
    rank, smaller,
};
use crate::moe::checkpoint::GgufTensorInfo;
use crate::moe::mapped::{CheckpointView, MappedGgufCheckpoint};
use crate::tensor::means;
use crate::tensor::finite::{any_nan, l2_normalize, softmax_row, softmaxes, unit_length};
use crate::tensor::rows::{lemma_entry_bounds, lemma_entry_position};
use crate::text::{bracketed, decimal, size_text, sizes, sizes_text};
use crate::types::{EMBEDDING_DIM, ExtractTokenOptions};

verus! {

// ── Selection ────────────────────────────────────────────────────────

/// Expert `a` ranks before expert `b`.
pub open spec fn ranks_before(scores: Seq<u32>, a: int, b: int) -> bool {
    above(scores[a], scores[b]) || (!above(scores[b], scores[a]) && a < b)
}

/// `selected` holds the `top_k` experts that rank first, in order of rank.
pub open spec fn selects(scores: Seq<u32>, top_k: usize, selected: Seq<usize>) -> bool {
    &&& selected.len() == if top_k < scores.len() { top_k as nat } else { scores.len() }
    &&& forall|p: int| 0 <= p < selected.len() ==> (#[trigger] selected[p]) < scores.len()
    &&& forall|p: int, q: int|
        0 <= p < q < selected.len() ==> ranks_before(
            scores,
            #[trigger] selected[p] as int,
            #[trigger] selected[q] as int,
        )
    &&& forall|p: int, e: int|
        0 <= p < selected.len() && 0 <= e < scores.len() && !selected.contains(e as usize)
            ==> #[trigger] ranks_before(scores, selected[p] as int, e)
}

/// `i` is the lowest expert whose score is NaN.
pub open spec fn first_nan(scores: Seq<u32>, i: int) -> bool {
    &&& 0 <= i < scores.len()
    &&& nan(scores[i])
    &&& forall|j: int| 0 <= j < i ==> !nan(#[trigger] scores[j])
}

/// Why scores cannot be ranked.
pub open spec fn nan_error(scores: Seq<u32>) -> Option<ErrorView> {
    if any_nan(scores) {
        Some(
            ErrorView::NanRoutingScore {
                expert_id: (choose|i: int| first_nan(scores, i)) as usize,
            },
        )
    } else {
        None
    }
}

/// The order is asymmetric.
proof fn lemma_before_asymmetric(scores: Seq<u32>, a: int, b: int)
    ensures
        !(ranks_before(scores, a, b) && ranks_before(scores, b, a)),
{
}

/// The order is transitive on scores without NaN.
proof fn lemma_before_transitive(scores: Seq<u32>, a: int, b: int, c: int)
    requires
        !any_nan(scores),
        0 <= a < scores.len(),
        0 <= b < scores.len(),
        0 <= c < scores.len(),
        ranks_before(scores, a, b),
        ranks_before(scores, b, c),
    ensures
        ranks_before(scores, a, c),
{
    assert(!nan(scores[a]) && !nan(scores[b]) && !nan(scores[c]));
}

/// The selection is a function of the scores and the count: two selections
/// from the same scores are equal.
pub proof fn law_selection_unique(
    scores: Seq<u32>,
    top_k: usize,
    a: Seq<usize>,
    b: Seq<usize>,
)
    requires
        !any_nan(scores),
        scores.len() <= usize::MAX,
        selects(scores, top_k, a),
        selects(scores, top_k, b),
    ensures
        a == b,
{
    lemma_selection_prefix(scores, top_k, a, b, a.len() as int);
    assert(a =~= b);
}

proof fn lemma_selection_prefix(
    scores: Seq<u32>,
    top_k: usize,
    a: Seq<usize>,
    b: Seq<usize>,
    n: int,
)
    requires
        !any_nan(scores),
        scores.len() <= usize::MAX,
        selects(scores, top_k, a),
        selects(scores, top_k, b),
        0 <= n <= a.len(),
    ensures
        forall|p: int| 0 <= p < n ==> a[p] == b[p],
    decreases n,
{
    if n > 0 {
        lemma_selection_prefix(scores, top_k, a, b, n - 1);
        let p = n - 1;
        if a[p] != b[p] {
            lemma_selection_step(scores, top_k, a, b, p);
            lemma_selection_step(scores, top_k, b, a, p);
            lemma_before_asymmetric(scores, a[p] as int, b[p] as int);
        }
    }
}

proof fn lemma_selection_step(
    scores: Seq<u32>,
    top_k: usize,
    a: Seq<usize>,
    b: Seq<usize>,
    p: int,
)
    requires
        !any_nan(scores),
        selects(scores, top_k, a),
        selects(scores, top_k, b),
        0 <= p < a.len(),
        forall|q: int| 0 <= q < p ==> a[q] == b[q],
        a[p] != b[p],
    ensures
        ranks_before(scores, b[p] as int, a[p] as int),
{
    let x = a[p];
    if b.contains(x) {
        let q = choose|q: int| 0 <= q < b.len() && b[q] == x;
        if q < p {
            assert(a[q] == x);
            assert(ranks_before(scores, a[q] as int, a[p] as int));
        }
        assert(q > p);
        assert(ranks_before(scores, b[p] as int, b[q] as int));
    } else {
        assert(!b.contains(x as int as usize));
        assert(ranks_before(scores, b[p] as int, x as int));
    }
}

/// Selected experts are distinct.
pub proof fn law_selection_distinct(scores: Seq<u32>, top_k: usize, s: Seq<usize>, p: int, q: int)
    requires
        selects(scores, top_k, s),
        0 <= p < q < s.len(),
    ensures
        s[p] != s[q],
{
    assert(ranks_before(scores, s[p] as int, s[q] as int));
}

/// Selected scores never increase, and equal scores come by ascending id.
pub proof fn law_selection_monotone(scores: Seq<u32>, top_k: usize, s: Seq<usize>, p: int, q: int)
    requires
        !any_nan(scores),
        selects(scores, top_k, s),
        0 <= p < q < s.len(),
    ensures
        rank(scores[s[p] as int]) >= rank(scores[s[q] as int]),
        rank(scores[s[p] as int]) == rank(scores[s[q] as int]) ==> s[p] < s[q],
{
    assert(ranks_before(scores, s[p] as int, s[q] as int));
    assert(!nan(scores[s[p] as int]) && !nan(scores[s[q] as int]));
}

/// Asking for as many experts as there are, or more, selects every expert.
pub proof fn law_selection_complete(scores: Seq<u32>, top_k: usize, s: Seq<usize>, e: int)
    requires
        selects(scores, top_k, s),
        top_k >= scores.len(),
        0 <= e < scores.len(),
    ensures
        s.contains(e as usize),
{
    let n = scores.len();
    let ids = s.map_values(|x: usize| x as int);
    assert forall|p: int, q: int| 0 <= p < ids.len() && 0 <= q < ids.len() && p != q implies ids[p]
        != ids[q] by {
        if p < q {
            law_selection_distinct(scores, top_k, s, p, q);
        } else {
            law_selection_distinct(scores, top_k, s, q, p);
        }
    }
    assert(ids.no_duplicates());
    ids.unique_seq_to_set();
    let all = vstd::set_lib::set_int_range(0, n as int);
    vstd::set_lib::lemma_int_range(0, n as int);
    assert forall|x: int| ids.to_set().contains(x) implies all.contains(x) by {
        let p = choose|p: int| 0 <= p < ids.len() && ids[p] == x;
        assert(s[p] < scores.len());
    }
    assert(ids.to_set().subset_of(all));
    vstd::set_lib::lemma_subset_equality(ids.to_set(), all);
    assert(ids.to_set().contains(e));
    let p = choose|p: int| 0 <= p < ids.len() && ids[p] == e;
    assert(s[p] == e as usize);
}

/// `+Inf` ranks before every finite score, and every finite score before
/// `-Inf`, whatever the ids.
pub proof fn law_infinities_rank(scores: Seq<u32>, a: int, b: int)
    requires
        0 <= a < scores.len(),
        0 <= b < scores.len(),
        finite(scores[b]),
    ensures
        scores[a] == INFINITY ==> ranks_before(scores, a, b),
        scores[a] == NEG_INFINITY ==> ranks_before(scores, b, a),
{
}

/// The two zeros are equal: the lower id ranks first.
pub proof fn law_zeros_tie(scores: Seq<u32>, a: int, b: int)
    requires
        0 <= a < b < scores.len(),
        scores[a] == ZERO || scores[a] == NEG_ZERO,
        scores[b] == ZERO || scores[b] == NEG_ZERO,
    ensures
        ranks_before(scores, a, b),
{
}

/// A refusal names the lowest expert whose score is NaN.
pub proof fn law_nan_error_lowest(scores: Seq<u32>, i: int)
    requires
        scores.len() <= usize::MAX,
        first_nan(scores, i),
    ensures
        nan_error(scores) == Some(ErrorView::NanRoutingScore { expert_id: i as usize }),
{
    let c = choose|c: int| first_nan(scores, c);
    assert(first_nan(scores, c));
    assert(c == i);
}

/// Refuses scores with a NaN, naming the lowest expert.
pub fn reject_nan_routing_scores(scores: &[u32]) -> (r: Result<(), CortexError>)
    ensures
        match nan_error(scores@) {
            Some(e) => r matches Err(x) && x@ == e,
            None => r is Ok,
        },
{
    let mut i: usize = 0;
    while i < scores.len()
        invariant
            i <= scores@.len(),
            forall|j: int| 0 <= j < i ==> !nan(#[trigger] scores@[j]),
        decreases scores@.len() - i,
    {
        if is_nan(scores[i]) {
            proof {
                assert(first_nan(scores@, i as int));
                let c = choose|c: int| first_nan(scores@, c);
                assert(first_nan(scores@, c));
                assert(c == i);
            }
            return Err(CortexError::NanRoutingScore { expert_id: i });
        }
        i += 1;
    }
    Ok(())
}

/// Every expert, in order of rank.
fn rank_all(scores: &[u32]) -> (sorted: Vec<usize>)
    requires
        !any_nan(scores@),
    ensures
        sorted@.len() == scores@.len(),
        forall|p: int| 0 <= p < sorted@.len() ==> (#[trigger] sorted@[p]) < scores@.len(),
        forall|p: int, q: int|
            0 <= p < q < sorted@.len() ==> ranks_before(
                scores@,
                #[trigger] sorted@[p] as int,
                #[trigger] sorted@[q] as int,
            ),
        forall|e: int| 0 <= e < scores@.len() ==> #[trigger] sorted@.contains(e as usize),
{
    let mut sorted: Vec<usize> = Vec::new();
    let mut id: usize = 0;
    while id < scores.len()
        invariant
            id <= scores@.len(),
            !any_nan(scores@),
            sorted@.len() == id,
            forall|p: int| 0 <= p < sorted@.len() ==> (#[trigger] sorted@[p]) < id,
            forall|p: int, q: int|
                0 <= p < q < sorted@.len() ==> ranks_before(
                    scores@,
                    #[trigger] sorted@[p] as int,
                    #[trigger] sorted@[q] as int,
                ),
            forall|e: int| 0 <= e < id ==> #[trigger] sorted@.contains(e as usize),
        decreases scores@.len() - id,
    {
        let mut pos: usize = sorted.len();
        while pos > 0 && is_above(scores[id], scores[sorted[pos - 1]])
            invariant
                pos <= sorted@.len(),
                id < scores@.len(),
                forall|p: int| 0 <= p < sorted@.len() ==> (#[trigger] sorted@[p]) < id,
                forall|p: int|
                    pos <= p < sorted@.len() ==> above(
                        scores@[id as int],
                        scores@[#[trigger] sorted@[p] as int],
                    ),
            decreases pos,
        {
            pos -= 1;
        }
        let ghost before = sorted@;
        proof {
            assert forall|p: int| 0 <= p < pos implies ranks_before(
                scores@,
                #[trigger] before[p] as int,
                id as int,
            ) by {
                let last = before[pos - 1] as int;
                assert(ranks_before(scores@, last, id as int));
                if p < pos - 1 {
                    assert(ranks_before(scores@, before[p] as int, before[pos - 1] as int));
                    lemma_before_transitive(scores@, before[p] as int, last, id as int);
                }
            }
        }
        sorted.insert(pos, id);
        proof {
            assert(sorted@ == before.insert(pos as int, id));
            assert forall|p: int, q: int| 0 <= p < q < sorted@.len() implies ranks_before(
                scores@,
                #[trigger] sorted@[p] as int,
                #[trigger] sorted@[q] as int,
            ) by {
                let x = if p < pos { p } else { p - 1 };
                let y = if q < pos { q } else { q - 1 };
                if p == pos {
                    assert(sorted@[q] == before[q - 1]);
                } else if q == pos {
                    assert(sorted@[p] == before[p]);
                } else {
                    assert(sorted@[p] == before[x] && sorted@[q] == before[y]);
                    assert(ranks_before(scores@, before[x] as int, before[y] as int));
                }
            }
            assert forall|e: int| 0 <= e < id + 1 implies #[trigger] sorted@.contains(
                e as usize,
            ) by {
                if e == id {
                    assert(sorted@[pos as int] == id);
                } else {
                    assert(before.contains(e as usize));
                    let p = choose|p: int| 0 <= p < before.len() && before[p] == e as usize;
                    if p < pos {
                        assert(sorted@[p] == e as usize);
                    } else {
                        assert(sorted@[p + 1] == e as usize);
                    }
                }
            }
        }
        id += 1;
    }
    sorted
}

/// The `top_k` experts that rank first, in order of rank; every expert if
/// there are fewer.
pub fn top_k_indices(scores: &[u32], top_k: usize) -> (r: Result<Vec<usize>, CortexError>)
    ensures
        match nan_error(scores@) {
            Some(e) => r matches Err(x) && x@ == e,
            None => r matches Ok(s) && selects(scores@, top_k, s@),
        },
{
    match reject_nan_routing_scores(scores) {
        Ok(_) => {},
        Err(e) => {
            return Err(e);
        },
    }
    let count: usize = scores.len();
    let n: usize = if top_k < count {
        top_k
    } else {
        count
    };
    let sorted: Vec<usize> = rank_all(scores);
    let chosen: Vec<usize> = slice_to_vec(slice_subrange(sorted.as_slice(), 0, n));
    proof {
        assert forall|p: int, e: int|
            0 <= p < chosen@.len() && 0 <= e < scores@.len() && !chosen@.contains(
                e as usize,
            ) implies #[trigger] ranks_before(scores@, chosen@[p] as int, e) by {
            assert(sorted@.contains(e as usize));
            let q = choose|q: int| 0 <= q < sorted@.len() && sorted@[q] == e as usize;
            if q < n {
                assert(chosen@[q] == e as usize);
            }
            assert(ranks_before(scores@, sorted@[p] as int, sorted@[q] as int));
        }
    }
    Ok(chosen)
}

/// Softmax of gate scores.
pub fn softmax<F: FloatUnit>(scores: &[u32]) -> (r: Vec<u32>)
    ensures
        softmaxes::<F>(scores@, r@),
        r@.len() == scores@.len(),
{
    softmax_row::<F>(scores)
}

/// Ranks the raw scores, then gives softmax weights and the selection.
pub fn route_top_k<F: FloatUnit>(scores: &[u32], top_k: usize) -> (r: Result<
    (Vec<u32>, Vec<usize>),
    CortexError,
>)
    ensures
        match nan_error(scores@) {
            Some(e) => r matches Err(x) && x@ == e,
            None => r matches Ok(p) && softmaxes::<F>(scores@, p.0@) && p.0@.len() == scores@.len()
                && selects(scores@, top_k, p.1@),
        },
{
    match top_k_indices(scores, top_k) {
        Ok(selected) => Ok((softmax::<F>(scores), selected)),
        Err(e) => Err(e),
    }
}

// ── Gate scores ──────────────────────────────────────────────────────

/// Where the weight of an expert and an embedding entry lies, if the tensor
/// has a usable orientation.
pub open spec fn weight_position(
    dims: Seq<usize>,
    expert: int,
    entry: int,
    experts: usize,
    hidden: nat,
) -> Option<int> {
    if dims[0] == hidden && dims[1] >= experts {
        Some(entry * dims[1] + expert)
    } else if dims[0] >= experts && dims[1] == hidden {
        Some(expert * dims[1] + entry)
    } else {
        None
    }
}

pub open spec fn orientation_error(dims: Seq<usize>, hidden: nat) -> ErrorView {
    ErrorView::UnsupportedFormat(
        "unsupported routing tensor orientation "@ + bracketed(sizes(dims)) + " for hidden_size="@
            + decimal(hidden),
    )
}

/// The tensor can be indexed for every expert and entry.
pub open spec fn oriented(dims: Seq<usize>, experts: usize, hidden: nat) -> bool {
    (dims[0] == hidden && dims[1] >= experts) || (dims[0] >= experts && dims[1] == hidden)
}

/// A usable weight position lies inside the tensor.
pub proof fn law_weight_position_inside(
    dims: Seq<usize>,
    expert: int,
    entry: int,
    experts: usize,
    hidden: nat,
)
    requires
        dims.len() == 2,
        0 <= expert < experts,
        0 <= entry < hidden,
    ensures
        weight_position(dims, expert, entry, experts, hidden) matches Some(p) ==> 0 <= p < dims[0]
            * dims[1],
{
    if weight_position(dims, expert, entry, experts, hidden) is Some {
        if dims[0] == hidden && dims[1] >= experts {
            lemma_entry_bounds(
                dims[0] as int,
                dims[1] as int,
                entry,
                expert,
            );
        } else {
            lemma_entry_bounds(
                dims[0] as int,
                dims[1] as int,
                expert,
                entry,
            );
        }
    }
}

/// Different pairs of expert and entry have different weight positions.
pub proof fn law_weight_positions_distinct(
    dims: Seq<usize>,
    expert1: int,
    entry1: int,
    expert2: int,
    entry2: int,
    experts: usize,
    hidden: nat,
)
    requires
        dims.len() == 2,
        0 <= expert1 < experts,
        0 <= expert2 < experts,
        0 <= entry1 < hidden,
        0 <= entry2 < hidden,
        oriented(dims, experts, hidden),
        weight_position(dims, expert1, entry1, experts, hidden) == weight_position(
            dims,
            expert2,
            entry2,
            experts,
            hidden,
        ),
    ensures
        expert1 == expert2,
        entry1 == entry2,
{
    let cols = dims[1] as int;
    if dims[0] == hidden && dims[1] >= experts {
        lemma_entry_position(cols, entry1, expert1);
        lemma_entry_position(cols, entry2, expert2);
    } else {
        lemma_entry_position(cols, expert1, entry1);
        lemma_entry_position(cols, expert2, entry2);
    }
}

/// Step `d` of an expert's score: `acc + weight * entry`.
pub open spec fn gate_step<F: FloatUnit>(
    weights: Seq<u32>,
    dims: Seq<usize>,
    expert: int,
    experts: usize,
    embedding: Seq<u32>,
) -> spec_fn(int, u32, u32) -> bool {
    |d: int, acc: u32, r: u32|
        accumulates::<F>(
            weights[weight_position(dims, expert, d, experts, embedding.len())->Some_0],
            embedding[d],
            acc,
            r,
        )
}

/// `scores` holds for every expert the product of its gate weights and the
/// embedding, accumulated from zero in order.
pub open spec fn gates<F: FloatUnit>(
    weights: Seq<u32>,
    dims: Seq<usize>,
    experts: usize,
    embedding: Seq<u32>,
    scores: Seq<u32>,
) -> bool {
    &&& scores.len() == experts
    &&& forall|e: int|
        0 <= e < experts ==> reaches(
            gate_step::<F>(weights, dims, e, experts, embedding),
            ZERO,
            embedding.len(),
            #[trigger] scores[e],
        )
}

/// Why gate scores cannot be read from a checkpoint.
pub open spec fn gate_error(
    c: CheckpointView,
    path: Seq<char>,
    name: Seq<char>,
    experts: usize,
    hidden: nat,
) -> Option<ErrorView> {
    match c.singles(name, path) {
        Err(e) => Some(e),
        Ok(_) => if experts > 0 && hidden > 0 && !oriented(c.info(name).dims, experts, hidden) {
            Some(orientation_error(c.info(name).dims, hidden))
        } else {
            None
        },
    }
}

fn routing_weight_index(
    tensor: &GgufTensorInfo,
    expert_id: usize,
    dim: usize,
    num_experts: usize,
    hidden_size: usize,
) -> (r: Result<usize, CortexError>)
    requires
        tensor@.dims.len() == 2,
        tensor@.dims[0] * tensor@.dims[1] <= usize::MAX,
        expert_id < num_experts,
        dim < hidden_size,
    ensures
        match weight_position(
            tensor@.dims,
            expert_id as int,
            dim as int,
            num_experts,
            hidden_size as nat,
        ) {
            Some(p) => r matches Ok(i) && i == p,
            None => r matches Err(e) && e@ == orientation_error(tensor@.dims, hidden_size as nat),
        },
{
    let d0: usize = tensor.dims[0];
    let d1: usize = tensor.dims[1];
    proof {
        law_weight_position_inside(
            tensor@.dims,
            expert_id as int,
            dim as int,
            num_experts,
            hidden_size as nat,
        );
        assert(0 <= dim * d1 && 0 <= expert_id * d1) by (nonlinear_arith)
            requires
                0 <= dim,
                0 <= expert_id,
                0 <= d1,
        ;
    }
    if d0 == hidden_size && d1 >= num_experts {
        return Ok(dim * d1 + expert_id);
    }
    if d0 >= num_experts && d1 == hidden_size {
        return Ok(expert_id * d1 + dim);
    }
    let mut msg: String = String::from_str("unsupported routing tensor orientation ");
    msg.append(sizes_text(tensor.dims.as_slice()).as_str());
    msg.append(" for hidden_size=");
    msg.append(size_text(hidden_size).as_str());
    Err(CortexError::UnsupportedFormat(msg))
}

/// Gate scores of an embedding under the routing tensor of a checkpoint.
pub fn checkpoint_gate_scores<F: FloatUnit>(
    checkpoint: &MappedGgufCheckpoint<'_>,
    model_path: &str,
    routing_tensor_name: &str,
    num_experts: usize,
    embedding: &[u32],
) -> (r: Result<Vec<u32>, CortexError>)
    requires
        checkpoint@.has(routing_tensor_name@) ==> {
            let i = checkpoint@.info(routing_tensor_name@);
            i.dims.len() == 2 && i.dims[0] * i.dims[1] <= i.n_elements
        },
    ensures
        match gate_error(
            checkpoint@,
            model_path@,
            routing_tensor_name@,
            num_experts,
            embedding@.len(),
        ) {
            Some(e) => r matches Err(x) && x@ == e,
            None => r matches Ok(s) && gates::<F>(
                checkpoint@.singles(routing_tensor_name@, model_path@)->Ok_0,
                checkpoint@.info(routing_tensor_name@).dims,
                num_experts,
                embedding@,
                s@,
            ),
        },
{
    let info: &GgufTensorInfo = match checkpoint.tensor_info(routing_tensor_name, model_path) {
        Ok(i) => i,
        Err(e) => {
            return Err(e);
        },
    };
    let weights: Vec<u32> = match checkpoint.f32_tensor(routing_tensor_name, model_path) {
        Ok(w) => w,
        Err(e) => {
            return Err(e);
        },
    };
    let ghost dims = info@.dims;
    let mut scores: Vec<u32> = Vec::new();
    let mut e: usize = 0;
    while e < num_experts
        invariant
            e <= num_experts,
            info@.dims == dims,
            dims.len() == 2,
            dims[0] * dims[1] <= weights@.len(),
            dims[0] * dims[1] <= usize::MAX,
            e > 0 && embedding@.len() > 0 ==> oriented(dims, num_experts, embedding@.len()),
            gate_error(
                checkpoint@,
                model_path@,
                routing_tensor_name@,
                num_experts,
                embedding@.len(),
            ) == if num_experts > 0 && embedding@.len() > 0 && !oriented(
                dims,
                num_experts,
                embedding@.len(),
            ) {
                Some(orientation_error(dims, embedding@.len()))
            } else {
                None
            },
            scores@.len() == e,
            forall|x: int|
                0 <= x < e ==> reaches(
                    gate_step::<F>(weights@, dims, x, num_experts, embedding@),
                    ZERO,
                    embedding@.len(),
                    #[trigger] scores@[x],
                ),
        decreases num_experts - e,
    {
        let ghost step = gate_step::<F>(weights@, dims, e as int, num_experts, embedding@);
        let mut score: u32 = ZERO;
        proof {
            lemma_reaches_start(step, ZERO);
        }
        let mut d: usize = 0;
        while d < embedding.len()
            invariant
                d <= embedding@.len(),
                e < num_experts,
                info@.dims == dims,
                dims.len() == 2,
                dims[0] * dims[1] <= weights@.len(),
                dims[0] * dims[1] <= usize::MAX,
                d > 0 ==> oriented(dims, num_experts, embedding@.len()),
                gate_error(
                    checkpoint@,
                    model_path@,
                    routing_tensor_name@,
                    num_experts,
                    embedding@.len(),
                ) == if num_experts > 0 && embedding@.len() > 0 && !oriented(
                    dims,
                    num_experts,
                    embedding@.len(),
                ) {
                    Some(orientation_error(dims, embedding@.len()))
                } else {
                    None
                },
                step == gate_step::<F>(weights@, dims, e as int, num_experts, embedding@),
                reaches(step, ZERO, d as nat, score),
            decreases embedding@.len() - d,
        {
            let hidden: usize = embedding.len();
            let index: usize = match routing_weight_index(info, e, d, num_experts, hidden) {
                Ok(i) => i,
                Err(x) => {
                    return Err(x);
                },
            };
            proof {
                law_weight_position_inside(
                    dims,
                    e as int,
                    d as int,
                    num_experts,
                    embedding@.len(),
                );
            }
            let t: u32 = F::mul32(weights[index], embedding[d]);
            let next: u32 = F::add32(score, t);
            proof {
                assert(muls::<F>(weights@[index as int], embedding@[d as int], t) && adds::<F>(
                    score,
                    t,
                    next,
                ));
                lemma_reaches_step(step, ZERO, d as nat, score, next);
            }
            score = next;
            d += 1;
        }
        scores.push(score);
        e += 1;
    }
    Ok(scores)
}

/// Entries each expert sums without a checkpoint.
pub open spec fn chunk_len(experts: usize, width: nat) -> nat {
    let n = if experts == 0 { 1nat } else { experts as nat };
    if width / n == 0 { 1 } else { width / n }
}

/// First entry an expert sums without a checkpoint.
pub open spec fn chunk_start(experts: usize, width: nat, e: int) -> int {
    (e * chunk_len(experts, width)) % (width as int)
}

/// Behind the last entry an expert sums without a checkpoint.
pub open spec fn chunk_end(experts: usize, width: nat, e: int) -> int {
    let end = chunk_start(experts, width, e) + chunk_len(experts, width);
    if end < width { end } else { width as int }
}

/// `scores` holds for every expert the sum of its chunk of the embedding.
pub open spec fn chunk_gates<F: FloatUnit>(
    experts: usize,
    embedding: Seq<u32>,
    scores: Seq<u32>,
) -> bool {
    &&& scores.len() == experts
    &&& forall|e: int|
        0 <= e < experts ==> sums::<F>(
            NEG_ZERO,
            embedding.subrange(
                chunk_start(experts, embedding.len(), e),
                chunk_end(experts, embedding.len(), e),
            ),
            #[trigger] scores[e],
        )
}

proof fn lemma_chunk_fits(experts: usize, width: nat, e: int)
    requires
        0 < width <= usize::MAX,
        0 <= e < experts,
    ensures
        0 <= e * chunk_len(experts, width) <= usize::MAX,
        0 <= chunk_start(experts, width, e) < width,
        chunk_len(experts, width) <= width,
{
    let n = experts as int;
    let c = chunk_len(experts, width) as int;
    let w = width as int;
    vstd::arithmetic::div_mod::lemma_fundamental_div_mod(w, n);
    vstd::arithmetic::div_mod::lemma_div_pos_is_pos(w, n);
    vstd::arithmetic::div_mod::lemma_div_is_ordered_by_denominator(w, 1, n);
    vstd::arithmetic::div_mod::lemma_mod_bound(e * c, w);
    if w / n == 0 {
        assert(e * c == e);
    } else {
        assert(e * c <= n * (w / n)) by (nonlinear_arith)
            requires
                0 <= e <= n,
                c == w / n,
                0 <= c,
        ;
        assert(0 <= e * c) by (nonlinear_arith)
            requires
                0 <= e,
                0 <= c,
        ;
    }
}

/// Gate scores without a checkpoint: every expert sums a chunk of the
/// embedding.
pub fn synthetic_gate_scores<F: FloatUnit>(num_experts: usize, embedding: &[u32]) -> (r: Vec<u32>)
    requires
        embedding@.len() > 0 || num_experts == 0,
    ensures
        chunk_gates::<F>(num_experts, embedding@, r@),
{
    let width: usize = if embedding.len() == 0 {
        1
    } else {
        embedding.len()
    };
    let divisor: usize = if num_experts == 0 {
        1
    } else {
        num_experts
    };
    let share: usize = width / divisor;
    let chunk: usize = if share == 0 {
        1
    } else {
        share
    };
    let mut scores: Vec<u32> = Vec::new();
    let mut e: usize = 0;
    while e < num_experts
        invariant
            e <= num_experts,
            embedding@.len() > 0 || num_experts == 0,
            num_experts > 0 ==> width == embedding@.len() && chunk == chunk_len(
                num_experts,
                embedding@.len(),
            ),
            scores@.len() == e,
            forall|x: int|
                0 <= x < e ==> sums::<F>(
                    NEG_ZERO,
                    embedding@.subrange(
                        chunk_start(num_experts, embedding@.len(), x),
                        chunk_end(num_experts, embedding@.len(), x),
                    ),
                    #[trigger] scores@[x],
                ),
        decreases num_experts - e,
    {
        proof {
            lemma_chunk_fits(num_experts, width as nat, e as int);
        }
        let start: usize = (e * chunk) % width;
        let end: usize = if chunk < width - start {
            start + chunk
        } else {
            width
        };
        scores.push(sum_from::<F>(NEG_ZERO, slice_subrange(embedding, start, end)));
        e += 1;
    }
    scores
}

// ── Resampling ───────────────────────────────────────────────────────

/// Intermediate values of one interpolated entry.
pub struct BlendSteps {
    pub at: u32,
    pub source: u32,
    pub floor: u32,
    pub lo: usize,
    pub ceil: u32,
    pub last: u32,
    pub hi: usize,
    pub lo_value: u32,
    pub t: u32,
    pub u: u32,
    pub a: u32,
    pub b: u32,
}

/// The entries an interpolation at `idx` reads.
pub open spec fn blend_indices<F: FloatUnit>(
    len: nat,
    scale: u32,
    idx: usize,
    t: BlendSteps,
) -> bool {
    &&& counts::<F>(idx, t.at)
    &&& muls::<F>(t.at, scale, t.source)
    &&& floors::<F>(t.source, t.floor)
    &&& indexes::<F>(t.floor, t.lo)
    &&& ceils::<F>(t.source, t.ceil)
    &&& counts::<F>((len - 1) as usize, t.last)
    &&& indexes::<F>(smaller(t.ceil, t.last), t.hi)
}

/// An interpolation that reads outside the input.
pub open spec fn blend_outside(len: nat, t: BlendSteps) -> bool {
    t.lo >= len || (t.lo != t.hi && t.hi >= len)
}

pub open spec fn blend_value<F: FloatUnit>(input: Seq<u32>, t: BlendSteps, v: u32) -> bool {
    if t.lo == t.hi {
        v == input[t.lo as int]
    } else {
        &&& counts::<F>(t.lo, t.lo_value)
        &&& subs::<F>(t.source, t.lo_value, t.t)
        &&& subs::<F>(ONE, t.t, t.u)
        &&& muls::<F>(input[t.lo as int], t.u, t.a)
        &&& muls::<F>(input[t.hi as int], t.t, t.b)
        &&& adds::<F>(t.a, t.b, v)
    }
}

/// `v` is the input at `idx * scale`, interpolated between its neighbours.
pub open spec fn blends<F: FloatUnit>(input: Seq<u32>, scale: u32, idx: usize, v: u32) -> bool {
    exists|t: BlendSteps|
        blend_indices::<F>(input.len(), scale, idx, t) && !blend_outside(input.len(), t)
            && #[trigger] blend_value::<F>(input, t, v)
}

/// The interpolation at `idx * scale` reads outside the input.
pub open spec fn overruns<F: FloatUnit>(len: nat, scale: u32, idx: usize) -> bool {
    exists|t: BlendSteps| #[trigger]
        blend_indices::<F>(len, scale, idx, t) && blend_outside(len, t)
}

/// `scale` is `(len - 1) / (target - 1)`.
pub open spec fn ratio<F: FloatUnit>(len: nat, target: usize, scale: u32) -> bool {
    exists|a: u32, b: u32| #[trigger]
        counts::<F>((len - 1) as usize, a) && #[trigger] counts::<F>((target - 1) as usize, b)
            && divs::<F>(a, b, scale)
}

/// Every entry of the result is an interpolation, or one of them reads outside
/// the input and there is no result.
pub open spec fn interpolates<F: FloatUnit>(
    input: Seq<u32>,
    target: usize,
    scale: u32,
    r: Option<Seq<u32>>,
) -> bool {
    match r {
        Some(v) => v.len() == target && forall|i: int|
            0 <= i < target ==> blends::<F>(input, scale, i as usize, #[trigger] v[i]),
        None => exists|i: usize| i < target && #[trigger] overruns::<F>(input.len(), scale, i),
    }
}

/// `r` is the input resampled to `target` entries.
pub open spec fn resamples<F: FloatUnit>(
    input: Seq<u32>,
    target: usize,
    r: Option<Seq<u32>>,
) -> bool {
    if target == 0 {
        r == Some(Seq::<u32>::empty())
    } else if input.len() == target {
        r == Some(input)
    } else if input.len() == 0 {
        r == Some(Seq::new(target as nat, |i: int| ZERO))
    } else if target == 1 {
        r matches Some(v) && v.len() == 1 && means::<F>(input, v[0])
    } else {
        exists|scale: u32| #[trigger]
            ratio::<F>(input.len(), target, scale) && interpolates::<F>(input, target, scale, r)
    }
}

/// The content of an optional vector.
pub open spec fn content(o: Option<Vec<u32>>) -> Option<Seq<u32>> {
    match o {
        Some(v) => Some(v@),
        None => None,
    }
}

fn blend_at<F: FloatUnit>(input: &[u32], scale: u32, idx: usize) -> (r: Option<u32>)
    requires
        input@.len() > 0,
    ensures
        match r {
            Some(v) => blends::<F>(input@, scale, idx, v),
            None => overruns::<F>(input@.len(), scale, idx),
        },
{
    let n: usize = input.len();
    let at: u32 = F::count32(idx);
    let source: u32 = F::mul32(at, scale);
    let floor: u32 = F::floor32(source);
    let lo: usize = F::index32(floor);
    let ceil: u32 = F::ceil32(source);
    let last: u32 = F::count32(n - 1);
    let hi: usize = F::index32(pick_smaller(ceil, last));
    let ghost base = BlendSteps {
        at,
        source,
        floor,
        lo,
        ceil,
        last,
        hi,
        lo_value: 0,
        t: 0,
        u: 0,
        a: 0,
        b: 0,
    };
    assert(blend_indices::<F>(input@.len(), scale, idx, base));
    if lo >= n || (lo != hi && hi >= n) {
        assert(blend_outside(input@.len(), base));
        return None;
    }
    if lo == hi {
        assert(blend_value::<F>(input@, base, input@[lo as int]));
        return Some(input[lo]);
    }
    let lo_value: u32 = F::count32(lo);
    let t: u32 = F::sub32(source, lo_value);
    let u: u32 = F::sub32(ONE, t);
    let a: u32 = F::mul32(input[lo], u);
    let b: u32 = F::mul32(input[hi], t);
    let v: u32 = F::add32(a, b);
    proof {
        let full = BlendSteps { lo_value, t, u, a, b, ..base };
        assert(blend_indices::<F>(input@.len(), scale, idx, full));
        assert(blend_value::<F>(input@, full, v));
    }
    Some(v)
}

/// Resamples linearly to `target_len` entries; none if rounding carries an
/// index outside the input.
pub fn resample_embedding<F: FloatUnit>(input: &[u32], target_len: usize) -> (r: Option<Vec<u32>>)
    ensures
        resamples::<F>(input@, target_len, content(r)),
        r matches Some(v) ==> v@.len() == target_len,
{
    if target_len == 0 {
        let out: Vec<u32> = Vec::new();
        assert(out@ =~= Seq::<u32>::empty());
        return Some(out);
    }
    if input.len() == target_len {
        return Some(slice_to_vec(input));
    }
    if input.len() == 0 {
        let out: Vec<u32> = vec![ZERO; target_len];
        assert(out@ =~= Seq::new(target_len as nat, |i: int| ZERO));
        return Some(out);
    }
    if target_len == 1 {
        let sum: u32 = sum_from::<F>(NEG_ZERO, input);
        let n: u32 = F::count32(input.len());
        let m: u32 = F::div32(sum, n);
        assert(sums::<F>(NEG_ZERO, input@, sum) && counts::<F>(input@.len() as usize, n)
            && divs::<F>(sum, n, m));
        return Some(vec![m; 1]);
    }
    let a: u32 = F::count32(input.len() - 1);
    let b: u32 = F::count32(target_len - 1);
    let scale: u32 = F::div32(a, b);
    assert(counts::<F>((input@.len() - 1) as usize, a) && counts::<F>(
        (target_len - 1) as usize,
        b,
    ) && divs::<F>(a, b, scale));
    assert(ratio::<F>(input@.len(), target_len, scale));
    let mut out: Vec<u32> = Vec::new();
    let mut idx: usize = 0;
    while idx < target_len
        invariant
            idx <= target_len,
            target_len > 1,
            input@.len() > 0,
            input@.len() != target_len,
            ratio::<F>(input@.len(), target_len, scale),
            out@.len() == idx,
            forall|i: int|
                0 <= i < idx ==> blends::<F>(input@, scale, i as usize, #[trigger] out@[i]),
        decreases target_len - idx,
    {
        match blend_at::<F>(input, scale, idx) {
            Some(v) => {
                out.push(v);
            },
            None => {
                assert(interpolates::<F>(input@, target_len, scale, None));
                return None;
            },
        }
        idx += 1;
    }
    assert(interpolates::<F>(input@, target_len, scale, Some(out@)));
    Some(out)
}

/// Divides by the Euclidean norm.
pub fn normalize_l2<F: FloatUnit>(values: &mut Vec<u32>)
    ensures
        unit_length::<F>(old(values)@, final(values)@),
        final(values)@.len() == old(values)@.len(),
{
    l2_normalize::<F>(values);
}

/// `r` is the input resampled to `target` entries and divided by its norm.
pub open spec fn resamples_unit<F: FloatUnit>(
    input: Seq<u32>,
    target: usize,
    r: Option<Seq<u32>>,
) -> bool {
    match r {
        None => resamples::<F>(input, target, None),
        Some(v) => exists|m: Seq<u32>| #[trigger]
            resamples::<F>(input, target, Some(m)) && unit_length::<F>(m, v),
    }
}

/// Resamples to `target_len` entries and divides by the Euclidean norm.
pub fn resample_unit<F: FloatUnit>(input: &[u32], target_len: usize) -> (r: Option<Vec<u32>>)
    ensures
        resamples_unit::<F>(input@, target_len, content(r)),
        r matches Some(v) ==> v@.len() == target_len,
{
    match resample_embedding::<F>(input, target_len) {
        None => None,
        Some(m) => {
            let ghost plain = m@;
            let mut out: Vec<u32> = m;
            normalize_l2::<F>(&mut out);
            assert(resamples::<F>(input@, target_len, Some(plain)));
            Some(out)
        },
    }
}

/// Resamples to [`EMBEDDING_DIM`] entries and divides by the Euclidean norm.
pub fn normalize_to_internal_embedding_dim<F: FloatUnit>(input: &[u32]) -> (r: Option<Vec<u32>>)
    ensures
        resamples_unit::<F>(input@, EMBEDDING_DIM, content(r)),
        r matches Some(v) ==> v@.len() == EMBEDDING_DIM,
{
    resample_unit::<F>(input, EMBEDDING_DIM)
}

/// `r` is a token row after its options: resampled where a length is given,
/// then divided by its norm where that is asked for.
pub open spec fn applies_options<F: FloatUnit>(
    row: Seq<u32>,
    options: ExtractTokenOptions,
    r: Option<Seq<u32>>,
) -> bool {
    let target = match options.target_dim {
        Some(n) => n,
        None => row.len() as usize,
    };
    if options.l2_normalize {
        resamples_unit::<F>(row, target, r)
    } else {
        resamples::<F>(row, target, r)
    }
}

/// Post-processes a token row.
pub fn apply_extract_token_options<F: FloatUnit>(
    embedding: &[u32],
    options: ExtractTokenOptions,
) -> (r: Option<Vec<u32>>)
    ensures
        applies_options::<F>(embedding@, options, content(r)),
        r matches Some(v) ==> v@.len() == match options.target_dim {
            Some(n) => n as nat,
            None => embedding@.len(),
        },
{
    let target: usize = match options.target_dim {
        Some(n) => n,
        None => embedding.len(),
    };
    if options.l2_normalize {
        resample_unit::<F>(embedding, target)
    } else {
        resample_embedding::<F>(embedding, target)
    }
}

/// Without a target length and without normalization a row stays as it is.
pub proof fn law_default_options_keep<F: FloatUnit>(row: Seq<u32>, r: Option<Seq<u32>>)
    requires
        row.len() <= usize::MAX,
        applies_options::<F>(
            row,
            ExtractTokenOptions { target_dim: None, l2_normalize: false },
            r,
        ),
    ensures
        r == Some(row),
{
    if row.len() == 0 {
        assert(row =~= Seq::<u32>::empty());
    }
}

} // verus!
