//! Sums and products, term by term.

use vstd::prelude::*;
use crate::float::{
    FloatUnit, accumulates, add_step, adds, counts, deterministic, divs, linked, muls, sums, traces,
};
use crate::ieee::{NEG_ZERO, ZERO, finite, magnitude, nan, rank};
use crate::tensor::{TensorView, means};
use crate::tensor::finite::all_finite;
use crate::tensor::layout::{lemma_numel_2, lemma_numel_3};
use crate::tensor::masking::exact_on_zero;
use crate::tensor::matmul::{dot_step, dots, multiplies};
use crate::tensor::ops::{batched_matmuls, matmuls, plane, right_plane};
use crate::tensor::rows::{lemma_entry_bounds, lemma_row_bounds, row_of};

verus! {

// ── Terms ────────────────────────────────────────────────────────────

/// `partial` lists `init`, `init + s[0]`, `init + s[0] + s[1]` and so on.
pub open spec fn adds_up<F: FloatUnit>(init: u32, s: Seq<u32>, partial: Seq<u32>) -> bool {
    &&& partial.len() == s.len() + 1
    &&& partial[0] == init
    &&& forall|i: int| 0 <= i < s.len() ==> adds::<F>(partial[i], #[trigger] s[i], partial[i + 1])
}

/// `r` is `init` plus every entry of `s`, added from the left.
pub open spec fn total<F: FloatUnit>(init: u32, s: Seq<u32>, r: u32) -> bool {
    exists|partial: Seq<u32>| #[trigger]
        adds_up::<F>(init, s, partial) && partial[s.len() as int] == r
}

/// `terms` holds the products of entries at the same position.
pub open spec fn products<F: FloatUnit>(a: Seq<u32>, b: Seq<u32>, terms: Seq<u32>) -> bool {
    &&& a.len() == b.len()
    &&& terms.len() == a.len()
    &&& forall|i: int| 0 <= i < terms.len() ==> muls::<F>(a[i], b[i], #[trigger] terms[i])
}

/// `r` is zero plus the products of entries at the same position, added from
/// the left.
pub open spec fn inner<F: FloatUnit>(a: Seq<u32>, b: Seq<u32>, r: u32) -> bool {
    exists|terms: Seq<u32>| #[trigger] products::<F>(a, b, terms) && total::<F>(ZERO, terms, r)
}

/// Column `c` of a matrix, from the top.
pub open spec fn column(w: TensorView, c: int) -> Seq<u32> {
    Seq::new(w.shape[0] as nat, |i: int| w.data[i * w.shape[1] + c])
}

/// Equal as numbers, or both not a number.
pub open spec fn alike(a: u32, b: u32) -> bool {
    nan(a) == nan(b) && (!nan(a) ==> rank(a) == rank(b))
}

/// Zero times anything finite is a zero.
pub open spec fn absorbing<F: FloatUnit>() -> bool {
    forall|a: u32, b: u32, t: u32|
        finite(a) && finite(b) && (magnitude(a) == 0 || magnitude(b) == 0) && #[trigger] muls::<F>(
            a,
            b,
            t,
        ) ==> magnitude(t) == 0
}

/// Adding a zero changes no number.
pub open spec fn neutral_zero<F: FloatUnit>() -> bool {
    forall|a: u32, z: u32, r: u32|
        magnitude(z) == 0 && #[trigger] adds::<F>(a, z, r) ==> alike(r, a)
}

/// Every entry is a zero of either sign.
pub open spec fn all_zero(s: Seq<u32>) -> bool {
    forall|i: int| 0 <= i < s.len() ==> magnitude(#[trigger] s[i]) == 0
}

// ── Sums ─────────────────────────────────────────────────────────────

/// A sum takes every term once, in order, from where it starts.
pub proof fn law_sum_terms<F: FloatUnit>(init: u32, s: Seq<u32>, r: u32)
    requires
        sums::<F>(init, s, r),
    ensures
        total::<F>(init, s, r),
{
    let trace = choose|t: Seq<u32>| #[trigger]
        traces(add_step::<F>(s), init, s.len(), t) && t[s.len() as int] == r;
    assert forall|i: int| 0 <= i < s.len() implies adds::<F>(
        trace[i],
        #[trigger] s[i],
        trace[i + 1],
    ) by {
        assert(linked(add_step::<F>(s), trace, i));
    }
    assert(adds_up::<F>(init, s, trace));
}

proof fn lemma_partial_unique<F: FloatUnit>(
    init: u32,
    s: Seq<u32>,
    t: Seq<u32>,
    u: Seq<u32>,
    v: Seq<u32>,
    k: int,
)
    requires
        deterministic::<F>(),
        adds_up::<F>(init, s, u),
        adds_up::<F>(init, t, v),
        0 <= k <= s.len(),
        k <= t.len(),
        forall|i: int| 0 <= i < k ==> #[trigger] s[i] == t[i],
    ensures
        u[k] == v[k],
    decreases k,
{
    if k > 0 {
        lemma_partial_unique::<F>(init, s, t, u, v, k - 1);
        assert(s[k - 1] == t[k - 1]);
        assert(adds::<F>(u[k - 1], s[k - 1], u[k]) && adds::<F>(u[k - 1], s[k - 1], v[k]));
    }
}

pub proof fn lemma_total_unique<F: FloatUnit>(init: u32, s: Seq<u32>, r: u32, q: u32)
    requires
        deterministic::<F>(),
        total::<F>(init, s, r),
        total::<F>(init, s, q),
    ensures
        r == q,
{
    let u = choose|t: Seq<u32>| #[trigger] adds_up::<F>(init, s, t) && t[s.len() as int] == r;
    let v = choose|t: Seq<u32>| #[trigger] adds_up::<F>(init, s, t) && t[s.len() as int] == q;
    lemma_partial_unique::<F>(init, s, s, u, v, s.len() as int);
}

/// A sum with one more term is the sum without it plus that term.
pub proof fn law_sum_of_one_more<F: FloatUnit>(init: u32, s: Seq<u32>, x: u32, r: u32, q: u32)
    requires
        deterministic::<F>(),
        sums::<F>(init, s, r),
        sums::<F>(init, s.push(x), q),
    ensures
        adds::<F>(r, x, q),
{
    let longer = s.push(x);
    law_sum_terms::<F>(init, s, r);
    law_sum_terms::<F>(init, longer, q);
    let u = choose|t: Seq<u32>| #[trigger] adds_up::<F>(init, s, t) && t[s.len() as int] == r;
    let v = choose|t: Seq<u32>| #[trigger]
        adds_up::<F>(init, longer, t) && t[longer.len() as int] == q;
    let n = s.len() as int;
    lemma_partial_unique::<F>(init, s, longer, u, v, n);
    assert(longer[n] == x);
}

// ── Products ─────────────────────────────────────────────────────────

/// An accumulated product of a row and a column, by its terms.
pub proof fn lemma_dots_inner<F: FloatUnit>(
    row: Seq<u32>,
    b: Seq<u32>,
    n: int,
    j: int,
    col: Seq<u32>,
    r: u32,
)
    requires
        dots::<F>(row, b, n, j, r),
        col.len() == row.len(),
        forall|i: int| 0 <= i < row.len() ==> #[trigger] col[i] == b[i * n + j],
    ensures
        inner::<F>(row, col, r),
{
    let step = dot_step::<F>(row, b, n, j);
    let trace = choose|t: Seq<u32>| #[trigger]
        traces(step, ZERO, row.len(), t) && t[row.len() as int] == r;
    let terms = Seq::new(
        row.len(),
        |i: int|
            choose|t: u32| #[trigger]
                muls::<F>(row[i], col[i], t) && adds::<F>(trace[i], t, trace[i + 1]),
    );
    assert forall|i: int| 0 <= i < row.len() implies muls::<F>(row[i], col[i], #[trigger] terms[i])
        && adds::<F>(trace[i], terms[i], trace[i + 1]) by {
        assert(linked(step, trace, i));
        assert(col[i] == b[i * n + j]);
        assert(accumulates::<F>(row[i], col[i], trace[i], trace[i + 1]));
    }
    assert(products::<F>(row, col, terms));
    assert(adds_up::<F>(ZERO, terms, trace));
}

pub proof fn lemma_inner_unique<F: FloatUnit>(a: Seq<u32>, b: Seq<u32>, r: u32, q: u32)
    requires
        deterministic::<F>(),
        inner::<F>(a, b, r),
        inner::<F>(a, b, q),
    ensures
        r == q,
{
    let s = choose|t: Seq<u32>| #[trigger] products::<F>(a, b, t) && total::<F>(ZERO, t, r);
    let t = choose|t: Seq<u32>| #[trigger] products::<F>(a, b, t) && total::<F>(ZERO, t, q);
    assert forall|i: int| 0 <= i < s.len() implies s[i] == t[i] by {
        assert(muls::<F>(a[i], b[i], s[i]) && muls::<F>(a[i], b[i], t[i]));
    }
    assert(s =~= t);
    lemma_total_unique::<F>(ZERO, s, r, q);
}

proof fn lemma_zeros_add_up<F: FloatUnit>(s: Seq<u32>, partial: Seq<u32>, k: int)
    requires
        exact_on_zero::<F>(),
        adds_up::<F>(ZERO, s, partial),
        all_zero(s),
        0 <= k <= s.len(),
    ensures
        partial[k] == ZERO,
    decreases k,
{
    if k > 0 {
        lemma_zeros_add_up::<F>(s, partial, k - 1);
        assert(magnitude(s[k - 1]) == 0);
        assert(adds::<F>(ZERO, s[k - 1], partial[k]));
    }
}

/// A product with zeros on one side is zero.
pub proof fn lemma_inner_zero<F: FloatUnit>(a: Seq<u32>, b: Seq<u32>, r: u32)
    requires
        exact_on_zero::<F>(),
        absorbing::<F>(),
        inner::<F>(a, b, r),
        all_finite(a),
        all_finite(b),
        all_zero(a) || all_zero(b),
    ensures
        r == ZERO,
{
    let s = choose|t: Seq<u32>| #[trigger] products::<F>(a, b, t) && total::<F>(ZERO, t, r);
    assert forall|i: int| 0 <= i < s.len() implies magnitude(#[trigger] s[i]) == 0 by {
        assert(muls::<F>(a[i], b[i], s[i]));
        assert(finite(a[i]) && finite(b[i]));
    }
    let partial = choose|t: Seq<u32>| #[trigger]
        adds_up::<F>(ZERO, s, t) && t[s.len() as int] == r;
    lemma_zeros_add_up::<F>(s, partial, s.len() as int);
}

/// Entry `c` of row `r`.
pub proof fn lemma_entry_of_row(t: TensorView, r: int, c: int)
    requires
        t.shape.len() == 2,
        t.data.len() == t.shape[0] * t.shape[1],
        0 <= r < t.shape[0],
        0 <= c < t.shape[1],
    ensures
        t.row(r).len() == t.shape[1],
        t.row(r)[c] == t.at(r, c),
        0 <= r * t.shape[1] + c < t.data.len(),
{
    lemma_row_bounds(t.shape[0] as int, t.shape[1] as int, r);
}

/// Entry `(i, j)` of a matrix product is the product of row `i` of the left and
/// column `j` of the right operand, and of nothing else.
pub proof fn law_matmul_entries<F: FloatUnit>(
    a: TensorView,
    b: TensorView,
    r: TensorView,
    i: int,
    j: int,
)
    requires
        a.shape.len() == 2,
        a.data.len() == a.shape[0] * a.shape[1],
        b.shape.len() == 2,
        b.shape[0] == a.shape[1],
        matmuls::<F>(a, b, r),
        0 <= i < a.shape[0],
        0 <= j < b.shape[1],
    ensures
        r.shape == seq![a.shape[0], b.shape[1]],
        r.data.len() == a.shape[0] * b.shape[1],
        inner::<F>(a.row(i), column(b, j), r.at(i, j)),
{
    let (m, k, n) = (a.shape[0] as nat, a.shape[1] as nat, b.shape[1] as nat);
    lemma_row_bounds(m as int, k as int, i);
    assert(multiplies::<F>(a.data, b.data, m, k, n, r.data));
    assert(dots::<F>(row_of(a.data, k, i), b.data, n as int, j, r.data[i * n + j]));
    lemma_dots_inner::<F>(a.row(i), b.data, n as int, j, column(b, j), r.at(i, j));
}

/// A product with a matrix of zeros is zero.
pub proof fn law_matmul_zero<F: FloatUnit>(
    a: TensorView,
    b: TensorView,
    r: TensorView,
    i: int,
    j: int,
)
    requires
        exact_on_zero::<F>(),
        absorbing::<F>(),
        a.wf(),
        b.wf(),
        a.shape.len() == 2,
        b.shape.len() == 2,
        b.shape[0] == a.shape[1],
        matmuls::<F>(a, b, r),
        all_finite(a.data),
        all_finite(b.data),
        all_zero(a.data) || all_zero(b.data),
        0 <= i < a.shape[0],
        0 <= j < b.shape[1],
    ensures
        r.at(i, j) == ZERO,
{
    lemma_numel_2(a.shape);
    law_matmul_entries::<F>(a, b, r, i, j);
    lemma_numel_2(b.shape);
    let row = a.row(i);
    let col = column(b, j);
    assert forall|p: int| 0 <= p < row.len() implies finite(#[trigger] row[p]) && (all_zero(a.data)
        ==> magnitude(row[p]) == 0) by {
        lemma_entry_of_row(a, i, p);
    }
    assert forall|p: int| 0 <= p < col.len() implies finite(#[trigger] col[p]) && (all_zero(b.data)
        ==> magnitude(col[p]) == 0) by {
        lemma_entry_bounds(b.shape[0] as int, b.shape[1] as int, p, j);
    }
    lemma_inner_zero::<F>(row, col, r.at(i, j));
}

/// Entry `(i, j)` of batch `h` is the product of row `i` of that batch and
/// column `j` of the right operand of that batch.
pub proof fn law_batch_entries<F: FloatUnit>(
    a: TensorView,
    b: TensorView,
    r: TensorView,
    h: int,
    i: int,
    j: int,
    col: Seq<u32>,
)
    requires
        a.wf(),
        a.shape.len() == 3,
        b.shape.len() == 3,
        b.shape[0] == a.shape[0],
        b.shape[1] == a.shape[2],
        batched_matmuls::<F>(a, b, r),
        0 <= h < a.shape[0],
        0 <= i < a.shape[1],
        0 <= j < b.shape[2],
        col.len() == a.shape[2],
        forall|p: int| 0 <= p < col.len() ==> #[trigger] col[p] == plane(b, h)[p * b.shape[2] + j],
    ensures
        inner::<F>(
            row_of(plane(a, h), a.shape[2] as nat, i),
            col,
            plane(r, h)[i * b.shape[2] + j],
        ),
{
    lemma_numel_3(a.shape);
    let (m, k, n) = (a.shape[1] as nat, a.shape[2] as nat, b.shape[2] as nat);
    lemma_row_bounds(a.shape[0] as int, (m * k) as int, h);
    lemma_row_bounds(m as int, k as int, i);
    assert(multiplies::<F>(plane(a, h), right_plane(b, h), m, k, n, plane(r, h)));
    let row = row_of(plane(a, h), k, i);
    assert(dots::<F>(row, plane(b, h), n as int, j, plane(r, h)[i * n + j]));
    lemma_dots_inner::<F>(row, plane(b, h), n as int, j, col, plane(r, h)[i * n + j]);
}

/// The mean is the sum of every entry over how many there are.
pub proof fn law_mean_of_terms<F: FloatUnit>(s: Seq<u32>, r: u32) -> (p: (u32, u32))
    requires
        means::<F>(s, r),
    ensures
        total::<F>(NEG_ZERO, s, p.0),
        counts::<F>(s.len() as usize, p.1),
        divs::<F>(p.0, p.1, r),
{
    let (sum, n) = choose|sum: u32, n: u32| #[trigger]
        sums::<F>(NEG_ZERO, s, sum) && #[trigger] counts::<F>(s.len() as usize, n)
            && divs::<F>(sum, n, r);
    law_sum_terms::<F>(NEG_ZERO, s, sum);
    (sum, n)
}

} // verus!
