//! Rearranging attention heads.
//!
//! A `[seq, heads * width]` matrix is a `seq x heads` grid of short rows of
//! `width` entries. Splitting it into heads exchanges the two sides of that
//! grid, and merging exchanges them back.

use vstd::prelude::*;
use vstd::slice::slice_to_vec;
use crate::tensor::{Tensor, TensorView};
use crate::tensor::layout::{lemma_numel_2, lemma_numel_3, shape2, shape3};
use crate::tensor::ops::plane;
use crate::tensor::rows::{
    lemma_entry_bounds, lemma_entry_position, lemma_position_entry, lemma_push_row,
    lemma_row_bounds, lemma_rows_determine, row_of, row_slice,
};

verus! {

/// `out` holds the rows of the `a x b` grid `d` with its two sides exchanged:
/// row `(j, i)` of `out` is row `(i, j)` of `d`, each of `w` entries.
pub open spec fn swaps(d: Seq<u32>, a: nat, b: nat, w: nat, out: Seq<u32>) -> bool {
    &&& out.len() == (b * a) * w
    &&& forall|i: int, j: int|
        0 <= i < a && 0 <= j < b ==> #[trigger] row_of(out, w, j * a + i) == row_of(
            d,
            w,
            i * b + j,
        )
}

/// Exchanging the sides twice gives the buffer back.
pub proof fn lemma_swaps_back(d: Seq<u32>, a: nat, b: nat, w: nat, x: Seq<u32>, y: Seq<u32>)
    requires
        d.len() == (a * b) * w,
        swaps(d, a, b, w, x),
        swaps(x, b, a, w, y),
    ensures
        y == d,
{
    assert forall|r: int| 0 <= r < a * b implies #[trigger] row_of(y, w, r) == row_of(d, w, r) by {
        lemma_position_entry(a as int, b as int, r);
        let i = r / b as int;
        let j = r % b as int;
        assert(row_of(y, w, i * b + j) == row_of(x, w, j * a + i));
        assert(row_of(x, w, j * a + i) == row_of(d, w, i * b + j));
    }
    lemma_rows_determine(y, d, (a * b) as nat, w);
}

/// Exchanges the sides of an `a x b` grid of rows of `w` entries.
fn swap_grid(d: &[u32], a: usize, b: usize, w: usize) -> (out: Vec<u32>)
    requires
        d@.len() == (a * b) * w,
    ensures
        swaps(d@, a as nat, b as nat, w as nat, out@),
        out@.len() == d@.len(),
{
    let mut out: Vec<u32> = Vec::new();
    let len: usize = d.len();
    assert(a * b == b * a) by (nonlinear_arith);
    if w == 0 {
        assert forall|i: int, j: int| 0 <= i < a && 0 <= j < b implies #[trigger] row_of(
            out@,
            0,
            j * a + i,
        ) == row_of(d@, 0, i * b + j) by {
            assert((j * a + i) * 0 == 0 && (i * b + j) * 0 == 0) by (nonlinear_arith);
            assert(row_of(out@, 0, j * a + i) =~= row_of(d@, 0, i * b + j));
        }
        return out;
    }
    assert(a * b <= (a * b) * w) by (nonlinear_arith)
        requires
            0 <= a * b,
            1 <= w,
    ;
    let total: usize = a * b;
    let mut r: usize = 0;
    while r < total
        invariant
            r <= total,
            total == a * b,
            total == b * a,
            d@.len() == total * w,
            out@.len() == r * w,
            forall|q: int|
                0 <= q < r ==> #[trigger] row_of(out@, w as nat, q) == row_of(
                    d@,
                    w as nat,
                    (q % (a as int)) * b + q / (a as int),
                ),
        decreases total - r,
    {
        proof {
            lemma_position_entry(b as int, a as int, r as int);
            lemma_entry_bounds(a as int, b as int, r as int % a as int, r as int / a as int);
        }
        let i: usize = r % a;
        let j: usize = r / a;
        let mut row: Vec<u32> = slice_to_vec(row_slice(d, total, w, i * b + j));
        proof {
            lemma_push_row(out@, row@, w as nat, r as int);
        }
        out.append(&mut row);
        r += 1;
    }
    proof {
        assert forall|i: int, j: int| 0 <= i < a && 0 <= j < b implies #[trigger] row_of(
            out@,
            w as nat,
            j * a + i,
        ) == row_of(d@, w as nat, i * b + j) by {
            lemma_entry_bounds(b as int, a as int, j, i);
            lemma_entry_position(a as int, j, i);
            assert(row_of(out@, w as nat, j * a + i) == row_of(
                d@,
                w as nat,
                ((j * a + i) % (a as int)) * b + (j * a + i) / (a as int),
            ));
        }
    }
    out
}

/// The products of three extents in the orders used here agree.
pub proof fn lemma_extents(seq: int, nh: int, hd: int)
    requires
        0 <= seq,
        1 <= nh,
        0 <= hd,
    ensures
        seq * (nh * hd) == (seq * nh) * hd,
        nh * (seq * hd) == (nh * seq) * hd,
        nh * (hd * seq) == (nh * seq) * hd,
        (seq * nh) * hd == (nh * seq) * hd,
        seq * nh == nh * seq,
        hd * seq == seq * hd,
        0 <= seq * hd <= nh * (seq * hd),
        nh <= nh * seq || seq == 0,
{
    assert(seq * nh == nh * seq) by (nonlinear_arith);
    assert(hd * seq == seq * hd) by (nonlinear_arith);
    assert(seq * (nh * hd) == (seq * nh) * hd) by (nonlinear_arith);
    assert(nh * (seq * hd) == (nh * seq) * hd) by (nonlinear_arith);
    assert(0 <= seq * hd) by (nonlinear_arith)
        requires
            0 <= seq,
            0 <= hd,
    ;
    assert(seq * hd <= nh * (seq * hd)) by (nonlinear_arith)
        requires
            0 <= seq * hd,
            1 <= nh,
    ;
    assert(nh <= nh * seq || seq == 0) by (nonlinear_arith)
        requires
            0 <= seq,
            1 <= nh,
    ;
}

/// Sizes under which a `[seq, nh * hd]` matrix can be split into heads.
pub open spec fn splittable(seq: nat, nh: nat, hd: nat) -> bool {
    &&& 1 <= nh
    &&& seq * (nh * hd) <= usize::MAX
}

/// `[seq, nh * hd] -> [nh, seq, hd]`: head `h` at position `s` is entries
/// `h * hd..(h + 1) * hd` of row `s`.
pub fn reshape_heads(t: &Tensor, seq_len: usize, nh: usize, hd: usize) -> (r: Tensor)
    requires
        splittable(seq_len as nat, nh as nat, hd as nat),
        t@.data.len() == seq_len * (nh * hd),
    ensures
        r@.wf(),
        r@.shape == seq![nh, seq_len, hd],
        swaps(t@.data, seq_len as nat, nh as nat, hd as nat, r@.data),
{
    proof {
        lemma_extents(seq_len as int, nh as int, hd as int);
        lemma_numel_3(seq![nh, seq_len, hd]);
    }
    let out: Vec<u32> = swap_grid(t.data(), seq_len, nh, hd);
    let shape: Vec<usize> = shape3(nh, seq_len, hd);
    Tensor::from_vec(out, shape.as_slice())
}

/// `[nh, seq, hd] -> [seq, nh * hd]`: undoes [`reshape_heads`].
pub fn merge_heads(t: &Tensor, seq_len: usize, nh: usize, hd: usize) -> (r: Tensor)
    requires
        splittable(seq_len as nat, nh as nat, hd as nat),
        nh * hd <= usize::MAX,
        t@.data.len() == seq_len * (nh * hd),
    ensures
        r@.wf(),
        r@.shape == seq![seq_len, (nh * hd) as usize],
        swaps(t@.data, nh as nat, seq_len as nat, hd as nat, r@.data),
{
    proof {
        lemma_extents(seq_len as int, nh as int, hd as int);
        lemma_numel_2(seq![seq_len, (nh * hd) as usize]);
    }
    let out: Vec<u32> = swap_grid(t.data(), nh, seq_len, hd);
    let shape: Vec<usize> = shape2(seq_len, nh * hd);
    Tensor::from_vec(out, shape.as_slice())
}

/// Every matrix of `r` is the transpose of that matrix of `t`.
pub open spec fn transposes_planes(t: TensorView, r: TensorView) -> bool {
    let (b, m, n) = (t.shape[0], t.shape[1], t.shape[2]);
    &&& r.shape == seq![b, n, m]
    &&& forall|i: int|
        0 <= i < b ==> swaps(plane(t, i), m as nat, n as nat, 1, #[trigger] plane(r, i))
}

/// `[b, m, n] -> [b, n, m]`: transposes every matrix of a rank-3 tensor.
pub fn transpose_last_two(t: &Tensor) -> (r: Tensor)
    requires
        t@.wf(),
        t@.shape.len() == 3,
    ensures
        r@.wf(),
        transposes_planes(t@, r@),
{
    let b: usize = t.shape()[0];
    let m: usize = t.shape()[1];
    let n: usize = t.shape()[2];
    proof {
        lemma_numel_3(t@.shape);
        lemma_numel_3(seq![b, n, m]);
        assert(m * n == n * m) by (nonlinear_arith);
    }
    let mut out: Vec<u32> = Vec::new();
    let mut i: usize = 0;
    while i < b
        invariant
            i <= b,
            t@.shape.len() == 3,
            b == t@.shape[0],
            m == t@.shape[1],
            n == t@.shape[2],
            m * n == n * m,
            m * n <= usize::MAX,
            t@.data.len() == b * (m * n),
            out@.len() == i * (n * m),
            forall|q: int|
                0 <= q < i ==> swaps(
                    plane(t@, q),
                    m as nat,
                    n as nat,
                    1,
                    #[trigger] row_of(out@, (n * m) as nat, q),
                ),
        decreases b - i,
    {
        let mut part: Vec<u32> = swap_grid(row_slice(t.data(), b, m * n, i), m, n, 1);
        proof {
            lemma_push_row(out@, part@, (n * m) as nat, i as int);
        }
        out.append(&mut part);
        i += 1;
    }
    let shape: Vec<usize> = shape3(b, n, m);
    let r: Tensor = Tensor::from_vec(out, shape.as_slice());
    assert forall|q: int| 0 <= q < b implies swaps(
        plane(t@, q),
        m as nat,
        n as nat,
        1,
        #[trigger] plane(r@, q),
    ) by {
        assert(plane(r@, q) == row_of(out@, (n * m) as nat, q));
    }
    r
}

/// Splitting a matrix into heads and merging them gives the matrix back.
pub proof fn law_merge_undoes_reshape(
    t: TensorView,
    seq_len: nat,
    nh: nat,
    hd: nat,
    split: TensorView,
    merged: TensorView,
)
    requires
        t.data.len() == seq_len * (nh * hd),
        swaps(t.data, seq_len, nh, hd, split.data),
        swaps(split.data, nh, seq_len, hd, merged.data),
    ensures
        merged.data == t.data,
{
    assert(seq_len * (nh * hd) == (seq_len * nh) * hd) by (nonlinear_arith);
    lemma_swaps_back(t.data, seq_len, nh, hd, split.data, merged.data);
}

/// Entry `i` of head `h` at position `s` is entry `h * hd + i` of row `s`.
pub proof fn law_head_entries(
    d: Seq<u32>,
    seq_len: nat,
    nh: nat,
    hd: nat,
    out: Seq<u32>,
    s: int,
    h: int,
    i: int,
)
    requires
        d.len() == seq_len * (nh * hd),
        swaps(d, seq_len, nh, hd, out),
        0 <= s < seq_len,
        0 <= h < nh,
        0 <= i < hd,
    ensures
        out[h * (seq_len * hd) + s * hd + i] == d[s * (nh * hd) + h * hd + i],
{
    assert(seq_len * (nh * hd) == (seq_len * nh) * hd) by (nonlinear_arith);
    assert(h * (seq_len * hd) + s * hd + i == (h * seq_len + s) * hd + i) by (nonlinear_arith);
    assert(s * (nh * hd) + h * hd + i == (s * nh + h) * hd + i) by (nonlinear_arith);
    assert(row_of(out, hd, h * seq_len + s) == row_of(d, hd, s * nh + h));
    lemma_entry_bounds(nh as int, seq_len as int, h, s);
    lemma_entry_bounds(seq_len as int, nh as int, s, h);
    lemma_row_bounds((nh * seq_len) as int, hd as int, h * seq_len + s);
    lemma_row_bounds((seq_len * nh) as int, hd as int, s * nh + h);
    assert(row_of(out, hd, h * seq_len + s)[i] == out[(h * seq_len + s) * hd + i]);
    assert(row_of(d, hd, s * nh + h)[i] == d[(s * nh + h) * hd + i]);
}

} // verus!
