//! Rows of a row-major buffer.

use vstd::prelude::*;
use vstd::slice::slice_subrange;

verus! {

/// Row `r` of a buffer whose rows hold `cols` entries.
pub open spec fn row_of(data: Seq<u32>, cols: nat, r: int) -> Seq<u32> {
    data.subrange(r * cols, r * cols + cols)
}

/// A row of a buffer of `rows * cols` entries lies inside it.
pub proof fn lemma_row_bounds(rows: int, cols: int, r: int)
    requires
        0 <= r < rows,
        0 <= cols,
    ensures
        0 <= r * cols,
        r * cols + cols <= rows * cols,
        (r + 1) * cols == r * cols + cols,
{
    assert(0 <= r * cols) by (nonlinear_arith)
        requires
            0 <= r,
            0 <= cols,
    ;
    assert((r + 1) * cols == r * cols + cols) by (nonlinear_arith);
    assert((r + 1) * cols <= rows * cols) by (nonlinear_arith)
        requires
            r + 1 <= rows,
            0 <= cols,
    ;
}

/// An entry of a buffer of `rows * cols` entries lies inside it.
pub proof fn lemma_entry_bounds(rows: int, cols: int, r: int, c: int)
    requires
        0 <= r < rows,
        0 <= c < cols,
    ensures
        0 <= r * cols,
        0 <= r * cols + c < rows * cols,
{
    lemma_row_bounds(rows, cols, r);
}

/// The position of an entry gives back its row and column.
pub proof fn lemma_entry_position(cols: int, r: int, c: int)
    requires
        0 <= r,
        0 <= c < cols,
    ensures
        (r * cols + c) / cols == r,
        (r * cols + c) % cols == c,
{
    vstd::arithmetic::div_mod::lemma_fundamental_div_mod_converse(r * cols + c, cols, r, c);
}

/// Every position is the entry of some row and column.
pub proof fn lemma_position_entry(rows: int, cols: int, k: int)
    requires
        0 <= k < rows * cols,
        0 <= cols,
        0 <= rows,
    ensures
        0 < cols,
        0 <= k / cols < rows,
        0 <= k % cols < cols,
        k == (k / cols) * cols + k % cols,
{
    assert(cols > 0) by (nonlinear_arith)
        requires
            0 <= k < rows * cols,
            0 <= cols,
    ;
    vstd::arithmetic::div_mod::lemma_fundamental_div_mod(k, cols);
    assert(k == (k / cols) * cols + k % cols) by (nonlinear_arith)
        requires
            k == cols * (k / cols) + (k % cols),
    ;
    assert(k / cols < rows) by (nonlinear_arith)
        requires
            k < rows * cols,
            cols > 0,
            k == (k / cols) * cols + k % cols,
            k % cols >= 0,
    ;
    assert(k / cols >= 0) by (nonlinear_arith)
        requires
            k >= 0,
            cols > 0,
    ;
}

/// Appending one row keeps the earlier rows and adds the new one.
pub proof fn lemma_push_row(data: Seq<u32>, new: Seq<u32>, cols: nat, r: int)
    requires
        data.len() == r * cols,
        new.len() == cols,
        0 <= r,
    ensures
        (data + new).len() == (r + 1) * cols,
        row_of(data + new, cols, r) == new,
        forall|q: int|
            0 <= q < r ==> #[trigger] row_of(data + new, cols, q) == row_of(data, cols, q),
{
    assert((r + 1) * cols == r * cols + cols) by (nonlinear_arith);
    assert(row_of(data + new, cols, r) =~= new);
    assert forall|q: int| 0 <= q < r implies #[trigger] row_of(data + new, cols, q) == row_of(
        data,
        cols,
        q,
    ) by {
        lemma_row_bounds(r, cols as int, q);
        assert(row_of(data + new, cols, q) =~= row_of(data, cols, q));
    }
}

/// Buffers with the same rows are equal.
pub proof fn lemma_rows_determine(a: Seq<u32>, b: Seq<u32>, rows: nat, cols: nat)
    requires
        a.len() == rows * cols,
        b.len() == rows * cols,
        forall|r: int| 0 <= r < rows ==> #[trigger] row_of(a, cols, r) == row_of(b, cols, r),
    ensures
        a == b,
{
    assert forall|k: int| 0 <= k < a.len() implies a[k] == b[k] by {
        lemma_position_entry(rows as int, cols as int, k);
        let r = k / cols as int;
        let c = k % cols as int;
        assert(row_of(a, cols, r) == row_of(b, cols, r));
        lemma_row_bounds(rows as int, cols as int, r);
        assert(a[k] == row_of(a, cols, r)[c]);
        assert(b[k] == row_of(b, cols, r)[c]);
    }
    assert(a =~= b);
}

/// Row `r` as a slice.
pub fn row_slice<'a>(data: &'a [u32], rows: usize, cols: usize, r: usize) -> (s: &'a [u32])
    requires
        data@.len() == rows * cols,
        r < rows,
    ensures
        s@ == row_of(data@, cols as nat, r as int),
        s@.len() == cols,
{
    let len: usize = data.len();
    proof {
        lemma_row_bounds(rows as int, cols as int, r as int);
    }
    slice_subrange(data, r * cols, r * cols + cols)
}

} // verus!
