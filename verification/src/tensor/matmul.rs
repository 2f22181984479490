//! The tiled matrix product.

use vstd::prelude::*;
use crate::float::{
    FloatUnit, accumulates, adds, lemma_reaches_start, lemma_reaches_step, muls, reaches,
};
use crate::ieee::ZERO;
use crate::tensor::rows::{lemma_entry_bounds, lemma_row_bounds, row_of};

verus! {

/// Edge of the square blocks the product is computed in.
pub const TILE: usize = 32;

/// Step `p` of entry `j`: `acc + arow[p] * b[p][j]`, where `b` has `n` columns.
pub open spec fn dot_step<F: FloatUnit>(arow: Seq<u32>, b: Seq<u32>, n: int, j: int) -> spec_fn(
    int,
    u32,
    u32,
) -> bool {
    |p: int, acc: u32, r: u32| accumulates::<F>(arow[p], b[p * n + j], acc, r)
}

/// `r` is the product of a row and column `j` of `b`, accumulated from zero in
/// order of the inner index.
pub open spec fn dots<F: FloatUnit>(
    arow: Seq<u32>,
    b: Seq<u32>,
    n: int,
    j: int,
    r: u32,
) -> bool {
    reaches(dot_step::<F>(arow, b, n, j), ZERO, arow.len(), r)
}

/// `out` is the `[m, n]` product of `a: [m, k]` and `b: [k, n]`.
pub open spec fn multiplies<F: FloatUnit>(
    a: Seq<u32>,
    b: Seq<u32>,
    m: nat,
    k: nat,
    n: nat,
    out: Seq<u32>,
) -> bool {
    &&& out.len() == m * n
    &&& forall|i: int, j: int|
        0 <= i < m && 0 <= j < n ==> dots::<F>(
            row_of(a, k, i),
            b,
            n as int,
            j,
            #[trigger] out[i * n + j],
        )
}

/// Extents of the operands.
#[derive(Clone, Copy)]
struct Extents {
    m: usize,
    k: usize,
    n: usize,
}

impl Extents {
    spec fn holds(self, a: Seq<u32>, b: Seq<u32>, out: Seq<u32>) -> bool {
        &&& a.len() == self.m * self.k
        &&& b.len() == self.k * self.n
        &&& out.len() == self.m * self.n
        &&& a.len() <= usize::MAX
        &&& b.len() <= usize::MAX
        &&& out.len() <= usize::MAX
    }

    /// Entry `(i, j)` is `x` after the first `c` inner indices.
    spec fn reached<F: FloatUnit>(
        self,
        a: Seq<u32>,
        b: Seq<u32>,
        i: int,
        j: int,
        c: nat,
        x: u32,
    ) -> bool {
        reaches(dot_step::<F>(row_of(a, self.k as nat, i), b, self.n as int, j), ZERO, c, x)
    }

    spec fn at(self, out: Seq<u32>, i: int, j: int) -> u32 {
        out[i * self.n + j]
    }
}

/// A block of output entries.
#[derive(Clone, Copy)]
struct Block {
    i0: usize,
    i1: usize,
    j0: usize,
    j1: usize,
}

impl Block {
    spec fn has(self, i: int, j: int) -> bool {
        self.i0 <= i < self.i1 && self.j0 <= j < self.j1
    }
}

/// Outside `block` nothing changed.
spec fn kept(n: int, m: int, block: Block, before: Seq<u32>, after: Seq<u32>) -> bool {
    forall|i: int, j: int|
        0 <= i < m && 0 <= j < n && !block.has(i, j) ==> #[trigger] after[i * n + j] == before[i * n
            + j]
}

/// Adds `a_ip * b[p][j]` to the entries `j0..j1` of row `i`.
fn accumulate_row<F: FloatUnit>(
    a_ip: u32,
    b: &[u32],
    out: &mut Vec<u32>,
    e: Extents,
    i: usize,
    p: usize,
    j0: usize,
    j1: usize,
)
    requires
        b@.len() == e.k * e.n,
        b@.len() <= usize::MAX,
        old(out)@.len() == e.m * e.n,
        old(out)@.len() <= usize::MAX,
        i < e.m,
        p < e.k,
        j0 <= j1 <= e.n,
    ensures
        final(out)@.len() == old(out)@.len(),
        forall|j: int|
            j0 <= j < j1 ==> accumulates::<F>(
                a_ip,
                b@[p * e.n + j],
                old(out)@[i * e.n + j],
                #[trigger] final(out)@[i * e.n + j],
            ),
        forall|x: int|
            0 <= x < final(out)@.len() && !(i * e.n + j0 <= x < i * e.n + j1)
                ==> #[trigger] final(out)@[x] == old(out)@[x],
{
    let mut j: usize = j0;
    while j < j1
        invariant
            j0 <= j <= j1 <= e.n,
            b@.len() == e.k * e.n,
            b@.len() <= usize::MAX,
            out@.len() == e.m * e.n,
            out@.len() <= usize::MAX,
            out@.len() == old(out)@.len(),
            i < e.m,
            p < e.k,
            forall|q: int|
                j0 <= q < j ==> accumulates::<F>(
                    a_ip,
                    b@[p * e.n + q],
                    old(out)@[i * e.n + q],
                    #[trigger] out@[i * e.n + q],
                ),
            forall|x: int|
                0 <= x < out@.len() && !(i * e.n + j0 <= x < i * e.n + j)
                    ==> #[trigger] out@[x] == old(out)@[x],
        decreases j1 - j,
    {
        proof {
            lemma_entry_bounds(e.m as int, e.n as int, i as int, j as int);
            lemma_entry_bounds(e.k as int, e.n as int, p as int, j as int);
        }
        let t: u32 = F::mul32(a_ip, b[p * e.n + j]);
        let next: u32 = F::add32(out[i * e.n + j], t);
        proof {
            assert(muls::<F>(a_ip, b@[p * e.n + j], t) && adds::<F>(
                old(out)@[i * e.n + j],
                t,
                next,
            ));
        }
        out.set(i * e.n + j, next);
        j += 1;
    }
}

/// Takes a block of entries from inner index `p0` to `p1`.
fn accumulate_tile<F: FloatUnit>(
    a: &[u32],
    b: &[u32],
    out: &mut Vec<u32>,
    e: Extents,
    block: Block,
    p0: usize,
    p1: usize,
)
    requires
        e.holds(a@, b@, old(out)@),
        block.i0 <= block.i1 <= e.m,
        block.j0 <= block.j1 <= e.n,
        p0 <= p1 <= e.k,
        forall|i: int, j: int|
            block.has(i, j) ==> e.reached::<F>(a@, b@, i, j, p0 as nat, #[trigger] e.at(old(out)@, i, j)),
    ensures
        e.holds(a@, b@, final(out)@),
        forall|i: int, j: int|
            block.has(i, j) ==> e.reached::<F>(a@, b@, i, j, p1 as nat, #[trigger] e.at(final(out)@, i, j)),
        kept(e.n as int, e.m as int, block, old(out)@, final(out)@),
{
    let mut i: usize = block.i0;
    while i < block.i1
        invariant
            block.i0 <= i <= block.i1 <= e.m,
            block.j0 <= block.j1 <= e.n,
            p0 <= p1 <= e.k,
            e.holds(a@, b@, out@),
            forall|r: int, j: int|
                block.has(r, j) ==> e.reached::<F>(a@, b@, r, j, if r < i { p1 as nat } else { p0 as nat }, #[trigger] e.at(out@, r, j)),
            kept(e.n as int, e.m as int, block, old(out)@, out@),
        decreases block.i1 - i,
    {
        let mut p: usize = p0;
        while p < p1
            invariant
                block.i0 <= i < block.i1 <= e.m,
                block.j0 <= block.j1 <= e.n,
                p0 <= p <= p1 <= e.k,
                e.holds(a@, b@, out@),
                forall|r: int, j: int|
                    block.has(r, j) ==> e.reached::<F>(a@, b@, r, j, if r < i { p1 as nat } else if r == i { p as nat } else { p0 as nat }, #[trigger] e.at(out@, r, j)),
                kept(e.n as int, e.m as int, block, old(out)@, out@),
            decreases p1 - p,
        {
            proof {
                lemma_entry_bounds(e.m as int, e.k as int, i as int, p as int);
            }
            let ghost before = out@;
            let a_ip: u32 = a[i * e.k + p];
            accumulate_row::<F>(a_ip, b, out, e, i, p, block.j0, block.j1);
            proof {
                assert forall|r: int, j: int| block.has(r, j) implies e.reached::<F>(a@, b@, r, j, if r < i { p1 as nat } else if r == i { (p + 1) as nat } else { p0 as nat }, #[trigger] e.at(out@, r, j)) by {
                    lemma_entry_bounds(e.m as int, e.n as int, r, j);
                    if r == i {
                        assert(e.reached::<F>(a@, b@, r, j, p as nat, e.at(before, r, j)));
                        let arow = row_of(a@, e.k as nat, r);
                        lemma_row_bounds(e.m as int, e.k as int, r);
                        assert(arow[p as int] == a_ip);
                        assert(accumulates::<F>(
                            a_ip,
                            b@[p * e.n + j],
                            before[i * e.n + j],
                            out@[i * e.n + j],
                        ));
                        lemma_reaches_step(
                            dot_step::<F>(arow, b@, e.n as int, j),
                            ZERO,
                            p as nat,
                            before[r * e.n + j],
                            out@[r * e.n + j],
                        );
                    } else {
                        assert(e.reached::<F>(a@, b@, r, j, if r < i { p1 as nat } else { p0 as nat }, e.at(before, r, j)));
                        lemma_other_row(e, i as int, block, r, j);
                        assert(out@[r * e.n + j] == before[r * e.n + j]);
                    }
                }
                assert forall|r: int, j: int| 0 <= r < e.m && 0 <= j < e.n && !block.has(
                    r,
                    j,
                ) implies #[trigger] out@[r * e.n + j] == old(out)@[r * e.n + j] by {
                    lemma_entry_bounds(e.m as int, e.n as int, r, j);
                    assert(before[r * e.n + j] == old(out)@[r * e.n + j]);
                    if r != i {
                        lemma_other_row(e, i as int, block, r, j);
                    }
                    assert(out@[r * e.n + j] == before[r * e.n + j]);
                }
            }
            p += 1;
        }
        proof {
            assert forall|r: int, j: int| block.has(r, j) implies e.reached::<F>(a@, b@, r, j, if r < i + 1 { p1 as nat } else { p0 as nat }, #[trigger] e.at(out@, r, j)) by {
                assert(e.reached::<F>(a@, b@, r, j, if r < i { p1 as nat } else if r == i { p as nat } else { p0 as nat }, e.at(out@, r, j)));
            }
        }
        i += 1;
    }
    proof {
        assert forall|r: int, j: int| block.has(r, j) implies e.reached::<F>(a@, b@, r, j, p1 as nat, #[trigger] e.at(out@, r, j)) by {
            assert(e.reached::<F>(a@, b@, r, j, if r < i { p1 as nat } else { p0 as nat }, e.at(out@, r, j)));
        }
    }
}

/// Positions of different rows differ.
proof fn lemma_other_row(e: Extents, i: int, block: Block, r: int, j: int)
    requires
        0 <= i < e.m,
        0 <= r < e.m,
        0 <= j < e.n,
        r != i,
        block.j1 <= e.n,
    ensures
        !(i * e.n + block.j0 <= r * e.n + j < i * e.n + block.j1),
{
    let n = e.n as int;
    if r < i {
        assert((r + 1) * n <= i * n) by (nonlinear_arith)
            requires
                r + 1 <= i,
                n >= 0,
        ;
        assert((r + 1) * n == r * n + n) by (nonlinear_arith);
    } else {
        assert((i + 1) * n <= r * n) by (nonlinear_arith)
            requires
                i + 1 <= r,
                n >= 0,
        ;
        assert((i + 1) * n == i * n + n) by (nonlinear_arith);
    }
}

fn tile_end(start: usize, limit: usize) -> (r: usize)
    requires
        start < limit,
    ensures
        start < r <= limit,
        r == limit || r == start + TILE,
{
    if limit - start > TILE {
        start + TILE
    } else {
        limit
    }
}

/// The `[m, n]` product of two row-major buffers, block by block.
pub fn product<F: FloatUnit>(a: &[u32], b: &[u32], m: usize, k: usize, n: usize) -> (out: Vec<u32>)
    requires
        a@.len() == m * k,
        b@.len() == k * n,
        m * n <= usize::MAX,
    ensures
        multiplies::<F>(a@, b@, m as nat, k as nat, n as nat, out@),
{
    let e: Extents = Extents { m, k, n };
    let alen: usize = a.len();
    let blen: usize = b.len();
    let mut out: Vec<u32> = vec![ZERO; m * n];
    proof {
        assert forall|i: int, j: int| 0 <= i < m && 0 <= j < n implies e.reached::<F>(a@, b@, i, j, 0, #[trigger] e.at(out@, i, j)) by {
            lemma_entry_bounds(m as int, n as int, i, j);
            lemma_reaches_start(
                dot_step::<F>(row_of(a@, k as nat, i), b@, n as int, j),
                ZERO,
            );
        }
    }
    let mut i0: usize = 0;
    while i0 < m
        invariant
            e == (Extents { m, k, n }),
            i0 <= m,
            e.holds(a@, b@, out@),
            forall|i: int, j: int|
                0 <= i < m && 0 <= j < n ==> e.reached::<F>(a@, b@, i, j, if i < i0 { k as nat } else { 0 }, #[trigger] e.at(out@, i, j)),
        decreases m - i0,
    {
        let i1: usize = tile_end(i0, m);
        let mut j0: usize = 0;
        while j0 < n
            invariant
                e == (Extents { m, k, n }),
                i0 < i1 <= m,
                j0 <= n,
                e.holds(a@, b@, out@),
                forall|i: int, j: int|
                    0 <= i < m && 0 <= j < n ==> e.reached::<F>(a@, b@, i, j, if i < i0 || (i < i1 && j < j0) { k as nat } else { 0 }, #[trigger] e.at(out@, i, j)),
            decreases n - j0,
        {
            let j1: usize = tile_end(j0, n);
            let block: Block = Block { i0, i1, j0, j1 };
            let mut p0: usize = 0;
            while p0 < k
                invariant
                    e == (Extents { m, k, n }),
                    i0 < i1 <= m,
                    j0 < j1 <= n,
                    p0 <= k,
                    block == (Block { i0, i1, j0, j1 }),
                    e.holds(a@, b@, out@),
                    forall|i: int, j: int|
                        0 <= i < m && 0 <= j < n ==> e.reached::<F>(a@, b@, i, j, if i < i0 || (i < i1 && j < j0) {
                                k as nat
                            } else if block.has(i, j) {
                                p0 as nat
                            } else {
                                0
                            }, #[trigger] e.at(out@, i, j)),
                decreases k - p0,
            {
                let p1: usize = tile_end(p0, k);
                let ghost before = out@;
                assert forall|i: int, j: int| block.has(i, j) implies e.reached::<F>(a@, b@, i, j, p0 as nat, #[trigger] e.at(out@, i, j)) by {
                    assert(e.reached::<F>(a@, b@, i, j, if i < i0 || (i < i1 && j < j0) {
                            k as nat
                        } else if block.has(i, j) {
                            p0 as nat
                        } else {
                            0
                        }, e.at(out@, i, j)));
                }
                accumulate_tile::<F>(a, b, &mut out, e, block, p0, p1);
                proof {
                    assert forall|i: int, j: int| 0 <= i < m && 0 <= j < n implies e.reached::<F>(a@, b@, i, j, if i < i0 || (i < i1 && j < j0) {
                            k as nat
                        } else if block.has(i, j) {
                            p1 as nat
                        } else {
                            0
                        }, #[trigger] e.at(out@, i, j)) by {
                        if block.has(i, j) {
                            assert(e.reached::<F>(a@, b@, i, j, p1 as nat, e.at(out@, i, j)));
                        } else {
                            assert(e.reached::<F>(a@, b@, i, j, if i < i0 || (i < i1 && j < j0) {
                                    k as nat
                                } else if block.has(i, j) {
                                    p0 as nat
                                } else {
                                    0
                                }, e.at(before, i, j)));
                            assert(out@[i * n + j] == before[i * n + j]);
                        }
                    }
                }
                p0 = p1;
            }
            proof {
                assert forall|i: int, j: int| 0 <= i < m && 0 <= j < n implies e.reached::<F>(a@, b@, i, j, if i < i0 || (i < i1 && j < j1) { k as nat } else { 0 }, #[trigger] e.at(out@, i, j)) by {
                    assert(e.reached::<F>(a@, b@, i, j, if i < i0 || (i < i1 && j < j0) {
                            k as nat
                        } else if block.has(i, j) {
                            p0 as nat
                        } else {
                            0
                        }, e.at(out@, i, j)));
                }
            }
            j0 = j1;
        }
        proof {
            assert forall|i: int, j: int| 0 <= i < m && 0 <= j < n implies e.reached::<F>(a@, b@, i, j, if i < i1 { k as nat } else { 0 }, #[trigger] e.at(out@, i, j)) by {
                assert(e.reached::<F>(a@, b@, i, j, if i < i0 || (i < i1 && j < j0) { k as nat } else { 0 }, e.at(out@, i, j)));
            }
        }
        i0 = i1;
    }
    proof {
        assert forall|i: int, j: int| 0 <= i < m && 0 <= j < n implies dots::<F>(
            row_of(a@, k as nat, i),
            b@,
            n as int,
            j,
            #[trigger] out@[i * n + j],
        ) by {
            assert(e.reached::<F>(a@, b@, i, j, if i < i0 { k as nat } else { 0 }, e.at(out@, i, j)));
            lemma_row_bounds(m as int, k as int, i);
            assert(row_of(a@, k as nat, i).len() == k);
        }
    }
    out
}

} // verus!
