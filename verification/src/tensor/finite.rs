//! What every kernel does with finite and non-finite numbers.
//!
//! Storage is binary32. Sums that could lose precision or overflow there
//! (softmax partition functions, normalization moments, Euclidean norms) run in
//! binary64 and are rounded once, on output.
//!
//! | Softmax row | Result |
//! |-------------|--------|
//! | empty | empty |
//! | any NaN | all NaN |
//! | `k` values of `+Inf` | `1/k` at those, `0` elsewhere |
//! | all `-Inf` | uniform `1/n` |
//! | otherwise | max-subtracted exponentials over their sum |
//!
//! | Normalization | Result |
//! |---------------|--------|
//! | `eps` not finite or not positive | `InvalidEpsilon` |
//! | a non-finite value in the row | the row becomes NaN |
//! | finite row | affine result, overflow saturated to the largest finite value |
//!
//! | Euclidean normalization | Result |
//! |-------------------------|--------|
//! | any non-finite value | all NaN |
//! | norm at or below [`L2_NORM_FLOOR`] | unchanged |
//! | otherwise | every value over the norm |

use vstd::prelude::*;
use vstd::slice::slice_to_vec;
use crate::error::{CortexError, ErrorView};
use crate::float::{
    FloatUnit, adds, adds64, counts, counts64, divs, divs64, exps64, lemma_reaches_start,
    lemma_reaches_step, muls64, narrows, reaches, sqrts64, subs, subs64, sum_from, sums, widens,
};
use crate::ieee::{
    INFINITY, MAX, MIN, NAN, NEG_INFINITY, ONE, ONE64, ZERO, ZERO64, above, finite, finite64,
    is_above, is_above64, is_finite, is_finite64, is_nan, is_nan64, is_non_negative, magnitude64,
    nan, nan64, negative64, non_negative, rank64,
};

verus! {

/// Declared bound on `|sum - 1|` of a finite softmax row of length `1..=4096`:
/// `1e-5` as a binary32 pattern.
pub const SOFTMAX_SUM_TOLERANCE: u32 = 0x3727_C5AC;

/// Norms at or below this binary64 value (`1e-8`) leave a vector unchanged.
pub const L2_NORM_FLOOR: u64 = 0x3E45_798E_E230_8C3A;

/// `n` copies of `x`.
pub open spec fn constant(n: nat, x: u32) -> Seq<u32> {
    Seq::new(n, |i: int| x)
}

pub open spec fn any_nan(s: Seq<u32>) -> bool {
    exists|i: int| 0 <= i < s.len() && nan(#[trigger] s[i])
}

pub open spec fn all_finite(s: Seq<u32>) -> bool {
    forall|i: int| 0 <= i < s.len() ==> finite(#[trigger] s[i])
}

/// How often the pattern `x` occurs in `s`.
pub open spec fn occurrences(s: Seq<u32>, x: u32) -> nat
    decreases s.len(),
{
    if s.len() == 0 {
        0
    } else {
        occurrences(s.drop_last(), x) + if s.last() == x { 1nat } else { 0 }
    }
}

/// `m` is the first position of the largest value.
pub open spec fn first_peak(s: Seq<u32>, m: int) -> bool {
    &&& 0 <= m < s.len()
    &&& forall|i: int| 0 <= i < s.len() ==> !above(#[trigger] s[i], s[m])
    &&& forall|i: int| 0 <= i < m ==> above(s[m], #[trigger] s[i])
}

/// Usable as an epsilon: finite and positive.
pub open spec fn positive_finite(x: u32) -> bool {
    finite(x) && above(x, ZERO)
}

/// Rejects an epsilon that is not finite and positive, and widens it otherwise.
pub fn validate_norm_eps<F: FloatUnit>(eps: u32) -> (r: Result<u64, CortexError>)
    ensures
        match r {
            Ok(w) => positive_finite(eps) && widens::<F>(eps, w),
            Err(e) => !positive_finite(eps) && e@ == (ErrorView::InvalidEpsilon { eps }),
        },
{
    if is_finite(eps) && is_above(eps, ZERO) {
        Ok(F::widen(eps))
    } else {
        Err(CortexError::InvalidEpsilon { eps })
    }
}

pub fn has_nan(s: &[u32]) -> (r: bool)
    ensures
        r == any_nan(s@),
{
    let mut i: usize = 0;
    while i < s.len()
        invariant
            i <= s@.len(),
            forall|j: int| 0 <= j < i ==> !nan(#[trigger] s@[j]),
        decreases s@.len() - i,
    {
        if is_nan(s[i]) {
            return true;
        }
        i += 1;
    }
    false
}

pub fn is_all_finite(s: &[u32]) -> (r: bool)
    ensures
        r == all_finite(s@),
{
    let mut i: usize = 0;
    while i < s.len()
        invariant
            i <= s@.len(),
            forall|j: int| 0 <= j < i ==> finite(#[trigger] s@[j]),
        decreases s@.len() - i,
    {
        if !is_finite(s[i]) {
            return false;
        }
        i += 1;
    }
    true
}

fn filled(n: usize, x: u32) -> (r: Vec<u32>)
    ensures
        r@ == constant(n as nat, x),
{
    let r: Vec<u32> = vec![x; n];
    assert(r@ =~= constant(n as nat, x));
    r
}

// ── Softmax ──────────────────────────────────────────────────────────

/// Every entry is finite and not below zero.
pub open spec fn masses(s: Seq<u32>) -> bool {
    forall|i: int| 0 <= i < s.len() ==> finite(#[trigger] s[i]) && non_negative(s[i])
}

/// Intermediate values of the residual correction.
pub struct ResidualSteps {
    pub peak: int,
    pub sum: u32,
    pub gap: u32,
    pub corrected: u32,
}

pub open spec fn residual_steps<F: FloatUnit>(
    row: Seq<u32>,
    t: ResidualSteps,
    out: Seq<u32>,
) -> bool {
    &&& first_peak(row, t.peak)
    &&& sums::<F>(ZERO, row, t.sum)
    &&& if finite(t.sum) {
        &&& subs::<F>(ONE, t.sum, t.gap)
        &&& adds::<F>(row[t.peak], t.gap, t.corrected)
        &&& out == if finite(t.corrected) && non_negative(t.corrected) {
            row.update(t.peak, t.corrected)
        } else {
            row
        }
    } else {
        out == row
    }
}

/// `out` is `row` with its rounding residual `1 - sum` folded onto the first
/// largest entry. A single entry becomes exactly `1`. Rows with a negative or
/// non-finite entry stay as they are, and so does a row whose sum or corrected
/// entry is not finite or whose corrected entry is negative.
pub open spec fn corrects<F: FloatUnit>(row: Seq<u32>, out: Seq<u32>) -> bool {
    if row.len() == 0 || !masses(row) {
        out == row
    } else if row.len() == 1 {
        out == seq![ONE]
    } else {
        exists|t: ResidualSteps| residual_steps::<F>(row, t, out)
    }
}

fn is_masses(s: &[u32]) -> (r: bool)
    ensures
        r == masses(s@),
{
    let mut i: usize = 0;
    while i < s.len()
        invariant
            i <= s@.len(),
            forall|j: int| 0 <= j < i ==> finite(#[trigger] s@[j]) && non_negative(s@[j]),
        decreases s@.len() - i,
    {
        if !(is_finite(s[i]) && is_non_negative(s[i])) {
            return false;
        }
        i += 1;
    }
    true
}

/// First position of the largest value of a row without NaN.
pub fn peak_of(s: &[u32]) -> (m: usize)
    requires
        s@.len() > 0,
        !any_nan(s@),
    ensures
        first_peak(s@, m as int),
{
    let mut m: usize = 0;
    let mut i: usize = 1;
    while i < s.len()
        invariant
            1 <= i <= s@.len(),
            m < i,
            !any_nan(s@),
            forall|j: int| 0 <= j < i ==> !above(#[trigger] s@[j], s@[m as int]),
            forall|j: int| 0 <= j < m ==> above(s@[m as int], #[trigger] s@[j]),
        decreases s@.len() - i,
    {
        assert(!nan(s@[i as int]) && !nan(s@[m as int]));
        assert(forall|j: int| 0 <= j < i ==> !nan(#[trigger] s@[j]));
        if is_above(s[i], s[m]) {
            m = i;
        }
        i += 1;
    }
    m
}

/// Folds the rounding residual of a row of masses onto its first largest entry.
fn apply_simplex_residual<F: FloatUnit>(row: Vec<u32>) -> (out: Vec<u32>)
    ensures
        corrects::<F>(row@, out@),
        out@.len() == row@.len(),
{
    if row.len() == 0 || !is_masses(row.as_slice()) {
        return row;
    }
    if row.len() == 1 {
        let out: Vec<u32> = vec![ONE; 1];
        assert(out@ =~= seq![ONE]);
        return out;
    }
    assert(!any_nan(row@));
    let peak: usize = peak_of(row.as_slice());
    let sum: u32 = sum_from::<F>(ZERO, row.as_slice());
    if !is_finite(sum) {
        proof {
            let t = ResidualSteps { peak: peak as int, sum, gap: 0, corrected: 0 };
            assert(residual_steps::<F>(row@, t, row@));
        }
        return row;
    }
    let gap: u32 = F::sub32(ONE, sum);
    let corrected: u32 = F::add32(row[peak], gap);
    let mut out: Vec<u32> = slice_to_vec(row.as_slice());
    if is_finite(corrected) && is_non_negative(corrected) {
        out.set(peak, corrected);
    }
    proof {
        let t = ResidualSteps { peak: peak as int, sum, gap, corrected };
        assert(residual_steps::<F>(row@, t, out@));
    }
    out
}

/// `p` is what the unit returns for `1 / k`.
pub open spec fn shares<F: FloatUnit>(k: usize, p: u32) -> bool {
    exists|c: u32| #[trigger] counts::<F>(k, c) && divs::<F>(ONE, c, p)
}

/// `row` is the equal share of `n` entries in every place.
pub open spec fn uniform<F: FloatUnit>(n: nat, row: Seq<u32>) -> bool {
    exists|p: u32| #[trigger] shares::<F>(n as usize, p) && row == constant(n, p)
}

/// `row` splits the mass between the `+Inf` entries of `logits`.
pub open spec fn splits<F: FloatUnit>(logits: Seq<u32>, row: Seq<u32>) -> bool {
    exists|p: u32| #[trigger]
        shares::<F>(occurrences(logits, INFINITY) as usize, p) && row == logits.map_values(
            |x: u32| if x == INFINITY { p } else { ZERO },
        )
}

/// `e` is what the unit returns for `exp(x - top)` in binary64.
pub open spec fn exps_below<F: FloatUnit>(x: u32, top: u64, e: u64) -> bool {
    exists|w: u64, d: u64| #[trigger]
        widens::<F>(x, w) && #[trigger] subs64::<F>(w, top, d) && exps64::<F>(d, e)
}

pub open spec fn partition_step<F: FloatUnit>(logits: Seq<u32>, top: u64) -> spec_fn(
    int,
    u64,
    u64,
) -> bool {
    |i: int, p: u64, r: u64|
        exists|e: u64| #[trigger] exps_below::<F>(logits[i], top, e) && adds64::<F>(p, e, r)
}

/// `z` is the left-to-right sum of `exp(x - top)` over the row.
pub open spec fn partitions<F: FloatUnit>(logits: Seq<u32>, top: u64, z: u64) -> bool {
    reaches(partition_step::<F>(logits, top), ZERO64, logits.len(), z)
}

/// `r` is `exp(x - top) / z`, rounded to binary32.
pub open spec fn weighs<F: FloatUnit>(x: u32, top: u64, z: u64, r: u32) -> bool {
    exists|e: u64, q: u64| #[trigger]
        exps_below::<F>(x, top, e) && #[trigger] divs64::<F>(e, z, q) && narrows::<F>(q, r)
}

/// `row` is the stable softmax of a row with a finite maximum, before the
/// residual correction.
pub open spec fn stable<F: FloatUnit>(
    logits: Seq<u32>,
    m: int,
    top: u64,
    z: u64,
    row: Seq<u32>,
) -> bool {
    &&& first_peak(logits, m)
    &&& widens::<F>(logits[m], top)
    &&& partitions::<F>(logits, top, z)
    &&& if magnitude64(z) == 0 || !finite64(z) {
        uniform::<F>(logits.len(), row)
    } else {
        &&& row.len() == logits.len()
        &&& forall|i: int|
            0 <= i < row.len() ==> weighs::<F>(#[trigger] logits[i], top, z, row[i])
    }
}

/// The row before the residual correction, for a row without NaN.
pub open spec fn distributes<F: FloatUnit>(logits: Seq<u32>, row: Seq<u32>) -> bool {
    if logits.contains(INFINITY) {
        splits::<F>(logits, row)
    } else if logits == constant(logits.len(), NEG_INFINITY) {
        uniform::<F>(logits.len(), row)
    } else {
        exists|m: int, top: u64, z: u64| stable::<F>(logits, m, top, z, row)
    }
}

/// `out` is the softmax of one row.
pub open spec fn softmaxes<F: FloatUnit>(logits: Seq<u32>, out: Seq<u32>) -> bool {
    if logits.len() == 0 {
        out == logits
    } else if any_nan(logits) {
        out == constant(logits.len(), NAN)
    } else {
        exists|row: Seq<u32>| #[trigger]
            distributes::<F>(logits, row) && corrects::<F>(row, out)
    }
}

fn share_of<F: FloatUnit>(k: usize) -> (p: u32)
    ensures
        shares::<F>(k, p),
{
    let c: u32 = F::count32(k);
    let p: u32 = F::div32(ONE, c);
    assert(counts::<F>(k, c) && divs::<F>(ONE, c, p));
    p
}

fn uniform_row<F: FloatUnit>(n: usize) -> (row: Vec<u32>)
    ensures
        uniform::<F>(n as nat, row@),
        row@.len() == n,
{
    let p: u32 = share_of::<F>(n);
    let row: Vec<u32> = filled(n, p);
    assert(shares::<F>(n as nat as usize, p));
    row
}

fn count_infinite(s: &[u32]) -> (k: usize)
    ensures
        k == occurrences(s@, INFINITY),
        k <= s@.len(),
        k > 0 <==> s@.contains(INFINITY),
{
    let mut k: usize = 0;
    let mut i: usize = 0;
    while i < s.len()
        invariant
            i <= s@.len(),
            k <= i,
            k == occurrences(s@.take(i as int), INFINITY),
            k > 0 <==> exists|j: int| 0 <= j < i && #[trigger] s@[j] == INFINITY,
        decreases s@.len() - i,
    {
        assert(s@.take(i + 1).drop_last() =~= s@.take(i as int));
        if s[i] == INFINITY {
            k += 1;
        }
        i += 1;
    }
    assert(s@.take(s@.len() as int) =~= s@);
    k
}

fn split_row<F: FloatUnit>(logits: &[u32], k: usize) -> (row: Vec<u32>)
    requires
        k == occurrences(logits@, INFINITY),
    ensures
        splits::<F>(logits@, row@),
        row@.len() == logits@.len(),
{
    let p: u32 = share_of::<F>(k);
    let mut row: Vec<u32> = Vec::new();
    let mut i: usize = 0;
    while i < logits.len()
        invariant
            i <= logits@.len(),
            row@.len() == i,
            forall|j: int|
                0 <= j < i ==> row@[j] == if #[trigger] logits@[j] == INFINITY { p } else { ZERO },
        decreases logits@.len() - i,
    {
        row.push(if logits[i] == INFINITY { p } else { ZERO });
        i += 1;
    }
    assert(row@ =~= logits@.map_values(|x: u32| if x == INFINITY { p } else { ZERO }));
    assert(shares::<F>(occurrences(logits@, INFINITY) as usize, p));
    row
}

fn exp_below<F: FloatUnit>(x: u32, top: u64) -> (e: u64)
    ensures
        exps_below::<F>(x, top, e),
{
    let w: u64 = F::widen(x);
    let d: u64 = F::sub64(w, top);
    let e: u64 = F::exp64(d);
    assert(widens::<F>(x, w) && subs64::<F>(w, top, d) && exps64::<F>(d, e));
    e
}

fn stable_row<F: FloatUnit>(logits: &[u32]) -> (row: Vec<u32>)
    requires
        logits@.len() > 0,
        !any_nan(logits@),
    ensures
        exists|m: int, top: u64, z: u64| stable::<F>(logits@, m, top, z, row@),
        row@.len() == logits@.len(),
{
    let m: usize = peak_of(logits);
    let top: u64 = F::widen(logits[m]);
    let ghost step = partition_step::<F>(logits@, top);
    let mut z: u64 = ZERO64;
    proof {
        lemma_reaches_start(step, ZERO64);
    }
    let mut i: usize = 0;
    while i < logits.len()
        invariant
            i <= logits@.len(),
            step == partition_step::<F>(logits@, top),
            reaches(step, ZERO64, i as nat, z),
        decreases logits@.len() - i,
    {
        let e: u64 = exp_below::<F>(logits[i], top);
        let next: u64 = F::add64(z, e);
        proof {
            lemma_reaches_step(step, ZERO64, i as nat, z, next);
        }
        z = next;
        i += 1;
    }
    if !is_finite64(z) || z == ZERO64 || z == 0x8000_0000_0000_0000 {
        let row: Vec<u32> = uniform_row::<F>(logits.len());
        assert(stable::<F>(logits@, m as int, top, z, row@));
        return row;
    }
    let mut row: Vec<u32> = Vec::new();
    let mut k: usize = 0;
    while k < logits.len()
        invariant
            k <= logits@.len(),
            row@.len() == k,
            forall|j: int| 0 <= j < k ==> weighs::<F>(#[trigger] logits@[j], top, z, row@[j]),
        decreases logits@.len() - k,
    {
        let e: u64 = exp_below::<F>(logits[k], top);
        let q: u64 = F::div64(e, z);
        let r: u32 = F::narrow(q);
        assert(exps_below::<F>(logits@[k as int], top, e) && divs64::<F>(e, z, q) && narrows::<F>(
            q,
            r,
        ));
        row.push(r);
        k += 1;
    }
    assert(stable::<F>(logits@, m as int, top, z, row@));
    row
}

/// Softmax of one row.
pub fn softmax_row<F: FloatUnit>(logits: &[u32]) -> (out: Vec<u32>)
    ensures
        softmaxes::<F>(logits@, out@),
        out@.len() == logits@.len(),
{
    if logits.len() == 0 {
        let out: Vec<u32> = Vec::new();
        assert(out@ =~= logits@);
        return out;
    }
    if has_nan(logits) {
        return filled(logits.len(), NAN);
    }
    let k: usize = count_infinite(logits);
    let row: Vec<u32>;
    if k > 0 {
        row = split_row::<F>(logits, k);
    } else {
        let m: usize = peak_of(logits);
        if logits[m] == NEG_INFINITY {
            proof {
                assert forall|i: int| 0 <= i < logits@.len() implies logits@[i]
                    == NEG_INFINITY by {
                    assert(!nan(logits@[i]));
                    assert(!above(logits@[i], logits@[m as int]));
                }
                assert(logits@ =~= constant(logits@.len(), NEG_INFINITY));
            }
            row = uniform_row::<F>(logits.len());
        } else {
            assert(logits@[m as int] != constant(logits@.len(), NEG_INFINITY)[m as int]);
            row = stable_row::<F>(logits);
        }
    }
    assert(distributes::<F>(logits@, row@));
    apply_simplex_residual::<F>(row)
}

// ── Normalization ────────────────────────────────────────────────────

/// `r` is `y` rounded to binary32, overflow saturated to the largest finite value.
pub open spec fn saturates<F: FloatUnit>(y: u64, r: u32) -> bool {
    exists|n: u32| #[trigger]
        narrows::<F>(y, n) && r == if finite(n) {
            n
        } else if nan64(y) {
            NAN
        } else if negative64(y) {
            MIN
        } else {
            MAX
        }
}

/// Rounds to binary32, saturating overflow to the largest finite value.
fn saturate_f32<F: FloatUnit>(y: u64) -> (r: u32)
    ensures
        saturates::<F>(y, r),
{
    let n: u32 = F::narrow(y);
    assert(narrows::<F>(y, n));
    if is_finite(n) {
        n
    } else if is_nan64(y) {
        NAN
    } else if y >= 0x8000_0000_0000_0000 {
        MIN
    } else {
        MAX
    }
}

/// Intermediate values of one running mean and variance update.
pub struct WelfordSteps {
    pub v: u64,
    pub delta: u64,
    pub count: u64,
    pub shift: u64,
    pub rest: u64,
    pub spread: u64,
}

pub open spec fn welford_steps<F: FloatUnit>(
    x: u32,
    i: int,
    p: (u64, u64),
    t: WelfordSteps,
    r: (u64, u64),
) -> bool {
    &&& widens::<F>(x, t.v)
    &&& subs64::<F>(t.v, p.0, t.delta)
    &&& counts64::<F>((i + 1) as usize, t.count)
    &&& divs64::<F>(t.delta, t.count, t.shift)
    &&& adds64::<F>(p.0, t.shift, r.0)
    &&& subs64::<F>(t.v, r.0, t.rest)
    &&& muls64::<F>(t.delta, t.rest, t.spread)
    &&& adds64::<F>(p.1, t.spread, r.1)
}

pub open spec fn welford_step<F: FloatUnit>(x: Seq<u32>) -> spec_fn(
    int,
    (u64, u64),
    (u64, u64),
) -> bool {
    |i: int, p: (u64, u64), r: (u64, u64)|
        exists|t: WelfordSteps| welford_steps::<F>(x[i], i, p, t, r)
}

/// `r` holds the running mean of the row and its summed squared deviation.
pub open spec fn moments<F: FloatUnit>(x: Seq<u32>, r: (u64, u64)) -> bool {
    reaches(welford_step::<F>(x), (ZERO64, ZERO64), x.len(), r)
}

/// Intermediate values of `1 / sqrt(total / n + eps)`.
pub struct ScaleSteps {
    pub count: u64,
    pub share: u64,
    pub shifted: u64,
    pub root: u64,
}

pub open spec fn scale_steps<F: FloatUnit>(
    total: u64,
    n: nat,
    eps: u64,
    t: ScaleSteps,
    r: u64,
) -> bool {
    &&& counts64::<F>(n as usize, t.count)
    &&& divs64::<F>(total, t.count, t.share)
    &&& adds64::<F>(t.share, eps, t.shifted)
    &&& sqrts64::<F>(t.shifted, t.root)
    &&& divs64::<F>(ONE64, t.root, r)
}

/// `r` is `1 / sqrt(total / n + eps)`.
pub open spec fn scales<F: FloatUnit>(total: u64, n: nat, eps: u64, r: u64) -> bool {
    exists|t: ScaleSteps| scale_steps::<F>(total, n, eps, t, r)
}

/// Intermediate values of `(x - mean) * rstd * w + b`.
pub struct AffineSteps {
    pub x: u64,
    pub centred: u64,
    pub scaled: u64,
    pub w: u64,
    pub weighted: u64,
    pub b: u64,
    pub y: u64,
}

pub open spec fn affine_steps<F: FloatUnit>(
    x: u32,
    mean: u64,
    rstd: u64,
    w: u32,
    b: u32,
    t: AffineSteps,
    r: u32,
) -> bool {
    &&& widens::<F>(x, t.x)
    &&& subs64::<F>(t.x, mean, t.centred)
    &&& muls64::<F>(t.centred, rstd, t.scaled)
    &&& widens::<F>(w, t.w)
    &&& muls64::<F>(t.scaled, t.w, t.weighted)
    &&& widens::<F>(b, t.b)
    &&& adds64::<F>(t.weighted, t.b, t.y)
    &&& saturates::<F>(t.y, r)
}

/// `r` is `(x - mean) * rstd * w + b`, saturated.
pub open spec fn affine<F: FloatUnit>(
    x: u32,
    mean: u64,
    rstd: u64,
    w: u32,
    b: u32,
    r: u32,
) -> bool {
    exists|t: AffineSteps| affine_steps::<F>(x, mean, rstd, w, b, t, r)
}

/// `out` is a finite row centred on `mo.0`, scaled by `rstd` and put through
/// the affine parameters; NaN throughout if `rstd` is not finite.
pub open spec fn layer_norm_with<F: FloatUnit>(
    x: Seq<u32>,
    weight: Seq<u32>,
    bias: Seq<u32>,
    eps: u64,
    mo: (u64, u64),
    rstd: u64,
    out: Seq<u32>,
) -> bool {
    &&& moments::<F>(x, mo)
    &&& scales::<F>(mo.1, x.len(), eps, rstd)
    &&& if finite64(rstd) {
        &&& out.len() == x.len()
        &&& forall|i: int|
            0 <= i < out.len() ==> affine::<F>(
                x[i],
                mo.0,
                rstd,
                weight[i],
                bias[i],
                #[trigger] out[i],
            )
    } else {
        out == constant(x.len(), NAN)
    }
}

/// `out` is the layer normalization of one row.
pub open spec fn layer_norms<F: FloatUnit>(
    x: Seq<u32>,
    weight: Seq<u32>,
    bias: Seq<u32>,
    eps: u64,
    out: Seq<u32>,
) -> bool {
    if all_finite(x) {
        exists|mo: (u64, u64), rstd: u64|
            layer_norm_with::<F>(x, weight, bias, eps, mo, rstd, out)
    } else {
        out == constant(x.len(), NAN)
    }
}

fn scale_of<F: FloatUnit>(total: u64, n: usize, eps: u64) -> (r: u64)
    ensures
        scales::<F>(total, n as nat, eps, r),
{
    let count: u64 = F::count64(n);
    let share: u64 = F::div64(total, count);
    let shifted: u64 = F::add64(share, eps);
    let root: u64 = F::sqrt64(shifted);
    let r: u64 = F::div64(ONE64, root);
    assert(scale_steps::<F>(total, n as nat, eps, ScaleSteps { count, share, shifted, root }, r));
    r
}

fn moments_of<F: FloatUnit>(x: &[u32]) -> (r: (u64, u64))
    ensures
        moments::<F>(x@, r),
{
    let ghost step = welford_step::<F>(x@);
    let mut mean: u64 = ZERO64;
    let mut m2: u64 = ZERO64;
    proof {
        lemma_reaches_start(step, (ZERO64, ZERO64));
    }
    let mut i: usize = 0;
    while i < x.len()
        invariant
            i <= x@.len(),
            step == welford_step::<F>(x@),
            reaches(step, (ZERO64, ZERO64), i as nat, (mean, m2)),
        decreases x@.len() - i,
    {
        let v: u64 = F::widen(x[i]);
        let delta: u64 = F::sub64(v, mean);
        let count: u64 = F::count64(i + 1);
        let shift: u64 = F::div64(delta, count);
        let next: u64 = F::add64(mean, shift);
        let rest: u64 = F::sub64(v, next);
        let spread: u64 = F::mul64(delta, rest);
        let total: u64 = F::add64(m2, spread);
        proof {
            let t = WelfordSteps { v, delta, count, shift, rest, spread };
            assert(welford_steps::<F>(x@[i as int], i as int, (mean, m2), t, (next, total)));
            lemma_reaches_step(step, (ZERO64, ZERO64), i as nat, (mean, m2), (next, total));
        }
        mean = next;
        m2 = total;
        i += 1;
    }
    (mean, m2)
}

fn affine_of<F: FloatUnit>(x: u32, mean: u64, rstd: u64, w: u32, b: u32) -> (r: u32)
    ensures
        affine::<F>(x, mean, rstd, w, b, r),
{
    let xw: u64 = F::widen(x);
    let centred: u64 = F::sub64(xw, mean);
    let scaled: u64 = F::mul64(centred, rstd);
    let ww: u64 = F::widen(w);
    let weighted: u64 = F::mul64(scaled, ww);
    let bw: u64 = F::widen(b);
    let y: u64 = F::add64(weighted, bw);
    let r: u32 = saturate_f32::<F>(y);
    assert(affine_steps::<F>(
        x,
        mean,
        rstd,
        w,
        b,
        AffineSteps { x: xw, centred, scaled, w: ww, weighted, b: bw, y },
        r,
    ));
    r
}

/// Layer normalization of one row with a running binary64 mean and variance.
pub fn layer_norm_row<F: FloatUnit>(x: &[u32], weight: &[u32], bias: &[u32], eps: u64) -> (out:
    Vec<u32>)
    requires
        x@.len() > 0,
        weight@.len() == x@.len(),
        bias@.len() == x@.len(),
    ensures
        layer_norms::<F>(x@, weight@, bias@, eps, out@),
        out@.len() == x@.len(),
{
    if !is_all_finite(x) {
        return filled(x.len(), NAN);
    }
    let mo: (u64, u64) = moments_of::<F>(x);
    let rstd: u64 = scale_of::<F>(mo.1, x.len(), eps);
    if !is_finite64(rstd) {
        let out: Vec<u32> = filled(x.len(), NAN);
        assert(layer_norm_with::<F>(x@, weight@, bias@, eps, mo, rstd, out@));
        return out;
    }
    let mut out: Vec<u32> = Vec::new();
    let mut i: usize = 0;
    while i < x.len()
        invariant
            i <= x@.len(),
            weight@.len() == x@.len(),
            bias@.len() == x@.len(),
            out@.len() == i,
            forall|j: int|
                0 <= j < i ==> affine::<F>(
                    x@[j],
                    mo.0,
                    rstd,
                    weight@[j],
                    bias@[j],
                    #[trigger] out@[j],
                ),
        decreases x@.len() - i,
    {
        out.push(affine_of::<F>(x[i], mo.0, rstd, weight[i], bias[i]));
        i += 1;
    }
    assert(layer_norm_with::<F>(x@, weight@, bias@, eps, mo, rstd, out@));
    out
}

/// `r` is `acc + x * x` in binary64.
pub open spec fn adds_square<F: FloatUnit>(acc: u64, x: u32, r: u64) -> bool {
    exists|v: u64, p: u64| #[trigger]
        widens::<F>(x, v) && #[trigger] muls64::<F>(v, v, p) && adds64::<F>(acc, p, r)
}

pub open spec fn square_step<F: FloatUnit>(x: Seq<u32>) -> spec_fn(int, u64, u64) -> bool {
    |i: int, p: u64, r: u64| adds_square::<F>(p, x[i], r)
}

/// `r` is the left-to-right sum of squares in binary64.
pub open spec fn square_sums<F: FloatUnit>(x: Seq<u32>, r: u64) -> bool {
    reaches(square_step::<F>(x), ZERO64, x.len(), r)
}

/// Intermediate values of `x * rstd * w`.
pub struct WeightSteps {
    pub x: u64,
    pub scaled: u64,
    pub w: u64,
    pub y: u64,
}

pub open spec fn weight_steps<F: FloatUnit>(
    x: u32,
    rstd: u64,
    w: u32,
    t: WeightSteps,
    r: u32,
) -> bool {
    &&& widens::<F>(x, t.x)
    &&& muls64::<F>(t.x, rstd, t.scaled)
    &&& widens::<F>(w, t.w)
    &&& muls64::<F>(t.scaled, t.w, t.y)
    &&& saturates::<F>(t.y, r)
}

/// `r` is `x * rstd * w`, saturated.
pub open spec fn weights<F: FloatUnit>(x: u32, rstd: u64, w: u32, r: u32) -> bool {
    exists|t: WeightSteps| weight_steps::<F>(x, rstd, w, t, r)
}

/// `out` is a finite row scaled by `rstd` and the weights; NaN throughout if
/// `rstd` is not finite.
pub open spec fn rms_norm_with<F: FloatUnit>(
    x: Seq<u32>,
    weight: Seq<u32>,
    eps: u64,
    total: u64,
    rstd: u64,
    out: Seq<u32>,
) -> bool {
    &&& square_sums::<F>(x, total)
    &&& scales::<F>(total, x.len(), eps, rstd)
    &&& if finite64(rstd) {
        &&& out.len() == x.len()
        &&& forall|i: int|
            0 <= i < out.len() ==> weights::<F>(x[i], rstd, weight[i], #[trigger] out[i])
    } else {
        out == constant(x.len(), NAN)
    }
}

/// `out` is the root-mean-square normalization of one row.
pub open spec fn rms_norms<F: FloatUnit>(
    x: Seq<u32>,
    weight: Seq<u32>,
    eps: u64,
    out: Seq<u32>,
) -> bool {
    if all_finite(x) {
        exists|total: u64, rstd: u64| rms_norm_with::<F>(x, weight, eps, total, rstd, out)
    } else {
        out == constant(x.len(), NAN)
    }
}

fn square_sum_of<F: FloatUnit>(x: &[u32]) -> (r: u64)
    ensures
        square_sums::<F>(x@, r),
{
    let ghost step = square_step::<F>(x@);
    let mut acc: u64 = ZERO64;
    proof {
        lemma_reaches_start(step, ZERO64);
    }
    let mut i: usize = 0;
    while i < x.len()
        invariant
            i <= x@.len(),
            step == square_step::<F>(x@),
            reaches(step, ZERO64, i as nat, acc),
        decreases x@.len() - i,
    {
        let v: u64 = F::widen(x[i]);
        let p: u64 = F::mul64(v, v);
        let next: u64 = F::add64(acc, p);
        proof {
            assert(widens::<F>(x@[i as int], v) && muls64::<F>(v, v, p) && adds64::<F>(
                acc,
                p,
                next,
            ));
            assert(adds_square::<F>(acc, x@[i as int], next));
            lemma_reaches_step(step, ZERO64, i as nat, acc, next);
        }
        acc = next;
        i += 1;
    }
    acc
}

fn weight_of<F: FloatUnit>(x: u32, rstd: u64, w: u32) -> (r: u32)
    ensures
        weights::<F>(x, rstd, w, r),
{
    let xw: u64 = F::widen(x);
    let scaled: u64 = F::mul64(xw, rstd);
    let ww: u64 = F::widen(w);
    let y: u64 = F::mul64(scaled, ww);
    let r: u32 = saturate_f32::<F>(y);
    assert(weight_steps::<F>(x, rstd, w, WeightSteps { x: xw, scaled, w: ww, y }, r));
    r
}

/// Root-mean-square normalization of one row with a binary64 mean square.
pub fn rms_norm_row<F: FloatUnit>(x: &[u32], weight: &[u32], eps: u64) -> (out: Vec<u32>)
    requires
        x@.len() > 0,
        weight@.len() == x@.len(),
    ensures
        rms_norms::<F>(x@, weight@, eps, out@),
        out@.len() == x@.len(),
{
    if !is_all_finite(x) {
        return filled(x.len(), NAN);
    }
    let total: u64 = square_sum_of::<F>(x);
    let rstd: u64 = scale_of::<F>(total, x.len(), eps);
    if !is_finite64(rstd) {
        let out: Vec<u32> = filled(x.len(), NAN);
        assert(rms_norm_with::<F>(x@, weight@, eps, total, rstd, out@));
        return out;
    }
    let mut out: Vec<u32> = Vec::new();
    let mut i: usize = 0;
    while i < x.len()
        invariant
            i <= x@.len(),
            weight@.len() == x@.len(),
            out@.len() == i,
            forall|j: int|
                0 <= j < i ==> weights::<F>(x@[j], rstd, weight@[j], #[trigger] out@[j]),
        decreases x@.len() - i,
    {
        out.push(weight_of::<F>(x[i], rstd, weight[i]));
        i += 1;
    }
    assert(rms_norm_with::<F>(x@, weight@, eps, total, rstd, out@));
    out
}

// ── Euclidean normalization ──────────────────────────────────────────

/// `r` is `x / norm`, rounded to binary32.
pub open spec fn quotient<F: FloatUnit>(x: u32, norm: u64, r: u32) -> bool {
    exists|w: u64, q: u64| #[trigger]
        widens::<F>(x, w) && #[trigger] divs64::<F>(w, norm, q) && narrows::<F>(q, r)
}

/// A norm to divide by: finite and above the floor.
pub open spec fn divisible_norm(norm: u64) -> bool {
    finite64(norm) && rank64(norm) > rank64(L2_NORM_FLOOR)
}

pub open spec fn unit_length_with<F: FloatUnit>(
    x: Seq<u32>,
    total: u64,
    norm: u64,
    out: Seq<u32>,
) -> bool {
    &&& square_sums::<F>(x, total)
    &&& sqrts64::<F>(total, norm)
    &&& if divisible_norm(norm) {
        &&& out.len() == x.len()
        &&& forall|i: int| 0 <= i < out.len() ==> quotient::<F>(x[i], norm, #[trigger] out[i])
    } else {
        out == x
    }
}

/// `out` is `x` over its Euclidean norm.
pub open spec fn unit_length<F: FloatUnit>(x: Seq<u32>, out: Seq<u32>) -> bool {
    if x.len() == 0 {
        out == x
    } else if all_finite(x) {
        exists|total: u64, norm: u64| unit_length_with::<F>(x, total, norm, out)
    } else {
        out == constant(x.len(), NAN)
    }
}

/// Divides `values` by their Euclidean norm.
pub fn l2_normalize<F: FloatUnit>(values: &mut Vec<u32>)
    ensures
        unit_length::<F>(old(values)@, final(values)@),
        final(values)@.len() == old(values)@.len(),
{
    if values.len() == 0 {
        return;
    }
    if !is_all_finite(values.as_slice()) {
        *values = filled(values.len(), NAN);
        return;
    }
    let total: u64 = square_sum_of::<F>(values.as_slice());
    let norm: u64 = F::sqrt64(total);
    if !is_finite64(norm) || !is_above64(norm, L2_NORM_FLOOR) {
        assert(unit_length_with::<F>(old(values)@, total, norm, values@));
        return;
    }
    let n: usize = values.len();
    let mut out: Vec<u32> = Vec::new();
    let mut i: usize = 0;
    while i < n
        invariant
            i <= n,
            n == values@.len(),
            out@.len() == i,
            forall|j: int| 0 <= j < i ==> quotient::<F>(values@[j], norm, #[trigger] out@[j]),
        decreases n - i,
    {
        let w: u64 = F::widen(values[i]);
        let q: u64 = F::div64(w, norm);
        let r: u32 = F::narrow(q);
        assert(widens::<F>(values@[i as int], w) && divs64::<F>(w, norm, q) && narrows::<F>(q, r));
        out.push(r);
        i += 1;
    }
    *values = out;
    assert(unit_length_with::<F>(old(values)@, total, norm, values@));
}

} // verus!
