//! The arithmetic a caller plugs in.
//!
//! [`FloatUnit`] is the floating-point unit: it works on bit patterns and makes
//! no promise about rounding. A contract that depends on it names the operation
//! and its operands, one relation per operation (`adds`, `muls`, ...), so what a
//! kernel returns is pinned down to the calls it makes and their order.

use vstd::prelude::*;

verus! {

/// Floating-point operations on IEEE 754 bit patterns.
///
/// Names ending in `32` take and give binary32 patterns, names ending in `64`
/// binary64 patterns.
pub trait FloatUnit {
    /// The sum `a + b`.
    fn add32(a: u32, b: u32) -> u32;

    /// The difference `a - b`.
    fn sub32(a: u32, b: u32) -> u32;

    /// The product `a * b`.
    fn mul32(a: u32, b: u32) -> u32;

    /// The quotient `a / b`.
    fn div32(a: u32, b: u32) -> u32;

    /// The square root.
    fn sqrt32(a: u32) -> u32;

    /// The natural exponential.
    fn exp32(a: u32) -> u32;

    /// The hyperbolic tangent.
    fn tanh32(a: u32) -> u32;

    /// The natural logarithm.
    fn ln32(a: u32) -> u32;

    /// The cosine of an angle in radians.
    fn cos32(a: u32) -> u32;

    /// The largest whole number at or below `a`.
    fn floor32(a: u32) -> u32;

    /// The smallest whole number at or above `a`.
    fn ceil32(a: u32) -> u32;

    /// A count as binary32.
    fn count32(n: usize) -> u32;

    /// A small integer as binary32.
    fn int32(n: i32) -> u32;

    /// The whole part of `a` as an index; saturating, NaN gives zero.
    fn index32(a: u32) -> usize;

    /// The binary64 sum.
    fn add64(a: u64, b: u64) -> u64;

    /// The binary64 difference.
    fn sub64(a: u64, b: u64) -> u64;

    /// The binary64 product.
    fn mul64(a: u64, b: u64) -> u64;

    /// The binary64 quotient.
    fn div64(a: u64, b: u64) -> u64;

    /// The binary64 square root.
    fn sqrt64(a: u64) -> u64;

    /// The binary64 exponential.
    fn exp64(a: u64) -> u64;

    /// A count as binary64.
    fn count64(n: usize) -> u64;

    /// A binary32 value as binary64.
    fn widen(a: u32) -> u64;

    /// A binary64 value rounded to binary32.
    fn narrow(a: u64) -> u32;

    /// The shortest decimal text that reads back as `a`.
    fn show32(a: u32) -> String;

    /// Decimal text of `a` with four fractional digits.
    fn fixed32(a: u32) -> String;
}

/// `r` is what the unit returns for the sum `a + b`.
pub open spec fn adds<F: FloatUnit>(a: u32, b: u32, r: u32) -> bool {
    call_ensures(F::add32, (a, b), r)
}

/// `r` is what the unit returns for the difference `a - b`.
pub open spec fn subs<F: FloatUnit>(a: u32, b: u32, r: u32) -> bool {
    call_ensures(F::sub32, (a, b), r)
}

/// `r` is what the unit returns for the product `a * b`.
pub open spec fn muls<F: FloatUnit>(a: u32, b: u32, r: u32) -> bool {
    call_ensures(F::mul32, (a, b), r)
}

/// `r` is what the unit returns for the quotient `a / b`.
pub open spec fn divs<F: FloatUnit>(a: u32, b: u32, r: u32) -> bool {
    call_ensures(F::div32, (a, b), r)
}

/// `r` is what the unit returns for the square root.
pub open spec fn sqrts<F: FloatUnit>(a: u32, r: u32) -> bool {
    call_ensures(F::sqrt32, (a,), r)
}

/// `r` is what the unit returns for the natural exponential.
pub open spec fn exps<F: FloatUnit>(a: u32, r: u32) -> bool {
    call_ensures(F::exp32, (a,), r)
}

/// `r` is what the unit returns for the hyperbolic tangent.
pub open spec fn tanhs<F: FloatUnit>(a: u32, r: u32) -> bool {
    call_ensures(F::tanh32, (a,), r)
}

/// `r` is what the unit returns for the natural logarithm.
pub open spec fn lns<F: FloatUnit>(a: u32, r: u32) -> bool {
    call_ensures(F::ln32, (a,), r)
}

/// `r` is what the unit returns for the cosine of an angle in radians.
pub open spec fn coss<F: FloatUnit>(a: u32, r: u32) -> bool {
    call_ensures(F::cos32, (a,), r)
}

/// `r` is what the unit returns for the largest whole number at or below `a`.
pub open spec fn floors<F: FloatUnit>(a: u32, r: u32) -> bool {
    call_ensures(F::floor32, (a,), r)
}

/// `r` is what the unit returns for the smallest whole number at or above `a`.
pub open spec fn ceils<F: FloatUnit>(a: u32, r: u32) -> bool {
    call_ensures(F::ceil32, (a,), r)
}

/// `r` is what the unit returns for a count as binary32.
pub open spec fn counts<F: FloatUnit>(n: usize, r: u32) -> bool {
    call_ensures(F::count32, (n,), r)
}

/// `r` is what the unit returns for a small integer as binary32.
pub open spec fn ints<F: FloatUnit>(n: i32, r: u32) -> bool {
    call_ensures(F::int32, (n,), r)
}

/// `r` is what the unit returns for the whole part of `a` as an index; saturating, NaN gives zero.
pub open spec fn indexes<F: FloatUnit>(a: u32, r: usize) -> bool {
    call_ensures(F::index32, (a,), r)
}

/// `r` is what the unit returns for the binary64 sum.
pub open spec fn adds64<F: FloatUnit>(a: u64, b: u64, r: u64) -> bool {
    call_ensures(F::add64, (a, b), r)
}

/// `r` is what the unit returns for the binary64 difference.
pub open spec fn subs64<F: FloatUnit>(a: u64, b: u64, r: u64) -> bool {
    call_ensures(F::sub64, (a, b), r)
}

/// `r` is what the unit returns for the binary64 product.
pub open spec fn muls64<F: FloatUnit>(a: u64, b: u64, r: u64) -> bool {
    call_ensures(F::mul64, (a, b), r)
}

/// `r` is what the unit returns for the binary64 quotient.
pub open spec fn divs64<F: FloatUnit>(a: u64, b: u64, r: u64) -> bool {
    call_ensures(F::div64, (a, b), r)
}

/// `r` is what the unit returns for the binary64 square root.
pub open spec fn sqrts64<F: FloatUnit>(a: u64, r: u64) -> bool {
    call_ensures(F::sqrt64, (a,), r)
}

/// `r` is what the unit returns for the binary64 exponential.
pub open spec fn exps64<F: FloatUnit>(a: u64, r: u64) -> bool {
    call_ensures(F::exp64, (a,), r)
}

/// `r` is what the unit returns for a count as binary64.
pub open spec fn counts64<F: FloatUnit>(n: usize, r: u64) -> bool {
    call_ensures(F::count64, (n,), r)
}

/// `r` is what the unit returns for a binary32 value as binary64.
pub open spec fn widens<F: FloatUnit>(a: u32, r: u64) -> bool {
    call_ensures(F::widen, (a,), r)
}

/// `r` is what the unit returns for a binary64 value rounded to binary32.
pub open spec fn narrows<F: FloatUnit>(a: u64, r: u32) -> bool {
    call_ensures(F::narrow, (a,), r)
}

/// `r` is what the unit returns for the shortest decimal text that reads back as `a`.
pub open spec fn shows<F: FloatUnit>(a: u32, r: String) -> bool {
    call_ensures(F::show32, (a,), r)
}

/// `r` is what the unit returns for the decimal text of `a` with four fractional digits.
pub open spec fn fixes<F: FloatUnit>(a: u32, r: String) -> bool {
    call_ensures(F::fixed32, (a,), r)
}

/// The unit gives one answer per question: what hardware with a fixed rounding mode does.
pub open spec fn deterministic<F: FloatUnit>() -> bool {
    &&& forall|a: u32, b: u32, r: u32, s: u32| #[trigger]
        adds::<F>(a, b, r) && #[trigger] adds::<F>(a, b, s) ==> r == s
    &&& forall|a: u32, b: u32, r: u32, s: u32| #[trigger]
        subs::<F>(a, b, r) && #[trigger] subs::<F>(a, b, s) ==> r == s
    &&& forall|a: u32, b: u32, r: u32, s: u32| #[trigger]
        muls::<F>(a, b, r) && #[trigger] muls::<F>(a, b, s) ==> r == s
    &&& forall|a: u32, b: u32, r: u32, s: u32| #[trigger]
        divs::<F>(a, b, r) && #[trigger] divs::<F>(a, b, s) ==> r == s
    &&& forall|a: u64, b: u64, r: u64, s: u64| #[trigger]
        adds64::<F>(a, b, r) && #[trigger] adds64::<F>(a, b, s) ==> r == s
    &&& forall|a: u64, b: u64, r: u64, s: u64| #[trigger]
        subs64::<F>(a, b, r) && #[trigger] subs64::<F>(a, b, s) ==> r == s
    &&& forall|a: u64, b: u64, r: u64, s: u64| #[trigger]
        muls64::<F>(a, b, r) && #[trigger] muls64::<F>(a, b, s) ==> r == s
    &&& forall|a: u64, b: u64, r: u64, s: u64| #[trigger]
        divs64::<F>(a, b, r) && #[trigger] divs64::<F>(a, b, s) ==> r == s
    &&& forall|a: usize, r: u32, s: u32| #[trigger]
        counts::<F>(a, r) && #[trigger] counts::<F>(a, s) ==> r == s
    &&& forall|a: usize, r: u64, s: u64| #[trigger]
        counts64::<F>(a, r) && #[trigger] counts64::<F>(a, s) ==> r == s
    &&& forall|a: u32, r: u64, s: u64| #[trigger]
        widens::<F>(a, r) && #[trigger] widens::<F>(a, s) ==> r == s
    &&& forall|a: u64, r: u32, s: u32| #[trigger]
        narrows::<F>(a, r) && #[trigger] narrows::<F>(a, s) ==> r == s
    &&& forall|a: u32, r: u32, s: u32| #[trigger]
        tanhs::<F>(a, r) && #[trigger] tanhs::<F>(a, s) ==> r == s
    &&& forall|a: u32, r: u32, s: u32| #[trigger]
        sqrts::<F>(a, r) && #[trigger] sqrts::<F>(a, s) ==> r == s
    &&& forall|a: u64, r: u64, s: u64| #[trigger]
        sqrts64::<F>(a, r) && #[trigger] sqrts64::<F>(a, s) ==> r == s
    &&& forall|a: u64, r: u64, s: u64| #[trigger]
        exps64::<F>(a, r) && #[trigger] exps64::<F>(a, s) ==> r == s
}

// ── Accumulation ─────────────────────────────────────────────────────

/// `trace[i + 1]` follows from `trace[i]` by step `i`.
pub open spec fn linked<S>(step: spec_fn(int, S, S) -> bool, trace: Seq<S>, i: int) -> bool {
    step(i, trace[i], trace[i + 1])
}

/// `trace` lists the partial results of steps `0..n` from `init`.
pub open spec fn traces<S>(
    step: spec_fn(int, S, S) -> bool,
    init: S,
    n: nat,
    trace: Seq<S>,
) -> bool {
    &&& trace.len() == n + 1
    &&& trace[0] == init
    &&& forall|i: int| 0 <= i < n ==> #[trigger] linked(step, trace, i)
}

/// `r` is reached from `init` by steps `0, 1, .., n - 1` in this order.
pub open spec fn reaches<S>(step: spec_fn(int, S, S) -> bool, init: S, n: nat, r: S) -> bool {
    exists|trace: Seq<S>| #[trigger] traces(step, init, n, trace) && trace[n as int] == r
}

pub proof fn lemma_reaches_start<S>(step: spec_fn(int, S, S) -> bool, init: S)
    ensures
        reaches(step, init, 0, init),
{
    let trace = seq![init];
    assert(traces(step, init, 0, trace));
}

pub proof fn lemma_reaches_step<S>(
    step: spec_fn(int, S, S) -> bool,
    init: S,
    n: nat,
    p: S,
    r: S,
)
    requires
        reaches(step, init, n, p),
        step(n as int, p, r),
    ensures
        reaches(step, init, n + 1, r),
{
    let trace = choose|trace: Seq<S>| #[trigger]
        traces(step, init, n, trace) && trace[n as int] == p;
    let longer = trace.push(r);
    assert forall|i: int| 0 <= i < n + 1 implies #[trigger] linked(step, longer, i) by {
        if i < n {
            assert(linked(step, trace, i));
        }
    }
    assert(traces(step, init, n + 1, longer));
}

/// Steps that each have at most one outcome leave at most one result.
pub proof fn lemma_reaches_unique<S>(
    step: spec_fn(int, S, S) -> bool,
    init: S,
    n: nat,
    r: S,
    s: S,
)
    requires
        reaches(step, init, n, r),
        reaches(step, init, n, s),
        forall|i: int, p: S, q1: S, q2: S| #[trigger]
            step(i, p, q1) && #[trigger] step(i, p, q2) ==> q1 == q2,
    ensures
        r == s,
{
    lemma_reaches_match(step, step, init, n, r, s);
}

/// A chain passes through its partial results.
pub proof fn lemma_traces_prefix<S>(
    step: spec_fn(int, S, S) -> bool,
    init: S,
    n: nat,
    trace: Seq<S>,
    k: nat,
)
    requires
        traces(step, init, n, trace),
        k <= n,
    ensures
        reaches(step, init, k, trace[k as int]),
{
    let part = trace.take(k as int + 1);
    assert forall|i: int| 0 <= i < k implies #[trigger] linked(step, part, i) by {
        assert(linked(step, trace, i));
    }
    assert(traces(step, init, k, part));
}

/// Chains that agree step by step up to `c` have the same partial result there.
pub proof fn lemma_traces_match<S>(
    step1: spec_fn(int, S, S) -> bool,
    step2: spec_fn(int, S, S) -> bool,
    init: S,
    n: nat,
    t1: Seq<S>,
    t2: Seq<S>,
    c: int,
)
    requires
        traces(step1, init, n, t1),
        traces(step2, init, n, t2),
        0 <= c <= n,
        forall|i: int, p: S, q1: S, q2: S|
            0 <= i < c && #[trigger] step1(i, p, q1) && #[trigger] step2(i, p, q2) ==> q1 == q2,
    ensures
        t1[c] == t2[c],
    decreases c,
{
    if c > 0 {
        lemma_traces_match(step1, step2, init, n, t1, t2, c - 1);
        assert(linked(step1, t1, c - 1));
        assert(linked(step2, t2, c - 1));
        assert(step1(c - 1, t1[c - 1], t1[c]));
        assert(step2(c - 1, t2[c - 1], t2[c]));
    }
}

/// Chains that agree step by step reach the same result.
pub proof fn lemma_reaches_match<S>(
    step1: spec_fn(int, S, S) -> bool,
    step2: spec_fn(int, S, S) -> bool,
    init: S,
    n: nat,
    r: S,
    s: S,
)
    requires
        reaches(step1, init, n, r),
        reaches(step2, init, n, s),
        forall|i: int, p: S, q1: S, q2: S|
            0 <= i < n && #[trigger] step1(i, p, q1) && #[trigger] step2(i, p, q2) ==> q1 == q2,
    ensures
        r == s,
{
    let t1 = choose|t: Seq<S>| #[trigger] traces(step1, init, n, t) && t[n as int] == r;
    let t2 = choose|t: Seq<S>| #[trigger] traces(step2, init, n, t) && t[n as int] == s;
    lemma_traces_match(step1, step2, init, n, t1, t2, n as int);
}

/// Adding up a sequence from the left.
pub open spec fn add_step<F: FloatUnit>(s: Seq<u32>) -> spec_fn(int, u32, u32) -> bool {
    |i: int, p: u32, r: u32| adds::<F>(p, s[i], r)
}

/// `r` is the left-to-right sum of `s` started at `init`.
pub open spec fn sums<F: FloatUnit>(init: u32, s: Seq<u32>, r: u32) -> bool {
    reaches(add_step::<F>(s), init, s.len(), r)
}

/// One more term extends a left-to-right sum.
pub proof fn lemma_sums_push<F: FloatUnit>(init: u32, s: Seq<u32>, p: u32, x: u32, r: u32)
    requires
        sums::<F>(init, s, p),
        adds::<F>(p, x, r),
    ensures
        sums::<F>(init, s.push(x), r),
{
    let longer = s.push(x);
    let step = add_step::<F>(s);
    let trace = choose|t: Seq<u32>| #[trigger]
        traces(step, init, s.len(), t) && t[s.len() as int] == p;
    assert forall|i: int| 0 <= i < s.len() implies #[trigger] linked(
        add_step::<F>(longer),
        trace,
        i,
    ) by {
        assert(linked(step, trace, i));
    }
    assert(traces(add_step::<F>(longer), init, s.len(), trace));
    lemma_reaches_step(add_step::<F>(longer), init, s.len(), p, r);
}

/// The sum of nothing is where it started.
pub proof fn lemma_sums_empty<F: FloatUnit>(init: u32)
    ensures
        sums::<F>(init, seq![], init),
{
    lemma_reaches_start(add_step::<F>(seq![]), init);
}

/// One multiply-accumulate: `r` is `acc + a * b`.
pub open spec fn accumulates<F: FloatUnit>(a: u32, b: u32, acc: u32, r: u32) -> bool {
    exists|t: u32| #[trigger] muls::<F>(a, b, t) && adds::<F>(acc, t, r)
}

/// Adds up `s` from the left, starting at `init`.
pub fn sum_from<F: FloatUnit>(init: u32, s: &[u32]) -> (r: u32)
    ensures
        sums::<F>(init, s@, r),
{
    let mut acc: u32 = init;
    proof {
        lemma_reaches_start(add_step::<F>(s@), init);
    }
    let mut i: usize = 0;
    while i < s.len()
        invariant
            i <= s@.len(),
            reaches(add_step::<F>(s@), init, i as nat, acc),
        decreases s@.len() - i,
    {
        let next: u32 = F::add32(acc, s[i]);
        proof {
            lemma_reaches_step(add_step::<F>(s@), init, i as nat, acc, next);
        }
        acc = next;
        i += 1;
    }
    acc
}

} // verus!
