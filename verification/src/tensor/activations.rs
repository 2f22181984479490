//! What activations and samples are made of.

use vstd::prelude::*;
use crate::float::{FloatUnit, adds, coss, divs, exps, lns, muls, sqrts, tanhs, widens};
use crate::ieee::{ONE, finite, magnitude, negated, rank};
use crate::tensor::{
    GeluSteps, SampleSteps, TensorView, damps, gelu_steps, gelus, sample_of_draws, sample_steps,
    silus,
};
use crate::tensor::entries::{absorbing, alike, neutral_zero};
use crate::tensor::finite::{layer_norms, rms_norms};
use crate::tensor::ops::{layer_norm_rows, layer_normalizes, rms_norm_rows, rms_normalizes};

verus! {

/// The GELU in its tanh form: half of `x` times one plus the tanh of
/// `sqrt(2 / pi)` times `x` plus `0.044715` times its cube.
pub proof fn law_gelu_formula<F: FloatUnit>(x: u32, r: u32) -> (t: GeluSteps)
    requires
        gelus::<F>(x, r),
    ensures
        divs::<F>(0x4000_0000, 0x4049_0FDB, t.ratio),
        sqrts::<F>(t.ratio, t.c),
        muls::<F>(0x3D37_2713, x, t.x1),
        muls::<F>(t.x1, x, t.x2),
        muls::<F>(t.x2, x, t.x3),
        adds::<F>(x, t.x3, t.inner),
        muls::<F>(t.c, t.inner, t.angle),
        tanhs::<F>(t.angle, t.tanh),
        adds::<F>(0x3F80_0000, t.tanh, t.gate),
        muls::<F>(x, 0x3F00_0000, t.half),
        muls::<F>(t.half, t.gate, r),
{
    choose|t: GeluSteps| gelu_steps::<F>(x, t, r)
}

/// The GELU of a zero is a zero, for a unit whose tanh of a zero is a zero and
/// whose `sqrt(2 / pi)` is finite.
pub proof fn law_gelu_of_zero<F: FloatUnit>(x: u32, r: u32)
    requires
        absorbing::<F>(),
        neutral_zero::<F>(),
        forall|z: u32, t: u32| magnitude(z) == 0 && #[trigger] tanhs::<F>(z, t) ==> magnitude(t) == 0,
        forall|q: u32, c: u32| #[trigger]
            divs::<F>(0x4000_0000, 0x4049_0FDB, q) && #[trigger] sqrts::<F>(q, c) ==> finite(c),
        magnitude(x) == 0,
        gelus::<F>(x, r),
    ensures
        magnitude(r) == 0,
{
    let t = law_gelu_formula::<F>(x, r);
    assert(magnitude(t.x1) == 0);
    assert(magnitude(t.x2) == 0);
    assert(magnitude(t.x3) == 0);
    assert(alike(t.inner, x));
    assert(magnitude(t.angle) == 0);
    assert(magnitude(t.tanh) == 0);
    assert(alike(t.gate, 0x3F80_0000));
    assert(magnitude(t.half) == 0);
}

/// The SiLU: `x` over one plus the exponential of its negation.
pub proof fn law_silu_formula<F: FloatUnit>(x: u32, r: u32) -> (t: (u32, u32))
    requires
        silus::<F>(x, r),
    ensures
        exps::<F>(negated(x), t.0),
        adds::<F>(0x3F80_0000, t.0, t.1),
        divs::<F>(x, t.1, r),
{
    let e = choose|e: u32| #[trigger] exps::<F>(negated(x), e) && damps::<F>(x, e, r);
    (e, law_damp_formula::<F>(x, e, r))
}

/// Damping: `x` over one plus `e`.
pub proof fn law_damp_formula<F: FloatUnit>(x: u32, e: u32, r: u32) -> (d: u32)
    requires
        damps::<F>(x, e, r),
    ensures
        adds::<F>(0x3F80_0000, e, d),
        divs::<F>(x, d, r),
{
    choose|d: u32| #[trigger] adds::<F>(ONE, e, d) && divs::<F>(x, d, r)
}

/// A normal sample of two draws: `mean + std * sqrt(-2 ln u) * cos(2 pi v)`, the
/// first draw not below `1e-7`.
pub proof fn law_sample_formula<F: FloatUnit>(
    mean: u32,
    std: u32,
    first: u32,
    second: u32,
    r: u32,
) -> (t: SampleSteps)
    requires
        finite(first),
        sample_of_draws::<F>(mean, std, first, second, r),
    ensures
        rank(first) >= rank(0x33D6_BF95) ==> lns::<F>(first, t.ln),
        rank(first) < rank(0x33D6_BF95) ==> lns::<F>(0x33D6_BF95, t.ln),
        muls::<F>(0xC000_0000, t.ln, t.twice),
        sqrts::<F>(t.twice, t.radius),
        muls::<F>(0x4000_0000, 0x4049_0FDB, t.turn),
        muls::<F>(t.turn, second, t.angle),
        coss::<F>(t.angle, t.cos),
        muls::<F>(t.radius, t.cos, t.z),
        muls::<F>(std, t.z, t.scaled),
        adds::<F>(mean, t.scaled, r),
{
    choose|t: SampleSteps| sample_steps::<F>(mean, std, first, second, t, r)
}

/// Every row of a layer normalization is normalized by the weights and biases
/// of the tensors, with the epsilon that was asked for. Gives it widened.
pub proof fn law_layer_norm_rows<F: FloatUnit>(
    x: TensorView,
    weight: TensorView,
    bias: TensorView,
    eps: u32,
    r: TensorView,
) -> (w: u64)
    requires
        layer_normalizes::<F>(x, weight, bias, eps, r),
    ensures
        widens::<F>(eps, w),
        r.shape == x.shape,
        forall|p: int|
            0 <= p < x.shape[0] ==> layer_norms::<F>(
                x.row(p),
                weight.data,
                bias.data,
                w,
                #[trigger] r.row(p),
            ),
{
    choose|w: u64| #[trigger] widens::<F>(eps, w) && layer_norm_rows::<F>(x, weight, bias, w, r)
}

/// Every row of a root-mean-square normalization is normalized by the weights of
/// the tensor, with the epsilon that was asked for. Gives it widened.
pub proof fn law_rms_norm_rows<F: FloatUnit>(
    x: TensorView,
    weight: TensorView,
    eps: u32,
    r: TensorView,
) -> (w: u64)
    requires
        rms_normalizes::<F>(x, weight, eps, r),
    ensures
        widens::<F>(eps, w),
        r.shape == x.shape,
        forall|p: int|
            0 <= p < x.shape[0] ==> rms_norms::<F>(
                x.row(p),
                weight.data,
                w,
                #[trigger] r.row(p),
            ),
{
    choose|w: u64| #[trigger] widens::<F>(eps, w) && rms_norm_rows::<F>(x, weight, w, r)
}

} // verus!
