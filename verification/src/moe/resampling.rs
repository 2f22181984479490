//! What resampling reads and gives.

use vstd::prelude::*;
use crate::float::{FloatUnit, adds, ceils, counts, divs, floors, indexes, muls, subs};
use crate::ieee::{NEG_ZERO, ONE, nan, rank};
use crate::moe::routing::{
    BlendSteps, applies_options, blend_indices, blend_outside, blend_value, blends, interpolates,
    ratio, resamples, resamples_unit,
};
use crate::tensor::entries::{law_mean_of_terms, total};
use crate::tensor::finite::unit_length;
use crate::types::ExtractTokenOptions;

verus! {

/// The steps of one resampled entry.
pub struct ResampleTrace {
    pub spans: u32,
    pub parts: u32,
    pub scale: u32,
    pub bound: u32,
    pub t: BlendSteps,
}

/// Resampling to another length of at least two interpolates linearly: entry `i`
/// stands at `i` times the ratio of the spans, and mixes the entries below and
/// above that place by the distance to each.
pub proof fn law_resample_entries<F: FloatUnit>(
    input: Seq<u32>,
    target: usize,
    out: Seq<u32>,
    i: int,
) -> (s: ResampleTrace)
    requires
        input.len() > 0,
        input.len() != target,
        target >= 2,
        resamples::<F>(input, target, Some(out)),
        0 <= i < target,
    ensures
        out.len() == target,
        counts::<F>((input.len() - 1) as usize, s.spans),
        counts::<F>((target - 1) as usize, s.parts),
        divs::<F>(s.spans, s.parts, s.scale),
        counts::<F>(i as usize, s.t.at),
        muls::<F>(s.t.at, s.scale, s.t.source),
        floors::<F>(s.t.source, s.t.floor),
        indexes::<F>(s.t.floor, s.t.lo),
        ceils::<F>(s.t.source, s.t.ceil),
        counts::<F>((input.len() - 1) as usize, s.t.last),
        s.bound == s.t.ceil || s.bound == s.t.last,
        !nan(s.t.ceil) && !nan(s.t.last) ==> rank(s.bound) <= rank(s.t.ceil) && rank(s.bound)
            <= rank(s.t.last),
        indexes::<F>(s.bound, s.t.hi),
        s.t.lo < input.len(),
        s.t.lo == s.t.hi ==> out[i] == input[s.t.lo as int],
        s.t.lo != s.t.hi ==> {
            &&& s.t.hi < input.len()
            &&& counts::<F>(s.t.lo, s.t.lo_value)
            &&& subs::<F>(s.t.source, s.t.lo_value, s.t.t)
            &&& subs::<F>(ONE, s.t.t, s.t.u)
            &&& muls::<F>(input[s.t.lo as int], s.t.u, s.t.a)
            &&& muls::<F>(input[s.t.hi as int], s.t.t, s.t.b)
            &&& adds::<F>(s.t.a, s.t.b, out[i])
        },
{
    let scale = choose|scale: u32| #[trigger]
        ratio::<F>(input.len(), target, scale) && interpolates::<F>(
            input,
            target,
            scale,
            Some(out),
        );
    let (spans, parts) = choose|a: u32, b: u32| #[trigger]
        counts::<F>((input.len() - 1) as usize, a) && #[trigger] counts::<F>(
            (target - 1) as usize,
            b,
        ) && divs::<F>(a, b, scale);
    assert(blends::<F>(input, scale, i as usize, out[i]));
    let v = out[i];
    let idx = i as usize;
    let t = choose|t: BlendSteps|
        blend_indices::<F>(input.len(), scale, idx, t) && !blend_outside(input.len(), t)
            && #[trigger] blend_value::<F>(input, t, v);
    ResampleTrace { spans, parts, scale, bound: crate::ieee::smaller(t.ceil, t.last), t }
}

/// Resampling to the length a vector has keeps it.
pub proof fn law_resample_same_length<F: FloatUnit>(
    input: Seq<u32>,
    target: usize,
    r: Option<Seq<u32>>,
)
    requires
        target > 0,
        input.len() == target,
        resamples::<F>(input, target, r),
    ensures
        r == Some(input),
{
}

/// Resampling to a single entry gives the mean: the sum of all entries over how
/// many there are. Gives the sum and the count.
pub proof fn law_resample_to_one<F: FloatUnit>(input: Seq<u32>, out: Seq<u32>) -> (p: (u32, u32))
    requires
        input.len() > 1,
        resamples::<F>(input, 1, Some(out)),
    ensures
        out.len() == 1,
        total::<F>(NEG_ZERO, input, p.0),
        counts::<F>(input.len() as usize, p.1),
        divs::<F>(p.0, p.1, out[0]),
{
    law_mean_of_terms::<F>(input, out[0])
}

/// A resampled vector has the length that was asked for.
pub proof fn law_resample_length<F: FloatUnit>(input: Seq<u32>, target: usize, out: Seq<u32>)
    requires
        resamples::<F>(input, target, Some(out)),
    ensures
        out.len() == target,
{
}

/// Normalizing behind resampling divides the resampled vector by its norm. Gives
/// the resampled vector.
pub proof fn law_resample_then_divide<F: FloatUnit>(
    input: Seq<u32>,
    target: usize,
    out: Seq<u32>,
) -> (m: Seq<u32>)
    requires
        resamples_unit::<F>(input, target, Some(out)),
    ensures
        resamples::<F>(input, target, Some(m)),
        m.len() == target,
        unit_length::<F>(m, out),
{
    choose|m: Seq<u32>| #[trigger]
        resamples::<F>(input, target, Some(m)) && unit_length::<F>(m, out)
}

/// Token options resample to the target length where one is given, and divide
/// by the norm behind that. Gives the resampled row.
pub proof fn law_options_in_order<F: FloatUnit>(
    row: Seq<u32>,
    options: ExtractTokenOptions,
    out: Seq<u32>,
) -> (m: Seq<u32>)
    requires
        row.len() <= usize::MAX,
        row.len() > 0,
        applies_options::<F>(row, options, Some(out)),
    ensures
        options.target_dim matches Some(n) ==> resamples::<F>(row, n, Some(m)),
        options.target_dim is None ==> m == row,
        options.l2_normalize ==> unit_length::<F>(m, out),
        !options.l2_normalize ==> out == m,
{
    let target = match options.target_dim {
        Some(n) => n,
        None => row.len() as usize,
    };
    if options.l2_normalize {
        law_resample_then_divide::<F>(row, target, out)
    } else {
        out
    }
}

} // verus!
