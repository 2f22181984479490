use cortex_tensor::error::CortexError;
use cortex_tensor::float::FloatUnit;
use cortex_tensor::tensor::finite::{
    l2_normalize, softmax_row, validate_norm_eps, L2_NORM_FLOOR, SOFTMAX_SUM_TOLERANCE,
};
use cortex_tensor::tensor::ops::{try_layer_norm, try_rms_norm};
use cortex_tensor::tensor::Tensor;

/// The arithmetic of the machine the tests run on.
struct Native;

impl FloatUnit for Native {
    fn add32(a: u32, b: u32) -> u32 {
        (f32::from_bits(a) + f32::from_bits(b)).to_bits()
    }
    fn sub32(a: u32, b: u32) -> u32 {
        (f32::from_bits(a) - f32::from_bits(b)).to_bits()
    }
    fn mul32(a: u32, b: u32) -> u32 {
        (f32::from_bits(a) * f32::from_bits(b)).to_bits()
    }
    fn div32(a: u32, b: u32) -> u32 {
        (f32::from_bits(a) / f32::from_bits(b)).to_bits()
    }
    fn sqrt32(a: u32) -> u32 {
        f32::from_bits(a).sqrt().to_bits()
    }
    fn exp32(a: u32) -> u32 {
        f32::from_bits(a).exp().to_bits()
    }
    fn tanh32(a: u32) -> u32 {
        f32::from_bits(a).tanh().to_bits()
    }
    fn ln32(a: u32) -> u32 {
        f32::from_bits(a).ln().to_bits()
    }
    fn cos32(a: u32) -> u32 {
        f32::from_bits(a).cos().to_bits()
    }
    fn floor32(a: u32) -> u32 {
        f32::from_bits(a).floor().to_bits()
    }
    fn ceil32(a: u32) -> u32 {
        f32::from_bits(a).ceil().to_bits()
    }
    fn count32(n: usize) -> u32 {
        (n as f32).to_bits()
    }
    fn int32(n: i32) -> u32 {
        (n as f32).to_bits()
    }
    fn index32(a: u32) -> usize {
        f32::from_bits(a) as usize
    }
    fn add64(a: u64, b: u64) -> u64 {
        (f64::from_bits(a) + f64::from_bits(b)).to_bits()
    }
    fn sub64(a: u64, b: u64) -> u64 {
        (f64::from_bits(a) - f64::from_bits(b)).to_bits()
    }
    fn mul64(a: u64, b: u64) -> u64 {
        (f64::from_bits(a) * f64::from_bits(b)).to_bits()
    }
    fn div64(a: u64, b: u64) -> u64 {
        (f64::from_bits(a) / f64::from_bits(b)).to_bits()
    }
    fn sqrt64(a: u64) -> u64 {
        f64::from_bits(a).sqrt().to_bits()
    }
    fn exp64(a: u64) -> u64 {
        f64::from_bits(a).exp().to_bits()
    }
    fn count64(n: usize) -> u64 {
        (n as f64).to_bits()
    }
    fn widen(a: u32) -> u64 {
        f64::from(f32::from_bits(a)).to_bits()
    }
    fn narrow(a: u64) -> u32 {
        (f64::from_bits(a) as f32).to_bits()
    }
    fn show32(a: u32) -> String {
        format!("{}", f32::from_bits(a))
    }
    fn fixed32(a: u32) -> String {
        format!("{:.4}", f32::from_bits(a))
    }
}

fn bits(values: &[f32]) -> Vec<u32> {
    values.iter().map(|v| v.to_bits()).collect()
}

fn floats(patterns: &[u32]) -> Vec<f32> {
    patterns.iter().map(|b| f32::from_bits(*b)).collect()
}

fn tensor(data: &[f32], shape: &[usize]) -> Tensor {
    Tensor::from_vec(bits(data), shape)
}

fn values(t: &Tensor) -> Vec<f32> {
    floats(t.data())
}

fn tolerance() -> f32 {
    f32::from_bits(SOFTMAX_SUM_TOLERANCE)
}

fn softmax_floats(logits: &[f32]) -> Vec<f32> {
    floats(&softmax_row::<Native>(&bits(logits)))
}

fn layer_norm_of(
    x: &Tensor,
    weight: &Tensor,
    bias: &Tensor,
    eps: f32,
) -> Result<Tensor, CortexError> {
    try_layer_norm::<Native>(x, weight, bias, eps.to_bits())
}

fn rms_norm_of(x: &Tensor, weight: &Tensor, eps: f32) -> Result<Tensor, CortexError> {
    try_rms_norm::<Native>(x, weight, eps.to_bits())
}

fn normalize_floats(v: &mut [f32]) {
    let mut patterns = bits(v);
    l2_normalize::<Native>(&mut patterns);
    for (slot, value) in v.iter_mut().zip(floats(&patterns)) {
        *slot = value;
    }
}

const EPS: f32 = 1e-5;


fn bits_eq(a: &[f32], b: &[f32]) {
    assert_eq!(a.len(), b.len());
    for (i, (x, y)) in a.iter().zip(b.iter()).enumerate() {
        assert_eq!(x.to_bits(), y.to_bits(), "bit mismatch at {i}: {x} vs {y}");
    }
}

fn all_finite(xs: &[f32]) -> bool {
    xs.iter().all(|x| x.is_finite())
}

fn softmax_oracle(logits: &[f32]) -> Vec<f64> {
    if logits.is_empty() {
        return Vec::new();
    }
    if logits.iter().any(|x| x.is_nan()) {
        return vec![f64::NAN; logits.len()];
    }
    let pos_inf: Vec<usize> = logits
        .iter()
        .enumerate()
        .filter(|(_, x)| x.is_infinite() && x.is_sign_positive())
        .map(|(i, _)| i)
        .collect();
    if !pos_inf.is_empty() {
        let p = 1.0 / pos_inf.len() as f64;
        let mut out = vec![0.0f64; logits.len()];
        for i in pos_inf {
            out[i] = p;
        }
        return out;
    }
    if logits
        .iter()
        .all(|x| x.is_infinite() && x.is_sign_negative())
    {
        return vec![1.0 / logits.len() as f64; logits.len()];
    }
    let mut max_v = f32::NEG_INFINITY;
    for &x in logits {
        if x > max_v {
            max_v = x;
        }
    }
    let max64 = f64::from(max_v);
    let exps: Vec<f64> = logits
        .iter()
        .map(|&x| (f64::from(x) - max64).exp())
        .collect();
    let sum: f64 = exps.iter().sum();
    exps.into_iter().map(|e| e / sum).collect()
}

fn layer_norm_oracle(x: &[f32], weight: &[f32], bias: &[f32], eps: f64) -> Vec<f64> {
    if x.iter().any(|v| !v.is_finite()) {
        return vec![f64::NAN; x.len()];
    }
    let n = x.len() as f64;
    let mean: f64 = x.iter().map(|v| f64::from(*v)).sum::<f64>() / n;
    let var: f64 = x
        .iter()
        .map(|v| {
            let d = f64::from(*v) - mean;
            d * d
        })
        .sum::<f64>()
        / n;
    let rstd = 1.0 / (var + eps).sqrt();
    x.iter()
        .zip(weight.iter())
        .zip(bias.iter())
        .map(|((&xi, &w), &b)| (f64::from(xi) - mean) * rstd * f64::from(w) + f64::from(b))
        .collect()
}

fn rms_norm_oracle(x: &[f32], weight: &[f32], eps: f64) -> Vec<f64> {
    if x.iter().any(|v| !v.is_finite()) {
        return vec![f64::NAN; x.len()];
    }
    let n = x.len() as f64;
    let ms: f64 = x
        .iter()
        .map(|v| {
            let v = f64::from(*v);
            v * v
        })
        .sum::<f64>()
        / n;
    let rstd = 1.0 / (ms + eps).sqrt();
    x.iter()
        .zip(weight.iter())
        .map(|(&xi, &w)| f64::from(xi) * rstd * f64::from(w))
        .collect()
}

/// Tiny deterministic generator so property tests do not depend on `rand`.
struct SplitMix64(u64);

impl SplitMix64 {
    fn next_u64(&mut self) -> u64 {
        self.0 = self.0.wrapping_add(0x9E3779B97F4A7C15);
        let mut z = self.0;
        z = (z ^ (z >> 30)).wrapping_mul(0xBF58476D1CE4E5B9);
        z = (z ^ (z >> 27)).wrapping_mul(0x94D049BB133111EB);
        z ^ (z >> 31)
    }

    fn next_unit(&mut self) -> f32 {
        (self.next_u64() >> 40) as f32 / (1u32 << 24) as f32
    }

    fn next_logit(&mut self) -> f32 {
        self.next_unit() * 40.0 - 20.0
    }
}

#[test]
fn softmax_empty_is_empty() {
    assert!(softmax_floats(&[]).is_empty());
}

#[test]
fn softmax_finite_baseline_matches_closed_form() {
    let y = softmax_floats(&[1.0, 2.0, 3.0]);
    let s = 1.0f64 + 1.0f64.exp() + 2.0f64.exp();
    let expected = [1.0 / s, 1.0f64.exp() / s, 2.0f64.exp() / s];
    let sum: f32 = y.iter().sum();
    assert!((sum - 1.0).abs() < tolerance());
    for (got, exp) in y.iter().zip(expected) {
        assert!((f64::from(*got) - exp).abs() < 1e-6);
    }
    assert!(y.iter().all(|p| *p >= 0.0));
}

#[test]
fn softmax_large_magnitudes_stay_finite_and_normalized() {
    let y = softmax_floats(&[1e30, 1e30, 0.0, -1e30]);
    assert!(all_finite(&y));
    assert!(y.iter().all(|p| *p >= 0.0));
    let sum: f32 = y.iter().sum();
    assert!((sum - 1.0).abs() < tolerance());
    assert!((y[0] - 0.5).abs() < 1e-5);
    assert!((y[1] - 0.5).abs() < 1e-5);
    assert!(y[2].abs() < 1e-6);
    assert!(y[3].abs() < 1e-6);
}

#[test]
fn softmax_constant_row_is_uniform() {
    let y = softmax_floats(&[4.0, 4.0, 4.0, 4.0]);
    for p in &y {
        assert!((p - 0.25).abs() < 1e-6);
    }
}

#[test]
fn softmax_long_uniform_row_respects_sum_tolerance() {
    let n = 4051;
    let y = softmax_floats(&vec![0.0; n]);
    assert_eq!(y.len(), n);
    assert!(y.iter().all(|p| p.is_finite() && *p >= 0.0));
    let sum: f32 = y.iter().copied().sum();
    assert!(
        (sum - 1.0).abs() < tolerance(),
        "sum={sum} for n={n}"
    );
    let masked = softmax_floats(&vec![f32::NEG_INFINITY; n]);
    let masked_sum: f32 = masked.iter().copied().sum();
    assert!((masked_sum - 1.0).abs() < tolerance());
    let infs = softmax_floats(&vec![f32::INFINITY; 4051]);
    let inf_sum: f32 = infs.iter().copied().sum();
    assert!((inf_sum - 1.0).abs() < tolerance());
}

#[test]
fn softmax_all_neg_inf_is_uniform() {
    let y = softmax_floats(&[f32::NEG_INFINITY, f32::NEG_INFINITY, f32::NEG_INFINITY]);
    assert!(all_finite(&y));
    for p in &y {
        assert!((p - 1.0 / 3.0).abs() < 1e-6);
    }
}

#[test]
fn softmax_single_pos_inf_is_one_hot() {
    let y = softmax_floats(&[1.0, f32::INFINITY, 3.0, f32::NEG_INFINITY]);
    bits_eq(&y, &[0.0, 1.0, 0.0, 0.0]);
}

#[test]
fn softmax_multiple_pos_inf_split_equally() {
    let y = softmax_floats(&[f32::INFINITY, 0.0, f32::INFINITY, f32::NEG_INFINITY]);
    bits_eq(&y, &[0.5, 0.0, 0.5, 0.0]);
    let y3 = softmax_floats(&[f32::INFINITY, f32::INFINITY, f32::INFINITY]);
    for p in &y3 {
        assert!((p - 1.0 / 3.0).abs() < 1e-6);
    }
    let sum: f32 = y3.iter().sum();
    assert!((sum - 1.0).abs() < tolerance());
}

#[test]
fn softmax_nan_fills_the_row() {
    let y = softmax_floats(&[1.0, f32::NAN, 2.0]);
    assert!(y.iter().all(|p| p.is_nan()));
    assert!(f32::NAN.max(2.0) == 2.0);
    assert!(y.iter().any(|p| p.is_nan()));
}

#[test]
fn softmax_matches_f64_oracle() {
    let cases: &[&[f32]] = &[
        &[1.0, 2.0, 3.0],
        &[0.0, 0.0, 0.0],
        &[1e30, -1e30, 0.0],
        &[10000.0, 10001.0, 10002.0],
        &[f32::NEG_INFINITY, 0.0, 1.0],
        &[f32::INFINITY, f32::INFINITY],
        &[f32::NEG_INFINITY, f32::NEG_INFINITY],
    ];
    for logits in cases {
        let got = softmax_floats(logits);
        let oracle = softmax_oracle(logits);
        for (g, o) in got.iter().zip(oracle.iter()) {
            if o.is_nan() {
                assert!(g.is_nan());
            } else {
                assert!((f64::from(*g) - *o).abs() < 1e-6, "{g} vs {o}");
            }
        }
    }
}

#[test]
fn softmax_is_deterministic_across_repeats() {
    let logits = [1.25f32, -3.5, 8.0, 8.0, -1e30, 1e30];
    let first = softmax_floats(&logits);
    for _ in 0..8 {
        bits_eq(&first, &softmax_floats(&logits));
    }
}

#[test]
fn property_softmax_nonneg_and_normalized() {
    let mut rng = SplitMix64(0xC0FFEE);
    for _ in 0..256 {
        let n = (rng.next_u64() as usize % 32) + 1;
        let logits: Vec<f32> = (0..n).map(|_| rng.next_logit()).collect();
        let y = softmax_floats(&logits);
        assert_eq!(y.len(), n);
        assert!(y.iter().all(|p| p.is_finite() && *p >= 0.0));
        let sum: f32 = y.iter().sum();
        assert!(
            (sum - 1.0).abs() < tolerance(),
            "sum={sum} n={n} logits={logits:?} y={y:?}"
        );
    }
}

#[test]
fn try_layer_norm_rejects_invalid_eps() {
    let x = tensor(&vec![1.0, 2.0, 3.0], &[1, 3]);
    let w = Tensor::ones(&[3]);
    let b = Tensor::zeros(&[3]);
    for eps in [0.0, -1e-5, f32::NAN, f32::INFINITY, f32::NEG_INFINITY] {
        let err = layer_norm_of(&x, &w, &b, eps).unwrap_err();
        assert!(matches!(err, CortexError::InvalidEpsilon { .. }), "{err:?}");
    }
}

#[test]
fn try_rms_norm_rejects_invalid_eps() {
    let x = tensor(&vec![1.0, 2.0], &[1, 2]);
    let w = Tensor::ones(&[2]);
    let err = rms_norm_of(&x, &w, 0.0).unwrap_err();
    assert!(matches!(err, CortexError::InvalidEpsilon { eps } if f32::from_bits(eps) == 0.0));
}

#[test]
fn try_layer_norm_rejects_zero_width() {
    let x = tensor(&[], &[3, 0]);
    let w = tensor(&[], &[0]);
    let b = tensor(&[], &[0]);
    let err = layer_norm_of(&x, &w, &b, EPS).unwrap_err();
    assert!(matches!(
        err,
        CortexError::ZeroWidth {
            op: "layer_norm",
            axis: 1,
        }
    ));
}

#[test]
fn try_rms_norm_rejects_zero_width() {
    let x = tensor(&[], &[2, 0]);
    let w = tensor(&[], &[0]);
    let err = rms_norm_of(&x, &w, EPS).unwrap_err();
    assert!(matches!(
        err,
        CortexError::ZeroWidth {
            op: "rms_norm",
            axis: 1
        }
    ));
}

#[test]
fn layer_norm_empty_batch_is_ok() {
    let x = tensor(&[], &[0, 4]);
    let w = Tensor::ones(&[4]);
    let b = Tensor::zeros(&[4]);
    let y = layer_norm_of(&x, &w, &b, EPS).unwrap();
    assert_eq!(y.shape(), &[0, 4]);
    assert!(y.data().is_empty());
}

#[test]
fn layer_norm_constant_row_is_bias() {
    let x = tensor(&vec![3.0, 3.0, 3.0], &[1, 3]);
    let w = Tensor::ones(&[3]);
    let b = tensor(&vec![0.1, -0.2, 0.3], &[3]);
    let y = layer_norm_of(&x, &w, &b, EPS).unwrap();
    for (got, want) in values(&y).iter().zip(values(&b)) {
        assert!((got - want).abs() < 1e-5);
    }
    assert!(all_finite(&values(&y)));
}

#[test]
fn layer_norm_large_offset_small_spread_is_stable() {
    let x = tensor(&vec![10000.0, 10001.0, 10002.0], &[1, 3]);
    let w = Tensor::ones(&[3]);
    let b = Tensor::zeros(&[3]);
    let y = layer_norm_of(&x, &w, &b, EPS).unwrap();
    assert!(all_finite(&values(&y)));
    let mean: f32 = values(&y).iter().sum::<f32>() / 3.0;
    assert!(mean.abs() < 1e-4);
    let oracle = layer_norm_oracle(&values(&x), &values(&w), &values(&b), f64::from(EPS));
    for (g, o) in values(&y).iter().zip(oracle.iter()) {
        assert!((f64::from(*g) - *o).abs() < 1e-5, "{g} vs {o}");
    }
}

#[test]
fn layer_norm_near_1e30_stays_finite() {
    let x = tensor(&vec![1e30, -1e30, 0.0], &[1, 3]);
    let w = Tensor::ones(&[3]);
    let b = Tensor::zeros(&[3]);
    let y = layer_norm_of(&x, &w, &b, EPS).unwrap();
    assert!(all_finite(&values(&y)));
    let oracle = layer_norm_oracle(&values(&x), &values(&w), &values(&b), f64::from(EPS));
    for (g, o) in values(&y).iter().zip(oracle.iter()) {
        assert!((f64::from(*g) - *o).abs() < 1e-4, "{g} vs {o}");
    }
}

#[test]
fn layer_norm_nan_row_is_nan() {
    let x = tensor(&vec![1.0, f32::NAN, 3.0], &[1, 3]);
    let w = Tensor::ones(&[3]);
    let b = Tensor::zeros(&[3]);
    let y = layer_norm_of(&x, &w, &b, EPS).unwrap();
    assert!(values(&y).iter().all(|v| v.is_nan()));
}

#[test]
fn layer_norm_extreme_affine_stays_finite() {
    let x = tensor(&vec![1.0, 0.0, 0.0], &[1, 3]);
    let w = tensor(&vec![f32::MAX, 1.0, 1.0], &[3]);
    let b = Tensor::zeros(&[3]);
    let y = layer_norm_of(&x, &w, &b, EPS).unwrap();
    assert!(all_finite(&values(&y)));
    assert_eq!(values(&y)[0], f32::MAX);
    let rn = rms_norm_of(&x, &w, EPS).unwrap();
    assert!(all_finite(&values(&rn)));
    assert_eq!(values(&rn)[0], f32::MAX);
}

#[test]
fn layer_norm_inf_row_is_nan() {
    let x = tensor(&vec![1.0, f32::INFINITY, -2.0], &[1, 3]);
    let w = Tensor::ones(&[3]);
    let b = Tensor::zeros(&[3]);
    let y = layer_norm_of(&x, &w, &b, EPS).unwrap();
    assert!(values(&y).iter().all(|v| v.is_nan()));
}

#[test]
fn rms_norm_large_magnitude_does_not_overflow() {
    // f32 mean-square of 1e30 is 1e60, which overflows f32 (~1e38).
    let x = tensor(&vec![1e30, -1e30], &[1, 2]);
    let w = Tensor::ones(&[2]);
    let y = rms_norm_of(&x, &w, EPS).unwrap();
    assert!(all_finite(&values(&y)));
    let oracle = rms_norm_oracle(&values(&x), &values(&w), f64::from(EPS));
    for (g, o) in values(&y).iter().zip(oracle.iter()) {
        assert!((f64::from(*g) - *o).abs() < 1e-5, "{g} vs {o}");
    }
}

#[test]
fn rms_norm_constant_row_is_finite() {
    let x = tensor(&vec![5.0, 5.0, 5.0], &[1, 3]);
    let w = Tensor::ones(&[3]);
    let y = rms_norm_of(&x, &w, EPS).unwrap();
    assert!(all_finite(&values(&y)));
    let oracle = rms_norm_oracle(&values(&x), &values(&w), f64::from(EPS));
    for (g, o) in values(&y).iter().zip(oracle.iter()) {
        assert!((f64::from(*g) - *o).abs() < 1e-5);
    }
}

#[test]
fn rms_norm_nan_row_is_nan() {
    let x = tensor(&vec![1.0, f32::NAN], &[1, 2]);
    let w = Tensor::ones(&[2]);
    let y = rms_norm_of(&x, &w, EPS).unwrap();
    assert!(values(&y).iter().all(|v| v.is_nan()));
}

#[test]
fn property_norm_finite_inputs_produce_finite_outputs() {
    let mut rng = SplitMix64(0xDEAD_BEEF);
    for _ in 0..128 {
        let n = (rng.next_u64() as usize % 24) + 1;
        let x: Vec<f32> = (0..n).map(|_| rng.next_logit()).collect();
        let w: Vec<f32> = (0..n).map(|_| rng.next_unit() + 0.25).collect();
        let b: Vec<f32> = (0..n).map(|_| rng.next_logit() * 0.1).collect();
        let xt = tensor(&x, &[1, n]);
        let wt = tensor(&w, &[n]);
        let bt = tensor(&b, &[n]);
        let ln = layer_norm_of(&xt, &wt, &bt, EPS).unwrap();
        let rn = rms_norm_of(&xt, &wt, EPS).unwrap();
        assert!(all_finite(&values(&ln)), "layer_norm {x:?}");
        assert!(all_finite(&values(&rn)), "rms_norm {x:?}");
    }
}

#[test]
fn layer_norm_and_rms_norm_are_deterministic() {
    let x = tensor(&vec![1.0, -2.0, 3.5, 1e-3], &[1, 4]);
    let w = tensor(&vec![0.9, 1.1, 1.0, 0.5], &[4]);
    let b = tensor(&vec![0.0, 0.1, -0.1, 0.0], &[4]);
    let ln = layer_norm_of(&x, &w, &b, EPS).unwrap();
    let rn = rms_norm_of(&x, &w, EPS).unwrap();
    for _ in 0..8 {
        bits_eq(&values(&ln), &values(&layer_norm_of(&x, &w, &b, EPS).unwrap()));
        bits_eq(&values(&rn), &values(&rms_norm_of(&x, &w, EPS).unwrap()));
    }
}

#[test]
fn l2_normalize_zeros_stay_zeros() {
    let mut v = vec![0.0f32; 4];
    normalize_floats(&mut v);
    bits_eq(&v, &[0.0, 0.0, 0.0, 0.0]);
}

#[test]
fn l2_normalize_nan_fills() {
    let mut v = vec![1.0, f32::NAN, 0.0];
    normalize_floats(&mut v);
    assert!(v.iter().all(|x| x.is_nan()));
}

#[test]
fn l2_normalize_large_values_stay_finite() {
    let mut v = vec![1e30, -1e30, 0.0];
    normalize_floats(&mut v);
    assert!(all_finite(&v));
    let n = v
        .iter()
        .map(|x| f64::from(*x) * f64::from(*x))
        .sum::<f64>()
        .sqrt();
    assert!((n - 1.0).abs() < 1e-5);
}

#[test]
fn l2_normalize_is_deterministic() {
    let src = [0.2f32, -0.5, 0.1, 4.0];
    let mut a = src;
    normalize_floats(&mut a);
    for _ in 0..8 {
        let mut b = src;
        normalize_floats(&mut b);
        bits_eq(&a, &b);
    }
}

#[test]
fn existing_layer_norm_fixture_mean_near_zero() {
    let x = tensor(&vec![1.0, 2.0, 3.0, 4.0, 5.0, 6.0], &[2, 3]);
    let w = Tensor::ones(&[3]);
    let b = Tensor::zeros(&[3]);
    let y = layer_norm_of(&x, &w, &b, EPS).unwrap();
    let row0_mean: f32 = values(&y)[0..3].iter().sum::<f32>() / 3.0;
    assert!(row0_mean.abs() < 1e-4);
    assert!(all_finite(&values(&y)));
}

#[test]
fn policy_constants_are_the_declared_numbers() {
    assert_eq!(f32::from_bits(SOFTMAX_SUM_TOLERANCE), 1e-5);
    assert_eq!(f64::from_bits(L2_NORM_FLOOR), 1e-8);
}

#[test]
fn epsilon_is_widened_or_refused() {
    assert_eq!(
        validate_norm_eps::<Native>(1e-5f32.to_bits()).unwrap(),
        f64::from(1e-5f32).to_bits()
    );
    for eps in [0.0f32, -0.0, -1.0, f32::NAN, f32::INFINITY] {
        assert!(matches!(
            validate_norm_eps::<Native>(eps.to_bits()),
            Err(CortexError::InvalidEpsilon { eps: e }) if e == eps.to_bits()
        ));
    }
}

#[test]
fn softmax_of_one_entry_is_one() {
    assert_eq!(softmax_floats(&[-7.5]), &[1.0]);
    assert_eq!(softmax_floats(&[f32::NEG_INFINITY]), &[1.0]);
}

#[test]
fn softmax_rows_match_their_formula_bit_by_bit() {
    let logits = [0.3f32, -1.7, 2.25, 0.9];
    let top = f64::from(2.25f32);
    let z: f64 = logits
        .iter()
        .fold(0.0, |acc, x| acc + (f64::from(*x) - top).exp());
    let mut row: Vec<f32> = logits
        .iter()
        .map(|x| ((f64::from(*x) - top).exp() / z) as f32)
        .collect();
    let sum = row.iter().fold(0.0f32, |acc, p| acc + p);
    row[2] += 1.0 - sum;
    bits_eq(&softmax_floats(&logits), &row);
}

#[test]
fn tiny_vectors_stay_and_others_get_unit_length() {
    let mut tiny = vec![1e-9f32, 0.0];
    normalize_floats(&mut tiny);
    bits_eq(&tiny, &[1e-9, 0.0]);
    let mut v = vec![3.0f32, 4.0];
    normalize_floats(&mut v);
    bits_eq(&v, &[(3.0f64 / 5.0) as f32, (4.0f64 / 5.0) as f32]);
    let mut empty: Vec<f32> = Vec::new();
    normalize_floats(&mut empty);
    assert!(empty.is_empty());
    let mut inf = vec![f32::INFINITY, 1.0];
    normalize_floats(&mut inf);
    assert!(inf.iter().all(|x| x.is_nan()));
}

#[test]
fn constant_rows_give_the_bias_exactly() {
    for c in [0.0f32, -0.0, 3.0, -1e-40, f32::MAX, f32::MIN] {
        let x = tensor(&[c; 5], &[1, 5]);
        let w = tensor(&[1.0, -2.0, 1e30, 0.0, 7.5], &[5]);
        let b = tensor(&[0.1, -0.2, f32::MAX, -1e-40, 0.0], &[5]);
        let y = layer_norm_of(&x, &w, &b, EPS).unwrap();
        assert_eq!(values(&y), values(&b), "constant {c}");
    }
}

#[test]
fn extreme_finite_rows_stay_finite() {
    let tiny = f32::from_bits(1);
    let rows = [
        [f32::MAX, f32::MIN, f32::MAX, f32::MIN],
        [tiny, -tiny, 0.0, -0.0],
        [f32::MAX, 0.0, tiny, 1.0],
        [f32::MAX; 4],
    ];
    let w = tensor(&[f32::MAX, f32::MIN, tiny, 1.0], &[4]);
    let b = tensor(&[f32::MAX, f32::MAX, f32::MIN, tiny], &[4]);
    for row in rows {
        for eps in [tiny, EPS, f32::MAX] {
            let x = tensor(&row, &[1, 4]);
            assert!(all_finite(&values(&layer_norm_of(&x, &w, &b, eps).unwrap())));
            assert!(all_finite(&values(&rms_norm_of(&x, &w, eps).unwrap())));
        }
        let y = softmax_floats(&row);
        assert!(y.iter().all(|p| p.is_finite() && *p >= 0.0));
    }
    let y = softmax_floats(&[f32::INFINITY, f32::MAX, f32::NEG_INFINITY, f32::INFINITY]);
    assert_eq!(y, [0.5, 0.0, 0.0, 0.5]);
}
