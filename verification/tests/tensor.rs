use cortex_tensor::error::CortexError;
use cortex_tensor::float::FloatUnit;
use cortex_tensor::ieee;
use cortex_tensor::random::unit_draw;
use cortex_tensor::reference_json;
use cortex_tensor::tensor::layout::{check_f32_alloc, checked_numel, try_compute_strides};
use cortex_tensor::tensor::ops::{
    batched_matmul, causal_mask, embedding, layer_norm, matmul, rms_norm, softmax,
    try_batched_matmul, try_causal_mask, try_embedding, try_layer_norm, try_matmul, try_rms_norm,
    try_softmax,
};
use cortex_tensor::tensor::{box_muller, Tensor};

/// The arithmetic of the machine the tests run on.
struct Native;

impl FloatUnit for Native {
    fn add32(a: u32, b: u32) -> u32 {
        (f32::from_bits(a) + f32::from_bits(b)).to_bits()
    }
    fn sub32(a: u32, b: u32) -> u32 {
        (f32::from_bits(a) - f32::from_bits(b)).to_bits()
    }
    fn mul32(a: u32, b: u32) -> u32 {
        (f32::from_bits(a) * f32::from_bits(b)).to_bits()
    }
    fn div32(a: u32, b: u32) -> u32 {
        (f32::from_bits(a) / f32::from_bits(b)).to_bits()
    }
    fn sqrt32(a: u32) -> u32 {
        f32::from_bits(a).sqrt().to_bits()
    }
    fn exp32(a: u32) -> u32 {
        f32::from_bits(a).exp().to_bits()
    }
    fn tanh32(a: u32) -> u32 {
        f32::from_bits(a).tanh().to_bits()
    }
    fn ln32(a: u32) -> u32 {
        f32::from_bits(a).ln().to_bits()
    }
    fn cos32(a: u32) -> u32 {
        f32::from_bits(a).cos().to_bits()
    }
    fn floor32(a: u32) -> u32 {
        f32::from_bits(a).floor().to_bits()
    }
    fn ceil32(a: u32) -> u32 {
        f32::from_bits(a).ceil().to_bits()
    }
    fn count32(n: usize) -> u32 {
        (n as f32).to_bits()
    }
    fn int32(n: i32) -> u32 {
        (n as f32).to_bits()
    }
    fn index32(a: u32) -> usize {
        f32::from_bits(a) as usize
    }
    fn add64(a: u64, b: u64) -> u64 {
        (f64::from_bits(a) + f64::from_bits(b)).to_bits()
    }
    fn sub64(a: u64, b: u64) -> u64 {
        (f64::from_bits(a) - f64::from_bits(b)).to_bits()
    }
    fn mul64(a: u64, b: u64) -> u64 {
        (f64::from_bits(a) * f64::from_bits(b)).to_bits()
    }
    fn div64(a: u64, b: u64) -> u64 {
        (f64::from_bits(a) / f64::from_bits(b)).to_bits()
    }
    fn sqrt64(a: u64) -> u64 {
        f64::from_bits(a).sqrt().to_bits()
    }
    fn exp64(a: u64) -> u64 {
        f64::from_bits(a).exp().to_bits()
    }
    fn count64(n: usize) -> u64 {
        (n as f64).to_bits()
    }
    fn widen(a: u32) -> u64 {
        f64::from(f32::from_bits(a)).to_bits()
    }
    fn narrow(a: u64) -> u32 {
        (f64::from_bits(a) as f32).to_bits()
    }
    fn show32(a: u32) -> String {
        format!("{}", f32::from_bits(a))
    }
    fn fixed32(a: u32) -> String {
        format!("{:.4}", f32::from_bits(a))
    }
}

fn bits(values: &[f32]) -> Vec<u32> {
    values.iter().map(|v| v.to_bits()).collect()
}

fn floats(patterns: &[u32]) -> Vec<f32> {
    patterns.iter().map(|b| f32::from_bits(*b)).collect()
}

fn tensor(values: &[f32], shape: &[usize]) -> Tensor {
    Tensor::from_vec(bits(values), shape)
}

fn values(t: &Tensor) -> Vec<f32> {
    floats(t.data())
}

#[test]
fn test_from_vec_and_shape() {
    let t = tensor(&[1.0, 2.0, 3.0, 4.0, 5.0, 6.0], &[2, 3]);
    assert_eq!(t.shape(), &[2, 3]);
    assert_eq!(t.numel(), 6);
    assert_eq!(t.row_major_strides(), &[3, 1]);
}

#[test]
fn try_from_vec_matches_from_vec_on_valid_input() {
    let data = bits(&[1.0, 2.0, 3.0, 4.0, 5.0, 6.0]);
    let a = Tensor::from_vec(data.clone(), &[2, 3]);
    let b = Tensor::try_from_vec(data, &[2, 3]).unwrap();
    assert_eq!(a.data(), b.data());
    assert_eq!(a.shape(), b.shape());
    assert_eq!(a.row_major_strides(), b.row_major_strides());
}

#[test]
fn test_transpose() {
    let t = tensor(&[1.0, 2.0, 3.0, 4.0, 5.0, 6.0], &[2, 3]);
    let tt = t.transpose();
    assert_eq!(tt.shape(), &[3, 2]);
    assert_eq!(values(&tt), &[1.0, 4.0, 2.0, 5.0, 3.0, 6.0]);
}

#[test]
fn test_softmax() {
    let t = tensor(&[1.0, 2.0, 3.0], &[3]);
    let s = t.softmax_last::<Native>();
    let sum: f32 = values(&s).iter().sum();
    assert!((sum - 1.0).abs() < 1e-5);
}

#[test]
fn test_softmax_last_rejects_rank_3() {
    let t = tensor(&[1.0; 8], &[2, 2, 2]);
    let err = t.try_softmax_last::<Native>().unwrap_err();
    assert!(matches!(err, CortexError::InvalidConfig(_)));
}

#[test]
fn test_softmax_2d_rows_and_all_masked() {
    let t = tensor(
        &[
            1.0,
            2.0,
            3.0,
            f32::NEG_INFINITY,
            f32::NEG_INFINITY,
            f32::NEG_INFINITY,
        ],
        &[2, 3],
    );
    let s = values(&t.softmax_last::<Native>());
    let row0: f32 = s[0..3].iter().sum();
    assert!((row0 - 1.0).abs() < 1e-5);
    for p in &s[3..6] {
        assert!((p - 1.0 / 3.0).abs() < 1e-6);
    }
}

#[test]
fn try_elementwise_ops_report_shape_mismatch() {
    let a = tensor(&[1.0, 2.0, 3.0, 4.0], &[2, 2]);
    let b = tensor(&[1.0, 2.0, 3.0, 4.0, 5.0, 6.0], &[2, 3]);
    for (name, err) in [
        ("add", a.try_add::<Native>(&b).unwrap_err()),
        ("sub", a.try_sub::<Native>(&b).unwrap_err()),
        ("mul", a.try_mul::<Native>(&b).unwrap_err()),
    ] {
        assert!(
            matches!(
                err,
                CortexError::ShapeMismatch { ref expected, ref got }
                    if expected == &[2, 2] && got == &[2, 3]
            ),
            "{name}: {err:?}"
        );
    }
}

#[test]
fn try_reshape_and_transpose_validate() {
    let t = tensor(&[1.0, 2.0, 3.0, 4.0, 5.0, 6.0], &[2, 3]);
    assert!(matches!(
        t.try_reshape(&[4, 2]).unwrap_err(),
        CortexError::ShapeMismatch { .. }
    ));
    assert_eq!(t.try_reshape(&[3, 2]).unwrap().shape(), &[3, 2]);
    assert!(matches!(
        tensor(&[1.0, 2.0], &[2]).try_transpose().unwrap_err(),
        CortexError::RankMismatch {
            expected: 2,
            got: 1
        }
    ));
}

#[test]
fn reshape_and_transpose_are_copies_not_views() {
    let mut src = tensor(&[1.0, 2.0, 3.0, 4.0, 5.0, 6.0], &[2, 3]);
    let reshaped = src.reshape(&[3, 2]);
    assert_eq!(reshaped.shape(), &[3, 2]);
    assert_eq!(reshaped.data(), src.data());
    src.data_mut()[0] = 99.0f32.to_bits();
    assert_eq!(values(&reshaped)[0], 1.0, "reshape must not alias source");

    let t = tensor(&[1.0, 2.0, 3.0, 4.0, 5.0, 6.0], &[2, 3]);
    let tt = t.transpose();
    assert_eq!(tt.shape(), &[3, 2]);
    assert_eq!(values(&tt), &[1.0, 4.0, 2.0, 5.0, 3.0, 6.0]);
}

#[test]
fn reshape_in_place_reuses_buffer_without_copy() {
    let mut t = tensor(&[1.0, 2.0, 3.0, 4.0, 5.0, 6.0], &[2, 3]);
    t.reshape_in_place(&[6]).unwrap();
    assert_eq!(t.shape(), &[6]);
    assert_eq!(values(&t), &[1.0, 2.0, 3.0, 4.0, 5.0, 6.0]);

    let mut t = tensor(&[1.0, 2.0, 3.0, 4.0], &[2, 2]);
    assert!(matches!(
        t.reshape_in_place(&[3, 2]).unwrap_err(),
        CortexError::ShapeMismatch { .. }
    ));
    assert_eq!(t.shape(), &[2, 2], "failed reshape must not mutate shape");
    assert_eq!(values(&t), &[1.0, 2.0, 3.0, 4.0], "data must be intact");
}

#[test]
fn row_major_strides_recomputes_from_shape() {
    let t = tensor(&[0.0; 24], &[2, 3, 4]);
    assert_eq!(t.row_major_strides(), &[12, 4, 1]);
    assert_eq!(t.try_row_major_strides().unwrap(), vec![12, 4, 1]);
    let scalar = Tensor::try_from_vec(bits(&[1.0]), &[]).unwrap();
    assert!(scalar.row_major_strides().is_empty());
}

#[test]
fn elementwise_ops_require_exact_shape_no_broadcast() {
    let a = tensor(&[1.0, 2.0, 3.0, 4.0, 5.0, 6.0], &[2, 3]);
    let row = tensor(&[10.0, 20.0, 30.0], &[1, 3]);
    let scalar_like = tensor(&[10.0], &[1]);
    for (name, err) in [
        ("add row", a.try_add::<Native>(&row).unwrap_err()),
        ("sub row", a.try_sub::<Native>(&row).unwrap_err()),
        ("mul row", a.try_mul::<Native>(&row).unwrap_err()),
        (
            "add scalar-like",
            a.try_add::<Native>(&scalar_like).unwrap_err(),
        ),
    ] {
        assert!(
            matches!(err, CortexError::ShapeMismatch { .. }),
            "{name}: {err:?}"
        );
    }
    let b = tensor(&[6.0, 5.0, 4.0, 3.0, 2.0, 1.0], &[2, 3]);
    assert_eq!(
        values(&a.try_add::<Native>(&b).unwrap()),
        &[7.0, 7.0, 7.0, 7.0, 7.0, 7.0]
    );
}

#[test]
fn try_row_bounds_check() {
    let t = tensor(&[1.0, 2.0, 3.0, 4.0], &[2, 2]);
    assert_eq!(values(&t.try_row(1).unwrap()), &[3.0, 4.0]);
    assert!(matches!(
        t.try_row(9).unwrap_err(),
        CortexError::IndexOutOfBounds {
            axis: 0,
            index: 9,
            size: 2
        }
    ));
    let rank1 = tensor(&[1.0], &[1]);
    assert!(matches!(
        rank1.try_row(0).unwrap_err(),
        CortexError::RankMismatch {
            expected: 2,
            got: 1
        }
    ));
}

#[test]
fn argmax_nan_uses_ieee_total_order_without_panic() {
    let t = tensor(&[1.0, f32::NAN, 3.0], &[3]);
    assert_eq!(t.argmax(), 1);
    let neg = f32::from_bits(0xffc0_0000);
    let t = tensor(&[neg, 1.0, 3.0], &[3]);
    assert_eq!(t.argmax(), 2);
    let t = tensor(&[f32::NAN, f32::NAN], &[2]);
    let _ = t.argmax();
    let t = Tensor::try_from_vec(vec![], &[0]).unwrap();
    assert_eq!(t.argmax(), 0);
}

#[test]
fn softmax_last_all_neg_inf_is_uniform() {
    let t = tensor(&[f32::NEG_INFINITY, f32::NEG_INFINITY], &[2]);
    let s = t.softmax_last::<Native>();
    assert!(values(&s).iter().all(|p| (p - 0.5).abs() < 1e-6));
}

#[test]
fn test_gelu() {
    let t = tensor(&[0.0, 1.0, -1.0], &[3]);
    let g = values(&t.gelu::<Native>());
    assert!((g[0] - 0.0).abs() < 1e-4);
    assert!(g[1] > 0.8);
}

#[test]
fn try_from_vec_accepts_empty_and_zero_axes() {
    let empty = Tensor::try_from_vec(vec![], &[0, 3]).unwrap();
    assert_eq!(empty.numel(), 0);
    assert_eq!(empty.shape(), &[0, 3]);
    assert_eq!(empty.row_major_strides(), &[3, 1]);

    let zero_1d = Tensor::try_from_vec(vec![], &[0]).unwrap();
    assert_eq!(zero_1d.numel(), 0);
    assert_eq!(zero_1d.row_major_strides(), &[1]);

    let scalar = Tensor::try_from_vec(bits(&[3.5]), &[]).unwrap();
    assert_eq!(scalar.numel(), 1);
    assert!(scalar.row_major_strides().is_empty());
    assert_eq!(values(&scalar), &[3.5]);
}

struct Case {
    name: &'static str,
    data: Vec<f32>,
    shape: Vec<usize>,
    check: fn(&CortexError) -> bool,
}

#[test]
fn try_from_vec_error_table() {
    let cases = [
        Case {
            name: "length mismatch",
            data: vec![1.0, 2.0],
            shape: vec![2, 3],
            check: |e| {
                matches!(
                    e,
                    CortexError::ShapeMismatch {
                        expected,
                        got
                    } if expected == &[2, 3] && got == &[2]
                )
            },
        },
        Case {
            name: "empty data for non-empty shape",
            data: vec![],
            shape: vec![4],
            check: |e| matches!(e, CortexError::ShapeMismatch { .. }),
        },
        Case {
            name: "scalar requires one element",
            data: vec![],
            shape: vec![],
            check: |e| {
                matches!(
                    e,
                    CortexError::ShapeMismatch { expected, got }
                        if expected.is_empty() && got == &[0]
                )
            },
        },
        Case {
            name: "product overflow",
            data: vec![],
            shape: vec![usize::MAX, 2],
            check: |e| {
                matches!(
                    e,
                    CortexError::SizeOverflow { shape } if shape == &[usize::MAX, 2]
                )
            },
        },
        Case {
            name: "stride overflow with zero numel",
            data: vec![],
            shape: vec![0, usize::MAX, 2],
            check: |e| matches!(e, CortexError::SizeOverflow { .. }),
        },
    ];
    for case in cases {
        let err = Tensor::try_from_vec(bits(&case.data), &case.shape).expect_err(case.name);
        assert!((case.check)(&err), "{}: {err:?}", case.name);
    }
}

#[test]
fn overflow_shapes_fail_without_giant_allocation() {
    let shapes: &[&[usize]] = &[
        &[usize::MAX, 2],
        &[2, usize::MAX],
        &[usize::MAX, usize::MAX],
        &[usize::MAX / 2 + 1, 2],
        &[0, usize::MAX, 2],
        &[0, 2, usize::MAX],
    ];
    for shape in shapes {
        let err = Tensor::try_from_vec(Vec::new(), shape).unwrap_err();
        assert!(
            matches!(err, CortexError::SizeOverflow { shape: ref got } if got.as_slice() == *shape),
            "shape {shape:?} -> {err:?}"
        );
    }

    let cancelled = Tensor::try_from_vec(vec![], &[usize::MAX, 0, 2]).unwrap();
    assert_eq!(cancelled.numel(), 0);
    assert_eq!(cancelled.row_major_strides(), &[0, 2, 1]);

    let trailing = Tensor::try_from_vec(vec![], &[3, usize::MAX, 0]).unwrap();
    assert_eq!(trailing.numel(), 0);
    assert_eq!(trailing.row_major_strides(), &[0, 0, 1]);
}

fn check_shape(shape: &[usize]) {
    let numel = match checked_numel(shape) {
        Ok(n) => n,
        Err(CortexError::SizeOverflow { shape: got }) => {
            assert_eq!(got, shape);
            return;
        }
        Err(other) => panic!("numel check failed unexpectedly: {other:?}"),
    };
    match try_compute_strides(shape) {
        Ok(strides) => {
            let t = Tensor::try_from_vec(vec![0.5f32.to_bits(); numel], shape)
                .expect("shape with representable numel and strides must construct");
            assert_eq!(t.numel(), numel);
            assert_eq!(t.data().len(), numel);
            assert_eq!(t.shape(), shape);
            assert_eq!(t.row_major_strides(), strides.as_slice());
            if shape.is_empty() {
                assert!(strides.is_empty());
            } else {
                assert_eq!(*strides.last().unwrap(), 1);
                for i in (0..shape.len().saturating_sub(1)).rev() {
                    let expected = strides[i + 1]
                        .checked_mul(shape[i + 1])
                        .expect("successful stride vector is overflow-free");
                    assert_eq!(strides[i], expected);
                }
            }
        }
        Err(CortexError::SizeOverflow { .. }) => {
            assert!(Tensor::try_from_vec(vec![0.5f32.to_bits(); numel], shape).is_err());
        }
        Err(other) => panic!("stride check failed unexpectedly: {other:?}"),
    }
}

fn each_shape(prefix: &mut Vec<usize>, max_rank: usize, max_dim: usize) {
    check_shape(prefix);
    if prefix.len() >= max_rank {
        return;
    }
    for d in 0..=max_dim {
        prefix.push(d);
        each_shape(prefix, max_rank, max_dim);
        prefix.pop();
    }
}

#[test]
fn property_accepted_shapes_match_numel_and_strides() {
    each_shape(&mut Vec::new(), 4, 4);
}

#[test]
fn test_matmul_2x2() {
    let a = tensor(&[1.0, 2.0, 3.0, 4.0], &[2, 2]);
    let b = tensor(&[5.0, 6.0, 7.0, 8.0], &[2, 2]);
    let c = matmul::<Native>(&a, &b);
    assert_eq!(c.shape(), &[2, 2]);
    assert_eq!(values(&c), &[19.0, 22.0, 43.0, 50.0]);
}

#[test]
fn test_layer_norm() {
    let x = tensor(&[1.0, 2.0, 3.0, 4.0, 5.0, 6.0], &[2, 3]);
    let w = Tensor::ones(&[3]);
    let b = Tensor::zeros(&[3]);
    let y = values(&layer_norm::<Native>(&x, &w, &b, 1e-5f32.to_bits()));
    let row0_mean: f32 = y[0..3].iter().sum::<f32>() / 3.0;
    assert!(row0_mean.abs() < 1e-4);
}

#[test]
fn test_softmax_op_matches_tensor_softmax_last() {
    let t = tensor(&[1.0, 2.0, 3.0, 0.0], &[2, 2]);
    let a = softmax::<Native>(&t);
    let b = t.softmax_last::<Native>();
    assert_eq!(a.data(), b.data());
}

#[test]
fn test_rms_norm_unit_weight() {
    let x = tensor(&[3.0, -4.0], &[1, 2]);
    let w = Tensor::ones(&[2]);
    let y = values(&rms_norm::<Native>(&x, &w, 1e-5f32.to_bits()));
    assert!(y.iter().all(|v| v.is_finite()));
    let ms = (9.0f64 + 16.0) / 2.0;
    let rstd = 1.0 / (ms + 1e-5).sqrt();
    assert!((f64::from(y[0]) - 3.0 * rstd).abs() < 1e-5);
    assert!((f64::from(y[1]) + 4.0 * rstd).abs() < 1e-5);
}

#[test]
fn test_causal_mask() {
    let m = values(&causal_mask(3));
    assert_eq!(m[0], 0.0);
    assert!(m[1].is_infinite());
    assert_eq!(m[4], 0.0);
}

#[test]
fn test_embedding() {
    let table = tensor(&[0.1, 0.2, 0.3, 0.4, 0.5, 0.6], &[3, 2]);
    let ids = vec![2u32, 0u32];
    let out = embedding(&table, &ids);
    assert_eq!(out.shape(), &[2, 2]);
    assert_eq!(values(&out), &[0.5, 0.6, 0.1, 0.2]);
}

#[test]
fn retained_panic_wrappers_have_stable_signatures() {
    let _: fn(Vec<u32>, &[usize]) -> Tensor = Tensor::from_vec;
    let _: fn(&[usize]) -> Tensor = Tensor::zeros;
    let _: fn(&[usize]) -> Tensor = Tensor::ones;
    let _: fn(&[usize], u32) -> Tensor = Tensor::full;
    let _: fn(&[usize], u32, u32) -> Tensor = Tensor::randn::<Native>;
    let _: fn(&Tensor, &Tensor) -> Tensor = matmul::<Native>;
    let _: fn(&Tensor, &Tensor) -> Tensor = batched_matmul::<Native>;
    let _: fn(&Tensor, &Tensor, &Tensor, u32) -> Tensor = layer_norm::<Native>;
    let _: fn(&Tensor, &Tensor, u32) -> Tensor = rms_norm::<Native>;
    let _: fn(&Tensor, &[u32]) -> Tensor = embedding;
}

#[test]
fn fallible_apis_are_public() {
    let _: fn(Vec<u32>, &[usize]) -> Result<Tensor, CortexError> = Tensor::try_from_vec;
    let _: fn(&Tensor, &Tensor) -> Result<Tensor, CortexError> = try_matmul::<Native>;
    let _: fn(&Tensor, &Tensor) -> Result<Tensor, CortexError> = try_batched_matmul::<Native>;
    let _: fn(&Tensor, &[u32]) -> Result<Tensor, CortexError> = try_embedding;
    let _: fn(&Tensor, &Tensor, &Tensor, u32) -> Result<Tensor, CortexError> =
        try_layer_norm::<Native>;
    let _: fn(&Tensor, &Tensor, u32) -> Result<Tensor, CortexError> = try_rms_norm::<Native>;
}

// ── Exact values ─────────────────────────────────────────────────────

#[test]
fn fills_hold_their_value() {
    assert_eq!(values(&Tensor::zeros(&[2, 2])), &[0.0; 4]);
    assert_eq!(values(&Tensor::ones(&[3])), &[1.0; 3]);
    assert_eq!(values(&Tensor::full(&[2], 2.5f32.to_bits())), &[2.5, 2.5]);
    assert_eq!(Tensor::zeros(&[]).numel(), 1);
}

#[test]
fn oversized_fills_are_refused() {
    let half = usize::MAX / 4;
    for shape in [[usize::MAX, 2], [half, 1], [half, 4]] {
        for r in [
            Tensor::try_zeros(&shape),
            Tensor::try_ones(&shape),
            Tensor::try_full(&shape, 0),
            Tensor::try_randn::<Native>(&shape, 0, 0),
        ] {
            assert!(matches!(r, Err(CortexError::SizeOverflow { .. })));
        }
    }
    assert!(check_f32_alloc(isize::MAX as usize / 4, &[1]).is_ok());
    assert!(check_f32_alloc(isize::MAX as usize / 4 + 1, &[1]).is_err());
}

#[test]
fn normal_samples_have_their_mean_and_deviation() {
    let t = Tensor::randn::<Native>(&[100, 100], 3.0f32.to_bits(), 2.0f32.to_bits());
    let v = values(&t);
    let n = v.len() as f64;
    let mean: f64 = v.iter().map(|x| f64::from(*x)).sum::<f64>() / n;
    let var: f64 = v.iter().map(|x| (f64::from(*x) - mean).powi(2)).sum::<f64>() / n;
    assert!((mean - 3.0).abs() < 0.2, "mean {mean}");
    assert!((var.sqrt() - 2.0).abs() < 0.2, "deviation {}", var.sqrt());
}

#[test]
fn elementwise_values() {
    let a = tensor(&[1.0, -2.0, 0.5], &[3]);
    let b = tensor(&[4.0, 3.0, -0.5], &[3]);
    assert_eq!(values(&a.add::<Native>(&b)), &[5.0, 1.0, 0.0]);
    assert_eq!(values(&a.sub::<Native>(&b)), &[-3.0, -5.0, 1.0]);
    assert_eq!(values(&a.mul::<Native>(&b)), &[4.0, -6.0, -0.25]);
    assert_eq!(values(&a.scale::<Native>(2.0f32.to_bits())), &[2.0, -4.0, 1.0]);
    assert_eq!(
        values(&a.add_scalar::<Native>(1.0f32.to_bits())),
        &[2.0, -1.0, 1.5]
    );
}

#[test]
fn activation_values() {
    let xs = [-2.0f32, -0.5, 0.0, 1.0, 3.0];
    let t = tensor(&xs, &[5]);
    assert_eq!(values(&t.relu()), &[0.0, 0.0, 0.0, 1.0, 3.0]);
    assert_eq!(values(&tensor(&[f32::NAN], &[1]).relu()), &[0.0]);
    for (y, x) in values(&t.silu::<Native>()).iter().zip(xs) {
        assert_eq!(*y, x / (1.0 + (-x).exp()));
    }
    for (y, x) in values(&t.fast_sigmoid::<Native>()).iter().zip(xs) {
        assert_eq!(*y, x / (1.0 + x.abs()));
    }
    for (y, x) in values(&t.gelu::<Native>()).iter().zip(xs) {
        let c = (2.0f32 / std::f32::consts::PI).sqrt();
        assert_eq!(*y, x * 0.5 * (1.0 + (c * (x + 0.044715 * x * x * x)).tanh()));
    }
}

#[test]
fn reductions() {
    let t = tensor(&[1.0, 4.0, -2.0, 4.0], &[2, 2]);
    assert_eq!(f32::from_bits(t.sum::<Native>()), 7.0);
    assert_eq!(f32::from_bits(t.mean::<Native>()), 1.75);
    assert_eq!(f32::from_bits(t.max_val()), 4.0);
    assert_eq!(t.argmax(), 3);
    let empty = Tensor::zeros(&[0]);
    assert_eq!(empty.max_val(), f32::NEG_INFINITY.to_bits());
    assert_eq!(empty.sum::<Native>(), (-0.0f32).to_bits());
    let nan = tensor(&[f32::NAN, 2.0, f32::NAN], &[3]);
    assert_eq!(f32::from_bits(nan.max_val()), 2.0);
    let all_nan = tensor(&[f32::NAN; 2], &[2]);
    assert_eq!(all_nan.max_val(), f32::NEG_INFINITY.to_bits());
}

#[test]
fn matmul_larger_than_a_tile_accumulates_in_order() {
    let (m, k, n) = (37, 70, 41);
    let a: Vec<f32> = (0..m * k).map(|i| ((i * 7) % 13) as f32 * 0.37 - 1.1).collect();
    let b: Vec<f32> = (0..k * n).map(|i| ((i * 5) % 11) as f32 * 0.21 - 0.9).collect();
    let c = values(&matmul::<Native>(&tensor(&a, &[m, k]), &tensor(&b, &[k, n])));
    for i in 0..m {
        for j in 0..n {
            let mut acc = 0.0f32;
            for p in 0..k {
                acc += a[i * k + p] * b[p * n + j];
            }
            assert_eq!(acc.to_bits(), c[i * n + j].to_bits(), "({i}, {j})");
        }
    }
}

#[test]
fn matmul_refusals() {
    let m23 = Tensor::zeros(&[2, 3]);
    let v = Tensor::zeros(&[3]);
    assert!(matches!(
        try_matmul::<Native>(&v, &m23),
        Err(CortexError::RankMismatch { expected: 2, got: 1 })
    ));
    assert!(matches!(
        try_matmul::<Native>(&m23, &v),
        Err(CortexError::RankMismatch { expected: 2, got: 1 })
    ));
    assert!(matches!(
        try_matmul::<Native>(&m23, &m23),
        Err(CortexError::MatmulDim { m: 2, k1: 3, k2: 2, n: 3 })
    ));
    let tall = Tensor::zeros(&[usize::MAX / 2, 0]);
    let wide = Tensor::zeros(&[0, usize::MAX / 2]);
    assert!(matches!(
        try_matmul::<Native>(&tall, &wide),
        Err(CortexError::SizeOverflow { .. })
    ));
}

#[test]
fn batched_matmul_values_and_broadcast() {
    let a = tensor(&[1.0, 2.0, 3.0, 4.0], &[2, 1, 2]);
    let b = tensor(&[1.0, 0.0, 0.0, 1.0, 2.0, 0.0, 0.0, 2.0], &[2, 2, 2]);
    let c = batched_matmul::<Native>(&a, &b);
    assert_eq!(c.shape(), &[2, 1, 2]);
    assert_eq!(values(&c), &[1.0, 2.0, 6.0, 8.0]);
    let shared = tensor(&[0.0, 1.0, 1.0, 0.0], &[2, 2]);
    let d = batched_matmul::<Native>(&a, &shared);
    assert_eq!(values(&d), &[2.0, 1.0, 4.0, 3.0]);
    let flat = tensor(&[5.0, 6.0], &[1, 2]);
    assert_eq!(values(&batched_matmul::<Native>(&flat, &shared)), &[6.0, 5.0]);
}

#[test]
fn batches_are_matrix_products_and_softmax_goes_row_by_row() {
    let a: Vec<f32> = (0..24).map(|i| (i as f32 * 0.37).sin()).collect();
    let b: Vec<f32> = (0..40).map(|i| (i as f32 * 0.71).cos()).collect();
    let c = batched_matmul::<Native>(&tensor(&a, &[2, 3, 4]), &tensor(&b, &[2, 4, 5]));
    for i in 0..2 {
        let left = tensor(&a[i * 12..(i + 1) * 12], &[3, 4]);
        let right = tensor(&b[i * 20..(i + 1) * 20], &[4, 5]);
        let plane = matmul::<Native>(&left, &right);
        assert_eq!(plane.data(), &c.data()[i * 15..(i + 1) * 15]);
    }
    let rows = tensor(&a, &[4, 6]).softmax_last::<Native>();
    for i in 0..4 {
        let row = tensor(&a[i * 6..(i + 1) * 6], &[1, 6]).softmax_last::<Native>();
        assert_eq!(row.data(), &rows.data()[i * 6..(i + 1) * 6]);
    }
}

#[test]
fn batched_matmul_refusals() {
    let a = Tensor::zeros(&[2, 1, 2]);
    assert!(matches!(
        try_batched_matmul::<Native>(&Tensor::zeros(&[2]), &a),
        Err(CortexError::RankMismatch { expected: 3, got: 1 })
    ));
    assert!(matches!(
        try_batched_matmul::<Native>(&a, &Tensor::zeros(&[3, 2, 2])),
        Err(CortexError::DimMismatch { op: "batched_matmul", axis: 0, expected: 2, got: 3 })
    ));
    assert!(matches!(
        try_batched_matmul::<Native>(&a, &Tensor::zeros(&[2, 5, 2])),
        Err(CortexError::DimMismatch { op: "batched_matmul", axis: 1, expected: 2, got: 5 })
    ));
    assert!(matches!(
        try_batched_matmul::<Native>(&a, &Tensor::zeros(&[4, 2])),
        Err(CortexError::DimMismatch { op: "batched_matmul", axis: 0, expected: 2, got: 4 })
    ));
    assert!(matches!(
        try_batched_matmul::<Native>(&a, &Tensor::zeros(&[4])),
        Err(CortexError::RankMismatch { expected: 2, got: 1 })
    ));
}

#[test]
fn norm_refusals_come_in_order() {
    let x = Tensor::zeros(&[2, 3]);
    let three = Tensor::ones(&[3]);
    let two = Tensor::ones(&[2]);
    let eps = 1e-5f32.to_bits();
    assert!(matches!(
        try_layer_norm::<Native>(&three, &three, &three, eps),
        Err(CortexError::InvalidConfig(m)) if m == "layer_norm: expects 2-D [batch, dim], got [3]"
    ));
    assert!(matches!(
        try_layer_norm::<Native>(&x, &two, &two, eps),
        Err(CortexError::ShapeMismatch { expected, got }) if expected == [3] && got == [2]
    ));
    assert!(matches!(
        try_layer_norm::<Native>(&x, &three, &two, 0),
        Err(CortexError::ShapeMismatch { .. })
    ));
    assert!(matches!(
        try_rms_norm::<Native>(&Tensor::zeros(&[1, 1, 1]), &three, eps),
        Err(CortexError::InvalidConfig(m)) if m == "rms_norm: expects 2-D [batch, dim], got [1, 1, 1]"
    ));
    assert!(matches!(
        try_rms_norm::<Native>(&x, &two, eps),
        Err(CortexError::ShapeMismatch { .. })
    ));
}

#[test]
fn lookup_and_mask_refusals() {
    let table = Tensor::zeros(&[3, 2]);
    assert!(matches!(
        try_embedding(&Tensor::zeros(&[3]), &[0]),
        Err(CortexError::RankMismatch { expected: 2, got: 1 })
    ));
    assert!(matches!(
        try_embedding(&table, &[0, 7, 9]),
        Err(CortexError::TokenIndex { index: 7, vocab_size: 3 })
    ));
    assert!(matches!(
        try_causal_mask(usize::MAX),
        Err(CortexError::SizeOverflow { .. })
    ));
    let m = values(&causal_mask(3));
    for i in 0..3 {
        for j in 0..3 {
            let expected = if j > i { f32::NEG_INFINITY } else { 0.0 };
            assert_eq!(m[i * 3 + j], expected);
        }
    }
}

#[test]
fn try_softmax_names_the_rank() {
    let err = try_softmax::<Native>(&Tensor::zeros(&[1, 1, 1, 1])).unwrap_err();
    assert_eq!(
        err.message::<Native>(),
        "invalid configuration: softmax_last: max 2-D, got rank 4"
    );
    assert_eq!(try_softmax::<Native>(&Tensor::zeros(&[2, 0])).unwrap().shape(), &[2, 0]);
}

#[test]
fn transposing_twice_and_reshaping_back_keep_the_tensor() {
    let t = tensor(&[1.0, 2.0, 3.0, 4.0, 5.0, 6.0], &[2, 3]);
    assert_eq!(t.transpose().transpose().data(), t.data());
    assert_eq!(t.reshape(&[6]).reshape(&[2, 3]).data(), t.data());
    assert_eq!(t.clone().shape(), t.shape());
    let r = t.row(0);
    assert_eq!(values(&r), &[1.0, 2.0, 3.0]);
    assert_eq!(r.shape(), &[3]);
}

#[test]
fn debug_text_shows_the_head() {
    let t = tensor(&[1.0, -0.5], &[2]);
    assert_eq!(t.debug_text::<Native>(), "Tensor(shape=[2], data=[1.0000, -0.5000])");
    let long = tensor(&[0.25; 9], &[3, 3]);
    let text = long.debug_text::<Native>();
    assert!(text.starts_with("Tensor(shape=[3, 3], data=[0.2500, "));
    assert!(text.ends_with("0.2500, ...])"));
    assert_eq!(text.matches("0.2500").count(), 8);
}

#[test]
fn softmax_of_rows_without_columns_is_immediate() {
    let t = Tensor::try_from_vec(vec![], &[usize::MAX, 0]).unwrap();
    let s = t.try_softmax_last::<Native>().unwrap();
    assert_eq!(s.shape(), &[usize::MAX, 0]);
    assert_eq!(s.numel(), 0);
}

#[test]
fn box_muller_of_given_draws() {
    for (first, second) in [(0.25f32, 0.5f32), (0.0, 0.125), (0.9, 0.0)] {
        let u1 = first.max(1e-7);
        let z = (-2.0f32 * u1.ln()).sqrt() * (2.0f32 * std::f32::consts::PI * second).cos();
        let sample = box_muller::<Native>(
            1.5f32.to_bits(),
            0.5f32.to_bits(),
            first.to_bits(),
            second.to_bits(),
        );
        assert_eq!(f32::from_bits(sample), 1.5 + 0.5 * z);
    }
}

// ── Bit patterns ─────────────────────────────────────────────────────

const SAMPLES: [f32; 15] = [
    0.0,
    -0.0,
    1.0,
    -1.0,
    0.5,
    1e-40,
    -1e-40,
    1e30,
    -1e30,
    f32::MAX,
    f32::MIN,
    f32::INFINITY,
    f32::NEG_INFINITY,
    f32::NAN,
    f32::EPSILON,
];

#[test]
fn patterns_classify_and_order_as_the_machine_does() {
    for x in SAMPLES {
        let a = x.to_bits();
        assert_eq!(ieee::is_nan(a), x.is_nan());
        assert_eq!(ieee::is_finite(a), x.is_finite());
        assert_eq!(ieee::is_non_negative(a), x >= 0.0);
        assert_eq!(ieee::abs_bits(a), x.abs().to_bits());
        assert_eq!(ieee::neg_bits(a), (-x).to_bits());
        let w = f64::from(x);
        assert_eq!(ieee::is_nan64(w.to_bits()), w.is_nan());
        assert_eq!(ieee::is_finite64(w.to_bits()), w.is_finite());
        for y in SAMPLES {
            let b = y.to_bits();
            assert_eq!(ieee::is_above(a, b), x > y, "{x} {y}");
            assert_eq!(ieee::is_total_above(a, b), x.total_cmp(&y).is_gt(), "{x} {y}");
            assert_eq!(
                ieee::is_above64(w.to_bits(), f64::from(y).to_bits()),
                w > f64::from(y)
            );
            let larger = f32::from_bits(ieee::pick_larger(a, b));
            let smaller = f32::from_bits(ieee::pick_smaller(a, b));
            if x.max(y).is_nan() {
                assert!(larger.is_nan() && smaller.is_nan());
            } else {
                assert_eq!(larger, x.max(y));
                assert_eq!(smaller, x.min(y));
            }
        }
    }
    assert_eq!(ieee::NAN, f32::NAN.to_bits());
    assert_eq!(ieee::MAX, f32::MAX.to_bits());
    assert_eq!(ieee::MIN, f32::MIN.to_bits());
    assert_eq!(ieee::PI, std::f32::consts::PI.to_bits());
    assert_eq!(ieee::HALF, 0.5f32.to_bits());
    assert_eq!(ieee::ONE64, 1.0f64.to_bits());
}

/// What the laws on masks ask of a unit holds of the machine's.
#[test]
fn the_machine_is_orderly_and_exact_on_zero() {
    let inf = f32::NEG_INFINITY.to_bits();
    let wide = f64::NEG_INFINITY.to_bits();
    assert_eq!(ieee::NEG_INFINITY64, wide);
    assert_eq!(f64::from_bits(ieee::COUNT_LIMIT64), 9_007_199_254_740_992.0);
    assert_eq!(Native::widen(inf), wide);
    assert_eq!(Native::exp64(wide), 0);
    assert_eq!(Native::exp64(0), ieee::ONE64);
    assert_eq!(Native::exp64((-0.0f64).to_bits()), ieee::ONE64);
    assert_eq!(
        Native::add64(ieee::COUNT_LIMIT64, ieee::ONE64),
        ieee::COUNT_LIMIT64
    );
    let smallest = Native::narrow(Native::div64(ieee::ONE64, ieee::COUNT_LIMIT64));
    assert!(f32::from_bits(smallest) > 0.0);
    assert_eq!(Native::narrow(Native::div64(0, ieee::COUNT_LIMIT64)), 0);
    for x in SAMPLES.into_iter().filter(|x| x.is_finite()) {
        let a = x.to_bits();
        assert_eq!(Native::add32(a, inf), inf);
        assert!(f32::from_bits(Native::add32(a, 0)).is_finite());
        assert_eq!(f32::from_bits(Native::mul32(0, a)), 0.0);
        let t = f64::from(x).to_bits();
        assert_eq!(Native::sub64(wide, t), wide);
        assert_eq!(f64::from_bits(Native::sub64(t, t)), 0.0);
        for z in [0.0f32, -0.0] {
            if a != ieee::NEG_ZERO {
                assert_eq!(Native::add32(a, z.to_bits()), a);
            }
        }
        for y in SAMPLES {
            if Native::add32(a, y.to_bits()) == ieee::NEG_ZERO {
                assert_eq!(a, ieee::NEG_ZERO);
            }
        }
    }
    assert!(f32::from_bits(Native::add32(ieee::NAN, 0)).is_nan());
}

/// What the laws on finite rows ask of a unit holds of the machine's.
#[test]
fn the_machine_is_proportionate_and_temperate() {
    assert_eq!(f64::from_bits(ieee::SPAN64), 2.0f64.powi(128));
    assert_eq!(f64::from_bits(ieee::TOTAL64), 2.0f64.powi(320));
    assert_eq!(f64::from_bits(ieee::ROOT64), 2.0f64.powi(75));
    for k in [1usize, 3, 1 << 24, usize::MAX] {
        let p = f32::from_bits(Native::div32(ieee::ONE, Native::count32(k)));
        assert!(p.is_finite() && p >= 0.0);
        assert_eq!(Native::div64(0, Native::count64(k)), 0);
    }
    for e in [0.0f64, 1e-300, 0.5, 1.0] {
        for z in [1.0f64, 2.5, 9e15] {
            let r = f32::from_bits(Native::narrow(Native::div64(e.to_bits(), z.to_bits())));
            assert!(r.is_finite() && r >= 0.0);
        }
    }
    assert_eq!(Native::count64(1), ieee::ONE64);
    let least = f64::from(f32::from_bits(1));
    assert!(1.0 / least.sqrt() <= f64::from_bits(ieee::ROOT64));
    let square = f64::from(f32::MAX).powi(2);
    assert_eq!(
        Native::add64(ieee::TOTAL64, square.to_bits()),
        ieee::TOTAL64
    );
    for x in SAMPLES.into_iter().filter(|x| x.is_finite()) {
        let v = f64::from(x);
        let w = Native::widen(x.to_bits());
        assert_eq!(f64::from_bits(w), v);
        assert_eq!(f32::from_bits(Native::narrow(w)), x);
        assert_eq!(f64::from_bits(Native::div64(w, ieee::ONE64)), v);
        for z in [0.0f64, -0.0] {
            assert_eq!(f64::from_bits(Native::sub64(w, z.to_bits())), v);
            assert_eq!(f64::from_bits(Native::add64(w, z.to_bits())), v);
            assert_eq!(f64::from_bits(Native::add64(z.to_bits(), w)), v);
            assert_eq!(f64::from_bits(Native::mul64(z.to_bits(), w)), 0.0);
        }
        let scaled = (v - 2.0f64.powi(128)) * f64::from_bits(ieee::ROOT64);
        assert!((scaled * f64::from(f32::MAX) + v).is_finite());
    }
}

#[test]
fn every_half_pattern_widens_as_the_half_crate_does() {
    for h in 0..=u16::MAX {
        let expected = half::f16::from_bits(h).to_f32().to_bits();
        assert_eq!(ieee::half_to_single(h), expected, "pattern {h:#06x}");
    }
}

#[test]
fn whole_numbers_are_exact() {
    for n in (0..5000u32).chain((0..25).map(|k| 1 << k)).chain([16_777_215]) {
        if n <= ieee::COUNT_LIMIT {
            assert_eq!(ieee::whole_number(n), (n as f32).to_bits(), "{n}");
        }
    }
    let limit = f32::from_bits(ieee::whole_number(ieee::COUNT_LIMIT));
    assert_eq!(limit + 1.0, limit);
}

#[test]
fn unit_fractions_are_exact() {
    for k in [0, 1, 2, 3, 12_345, 0x40_0000, ieee::UNIT_STEPS - 1] {
        let expected = k as f32 / 8_388_608.0;
        assert_eq!(ieee::fraction_of_unit(k), expected.to_bits(), "{k}");
    }
}

#[test]
fn draws_cover_the_unit_interval() {
    let draws: Vec<f32> = (0..2000).map(|_| f32::from_bits(unit_draw())).collect();
    assert!(draws.iter().all(|u| (0.0..1.0).contains(u)));
    for tenth in 0..10 {
        let low = tenth as f32 / 10.0;
        assert!(draws.iter().any(|u| (low..low + 0.1).contains(u)), "{tenth}");
    }
}

// ── Errors and fixtures ──────────────────────────────────────────────

#[test]
fn messages_of_every_error() {
    let s = |t: &str| String::from(t);
    let cases: Vec<(CortexError, &str)> = vec![
        (
            CortexError::RankMismatch { expected: 2, got: 3 },
            "tensor rank mismatch: expected 2, got 3",
        ),
        (
            CortexError::ShapeMismatch { expected: vec![2, 10], got: vec![] },
            "tensor shape mismatch: expected [2, 10], got []",
        ),
        (
            CortexError::DimMismatch { op: "attn", axis: 1, expected: 8, got: 16 },
            "dimension mismatch for attn on axis 1: expected 8, got 16",
        ),
        (
            CortexError::MatmulDim { m: 1, k1: 2, k2: 3, n: 4 },
            "dimension mismatch for matmul: [1×2] × [3×4]",
        ),
        (
            CortexError::IndexOutOfBounds { axis: 0, index: 9, size: 2 },
            "index 9 out of bounds for axis 0 with size 2",
        ),
        (
            CortexError::TokenIndex { index: 7, vocab_size: 4 },
            "token index 7 is out of vocabulary of size 4",
        ),
        (
            CortexError::InvalidEpsilon { eps: (-1.5f32).to_bits() },
            "invalid epsilon -1.5: must be positive and finite",
        ),
        (
            CortexError::ZeroWidth { op: "rms_norm", axis: 1 },
            "zero-width axis 1 is invalid for rms_norm",
        ),
        (
            CortexError::SizeOverflow { shape: vec![4, 5] },
            "size overflow computing elements or strides for shape [4, 5]",
        ),
        (
            CortexError::InvalidConfig(s("bad heads")),
            "invalid configuration: bad heads",
        ),
        (
            CortexError::ModelLoad { path: s("m.gguf"), reason: s("gone") },
            "model load failed for 'm.gguf': gone",
        ),
        (
            CortexError::UnsupportedFormat(s("v2")),
            "unsupported model format: v2",
        ),
        (
            CortexError::MissingTensor { name: s("t"), path: s("m") },
            "missing tensor 't' in model 'm'",
        ),
        (
            CortexError::InputLengthMismatch { expected: 4, got: 5 },
            "input length mismatch: expected 4, got 5",
        ),
        (
            CortexError::NanRoutingScore { expert_id: 1 },
            "NaN routing score at expert 1",
        ),
        (
            CortexError::OlmoeForward(s("x")),
            "router forward pass failed: x",
        ),
        (CortexError::Msg(s("plain")), "plain"),
    ];
    for (err, text) in cases {
        assert_eq!(err.message::<Native>(), text);
    }
    for err in [
        CortexError::SnnBackend(s("refused")),
        CortexError::SnnChannelMismatch { experts: 8, channels: 4 },
        CortexError::SnnNan { stage: "decoder readout" },
        CortexError::SnnSpikeOutOfRange { channel: 9, channels: 4 },
        CortexError::SerdeInputTooLarge { max_bytes: 8, actual_bytes: 9 },
    ] {
        assert!(!err.message::<Native>().is_empty());
    }
}

#[test]
fn fixtures_keep_finite_tensors_and_refuse_the_rest() {
    let t = tensor(&[0.0, -0.0, 2.5], &[3]);
    assert!(reference_json::check_writable(&t).is_ok());
    let back = reference_json::tensor_from_wire(1, t.data().to_vec(), t.shape()).unwrap();
    assert_eq!(back.data(), t.data());
    for x in [f32::NAN, f32::INFINITY, f32::NEG_INFINITY] {
        let bad = tensor(&[x], &[1]);
        let err = reference_json::check_writable(&bad).unwrap_err();
        assert_eq!(
            err.message::<Native>(),
            "non-finite tensor data cannot be serialized"
        );
        assert!(matches!(
            reference_json::tensor_from_wire(1, bits(&[x]), &[1]),
            Err(CortexError::Msg(m)) if m == "non-finite tensor data"
        ));
    }
    assert!(matches!(
        reference_json::tensor_from_wire(2, bits(&[1.0]), &[1]),
        Err(CortexError::Msg(m)) if m == "unsupported Tensor schema_version 2"
    ));
    assert!(matches!(
        reference_json::tensor_from_wire(1, bits(&[1.0, 2.0]), &[3]),
        Err(CortexError::ShapeMismatch { .. })
    ));
    assert!(matches!(
        reference_json::tensor_from_wire(1, vec![], &[0, usize::MAX, 2]),
        Err(CortexError::SizeOverflow { .. })
    ));
}

#[test]
fn input_size_is_limited() {
    assert!(reference_json::check_input_size(&[0u8; 8], 8).is_ok());
    assert!(matches!(
        reference_json::check_input_size(&[0u8; 9], 8),
        Err(CortexError::SerdeInputTooLarge { max_bytes: 8, actual_bytes: 9 })
    ));
}
