use cortex_tensor::error::CortexError;
use cortex_tensor::float::FloatUnit;
use cortex_tensor::reference_json::check_schema_version;
use cortex_tensor::tensor::Tensor;
use cortex_tensor::transformer::block::FeedForward;
use cortex_tensor::transformer::heads::{merge_heads, reshape_heads, transpose_last_two};
use cortex_tensor::transformer::{
    MultiHeadAttention, TransformerBlock, TransformerConfig, TransformerLM,
};

/// The arithmetic of the machine the tests run on.
struct Native;

impl FloatUnit for Native {
    fn add32(a: u32, b: u32) -> u32 {
        (f32::from_bits(a) + f32::from_bits(b)).to_bits()
    }
    fn sub32(a: u32, b: u32) -> u32 {
        (f32::from_bits(a) - f32::from_bits(b)).to_bits()
    }
    fn mul32(a: u32, b: u32) -> u32 {
        (f32::from_bits(a) * f32::from_bits(b)).to_bits()
    }
    fn div32(a: u32, b: u32) -> u32 {
        (f32::from_bits(a) / f32::from_bits(b)).to_bits()
    }
    fn sqrt32(a: u32) -> u32 {
        f32::from_bits(a).sqrt().to_bits()
    }
    fn exp32(a: u32) -> u32 {
        f32::from_bits(a).exp().to_bits()
    }
    fn tanh32(a: u32) -> u32 {
        f32::from_bits(a).tanh().to_bits()
    }
    fn ln32(a: u32) -> u32 {
        f32::from_bits(a).ln().to_bits()
    }
    fn cos32(a: u32) -> u32 {
        f32::from_bits(a).cos().to_bits()
    }
    fn floor32(a: u32) -> u32 {
        f32::from_bits(a).floor().to_bits()
    }
    fn ceil32(a: u32) -> u32 {
        f32::from_bits(a).ceil().to_bits()
    }
    fn count32(n: usize) -> u32 {
        (n as f32).to_bits()
    }
    fn int32(n: i32) -> u32 {
        (n as f32).to_bits()
    }
    fn index32(a: u32) -> usize {
        f32::from_bits(a) as usize
    }
    fn add64(a: u64, b: u64) -> u64 {
        (f64::from_bits(a) + f64::from_bits(b)).to_bits()
    }
    fn sub64(a: u64, b: u64) -> u64 {
        (f64::from_bits(a) - f64::from_bits(b)).to_bits()
    }
    fn mul64(a: u64, b: u64) -> u64 {
        (f64::from_bits(a) * f64::from_bits(b)).to_bits()
    }
    fn div64(a: u64, b: u64) -> u64 {
        (f64::from_bits(a) / f64::from_bits(b)).to_bits()
    }
    fn sqrt64(a: u64) -> u64 {
        f64::from_bits(a).sqrt().to_bits()
    }
    fn exp64(a: u64) -> u64 {
        f64::from_bits(a).exp().to_bits()
    }
    fn count64(n: usize) -> u64 {
        (n as f64).to_bits()
    }
    fn widen(a: u32) -> u64 {
        f64::from(f32::from_bits(a)).to_bits()
    }
    fn narrow(a: u64) -> u32 {
        (f64::from_bits(a) as f32).to_bits()
    }
    fn show32(a: u32) -> String {
        format!("{}", f32::from_bits(a))
    }
    fn fixed32(a: u32) -> String {
        format!("{:.4}", f32::from_bits(a))
    }
}

fn bits(values: &[f32]) -> Vec<u32> {
    values.iter().map(|v| v.to_bits()).collect()
}

fn floats(patterns: &[u32]) -> Vec<f32> {
    patterns.iter().map(|b| f32::from_bits(*b)).collect()
}

fn tensor(data: &[f32], shape: &[usize]) -> Tensor {
    Tensor::from_vec(bits(data), shape)
}

fn values(t: &Tensor) -> Vec<f32> {
    floats(t.data())
}

#[test]
fn test_attention_shapes() {
    let attn = MultiHeadAttention::new::<Native>(64, 4);
    let x = Tensor::randn::<Native>(&[8, 64], 0.0f32.to_bits(), 0.1f32.to_bits());
    let out = attn.forward::<Native>(&x);
    assert_eq!(out.shape(), &[8, 64]);
}

#[test]
fn test_block_shapes() {
    let block = TransformerBlock::new::<Native>(64, 4, 256);
    let x = Tensor::randn::<Native>(&[8, 64], 0.0f32.to_bits(), 0.02f32.to_bits());
    let out = block.forward::<Native>(&x);
    assert_eq!(out.shape(), &[8, 64]);
}

#[test]
fn test_ffn_shapes() {
    let ffn = FeedForward::new::<Native>(64, 256);
    let x = Tensor::randn::<Native>(&[4, 64], 0.0f32.to_bits(), 0.1f32.to_bits());
    let out = ffn.forward::<Native>(&x);
    assert_eq!(out.shape(), &[4, 64]);
}

#[test]
fn test_tiny_forward() {
    let cfg = TransformerConfig::tiny();
    let model = TransformerLM::new::<Native>(cfg.clone());
    let ids = vec![1u32, 42, 100, 7];
    let logits = model.forward::<Native>(&ids);
    assert_eq!(logits.shape(), &[4, cfg.vocab_size]);
}

#[test]
fn test_hidden_states() {
    let cfg = TransformerConfig::tiny();
    let model = TransformerLM::new::<Native>(cfg.clone());
    let ids = vec![1u32, 2, 3];
    let h = model.hidden_states::<Native>(&ids);
    assert_eq!(h.shape(), &[3, cfg.dim]);
}

/// Minimal config so seq-overflow / OOV tests stay fast.
fn micro_cfg() -> TransformerConfig {
    TransformerConfig {
        vocab_size: 4,
        dim: 8,
        num_heads: 2,
        num_layers: 1,
        ff_dim: 16,
        max_seq_len: 4,
    }
}

fn made(cfg: TransformerConfig) -> TransformerLM {
    TransformerLM::try_new::<Native>(cfg).ok().unwrap()
}

#[test]
fn try_forward_rejects_seq_len_over_max() {
    let model = made(micro_cfg());
    let ids = vec![0u32; 5];
    let err = model.try_forward::<Native>(&ids).unwrap_err();
    assert!(matches!(
        err,
        CortexError::InputLengthMismatch {
            expected: 4,
            got: 5
        }
    ));
    let err = model.try_hidden_states::<Native>(&ids).unwrap_err();
    assert!(matches!(err, CortexError::InputLengthMismatch { .. }));
}

#[test]
fn try_forward_rejects_out_of_vocab_ids() {
    let model = made(micro_cfg());
    let err = model.try_forward::<Native>(&[1, 99999]).unwrap_err();
    assert!(matches!(
        err,
        CortexError::TokenIndex {
            index: 99999,
            vocab_size: 4
        }
    ));
}

#[test]
fn try_new_rejects_invalid_num_heads() {
    let mut cfg = micro_cfg();
    cfg.num_heads = 3;
    assert!(matches!(
        TransformerLM::try_new::<Native>(cfg.clone()),
        Err(CortexError::InvalidConfig(_))
    ));
    cfg.num_heads = 0;
    assert!(matches!(
        TransformerLM::try_new::<Native>(cfg),
        Err(CortexError::InvalidConfig(_))
    ));
}

#[test]
fn try_new_validates_heads_even_with_zero_layers() {
    let mut cfg = micro_cfg();
    cfg.num_layers = 0;
    cfg.num_heads = 0;
    assert!(matches!(
        TransformerLM::try_new::<Native>(cfg.clone()),
        Err(CortexError::InvalidConfig(_))
    ));
    cfg.num_heads = 3;
    assert!(matches!(
        TransformerLM::try_new::<Native>(cfg),
        Err(CortexError::InvalidConfig(_))
    ));
}

#[test]
fn try_new_rejects_unrepresentable_shapes() {
    let mut cfg = micro_cfg();
    cfg.vocab_size = usize::MAX;
    assert!(matches!(
        TransformerLM::try_new::<Native>(cfg),
        Err(CortexError::SizeOverflow { .. })
    ));
}

// ── Exact values ─────────────────────────────────────────────────────

#[test]
fn splitting_into_heads_and_back() {
    let t = tensor(&(0..24).map(|i| i as f32).collect::<Vec<f32>>(), &[3, 8]);
    let (seq, nh, hd) = (3, 2, 4);
    let split = reshape_heads(&t, seq, nh, hd);
    assert_eq!(split.shape(), &[2, 3, 4]);
    for s in 0..seq {
        for h in 0..nh {
            for i in 0..hd {
                assert_eq!(
                    split.data()[h * seq * hd + s * hd + i],
                    t.data()[s * (nh * hd) + h * hd + i]
                );
            }
        }
    }
    let merged = merge_heads(&split, seq, nh, hd);
    assert_eq!(merged.shape(), t.shape());
    assert_eq!(merged.data(), t.data());
    let turned = transpose_last_two(&split);
    assert_eq!(turned.shape(), &[2, 4, 3]);
    assert_eq!(turned.data()[1], split.data()[4]);
    assert_eq!(transpose_last_two(&turned).data(), split.data());
}

/// Attention of one head of width two that passes its input through.
fn identity_attention() -> MultiHeadAttention {
    let eye = || tensor(&[1.0, 0.0, 0.0, 1.0], &[2, 2]);
    let none = || Tensor::zeros(&[1, 2]);
    MultiHeadAttention {
        num_heads: 1,
        head_dim: 2,
        dim: 2,
        wq: eye(),
        wb_q: none(),
        wk: eye(),
        wb_k: none(),
        wv: eye(),
        wb_v: none(),
        wo: eye(),
        wb_o: none(),
    }
}

#[test]
fn attention_looks_back_and_not_ahead() {
    let attn = identity_attention();
    let x = tensor(&[1.0, 0.0, 0.0, 1.0, 5.0, -3.0], &[3, 2]);
    let y = values(&attn.forward::<Native>(&x));
    assert_eq!(&y[0..2], &[1.0, 0.0]);
    let s = 1.0 / 2.0f64.sqrt();
    let w = s.exp() / (1.0 + s.exp());
    assert!((f64::from(y[2]) - (1.0 - w)).abs() < 1e-6);
    assert!((f64::from(y[3]) - w).abs() < 1e-6);
    let longer = tensor(&[1.0, 0.0, 0.0, 1.0, 9.0, 9.0], &[3, 2]);
    let z = values(&attn.forward::<Native>(&longer));
    assert_eq!(&y[0..4], &z[0..4]);
}

#[test]
fn later_rows_leave_earlier_outputs_bit_for_bit() {
    let attn = MultiHeadAttention::new::<Native>(8, 2);
    let x = Tensor::randn::<Native>(&[5, 8], 0, 1.0f32.to_bits());
    let y = attn.forward::<Native>(&x);
    for i in 0..5 {
        let mut other = x.clone();
        for slot in &mut other.data_mut()[(i + 1) * 8..] {
            *slot = (-3.25f32).to_bits();
        }
        let z = attn.forward::<Native>(&other);
        assert_eq!(&y.data()[..(i + 1) * 8], &z.data()[..(i + 1) * 8]);
    }
}

#[test]
fn later_rows_leave_earlier_block_outputs_bit_for_bit() {
    let block = TransformerBlock::new::<Native>(8, 2, 16);
    let x = Tensor::randn::<Native>(&[5, 8], 0, 1.0f32.to_bits());
    let y = block.forward::<Native>(&x);
    for i in 0..5 {
        let mut other = x.clone();
        for (k, slot) in other.data_mut()[(i + 1) * 8..].iter_mut().enumerate() {
            *slot = (k as f32 - 7.5).to_bits();
        }
        let z = block.forward::<Native>(&other);
        assert_eq!(&y.data()[..(i + 1) * 8], &z.data()[..(i + 1) * 8]);
    }
    let mut other = x.clone();
    other.data_mut()[0] = 40.0f32.to_bits();
    assert_ne!(y.data()[32..], block.forward::<Native>(&other).data()[32..]);
}

#[test]
fn later_tokens_leave_earlier_logits_bit_for_bit() {
    let mut cfg = micro_cfg();
    cfg.num_layers = 2;
    let model = made(cfg);
    let ids = [0u32, 1, 2, 3];
    let hidden = model.hidden_states::<Native>(&ids);
    let logits = model.forward::<Native>(&ids);
    for i in 0..4 {
        let mut other = ids;
        for id in &mut other[i + 1..] {
            *id = 3 - *id;
        }
        let h = model.hidden_states::<Native>(&other);
        assert_eq!(&hidden.data()[..(i + 1) * 8], &h.data()[..(i + 1) * 8]);
        let l = model.forward::<Native>(&other);
        assert_eq!(&logits.data()[..(i + 1) * 4], &l.data()[..(i + 1) * 4]);
    }
    let moved = model.forward::<Native>(&[3, 1, 2, 3]);
    assert_ne!(logits.data()[12..], moved.data()[12..]);
}

#[test]
fn attention_refusals() {
    let x = Tensor::zeros(&[3, 2]);
    let attn = identity_attention();
    assert!(matches!(
        attn.try_forward::<Native>(&Tensor::zeros(&[2])),
        Err(CortexError::RankMismatch { expected: 2, got: 1 })
    ));
    assert!(matches!(
        attn.try_forward::<Native>(&Tensor::zeros(&[3, 4])),
        Err(CortexError::DimMismatch {
            op: "MultiHeadAttention::try_forward",
            axis: 1,
            expected: 2,
            got: 4
        })
    ));
    let mut heads = identity_attention();
    heads.num_heads = 3;
    assert!(matches!(
        heads.try_forward::<Native>(&x),
        Err(CortexError::InvalidConfig(m))
            if m == "MultiHeadAttention: num_heads (3) * head_dim (2) != dim (2)"
    ));
    let mut bias = identity_attention();
    bias.wb_v = Tensor::zeros(&[2]);
    assert!(matches!(
        bias.try_forward::<Native>(&x),
        Err(CortexError::ShapeMismatch { expected, got }) if expected == [1, 2] && got == [2]
    ));
    let mut weight = identity_attention();
    weight.wk = Tensor::zeros(&[3, 2]);
    assert!(matches!(
        weight.try_forward::<Native>(&x),
        Err(CortexError::MatmulDim { m: 3, k1: 2, k2: 3, n: 2 })
    ));
    assert!(matches!(
        MultiHeadAttention::try_new::<Native>(6, 4),
        Err(CortexError::InvalidConfig(m)) if m
            == "MultiHeadAttention: dim (6) and num_heads (4) must be nonzero, and num_heads must divide dim"
    ));
}

#[test]
fn feed_forward_values() {
    let ffn = FeedForward {
        w1: tensor(&[2.0], &[1, 1]),
        b1: tensor(&[1.0], &[1, 1]),
        w2: tensor(&[3.0], &[1, 1]),
        b2: tensor(&[-1.0], &[1, 1]),
    };
    let y = values(&ffn.forward::<Native>(&tensor(&[0.5], &[1, 1])));
    let h = values(&tensor(&[2.0], &[1]).gelu::<Native>())[0];
    assert_eq!(y, &[0.0 + h * 3.0 - 1.0]);
    assert_eq!(ffn.param_count(), 4);
    assert!(matches!(
        ffn.try_forward::<Native>(&Tensor::zeros(&[1])),
        Err(CortexError::RankMismatch { expected: 2, got: 1 })
    ));
    assert!(matches!(
        ffn.try_forward::<Native>(&Tensor::zeros(&[1, 2])),
        Err(CortexError::MatmulDim { .. })
    ));
}

#[test]
fn parameter_counts() {
    let tiny = TransformerConfig::tiny();
    let block = 4 * 128 * 128 + 4 * 128 + 2 * 128 * 512 + 128 + 512 + 4 * 128;
    assert_eq!(
        tiny.estimated_params(),
        2 * 4096 * 128 + 4 * block + 2 * 128
    );
    assert!(TransformerConfig::olmo_1b().estimated_params() > 900_000_000);
    let model = made(micro_cfg());
    assert_eq!(model.param_count(), micro_cfg().estimated_params());
    let b = &model.blocks[0];
    assert_eq!(b.attn.param_count(), 4 * 64 + 32);
    assert_eq!(b.param_count(), 4 * 64 + 32 + 2 * 8 * 16 + 16 + 8 + 32);
}

#[test]
fn fresh_parts_pass_their_own_checks() {
    let model = made(micro_cfg());
    assert!(model.validate_wire().is_ok());
    assert!(model.config.validate_wire().is_ok());
    assert!(model.blocks[0].validate_wire().is_ok());
    assert!(model.blocks[0].attn.validate_wire().is_ok());
    assert!(model.blocks[0].ffn.validate_wire(8, 16).is_ok());
    assert!(model.forward::<Native>(&[3, 0]).data().iter().all(|b| f32::from_bits(*b).is_finite()));
    assert_eq!(model.forward::<Native>(&[]).shape(), &[0, 4]);
}

#[test]
fn inconsistent_parts_are_refused() {
    let mut model = made(micro_cfg());
    model.config.dim = 99;
    assert!(matches!(model.validate_wire(), Err(CortexError::InvalidConfig(_))));
    let mut model = made(micro_cfg());
    model.config.num_layers = 2;
    assert!(matches!(model.validate_wire(), Err(CortexError::InvalidConfig(_))));
    let mut model = made(micro_cfg());
    model.config.ff_dim = 17;
    assert!(matches!(model.validate_wire(), Err(CortexError::InvalidConfig(_))));
    let mut model = made(micro_cfg());
    model.lm_head = Tensor::zeros(&[8, 5]);
    assert!(matches!(model.validate_wire(), Err(CortexError::ShapeMismatch { .. })));
    let mut block = TransformerBlock::new::<Native>(4, 2, 6);
    block.ln1_w = Tensor::ones(&[1, 4]);
    assert!(matches!(block.validate_wire(), Err(CortexError::ShapeMismatch { .. })));
    let mut block = TransformerBlock::new::<Native>(4, 2, 6);
    block.dim = 5;
    assert!(matches!(block.validate_wire(), Err(CortexError::InvalidConfig(_))));
    let mut block = TransformerBlock::new::<Native>(4, 2, 6);
    block.ffn.w1 = Tensor::zeros(&[4]);
    assert!(matches!(
        block.validate_wire(),
        Err(CortexError::RankMismatch { expected: 2, got: 1 })
    ));
    let mut ffn = FeedForward::new::<Native>(4, 6);
    assert!(ffn.validate_own_wire().is_ok());
    ffn.b2 = Tensor::zeros(&[1, 5]);
    assert!(matches!(ffn.validate_own_wire(), Err(CortexError::ShapeMismatch { .. })));
    ffn.w1 = Tensor::zeros(&[4]);
    assert!(matches!(
        ffn.validate_own_wire(),
        Err(CortexError::RankMismatch { expected: 2, got: 1 })
    ));
    let mut attn = MultiHeadAttention::new::<Native>(4, 2);
    attn.wb_q = Tensor::zeros(&[4]);
    assert!(matches!(attn.validate_wire(), Err(CortexError::ShapeMismatch { .. })));
    let mut attn = MultiHeadAttention::new::<Native>(4, 2);
    attn.head_dim = 3;
    assert!(matches!(attn.validate_wire(), Err(CortexError::InvalidConfig(_))));
    assert!(check_schema_version("TransformerLM", 1).is_ok());
    assert!(matches!(
        check_schema_version("TransformerLM", 9),
        Err(CortexError::Msg(m)) if m == "unsupported TransformerLM schema_version 9"
    ));
}
