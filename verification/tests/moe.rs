use cortex_tensor::error::{CortexError, HybridError};
use cortex_tensor::float::FloatUnit;
use cortex_tensor::ieee::half_to_single;
use cortex_tensor::moe::adapter::resolve_adapter;
use cortex_tensor::moe::checkpoint::parse_checkpoint_layout;
use cortex_tensor::moe::cursor::GgufCursor;
use cortex_tensor::moe::dequant::{
    align_up, dequantize_row_q5_k, dequantize_row_q8_0, is_names_ordered, parse_size,
    quantization_label, tensor_block, tensor_row_size,
};
use cortex_tensor::moe::gguf::{
    GGML_TYPE_F16, GGML_TYPE_F32, GGML_TYPE_IQ3_S, GGML_TYPE_Q5_K, GGML_TYPE_Q8_0,
    GGUF_VALUE_TYPE_ARRAY, GGUF_VALUE_TYPE_BOOL, GGUF_VALUE_TYPE_FLOAT32, GGUF_VALUE_TYPE_FLOAT64,
    GGUF_VALUE_TYPE_INT16, GGUF_VALUE_TYPE_INT32, GGUF_VALUE_TYPE_INT64, GGUF_VALUE_TYPE_INT8,
    GGUF_VALUE_TYPE_STRING, GGUF_VALUE_TYPE_UINT16, GGUF_VALUE_TYPE_UINT32, GGUF_VALUE_TYPE_UINT64,
    GGUF_VALUE_TYPE_UINT8, GGUF_VERSION,
};
use cortex_tensor::moe::mapped::{map_checkpoint, MappedGgufCheckpoint};
use cortex_tensor::moe::router::mix_experts;
use cortex_tensor::moe::routing::{
    apply_extract_token_options, normalize_l2, normalize_to_internal_embedding_dim,
    reject_nan_routing_scores, resample_embedding, route_top_k, softmax, synthetic_gate_scores,
    top_k_indices,
};
use cortex_tensor::moe::{ExtractTokenOptions, MoeRouter, RouterMetadata, RoutingMode, EMBEDDING_DIM};
use half::f16;
use std::collections::HashSet;
use std::mem::size_of;

const GGUF_MAGIC: [u8; 4] = *b"GGUF";

/// The arithmetic of the machine the tests run on.
struct Native;

impl FloatUnit for Native {
    fn add32(a: u32, b: u32) -> u32 {
        (f32::from_bits(a) + f32::from_bits(b)).to_bits()
    }
    fn sub32(a: u32, b: u32) -> u32 {
        (f32::from_bits(a) - f32::from_bits(b)).to_bits()
    }
    fn mul32(a: u32, b: u32) -> u32 {
        (f32::from_bits(a) * f32::from_bits(b)).to_bits()
    }
    fn div32(a: u32, b: u32) -> u32 {
        (f32::from_bits(a) / f32::from_bits(b)).to_bits()
    }
    fn sqrt32(a: u32) -> u32 {
        f32::from_bits(a).sqrt().to_bits()
    }
    fn exp32(a: u32) -> u32 {
        f32::from_bits(a).exp().to_bits()
    }
    fn tanh32(a: u32) -> u32 {
        f32::from_bits(a).tanh().to_bits()
    }
    fn ln32(a: u32) -> u32 {
        f32::from_bits(a).ln().to_bits()
    }
    fn cos32(a: u32) -> u32 {
        f32::from_bits(a).cos().to_bits()
    }
    fn floor32(a: u32) -> u32 {
        f32::from_bits(a).floor().to_bits()
    }
    fn ceil32(a: u32) -> u32 {
        f32::from_bits(a).ceil().to_bits()
    }
    fn count32(n: usize) -> u32 {
        (n as f32).to_bits()
    }
    fn int32(n: i32) -> u32 {
        (n as f32).to_bits()
    }
    fn index32(a: u32) -> usize {
        f32::from_bits(a) as usize
    }
    fn add64(a: u64, b: u64) -> u64 {
        (f64::from_bits(a) + f64::from_bits(b)).to_bits()
    }
    fn sub64(a: u64, b: u64) -> u64 {
        (f64::from_bits(a) - f64::from_bits(b)).to_bits()
    }
    fn mul64(a: u64, b: u64) -> u64 {
        (f64::from_bits(a) * f64::from_bits(b)).to_bits()
    }
    fn div64(a: u64, b: u64) -> u64 {
        (f64::from_bits(a) / f64::from_bits(b)).to_bits()
    }
    fn sqrt64(a: u64) -> u64 {
        f64::from_bits(a).sqrt().to_bits()
    }
    fn exp64(a: u64) -> u64 {
        f64::from_bits(a).exp().to_bits()
    }
    fn count64(n: usize) -> u64 {
        (n as f64).to_bits()
    }
    fn widen(a: u32) -> u64 {
        f64::from(f32::from_bits(a)).to_bits()
    }
    fn narrow(a: u64) -> u32 {
        (f64::from_bits(a) as f32).to_bits()
    }
    fn show32(a: u32) -> String {
        format!("{}", f32::from_bits(a))
    }
    fn fixed32(a: u32) -> String {
        format!("{:.4}", f32::from_bits(a))
    }
}

fn bits(values: &[f32]) -> Vec<u32> {
    values.iter().map(|v| v.to_bits()).collect()
}

fn floats(patterns: &[u32]) -> Vec<f32> {
    patterns.iter().map(|b| f32::from_bits(*b)).collect()
}

fn refused(bytes: &[u8]) -> CortexError {
    match parse_checkpoint_layout(bytes, "test") {
        Ok(_) => panic!("layout was accepted"),
        Err(e) => e,
    }
}

fn resampled(input: &[f32], target: usize) -> Vec<f32> {
    floats(&resample_embedding::<Native>(&bits(input), target).unwrap())
}

fn softmaxed(scores: &[f32]) -> Vec<f32> {
    floats(&softmax::<Native>(&bits(scores)))
}

fn normalize(v: &mut Vec<f32>) {
    let mut patterns = bits(v);
    normalize_l2::<Native>(&mut patterns);
    *v = floats(&patterns);
}

fn internal(input: &[f32]) -> Vec<f32> {
    floats(&normalize_to_internal_embedding_dim::<Native>(&bits(input)).unwrap())
}

fn select(scores: &[f32], top_k: usize) -> Result<Vec<usize>, CortexError> {
    top_k_indices(&bits(scores), top_k)
}

fn routed(scores: &[f32], top_k: usize) -> Result<(Vec<f32>, Vec<usize>), CortexError> {
    let (weights, selected) = route_top_k::<Native>(&bits(scores), top_k)?;
    Ok((floats(&weights), selected))
}

fn push_u32(out: &mut Vec<u8>, value: u32) {
    out.extend_from_slice(&value.to_le_bytes());
}

fn push_u64(out: &mut Vec<u8>, value: u64) {
    out.extend_from_slice(&value.to_le_bytes());
}

fn push_string(out: &mut Vec<u8>, value: &str) {
    push_u64(out, value.len() as u64);
    out.extend_from_slice(value.as_bytes());
}

fn push_kv_raw(out: &mut Vec<u8>, key: &str, value_type: u32, payload: &[u8]) {
    push_string(out, key);
    push_u32(out, value_type);
    out.extend_from_slice(payload);
}

fn push_kv_u32(out: &mut Vec<u8>, key: &str, value: u32) {
    push_kv_raw(
        out,
        key,
        GGUF_VALUE_TYPE_UINT32,
        &value.to_le_bytes(),
    );
}

fn push_kv_string(out: &mut Vec<u8>, key: &str, value: &str) {
    let mut payload = Vec::new();
    push_string(&mut payload, value);
    push_kv_raw(out, key, GGUF_VALUE_TYPE_STRING, &payload);
}

fn push_kv_i8(out: &mut Vec<u8>, key: &str, value: i8) {
    push_kv_raw(
        out,
        key,
        GGUF_VALUE_TYPE_INT8,
        &(value as u8).to_le_bytes(),
    );
}

fn push_kv_i16(out: &mut Vec<u8>, key: &str, value: i16) {
    push_kv_raw(
        out,
        key,
        GGUF_VALUE_TYPE_INT16,
        &(value as u16).to_le_bytes(),
    );
}

fn push_kv_i32(out: &mut Vec<u8>, key: &str, value: i32) {
    push_kv_raw(
        out,
        key,
        GGUF_VALUE_TYPE_INT32,
        &(value as u32).to_le_bytes(),
    );
}

fn push_kv_i64(out: &mut Vec<u8>, key: &str, value: i64) {
    push_kv_raw(
        out,
        key,
        GGUF_VALUE_TYPE_INT64,
        &(value as u64).to_le_bytes(),
    );
}

fn push_kv_bool(out: &mut Vec<u8>, key: &str, value: bool) {
    push_kv_raw(out, key, GGUF_VALUE_TYPE_BOOL, &[value as u8]);
}

fn push_kv_f32(out: &mut Vec<u8>, key: &str, value: f32) {
    push_kv_raw(
        out,
        key,
        GGUF_VALUE_TYPE_FLOAT32,
        &value.to_le_bytes(),
    );
}

fn push_kv_f64(out: &mut Vec<u8>, key: &str, value: f64) {
    push_kv_raw(
        out,
        key,
        GGUF_VALUE_TYPE_FLOAT64,
        &value.to_le_bytes(),
    );
}

fn push_kv_array_u32(out: &mut Vec<u8>, key: &str, values: &[u32]) {
    let mut payload = Vec::new();
    push_u32(&mut payload, GGUF_VALUE_TYPE_UINT32);
    push_u64(&mut payload, values.len() as u64);
    for value in values {
        push_u32(&mut payload, *value);
    }
    push_kv_raw(out, key, GGUF_VALUE_TYPE_ARRAY, &payload);
}

fn build_test_gguf(
    tensors: Vec<(&str, Vec<usize>, u32, Vec<u8>)>,
    alignment: u32,
    hidden_size: usize,
) -> Vec<u8> {
    let mut out = Vec::new();
    out.extend_from_slice(&GGUF_MAGIC);
    push_u32(&mut out, GGUF_VERSION);
    push_u64(&mut out, tensors.len() as u64);
    push_u64(&mut out, 7);
    push_kv_u32(&mut out, "general.alignment", alignment);
    push_kv_u32(&mut out, "general.file_type", 1);
    push_kv_string(&mut out, "general.architecture", "reference_moe");
    push_kv_u32(
        &mut out,
        "reference_moe.embedding_length",
        hidden_size as u32,
    );
    push_kv_u32(&mut out, "reference_moe.block_count", 16);
    push_kv_u32(&mut out, "reference_moe.expert_count", 64);
    push_kv_u32(&mut out, "reference_moe.expert_used_count", 8);

    let mut data_offset = 0usize;
    let mut tensor_payloads = Vec::new();
    for (name, dims, ggml_type, payload) in tensors {
        push_string(&mut out, name);
        push_u32(&mut out, dims.len() as u32);
        for dim in &dims {
            push_u64(&mut out, *dim as u64);
        }
        push_u32(&mut out, ggml_type);
        push_u64(&mut out, data_offset as u64);
        data_offset += payload.len();
        tensor_payloads.push(payload);
    }

    while out.len() % alignment as usize != 0 {
        out.push(0);
    }
    for payload in tensor_payloads {
        out.extend_from_slice(&payload);
    }

    out
}

fn build_real_size_checkpoint(gate_payload: Vec<u8>) -> Vec<u8> {
    let attn_q_payload = vec![0u8; EMBEDDING_DIM * EMBEDDING_DIM * 2];
    build_test_gguf(
        vec![
            (
                "blk.0.ffn_gate_inp.weight",
                vec![EMBEDDING_DIM, 64],
                GGML_TYPE_F32,
                gate_payload,
            ),
            (
                "blk.0.attn_q.weight",
                vec![EMBEDDING_DIM, EMBEDDING_DIM],
                GGML_TYPE_F16,
                attn_q_payload,
            ),
            (
                "token_embd.weight",
                vec![EMBEDDING_DIM, 32],
                GGML_TYPE_F16,
                vec![0u8; EMBEDDING_DIM * 32 * 2],
            ),
        ],
        32,
        EMBEDDING_DIM,
    )
}

#[test]
fn parse_checkpoint_layout_reads_integer_value_types() {
    let mut out = Vec::new();
    out.extend_from_slice(&GGUF_MAGIC);
    push_u32(&mut out, GGUF_VERSION);
    push_u64(&mut out, 0);
    push_u64(&mut out, 10);
    push_kv_raw(
        &mut out,
        "general.alignment",
        GGUF_VALUE_TYPE_UINT16,
        &32u16.to_le_bytes(),
    );
    push_kv_i8(&mut out, "general.file_type", 1);
    push_kv_string(&mut out, "general.architecture", "olmoe");
    push_kv_raw(
        &mut out,
        "custom.u8",
        GGUF_VALUE_TYPE_UINT8,
        &7u8.to_le_bytes(),
    );
    push_kv_raw(
        &mut out,
        "custom.u16",
        GGUF_VALUE_TYPE_UINT16,
        &1234u16.to_le_bytes(),
    );
    push_kv_raw(
        &mut out,
        "custom.u64",
        GGUF_VALUE_TYPE_UINT64,
        &42u64.to_le_bytes(),
    );
    push_kv_i8(&mut out, "custom.i8", 5);
    push_kv_i16(&mut out, "custom.i16", 1000);
    push_kv_i32(&mut out, "custom.i32", 50000);
    push_kv_i64(&mut out, "custom.i64", 1_000_000);

    let parsed = parse_checkpoint_layout(&out, "test").ok().unwrap();
    assert_eq!(parsed.metadata.architecture, "olmoe");
    assert_eq!(parsed.metadata.numeric("custom.u8"), Some(7));
    assert_eq!(parsed.metadata.numeric("custom.u16"), Some(1234));
    assert_eq!(parsed.metadata.numeric("custom.u64"), Some(42));
    assert_eq!(parsed.metadata.numeric("custom.i8"), Some(5));
    assert_eq!(parsed.metadata.numeric("custom.i16"), Some(1000));
    assert_eq!(parsed.metadata.numeric("custom.i32"), Some(50000));
    assert_eq!(parsed.metadata.numeric("custom.i64"), Some(1_000_000));
}

#[test]
fn parse_checkpoint_layout_reads_misc_value_types() {
    let mut out = Vec::new();
    out.extend_from_slice(&GGUF_MAGIC);
    push_u32(&mut out, GGUF_VERSION);
    push_u64(&mut out, 0);
    push_u64(&mut out, 6);
    push_kv_u32(&mut out, "general.alignment", 32);
    push_kv_u32(&mut out, "general.file_type", 0);
    push_kv_string(&mut out, "general.architecture", "olmoe");
    push_kv_bool(&mut out, "custom.bool", true);
    push_kv_f32(&mut out, "custom.float32", 1.5);
    push_kv_f64(&mut out, "custom.float64", 2.5);
    push_kv_string(&mut out, "custom.string", "hello");
    push_kv_array_u32(&mut out, "custom.array", &[1, 2]);

    let parsed = parse_checkpoint_layout(&out, "test").ok().unwrap();
    assert_eq!(parsed.metadata.numeric("custom.bool"), Some(1));
    assert!(parsed.metadata.numeric("custom.string").is_none());
    assert!(parsed.metadata.numeric("custom.array").is_none());
}

#[test]
fn parse_checkpoint_layout_rejects_bad_magic() {
    let mut out = Vec::new();
    out.extend_from_slice(b"GGUS");
    push_u32(&mut out, GGUF_VERSION);
    push_u64(&mut out, 0);
    push_u64(&mut out, 0);
    let err = refused(&out);
    assert!(err.message::<Native>().contains("unrecognised model magic bytes"));
}

#[test]
fn parse_checkpoint_layout_rejects_bad_version() {
    let mut out = Vec::new();
    out.extend_from_slice(&GGUF_MAGIC);
    push_u32(&mut out, 2);
    push_u64(&mut out, 0);
    push_u64(&mut out, 0);
    let err = refused(&out);
    assert!(err.message::<Native>().contains("unsupported GGUF version"));
}

#[test]
fn parse_checkpoint_layout_rejects_excessive_tensor_count() {
    let mut out = Vec::new();
    out.extend_from_slice(&GGUF_MAGIC);
    push_u32(&mut out, GGUF_VERSION);
    push_u64(&mut out, 100_001);
    push_u64(&mut out, 0);
    let err = refused(&out);
    assert!(
        err.message::<Native>()
            .contains("tensor_count 100001 exceeds maximum allowed 100000")
    );
}

#[test]
fn parse_checkpoint_layout_rejects_excessive_kv_count() {
    let mut out = Vec::new();
    out.extend_from_slice(&GGUF_MAGIC);
    push_u32(&mut out, GGUF_VERSION);
    push_u64(&mut out, 0);
    push_u64(&mut out, 100_001);
    let err = refused(&out);
    assert!(
        err.message::<Native>()
            .contains("kv_count 100001 exceeds maximum allowed 100000")
    );
}

#[test]
fn parse_checkpoint_layout_rejects_alignment_overflow() {
    let mut out = Vec::new();
    out.extend_from_slice(&GGUF_MAGIC);
    push_u32(&mut out, GGUF_VERSION);
    push_u64(&mut out, 0);
    push_u64(&mut out, 1);
    push_kv_raw(
        &mut out,
        "general.alignment",
        GGUF_VALUE_TYPE_UINT64,
        &u64::MAX.to_le_bytes(),
    );
    let err = refused(&out);
    assert!(err.message::<Native>().contains("out of range for u32"));
}

#[test]
fn parse_checkpoint_layout_rejects_negative_alignment() {
    let mut out = Vec::new();
    out.extend_from_slice(&GGUF_MAGIC);
    push_u32(&mut out, GGUF_VERSION);
    push_u64(&mut out, 0);
    push_u64(&mut out, 1);
    push_kv_i32(&mut out, "general.alignment", -1);
    let err = refused(&out);
    assert!(err.message::<Native>().contains("out of range for u32"));
}

#[test]
fn parse_checkpoint_layout_rejects_negative_unknown_numeric() {
    let mut out = Vec::new();
    out.extend_from_slice(&GGUF_MAGIC);
    push_u32(&mut out, GGUF_VERSION);
    push_u64(&mut out, 0);
    push_u64(&mut out, 1);
    push_kv_i32(&mut out, "custom.negative", -1);
    let err = refused(&out);
    assert!(
        err.message::<Native>()
            .contains("cannot be represented as unsigned metadata")
    );
}

#[test]
fn parse_checkpoint_layout_rejects_unsupported_value_type() {
    let mut out = Vec::new();
    out.extend_from_slice(&GGUF_MAGIC);
    push_u32(&mut out, GGUF_VERSION);
    push_u64(&mut out, 0);
    push_u64(&mut out, 1);
    push_kv_raw(&mut out, "custom.bad", 99, &[]);
    let err = refused(&out);
    assert!(err.message::<Native>().contains("unsupported GGUF value type 99"));
}

#[test]
fn parse_checkpoint_layout_rejects_too_many_tensor_dims() {
    let mut out = Vec::new();
    out.extend_from_slice(&GGUF_MAGIC);
    push_u32(&mut out, GGUF_VERSION);
    push_u64(&mut out, 1);
    push_u64(&mut out, 0);
    push_string(&mut out, "t");
    push_u32(&mut out, 9);
    for _ in 0..9 {
        push_u64(&mut out, 1);
    }
    push_u32(&mut out, GGML_TYPE_F32);
    push_u64(&mut out, 0);
    let err = refused(&out);
    assert!(err.message::<Native>().contains("exceeds maximum allowed 8"));
}

#[test]
fn parse_checkpoint_layout_rejects_tensor_element_overflow() {
    let mut out = Vec::new();
    out.extend_from_slice(&GGUF_MAGIC);
    push_u32(&mut out, GGUF_VERSION);
    push_u64(&mut out, 1);
    push_u64(&mut out, 0);
    push_string(&mut out, "t");
    push_u32(&mut out, 2);
    push_u64(&mut out, usize::MAX as u64);
    push_u64(&mut out, 2);
    push_u32(&mut out, GGML_TYPE_F32);
    push_u64(&mut out, 0);
    let err = refused(&out);
    assert!(err.message::<Native>().contains("element count overflow"));
}

fn build_token_file(ggml_type: u32, d1: usize, payload: Vec<u8>) -> Vec<u8> {
    let mut out = Vec::new();
    out.extend_from_slice(&GGUF_MAGIC);
    push_u32(&mut out, GGUF_VERSION);
    push_u64(&mut out, 1);
    push_u64(&mut out, 0);
    push_string(&mut out, "token_embd.weight");
    push_u32(&mut out, 2);
    push_u64(&mut out, EMBEDDING_DIM as u64);
    push_u64(&mut out, d1 as u64);
    push_u32(&mut out, ggml_type);
    push_u64(&mut out, 0);
    while out.len() % 32 != 0 {
        out.push(0);
    }
    out.extend_from_slice(&payload);
    out
}

#[test]
fn probe_and_map_extracts_f32_token_embedding() {
    let d1 = 3usize;
    let payload = vec![0u8; EMBEDDING_DIM * d1 * std::mem::size_of::<f32>()];
    let bytes = build_token_file(GGML_TYPE_F32, d1, payload);
    let path = "token_f32";
    let checkpoint = map_checkpoint(&bytes, path).ok().unwrap();

    assert!(checkpoint.has_tensor("token_embd.weight"));
    assert_eq!(
        checkpoint.find_first_tensor_with_suffix("embd.weight"),
        Some("token_embd.weight")
    );
    assert!(
        checkpoint
            .find_first_tensor_with_suffix("missing")
            .is_none()
    );

    let info = checkpoint
        .tensor_info("token_embd.weight", path)
        .ok()
        .unwrap();
    assert_eq!(info.dims, vec![EMBEDDING_DIM, d1]);
    assert_eq!(info.ggml_type, GGML_TYPE_F32);

    let weights = checkpoint
        .f32_tensor("token_embd.weight", path)
        .unwrap();
    assert_eq!(weights.len(), EMBEDDING_DIM * d1);

    let embedding = checkpoint
        .extract_token_embedding::<Native>("token_embd.weight", path, 0)
        .unwrap();
    assert_eq!(embedding.len(), EMBEDDING_DIM);
    assert!(floats(&embedding).iter().all(|&v| v == 0.0));

    let err = checkpoint
        .extract_token_embedding::<Native>("token_embd.weight", path, d1)
        .unwrap_err();
    assert!(
        matches!(err, HybridError::InputLengthMismatch { expected, got } if expected == d1 && got == d1)
    );
}

#[test]
fn probe_and_map_extracts_f16_token_embedding() {
    let d1 = 3usize;
    let payload = vec![0u8; EMBEDDING_DIM * d1 * 2];
    let bytes = build_token_file(GGML_TYPE_F16, d1, payload);
    let path = "token_f16";
    let checkpoint = map_checkpoint(&bytes, path).ok().unwrap();

    let info = checkpoint
        .tensor_info("token_embd.weight", path)
        .ok()
        .unwrap()
        .clone();
    assert_eq!(info.ggml_type, GGML_TYPE_F16);

    let err = checkpoint
        .f32_tensor("token_embd.weight", path)
        .unwrap_err();
    assert!(err.message::<Native>().contains("must be F32"));

    let values = checkpoint
        .u16_tensor_values(&info, path, "token_embd.weight")
        .unwrap();
    assert_eq!(values.len(), EMBEDDING_DIM * d1);

    let embedding = checkpoint
        .extract_token_embedding::<Native>("token_embd.weight", path, 1)
        .unwrap();
    assert_eq!(embedding.len(), EMBEDDING_DIM);
    assert!(floats(&embedding).iter().all(|&v| v == 0.0));
}

#[test]
fn extract_token_embedding_rejects_unsupported_ggml_type() {
    let bytes = build_token_file(GGML_TYPE_IQ3_S, 2, vec![]);
    let path = "token_iq3";
    let checkpoint = map_checkpoint(&bytes, path).ok().unwrap();

    let err = checkpoint
        .extract_token_embedding::<Native>("token_embd.weight", path, 0)
        .unwrap_err();
    assert!(err.message::<Native>().contains("IQ3_S token embeddings"));

    let err = checkpoint
        .extract_token_embedding::<Native>("token_embd.weight", path, 5)
        .unwrap_err();
    assert!(
        matches!(err, HybridError::InputLengthMismatch { expected, got } if expected == 2 && got == 5)
    );
}

#[test]
fn golden_q8_0_block_matches_llama_cpp_layout() {
    let mut block = [0u8; 34];
    block[0..2].copy_from_slice(&f16::from_f32(2.0).to_bits().to_le_bytes());
    for (idx, q) in block[2..34].iter_mut().enumerate() {
        *q = idx as u8;
    }
    let out = floats(&dequantize_row_q8_0::<Native>(&block, 32).unwrap());
    assert_eq!(out.len(), 32);
    for (idx, &value) in out.iter().enumerate() {
        let expected = idx as f32 * 2.0;
        assert!(
            (value - expected).abs() <= 1e-5,
            "idx {idx}: got {value}, expected {expected}"
        );
    }
}

#[test]
fn golden_q5_k_block_matches_llama_cpp_layout() {
    let mut block = [0u8; 176];
    block[0..2].copy_from_slice(&f16::from_f32(1.0).to_bits().to_le_bytes());
    block[2..4].copy_from_slice(&f16::from_f32(0.0).to_bits().to_le_bytes());
    block[4] = 1;
    for b in block[48..80].iter_mut() {
        *b = 0x05;
    }
    let out = floats(&dequantize_row_q5_k::<Native>(&block, 256).unwrap());
    assert_eq!(out.len(), 256);
    const EXPECTED_HEAD: [f32; 8] = [5.0, 0.0, 5.0, 0.0, 5.0, 0.0, 5.0, 0.0];
    for (idx, (&value, &expected)) in out.iter().zip(EXPECTED_HEAD.iter()).enumerate() {
        assert!(
            (value - expected).abs() <= 1e-4,
            "idx {idx}: got {value}, expected {expected}"
        );
    }
    assert!(out[8..]
        .iter()
        .all(|&v| (v - 5.0).abs() <= 1e-4 || (v - 0.0).abs() <= 1e-4));
}

#[test]
fn f16_to_f32_preserves_signed_zero_subnormal_and_one() {
    assert_eq!(half_to_single(0x8000), (-0.0f32).to_bits());
    assert_eq!(
        f32::from_bits(half_to_single(0x0001)),
        f16::from_bits(0x0001).to_f32()
    );
    assert!((f32::from_bits(half_to_single(0x3C00)) - 1.0).abs() <= f32::EPSILON);
}

#[test]
fn test_q5k_dequant_smoke_runs_full_block_loop() {
    let block = vec![0u8; 176];
    let out =
        dequantize_row_q5_k::<Native>(&block, 256).expect("Q5_K row size should be accepted");
    assert_eq!(out.len(), 256);
}

/// Scale and minimum of a sub-block, with the bit operations of the format.
fn packed_scale_min(index: usize, scales: &[u8]) -> (u8, u8) {
    if index < 4 {
        (scales[index] & 63, scales[index + 4] & 63)
    } else {
        (
            (scales[index + 4] & 0x0F) | ((scales[index - 4] >> 6) << 4),
            (scales[index + 4] >> 4) | ((scales[index] >> 6) << 4),
        )
    }
}

#[test]
fn q5_k_entries_match_their_formula_bit_by_bit() {
    let mut state = 0x1234_5678u32;
    let mut row = vec![0u8; 2 * 176];
    for b in row.iter_mut() {
        state = state.wrapping_mul(1_664_525).wrapping_add(1_013_904_223);
        *b = (state >> 24) as u8;
    }
    for block in row.chunks_mut(176) {
        block[0..2].copy_from_slice(&f16::from_f32(0.37).to_bits().to_le_bytes());
        block[2..4].copy_from_slice(&f16::from_f32(-1.25).to_bits().to_le_bytes());
    }
    let out = dequantize_row_q5_k::<Native>(&row, 512).unwrap();
    assert_eq!(out.len(), 512);
    let mut expected = Vec::new();
    for block in row.chunks(176) {
        let d = f16::from_bits(u16::from_le_bytes([block[0], block[1]])).to_f32();
        let dmin = f16::from_bits(u16::from_le_bytes([block[2], block[3]])).to_f32();
        let (scales, qh, ql) = (&block[4..16], &block[16..48], &block[48..176]);
        for j in 0..4 {
            let (sc1, m1) = packed_scale_min(2 * j, scales);
            let (sc2, m2) = packed_scale_min(2 * j + 1, scales);
            for lane in 0..32 {
                let q = ql[32 * j + lane];
                let hi1 = if qh[lane] & (1 << (2 * j)) != 0 { 16 } else { 0 };
                let hi2 = if qh[lane] & (2 << (2 * j)) != 0 { 16 } else { 0 };
                expected.push(d * sc1 as f32 * ((q & 0x0F) + hi1) as f32 - dmin * m1 as f32);
                expected.push(d * sc2 as f32 * ((q >> 4) + hi2) as f32 - dmin * m2 as f32);
            }
        }
    }
    assert_eq!(out, bits(&expected));
}

#[test]
fn q8_0_reads_signed_quants() {
    let mut block = [0u8; 34];
    block[0..2].copy_from_slice(&f16::from_f32(0.5).to_bits().to_le_bytes());
    block[2] = 0xFF;
    block[3] = 0x80;
    block[4] = 0x7F;
    let out = floats(&dequantize_row_q8_0::<Native>(&block, 32).unwrap());
    assert_eq!(&out[0..3], &[-0.5, -64.0, 63.5]);
}

#[test]
fn row_sizes_and_their_refusals() {
    assert_eq!(tensor_row_size(GGML_TYPE_Q8_0, 64).unwrap(), Some(68));
    assert_eq!(tensor_row_size(GGML_TYPE_Q5_K, 512).unwrap(), Some(352));
    assert_eq!(tensor_row_size(GGML_TYPE_Q8_0, usize::MAX - 31).unwrap(), None);
    for (ty, width, part) in [
        (GGML_TYPE_Q8_0, 33, "Q8_0 tensor width 33 is not divisible by 32"),
        (GGML_TYPE_Q5_K, 32, "Q5_K tensor width 32 is not divisible by 256"),
        (
            GGML_TYPE_F32,
            32,
            "row-size lookup is not implemented for ggml_type=0",
        ),
    ] {
        let err = tensor_row_size(ty, width).unwrap_err();
        assert!(err.message::<Native>().contains(part));
    }
    assert!(matches!(
        dequantize_row_q8_0::<Native>(&[], 5),
        Err(CortexError::UnsupportedFormat(m)) if m == "Q8_0 width 5 is not divisible by 32"
    ));
    assert!(matches!(
        dequantize_row_q5_k::<Native>(&[], 5),
        Err(CortexError::UnsupportedFormat(m)) if m == "Q5_K width 5 is not divisible by 256"
    ));
}

#[test]
fn labels_alignment_and_block_numbers() {
    assert_eq!(quantization_label(Some(0)), "F32");
    assert_eq!(quantization_label(Some(1)), "F16");
    assert_eq!(quantization_label(Some(7)), "GGUF(7)");
    assert_eq!(quantization_label(None), "GGUF");
    assert_eq!(align_up(33, 32), 64);
    assert_eq!(align_up(64, 32), 64);
    assert_eq!(align_up(5, 0), 5);
    assert_eq!(align_up(usize::MAX, 32), usize::MAX);
    for text in ["0", "17", "+3", "007", "", "+", "-1", "1x", "99999999999999999999"] {
        assert_eq!(parse_size(text.as_bytes()), text.parse::<usize>().ok(), "{text}");
    }
    assert_eq!(tensor_block(b"blk.12.ffn.weight"), 12);
    assert_eq!(tensor_block(b"blk.12"), usize::MAX);
    assert_eq!(tensor_block(b"token_embd.weight"), usize::MAX);
}

#[test]
fn names_sort_by_block_and_then_by_bytes() {
    let names = ["blk.10.a", "blk.2.b", "blk.2.a", "zzz", "aaa", "blk.x.a", "blk.2."];
    let key = |n: &str| {
        let block = n
            .strip_prefix("blk.")
            .and_then(|rest| rest.split_once('.'))
            .and_then(|(idx, _)| idx.parse::<usize>().ok())
            .unwrap_or(usize::MAX);
        (block, String::from(n))
    };
    for a in names {
        for b in names {
            assert_eq!(
                is_names_ordered(a.as_bytes(), b.as_bytes()),
                key(a) <= key(b),
                "{a} {b}"
            );
        }
    }
}

#[test]
fn resample_embedding_preserves_target_length() {
    let input = vec![0.0, 1.0, 0.0, -1.0];
    let out = resampled(&input, 8);
    assert_eq!(out.len(), 8);
    assert!((out[0] - 0.0).abs() < 1e-6);
    assert!((out[7] + 1.0).abs() < 1e-6);
}

#[test]
fn softmax_empty_scores_are_empty() {
    assert!(softmaxed(&[]).is_empty());
}

#[test]
fn softmax_all_masked_is_uniform() {
    let y = softmaxed(&[f32::NEG_INFINITY, f32::NEG_INFINITY]);
    assert!((y[0] - 0.5).abs() < 1e-6);
    assert!((y[1] - 0.5).abs() < 1e-6);
}

#[test]
fn softmax_two_pos_inf_split() {
    let y = softmaxed(&[f32::INFINITY, 0.0, f32::INFINITY]);
    assert_eq!(y, vec![0.5, 0.0, 0.5]);
}

#[test]
fn l2_normalize_unit_vector() {
    let mut v = vec![3.0f32, 4.0];
    normalize(&mut v);
    assert!((v[0] - 0.6).abs() < 1e-6);
    assert!((v[1] - 0.8).abs() < 1e-6);
}

#[test]
fn normalize_to_internal_dim_returns_2048() {
    let input = vec![0.5; 3072];
    let out = internal(&input);
    assert_eq!(out.len(), EMBEDDING_DIM);
}

#[test]
fn route_top_k_ranks_raw_scores_before_softmax() {
    let scores = [0.0_f32, 1.0, f32::INFINITY];
    let (weights, selected) = routed(&scores, 1).unwrap();
    assert_eq!(selected, vec![2]);
    // Finite-value policy: one +Inf → one-hot at that expert.
    assert_eq!(weights, vec![0.0, 0.0, 1.0]);
}

#[test]
fn route_top_k_preserves_raw_order_when_softmax_underflows() {
    // After max-subtraction, exp(-150) and exp(-140) both underflow to 0, so
    // ranking softmax weights would tie experts 1 and 2 and pick ID 1.
    let scores = [100.0_f32, -50.0, -40.0];
    let weights = softmaxed(&scores);
    assert_eq!(weights[1], 0.0);
    assert_eq!(weights[2], 0.0);
    let (_weights, selected) = routed(&scores, 2).unwrap();
    assert_eq!(selected, vec![0, 2]);
}

#[test]
fn top_k_zero_still_rejects_nan() {
    assert!(matches!(
        select(&[f32::NAN], 0).unwrap_err(),
        HybridError::NanRoutingScore { expert_id: 0 }
    ));
}

#[test]
fn finite_distinct_scores_keep_expected_selection() {
    let scores = [0.9_f32, 0.5, 0.3, 0.1];
    assert_eq!(select(&scores, 2).unwrap(), vec![0, 1]);
    assert_eq!(select(&scores, 1).unwrap(), vec![0]);
    assert_eq!(select(&scores, 4).unwrap(), vec![0, 1, 2, 3]);
}

#[test]
fn all_equal_finite_scores_select_lowest_ids() {
    let scores = [0.25_f32, 0.25, 0.25, 0.25];
    assert_eq!(select(&scores, 2).unwrap(), vec![0, 1]);
    assert_eq!(select(&scores, 4).unwrap(), vec![0, 1, 2, 3]);
}

#[test]
fn partial_ties_prefer_lowest_expert_id() {
    let scores = [0.4_f32, 0.9, 0.4, 0.1];
    // 0.9 at expert 1, then the two 0.4s at 0 then 2.
    assert_eq!(select(&scores, 3).unwrap(), vec![1, 0, 2]);
}

#[test]
fn tied_high_scores_are_stable_across_id_permutations() {
    // Same three-way tie on the high value, assigned to different IDs.
    let permutations: [&[f32]; 3] = [
        &[1.0, 1.0, 0.0, 1.0],
        &[0.0, 1.0, 1.0, 1.0],
        &[1.0, 0.0, 1.0, 1.0],
    ];
    let expected: [&[usize]; 3] = [&[0, 1, 3], &[1, 2, 3], &[0, 2, 3]];
    for (scores, want) in permutations.iter().zip(expected) {
        assert_eq!(select(scores, 3).unwrap(), want);
    }
}

#[test]
fn repeated_runs_match_for_ties_and_infinities() {
    let scores = [1.0_f32, f32::INFINITY, 1.0, f32::NEG_INFINITY, 1.0];
    let first = select(&scores, 4).unwrap();
    for _ in 0..16 {
        assert_eq!(select(&scores, 4).unwrap(), first);
    }
    assert_eq!(first, vec![1, 0, 2, 4]);
}

#[test]
fn nan_is_rejected_without_partial_cmp_fallback() {
    let scores = [0.2_f32, f32::NAN, 0.9];
    let err = select(&scores, 2).unwrap_err();
    assert!(matches!(err, HybridError::NanRoutingScore { expert_id: 1 }));
    assert_eq!(err.message::<Native>(), "NaN routing score at expert 1");
}

#[test]
fn first_nan_is_reported_when_several_are_present() {
    let scores = [f32::NAN, 1.0, f32::NAN];
    assert!(matches!(
        select(&scores, 1).unwrap_err(),
        HybridError::NanRoutingScore { expert_id: 0 }
    ));
}

#[test]
fn pos_inf_ranks_above_finite_and_neg_inf_below() {
    let scores = [1.0_f32, f32::NEG_INFINITY, f32::INFINITY, 2.0];
    assert_eq!(select(&scores, 4).unwrap(), vec![2, 3, 0, 1]);
}

#[test]
fn equal_infinities_break_ties_by_expert_id() {
    let pos = [f32::INFINITY, 0.0, f32::INFINITY];
    assert_eq!(select(&pos, 2).unwrap(), vec![0, 2]);
    let neg = [f32::NEG_INFINITY, 1.0, f32::NEG_INFINITY];
    assert_eq!(select(&neg, 3).unwrap(), vec![1, 0, 2]);
}

#[test]
fn signed_zeros_are_equal_and_break_ties_by_id() {
    let scores = [-0.0_f32, 0.0, -0.0, 1.0];
    assert_eq!(select(&scores, 3).unwrap(), vec![3, 0, 1]);
    assert_eq!(select(&scores, 4).unwrap(), vec![3, 0, 1, 2]);
}

#[test]
fn empty_scores_yield_empty_selection() {
    assert_eq!(select(&[], 0).unwrap(), Vec::<usize>::new());
    assert_eq!(select(&[], 3).unwrap(), Vec::<usize>::new());
}

#[test]
fn top_k_zero_one_n_and_n_plus_one() {
    let scores = [0.1_f32, 0.4, 0.3];
    let n = scores.len();
    assert_eq!(select(&scores, 0).unwrap(), Vec::<usize>::new());
    assert_eq!(select(&scores, 1).unwrap(), vec![1]);
    assert_eq!(select(&scores, n).unwrap(), vec![1, 2, 0]);
    assert_eq!(select(&scores, n + 1).unwrap(), vec![1, 2, 0]);
}

fn assert_unique_in_range_and_monotonic(scores: &[f32], selected: &[usize]) {
    let mut seen = HashSet::with_capacity(selected.len());
    for &expert_id in selected {
        assert!(
            expert_id < scores.len(),
            "expert {expert_id} out of range for {} scores",
            scores.len()
        );
        assert!(seen.insert(expert_id), "duplicate expert {expert_id}");
    }
    for window in selected.windows(2) {
        let (left, right) = (window[0], window[1]);
        let (left_score, right_score) = (scores[left], scores[right]);
        assert!(
            left_score >= right_score,
            "selected scores must be non-increasing: {left_score} then {right_score}"
        );
        if left_score == right_score {
            assert!(
                left < right,
                "equal scores must break ties by ascending expert id, got {left} then {right}"
            );
        }
    }
}

#[test]
fn property_unique_in_range_and_monotonic_selected_scores() {
    let fixtures: &[&[f32]] = &[
        &[0.1, 0.2, 0.3, 0.4],
        &[1.0, 1.0, 1.0],
        &[5.0, 1.0, 5.0, 1.0, 0.0],
        &[f32::INFINITY, 0.0, f32::NEG_INFINITY, f32::INFINITY],
        &[-0.0, 0.0, 0.0, -0.0],
        &[],
    ];
    for scores in fixtures {
        for top_k in [0, 1, scores.len(), scores.len().saturating_add(1)] {
            let selected = select(scores, top_k).unwrap();
            assert_eq!(selected.len(), top_k.min(scores.len()));
            assert_unique_in_range_and_monotonic(scores, &selected);
        }
    }

    let mut rng = SplitMix64(0xC0FFEE_u64);
    for trial in 0..256 {
        let n = 1 + (rng.next_u64() as usize % 16);
        let mut scores = Vec::with_capacity(n);
        for _ in 0..n {
            scores.push(rng.next_routing_score());
        }
        if scores.iter().any(|score| score.is_nan()) {
            assert!(matches!(
                select(&scores, n.min(3)).unwrap_err(),
                HybridError::NanRoutingScore { .. }
            ));
            continue;
        }
        let top_k = rng.next_u64() as usize % (n + 2);
        let selected = select(&scores, top_k).unwrap();
        assert_eq!(selected.len(), top_k.min(n));
        assert_unique_in_range_and_monotonic(&scores, &selected);
        let again = select(&scores, top_k).unwrap();
        assert_eq!(selected, again, "trial {trial} was not deterministic");
    }
}

struct SplitMix64(u64);

impl SplitMix64 {
    fn next_u64(&mut self) -> u64 {
        self.0 = self.0.wrapping_add(0x9E37_79B9_7F4A_7C15);
        let mut z = self.0;
        z = (z ^ (z >> 30)).wrapping_mul(0xBF58_476D_1CE4_E5B9);
        z = (z ^ (z >> 27)).wrapping_mul(0x94D0_49BB_1331_11EB);
        z ^ (z >> 31)
    }

    fn next_routing_score(&mut self) -> f32 {
        match self.next_u64() % 32 {
            0 => f32::NAN,
            1 => f32::INFINITY,
            2 => f32::NEG_INFINITY,
            3 => 0.0,
            4 => -0.0,
            _ => {
                let unit = (self.next_u64() >> 40) as f32 / (1u32 << 24) as f32;
                unit * 20.0 - 10.0
            }
        }
    }
}

fn stub<'a>() -> MoeRouter<'a> {
    MoeRouter::load_with_mode("", &[], 8, 1, RoutingMode::StubUniform)
        .ok()
        .expect("stub load should succeed")
}

#[test]
fn test_stub_mode_loads() {
    let model = stub();
    assert!(!model.is_loaded());
    assert_eq!(model.quantization(), "stub");
}

#[test]
fn test_stub_forward_uniform_weights() {
    let mut model = stub();
    let out = model
        .forward::<Native>(&bits(&vec![0.1; EMBEDDING_DIM]))
        .unwrap();
    for weight in floats(&out.expert_weights) {
        assert!((weight - 0.125).abs() < 1e-5);
    }
}

#[test]
fn test_dense_sim_uses_real_gate_weights() {
    let mut gate = vec![0.0f32; EMBEDDING_DIM * 64];
    for (expert, value) in gate.iter_mut().take(64).enumerate() {
        *value = if expert == 0 { 8.0 } else { -8.0 };
    }
    let gate_bytes: Vec<u8> = gate.iter().flat_map(|value| value.to_le_bytes()).collect();
    let bytes = build_real_size_checkpoint(gate_bytes);

    let mut model =
        MoeRouter::load_with_mode("dense-real", &bytes, 8, 2, RoutingMode::DenseSim)
            .ok()
            .unwrap();
    let mut embedding = vec![0.0f32; EMBEDDING_DIM];
    embedding[0] = 1.0;
    let out = model.forward::<Native>(&bits(&embedding)).unwrap();
    assert_eq!(out.selected_experts[0], 0);
    assert_eq!(model.routing_tensor_name(), "blk.0.ffn_gate_inp.weight");
}

fn adapter_fixture(
    gate_dims: Vec<usize>,
    gate_payload: Vec<u8>,
    token_ggml: u32,
    token_dims: Vec<usize>,
    token_payload: Vec<u8>,
) -> Vec<u8> {
    build_test_gguf(
        vec![
            (
                "blk.0.ffn_gate_inp.weight",
                gate_dims,
                GGML_TYPE_F32,
                gate_payload,
            ),
            (
                "blk.0.attn_q.weight",
                vec![EMBEDDING_DIM, EMBEDDING_DIM],
                GGML_TYPE_IQ3_S,
                vec![0u8; 16],
            ),
            ("token_embd.weight", token_dims, token_ggml, token_payload),
        ],
        32,
        EMBEDDING_DIM,
    )
}

fn mapped<'a>(bytes: &'a [u8], path: &str) -> MappedGgufCheckpoint<'a> {
    map_checkpoint(bytes, path)
        .ok()
        .expect("synthetic GGUF should map")
}

#[test]
fn test_adapter_resolve_routing_insufficient_experts() {
    let gate_payload = vec![0u8; EMBEDDING_DIM * size_of::<f32>()];
    let checkpoint = adapter_fixture(
        vec![EMBEDDING_DIM, 1],
        gate_payload,
        GGML_TYPE_F16,
        vec![EMBEDDING_DIM, 32],
        vec![0u8; EMBEDDING_DIM * 32 * 2],
    );
    let path = "routing-insufficient-experts";
    let mapped = mapped(&checkpoint, path);
    let result = resolve_adapter(mapped.metadata(), &mapped, path);
    assert!(matches!(
        result,
        Err(HybridError::UnsupportedFormat(msg)) if msg.contains("only exposes 1 experts")
    ));
}

#[test]
fn test_adapter_resolve_routing_invalid_orientation() {
    let gate_payload = vec![0u8; 64 * 128 * size_of::<f32>()];
    let checkpoint = adapter_fixture(
        vec![64, 128],
        gate_payload,
        GGML_TYPE_F16,
        vec![EMBEDDING_DIM, 32],
        vec![0u8; EMBEDDING_DIM * 32 * 2],
    );
    let path = "routing-invalid-orientation";
    let mapped = mapped(&checkpoint, path);
    let result = resolve_adapter(mapped.metadata(), &mapped, path);
    assert!(matches!(
        result,
        Err(HybridError::UnsupportedFormat(msg)) if msg.contains("unsupported orientation")
    ));
}

#[test]
fn test_adapter_resolve_rejects_iq3_s_token_embedding() {
    let gate_payload = vec![0u8; EMBEDDING_DIM * 64 * size_of::<f32>()];
    let checkpoint = adapter_fixture(
        vec![EMBEDDING_DIM, 64],
        gate_payload,
        GGML_TYPE_IQ3_S,
        vec![EMBEDDING_DIM, 32],
        vec![0u8; 16],
    );
    let path = "iq3s-token-embd";
    let mapped = mapped(&checkpoint, path);
    let result = resolve_adapter(mapped.metadata(), &mapped, path);
    assert!(matches!(
        result,
        Err(HybridError::UnsupportedFormat(msg)) if msg.contains("token embedding tensor")
    ));
}

// ── Layout and access ────────────────────────────────────────────────

/// A checkpoint of a small model: hidden size 4, two experts used of 64.
fn small_checkpoint(gate_dims: Vec<usize>, gate: &[f32], token_type: u32, token: Vec<u8>) -> Vec<u8> {
    let payload: Vec<u8> = gate.iter().flat_map(|v| v.to_le_bytes()).collect();
    build_test_gguf(
        vec![
            ("blk.10.ffn_gate_inp.weight", vec![9], GGML_TYPE_F32, vec![]),
            ("blk.2.ffn_gate_inp.weight", gate_dims, GGML_TYPE_F32, payload),
            ("token_embd.weight", vec![4, 3], token_type, token),
        ],
        32,
        4,
    )
}

fn ramp(n: usize) -> Vec<f32> {
    (0..n).map(|i| i as f32 * 0.25 - 3.0).collect()
}

fn le_bytes(v: &[f32]) -> Vec<u8> {
    v.iter().flat_map(|x| x.to_le_bytes()).collect()
}

#[test]
fn router_metadata_comes_from_the_checkpoint() {
    let bytes = small_checkpoint(vec![4, 64], &ramp(256), GGML_TYPE_F32, le_bytes(&ramp(12)));
    let meta = MoeRouter::probe_model("m", &bytes).ok().unwrap();
    assert_eq!(meta.architecture, "reference_moe");
    assert_eq!(meta.hidden_size, 4);
    assert_eq!(meta.num_layers, 16);
    assert_eq!(meta.num_experts, 64);
    assert_eq!(meta.expert_used_count, 8);
    assert_eq!(meta.quantization, "F16");
    assert_eq!(meta.routing_tensor_name, "blk.2.ffn_gate_inp.weight");

    let router = MoeRouter::load("m", &bytes, 0, 0).ok().unwrap();
    assert!(router.is_loaded());
    assert_eq!(router.model_path(), "m");
    assert_eq!(router.architecture(), "reference_moe");
    assert_eq!(router.hidden_size(), 4);
    assert_eq!(router.num_layers(), 16);
    assert_eq!(router.checkpoint_num_experts(), 64);
    assert_eq!(router.checkpoint_expert_used_count(), 8);
    assert_eq!(router.num_experts(), 64);
    assert_eq!(router.top_k(), 8);
    assert_eq!(router.routing_mode(), RoutingMode::StubUniform);
    let fewer = MoeRouter::load("m", &bytes, 5, 9).ok().unwrap();
    assert_eq!((fewer.num_experts(), fewer.top_k()), (5, 5));
    assert!(matches!(
        MoeRouter::load("m", &bytes, 65, 1),
        Err(CortexError::InvalidConfig(m))
            if m == "num_experts (65) exceeds checkpoint expert_count (64)"
    ));
    assert_eq!(RouterMetadata::default().num_experts, 0);
    assert_eq!(meta.clone().hidden_size, 4);
}

#[test]
fn stub_router_has_at_least_one_expert() {
    let router = MoeRouter::load("", &[], 0, 0).ok().unwrap();
    assert_eq!((router.num_experts(), router.top_k()), (1, 1));
    assert_eq!(router.routing_tensor_name(), "synthetic");
    assert_eq!(router.hidden_size(), EMBEDDING_DIM);
}

#[test]
fn gate_scores_follow_either_orientation() {
    let weights = ramp(256);
    let token = le_bytes(&ramp(12));
    let embedding: Vec<f32> = (0..4).map(|i| i as f32 + 1.0).collect();
    let norm = embedding
        .iter()
        .map(|x| f64::from(*x) * f64::from(*x))
        .fold(0.0, |a, b| a + b)
        .sqrt();
    let unit: Vec<f32> = embedding.iter().map(|x| (f64::from(*x) / norm) as f32).collect();
    for (dims, by_entry) in [(vec![4, 64], true), (vec![64, 4], false)] {
        let bytes = small_checkpoint(dims, &weights, GGML_TYPE_F32, token.clone());
        let router = MoeRouter::load_with_mode("m", &bytes, 6, 2, RoutingMode::DenseSim)
            .ok()
            .unwrap();
        let scores = floats(&router.gate_scores::<Native>(&bits(&embedding)).unwrap());
        assert_eq!(scores.len(), 6);
        for (e, score) in scores.iter().enumerate() {
            let mut acc = 0.0f32;
            for (d, x) in unit.iter().enumerate() {
                let at = if by_entry { d * 64 + e } else { e * 4 + d };
                acc += weights[at] * x;
            }
            assert_eq!(acc.to_bits(), score.to_bits());
        }
    }
}

#[test]
fn every_weight_counts_for_one_expert_and_entry() {
    let token = le_bytes(&ramp(12));
    for (dims, by_entry) in [(vec![4, 64], true), (vec![64, 4], false)] {
        for expert in [0usize, 3, 5] {
            for entry in 0..4usize {
                let mut weights = vec![0.0f32; 256];
                weights[if by_entry { entry * 64 + expert } else { expert * 4 + entry }] = 1.0;
                let bytes =
                    small_checkpoint(dims.clone(), &weights, GGML_TYPE_F32, token.clone());
                let router = MoeRouter::load_with_mode("m", &bytes, 6, 2, RoutingMode::DenseSim)
                    .ok()
                    .unwrap();
                for d in 0..4 {
                    let mut embedding = [0.0f32; 4];
                    embedding[d] = 1.0;
                    let scores = floats(&router.gate_scores::<Native>(&bits(&embedding)).unwrap());
                    for (e, score) in scores.iter().enumerate() {
                        let hit = e == expert && d == entry;
                        assert_eq!(*score, if hit { 1.0 } else { 0.0 });
                    }
                }
            }
        }
    }
}

#[test]
fn token_rows_of_every_type() {
    let row = ramp(12);
    let gate = ramp(256);
    let f32_file = small_checkpoint(vec![4, 64], &gate, GGML_TYPE_F32, le_bytes(&row));
    let mut router = MoeRouter::load("m", &f32_file, 0, 0).ok().unwrap();
    assert_eq!(
        floats(&router.extract_token_embedding::<Native>(1).unwrap()),
        &row[4..8]
    );
    assert!(matches!(
        router.extract_token_embedding::<Native>(3),
        Err(CortexError::InputLengthMismatch { expected: 3, got: 3 })
    ));

    let halves: Vec<u8> = row
        .iter()
        .flat_map(|x| f16::from_f32(*x).to_bits().to_le_bytes())
        .collect();
    let f16_file = small_checkpoint(vec![4, 64], &gate, GGML_TYPE_F16, halves);
    let mut router = MoeRouter::load("m", &f16_file, 0, 0).ok().unwrap();
    assert_eq!(
        floats(&router.extract_token_embedding::<Native>(2).unwrap()),
        &row[8..12]
    );

    let short = small_checkpoint(vec![4, 64], &gate, GGML_TYPE_F32, vec![0u8; 40]);
    let mut router = MoeRouter::load("m", &short, 0, 0).ok().unwrap();
    let err = router.extract_token_embedding::<Native>(0).unwrap_err();
    assert!(err
        .message::<Native>()
        .contains("tensor 'token_embd.weight' extends beyond mapped file"));

    let mut stub = stub();
    assert!(matches!(
        stub.extract_token_embedding::<Native>(0),
        Err(CortexError::ModelLoad { reason, .. }) if reason == "checkpoint not loaded"
    ));
}

#[test]
fn quantized_token_rows() {
    let file = |ty: u32, width: usize, payload: Vec<u8>| {
        build_test_gguf(
            vec![
                ("blk.0.ffn_gate.weight", vec![width, 64], GGML_TYPE_F32, vec![]),
                ("tok_embeddings.weight", vec![width, 2], ty, payload),
            ],
            32,
            width,
        )
    };
    let mut row = vec![0u8; 34];
    row[0..2].copy_from_slice(&f16::from_f32(2.0).to_bits().to_le_bytes());
    row[2..34].copy_from_slice(&[3u8; 32]);
    let mut payload = vec![0u8; 34];
    payload.extend_from_slice(&row);
    let bytes = file(GGML_TYPE_Q8_0, 32, payload);
    let mut router = MoeRouter::load("q", &bytes, 0, 0).ok().unwrap();
    assert_eq!(router.routing_tensor_name(), "blk.0.ffn_gate.weight");
    assert_eq!(
        floats(&router.extract_token_embedding::<Native>(1).unwrap()),
        &[6.0; 32]
    );
    let bytes = file(GGML_TYPE_Q5_K, 256, vec![0u8; 176]);
    let mut router = MoeRouter::load("q", &bytes, 0, 0).ok().unwrap();
    assert_eq!(router.extract_token_embedding::<Native>(0).unwrap().len(), 256);
    let err = router.extract_token_embedding::<Native>(1).unwrap_err();
    assert!(err
        .message::<Native>()
        .contains("tensor 'tok_embeddings.weight' row extends beyond mapped file"));
    let mut model = MoeRouter::load_with_mode("q", &bytes, 2, 1, RoutingMode::DenseSim)
        .ok()
        .unwrap();
    let err = model
        .forward::<Native>(&bits(&[1.0; EMBEDDING_DIM]))
        .unwrap_err();
    assert!(err
        .message::<Native>()
        .contains("tensor 'blk.0.ffn_gate.weight' extends beyond mapped file"));
}

#[test]
fn token_options_resample_and_normalize() {
    let row = [3.0f32, 0.0, 0.0, 4.0];
    let keep = ExtractTokenOptions::default();
    assert_eq!(
        apply_extract_token_options::<Native>(&bits(&row), keep).unwrap(),
        bits(&row)
    );
    let unit = ExtractTokenOptions { target_dim: None, l2_normalize: true };
    let v = floats(&apply_extract_token_options::<Native>(&bits(&row), unit).unwrap());
    assert_eq!(v, &[0.6, 0.0, 0.0, 0.8]);
    let wide = ExtractTokenOptions { target_dim: Some(7), l2_normalize: false };
    let v = floats(&apply_extract_token_options::<Native>(&bits(&row), wide).unwrap());
    assert_eq!(v, &[3.0, 1.5, 0.0, 0.0, 0.0, 2.0, 4.0]);
    let projector = ExtractTokenOptions::for_projector_forward();
    assert_eq!(projector.target_dim, Some(EMBEDDING_DIM));
    assert!(projector.l2_normalize);
    assert_eq!(RoutingMode::default(), RoutingMode::DenseSim);
}

#[test]
fn resampling_edges() {
    assert!(resampled(&[1.0, 2.0], 0).is_empty());
    assert_eq!(resampled(&[], 3), &[0.0, 0.0, 0.0]);
    assert_eq!(resampled(&[1.0, 2.0, 6.0], 1), &[3.0]);
    assert_eq!(resampled(&[1.0, 2.0], 2), &[1.0, 2.0]);
    assert_eq!(resampled(&[5.0], 3), &[5.0, 5.0, 5.0]);
    assert_eq!(resampled(&[0.0, 1.0], 5), &[0.0, 0.25, 0.5, 0.75, 1.0]);
}

#[test]
fn chunks_of_the_synthetic_gate() {
    let e = bits(&[1.0, 2.0, 3.0, 4.0, 5.0, 6.0]);
    assert_eq!(
        floats(&synthetic_gate_scores::<Native>(3, &e)),
        &[3.0, 7.0, 11.0]
    );
    assert_eq!(
        floats(&synthetic_gate_scores::<Native>(4, &e)),
        &[1.0, 2.0, 3.0, 4.0]
    );
    assert_eq!(
        floats(&synthetic_gate_scores::<Native>(8, &e)),
        &[1.0, 2.0, 3.0, 4.0, 5.0, 6.0, 1.0, 2.0]
    );
    assert!(synthetic_gate_scores::<Native>(0, &[]).is_empty());
}

#[test]
fn mixing_scales_the_embedding_by_the_selected_mass() {
    let out = mix_experts::<Native>(
        &bits(&[f32::INFINITY, 0.0, 1.0]),
        1,
        &bits(&[2.0, -4.0]),
    )
    .unwrap();
    assert_eq!(floats(&out.expert_weights), &[1.0, 0.0, 0.0]);
    assert_eq!(out.selected_experts, &[0]);
    assert_eq!(floats(&out.hidden), &[2.0, -4.0]);
    assert!(matches!(
        mix_experts::<Native>(&bits(&[0.0, f32::NAN]), 1, &[]),
        Err(CortexError::NanRoutingScore { expert_id: 1 })
    ));
    assert!(reject_nan_routing_scores(&bits(&[0.0, f32::INFINITY])).is_ok());
}

#[test]
fn forward_refuses_other_lengths_and_nan() {
    let mut dense = MoeRouter::load_with_mode("", &[], 8, 2, RoutingMode::DenseSim)
        .ok()
        .unwrap();
    assert!(matches!(
        dense.forward::<Native>(&[0; 3]),
        Err(CortexError::InputLengthMismatch { expected: EMBEDDING_DIM, got: 3 })
    ));
    let mut e = vec![1.0f32; EMBEDDING_DIM];
    e[5 * (EMBEDDING_DIM / 8)] = f32::NAN;
    assert!(matches!(
        dense.forward::<Native>(&bits(&e)),
        Err(CortexError::NanRoutingScore { expert_id: 5 })
    ));
    let out = dense.forward::<Native>(&bits(&[1.0; EMBEDDING_DIM])).unwrap();
    assert_eq!(out.selected_experts, &[0, 1]);
    let mass = f32::from_bits(out.expert_weights[0]) + f32::from_bits(out.expert_weights[1]);
    assert_eq!(f32::from_bits(out.hidden[0]), mass);
}

#[test]
fn strings_are_checked_as_utf8() {
    let mut out = Vec::new();
    out.extend_from_slice(&GGUF_MAGIC);
    push_u32(&mut out, GGUF_VERSION);
    push_u64(&mut out, 0);
    push_u64(&mut out, 2);
    push_kv_string(&mut out, "general.architecture", "größe-模");
    push_kv_u32(&mut out, "größe-模.block_count", 9);
    let parsed = parse_checkpoint_layout(&out, "test").ok().unwrap();
    assert_eq!(parsed.metadata.architecture, "größe-模");
    assert_eq!(parsed.metadata.numeric("größe-模.block_count"), Some(9));

    let mut bad = Vec::new();
    bad.extend_from_slice(&GGUF_MAGIC);
    push_u32(&mut bad, GGUF_VERSION);
    push_u64(&mut bad, 0);
    push_u64(&mut bad, 1);
    let text = [b'a', 0xC3, b'('];
    push_u64(&mut bad, 3);
    bad.extend_from_slice(&text);
    let why = String::from_utf8(text.to_vec()).unwrap_err();
    let expected = format!("model load failed for 'test': invalid UTF-8 in GGUF string: {why}");
    assert_eq!(refused(&bad).message::<Native>(), expected);
}

#[test]
fn arrays_are_skipped_whole() {
    let mut out = Vec::new();
    out.extend_from_slice(&GGUF_MAGIC);
    push_u32(&mut out, GGUF_VERSION);
    push_u64(&mut out, 0);
    push_u64(&mut out, 4);
    push_kv_array_u32(&mut out, "a", &[1, 2, 3]);
    let mut nested = Vec::new();
    push_u32(&mut nested, GGUF_VALUE_TYPE_ARRAY);
    push_u64(&mut nested, 2);
    for n in [1u64, 0] {
        push_u32(&mut nested, GGUF_VALUE_TYPE_STRING);
        push_u64(&mut nested, n);
        for _ in 0..n {
            push_string(&mut nested, "inner");
        }
    }
    push_kv_raw(&mut out, "b", GGUF_VALUE_TYPE_ARRAY, &nested);
    push_kv_string(&mut out, "c", "skipped");
    push_kv_u32(&mut out, "d", 7);
    let parsed = parse_checkpoint_layout(&out, "test").ok().unwrap();
    assert_eq!(parsed.metadata.numeric("d"), Some(7));
    assert_eq!(parsed.metadata.numeric("a"), None);
    assert_eq!(parsed.metadata.architecture, "unknown");
    assert_eq!(parsed.metadata.quantization, "GGUF");

    out.truncate(out.len() - 2);
    assert!(refused(&out)
        .message::<Native>()
        .contains("unexpected EOF while parsing GGUF"));
    let mut huge = Vec::new();
    huge.extend_from_slice(&GGUF_MAGIC);
    push_u32(&mut huge, GGUF_VERSION);
    push_u64(&mut huge, 0);
    push_u64(&mut huge, 1);
    push_u64(&mut huge, u64::MAX);
    assert!(refused(&huge).message::<Native>().contains("cursor overflow"));
}

#[test]
fn later_tensors_replace_earlier_ones_of_the_same_name() {
    let bytes = build_test_gguf(
        vec![
            ("t", vec![1], GGML_TYPE_F32, 1.0f32.to_le_bytes().to_vec()),
            ("t", vec![1], GGML_TYPE_F32, 2.0f32.to_le_bytes().to_vec()),
        ],
        64,
        4,
    );
    let checkpoint = mapped(&bytes, "dup");
    assert_eq!(
        floats(&checkpoint.f32_tensor("t", "dup").unwrap()),
        &[2.0]
    );
    assert!(matches!(
        checkpoint.f32_tensor("u", "dup"),
        Err(CortexError::MissingTensor { name, path }) if name == "u" && path == "dup"
    ));
    assert!(checkpoint.has_tensor("t") && !checkpoint.has_tensor("u"));
}

#[test]
fn missing_metadata_and_tensors_are_named() {
    let mut out = Vec::new();
    out.extend_from_slice(&GGUF_MAGIC);
    push_u32(&mut out, GGUF_VERSION);
    push_u64(&mut out, 0);
    push_u64(&mut out, 1);
    push_kv_string(&mut out, "general.architecture", "moe");
    assert!(matches!(
        MoeRouter::load("m", &out, 0, 0),
        Err(CortexError::UnsupportedFormat(m)) if m == "missing 'moe.embedding_length' in 'm'"
    ));
    let no_token = build_test_gguf(vec![], 32, 4);
    assert!(matches!(
        MoeRouter::load("m", &no_token, 0, 0),
        Err(CortexError::MissingTensor { name, .. }) if name == "token_embd.weight"
    ));
    let no_gate = build_test_gguf(
        vec![("token_embd.weight", vec![4, 1], GGML_TYPE_F32, vec![0; 16])],
        32,
        4,
    );
    assert!(matches!(
        MoeRouter::load("m", &no_gate, 0, 0),
        Err(CortexError::MissingTensor { name, .. }) if name == "ffn_gate_inp.weight"
    ));
    let wrong_type = build_test_gguf(
        vec![
            ("token_embd.weight", vec![4, 1], GGML_TYPE_F32, vec![0; 16]),
            ("blk.0.ffn_gate_inp.weight", vec![4, 64], GGML_TYPE_F16, vec![]),
        ],
        32,
        4,
    );
    assert!(matches!(
        MoeRouter::load("m", &wrong_type, 0, 0),
        Err(CortexError::UnsupportedFormat(m)) if m.contains("must be rank-2 F32")
    ));
}

#[test]
fn cursors_stop_where_a_read_fails() {
    let mut bytes = vec![0xFFu8; 8];
    bytes.extend_from_slice(&[7, 0, 0]);
    let mut c = GgufCursor::new(&bytes);
    assert!(c.read_exact(12, "p").is_err());
    assert_eq!(c.offset, 0);
    assert_eq!(c.read_exact(2, "p").unwrap(), &[0xFF, 0xFF]);
    assert_eq!(c.offset, 2);
    assert!(c.read_exact(usize::MAX, "p").is_err());
    assert_eq!(c.offset, 2);

    let at = |offset: usize| GgufCursor { bytes: &bytes, offset };
    for (ty, width) in [
        (GGUF_VALUE_TYPE_UINT64, 8),
        (GGUF_VALUE_TYPE_INT8, 1),
        (GGUF_VALUE_TYPE_INT16, 2),
        (GGUF_VALUE_TYPE_INT32, 4),
        (GGUF_VALUE_TYPE_INT64, 8),
    ] {
        let mut c = at(0);
        let err = c.read_numeric_as_u32(ty, "p").unwrap_err();
        assert!(err.message::<Native>().contains("out of range for u32"));
        assert_eq!(c.offset, width);
    }
    for ty in [GGUF_VALUE_TYPE_BOOL, GGUF_VALUE_TYPE_FLOAT32, GGUF_VALUE_TYPE_STRING, 99] {
        let mut c = at(3);
        assert!(c.read_numeric_as_u32(ty, "p").is_err());
        assert_eq!(c.offset, 3);
    }
    let mut c = at(0);
    assert!(c.read_numeric_value(GGUF_VALUE_TYPE_INT16, "p").is_err());
    assert_eq!(c.offset, 2);
    let mut c = at(1);
    assert!(c.read_numeric_value(99, "p").is_err());
    assert_eq!(c.offset, 1);
    let mut c = at(9);
    assert!(c.read_numeric_value(GGUF_VALUE_TYPE_UINT32, "p").is_err());
    assert_eq!(c.offset, 9);
    assert!(c.read_u32("p").is_err() && c.read_u64("p").is_err());
    assert_eq!(c.offset, 9);
    assert_eq!(c.read_numeric_value(GGUF_VALUE_TYPE_STRING, "p").unwrap(), None);
    assert_eq!(c.offset, 9);

    let mut text = Vec::new();
    push_u64(&mut text, 2);
    text.extend_from_slice(&[0xC3, b'(']);
    let mut c = GgufCursor::new(&text);
    assert!(c.read_string("p").is_err());
    assert_eq!(c.offset, 10);
    let mut c = GgufCursor::new(&text[..9]);
    assert!(c.read_string("p").is_err());
    assert_eq!(c.offset, 8);

    let mut array = Vec::new();
    push_u32(&mut array, GGUF_VALUE_TYPE_UINT16);
    push_u64(&mut array, 3);
    array.extend_from_slice(&[1, 0, 2, 0, 3]);
    let mut c = GgufCursor::new(&array);
    assert!(c.skip_value(GGUF_VALUE_TYPE_ARRAY, "p").is_err());
    assert_eq!(c.offset, 16);
    let mut c = GgufCursor::new(&array[..9]);
    assert!(c.skip_value(GGUF_VALUE_TYPE_ARRAY, "p").is_err());
    assert_eq!(c.offset, 4);
    let mut c = GgufCursor::new(&array);
    assert!(c.skip_value(99, "p").is_err());
    assert_eq!(c.offset, 0);
}

#[test]
fn tensors_of_higher_rank_answer_without_a_row() {
    let file = |ty: u32| {
        build_test_gguf(vec![("t", vec![32, 2, 0], ty, vec![0u8; 68])], 32, 4)
    };
    let plain = file(GGML_TYPE_F32);
    let err = mapped(&plain, "r3")
        .extract_token_embedding::<Native>("t", "r3", 2)
        .unwrap_err();
    assert!(matches!(err, CortexError::InputLengthMismatch { expected: 2, got: 2 }));
    let quantized = file(GGML_TYPE_Q8_0);
    let row = mapped(&quantized, "r3")
        .extract_token_embedding::<Native>("t", "r3", 1)
        .unwrap();
    assert_eq!(row.len(), 32);
    let unknown = file(99);
    let err = mapped(&unknown, "r3")
        .extract_token_embedding::<Native>("t", "r3", 0)
        .unwrap_err();
    assert!(err.message::<Native>().contains("unsupported ggml_type=99"));
}

#[test]
fn an_empty_embedding_scores_zeros_under_a_checkpoint() {
    let bytes = small_checkpoint(vec![4, 64], &ramp(256), GGML_TYPE_F32, le_bytes(&ramp(12)));
    let router = MoeRouter::load_with_mode("m", &bytes, 3, 1, RoutingMode::DenseSim)
        .ok()
        .unwrap();
    let scores = floats(&router.gate_scores::<Native>(&[]).unwrap());
    assert_eq!(scores, &[0.0, 0.0, 0.0]);
}
