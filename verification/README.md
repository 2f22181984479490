# cortex-tensor

Dense tensors, transformer layers and a mixture-of-experts router, verified with
Verus.

## Layout

| Path | Contents |
|---|---|
| `src/tensor` | `Tensor`, kernels, the finite-value policy and its laws |
| `src/transformer` | attention, feed-forward networks, blocks, a decoder-only language model |
| `src/moe` | GGUF parsing, tensor access, dequantization, expert selection, `MoeRouter` |
| `src/snn` | the contract of spiking backends and `SpikingMoeRouter` |
| `src/reference_json.rs` | what the JSON fixtures accept |
| `src/ieee.rs`, `src/float.rs` | bit patterns, and the arithmetic a caller plugs in |
| `tests` | the library on machine arithmetic |
| `app` | machine arithmetic, mapped files, JSON, `neuromod` and `axon-encoder` adapters |

## Numbers

A `u32` is a binary32 bit pattern and a `u64` a binary64 one. Whatever can be
decided on the bits is: classes, order, selection, masks, exact small numbers
and the widening of half precision. Arithmetic goes through the `FloatUnit`
trait, which promises nothing about rounding. A contract therefore names every
operation, its operands and its place in the order of evaluation: a sum is a
chain of additions from the left, a matrix product accumulates along the inner
index, a softmax subtracts the maximum, sums in binary64 and folds its rounding
residual onto the largest entry.

Laws that need more of the unit say so: that it gives one answer per question,
that it is exact on zero and one, that it orders exponentials and small sums, or
that it keeps moments of binary32 values in range, as IEEE 754 arithmetic does.

## Policy

- Softmax: a NaN makes the row NaN, a single `+Inf` takes the whole mass, several
  share it, a row of `-Inf` becomes uniform. Without a NaN every entry is finite
  and non-negative.
- Attention, blocks and the language model: no later position influences an
  earlier output row, as long as nothing overflows.
- Normalization: a non-finite value makes its row NaN; overflow saturates, so
  finite rows stay finite. Layer normalization takes a constant row to the bias.
- Top-k: highest score first, lowest id among equals, infinities ranked, NaN
  refused with the lowest id that has one.
- Spiking: a NaN gate score or a NaN stimulus is refused before the backend steps.

## Example

```rust
let a = Tensor::try_from_vec(bits(&[1.0, 2.0, 3.0, 4.0]), &[2, 2])?;
let b = Tensor::try_from_vec(bits(&[1.0, 0.0, 0.0, 1.0]), &[2, 2])?;
let c = try_matmul::<Native>(&a, &b)?;
```
