//! Dequantization of checkpoint rows, and small helpers of the container format.

use vstd::prelude::*;
use vstd::slice::slice_subrange;
use vstd::string::StringExecFns;
use crate::error::{CortexError, ErrorView};
use crate::float::{FloatUnit, ints, muls, subs};
use crate::ieee::{half_to_single, widens_half};
use crate::moe::gguf::{GGML_TYPE_Q5_K, GGML_TYPE_Q8_0};
use crate::text::{decimal, decimal_text, size_text};

verus! {

/// Bytes of a Q8_0 block: a half-precision scale and 32 signed bytes.
pub const Q8_0_BLOCK: usize = 34;

/// Bytes of a Q5_K block: two half-precision scales, 12 packed scale bytes, 32
/// bytes of high bits and 128 bytes of low nibbles.
pub const Q5_K_BLOCK: usize = 176;

pub open spec fn not_divisible(what: Seq<char>, width: usize, by: Seq<char>) -> ErrorView {
    ErrorView::UnsupportedFormat(
        what + decimal(width as nat) + " is not divisible by "@ + by,
    )
}

/// Bytes of a row of `width` quantized entries.
pub open spec fn row_size(ggml_type: u32, width: usize) -> Result<nat, ErrorView> {
    if ggml_type == GGML_TYPE_Q8_0 {
        if width % 32 != 0 {
            Err(not_divisible("Q8_0 tensor width "@, width, "32"@))
        } else {
            Ok((width as nat / 32) * 34)
        }
    } else if ggml_type == GGML_TYPE_Q5_K {
        if width % 256 != 0 {
            Err(not_divisible("Q5_K tensor width "@, width, "256"@))
        } else {
            Ok((width as nat / 256) * 176)
        }
    } else {
        Err(
            ErrorView::UnsupportedFormat(
                "row-size lookup is not implemented for ggml_type="@ + decimal(ggml_type as nat),
            ),
        )
    }
}

fn not_divisible_error(what: &str, width: usize, by: &str) -> (e: CortexError)
    ensures
        e@ == not_divisible(what@, width, by@),
{
    let mut msg: String = String::from_str(what);
    msg.append(size_text(width).as_str());
    msg.append(" is not divisible by ");
    msg.append(by);
    CortexError::UnsupportedFormat(msg)
}

/// Bytes of a row of `width` quantized entries; none if they overflow `usize`.
pub fn tensor_row_size(ggml_type: u32, width: usize) -> (r: Result<Option<usize>, CortexError>)
    ensures
        match row_size(ggml_type, width) {
            Err(e) => r matches Err(x) && x@ == e,
            Ok(n) => r matches Ok(o) && if n <= usize::MAX {
                o == Some(n as usize)
            } else {
                o is None
            },
        },
{
    if ggml_type == GGML_TYPE_Q8_0 {
        if width % 32 != 0 {
            return Err(not_divisible_error("Q8_0 tensor width ", width, "32"));
        }
        Ok((width / 32).checked_mul(Q8_0_BLOCK))
    } else if ggml_type == GGML_TYPE_Q5_K {
        if width % 256 != 0 {
            return Err(not_divisible_error("Q5_K tensor width ", width, "256"));
        }
        Ok((width / 256).checked_mul(Q5_K_BLOCK))
    } else {
        let mut msg: String = String::from_str("row-size lookup is not implemented for ggml_type=");
        msg.append(decimal_text(ggml_type as u64).as_str());
        Err(CortexError::UnsupportedFormat(msg))
    }
}

// ── Q8_0 ─────────────────────────────────────────────────────────────

/// The half-precision pattern stored at `at`.
pub open spec fn half_at(row: Seq<u8>, at: int) -> u16 {
    (row[at] + 256 * row[at + 1]) as u16
}

/// A byte read as two's complement.
pub open spec fn byte_as_signed(b: u8) -> i32 {
    if b >= 128 { (b - 256) as i32 } else { b as i32 }
}

/// `r` is `quant * d` for the scale at `at` and the signed quant `q`.
pub open spec fn q8_scales<F: FloatUnit>(half: u16, q: i32, r: u32) -> bool {
    exists|d: u32, f: u32| #[trigger]
        widens_half(half, d) && #[trigger] ints::<F>(q, f) && muls::<F>(f, d, r)
}

/// `r` is entry `x` of a Q8_0 row: signed byte `x % 32` of block `x / 32` times
/// the scale of the block.
pub open spec fn q8_value<F: FloatUnit>(row: Seq<u8>, x: int, r: u32) -> bool {
    let base = (x / 32) * 34;
    q8_scales::<F>(half_at(row, base), byte_as_signed(row[base + 2 + x % 32]), r)
}

fn half_pattern(lo: u8, hi: u8) -> (r: u16)
    ensures
        r == (lo + 256 * hi) as u16,
{
    lo as u16 + 256 * (hi as u16)
}

/// Dequantizes the whole blocks of a Q8_0 row.
pub fn dequantize_row_q8_0<F: FloatUnit>(row: &[u8], width: usize) -> (r: Result<
    Vec<u32>,
    CortexError,
>)
    ensures
        if width % 32 != 0 {
            r matches Err(e) && e@ == not_divisible("Q8_0 width "@, width, "32"@)
        } else {
            r matches Ok(v) && v@.len() == (row@.len() / 34) * 32 && forall|x: int|
                0 <= x < v@.len() ==> q8_value::<F>(row@, x, #[trigger] v@[x])
        },
{
    if width % 32 != 0 {
        return Err(not_divisible_error("Q8_0 width ", width, "32"));
    }
    let blocks: usize = row.len() / Q8_0_BLOCK;
    let mut out: Vec<u32> = Vec::new();
    let mut k: usize = 0;
    while k < blocks
        invariant
            k <= blocks,
            blocks == row@.len() / 34,
            row@.len() <= usize::MAX,
            out@.len() == k * 32,
            forall|x: int| 0 <= x < out@.len() ==> q8_value::<F>(row@, x, #[trigger] out@[x]),
        decreases blocks - k,
    {
        let base: usize = k * 34;
        let half: u16 = half_pattern(row[base], row[base + 1]);
        let d: u32 = half_to_single(half);
        let mut i: usize = 0;
        while i < 32
            invariant
                i <= 32,
                k < blocks,
                blocks == row@.len() / 34,
                row@.len() <= usize::MAX,
                base == k * 34,
                half == half_at(row@, base as int),
                widens_half(half, d),
                out@.len() == k * 32 + i,
                forall|x: int| 0 <= x < out@.len() ==> q8_value::<F>(row@, x, #[trigger] out@[x]),
            decreases 32 - i,
        {
            let b: u8 = row[base + 2 + i];
            let q: i32 = if b >= 128 {
                b as i32 - 256
            } else {
                b as i32
            };
            let f: u32 = F::int32(q);
            let v: u32 = F::mul32(f, d);
            proof {
                let x = out@.len() as int;
                assert(x / 32 == k && x % 32 == i);
                assert(widens_half(half, d) && ints::<F>(q, f) && muls::<F>(f, d, v));
                assert(q8_scales::<F>(half, q, v));
                assert(q8_value::<F>(row@, x, v));
            }
            out.push(v);
            i += 1;
        }
        k += 1;
    }
    Ok(out)
}

// ── Q5_K ─────────────────────────────────────────────────────────────

/// Scale and minimum of sub-block `s`, six bits each, unpacked from 12 bytes.
pub open spec fn scale_min(scales: Seq<u8>, s: int) -> (int, int) {
    if s < 4 {
        (scales[s] as int % 64, scales[s + 4] as int % 64)
    } else {
        (
            scales[s + 4] % 16 + 16 * (scales[s - 4] / 64),
            scales[s + 4] / 16 + 16 * (scales[s] / 64),
        )
    }
}

/// Scale and minimum of sub-block `index` of a Q5_K block.
fn scale_min_k4(index: usize, scales: &[u8]) -> (r: (u8, u8))
    requires
        index < 8,
        scales@.len() == 12,
    ensures
        r.0 == scale_min(scales@, index as int).0,
        r.1 == scale_min(scales@, index as int).1,
{
    if index < 4 {
        (scales[index] % 64, scales[index + 4] % 64)
    } else {
        (
            scales[index + 4] % 16 + 16 * (scales[index - 4] / 64),
            scales[index + 4] / 16 + 16 * (scales[index] / 64),
        )
    }
}

/// Two to the power `s`, for a bit of a byte.
pub open spec fn bit_weight(s: int) -> int {
    if s == 0 {
        1
    } else if s == 1 {
        2
    } else if s == 2 {
        4
    } else if s == 3 {
        8
    } else if s == 4 {
        16
    } else if s == 5 {
        32
    } else if s == 6 {
        64
    } else {
        128
    }
}

/// The five-bit quant of entry `lane` of sub-block `s`: a nibble of the low
/// bits and bit `s` of the high bits.
pub open spec fn q5_quant(block: Seq<u8>, s: int, lane: int) -> int {
    let low = block[48 + (s / 2) * 32 + lane];
    let nibble = if s % 2 == 0 { low % 16 } else { low / 16 };
    nibble + 16 * ((block[16 + lane] as int / bit_weight(s)) % 2)
}

/// Intermediate values of one Q5_K entry.
pub struct Q5Steps {
    pub d: u32,
    pub dmin: u32,
    pub scale: u32,
    pub min: u32,
    pub step: u32,
    pub offset: u32,
    pub quant: u32,
    pub product: u32,
}

pub open spec fn q5_scaled<F: FloatUnit>(
    block: Seq<u8>,
    s: int,
    t: Q5Steps,
) -> bool {
    &&& widens_half(half_at(block, 0), t.d)
    &&& widens_half(half_at(block, 2), t.dmin)
    &&& ints::<F>(scale_min(block.subrange(4, 16), s).0 as i32, t.scale)
    &&& ints::<F>(scale_min(block.subrange(4, 16), s).1 as i32, t.min)
    &&& muls::<F>(t.d, t.scale, t.step)
    &&& muls::<F>(t.dmin, t.min, t.offset)
}

pub open spec fn q5_steps<F: FloatUnit>(
    block: Seq<u8>,
    s: int,
    lane: int,
    t: Q5Steps,
    r: u32,
) -> bool {
    &&& q5_scaled::<F>(block, s, t)
    &&& ints::<F>(q5_quant(block, s, lane) as i32, t.quant)
    &&& muls::<F>(t.step, t.quant, t.product)
    &&& subs::<F>(t.product, t.offset, r)
}

/// `r` is entry `lane` of sub-block `s`: `d * scale * quant - dmin * min`.
pub open spec fn q5_entry<F: FloatUnit>(block: Seq<u8>, s: int, lane: int, r: u32) -> bool {
    exists|t: Q5Steps| q5_steps::<F>(block, s, lane, t, r)
}

/// `r` is entry `x` of a Q5_K row. Inside a block, pairs of sub-blocks
/// alternate entry by entry.
pub open spec fn q5_value<F: FloatUnit>(row: Seq<u8>, x: int, r: u32) -> bool {
    let base = (x / 256) * 176;
    let pos = x % 256;
    q5_entry::<F>(
        row.subrange(base, base + 176),
        2 * (pos / 64) + pos % 2,
        (pos % 64) / 2,
        r,
    )
}

/// Scales of one sub-block: `d * scale` and `dmin * min`.
fn q5_sub_block<F: FloatUnit>(block: &[u8], s: usize) -> (r: (u32, u32, Ghost<Q5Steps>))
    requires
        block@.len() == 176,
        s < 8,
    ensures
        q5_scaled::<F>(block@, s as int, r.2@),
        r.0 == r.2@.step,
        r.1 == r.2@.offset,
{
    let d: u32 = half_to_single(half_pattern(block[0], block[1]));
    let dmin: u32 = half_to_single(half_pattern(block[2], block[3]));
    let (sc, mn): (u8, u8) = scale_min_k4(s, slice_subrange(block, 4, 16));
    let scale: u32 = F::int32(sc as i32);
    let min: u32 = F::int32(mn as i32);
    let step: u32 = F::mul32(d, scale);
    let offset: u32 = F::mul32(dmin, min);
    let ghost t = Q5Steps { d, dmin, scale, min, step, offset, quant: 0, product: 0 };
    (step, offset, Ghost(t))
}

fn q5_quant_of(block: &[u8], s: usize, lane: usize) -> (r: i32)
    requires
        block@.len() == 176,
        s < 8,
        lane < 32,
    ensures
        r == q5_quant(block@, s as int, lane as int),
{
    let low: u8 = block[48 + (s / 2) * 32 + lane];
    let nibble: u8 = if s % 2 == 0 {
        low % 16
    } else {
        low / 16
    };
    let weight: u8 = if s == 0 {
        1
    } else if s == 1 {
        2
    } else if s == 2 {
        4
    } else if s == 3 {
        8
    } else if s == 4 {
        16
    } else if s == 5 {
        32
    } else if s == 6 {
        64
    } else {
        128
    };
    let bit: u8 = (block[16 + lane] / weight) % 2;
    nibble as i32 + 16 * (bit as i32)
}

fn q5_entry_of<F: FloatUnit>(
    block: &[u8],
    s: usize,
    lane: usize,
    step: u32,
    offset: u32,
    t: Ghost<Q5Steps>,
) -> (r: u32)
    requires
        block@.len() == 176,
        s < 8,
        lane < 32,
        q5_scaled::<F>(block@, s as int, t@),
        step == t@.step,
        offset == t@.offset,
    ensures
        q5_entry::<F>(block@, s as int, lane as int, r),
{
    let quant: u32 = F::int32(q5_quant_of(block, s, lane));
    let product: u32 = F::mul32(step, quant);
    let r: u32 = F::sub32(product, offset);
    proof {
        let full = Q5Steps { quant, product, ..t@ };
        assert(q5_steps::<F>(block@, s as int, lane as int, full, r));
    }
    r
}

/// Dequantizes the whole blocks of a Q5_K row.
pub fn dequantize_row_q5_k<F: FloatUnit>(row: &[u8], width: usize) -> (r: Result<
    Vec<u32>,
    CortexError,
>)
    ensures
        if width % 256 != 0 {
            r matches Err(e) && e@ == not_divisible("Q5_K width "@, width, "256"@)
        } else {
            r matches Ok(v) && v@.len() == (row@.len() / 176) * 256 && forall|x: int|
                0 <= x < v@.len() ==> q5_value::<F>(row@, x, #[trigger] v@[x])
        },
{
    if width % 256 != 0 {
        return Err(not_divisible_error("Q5_K width ", width, "256"));
    }
    let blocks: usize = row.len() / Q5_K_BLOCK;
    let mut out: Vec<u32> = Vec::new();
    let mut k: usize = 0;
    while k < blocks
        invariant
            k <= blocks,
            blocks == row@.len() / 176,
            row@.len() <= usize::MAX,
            out@.len() == k * 256,
            forall|x: int| 0 <= x < out@.len() ==> q5_value::<F>(row@, x, #[trigger] out@[x]),
        decreases blocks - k,
    {
        let base: usize = k * 176;
        let block: &[u8] = slice_subrange(row, base, base + 176);
        let mut j: usize = 0;
        while j < 4
            invariant
                j <= 4,
                base == k * 176,
                base + 176 <= row@.len(),
                block@ == row@.subrange(base as int, base + 176),
                block@.len() == 176,
                out@.len() == k * 256 + j * 64,
                forall|x: int| 0 <= x < out@.len() ==> q5_value::<F>(row@, x, #[trigger] out@[x]),
            decreases 4 - j,
        {
            let (d1, mn1, t1): (u32, u32, Ghost<Q5Steps>) = q5_sub_block::<F>(block, 2 * j);
            let (d2, mn2, t2): (u32, u32, Ghost<Q5Steps>) = q5_sub_block::<F>(block, 2 * j + 1);
            let mut lane: usize = 0;
            while lane < 32
                invariant
                    lane <= 32,
                    j < 4,
                    base == k * 176,
                    block@ == row@.subrange(base as int, base + 176),
                    block@.len() == 176,
                    q5_scaled::<F>(block@, 2 * j, t1@),
                    d1 == t1@.step,
                    mn1 == t1@.offset,
                    q5_scaled::<F>(block@, 2 * j + 1, t2@),
                    d2 == t2@.step,
                    mn2 == t2@.offset,
                    out@.len() == k * 256 + j * 64 + lane * 2,
                    forall|x: int|
                        0 <= x < out@.len() ==> q5_value::<F>(row@, x, #[trigger] out@[x]),
                decreases 32 - lane,
            {
                let a: u32 = q5_entry_of::<F>(block, 2 * j, lane, d1, mn1, t1);
                let b: u32 = q5_entry_of::<F>(block, 2 * j + 1, lane, d2, mn2, t2);
                proof {
                    let x = out@.len() as int;
                    assert(x / 256 == k && x % 256 == j * 64 + lane * 2);
                    assert((j * 64 + lane * 2) / 64 == j && (j * 64 + lane * 2) % 64 == lane * 2);
                    assert((j * 64 + lane * 2) % 2 == 0);
                    assert(q5_value::<F>(row@, x, a));
                    assert((x + 1) / 256 == k && (x + 1) % 256 == j * 64 + lane * 2 + 1);
                    assert((j * 64 + lane * 2 + 1) / 64 == j && (j * 64 + lane * 2 + 1) % 64 == lane
                        * 2 + 1);
                    assert((j * 64 + lane * 2 + 1) % 2 == 1);
                    assert(q5_value::<F>(row@, x + 1, b));
                }
                out.push(a);
                out.push(b);
                lane += 1;
            }
            j += 1;
        }
        k += 1;
    }
    Ok(out)
}

// ── Names and offsets ────────────────────────────────────────────────

/// The label of a file type.
pub open spec fn quantization_text(file_type: Option<u32>) -> Seq<char> {
    match file_type {
        None => "GGUF"@,
        Some(t) => if t == 0 {
            "F32"@
        } else if t == 1 {
            "F16"@
        } else {
            "GGUF("@ + decimal(t as nat) + ")"@
        },
    }
}

/// The label of a file type.
pub fn quantization_label(file_type: Option<u32>) -> (r: String)
    ensures
        r@ == quantization_text(file_type),
{
    match file_type {
        None => String::from_str("GGUF"),
        Some(t) => {
            if t == 0 {
                String::from_str("F32")
            } else if t == 1 {
                String::from_str("F16")
            } else {
                let mut s: String = String::from_str("GGUF(");
                s.append(decimal_text(t as u64).as_str());
                s.append(")");
                s
            }
        },
    }
}

/// The smallest multiple of `alignment` that is not below `value`; `value`
/// itself without an alignment.
pub open spec fn aligned(value: nat, alignment: nat) -> nat {
    if alignment == 0 {
        value
    } else {
        ((value + alignment - 1) as nat / alignment) * alignment
    }
}

/// The smaller of `n` and the largest `usize`.
pub open spec fn clamped(n: nat) -> usize {
    if n > usize::MAX { usize::MAX } else { n as usize }
}

/// Rounds up to a multiple of `alignment`, saturating.
pub fn align_up(value: usize, alignment: usize) -> (r: usize)
    ensures
        r == clamped(aligned(value as nat, alignment as nat)),
{
    if alignment == 0 {
        return value;
    }
    let q: usize = value / alignment;
    let rest: usize = value % alignment;
    proof {
        let v = value as int;
        let a = alignment as int;
        vstd::arithmetic::div_mod::lemma_fundamental_div_mod(v, a);
        let n = if rest == 0 { q as int } else { q + 1 };
        let low = v + a - 1 - a * n;
        assert(a * (q + 1) == a * q + a) by (nonlinear_arith);
        assert(v + a - 1 == n * a + low) by (nonlinear_arith)
            requires
                low == v + a - 1 - a * n,
        ;
        vstd::arithmetic::div_mod::lemma_fundamental_div_mod_converse(v + a - 1, a, n, low);
        assert(aligned(v as nat, a as nat) == n * a);
        assert(q * a == a * q) by (nonlinear_arith);
        assert((q + 1) * a == a * (q + 1)) by (nonlinear_arith);
    }
    if rest == 0 {
        return value;
    }
    (value - rest).saturating_add(alignment)
}

/// An aligned offset is a multiple of the alignment, at or behind the offset
/// and less than one alignment away.
pub proof fn law_aligned(value: nat, alignment: nat)
    requires
        alignment > 0,
    ensures
        aligned(value, alignment) % alignment == 0,
        value <= aligned(value, alignment) < value + alignment,
{
    let v = value as int;
    let a = alignment as int;
    let n = (v + a - 1) / a;
    vstd::arithmetic::div_mod::lemma_fundamental_div_mod(v + a - 1, a);
    vstd::arithmetic::div_mod::lemma_mod_bound(v + a - 1, a);
    assert(n * a == a * n) by (nonlinear_arith);
    vstd::arithmetic::div_mod::lemma_mod_multiples_basic(n, a);
    vstd::arithmetic::div_mod::lemma_div_pos_is_pos(v + a - 1, a);
}

/// The bytes of a decimal number.
pub open spec fn all_digits(b: Seq<u8>) -> bool {
    forall|i: int| 0 <= i < b.len() ==> 48 <= #[trigger] b[i] <= 57
}

/// The value of a sequence of decimal digits.
pub open spec fn digits_value(b: Seq<u8>) -> nat
    decreases b.len(),
{
    if b.len() == 0 {
        0
    } else {
        10 * digits_value(b.drop_last()) + (b.last() - 48) as nat
    }
}

/// The digits behind an optional plus sign.
pub open spec fn unsigned_digits(b: Seq<u8>) -> Seq<u8> {
    if b.len() > 0 && b[0] == 43 { b.drop_first() } else { b }
}

/// The `usize` a text denotes: decimal digits, at least one, behind an optional
/// plus sign.
pub open spec fn parsed_size(b: Seq<u8>) -> Option<usize> {
    let d = unsigned_digits(b);
    if d.len() > 0 && all_digits(d) && digits_value(d) <= usize::MAX {
        Some(digits_value(d) as usize)
    } else {
        None
    }
}

/// Position of the first dot at or behind `from`; the length if there is none.
pub open spec fn dot_from(b: Seq<u8>, from: int) -> int
    decreases b.len() - from,
{
    if from < 0 || from >= b.len() || b[from] == 46 { from } else { dot_from(b, from + 1) }
}

/// The block a tensor name belongs to: the number between `blk.` and the next
/// dot, the largest `usize` for any other name.
pub open spec fn block_index(name: Seq<u8>) -> usize {
    let end = dot_from(name, 4);
    if name.len() >= 4 && name.subrange(0, 4) == seq![98u8, 108u8, 107u8, 46u8] && end
        < name.len() {
        match parsed_size(name.subrange(4, end)) {
            Some(n) => n,
            None => usize::MAX,
        }
    } else {
        usize::MAX
    }
}

proof fn lemma_digits_grow(b: Seq<u8>, i: int)
    requires
        0 <= i <= b.len(),
        all_digits(b),
    ensures
        digits_value(b.take(i)) <= digits_value(b),
    decreases b.len() - i,
{
    if i < b.len() {
        lemma_digits_grow(b, i + 1);
        assert(b.take(i + 1).drop_last() =~= b.take(i));
    } else {
        assert(b.take(i) =~= b);
    }
}

/// Parses a `usize` from decimal digits.
pub fn parse_size(b: &[u8]) -> (r: Option<usize>)
    ensures
        r == parsed_size(b@),
{
    let start: usize = if b.len() > 0 && b[0] == 43 {
        1
    } else {
        0
    };
    let d: &[u8] = slice_subrange(b, start, b.len());
    assert(d@ =~= unsigned_digits(b@));
    if d.len() == 0 {
        return None;
    }
    let mut k: usize = 0;
    while k < d.len()
        invariant
            k <= d@.len(),
            d@ == unsigned_digits(b@),
            forall|i: int| 0 <= i < k ==> 48 <= #[trigger] d@[i] <= 57,
        decreases d@.len() - k,
    {
        if d[k] < 48 || d[k] > 57 {
            return None;
        }
        k += 1;
    }
    let mut v: usize = 0;
    let mut i: usize = 0;
    assert(d@.take(0) =~= Seq::<u8>::empty());
    while i < d.len()
        invariant
            i <= d@.len(),
            all_digits(d@),
            d@ == unsigned_digits(b@),
            v == digits_value(d@.take(i as int)),
        decreases d@.len() - i,
    {
        proof {
            assert(d@.take(i + 1).drop_last() =~= d@.take(i as int));
            lemma_digits_grow(d@, i + 1);
        }
        let digit: usize = (d[i] - 48) as usize;
        match v.checked_mul(10) {
            None => {
                return None;
            },
            Some(t) => match t.checked_add(digit) {
                None => {
                    return None;
                },
                Some(n) => {
                    v = n;
                },
            },
        }
        i += 1;
    }
    assert(d@.take(d@.len() as int) =~= d@);
    Some(v)
}

/// The block a tensor name belongs to.
pub fn tensor_block(name: &[u8]) -> (r: usize)
    ensures
        r == block_index(name@),
{
    if name.len() < 4 || name[0] != 98 || name[1] != 108 || name[2] != 107 || name[3] != 46 {
        proof {
            if name@.len() >= 4 {
                let p = name@.subrange(0, 4);
                assert(p[0] == name@[0] && p[1] == name@[1] && p[2] == name@[2] && p[3]
                    == name@[3]);
            }
        }
        return usize::MAX;
    }
    assert(name@.subrange(0, 4) =~= seq![98u8, 108u8, 107u8, 46u8]);
    let mut end: usize = 4;
    while end < name.len() && name[end] != 46
        invariant
            4 <= end <= name@.len(),
            dot_from(name@, 4) == dot_from(name@, end as int),
        decreases name@.len() - end,
    {
        end += 1;
    }
    if end == name.len() {
        return usize::MAX;
    }
    match parse_size(slice_subrange(name, 4, end)) {
        Some(n) => n,
        None => usize::MAX,
    }
}

/// `a` comes before `b` byte by byte, or equals it.
pub open spec fn bytes_ordered(a: Seq<u8>, b: Seq<u8>) -> bool
    decreases a.len(),
{
    if a.len() == 0 {
        true
    } else if b.len() == 0 {
        false
    } else if a[0] != b[0] {
        a[0] < b[0]
    } else {
        bytes_ordered(a.drop_first(), b.drop_first())
    }
}

/// `a` sorts before `b`, or equals it: by block, then by name.
pub open spec fn names_ordered(a: Seq<u8>, b: Seq<u8>) -> bool {
    if block_index(a) != block_index(b) {
        block_index(a) < block_index(b)
    } else {
        bytes_ordered(a, b)
    }
}

pub proof fn lemma_bytes_ordered_total(a: Seq<u8>, b: Seq<u8>)
    ensures
        bytes_ordered(a, b) || bytes_ordered(b, a),
        bytes_ordered(a, a),
    decreases a.len(),
{
    if a.len() > 0 {
        lemma_bytes_ordered_total(a.drop_first(), a.drop_first());
        if b.len() > 0 {
            lemma_bytes_ordered_total(a.drop_first(), b.drop_first());
        }
    }
}

pub proof fn lemma_bytes_ordered_transitive(a: Seq<u8>, b: Seq<u8>, c: Seq<u8>)
    requires
        bytes_ordered(a, b),
        bytes_ordered(b, c),
    ensures
        bytes_ordered(a, c),
    decreases a.len(),
{
    if a.len() > 0 && b.len() > 0 && c.len() > 0 && a[0] == b[0] && b[0] == c[0] {
        lemma_bytes_ordered_transitive(a.drop_first(), b.drop_first(), c.drop_first());
    }
}

pub proof fn lemma_bytes_ordered_antisymmetric(a: Seq<u8>, b: Seq<u8>)
    requires
        bytes_ordered(a, b),
        bytes_ordered(b, a),
    ensures
        a == b,
    decreases a.len(),
{
    if a.len() > 0 && b.len() > 0 {
        lemma_bytes_ordered_antisymmetric(a.drop_first(), b.drop_first());
        assert(a =~= seq![a[0]] + a.drop_first());
        assert(b =~= seq![b[0]] + b.drop_first());
    } else {
        assert(a =~= b);
    }
}

proof fn lemma_bytes_ordered_skip(a: Seq<u8>, b: Seq<u8>, i: int)
    requires
        0 <= i <= a.len(),
        i <= b.len(),
        forall|j: int| 0 <= j < i ==> a[j] == b[j],
    ensures
        bytes_ordered(a, b) == bytes_ordered(a.skip(i), b.skip(i)),
    decreases i,
{
    if i == 0 {
        assert(a.skip(0) =~= a && b.skip(0) =~= b);
    } else {
        lemma_bytes_ordered_skip(a, b, i - 1);
        assert(a.skip(i - 1).drop_first() =~= a.skip(i));
        assert(b.skip(i - 1).drop_first() =~= b.skip(i));
    }
}

/// Whether `a` comes before `b` byte by byte, or equals it.
fn is_bytes_ordered(a: &[u8], b: &[u8]) -> (r: bool)
    ensures
        r == bytes_ordered(a@, b@),
{
    let mut i: usize = 0;
    while i < a.len() && i < b.len() && a[i] == b[i]
        invariant
            i <= a@.len(),
            i <= b@.len(),
            forall|j: int| 0 <= j < i ==> a@[j] == b@[j],
        decreases a@.len() - i,
    {
        i += 1;
    }
    proof {
        lemma_bytes_ordered_skip(a@, b@, i as int);
    }
    if i == a.len() {
        true
    } else if i == b.len() {
        false
    } else {
        a[i] < b[i]
    }
}

/// Whether `a` sorts before `b`, or equals it: by block, then by name.
pub fn is_names_ordered(a: &[u8], b: &[u8]) -> (r: bool)
    ensures
        r == names_ordered(a@, b@),
{
    let x: usize = tensor_block(a);
    let y: usize = tensor_block(b);
    if x != y {
        x < y
    } else {
        is_bytes_ordered(a, b)
    }
}

/// The order of names is total.
pub proof fn law_names_total(a: Seq<u8>, b: Seq<u8>)
    ensures
        names_ordered(a, b) || names_ordered(b, a),
{
    lemma_bytes_ordered_total(a, b);
}

/// The order of names is transitive.
pub proof fn law_names_transitive(a: Seq<u8>, b: Seq<u8>, c: Seq<u8>)
    requires
        names_ordered(a, b),
        names_ordered(b, c),
    ensures
        names_ordered(a, c),
{
    if block_index(a) == block_index(b) && block_index(b) == block_index(c) {
        lemma_bytes_ordered_transitive(a, b, c);
    }
}

/// Names that sort before each other are equal.
pub proof fn law_names_antisymmetric(a: Seq<u8>, b: Seq<u8>)
    requires
        names_ordered(a, b),
        names_ordered(b, a),
    ensures
        a == b,
{
    lemma_bytes_ordered_antisymmetric(a, b);
}

} // verus!
