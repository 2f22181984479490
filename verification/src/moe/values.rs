//! Where the numbers of a checkpoint lie, byte by byte.

use vstd::prelude::*;
use crate::float::{FloatUnit, ints, muls};
use crate::ieee::widens_half;
use crate::moe::cursor::little_endian;
use crate::moe::dequant::{byte_as_signed, half_at, q5_value, q8_scales, q8_value, row_size};
use crate::moe::gguf::{GGML_TYPE_F16, GGML_TYPE_F32, GGML_TYPE_Q5_K, GGML_TYPE_Q8_0};
use crate::moe::mapped::{CheckpointView, halves_at, single_values, value_at, words_at};

verus! {

// ── Quantized rows ───────────────────────────────────────────────────

/// Entry `i` of block `b` of a Q8_0 row is the signed byte `i` behind the two
/// bytes of the scale of that block, times that scale. Gives scale and byte as
/// numbers.
pub proof fn law_q8_entries<F: FloatUnit>(row: Seq<u8>, b: int, i: int, r: u32) -> (t: (u32, u32))
    requires
        0 <= b,
        0 <= i < 32,
        34 * b + 34 <= row.len(),
        q8_value::<F>(row, 32 * b + i, r),
    ensures
        widens_half((row[34 * b] + 256 * row[34 * b + 1]) as u16, t.0),
        ints::<F>(
            if row[34 * b + 2 + i] < 128 {
                row[34 * b + 2 + i] as i32
            } else {
                (row[34 * b + 2 + i] - 256) as i32
            },
            t.1,
        ),
        muls::<F>(t.1, t.0, r),
{
    assert((32 * b + i) / 32 == b);
    assert((32 * b + i) % 32 == i);
    let half = half_at(row, 34 * b);
    let q = byte_as_signed(row[34 * b + 2 + i]);
    assert(q8_scales::<F>(half, q, r));
    let (d, f) = choose|d: u32, f: u32| #[trigger]
        widens_half(half, d) && #[trigger] ints::<F>(q, f) && muls::<F>(f, d, r);
    (d, f)
}

/// Blocks of a Q8_0 row are read on their own: what block `b` gives is what its
/// bytes give alone.
pub proof fn law_q8_by_block<F: FloatUnit>(row: Seq<u8>, b: int, i: int, r: u32)
    requires
        0 <= b,
        0 <= i < 32,
        34 * b + 34 <= row.len(),
    ensures
        q8_value::<F>(row, 32 * b + i, r) <==> q8_value::<F>(
            row.subrange(34 * b, 34 * b + 34),
            i,
            r,
        ),
{
    assert((32 * b + i) / 32 == b);
    assert((32 * b + i) % 32 == i);
    let block = row.subrange(34 * b, 34 * b + 34);
    assert(half_at(block, 0) == half_at(row, 34 * b));
    assert(block[2 + i] == row[34 * b + 2 + i]);
}

/// Blocks of a Q5_K row are read on their own.
pub proof fn law_q5_by_block<F: FloatUnit>(row: Seq<u8>, b: int, i: int, r: u32)
    requires
        0 <= b,
        0 <= i < 256,
        176 * b + 176 <= row.len(),
    ensures
        q5_value::<F>(row, 256 * b + i, r) <==> q5_value::<F>(
            row.subrange(176 * b, 176 * b + 176),
            i,
            r,
        ),
{
    assert((256 * b + i) / 256 == b);
    assert((256 * b + i) % 256 == i);
    let block = row.subrange(176 * b, 176 * b + 176);
    assert(block.subrange(0, 176) =~= block);
}

// ── Token rows ───────────────────────────────────────────────────────

proof fn lemma_four_bytes(b: Seq<u8>)
    requires
        b.len() == 4,
    ensures
        little_endian(b) == b[0] + 256 * b[1] + 65536 * b[2] + 16777216 * b[3],
{
    let b1 = b.drop_first();
    let b2 = b1.drop_first();
    let b3 = b2.drop_first();
    let b4 = b3.drop_first();
    assert(little_endian(b4) == 0);
    assert(little_endian(b3) == b3[0]);
    assert(little_endian(b2) == b2[0] + 256 * little_endian(b3));
    assert(little_endian(b1) == b1[0] + 256 * little_endian(b2));
}

proof fn lemma_two_bytes(b: Seq<u8>)
    requires
        b.len() == 2,
    ensures
        little_endian(b) == b[0] + 256 * b[1],
{
    let b1 = b.drop_first();
    let b2 = b1.drop_first();
    assert(little_endian(b2) == 0);
    assert(little_endian(b1) == b1[0]);
}

/// The number four bytes stand for, lowest first.
pub open spec fn single_at(b: Seq<u8>, at: int) -> int {
    b[at] + 256 * b[at + 1] + 65536 * b[at + 2] + 16777216 * b[at + 3]
}

/// Pattern `k` of a binary32 tensor is the four bytes behind the first `k`
/// patterns, lowest byte first.
pub proof fn law_singles_by_bytes(
    c: CheckpointView,
    name: Seq<char>,
    path: Seq<char>,
    s: Seq<u32>,
    k: int,
)
    requires
        c.singles(name, path) == Ok::<Seq<u32>, crate::error::ErrorView>(s),
        0 <= k < s.len(),
    ensures
        c.has(name),
        s.len() == c.info(name).n_elements,
        c.info(name).absolute_offset + 4 * k + 4 <= c.bytes.len(),
        s[k] == single_at(c.bytes, c.info(name).absolute_offset + 4 * k),
{
    let i = c.info(name);
    let at = i.absolute_offset as int;
    lemma_word(c.bytes, at, i.n_elements as nat, k);
}

proof fn lemma_word(b: Seq<u8>, at: int, n: nat, k: int)
    requires
        0 <= at,
        0 <= k < n,
        at + 4 * n <= b.len(),
    ensures
        words_at(b, at, n)[k] == single_at(b, at + 4 * k),
{
    let s = b.subrange(at + k * 4, at + k * 4 + 4);
    lemma_four_bytes(s);
    assert(value_at(b, at, 4, k) == little_endian(s));
}

/// Entry `x` of the row of a token in a binary32 tensor is the pattern behind
/// the rows of the tokens before it and the entries before it.
pub proof fn law_token_row_singles<F: FloatUnit>(
    c: CheckpointView,
    name: Seq<char>,
    path: Seq<char>,
    token: usize,
    r: Seq<u32>,
    x: int,
)
    requires
        c.info(name).ggml_type == GGML_TYPE_F32,
        c.token_error(name, path, token) is None,
        c.row_inside(name, token),
        c.token_row::<F>(name, token, r),
        0 <= x < c.info(name).dims[0],
    ensures
        r.len() == c.info(name).dims[0],
        r[x] == single_at(
            c.bytes,
            c.info(name).absolute_offset + 4 * (token * c.info(name).dims[0] + x),
        ),
{
    let i = c.info(name);
    let (at, width) = (i.absolute_offset as int, i.dims[0] as int);
    assert(0 <= token * width) by (nonlinear_arith)
        requires
            0 <= token,
            0 <= width,
    ;
    assert(single_values(c.bytes, name, i, path) is Ok);
    lemma_word(c.bytes, at, i.n_elements as nat, token * width + x);
}

/// Entry `x` of the row of a token in a binary16 tensor widens the pattern behind
/// the rows and entries before it.
pub proof fn law_token_row_halves<F: FloatUnit>(
    c: CheckpointView,
    name: Seq<char>,
    path: Seq<char>,
    token: usize,
    r: Seq<u32>,
    x: int,
)
    requires
        c.info(name).ggml_type == GGML_TYPE_F16,
        c.token_error(name, path, token) is None,
        c.row_inside(name, token),
        c.token_row::<F>(name, token, r),
        0 <= x < c.info(name).dims[0],
    ensures
        r.len() == c.info(name).dims[0],
        ({
            let at = c.info(name).absolute_offset + 2 * (token * c.info(name).dims[0] + x);
            widens_half((c.bytes[at] + 256 * c.bytes[at + 1]) as u16, r[x])
        }),
{
    let i = c.info(name);
    let (at, width) = (i.absolute_offset as int, i.dims[0] as int);
    assert(0 <= token * width) by (nonlinear_arith)
        requires
            0 <= token,
            0 <= width,
    ;
    let k = token * width + x;
    let s = c.bytes.subrange(at + k * 2, at + k * 2 + 2);
    lemma_two_bytes(s);
    assert(value_at(c.bytes, at, 2, k) == little_endian(s));
    assert(widens_half(halves_at(c.bytes, at, i.n_elements as nat)[token * width + x], r[x]));
}

/// The row of a token in a quantized tensor is dequantized from the bytes behind
/// the rows of the tokens before it: 34 bytes for 32 entries, or 176 for 256.
pub proof fn law_token_row_quantized<F: FloatUnit>(
    c: CheckpointView,
    name: Seq<char>,
    path: Seq<char>,
    token: usize,
    r: Seq<u32>,
    x: int,
)
    requires
        c.token_error(name, path, token) is None,
        c.info(name).ggml_type == GGML_TYPE_Q8_0 || c.info(name).ggml_type == GGML_TYPE_Q5_K,
        c.token_row::<F>(name, token, r),
        0 <= x < c.info(name).dims[0],
    ensures
        r.len() == c.info(name).dims[0],
        c.info(name).ggml_type == GGML_TYPE_Q8_0 ==> {
            let size = (c.info(name).dims[0] as int / 32) * 34;
            let at = c.info(name).absolute_offset + token * size;
            q8_value::<F>(c.bytes.subrange(at, at + size), x, r[x])
        },
        c.info(name).ggml_type == GGML_TYPE_Q5_K ==> {
            let size = (c.info(name).dims[0] as int / 256) * 176;
            let at = c.info(name).absolute_offset + token * size;
            q5_value::<F>(c.bytes.subrange(at, at + size), x, r[x])
        },
{
    let i = c.info(name);
    assert(row_size(i.ggml_type, i.dims[0]) is Ok);
    if i.ggml_type == GGML_TYPE_Q8_0 {
        let size = row_size(i.ggml_type, i.dims[0])->Ok_0;
        let row = c.bytes.subrange(
            i.absolute_offset + token * size,
            i.absolute_offset + token * size + size,
        );
        assert(q8_value::<F>(row, x, r[x]));
    } else {
        let size = row_size(i.ggml_type, i.dims[0])->Ok_0;
        let row = c.bytes.subrange(
            i.absolute_offset + token * size,
            i.absolute_offset + token * size + size,
        );
        assert(q5_value::<F>(row, x, r[x]));
    }
}

} // verus!
