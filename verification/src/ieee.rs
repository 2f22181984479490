//! IEEE 754 bit patterns.
//!
//! A `u32` stands for a binary32 value and a `u64` for a binary64 value. The
//! sign is the top bit; the remaining bits, read as an integer, grow with the
//! absolute value and pass the infinity pattern exactly on NaN.

use vstd::prelude::*;
use vstd::arithmetic::power2::{lemma_pow2_adds, lemma_pow2_unfold, pow2};

verus! {

pub const ZERO: u32 = 0;
pub const NEG_ZERO: u32 = 0x8000_0000;
pub const HALF: u32 = 0x3F00_0000;
pub const ONE: u32 = 0x3F80_0000;
pub const NEG_ONE: u32 = 0xBF80_0000;
pub const TWO: u32 = 0x4000_0000;
pub const INFINITY: u32 = 0x7F80_0000;
pub const NEG_INFINITY: u32 = 0xFF80_0000;
/// The quiet NaN written wherever a result is declared not a number.
pub const NAN: u32 = 0x7FC0_0000;
/// The ratio of a circle's circumference to its diameter.
pub const PI: u32 = 0x4049_0FDB;
/// Largest finite binary32 value.
pub const MAX: u32 = 0x7F7F_FFFF;
/// Smallest finite binary32 value.
pub const MIN: u32 = 0xFF7F_FFFF;

pub const ZERO64: u64 = 0;
pub const ONE64: u64 = 0x3FF0_0000_0000_0000;

pub const NEG_INFINITY64: u64 = 0xFFF0_0000_0000_0000;
/// The largest binary64 count that adding ones reaches: `2^53`.
pub const COUNT_LIMIT64: u64 = 0x4340_0000_0000_0000;

/// `2^128`, above every finite binary32 magnitude.
pub const SPAN64: u64 = 0x47F0_0000_0000_0000;
/// `2^320`, above every sum of squared deviations of finite binary32 values.
pub const TOTAL64: u64 = 0x53F0_0000_0000_0000;
/// `2^75`, above the inverse root of every positive binary32 value.
pub const ROOT64: u64 = 0x44A0_0000_0000_0000;

/// The bits below the sign.
pub open spec fn magnitude(x: u32) -> int {
    if x >= 0x8000_0000 { x - 0x8000_0000 } else { x as int }
}

pub open spec fn negative(x: u32) -> bool {
    x >= 0x8000_0000
}

pub open spec fn nan(x: u32) -> bool {
    magnitude(x) > 0x7F80_0000
}

pub open spec fn finite(x: u32) -> bool {
    magnitude(x) < 0x7F80_0000
}

/// Position of a non-NaN value in numeric order; both zeros stand at `0`.
pub open spec fn rank(x: u32) -> int {
    if negative(x) { -magnitude(x) } else { magnitude(x) }
}

/// Position in the IEEE `totalOrder`, which also places NaN and tells the zeros apart.
pub open spec fn total_rank(x: u32) -> int {
    if negative(x) { -magnitude(x) - 1 } else { magnitude(x) }
}

/// `a > b`: false as soon as either side is NaN.
pub open spec fn above(a: u32, b: u32) -> bool {
    !nan(a) && !nan(b) && rank(a) > rank(b)
}

/// `x >= 0`: both zeros qualify, NaN does not.
pub open spec fn non_negative(x: u32) -> bool {
    !nan(x) && rank(x) >= 0
}

/// The larger of two values; a NaN gives way to the other operand and equals keep the left one.
pub open spec fn larger(a: u32, b: u32) -> u32 {
    if nan(a) {
        b
    } else if above(b, a) {
        b
    } else {
        a
    }
}

/// The smaller of two values; a NaN gives way to the other operand and equals keep the left one.
pub open spec fn smaller(a: u32, b: u32) -> u32 {
    if nan(a) {
        b
    } else if above(a, b) {
        b
    } else {
        a
    }
}

pub open spec fn absolute(x: u32) -> u32 {
    magnitude(x) as u32
}

pub open spec fn negated(x: u32) -> u32 {
    if negative(x) { (x - 0x8000_0000) as u32 } else { (x + 0x8000_0000) as u32 }
}

pub open spec fn magnitude64(x: u64) -> int {
    if x >= 0x8000_0000_0000_0000 { x - 0x8000_0000_0000_0000 } else { x as int }
}

pub open spec fn negative64(x: u64) -> bool {
    x >= 0x8000_0000_0000_0000
}

pub open spec fn nan64(x: u64) -> bool {
    magnitude64(x) > 0x7FF0_0000_0000_0000
}

pub open spec fn finite64(x: u64) -> bool {
    magnitude64(x) < 0x7FF0_0000_0000_0000
}

pub open spec fn rank64(x: u64) -> int {
    if negative64(x) { -magnitude64(x) } else { magnitude64(x) }
}

pub fn is_nan(x: u32) -> (r: bool)
    ensures
        r == nan(x),
{
    if x >= 0x8000_0000 { x > 0xFF80_0000 } else { x > 0x7F80_0000 }
}

pub fn is_finite(x: u32) -> (r: bool)
    ensures
        r == finite(x),
{
    if x >= 0x8000_0000 { x < 0xFF80_0000 } else { x < 0x7F80_0000 }
}

/// `a > b`.
pub fn is_above(a: u32, b: u32) -> (r: bool)
    ensures
        r == above(a, b),
{
    if is_nan(a) || is_nan(b) {
        false
    } else if a >= 0x8000_0000 {
        b >= 0x8000_0000 && a < b
    } else if b >= 0x8000_0000 {
        a > 0 || b > 0x8000_0000
    } else {
        a > b
    }
}

/// `x >= 0`.
pub fn is_non_negative(x: u32) -> (r: bool)
    ensures
        r == non_negative(x),
{
    x <= 0x7F80_0000 || x == 0x8000_0000
}

/// Strictly after in `totalOrder`.
pub fn is_total_above(a: u32, b: u32) -> (r: bool)
    ensures
        r == (total_rank(a) > total_rank(b)),
{
    if a >= 0x8000_0000 {
        b >= 0x8000_0000 && a < b
    } else {
        b >= 0x8000_0000 || a > b
    }
}

pub fn pick_larger(a: u32, b: u32) -> (r: u32)
    ensures
        r == larger(a, b),
{
    if is_nan(a) || is_above(b, a) { b } else { a }
}

pub fn pick_smaller(a: u32, b: u32) -> (r: u32)
    ensures
        r == smaller(a, b),
{
    if is_nan(a) || is_above(a, b) { b } else { a }
}

pub fn abs_bits(x: u32) -> (r: u32)
    ensures
        r == absolute(x),
{
    if x >= 0x8000_0000 { x - 0x8000_0000 } else { x }
}

pub fn neg_bits(x: u32) -> (r: u32)
    ensures
        r == negated(x),
{
    if x >= 0x8000_0000 { x - 0x8000_0000 } else { x + 0x8000_0000 }
}

pub fn is_nan64(x: u64) -> (r: bool)
    ensures
        r == nan64(x),
{
    if x >= 0x8000_0000_0000_0000 {
        x > 0xFFF0_0000_0000_0000
    } else {
        x > 0x7FF0_0000_0000_0000
    }
}

pub fn is_finite64(x: u64) -> (r: bool)
    ensures
        r == finite64(x),
{
    if x >= 0x8000_0000_0000_0000 {
        x < 0xFFF0_0000_0000_0000
    } else {
        x < 0x7FF0_0000_0000_0000
    }
}

/// `a > b` on binary64 patterns.
pub fn is_above64(a: u64, b: u64) -> (r: bool)
    ensures
        r == (!nan64(a) && !nan64(b) && rank64(a) > rank64(b)),
{
    if is_nan64(a) || is_nan64(b) {
        false
    } else if a >= 0x8000_0000_0000_0000 {
        b >= 0x8000_0000_0000_0000 && a < b
    } else if b >= 0x8000_0000_0000_0000 {
        a > 0 || b > 0x8000_0000_0000_0000
    } else {
        a > b
    }
}

// ── Half precision ───────────────────────────────────────────────────

pub open spec fn half_magnitude(h: u16) -> int {
    if h >= 0x8000 { h - 0x8000 } else { h as int }
}

/// A finite binary32 magnitude as a multiple of the smallest subnormal, `2^-149`.
pub open spec fn single_units(x: u32) -> int {
    let e = magnitude(x) / 0x80_0000;
    let f = magnitude(x) % 0x80_0000;
    if e == 0 { f } else { (0x80_0000 + f) * pow2((e - 1) as nat) }
}

/// A finite binary16 magnitude as a multiple of the smallest subnormal, `2^-24`.
pub open spec fn half_units(h: u16) -> int {
    let e = half_magnitude(h) / 0x400;
    let f = half_magnitude(h) % 0x400;
    if e == 0 { f } else { (0x400 + f) * pow2((e - 1) as nat) }
}

/// `r` is the binary32 pattern of the binary16 pattern `h`: the sign is kept, a
/// finite value is kept exactly, infinities map to infinities, and a NaN keeps
/// its payload with the quiet bit set.
pub open spec fn widens_half(h: u16, r: u32) -> bool {
    let m = half_magnitude(h);
    &&& negative(r) == (h >= 0x8000)
    &&& m < 0x7C00 ==> finite(r) && single_units(r) == half_units(h) * pow2(125)
    &&& m == 0x7C00 ==> magnitude(r) == 0x7F80_0000
    &&& m > 0x7C00 ==> magnitude(r) == 0x7FC0_0000 + (m - 0x7C00) % 0x200 * 0x2000
}

proof fn lemma_pow2_split(a: nat, b: nat)
    ensures
        pow2(a + b) == pow2(a) * pow2(b),
{
    lemma_pow2_adds(a, b);
}

proof fn lemma_units_normal(x: u32, e: int, f: int)
    requires
        1 <= e < 255,
        0 <= f < 0x80_0000,
        magnitude(x) == e * 0x80_0000 + f,
    ensures
        single_units(x) == (0x80_0000 + f) * pow2((e - 1) as nat),
        finite(x),
{
    assert(magnitude(x) / 0x80_0000 == e && magnitude(x) % 0x80_0000 == f);
}

proof fn lemma_pow2_13()
    ensures
        pow2(13) == 0x2000,
{
    vstd::arithmetic::power2::lemma2_to64();
}

/// Widens a half-precision pattern to single precision without loss.
pub fn half_to_single(h: u16) -> (r: u32)
    ensures
        widens_half(h, r),
{
    let sign: u32 = if h >= 0x8000 { 0x8000_0000 } else { 0 };
    let m: u32 = (if h >= 0x8000 { h - 0x8000 } else { h }) as u32;
    if m == 0 {
        assert(single_units(sign) == 0);
        assert(half_units(h) == 0);
        assert(0 * pow2(125) == 0) by (nonlinear_arith);
        return sign;
    }
    if m == 0x7C00 {
        return sign + 0x7F80_0000;
    }
    if m > 0x7C00 {
        return sign + 0x7FC0_0000 + (m - 0x7C00) % 0x200 * 0x2000;
    }
    let mut e: u32 = m / 0x400;
    let mut f: u32 = m % 0x400;
    let ghost e0 = e as int;
    let ghost f0 = f as int;
    if e > 0 {
        let r: u32 = sign + (e + 112) * 0x80_0000 + f * 0x2000;
        proof {
            lemma_units_normal(r, e0 + 112, f0 * 0x2000);
            lemma_pow2_split((e0 - 1) as nat, 112);
            lemma_pow2_split(13, 112);
            lemma_pow2_13();
            assert((0x80_0000 + f0 * 0x2000) * pow2((e0 + 111) as nat) == (0x400 + f0) * pow2(
                (e0 - 1) as nat,
            ) * pow2(125)) by (nonlinear_arith)
                requires
                    pow2((e0 + 111) as nat) == pow2((e0 - 1) as nat) * pow2(112),
                    pow2(125) == 0x2000 * pow2(112),
            ;
        }
        return r;
    }
    e = 113;
    proof {
        vstd::arithmetic::power2::lemma2_to64();
    }
    while f < 0x400
        invariant
            1 <= f < 0x800,
            13 <= e <= 113,
            f * pow2((e + 12) as nat) == f0 * pow2(125),
            f >= pow2((113 - e) as nat),
        decreases 0x800 - f,
    {
        proof {
            lemma_pow2_unfold((e + 12) as nat);
            lemma_pow2_unfold((113 - e + 1) as nat);
            assert(2 * f * pow2((e + 11) as nat) == f0 * pow2(125)) by (nonlinear_arith)
                requires
                    f * pow2((e + 12) as nat) == f0 * pow2(125),
                    pow2((e + 12) as nat) == 2 * pow2((e + 11) as nat),
            ;
            if e == 13 {
                vstd::arithmetic::power2::lemma2_to64_rest();
                vstd::arithmetic::power2::lemma_pow2_strictly_increases(64, 100);
            }
        }
        f = f * 2;
        e = e - 1;
    }
    proof {
        lemma_pow2_split((e - 1) as nat, 13);
        lemma_pow2_13();
        lemma_units_normal(
            (sign + e * 0x80_0000 + (f - 0x400) * 0x2000) as u32,
            e as int,
            (f - 0x400) * 0x2000,
        );
        assert((0x80_0000 + (f - 0x400) * 0x2000) * pow2((e - 1) as nat) == f0 * pow2(125))
            by (nonlinear_arith)
            requires
                f * pow2((e + 12) as nat) == f0 * pow2(125),
                pow2((e + 12) as nat) == pow2((e - 1) as nat) * 0x2000,
        ;
    }
    sign + e * 0x80_0000 + (f - 0x400) * 0x2000
}

/// The largest count that adding ones reaches: one more no longer changes it.
pub const COUNT_LIMIT: u32 = 0x100_0000;

/// `r` is the non-negative pattern of the whole number `n`.
pub open spec fn represents(n: nat, r: u32) -> bool {
    !negative(r) && finite(r) && single_units(r) == n * pow2(149)
}

/// The pattern of a positive multiple `n` of a power of two: `n * 2^(e0 - 150)`.
fn multiple_of_power(n: u32, e0: u32) -> (r: u32)
    requires
        1 <= n < 0x100_0000,
        24 <= e0 < 255,
    ensures
        !negative(r),
        finite(r),
        single_units(r) == n * pow2((e0 - 1) as nat),
        n < 0x80_0000 ==> r < e0 * 0x80_0000,
{
    let mut m: u32 = n;
    let mut e: u32 = e0;
    proof {
        vstd::arithmetic::power2::lemma2_to64();
    }
    while m < 0x80_0000
        invariant
            1 <= m < 0x100_0000,
            24 <= e0 < 255,
            e0 - 23 <= e <= e0,
            m * pow2((e - 1) as nat) == n * pow2((e0 - 1) as nat),
            m >= pow2((e0 - e) as nat),
            e == e0 ==> m == n,
        decreases 0x100_0000 - m,
    {
        proof {
            vstd::arithmetic::power2::lemma2_to64();
            if e == e0 - 23 {
                assert(pow2(23) == 0x80_0000);
            }
            lemma_pow2_unfold((e - 1) as nat);
            lemma_pow2_unfold((e0 - e + 1) as nat);
            assert(2 * m * pow2((e - 2) as nat) == n * pow2((e0 - 1) as nat)) by (nonlinear_arith)
                requires
                    m * pow2((e - 1) as nat) == n * pow2((e0 - 1) as nat),
                    pow2((e - 1) as nat) == 2 * pow2((e - 2) as nat),
            ;
        }
        m = m * 2;
        e = e - 1;
    }
    proof {
        lemma_units_normal((e * 0x80_0000 + (m - 0x80_0000)) as u32, e as int, m - 0x80_0000);
    }
    e * 0x80_0000 + (m - 0x80_0000)
}

/// The binary32 pattern of a whole number up to [`COUNT_LIMIT`].
pub fn whole_number(n: u32) -> (r: u32)
    requires
        n <= COUNT_LIMIT,
    ensures
        represents(n as nat, r),
{
    if n == 0 {
        assert(0 * pow2(149) == 0) by (nonlinear_arith);
        return 0;
    }
    if n == COUNT_LIMIT {
        proof {
            lemma_units_normal(0x4B80_0000, 151, 0);
            lemma_pow2_unfold(150);
            assert(0x80_0000 * pow2(150) == 0x100_0000 * pow2(149)) by (nonlinear_arith)
                requires
                    pow2(150) == 2 * pow2(149),
            ;
        }
        return 0x4B80_0000;
    }
    multiple_of_power(n, 150)
}

/// Steps into which the unit interval is divided: `2^23`.
pub const UNIT_STEPS: u32 = 0x80_0000;

/// `r` is the pattern of `k / 2^23`.
pub open spec fn unit_fraction(k: u32, r: u32) -> bool {
    !negative(r) && finite(r) && single_units(r) == k * pow2(126)
}

/// The pattern of `k / 2^23`, a number from zero to below one.
pub fn fraction_of_unit(k: u32) -> (r: u32)
    requires
        k < UNIT_STEPS,
    ensures
        unit_fraction(k, r),
        above(ONE, r),
        non_negative(r),
{
    if k == 0 {
        assert(0 * pow2(126) == 0) by (nonlinear_arith);
        return 0;
    }
    multiple_of_power(k, 127)
}

} // verus!
