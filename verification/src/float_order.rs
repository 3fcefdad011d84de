//! Comparisons of floating-point numbers given by their IEEE 754 bit patterns.
//!
//! The sign bit is the topmost bit and the remaining bits, read as an integer,
//! grow with the magnitude. A magnitude above that of infinity is a NaN, which
//! compares false with everything.
#[allow(unused_imports)]
use vstd::arithmetic::power2::pow2;
use vstd::prelude::*;

verus! {

/// The sign bit of a double.
pub const SIGN64: u64 = 0x8000_0000_0000_0000;

/// Positive infinity as a double.
pub const INFINITY64: u64 = 0x7ff0_0000_0000_0000;

/// The sign bit of a single.
pub const SIGN32: u32 = 0x8000_0000;

/// Positive infinity as a single.
pub const INFINITY32: u32 = 0x7f80_0000;

/// `1.0` as a single.
pub const ONE32: u32 = 0x3f80_0000;

/// The place of a double on the number line: signed magnitude, both zeros at 0.
pub open spec fn place64(bits: u64) -> int {
    if bits < SIGN64 {
        bits as int
    } else {
        SIGN64 - bits
    }
}

/// Whether the double is a NaN.
pub open spec fn nan64(bits: u64) -> bool {
    place64(bits) > INFINITY64 || place64(bits) < -INFINITY64
}

/// `a >= b` on doubles.
pub open spec fn at_least64(a: u64, b: u64) -> bool {
    !nan64(a) && !nan64(b) && place64(a) >= place64(b)
}

/// `a > b` on doubles.
pub open spec fn above64(a: u64, b: u64) -> bool {
    !nan64(a) && !nan64(b) && place64(a) > place64(b)
}

/// The place of a single on the number line.
pub open spec fn place32(bits: u32) -> int {
    if bits < SIGN32 {
        bits as int
    } else {
        SIGN32 - bits
    }
}

/// Whether the single is a NaN.
pub open spec fn nan32(bits: u32) -> bool {
    place32(bits) > INFINITY32 || place32(bits) < -INFINITY32
}

/// `a > b` on singles.
pub open spec fn above32(a: u32, b: u32) -> bool {
    !nan32(a) && !nan32(b) && place32(a) > place32(b)
}

/// A single limited to the range from `0.0` to `1.0`; a NaN stays as it is.
pub open spec fn unit_clamped(bits: u32) -> u32 {
    if above32(0, bits) {
        0
    } else if above32(bits, ONE32) {
        ONE32
    } else {
        bits
    }
}

/// The rank of a double in the total order that also places NaNs and puts
/// `-0.0` just below `0.0`.
pub open spec fn total_rank(bits: u64) -> int {
    if bits < SIGN64 {
        bits as int
    } else {
        SIGN64 - bits - 1
    }
}

fn signed_place64(bits: u64) -> (place: i64)
    ensures
        place == place64(bits),
{
    if bits < SIGN64 {
        bits as i64
    } else {
        -((bits - SIGN64) as i64)
    }
}

fn signed_place32(bits: u32) -> (place: i32)
    ensures
        place == place32(bits),
{
    if bits < SIGN32 {
        bits as i32
    } else {
        -((bits - SIGN32) as i32)
    }
}

/// Whether the double is a NaN.
pub fn is_nan64(bits: u64) -> (nan: bool)
    ensures
        nan == nan64(bits),
{
    let place: i64 = signed_place64(bits);
    place > INFINITY64 as i64 || place < -(INFINITY64 as i64)
}

/// Whether the single is a NaN.
pub fn is_nan32(bits: u32) -> (nan: bool)
    ensures
        nan == nan32(bits),
{
    let place: i32 = signed_place32(bits);
    place > INFINITY32 as i32 || place < -(INFINITY32 as i32)
}

/// `a >= b` on doubles.
pub fn is_at_least64(a: u64, b: u64) -> (holds: bool)
    ensures
        holds == at_least64(a, b),
{
    !is_nan64(a) && !is_nan64(b) && signed_place64(a) >= signed_place64(b)
}

/// `a > b` on doubles.
pub fn is_above64(a: u64, b: u64) -> (holds: bool)
    ensures
        holds == above64(a, b),
{
    !is_nan64(a) && !is_nan64(b) && signed_place64(a) > signed_place64(b)
}

/// `a > b` on singles.
pub fn is_above32(a: u32, b: u32) -> (holds: bool)
    ensures
        holds == above32(a, b),
{
    !is_nan32(a) && !is_nan32(b) && signed_place32(a) > signed_place32(b)
}

/// Limits a single to the range from `0.0` to `1.0`; a NaN stays as it is.
pub fn clamp_unit(bits: u32) -> (clamped: u32)
    ensures
        clamped == unit_clamped(bits),
{
    if is_above32(0, bits) {
        0
    } else if is_above32(bits, ONE32) {
        ONE32
    } else {
        bits
    }
}

/// Whether `a` comes no later than `b` in the total order of doubles.
pub fn is_ranked_no_later(a: u64, b: u64) -> (holds: bool)
    ensures
        holds == (total_rank(a) <= total_rank(b)),
{
    if a < SIGN64 {
        b < SIGN64 && a <= b
    } else {
        b < SIGN64 || b <= a
    }
}

/// The exponent field of a double from which on the number is at least `1.0`.
pub const EXPONENT_OF_ONE64: u64 = 1023;

/// One more than the largest fraction field of a double.
pub const FRACTION_RANGE64: u64 = 0x10_0000_0000_0000;

/// A double from `1.0` on is its significand times a power of two: this power's
/// exponent.
pub open spec fn scale64(bits: u64) -> int {
    bits as int / FRACTION_RANGE64 as int - EXPONENT_OF_ONE64 - 52
}

/// The significand of a double from `1.0` on.
pub open spec fn significand64(bits: u64) -> int {
    FRACTION_RANGE64 + bits as int % FRACTION_RANGE64 as int
}

/// The whole part of a double: 0 for a negative number and for a NaN, and the
/// largest `u64` for a number beyond it.
pub open spec fn whole64(bits: u64) -> int {
    let scale = scale64(bits);
    if bits > INFINITY64 || scale < -52 {
        0
    } else if scale > 11 {
        u64::MAX as int
    } else if scale >= 0 {
        significand64(bits) * pow2(scale as nat)
    } else {
        significand64(bits) / pow2((-scale) as nat) as int
    }
}

/// The whole part of a double, from 0 up to the largest `u64`.
pub fn whole_part64(bits: u64) -> (whole: u64)
    ensures
        whole == whole64(bits),
{
    if bits > INFINITY64 {
        return 0;
    }
    let exponent: u64 = bits / FRACTION_RANGE64;
    let significand: u64 = FRACTION_RANGE64 + bits % FRACTION_RANGE64;
    if exponent < EXPONENT_OF_ONE64 {
        return 0;
    }
    let above_one: u64 = exponent - EXPONENT_OF_ONE64;
    if above_one > 63 {
        return u64::MAX;
    }
    if above_one >= 52 {
        let shift: u64 = above_one - 52;
        proof {
            lemma_pow2_up_to_11(shift as nat);
            assert(significand * pow2(shift as nat) <= u64::MAX) by (nonlinear_arith)
                requires
                    significand < 2 * FRACTION_RANGE64,
                    FRACTION_RANGE64 == 0x10_0000_0000_0000,
                    0 < pow2(shift as nat) <= 2048,
            ;
            vstd::bits::lemma_u64_shl_is_mul(significand, shift);
        }
        significand << shift
    } else {
        let shift: u64 = 52 - above_one;
        proof {
            vstd::bits::lemma_u64_shr_is_div(significand, shift);
        }
        significand >> shift
    }
}

proof fn lemma_pow2_up_to_11(n: nat)
    requires
        n <= 11,
    ensures
        0 < pow2(n) <= 2048,
{
    vstd::arithmetic::power2::lemma2_to64();
    vstd::arithmetic::power2::lemma_pow2_pos(n);
    if n < 11 {
        vstd::arithmetic::power2::lemma_pow2_strictly_increases(n, 11);
    }
}

/// The whole part of a double that is neither negative nor beyond the largest `u64`
/// is the largest whole number that is not above it. (At a scale below 0 the double
/// is its significand divided by a power of two.)
pub proof fn law_whole_part(bits: u64)
    requires
        bits < INFINITY64,
        -52 <= scale64(bits) <= 11,
    ensures
        scale64(bits) >= 0 ==> whole64(bits) == significand64(bits) * pow2(scale64(bits) as nat),
        scale64(bits) < 0 ==> {
            let unit = pow2((-scale64(bits)) as nat) as int;
            whole64(bits) * unit <= significand64(bits) < (whole64(bits) + 1) * unit
        },
{
    if scale64(bits) < 0 {
        let n = (-scale64(bits)) as nat;
        vstd::arithmetic::power2::lemma_pow2_pos(n);
        let unit = pow2(n) as int;
        let s = significand64(bits);
        vstd::arithmetic::div_mod::lemma_fundamental_div_mod(s, unit);
        assert((s / unit) * unit == unit * (s / unit)) by (nonlinear_arith);
        assert((s / unit + 1) * unit == unit * (s / unit) + unit) by (nonlinear_arith);
    }
}

/// Clamping to the unit range leaves nothing below `0.0` or above `1.0`, and a
/// second clamping changes nothing.
pub proof fn law_unit_clamp(bits: u32)
    ensures
        !above32(0, unit_clamped(bits)),
        !above32(unit_clamped(bits), ONE32),
        nan32(unit_clamped(bits)) == nan32(bits),
        unit_clamped(unit_clamped(bits)) == unit_clamped(bits),
{
}

/// How doubles compare, by their bits: below the sign bit the larger pattern is the
/// larger number, above it the smaller one is, a number without the sign is never
/// below one with it, the two zeros are equal, and a NaN compares with nothing.
pub proof fn law_doubles_compare(a: u64, b: u64)
    ensures
        a <= 0x7ff0_0000_0000_0000 && b <= 0x7ff0_0000_0000_0000 ==> {
            &&& at_least64(a, b) <==> a >= b
            &&& above64(a, b) <==> a > b
        },
        0x8000_0000_0000_0000 <= a <= 0xfff0_0000_0000_0000 && 0x8000_0000_0000_0000 <= b
            <= 0xfff0_0000_0000_0000 ==> {
            &&& at_least64(a, b) <==> a <= b
            &&& above64(a, b) <==> a < b
        },
        a <= 0x7ff0_0000_0000_0000 && 0x8000_0000_0000_0000 <= b <= 0xfff0_0000_0000_0000 ==> {
            &&& at_least64(a, b)
            &&& above64(a, b) <==> !(a == 0 && b == 0x8000_0000_0000_0000)
            &&& at_least64(b, a) <==> a == 0 && b == 0x8000_0000_0000_0000
            &&& !above64(b, a)
        },
        0x7ff0_0000_0000_0000 < a < 0x8000_0000_0000_0000 || a > 0xfff0_0000_0000_0000 ==> {
            &&& !at_least64(a, b) && !at_least64(b, a)
            &&& !above64(a, b) && !above64(b, a)
        },
{
}

/// How singles compare, by their bits.
pub proof fn law_singles_compare(a: u32, b: u32)
    ensures
        a <= 0x7f80_0000 && b <= 0x7f80_0000 ==> (above32(a, b) <==> a > b),
        0x8000_0000 <= a <= 0xff80_0000 && 0x8000_0000 <= b <= 0xff80_0000 ==> (above32(a, b)
            <==> a < b),
        a <= 0x7f80_0000 && 0x8000_0000 <= b <= 0xff80_0000 ==> {
            &&& above32(a, b) <==> !(a == 0 && b == 0x8000_0000)
            &&& !above32(b, a)
        },
        0x7f80_0000 < a < 0x8000_0000 || a > 0xff80_0000 ==> !above32(a, b) && !above32(b, a),
{
}

/// The total order ranks different patterns differently: those with the sign first,
/// from the largest pattern down, then those without it, from the smallest up. Where
/// two numbers compare, it agrees with the comparison.
pub proof fn law_total_rank(a: u64, b: u64)
    ensures
        total_rank(a) == total_rank(b) <==> a == b,
        a < 0x8000_0000_0000_0000 && b < 0x8000_0000_0000_0000 ==> (total_rank(a) <= total_rank(b)
            <==> a <= b),
        a >= 0x8000_0000_0000_0000 && b >= 0x8000_0000_0000_0000 ==> (total_rank(a)
            <= total_rank(b) <==> a >= b),
        a >= 0x8000_0000_0000_0000 && b < 0x8000_0000_0000_0000 ==> total_rank(a) < total_rank(b),
        above64(a, b) ==> total_rank(a) > total_rank(b),
{
}

/// Clamping leaves a single from `0.0` to `1.0` as it is, takes everything above to
/// `1.0` and everything below to `0.0`.
pub proof fn law_unit_clamp_values(bits: u32)
    ensures
        bits <= 0x3f80_0000 || bits == 0x8000_0000 ==> unit_clamped(bits) == bits,
        0x3f80_0000 < bits <= 0x7f80_0000 ==> unit_clamped(bits) == 0x3f80_0000,
        0x8000_0000 < bits <= 0xff80_0000 ==> unit_clamped(bits) == 0,
        0x7f80_0000 < bits < 0x8000_0000 || bits > 0xff80_0000 ==> unit_clamped(bits) == bits,
{
}

/// The whole part of every double, from where doubles are just the whole numbers: one
/// step up in the exponent doubles it there, and below one step down halves it.
/// Beyond the largest `u64` it stays there; a negative number and a NaN have none.
pub proof fn law_whole_part_doubles(bits: u64)
    ensures
        0x4330_0000_0000_0000 <= bits < 0x4340_0000_0000_0000 ==> whole64(bits) == bits
            - 0x4330_0000_0000_0000 + 0x10_0000_0000_0000,
        bits < 0x4330_0000_0000_0000 ==> whole64(bits) == whole64(
            (bits + 0x10_0000_0000_0000) as u64,
        ) / 2,
        0x4330_0000_0000_0000 <= bits < 0x43e0_0000_0000_0000 ==> whole64(
            (bits + 0x10_0000_0000_0000) as u64,
        ) == 2 * whole64(bits),
        0x43f0_0000_0000_0000 <= bits <= 0x7ff0_0000_0000_0000 ==> whole64(bits) == u64::MAX,
        bits > 0x7ff0_0000_0000_0000 ==> whole64(bits) == 0,
{
    let range = FRACTION_RANGE64 as int;
    let scale = scale64(bits);
    let s = significand64(bits);
    if bits < 0x43e0_0000_0000_0000 {
        let next = (bits + 0x10_0000_0000_0000) as u64;
        assert(scale64(next) == scale + 1 && significand64(next) == s);
        vstd::arithmetic::power2::lemma2_to64();
        if scale >= 0 {
            vstd::arithmetic::power2::lemma_pow2_unfold((scale + 1) as nat);
            assert(s * (2 * pow2(scale as nat)) == 2 * (s * pow2(scale as nat)))
                by (nonlinear_arith);
        } else if scale >= -52 {
            let n = (-scale) as nat;
            vstd::arithmetic::power2::lemma_pow2_unfold(n);
            vstd::arithmetic::power2::lemma_pow2_pos((n - 1) as nat);
            let half = pow2((n - 1) as nat) as int;
            vstd::arithmetic::div_mod::lemma_div_denominator(s, half, 2);
            assert(half * 2 == pow2(n) as int);
            if n == 1 {
                assert(s / 1 == s);
                assert(s * 1 == s);
            }
        } else if scale == -53 {
            vstd::arithmetic::power2::lemma_pow2_unfold(53);
            assert(s / pow2(52) as int == 1) by {
                vstd::arithmetic::power2::lemma2_to64_rest();
            }
        }
    }
}

} // verus!
