//! Fixed-point audio samples and the saturating arithmetic the mixer uses.
//!
//! A sample or a gain is an `i64` in Q48.15 fixed point: `UNIT` (32768)
//! stands for 1.0. Multiplication by a gain scales by `UNIT`; additions
//! saturate instead of wrapping, so a render pass can never panic on
//! overflow, and the final output stage clamps every sample into
//! `[-OUTPUT_LIMIT, OUTPUT_LIMIT]`.

use vstd::prelude::*;

verus! {

/// The fixed-point representation of 1.0.
pub const UNIT: i64 = 32768;

/// Largest magnitude of a pan position: `UNIT` is hard right, `-UNIT` hard left.
pub const PAN_LIMIT: i64 = 32768;

/// Largest magnitude an automation control point value may have.
pub const CURVE_LIMIT: i64 = 2147483648;

/// Magnitude above which a sample handed back by an effect is treated as
/// non-finite garbage and replaced with silence.
pub const FINITE_LIMIT: i64 = 1099511627776;

/// The valid output range: final samples are clamped into
/// `[-OUTPUT_LIMIT, OUTPUT_LIMIT]`, the fixed-point image of [-1.0, 1.0].
pub const OUTPUT_LIMIT: i64 = 32768;

/// Mathematical saturation of an integer into the `i64` range.
pub open spec fn sat64(x: int) -> int {
    if x > i64::MAX as int {
        i64::MAX as int
    } else if x < i64::MIN as int {
        i64::MIN as int
    } else {
        x
    }
}

/// Absolute value of a mathematical integer.
pub open spec fn abs_int(x: int) -> int {
    if x >= 0 {
        x
    } else {
        -x
    }
}

/// Fixed-point product of a sample and a gain: magnitudes are multiplied and
/// divided by `UNIT` (truncating toward zero), and the sign is the sign of
/// the real product.
pub open spec fn scaled_mul(s: int, g: int) -> int {
    let m = (abs_int(s) * abs_int(g)) / (UNIT as int);
    if (s < 0) == (g < 0) {
        m
    } else {
        -m
    }
}

/// One mixing step: accumulate `s` scaled by gain `g` onto `d`, saturating.
pub open spec fn mix_step(d: int, s: int, g: int) -> int {
    sat64(d + sat64(scaled_mul(s, g)))
}

/// Clamp a mathematical integer into `[-OUTPUT_LIMIT, OUTPUT_LIMIT]`.
pub open spec fn clamp_out(x: int) -> int {
    if x > OUTPUT_LIMIT as int {
        OUTPUT_LIMIT as int
    } else if x < -(OUTPUT_LIMIT as int) {
        -(OUTPUT_LIMIT as int)
    } else {
        x
    }
}

/// A sample an effect handed back is kept only if its magnitude is plausibly
/// finite; otherwise it is replaced with silence.
pub open spec fn sanitize(x: int) -> int {
    if abs_int(x) > FINITE_LIMIT as int {
        0
    } else {
        x
    }
}

/// An unsaturated mixing step is plain integer addition of the scaled
/// term. Since integer addition is commutative and associative, any mix
/// in which no step saturates is independent of summation order; only in
/// saturated corners does the canonical track-index order decide.
pub proof fn lemma_mix_step_unsaturated(d: int, s: int, g: int)
    requires
        i64::MIN <= scaled_mul(s, g) <= i64::MAX,
        i64::MIN <= d + scaled_mul(s, g) <= i64::MAX,
    ensures
        mix_step(d, s, g) == d + scaled_mul(s, g),
{
}

/// Saturating addition of two samples.
pub fn sat_add(a: i64, b: i64) -> (r: i64)
    ensures
        r as int == sat64(a as int + b as int),
{
    let s: i128 = a as i128 + b as i128;
    if s > i64::MAX as i128 {
        i64::MAX
    } else if s < i64::MIN as i128 {
        i64::MIN
    } else {
        s as i64
    }
}

/// Fixed-point multiplication of a sample by a gain, saturating into `i64`.
pub fn apply_gain(s: i64, g: i64) -> (r: i64)
    ensures
        r as int == sat64(scaled_mul(s as int, g as int)),
{
    let sa: u128 = if s >= 0 {
        s as u128
    } else {
        (-(s as i128)) as u128
    };
    let ga: u128 = if g >= 0 {
        g as u128
    } else {
        (-(g as i128)) as u128
    };
    assert(sa == abs_int(s as int));
    assert(ga == abs_int(g as int));
    assert(sa <= 9223372036854775808u128 && ga <= 9223372036854775808u128);
    assert(sa * ga <= 9223372036854775808u128 * 9223372036854775808u128) by (nonlinear_arith)
        requires
            sa <= 9223372036854775808u128,
            ga <= 9223372036854775808u128,
    ;
    let m: u128 = (sa * ga) / (UNIT as u128);
    assert(m == (abs_int(s as int) * abs_int(g as int)) / (UNIT as int)) by {
        assert(sa * ga == abs_int(s as int) * abs_int(g as int));
    };
    if (s < 0) == (g < 0) {
        if m > i64::MAX as u128 {
            i64::MAX
        } else {
            m as i64
        }
    } else {
        if m >= 9223372036854775808u128 {
            i64::MIN
        } else {
            -(m as i64)
        }
    }
}

/// Clamp a sample into the valid output range.
pub fn clamp_sample(x: i64) -> (r: i64)
    ensures
        r as int == clamp_out(x as int),
        -(OUTPUT_LIMIT as int) <= r as int <= OUTPUT_LIMIT as int,
{
    if x > OUTPUT_LIMIT {
        OUTPUT_LIMIT
    } else if x < -OUTPUT_LIMIT {
        -OUTPUT_LIMIT
    } else {
        x
    }
}

/// Replace a non-finite (absurdly large) sample with silence.
pub fn sanitize_sample(x: i64) -> (r: i64)
    ensures
        r as int == sanitize(x as int),
{
    if x > FINITE_LIMIT || x < -FINITE_LIMIT {
        0
    } else {
        x
    }
}

} // verus!
