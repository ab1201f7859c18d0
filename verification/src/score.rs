//! Similarity scores as the library sees them.
//!
//! A score reaches the library as the bit pattern of an IEEE-754
//! single-precision number.  Ranking needs only the order of two scores, and
//! that order can be read off the bits with integer arithmetic alone.

use vstd::arithmetic::mul::lemma_mul_strict_inequality;
use vstd::arithmetic::power2::{
    lemma_pow2_pos, lemma_pow2_strictly_increases, lemma_pow2_unfold, pow2,
};
use vstd::prelude::*;

verus! {

/// The bit that holds the sign.
pub const SIGN_BIT: u32 = 0x8000_0000;

/// The bit pattern of positive infinity; every larger magnitude is not a number.
pub const INFINITY_BITS: u32 = 0x7F80_0000;

/// The pattern without its sign bit.
pub open spec fn magnitude(bits: u32) -> int {
    if bits >= SIGN_BIT {
        bits - SIGN_BIT
    } else {
        bits as int
    }
}

/// Whether the pattern stands for no number at all.
pub open spec fn is_nan(bits: u32) -> bool {
    magnitude(bits) > INFINITY_BITS
}

/// An integer that orders scores as their numeric values are ordered: a
/// larger score has a larger key, the two zeros share key 0, and a pattern
/// that is not a number counts as zero, the score of a degenerate embedding.
pub open spec fn similarity_key(bits: u32) -> int {
    if is_nan(bits) {
        0
    } else if bits >= SIGN_BIT {
        -magnitude(bits)
    } else {
        magnitude(bits)
    }
}

/// Computes the ordering key of a score.
pub fn order_key(bits: u32) -> (key: i64)
    ensures
        key == similarity_key(bits),
{
    let negative: bool = bits >= SIGN_BIT;
    let size: u32 = if negative {
        bits - SIGN_BIT
    } else {
        bits
    };
    if size > INFINITY_BITS {
        0
    } else if negative {
        let wide: i64 = size as i64;
        -wide
    } else {
        size as i64
    }
}

/// Two to the power of 23: the number of values of the fraction field.
pub const FRACTION_RANGE: u32 = 0x80_0000;

/// The exponent field of a pattern: the eight bits below the sign.
pub open spec fn exponent_field(bits: u32) -> int {
    magnitude(bits) / (FRACTION_RANGE as int)
}

/// The fraction field of a pattern: its lowest 23 bits.
pub open spec fn fraction_field(bits: u32) -> int {
    magnitude(bits) % (FRACTION_RANGE as int)
}

/// The absolute value that a pattern stands for, times two to the power of
/// 149, which makes it a whole number: the fraction alone where the
/// exponent field is 0, and otherwise the fraction with its leading one,
/// doubled once for each step of the exponent field above 1.  The two
/// infinities come out larger than every finite value.
pub open spec fn scaled_magnitude(bits: u32) -> int {
    if exponent_field(bits) == 0 {
        fraction_field(bits)
    } else {
        (FRACTION_RANGE + fraction_field(bits)) * pow2((exponent_field(bits) - 1) as nat)
    }
}

/// The value that a pattern stands for, times two to the power of 149.
pub open spec fn scaled_value(bits: u32) -> int {
    if bits >= SIGN_BIT {
        -scaled_magnitude(bits)
    } else {
        scaled_magnitude(bits)
    }
}

proof fn lemma_magnitude_grows(a: u32, b: u32)
    requires
        magnitude(a) < magnitude(b),
    ensures
        scaled_magnitude(a) < scaled_magnitude(b),
{
    let range = FRACTION_RANGE as int;
    let exp_a = exponent_field(a);
    let exp_b = exponent_field(b);
    let frac_a = fraction_field(a);
    let frac_b = fraction_field(b);
    assert(exp_a <= exp_b);
    if exp_a == exp_b {
        assert(frac_a < frac_b);
        if exp_a > 0 {
            let power = pow2((exp_a - 1) as nat) as int;
            lemma_pow2_pos((exp_a - 1) as nat);
            lemma_mul_strict_inequality(range + frac_a, range + frac_b, power);
        }
    } else {
        let power_b = pow2((exp_b - 1) as nat) as int;
        lemma_pow2_pos((exp_b - 1) as nat);
        assert(range * power_b <= (range + frac_b) * power_b) by (nonlinear_arith)
            requires
                frac_b >= 0,
                power_b > 0,
        ;
        assert(range <= range * power_b) by (nonlinear_arith)
            requires
                range > 0,
                power_b >= 1,
        ;
        if exp_a > 0 {
            let power_a = pow2((exp_a - 1) as nat) as int;
            let doubled = pow2(exp_a as nat) as int;
            lemma_pow2_pos((exp_a - 1) as nat);
            lemma_pow2_unfold(exp_a as nat);
            assert((range + frac_a) * power_a < range * doubled) by (nonlinear_arith)
                requires
                    frac_a < range,
                    power_a > 0,
                    doubled == 2 * power_a,
            ;
            if exp_a < exp_b - 1 {
                lemma_pow2_strictly_increases(exp_a as nat, (exp_b - 1) as nat);
            }
            assert(range * doubled <= range * power_b) by (nonlinear_arith)
                requires
                    range > 0,
                    doubled <= power_b,
            ;
        }
    }
}

/// A key tells which of two scores is the larger number: for scores that
/// are numbers, keys compare exactly as the values do.
pub proof fn lemma_key_orders_as_value(a: u32, b: u32)
    requires
        !is_nan(a),
        !is_nan(b),
    ensures
        similarity_key(a) < similarity_key(b) <==> scaled_value(a) < scaled_value(b),
        similarity_key(a) == similarity_key(b) <==> scaled_value(a) == scaled_value(b),
{
    let zero: u32 = 0;
    assert(scaled_magnitude(zero) == 0);
    if magnitude(a) > 0 {
        lemma_magnitude_grows(zero, a);
    }
    if magnitude(b) > 0 {
        lemma_magnitude_grows(zero, b);
    }
    if magnitude(a) < magnitude(b) {
        lemma_magnitude_grows(a, b);
    }
    if magnitude(b) < magnitude(a) {
        lemma_magnitude_grows(b, a);
    }
}

} // verus!
