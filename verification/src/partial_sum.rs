//! Adding the fixed partial sum, 42.0, to a total that is held as a bit
//! pattern.

use vstd::prelude::*;
use vstd::arithmetic::power2::pow2;
use vstd::arithmetic::power2::lemma_pow2_pos;
use vstd::arithmetic::power2::lemma_pow2_adds;
use vstd::arithmetic::power2::lemma_pow2_unfold;
use vstd::arithmetic::power2::lemma_pow2_strictly_increases;
use vstd::arithmetic::power2::lemma2_to64;
use vstd::arithmetic::power2::lemma2_to64_rest;
use crate::binary64::SIGN_BIT;
use crate::binary64::INFINITY_BITS;
use crate::binary64::HIDDEN_BIT;
use crate::binary64::QUIET_BIT;
use crate::binary64::is_finite;
use crate::binary64::is_infinite;
use crate::binary64::is_nan;
use crate::binary64::is_negative;
use crate::binary64::exponent_field;
use crate::binary64::magnitude_bits;
use crate::binary64::magnitude;
use crate::binary64::scale;
use crate::binary64::significand;
use crate::binary64::value;
use crate::binary64::with_sign;
use crate::binary64::scaled;
use crate::binary64::clear_sign;
use crate::binary64::lemma_decompose;
use crate::binary64::lemma_successor;
use crate::binary64::lemma_sign_split;
use crate::rounding::rounds_to;
use crate::rounding::round_to_bits;
use crate::rounding::lemma_rounds_down;
use crate::rounding::lemma_rounds_up;
use crate::rounding::lemma_rounding_is_unique;

verus! {

/// The pattern of 42.0, the partial sum that every worker contributes.
pub const PARTIAL_SUM_BITS: u64 = 0x4045_0000_0000_0000;

/// The significand of 42.0: 21 times 2^48.
pub const PARTIAL_SIGNIFICAND: u128 = 0x0015_0000_0000_0000;

/// The scale of 42.0: its significand counts units of 2^1027 times 2^-1074.
pub const PARTIAL_SCALE: u64 = 1027;

/// A total with an exponent field below this one is less than half a unit
/// of 42.0's last place: the sum is 42.0.
pub const NEGLIGIBLE_BELOW: u64 = 975;

/// To a total with an exponent field above this one, 42.0 is less than a
/// quarter of a unit of the last place: the sum is the total.
pub const DOMINANT_ABOVE: u64 = 1082;

/// A NaN with its quiet bit set, payload and sign kept.
pub open spec fn quieted(bits: u64) -> u64 {
    if (bits / QUIET_BIT) % 2 == 0 {
        (bits + QUIET_BIT) as u64
    } else {
        bits
    }
}

/// The sum of a finite number and 42.0 before rounding, in units of 2^-1074.
pub open spec fn exact_sum(bits: u64) -> int {
    value(bits) + value(PARTIAL_SUM_BITS)
}

/// The pattern of the binary64 sum of the number that `bits` holds and 42.0.
///
/// A NaN stays that NaN, made quiet; an infinity stays; a finite number
/// gives the exact sum, rounded to nearest with ties to even.
pub open spec fn sum_with_partial(bits: u64) -> u64 {
    if is_nan(bits) {
        quieted(bits)
    } else if is_infinite(bits) {
        bits
    } else {
        choose|r: u64| #[trigger] rounds_to(exact_sum(bits), r)
    }
}

/// What the pattern of 42.0 holds.
pub proof fn lemma_partial_sum()
    ensures
        is_finite(PARTIAL_SUM_BITS),
        !is_negative(PARTIAL_SUM_BITS),
        scale(PARTIAL_SUM_BITS) == PARTIAL_SCALE,
        significand(PARTIAL_SUM_BITS) == PARTIAL_SIGNIFICAND,
        magnitude(PARTIAL_SUM_BITS) == scaled(PARTIAL_SIGNIFICAND as nat, PARTIAL_SCALE as nat),
        value(PARTIAL_SUM_BITS) == magnitude(PARTIAL_SUM_BITS),
        scale((PARTIAL_SUM_BITS - 1) as u64) == PARTIAL_SCALE,
{
}

/// A total too small to move 42.0 by half a unit of its last place.
proof fn lemma_negligible(bits: u64)
    requires
        is_finite(bits),
        exponent_field(bits) < NEGLIGIBLE_BELOW,
    ensures
        rounds_to(exact_sum(bits), PARTIAL_SUM_BITS),
{
    let m = significand(bits) as int;
    let p = pow2(scale(bits)) as int;
    let top = pow2(973) as int;
    let unit = pow2(1027) as int;
    let small = magnitude(bits) as int;
    let c = magnitude(PARTIAL_SUM_BITS) as int;
    lemma_sign_split(bits);
    lemma_decompose(magnitude_bits(bits));
    lemma_partial_sum();
    lemma_pow2_pos(scale(bits));
    if scale(bits) < 973 {
        lemma_pow2_strictly_increases(scale(bits), 973);
    }
    lemma2_to64_rest();
    lemma_pow2_adds(53, 973);
    lemma_pow2_unfold(1027);
    assert(small < 0x0020_0000_0000_0000 * top) by (nonlinear_arith)
        requires
            small == m * p,
            0 <= m < 0x0020_0000_0000_0000,
            0 < p <= top,
    ;
    assert(2 * small < unit);
    assert(c >= unit) by (nonlinear_arith)
        requires
            c == 0x0015_0000_0000_0000 * unit,
            unit > 0,
    ;
    if is_negative(bits) {
        lemma_successor((PARTIAL_SUM_BITS - 1) as u64);
        lemma_rounds_up((PARTIAL_SUM_BITS - 1) as u64, false, (c - small) as nat);
    } else {
        lemma_rounds_down(PARTIAL_SUM_BITS, false, (c + small) as nat);
    }
}

/// A total so large that 42.0 is less than a quarter of a unit of its last
/// place.
proof fn lemma_dominant(bits: u64)
    requires
        is_finite(bits),
        exponent_field(bits) > DOMINANT_ABOVE,
    ensures
        rounds_to(exact_sum(bits), bits),
{
    let unsigned = magnitude_bits(bits);
    let m = significand(bits) as int;
    let p = pow2(scale(bits)) as int;
    let big = magnitude(bits) as int;
    let c = magnitude(PARTIAL_SUM_BITS) as int;
    let unit = pow2(1027) as int;
    let quarter = pow2(1080) as int;
    lemma_sign_split(bits);
    lemma_decompose(unsigned);
    lemma_partial_sum();
    lemma2_to64_rest();
    lemma_pow2_pos(1027);
    lemma_pow2_adds(53, 1027);
    lemma_pow2_unfold(1081);
    assert(c < quarter) by (nonlinear_arith)
        requires
            c == 0x0015_0000_0000_0000 * unit,
            quarter == 0x0020_0000_0000_0000 * unit,
            unit > 0,
    ;
    if is_negative(bits) {
        let below = (unsigned - 1) as u64;
        lemma_decompose(below);
        assert(scale(below) >= 1081);
        if scale(below) > 1081 {
            lemma_pow2_strictly_increases(1081, scale(below));
        }
        lemma_pow2_unfold(scale(bits));
        if scale(bits) - 1 > 1081 {
            lemma_pow2_strictly_increases(1081, (scale(bits) - 1) as nat);
        }
        assert(big >= p) by (nonlinear_arith)
            requires
                big == m * p,
                m >= 1,
                p >= 0,
        ;
        lemma_successor(below);
        lemma_rounds_up(below, true, (big - c) as nat);
    } else {
        if scale(bits) > 1081 {
            lemma_pow2_strictly_increases(1081, scale(bits));
        }
        lemma_rounds_down(unsigned, false, (big + c) as nat);
    }
}

/// `digits` times 2^`by`.
fn shift_up(digits: u128, by: u64) -> (r: u128)
    requires
        digits < 0x0020_0000_0000_0000,
        by <= 64,
    ensures
        r == digits * pow2(by as nat),
        r <= digits * 0x1_0000_0000_0000_0000,
{
    let mut r: u128 = digits;
    let mut done: u64 = 0;
    proof {
        lemma2_to64();
    }
    while done < by
        invariant
            done <= by <= 64,
            digits < 0x0020_0000_0000_0000,
            r == digits * pow2(done as nat),
            pow2(64) == 0x1_0000_0000_0000_0000,
        decreases by - done,
    {
        proof {
            if done + 1 < 64 {
                lemma_pow2_strictly_increases((done + 1) as nat, 64);
            }
            lemma_pow2_unfold((done + 1) as nat);
            let p = pow2(done as nat) as int;
            assert(r * 2 == digits * (2 * p) && r * 2 <= digits * 0x1_0000_0000_0000_0000)
                by (nonlinear_arith)
                requires
                    r == digits * p,
                    0 <= 2 * p <= 0x1_0000_0000_0000_0000,
                    digits >= 0,
            ;
        }
        r = r * 2;
        done = done + 1;
    }
    proof {
        let p = pow2(by as nat) as int;
        if by < 64 {
            lemma_pow2_strictly_increases(by as nat, 64);
        }
        assert(digits * p <= digits * 0x1_0000_0000_0000_0000) by (nonlinear_arith)
            requires
                0 <= p <= 0x1_0000_0000_0000_0000,
                digits >= 0,
        ;
    }
    r
}

/// The sum of 42.0 and a total near enough to it that both take part in the
/// result: the exact sum, rounded.
fn add_in_range(negative: bool, unsigned: u64) -> (r: u64)
    requires
        unsigned < INFINITY_BITS,
        NEGLIGIBLE_BELOW <= exponent_field(unsigned) <= DOMINANT_ABOVE,
    ensures
        rounds_to(exact_sum(with_sign(negative, unsigned)), r),
{
    let place: u64 = unsigned / HIDDEN_BIT - 1;
    let digits: u128 = (unsigned % HIDDEN_BIT + HIDDEN_BIT) as u128;
    let ghost unit = pow2(PARTIAL_SCALE as nat) as int;
    let ghost here = pow2(place as nat) as int;
    let ghost big = magnitude(unsigned) as int;
    let ghost c = magnitude(PARTIAL_SUM_BITS) as int;
    proof {
        lemma_decompose(unsigned);
        lemma_partial_sum();
        lemma_sign_split(with_sign(negative, unsigned));
        assert(magnitude_bits(with_sign(negative, unsigned)) == unsigned);
        assert(is_negative(with_sign(negative, unsigned)) == negative);
        assert(big == digits * here);
        assert(c == PARTIAL_SIGNIFICAND * unit);
        lemma_pow2_pos(place as nat);
        lemma_pow2_pos(PARTIAL_SCALE as nat);
    }
    if place >= PARTIAL_SCALE {
        let wide: u128 = shift_up(digits, place - PARTIAL_SCALE);
        proof {
            let lift = pow2((place - PARTIAL_SCALE) as nat) as int;
            lemma_pow2_adds((place - PARTIAL_SCALE) as nat, PARTIAL_SCALE as nat);
            assert(wide * unit == big) by (nonlinear_arith)
                requires
                    wide == digits * lift,
                    here == lift * unit,
                    big == digits * here,
            ;
            assert((wide + PARTIAL_SIGNIFICAND) * unit == big + c && (wide - PARTIAL_SIGNIFICAND)
                * unit == big - c && (PARTIAL_SIGNIFICAND - wide) * unit == c - big)
                by (nonlinear_arith)
                requires
                    wide * unit == big,
                    c == PARTIAL_SIGNIFICAND * unit,
            ;
        }
        if !negative {
            round_to_bits(false, wide + PARTIAL_SIGNIFICAND, PARTIAL_SCALE)
        } else if wide >= PARTIAL_SIGNIFICAND {
            round_to_bits(true, wide - PARTIAL_SIGNIFICAND, PARTIAL_SCALE)
        } else {
            round_to_bits(false, PARTIAL_SIGNIFICAND - wide, PARTIAL_SCALE)
        }
    } else {
        let wide: u128 = shift_up(PARTIAL_SIGNIFICAND, PARTIAL_SCALE - place);
        proof {
            let lift = pow2((PARTIAL_SCALE - place) as nat) as int;
            lemma_pow2_adds((PARTIAL_SCALE - place) as nat, place as nat);
            lemma2_to64();
            lemma_pow2_strictly_increases(0, (PARTIAL_SCALE - place) as nat);
            assert(wide >= 2 * PARTIAL_SIGNIFICAND) by (nonlinear_arith)
                requires
                    wide == PARTIAL_SIGNIFICAND * lift,
                    lift >= 2,
            ;
            assert(wide * here == c) by (nonlinear_arith)
                requires
                    wide == PARTIAL_SIGNIFICAND * lift,
                    unit == lift * here,
                    c == PARTIAL_SIGNIFICAND * unit,
            ;
            assert((wide + digits) * here == c + big && (wide - digits) * here == c - big)
                by (nonlinear_arith)
                requires
                    wide * here == c,
                    big == digits * here,
            ;
        }
        if negative {
            round_to_bits(false, wide - digits, place)
        } else {
            round_to_bits(false, wide + digits, place)
        }
    }
}

/// Adds 42.0 to the number that `bits` holds, as binary64 addition does, and
/// returns the sum's pattern.
pub fn add_partial_sum(bits: u64) -> (r: u64)
    ensures
        r == sum_with_partial(bits),
        is_finite(bits) ==> rounds_to(exact_sum(bits), r),
        is_nan(bits) ==> is_nan(r),
{
    let negative = bits >= SIGN_BIT;
    let unsigned: u64 = clear_sign(bits);
    if unsigned > INFINITY_BITS {
        return if (bits / QUIET_BIT) % 2 == 0 {
            bits + QUIET_BIT
        } else {
            bits
        };
    }
    if unsigned == INFINITY_BITS {
        return bits;
    }
    let exponent: u64 = unsigned / HIDDEN_BIT;
    let r: u64 = if exponent < NEGLIGIBLE_BELOW {
        proof {
            lemma_negligible(bits);
        }
        PARTIAL_SUM_BITS
    } else if exponent > DOMINANT_ABOVE {
        proof {
            lemma_dominant(bits);
        }
        bits
    } else {
        add_in_range(negative, unsigned)
    };
    proof {
        assert(with_sign(negative, unsigned) == bits);
        lemma_rounding_is_unique(exact_sum(bits), r, sum_with_partial(bits));
    }
    r
}

} // verus!
