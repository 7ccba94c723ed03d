//! Bit patterns of IEEE 754 binary64 numbers, read as exact integers.
//!
//! Every finite binary64 number is an integer multiple of 2^-1074, the
//! smallest positive number of the format. This module reads a bit pattern as
//! that integer, so that sums and distances can be stated without rounding.

use vstd::prelude::*;
use vstd::arithmetic::power2::pow2;
use vstd::arithmetic::power2::lemma_pow2_pos;
use vstd::arithmetic::power2::lemma_pow2_unfold;
use vstd::arithmetic::power2::lemma_pow2_strictly_increases;

verus! {

/// The sign bit, alone.
pub const SIGN_BIT: u64 = 0x8000_0000_0000_0000;

/// The pattern of positive infinity. Magnitudes below it are finite, those
/// above it are NaNs.
pub const INFINITY_BITS: u64 = 0x7ff0_0000_0000_0000;

/// The lowest bit of the exponent field: 2^52, the bit that a normal number's
/// significand carries without storing it.
pub const HIDDEN_BIT: u64 = 0x0010_0000_0000_0000;

/// The highest fraction bit, which marks a NaN as quiet.
pub const QUIET_BIT: u64 = 0x0008_0000_0000_0000;

/// The pattern of positive zero.
pub const ZERO_BITS: u64 = 0;

pub open spec fn is_negative(bits: u64) -> bool {
    bits >= SIGN_BIT
}

/// The pattern with its sign bit cleared.
pub open spec fn magnitude_bits(bits: u64) -> u64 {
    if bits >= SIGN_BIT {
        (bits - SIGN_BIT) as u64
    } else {
        bits
    }
}

pub open spec fn exponent_field(bits: u64) -> nat {
    (magnitude_bits(bits) / HIDDEN_BIT) as nat
}

pub open spec fn fraction_field(bits: u64) -> nat {
    (magnitude_bits(bits) % HIDDEN_BIT) as nat
}

pub open spec fn is_finite(bits: u64) -> bool {
    magnitude_bits(bits) < INFINITY_BITS
}

pub open spec fn is_infinite(bits: u64) -> bool {
    magnitude_bits(bits) == INFINITY_BITS
}

pub open spec fn is_nan(bits: u64) -> bool {
    magnitude_bits(bits) > INFINITY_BITS
}

/// The significand as an integer: the fraction, with the hidden bit on top
/// for a normal number.
pub open spec fn significand(bits: u64) -> nat {
    if exponent_field(bits) == 0 {
        fraction_field(bits)
    } else {
        HIDDEN_BIT as nat + fraction_field(bits)
    }
}

/// The power of two, in units of 2^-1074, that the significand's lowest bit
/// stands for.
pub open spec fn scale(bits: u64) -> nat {
    if exponent_field(bits) == 0 {
        0
    } else {
        (exponent_field(bits) - 1) as nat
    }
}

/// The absolute value of a finite pattern, in units of 2^-1074.
pub open spec fn magnitude(bits: u64) -> nat {
    significand(bits) * pow2(scale(bits))
}

/// The value of a finite pattern, in units of 2^-1074.
pub open spec fn value(bits: u64) -> int {
    if is_negative(bits) {
        -(magnitude(bits) as int)
    } else {
        magnitude(bits) as int
    }
}

/// A magnitude pattern with the sign bit set or left clear.
pub open spec fn with_sign(negative: bool, unsigned: u64) -> u64 {
    if negative {
        (unsigned + SIGN_BIT) as u64
    } else {
        unsigned
    }
}

/// An amount with the sign put before it.
pub open spec fn signed(negative: bool, amount: nat) -> int {
    if negative {
        -(amount as int)
    } else {
        amount as int
    }
}

/// `amount` times 2^`unit`.
pub open spec fn scaled(amount: nat, unit: nat) -> nat {
    amount * pow2(unit)
}

/// The pattern of `magnitude_bits(bits)`, computed.
pub fn clear_sign(bits: u64) -> (r: u64)
    ensures
        r == magnitude_bits(bits),
        r < SIGN_BIT,
{
    if bits >= SIGN_BIT {
        bits - SIGN_BIT
    } else {
        bits
    }
}

/// A pattern put together from a scale and a significand has that magnitude.
pub proof fn lemma_compose(scale_of: nat, significand_of: nat)
    requires
        scale_of <= 2045,
        significand_of < 2 * HIDDEN_BIT,
        scale_of > 0 ==> significand_of >= HIDDEN_BIT,
    ensures
        scale_of * HIDDEN_BIT + significand_of < INFINITY_BITS,
        scale((scale_of * HIDDEN_BIT + significand_of) as u64) == scale_of,
        significand((scale_of * HIDDEN_BIT + significand_of) as u64) == significand_of,
        magnitude((scale_of * HIDDEN_BIT + significand_of) as u64) == significand_of * pow2(scale_of),
{
}

/// A finite pattern without sign is its scale and significand put together.
pub proof fn lemma_decompose(bits: u64)
    requires
        bits < INFINITY_BITS,
    ensures
        bits == scale(bits) * HIDDEN_BIT + significand(bits),
        scale(bits) <= 2045,
        significand(bits) < 2 * HIDDEN_BIT,
        scale(bits) > 0 ==> significand(bits) >= HIDDEN_BIT,
{
}

/// The next pattern is the next number: one unit of the last place further.
pub proof fn lemma_successor(bits: u64)
    requires
        bits + 1 < INFINITY_BITS,
    ensures
        magnitude((bits + 1) as u64) == magnitude(bits) + pow2(scale(bits)),
{
    let next = (bits + 1) as u64;
    let m = significand(bits) as int;
    let p = pow2(scale(bits)) as int;
    lemma_decompose(bits);
    lemma_decompose(next);
    if scale(next) == scale(bits) {
        assert(significand(next) == m + 1);
        assert((m + 1) * p == m * p + p) by (nonlinear_arith);
    } else {
        assert(scale(next) == scale(bits) + 1);
        assert(significand(next) == HIDDEN_BIT);
        assert(m == 2 * HIDDEN_BIT - 1);
        lemma_pow2_unfold(scale(next));
        assert(pow2(scale(next)) == 2 * p);
        assert(HIDDEN_BIT * (2 * p) == m * p + p) by (nonlinear_arith)
            requires
                m == 2 * HIDDEN_BIT - 1,
        ;
    }
}

/// Among finite patterns without sign, a larger pattern is a larger number.
pub proof fn lemma_magnitude_increases(a: u64, b: u64)
    requires
        a < b,
        b < INFINITY_BITS,
    ensures
        magnitude(a) < magnitude(b),
{
    let ma = significand(a) as int;
    let mb = significand(b) as int;
    let pa = pow2(scale(a)) as int;
    let pb = pow2(scale(b)) as int;
    lemma_decompose(a);
    lemma_decompose(b);
    lemma_pow2_pos(scale(a));
    lemma_pow2_pos(scale(b));
    assert(scale(a) <= scale(b));
    if scale(a) == scale(b) {
        assert(ma * pa < mb * pa) by (nonlinear_arith)
            requires
                ma < mb,
                pa > 0,
        ;
    } else {
        let up = pow2(scale(a) + 1) as int;
        lemma_pow2_unfold(scale(a) + 1);
        assert(up == 2 * pa);
        if scale(a) + 1 < scale(b) {
            lemma_pow2_strictly_increases(scale(a) + 1, scale(b));
        }
        assert(up <= pb);
        assert(ma * pa < mb * pb) by (nonlinear_arith)
            requires
                0 <= ma < 2 * HIDDEN_BIT,
                mb >= HIDDEN_BIT,
                pa > 0,
                2 * pa <= pb,
        ;
    }
}

/// Among finite patterns without sign, the order of the patterns is the order
/// of the numbers.
pub proof fn lemma_magnitude_order(a: u64, b: u64)
    requires
        a < INFINITY_BITS,
        b < INFINITY_BITS,
    ensures
        a <= b <==> magnitude(a) <= magnitude(b),
        a == b <==> magnitude(a) == magnitude(b),
{
    if a < b {
        lemma_magnitude_increases(a, b);
    }
    if b < a {
        lemma_magnitude_increases(b, a);
    }
}

/// Zero is the one finite pattern without sign whose magnitude is zero.
pub proof fn lemma_zero_magnitude(bits: u64)
    requires
        bits < INFINITY_BITS,
    ensures
        magnitude(ZERO_BITS) == 0,
        magnitude(bits) == 0 <==> bits == ZERO_BITS,
{
    assert(significand(ZERO_BITS) == 0);
    assert(magnitude(ZERO_BITS) == 0) by (nonlinear_arith)
        requires
            magnitude(ZERO_BITS) == significand(ZERO_BITS) * pow2(scale(ZERO_BITS)),
            significand(ZERO_BITS) == 0,
    ;
    lemma_magnitude_order(ZERO_BITS, bits);
}

/// The sign bit changes the sign of the value and nothing else.
pub proof fn lemma_sign_split(bits: u64)
    ensures
        magnitude_bits(bits) < SIGN_BIT,
        magnitude(bits) == magnitude(magnitude_bits(bits)),
        scale(bits) == scale(magnitude_bits(bits)),
        significand(bits) == significand(magnitude_bits(bits)),
        is_finite(bits) == is_finite(magnitude_bits(bits)),
        bits % 2 == magnitude_bits(bits) % 2,
{
}

} // verus!
