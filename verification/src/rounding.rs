//! Rounding an exact amount to the nearest binary64 number, ties to even.

use vstd::prelude::*;
use vstd::arithmetic::power2::pow2;
use vstd::arithmetic::power2::lemma_pow2_pos;
use vstd::arithmetic::power2::lemma_pow2_adds;
use vstd::arithmetic::power2::lemma_pow2_unfold;
use vstd::arithmetic::power2::lemma_pow2_strictly_increases;
use vstd::arithmetic::power2::lemma2_to64;
use vstd::arithmetic::power2::lemma2_to64_rest;
use crate::binary64::SIGN_BIT;
use crate::binary64::INFINITY_BITS;
use crate::binary64::HIDDEN_BIT;
use crate::binary64::ZERO_BITS;
use crate::binary64::is_finite;
use crate::binary64::is_negative;
use crate::binary64::magnitude_bits;
use crate::binary64::magnitude;
use crate::binary64::scale;
use crate::binary64::value;
use crate::binary64::with_sign;
use crate::binary64::signed;
use crate::binary64::scaled;
use crate::binary64::lemma_compose;
use crate::binary64::lemma_successor;
use crate::binary64::lemma_magnitude_order;
use crate::binary64::lemma_sign_split;
use crate::binary64::lemma_zero_magnitude;

verus! {

/// The smallest unit exponent that `round_to_bits` takes: an amount of one
/// is then still a normal number.
pub const MIN_UNIT: u64 = 52;

/// The largest unit exponent that `round_to_bits` takes: no amount of 128
/// bits then reaches infinity.
pub const MAX_UNIT: u64 = 1900;

/// How far a finite pattern's value lies from an exact amount, both in units
/// of 2^-1074.
pub open spec fn distance(bits: u64, exact: int) -> int {
    if value(bits) >= exact {
        value(bits) - exact
    } else {
        exact - value(bits)
    }
}

/// `r` is the pattern that IEEE 754 addition returns for the exact result
/// `exact`, rounding to nearest with ties to even, where that result is
/// within the range of the finite numbers: no finite number lies nearer, of
/// two equally near ones it is the one with an even significand, and a zero
/// is the positive zero.
pub open spec fn rounds_to(exact: int, r: u64) -> bool {
    &&& is_finite(r)
    &&& forall|q: u64| is_finite(q) ==> distance(r, exact) <= #[trigger] distance(q, exact)
    &&& forall|q: u64|
        is_finite(q) && value(q) != value(r) && #[trigger] distance(q, exact) == distance(r, exact)
            ==> r % 2 == 0
    &&& value(r) == 0 ==> r == ZERO_BITS
}

/// An amount that lies at most half a unit of the last place above a number
/// rounds down to it.
pub proof fn lemma_rounds_down(lower: u64, negative: bool, amount: nat)
    requires
        lower < INFINITY_BITS,
        magnitude(lower) <= amount,
        2 * (amount - magnitude(lower)) <= pow2(scale(lower)),
        2 * (amount - magnitude(lower)) == pow2(scale(lower)) ==> lower % 2 == 0,
        lower == 0 ==> !negative,
    ensures
        rounds_to(signed(negative, amount), with_sign(negative, lower)),
{
    let r = with_sign(negative, lower);
    let exact = signed(negative, amount);
    let gap = amount - magnitude(lower);
    lemma_sign_split(r);
    assert(magnitude_bits(r) == lower);
    assert(is_negative(r) == negative);
    assert(distance(r, exact) == gap);
    lemma_pow2_pos(scale(lower));
    assert forall|q: u64| is_finite(q) implies gap <= #[trigger] distance(q, exact) && (value(q)
        != value(r) && distance(q, exact) == gap ==> r % 2 == 0) by {
        let qa = magnitude_bits(q);
        lemma_sign_split(q);
        lemma_magnitude_order(qa, lower);
        if qa > lower {
            lemma_successor(lower);
            lemma_magnitude_order((lower + 1) as u64, qa);
        }
    }
    lemma_zero_magnitude(lower);
}

/// An amount that lies at most half a unit of the last place below the next
/// number rounds up to it.
pub proof fn lemma_rounds_up(lower: u64, negative: bool, amount: nat)
    requires
        lower + 1 < INFINITY_BITS,
        amount <= magnitude((lower + 1) as u64),
        2 * (magnitude((lower + 1) as u64) - amount) <= pow2(scale(lower)),
        2 * (magnitude((lower + 1) as u64) - amount) == pow2(scale(lower)) ==> (lower + 1) % 2
            == 0,
    ensures
        rounds_to(signed(negative, amount), with_sign(negative, (lower + 1) as u64)),
{
    let upper = (lower + 1) as u64;
    let r = with_sign(negative, upper);
    let exact = signed(negative, amount);
    let gap = magnitude(upper) - amount;
    lemma_sign_split(r);
    assert(magnitude_bits(r) == upper);
    assert(is_negative(r) == negative);
    assert(distance(r, exact) == gap);
    lemma_pow2_pos(scale(lower));
    lemma_successor(lower);
    lemma_zero_magnitude(lower);
    lemma_zero_magnitude(upper);
    lemma2_to64();
    assert forall|q: u64| is_finite(q) implies gap <= #[trigger] distance(q, exact) && (value(q)
        != value(r) && distance(q, exact) == gap ==> r % 2 == 0) by {
        let qa = magnitude_bits(q);
        lemma_sign_split(q);
        lemma_magnitude_order(qa, lower);
        lemma_magnitude_order(upper, qa);
    }
}

/// Of two roundings of one amount, the second is not the larger number:
/// were it larger, a finite number between the two would lie nearer, or the
/// two would be neighbours, one of them odd.
proof fn lemma_rounding_not_above(exact: int, lo: u64, hi: u64)
    requires
        rounds_to(exact, lo),
        rounds_to(exact, hi),
    ensures
        value(hi) <= value(lo),
{
    if value(lo) < value(hi) {
        let gap = distance(lo, exact);
        assert(distance(lo, exact) <= distance(hi, exact));
        assert(distance(hi, exact) <= distance(lo, exact));
        assert(lo % 2 == 0);
        assert(hi % 2 == 0);
        let mlo = magnitude_bits(lo);
        let mhi = magnitude_bits(hi);
        lemma_sign_split(lo);
        lemma_sign_split(hi);
        lemma_magnitude_order(mlo, mhi);
        lemma_zero_magnitude(mlo);
        lemma_zero_magnitude(mhi);
        if !is_negative(lo) {
            let q = (mlo + 1) as u64;
            assert(!is_negative(hi));
            assert(mlo < mhi);
            if q < mhi {
                lemma_sign_split(q);
                lemma_magnitude_order(mlo, q);
                lemma_magnitude_order(q, mhi);
                assert(distance(q, exact) < gap);
            }
        } else {
            assert(mlo >= 1);
            let below = (mlo - 1) as u64;
            let q = with_sign(below > 0, below);
            lemma_sign_split(q);
            assert(magnitude_bits(q) == below);
            lemma_magnitude_order(below, mlo);
            lemma_zero_magnitude(below);
            if is_negative(hi) {
                assert(mhi < mlo);
                if mhi < below {
                    lemma_magnitude_order(mhi, below);
                    assert(distance(q, exact) < gap);
                }
            } else {
                if below > 0 {
                    assert(distance(q, exact) < gap);
                }
            }
        }
    }
}

/// Rounding pins its result: an exact amount rounds to one pattern only.
pub proof fn lemma_rounding_is_unique(exact: int, a: u64, b: u64)
    requires
        rounds_to(exact, a),
        rounds_to(exact, b),
    ensures
        a == b,
{
    lemma_rounding_not_above(exact, a, b);
    lemma_rounding_not_above(exact, b, a);
    lemma_sign_split(a);
    lemma_sign_split(b);
    lemma_magnitude_order(magnitude_bits(a), magnitude_bits(b));
}

/// An amount that is not negative rounds to a pattern without sign.
pub proof fn lemma_rounds_to_nonnegative(exact: int, r: u64)
    requires
        rounds_to(exact, r),
        exact >= 0,
    ensures
        r < INFINITY_BITS,
{
    if is_negative(r) {
        lemma_zero_magnitude(ZERO_BITS);
        assert(distance(r, exact) <= distance(ZERO_BITS, exact));
    }
}

/// 2^52, the least normal significand.
const HIDDEN_WIDE: u128 = 0x0010_0000_0000_0000;

/// 2^53, above every significand.
const SIGNIFICAND_LIMIT: u128 = 0x0020_0000_0000_0000;

proof fn lemma_pow2_75()
    ensures
        pow2(52) == 0x0010_0000_0000_0000,
        pow2(75) == 0x0800_0000_0000_0000_0000,
{
    lemma2_to64();
    lemma2_to64_rest();
    lemma_pow2_adds(64, 11);
}

/// The pattern nearest to `amount` times 2^`unit`, in units of 2^-1074, with
/// the sign asked for: what an exact sum of that size rounds to.
pub fn round_to_bits(negative: bool, amount: u128, unit: u64) -> (r: u64)
    requires
        MIN_UNIT <= unit <= MAX_UNIT,
    ensures
        rounds_to(signed(negative, scaled(amount as nat, unit as nat)), r),
{
    let ghost whole: nat = scaled(amount as nat, unit as nat);
    proof {
        lemma_pow2_75();
        lemma_pow2_pos(unit as nat);
    }
    if amount == 0 {
        proof {
            assert(whole == 0) by (nonlinear_arith)
                requires
                    whole == amount as nat * pow2(unit as nat),
                    amount == 0,
            ;
            lemma_zero_magnitude(ZERO_BITS);
            lemma_rounds_down(ZERO_BITS, false, 0);
        }
        return ZERO_BITS;
    }
    // Halve until the significand fits, and keep what falls off the end.
    let mut kept: u128 = amount;
    let mut dropped: u128 = 0;
    let mut weight: u128 = 1;
    let mut place: u64 = unit;
    proof {
        lemma2_to64();
    }
    while kept >= SIGNIFICAND_LIMIT
        invariant
            MIN_UNIT <= unit <= MAX_UNIT,
            amount == kept * weight + dropped,
            dropped < weight,
            weight == pow2((place - unit) as nat),
            unit <= place <= unit + 75,
            kept > 0,
            weight > 1 ==> kept >= HIDDEN_WIDE,
            weight <= 0x1000_0000_0000_0000_0000,
            pow2(75) == 0x0800_0000_0000_0000_0000,
        decreases kept,
    {
        proof {
            assert(weight * SIGNIFICAND_LIMIT <= kept * weight) by (nonlinear_arith)
                requires
                    kept >= SIGNIFICAND_LIMIT,
                    weight >= 0,
            ;
            assert(weight < 0x0800_0000_0000_0000_0000);
            if place - unit >= 75 {
                if place - unit > 75 {
                    lemma_pow2_strictly_increases(75, (place - unit) as nat);
                }
            }
            lemma_pow2_unfold((place + 1 - unit) as nat);
            let half = kept / 2;
            let odd = kept % 2;
            assert(kept * weight == half * (weight * 2) + (if odd == 1 {
                weight as int
            } else {
                0
            })) by (nonlinear_arith)
                requires
                    kept == half * 2 + odd,
                    odd == 0 || odd == 1,
            ;
        }
        if kept % 2 == 1 {
            dropped = dropped + weight;
        }
        kept = kept / 2;
        weight = weight * 2;
        place = place + 1;
    }
    if weight == 1 {
        // Nothing fell off, the amount is a number as it stands: double the
        // significand until it is normal.
        let ghost mut doublings: nat = 0;
        assert(place == unit) by {
            if place > unit {
                lemma_pow2_strictly_increases(0, (place - unit) as nat);
            }
        }
        proof {
            lemma2_to64();
            assert(kept == amount * pow2(0)) by (nonlinear_arith)
                requires
                    amount == kept * weight + dropped,
                    weight == 1,
                    dropped == 0,
                    pow2(0) == 1,
            ;
        }
        while kept < HIDDEN_WIDE
            invariant
                MIN_UNIT <= unit <= MAX_UNIT,
                amount >= 1,
                kept > 0,
                kept == amount * pow2(doublings),
                place + doublings == unit,
                kept < SIGNIFICAND_LIMIT,
                pow2(52) == 0x0010_0000_0000_0000,
            decreases 52 - doublings,
        {
            proof {
                lemma_pow2_pos(doublings);
                assert(kept >= pow2(doublings)) by (nonlinear_arith)
                    requires
                        kept == amount * pow2(doublings),
                        amount >= 1,
                ;
                if doublings >= 52 {
                    if doublings > 52 {
                        lemma_pow2_strictly_increases(52, doublings);
                    }
                }
                assert(doublings < 52);
                lemma_pow2_unfold(doublings + 1);
                assert(kept * 2 == amount * pow2(doublings + 1)) by (nonlinear_arith)
                    requires
                        kept == amount * pow2(doublings),
                        pow2(doublings + 1) == 2 * pow2(doublings),
                ;
                doublings = doublings + 1;
            }
            kept = kept * 2;
            place = place - 1;
        }
        let exact_bits: u64 = place * HIDDEN_BIT + (kept as u64);
        proof {
            lemma_compose(place as nat, kept as nat);
            lemma_pow2_adds(doublings, place as nat);
            assert(kept * pow2(place as nat) == whole) by (nonlinear_arith)
                requires
                    kept == amount * pow2(doublings),
                    pow2(unit as nat) == pow2(doublings) * pow2(place as nat),
                    whole == amount as nat * pow2(unit as nat),
            ;
            lemma_pow2_pos(place as nat);
            lemma_rounds_down(exact_bits, negative, whole);
        }
        return if negative {
            exact_bits + SIGN_BIT
        } else {
            exact_bits
        };
    }
    // The amount lies between the number of the kept digits and the next:
    // what fell off, against half the weight of the last place, says which.
    let lower: u64 = place * HIDDEN_BIT + (kept as u64);
    let twice: u128 = 2 * dropped;
    proof {
        let pu = pow2(unit as nat) as int;
        let pp = pow2(place as nat) as int;
        lemma_compose(place as nat, kept as nat);
        lemma_pow2_adds((place - unit) as nat, unit as nat);
        assert(pp == weight * pu);
        assert(whole == kept * pp + dropped * pu) by (nonlinear_arith)
            requires
                whole == amount * pu,
                amount == kept * weight + dropped,
                pp == weight * pu,
        ;
        assert(2 * (dropped * pu) == twice * pu) by (nonlinear_arith)
            requires
                twice == 2 * dropped,
        ;
        assert(2 * (pp - dropped * pu) == (2 * weight - twice) * pu) by (nonlinear_arith)
            requires
                twice == 2 * dropped,
                pp == weight * pu,
        ;
        assert(twice <= weight ==> twice * pu <= weight * pu) by (nonlinear_arith)
            requires
                pu > 0,
        ;
        assert(twice * pu == weight * pu ==> twice == weight) by (nonlinear_arith)
            requires
                pu > 0,
        ;
        assert(twice >= weight ==> (2 * weight - twice) * pu <= weight * pu) by (nonlinear_arith)
            requires
                pu > 0,
        ;
        assert((2 * weight - twice) * pu == weight * pu ==> twice == weight) by (nonlinear_arith)
            requires
                pu > 0,
        ;
        assert(dropped * pu >= 0 && dropped * pu <= pp) by (nonlinear_arith)
            requires
                pu > 0,
                0 <= dropped < weight,
                pp == weight * pu,
        ;
    }
    let rounded: u64 = if twice < weight || (twice == weight && kept % 2 == 0) {
        proof {
            lemma_rounds_down(lower, negative, whole);
        }
        lower
    } else {
        proof {
            lemma_successor(lower);
            lemma_rounds_up(lower, negative, whole);
        }
        lower + 1
    };
    if negative {
        rounded + SIGN_BIT
    } else {
        rounded
    }
}

} // verus!
