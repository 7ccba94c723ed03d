//! The shared total of a trial: what it holds after its workers have
//! contributed, and what it is expected to hold.

use vstd::prelude::*;
use vstd::arithmetic::power2::pow2;
use vstd::arithmetic::power2::lemma_pow2_adds;
use vstd::arithmetic::power2::lemma_pow2_pos;
use vstd::arithmetic::power2::lemma_pow2_unfold;
use vstd::arithmetic::power2::lemma2_to64;
use vstd::arithmetic::power2::lemma2_to64_rest;
use crate::binary64::INFINITY_BITS;
use crate::binary64::HIDDEN_BIT;
use crate::binary64::ZERO_BITS;
use crate::binary64::is_finite;
use crate::binary64::is_negative;
use crate::binary64::magnitude;
use crate::binary64::scale;
use crate::binary64::value;
use crate::binary64::scaled;
use crate::binary64::lemma_compose;
use crate::binary64::lemma_zero_magnitude;
use crate::rounding::rounds_to;
use crate::rounding::round_to_bits;
use crate::rounding::lemma_rounds_down;
use crate::rounding::lemma_rounding_is_unique;
use crate::rounding::lemma_rounds_to_nonnegative;
use crate::partial_sum::PARTIAL_SUM_BITS;
use crate::partial_sum::exact_sum;
use crate::partial_sum::sum_with_partial;
use crate::partial_sum::lemma_partial_sum;
use crate::accumulate::Contribution;

verus! {

/// The largest number of contributions whose sum has a significand below
/// 2^53: 42.0 is 21 times 2, and 21 times this number is the last such
/// product below 2^53. Up to here no addition rounds.
pub const EXACT_CONTRIBUTIONS: u64 = 428_914_250_225_761;

/// The scale at which a significand counts whole numbers: 2^1074 units of
/// 2^-1074 are one.
pub const ONE_SCALE: u64 = 1074;

/// How many patterns the final total may lie from the expected one.
pub const TOLERANCE: u64 = 4;

/// The pattern of a total that started at zero and to which 42.0 was added
/// `contributions` times, one addition after the other.
pub open spec fn total_after(contributions: nat) -> u64
    decreases contributions,
{
    if contributions == 0 {
        ZERO_BITS
    } else {
        sum_with_partial(total_after((contributions - 1) as nat))
    }
}

/// `worker_count` times 42.0 before rounding, in units of 2^-1074.
pub open spec fn exact_product(worker_count: nat) -> int {
    worker_count * value(PARTIAL_SUM_BITS)
}

/// The pattern of `worker_count` times 42.0, rounded to nearest with ties to
/// even.
pub open spec fn expected_total(worker_count: nat) -> u64 {
    choose|r: u64| #[trigger] rounds_to(exact_product(worker_count), r)
}

/// How many patterns lie between two totals, where both are finite and not
/// negative.
pub open spec fn patterns_apart(a: u64, b: u64) -> int {
    if a >= b {
        a - b
    } else {
        b - a
    }
}

/// The final total of a trial is accepted: it is finite, not negative, and
/// at most `TOLERANCE` patterns from the expected one.
pub open spec fn is_accepted_total(total: u64, worker_count: nat) -> bool {
    &&& total < INFINITY_BITS
    &&& patterns_apart(total, expected_total(worker_count)) <= TOLERANCE
}

/// `count` times 42.0 is 42 times `count` whole units, and 21 times `count`
/// units of two.
proof fn lemma_partial_sum_is_42(count: nat)
    ensures
        scaled(42 * count, ONE_SCALE as nat) == count * value(PARTIAL_SUM_BITS),
        scaled(21 * count, (ONE_SCALE + 1) as nat) == count * value(PARTIAL_SUM_BITS),
{
    let one = pow2(1074) as int;
    let two = pow2(1075) as int;
    let unit = pow2(1027) as int;
    lemma_partial_sum();
    lemma2_to64_rest();
    lemma_pow2_adds(47, 1027);
    lemma_pow2_adds(48, 1027);
    assert((42 * count) * one == count * (0x0015_0000_0000_0000 * unit)) by (nonlinear_arith)
        requires
            one == 0x8000_0000_0000 * unit,
    ;
    assert((21 * count) * two == count * (0x0015_0000_0000_0000 * unit)) by (nonlinear_arith)
        requires
            two == 0x1_0000_0000_0000 * unit,
    ;
}

/// A significand that is not yet normal, doubled until it is, names a
/// pattern of the same magnitude.
proof fn lemma_normalized(digits: nat, place: nat, room: nat) -> (q: u64)
    requires
        0 < digits < 2 * HIDDEN_BIT,
        room <= place <= 2045,
        digits * pow2(room) >= HIDDEN_BIT,
    ensures
        q < INFINITY_BITS,
        magnitude(q) == scaled(digits, place),
    decreases room,
{
    if digits >= HIDDEN_BIT {
        lemma_compose(place, digits);
        (place * HIDDEN_BIT + digits) as u64
    } else {
        lemma2_to64();
        assert(room >= 1) by {
            if room == 0 {
                assert(digits * pow2(0) == digits) by (nonlinear_arith)
                    requires
                        pow2(0) == 1,
                ;
            }
        }
        lemma_pow2_unfold(room);
        lemma_pow2_unfold(place);
        let less_room = pow2((room - 1) as nat) as int;
        let lower_place = pow2((place - 1) as nat) as int;
        assert((2 * digits) * less_room == digits * (2 * less_room)) by (nonlinear_arith);
        assert((2 * digits) * lower_place == digits * (2 * lower_place)) by (nonlinear_arith);
        lemma_normalized(2 * digits, (place - 1) as nat, (room - 1) as nat)
    }
}

/// Up to `EXACT_CONTRIBUTIONS`, a number of contributions times 42.0 is a
/// binary64 number.
pub proof fn lemma_product_is_representable(count: nat) -> (q: u64)
    requires
        count <= EXACT_CONTRIBUTIONS,
    ensures
        q < INFINITY_BITS,
        value(q) == exact_product(count),
        rounds_to(exact_product(count), q),
{
    lemma_partial_sum_is_42(count);
    let q = if count == 0 {
        lemma_zero_magnitude(ZERO_BITS);
        assert(exact_product(0) == 0) by (nonlinear_arith)
            requires
                exact_product(0) == 0 * value(PARTIAL_SUM_BITS),
        ;
        ZERO_BITS
    } else {
        lemma2_to64_rest();
        assert((21 * count) * pow2(52) >= HIDDEN_BIT) by (nonlinear_arith)
            requires
                count >= 1,
                pow2(52) == HIDDEN_BIT,
        ;
        lemma_normalized(21 * count, (ONE_SCALE + 1) as nat, 52)
    };
    lemma_pow2_pos(scale(q));
    lemma_rounds_down(q, false, exact_product(count) as nat);
    q
}

/// No contribution is lost and none rounds: after `contributions`
/// additions, in whatever order the workers made them, the total is exactly
/// `contributions` times 42.0, and it is the expected total.
pub proof fn lemma_total_is_exact(contributions: nat)
    requires
        contributions <= EXACT_CONTRIBUTIONS,
    ensures
        is_finite(total_after(contributions)),
        !is_negative(total_after(contributions)),
        value(total_after(contributions)) == exact_product(contributions),
        total_after(contributions) == expected_total(contributions),
    decreases contributions,
{
    let q = lemma_product_is_representable(contributions);
    lemma_rounding_is_unique(exact_product(contributions), q, expected_total(contributions));
    if contributions == 0 {
        assert(exact_product(0) == 0) by (nonlinear_arith)
            requires
                exact_product(0) == 0 * value(PARTIAL_SUM_BITS),
        ;
        lemma_zero_magnitude(q);
    } else {
        let before = total_after((contributions - 1) as nat);
        lemma_total_is_exact((contributions - 1) as nat);
        assert(exact_sum(before) == exact_product(contributions)) by (nonlinear_arith)
            requires
                exact_sum(before) == (contributions - 1) * value(PARTIAL_SUM_BITS) + value(
                    PARTIAL_SUM_BITS,
                ),
                exact_product(contributions) == contributions * value(PARTIAL_SUM_BITS),
        ;
        assert(rounds_to(exact_sum(before), q));
        lemma_rounding_is_unique(exact_sum(before), q, sum_with_partial(before));
    }
}

/// The contributions follow one another: the first found a total of zero,
/// each left the sum of what it found and 42.0, and each but the first found
/// what the one before it left.
pub open spec fn is_chain(trace: Seq<Contribution>) -> bool {
    &&& forall|i: int|
        0 <= i < trace.len() ==> (#[trigger] trace[i]).after == sum_with_partial(trace[i].before)
    &&& trace.len() > 0 ==> trace[0].before == ZERO_BITS
    &&& forall|i: int| 0 < i < trace.len() ==> (#[trigger] trace[i]).before == trace[i - 1].after
}

/// Contributions that follow one another end at the total of their number:
/// none is lost and none counts twice.
pub proof fn lemma_chain_ends_at_total(trace: Seq<Contribution>)
    requires
        is_chain(trace),
        trace.len() > 0,
    ensures
        trace.last().after == total_after(trace.len()),
        trace.len() <= EXACT_CONTRIBUTIONS ==> trace.last().after == expected_total(trace.len()),
    decreases trace.len(),
{
    if trace.len() > 1 {
        let earlier = trace.drop_last();
        assert(forall|i: int| 0 <= i < earlier.len() ==> earlier[i] == trace[i]);
        lemma_chain_ends_at_total(earlier);
        assert(trace.last() == trace[trace.len() - 1]);
        assert(earlier.last() == trace[trace.len() - 2]);
    } else {
        assert(trace.last() == trace[0]);
        assert(total_after(1) == sum_with_partial(total_after(0)));
    }
    if trace.len() <= EXACT_CONTRIBUTIONS {
        lemma_total_is_exact(trace.len());
    }
}

/// The pattern of `worker_count` times 42.0.
pub fn expected_total_bits(worker_count: u64) -> (r: u64)
    ensures
        r == expected_total(worker_count as nat),
        rounds_to(exact_product(worker_count as nat), r),
        r < INFINITY_BITS,
{
    let r: u64 = round_to_bits(false, 42 * (worker_count as u128), ONE_SCALE);
    proof {
        lemma_partial_sum_is_42(worker_count as nat);
        lemma_rounding_is_unique(
            exact_product(worker_count as nat),
            r,
            expected_total(worker_count as nat),
        );
        lemma_rounds_to_nonnegative(exact_product(worker_count as nat), r);
    }
    r
}

/// Whether the total that a trial ended with is the one expected of
/// `worker_count` workers, give or take `TOLERANCE` patterns.
pub fn accepts_total(total: u64, worker_count: u64) -> (r: bool)
    ensures
        r == is_accepted_total(total, worker_count as nat),
{
    let expected: u64 = expected_total_bits(worker_count);
    if total >= INFINITY_BITS {
        false
    } else if total >= expected {
        total - expected <= TOLERANCE
    } else {
        expected - total <= TOLERANCE
    }
}

} // verus!
