use shared_sum::binary64::clear_sign;
use shared_sum::binary64::INFINITY_BITS;
use shared_sum::binary64::SIGN_BIT;
use shared_sum::binary64::ZERO_BITS;
use shared_sum::partial_sum::add_partial_sum;
use shared_sum::partial_sum::PARTIAL_SUM_BITS;
use shared_sum::rounding::round_to_bits;
use shared_sum::total::accepts_total;
use shared_sum::total::expected_total_bits;
use shared_sum::total::EXACT_CONTRIBUTIONS;

fn hardware_sum(bits: u64) -> u64 {
    (f64::from_bits(bits) + 42.0).to_bits()
}

fn next_pattern(state: &mut u64) -> u64 {
    *state = state
        .wrapping_mul(6364136223846793005)
        .wrapping_add(1442695040888963407);
    let high = *state >> 11;
    *state = state
        .wrapping_mul(6364136223846793005)
        .wrapping_add(1442695040888963407);
    (high << 32) ^ (*state >> 16)
}

fn is_nan_pattern(bits: u64) -> bool {
    clear_sign(bits) > INFINITY_BITS
}

#[test]
fn partial_sum_is_forty_two() {
    assert_eq!(PARTIAL_SUM_BITS, 42.0f64.to_bits());
    assert_eq!(ZERO_BITS, 0.0f64.to_bits());
    assert_eq!(INFINITY_BITS, f64::INFINITY.to_bits());
    assert_eq!(SIGN_BIT, (-0.0f64).to_bits());
}

#[test]
fn clear_sign_drops_only_the_sign() {
    assert_eq!(clear_sign((-42.0f64).to_bits()), 42.0f64.to_bits());
    assert_eq!(clear_sign(42.0f64.to_bits()), 42.0f64.to_bits());
    assert_eq!(clear_sign(SIGN_BIT), 0);
    assert_eq!(clear_sign(u64::MAX), u64::MAX >> 1);
}

#[test]
fn zero_plus_partial_sum() {
    assert_eq!(add_partial_sum(ZERO_BITS), 0x4045_0000_0000_0000);
    assert_eq!(add_partial_sum(SIGN_BIT), 0x4045_0000_0000_0000);
}

#[test]
fn partial_sum_twice_is_eighty_four() {
    assert_eq!(add_partial_sum(PARTIAL_SUM_BITS), 84.0f64.to_bits());
    assert_eq!(add_partial_sum(PARTIAL_SUM_BITS), 0x4055_0000_0000_0000);
}

#[test]
fn minus_partial_sum_cancels_to_positive_zero() {
    assert_eq!(add_partial_sum((-42.0f64).to_bits()), ZERO_BITS);
}

#[test]
fn infinities_stay() {
    assert_eq!(add_partial_sum(f64::INFINITY.to_bits()), f64::INFINITY.to_bits());
    assert_eq!(
        add_partial_sum(f64::NEG_INFINITY.to_bits()),
        f64::NEG_INFINITY.to_bits()
    );
}

#[test]
fn nan_stays_nan_and_turns_quiet() {
    let signalling: u64 = 0x7ff0_0000_0000_0001;
    assert_eq!(add_partial_sum(signalling), 0x7ff8_0000_0000_0001);
    assert_eq!(add_partial_sum(0xfff0_0000_0000_0123), 0xfff8_0000_0000_0123);
    assert_eq!(add_partial_sum(0x7ff8_0000_0000_0000), 0x7ff8_0000_0000_0000);
    assert_eq!(add_partial_sum(u64::MAX), u64::MAX);
    assert!(f64::from_bits(add_partial_sum(f64::NAN.to_bits())).is_nan());
}

#[test]
fn sum_agrees_with_hardware_on_named_values() {
    let values: [f64; 40] = [
        0.0, -0.0, 1.0, -1.0, 42.0, -42.0, 41.999999999999993, -41.999999999999993,
        42.000000000000007, -42.000000000000007, 0.5, 0.1, -0.1, 1e-300, -1e-300, 1e300,
        -1e300, f64::MAX, f64::MIN, f64::MIN_POSITIVE, -f64::MIN_POSITIVE, f64::EPSILON,
        5e-324, -5e-324, 3.5527136788005009e-15, -3.5527136788005009e-15,
        7.1054273576010019e-15, -7.1054273576010019e-15, 1.0658141036401503e-14,
        9007199254740992.0, -9007199254740992.0, 9007199254740950.0, 1.8014398509481984e16,
        -1.8014398509481984e16, 1.5111572745182865e23, -1.5111572745182865e23, 3.0e15, -84.0,
        10710.0, 1e17,
    ];
    for value in values {
        let bits = value.to_bits();
        assert_eq!(add_partial_sum(bits), hardware_sum(bits), "{value:e}");
    }
}

#[test]
fn sum_agrees_with_hardware_at_each_exponent() {
    let fractions: [u64; 9] = [
        0,
        1,
        2,
        0x0008_0000_0000_0000,
        0x0005_0000_0000_0000,
        0x0004_ffff_ffff_ffff,
        0x0005_0000_0000_0001,
        0x000f_ffff_ffff_fffe,
        0x000f_ffff_ffff_ffff,
    ];
    let mut exponent: u64 = 0;
    while exponent < 2047 {
        for fraction in fractions {
            let bits = (exponent << 52) | fraction;
            assert_eq!(add_partial_sum(bits), hardware_sum(bits), "{bits:#x}");
            let negative = bits | SIGN_BIT;
            assert_eq!(add_partial_sum(negative), hardware_sum(negative), "{negative:#x}");
        }
        exponent += 1;
    }
}

#[test]
fn sum_agrees_with_hardware_on_many_patterns() {
    let mut state: u64 = 0x2545_f491_4f6c_dd1d;
    let mut checked: u32 = 0;
    while checked < 200_000 {
        let bits = next_pattern(&mut state);
        if is_nan_pattern(bits) {
            assert!(is_nan_pattern(add_partial_sum(bits)));
        } else {
            assert_eq!(add_partial_sum(bits), hardware_sum(bits), "{bits:#x}");
        }
        checked += 1;
    }
}

#[test]
fn sum_agrees_with_hardware_near_the_partial_sum() {
    let mut state: u64 = 0x9e37_79b9_7f4a_7c15;
    let mut checked: u32 = 0;
    while checked < 300_000 {
        let raw = next_pattern(&mut state);
        let exponent = 960 + (raw >> 52) % 140;
        let bits = (raw & 0x800f_ffff_ffff_ffff) | (exponent << 52);
        assert_eq!(add_partial_sum(bits), hardware_sum(bits), "{bits:#x}");
        checked += 1;
    }
}

#[test]
fn sum_agrees_with_hardware_around_minus_partial_sum() {
    let centre = (-42.0f64).to_bits();
    let mut offset: u64 = 0;
    while offset < 5_000 {
        let above = centre + offset;
        let below = centre - offset;
        assert_eq!(add_partial_sum(above), hardware_sum(above));
        assert_eq!(add_partial_sum(below), hardware_sum(below));
        offset += 1;
    }
}

#[test]
fn ties_go_to_the_even_neighbour() {
    // 2^-48 is half a unit of 42.0's last place: 42.0 is even and stays.
    let half_unit = 3.5527136788005009e-15f64.to_bits();
    assert_eq!(add_partial_sum(half_unit), 42.0f64.to_bits());
    // Three halves of that unit lie between an odd and an even neighbour.
    let three_halves = 1.0658141036401503e-14f64.to_bits();
    assert_eq!(add_partial_sum(three_halves), 42.0f64.to_bits() + 2);
    // A little more than half rounds up.
    assert_eq!(add_partial_sum(half_unit + 1), 42.0f64.to_bits() + 1);
}

#[test]
fn rounding_whole_numbers_agrees_with_conversion() {
    let mut state: u64 = 0x0123_4567_89ab_cdef;
    let mut checked: u32 = 0;
    while checked < 100_000 {
        let high = next_pattern(&mut state) as u128;
        let low = next_pattern(&mut state) as u128;
        let amount = ((high << 64) | low) >> (next_pattern(&mut state) % 128);
        assert_eq!(round_to_bits(false, amount, 1074), (amount as f64).to_bits());
        if amount != 0 {
            assert_eq!(round_to_bits(true, amount, 1074), (-(amount as f64)).to_bits());
        }
        checked += 1;
    }
}

#[test]
fn rounding_named_amounts() {
    assert_eq!(round_to_bits(false, 0, 1074), 0.0f64.to_bits());
    assert_eq!(round_to_bits(true, 0, 1074), 0.0f64.to_bits());
    assert_eq!(round_to_bits(false, 1, 1074), 1.0f64.to_bits());
    assert_eq!(round_to_bits(true, 1, 1074), (-1.0f64).to_bits());
    assert_eq!(round_to_bits(false, 1, 52), 0x0010_0000_0000_0000);
    assert_eq!(round_to_bits(false, 42, 1074), 42.0f64.to_bits());
    assert_eq!(round_to_bits(false, 3, 1073), 1.5f64.to_bits());
    // 2^53 + 1 lies halfway between two numbers: the even one is 2^53.
    assert_eq!(
        round_to_bits(false, 9_007_199_254_740_993, 1074),
        9007199254740992.0f64.to_bits()
    );
    // 2^53 + 3 lies halfway too: the even one is 2^53 + 4.
    assert_eq!(
        round_to_bits(false, 9_007_199_254_740_995, 1074),
        9007199254740996.0f64.to_bits()
    );
    assert_eq!(round_to_bits(false, u128::MAX, 1074), (u128::MAX as f64).to_bits());
    // (2^128 - 1) times 2^826 rounds up to 2^954.
    assert_eq!(round_to_bits(false, u128::MAX, 1900), 0x7b90_0000_0000_0000);
}

#[test]
fn expected_totals() {
    assert_eq!(expected_total_bits(0), 0.0f64.to_bits());
    assert_eq!(expected_total_bits(1), 42.0f64.to_bits());
    assert_eq!(expected_total_bits(2), 84.0f64.to_bits());
    assert_eq!(expected_total_bits(16), 672.0f64.to_bits());
    assert_eq!(expected_total_bits(256), 10752.0f64.to_bits());
    assert_eq!(expected_total_bits(256), 0x40c5_0000_0000_0000);
    assert_eq!(EXACT_CONTRIBUTIONS, ((1u64 << 53) - 1) / 21);
    assert_eq!(
        expected_total_bits(EXACT_CONTRIBUTIONS),
        18014398509481962.0f64.to_bits()
    );
    // One step further the product is still even; the step after that it
    // lies between two numbers and rounds.
    assert_eq!(
        expected_total_bits(EXACT_CONTRIBUTIONS + 2),
        18014398509482048.0f64.to_bits()
    );
    assert_eq!(
        expected_total_bits(u64::MAX),
        (u64::MAX as f64 * 42.0).to_bits()
    );
}

#[test]
fn expected_totals_agree_with_multiplication() {
    let mut state: u64 = 0x0f0f_0f0f_1234_5678;
    let mut checked: u32 = 0;
    while checked < 50_000 {
        let count = next_pattern(&mut state) >> 11;
        assert_eq!(expected_total_bits(count), (count as f64 * 42.0).to_bits());
        checked += 1;
    }
}

#[test]
fn contributions_in_sequence_are_exact() {
    for workers in [1u64, 2, 16, 256] {
        let mut total = ZERO_BITS;
        let mut made: u64 = 0;
        while made < workers {
            total = add_partial_sum(total);
            made += 1;
            assert_eq!(total, expected_total_bits(made));
        }
        assert_eq!(f64::from_bits(total), workers as f64 * 42.0);
        assert!(accepts_total(total, workers));
    }
}

#[test]
fn two_hundred_fifty_six_contributions_give_10752() {
    let mut total = ZERO_BITS;
    let mut made: u32 = 0;
    while made < 256 {
        total = add_partial_sum(total);
        made += 1;
    }
    assert_eq!(f64::from_bits(total), 10752.0);
    assert_eq!(total, 0x40c5_0000_0000_0000);
}

#[test]
fn a_long_run_of_contributions_stays_exact() {
    let mut total = ZERO_BITS;
    let mut hardware = 0.0f64;
    let mut made: u64 = 0;
    while made < 1_000_000 {
        total = add_partial_sum(total);
        hardware += 42.0;
        made += 1;
    }
    assert_eq!(total, hardware.to_bits());
    assert_eq!(total, expected_total_bits(1_000_000));
    assert_eq!(f64::from_bits(total), 42_000_000.0);
}

#[test]
fn totals_within_tolerance_are_accepted() {
    let expected = 10752.0f64.to_bits();
    assert!(accepts_total(expected, 256));
    assert!(accepts_total(expected + 4, 256));
    assert!(accepts_total(expected - 4, 256));
    assert!(!accepts_total(expected + 5, 256));
    assert!(!accepts_total(expected - 5, 256));
    assert!(!accepts_total(10710.0f64.to_bits(), 256));
    assert!(!accepts_total((-10752.0f64).to_bits(), 256));
    assert!(!accepts_total(f64::INFINITY.to_bits(), 256));
    assert!(!accepts_total(f64::NAN.to_bits(), 256));
    assert!(accepts_total(ZERO_BITS, 0));
    assert!(!accepts_total(SIGN_BIT, 0));
}
