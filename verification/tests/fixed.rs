use breakout::fixed::int_sqrt;
use breakout::fixed::quotient;
use breakout::fixed::saturate;
use breakout::fixed::Fixed;
use breakout::fixed::MAX_RAW;
use breakout::fixed::ONE_RAW;

const ONE: i64 = 4194304;
const MAX: i64 = 2199023255552;

#[test]
fn whole_numbers_have_twenty_two_fraction_bits() {
    assert_eq!(ONE_RAW, ONE);
    assert_eq!(MAX_RAW, MAX);
    assert_eq!(Fixed::from_int(1).raw, ONE);
    assert_eq!(Fixed::from_int(-3).raw, -3 * ONE);
    assert_eq!(Fixed::one(), Fixed::from_int(1));
    assert_eq!(Fixed::zero().raw, 0);
    assert_eq!(Fixed::from_raw(17).raw, 17);
    assert_eq!(Fixed::from_raw(-17).value(), -17);
}

#[test]
fn whole_numbers_saturate() {
    assert_eq!(Fixed::from_int(524287).raw, 524287 * ONE);
    assert_eq!(Fixed::from_int(524288).raw, MAX);
    assert_eq!(Fixed::from_int(600000).raw, MAX);
    assert_eq!(Fixed::from_int(i32::MAX).raw, MAX);
    assert_eq!(Fixed::from_int(-524288).raw, -MAX);
    assert_eq!(Fixed::from_int(-600000).raw, -MAX);
    assert_eq!(Fixed::from_int(i32::MIN).raw, -MAX);
}

#[test]
fn raw_values_beyond_the_range_count_as_the_nearest_in_it() {
    assert_eq!(Fixed::from_raw(i64::MAX).raw, MAX);
    assert_eq!(Fixed::from_raw(i64::MIN).raw, -MAX);
    assert_eq!(Fixed { raw: i64::MAX }.value(), MAX);
    assert_eq!(Fixed { raw: i64::MIN }.value(), -MAX);
    assert_eq!(Fixed { raw: i64::MAX } + Fixed::zero(), Fixed::from_raw(MAX));
    assert_eq!((Fixed { raw: i64::MIN } * Fixed::from_int(-1)).raw, MAX);
    assert!(Fixed { raw: i64::MAX }.le(Fixed::from_raw(MAX)));
    assert_eq!(Fixed { raw: i64::MIN }.trunc(), -524288);
}

#[test]
fn ratios_round_toward_zero() {
    assert_eq!(Fixed::ratio(1, 2).raw, 2097152);
    assert_eq!(Fixed::ratio(1, 3).raw, 1398101);
    assert_eq!(Fixed::ratio(-1, 3).raw, -1398101);
    assert_eq!(Fixed::ratio(1, -3).raw, -1398101);
    assert_eq!(Fixed::ratio(-1, -3).raw, 1398101);
    assert_eq!(Fixed::ratio(15, 2).raw, 31457280);
    assert_eq!(Fixed::ratio(3, 4).raw, 3145728);
    assert_eq!(Fixed::ratio(177, 100).raw, 7423918);
}

#[test]
fn ratio_with_zero_denominator_saturates_by_sign() {
    assert_eq!(Fixed::ratio(5, 0).raw, MAX);
    assert_eq!(Fixed::ratio(-5, 0).raw, -MAX);
    assert_eq!(Fixed::ratio(0, 0).raw, 0);
}

#[test]
fn addition_and_subtraction_saturate() {
    assert_eq!(Fixed::from_int(3) + Fixed::from_int(4), Fixed::from_int(7));
    assert_eq!(Fixed::from_int(3) - Fixed::from_int(4), Fixed::from_int(-1));
    assert_eq!(Fixed::from_int(20000) + Fixed::from_int(20000), Fixed::from_int(40000));
    assert_eq!((Fixed::from_int(300000) + Fixed::from_int(300000)).raw, MAX);
    assert_eq!((Fixed::from_int(-300000) - Fixed::from_int(300000)).raw, -MAX);
    assert_eq!((Fixed::from_raw(MAX) + Fixed::from_raw(1)).raw, MAX);
    assert_eq!((Fixed::from_raw(-MAX) - Fixed::from_raw(1)).raw, -MAX);
}

#[test]
fn multiplication_rounds_toward_zero_and_saturates() {
    assert_eq!(Fixed::from_int(3) * Fixed::from_int(4), Fixed::from_int(12));
    assert_eq!(Fixed::ratio(1, 2) * Fixed::ratio(1, 2), Fixed::ratio(1, 4));
    assert_eq!(Fixed::from_int(200) * Fixed::from_int(200), Fixed::from_int(40000));
    assert_eq!((Fixed::from_raw(1) * Fixed::from_raw(1)).raw, 0);
    assert_eq!((Fixed::from_raw(-1) * Fixed::from_raw(1)).raw, 0);
    assert_eq!((Fixed::from_raw(-(ONE + 1)) * Fixed::ratio(1, 2)).raw, -2097152);
    assert_eq!((Fixed::from_raw(ONE + 1) * Fixed::ratio(1, 2)).raw, 2097152);
    assert_eq!((Fixed::from_int(1000) * Fixed::from_int(1000)).raw, MAX);
    assert_eq!((Fixed::from_int(-1000) * Fixed::from_int(1000)).raw, -MAX);
    assert_eq!((Fixed::from_raw(-MAX) * Fixed::from_raw(-MAX)).raw, MAX);
}

#[test]
fn division_rounds_toward_zero_and_saturates() {
    assert_eq!(Fixed::from_int(12) / Fixed::from_int(4), Fixed::from_int(3));
    assert_eq!((Fixed::from_int(1) / Fixed::from_int(3)).raw, 1398101);
    assert_eq!((Fixed::from_int(-1) / Fixed::from_int(3)).raw, -1398101);
    assert_eq!((Fixed::from_int(1) / Fixed::from_int(-3)).raw, -1398101);
    assert_eq!((Fixed::from_int(-1) / Fixed::from_int(-3)).raw, 1398101);
    assert_eq!(Fixed::from_int(170) / Fixed::ratio(1, 1000), Fixed::from_raw(713083363745));
    assert_eq!((Fixed::from_int(1000) / Fixed::from_raw(1)).raw, MAX);
    assert_eq!((Fixed::from_int(-1000) / Fixed::from_raw(1)).raw, -MAX);
}

#[test]
fn division_by_zero_saturates_by_sign() {
    assert_eq!((Fixed::from_int(1) / Fixed::zero()).raw, MAX);
    assert_eq!((Fixed::from_int(-1) / Fixed::zero()).raw, -MAX);
    assert_eq!((Fixed::zero() / Fixed::zero()).raw, 0);
}

#[test]
fn every_number_has_its_opposite() {
    assert_eq!(-Fixed::from_int(5), Fixed::from_int(-5));
    assert_eq!((-Fixed::from_raw(-MAX)).raw, MAX);
    assert_eq!((-Fixed::from_raw(MAX)).raw, -MAX);
    assert_eq!((-Fixed::zero()).raw, 0);
}

#[test]
fn truncation_drops_the_fraction_toward_zero() {
    assert_eq!(Fixed::ratio(3, 2).trunc(), 1);
    assert_eq!(Fixed::ratio(-3, 2).trunc(), -1);
    assert_eq!(Fixed::from_raw(ONE - 1).trunc(), 0);
    assert_eq!(Fixed::from_raw(-(ONE - 1)).trunc(), 0);
    assert_eq!(Fixed::from_int(-7).trunc(), -7);
    assert_eq!(Fixed::from_raw(-MAX).trunc(), -524288);
    assert_eq!(Fixed::from_raw(MAX).trunc(), 524288);
}

#[test]
fn comparisons_go_by_value() {
    assert!(Fixed::from_int(1).lt(Fixed::from_int(2)));
    assert!(!Fixed::from_int(2).lt(Fixed::from_int(2)));
    assert!(Fixed::from_int(2).le(Fixed::from_int(2)));
    assert!(!Fixed::from_int(3).le(Fixed::from_int(2)));
    assert!(Fixed::from_int(-1).lt(Fixed::zero()));
    assert!(Fixed::zero().is_zero());
    assert!(!Fixed::from_raw(1).is_zero());
    assert!(Fixed::from_int(1) < Fixed::from_int(2));
}

#[test]
fn integer_square_roots_round_down() {
    assert_eq!(int_sqrt(0), 0);
    assert_eq!(int_sqrt(1), 1);
    assert_eq!(int_sqrt(2), 1);
    assert_eq!(int_sqrt(15), 3);
    assert_eq!(int_sqrt(16), 4);
    assert_eq!(int_sqrt(17), 4);
    assert_eq!(int_sqrt(1 << 62), 1 << 31);
    assert_eq!(int_sqrt(1 << 63), 3037000499);
    assert_eq!(int_sqrt(1 << 126), 1 << 63);
    assert_eq!(int_sqrt(u128::MAX), u64::MAX);
}

#[test]
fn wide_values_are_clamped() {
    assert_eq!(saturate(5).raw, 5);
    assert_eq!(saturate(1 << 40).raw, 1 << 40);
    assert_eq!(saturate(1 << 41).raw, MAX);
    assert_eq!(saturate((1 << 41) + 1).raw, MAX);
    assert_eq!(saturate(-(1 << 60)).raw, -MAX);
    assert_eq!(quotient(7, 2).raw, 3);
    assert_eq!(quotient(-7, 2).raw, -3);
    assert_eq!(quotient(7, -2).raw, -3);
    assert_eq!(quotient(-7, -2).raw, 3);
    assert_eq!(quotient(1 << 100, 3).raw, MAX);
    assert_eq!(quotient(3, 0).raw, MAX);
}
