use repl_core::num::{
    add_checked, add_wrap, bitwise_and, bitwise_xor, div_ceil, div_floor, mul_checked, mul_wrap,
    rem, sub_checked, sub_wrap, DivByZero, IntWidth, Overflow,
};

const MAX: i128 = i64::MAX as i128;
const MIN: i128 = i64::MIN as i128;

#[test]
fn floor_division_rounds_down() {
    assert_eq!(div_floor(IntWidth::I64, 4, 3), Ok(1));
    assert_eq!(div_floor(IntWidth::I64, -4, 3), Ok(-2));
    assert_eq!(div_floor(IntWidth::I64, 4, -3), Ok(-2));
    assert_eq!(div_floor(IntWidth::I64, -4, -3), Ok(1));
    assert_eq!(div_floor(IntWidth::I64, 6, 3), Ok(2));
}

#[test]
fn ceiling_division_rounds_up() {
    assert_eq!(div_ceil(IntWidth::I64, 4, 3), Ok(2));
    assert_eq!(div_ceil(IntWidth::I64, -4, 3), Ok(-1));
    assert_eq!(div_ceil(IntWidth::I64, 4, -3), Ok(-1));
    assert_eq!(div_ceil(IntWidth::I64, -4, -3), Ok(2));
    assert_eq!(div_ceil(IntWidth::I64, 6, 3), Ok(2));
}

#[test]
fn zero_divisor_is_reported() {
    assert_eq!(div_floor(IntWidth::I64, 4, 0), Err(DivByZero));
    assert_eq!(div_ceil(IntWidth::I64, 4, 0), Err(DivByZero));
    assert_eq!(rem(IntWidth::I64, 4, 0), Err(DivByZero));
    assert_eq!(div_floor(IntWidth::I64, 0, 0), Err(DivByZero));
}

#[test]
fn remainder_has_the_sign_of_the_dividend() {
    assert_eq!(rem(IntWidth::I64, 299, 10), Ok(9));
    assert_eq!(rem(IntWidth::I64, -299, 10), Ok(-9));
    assert_eq!(rem(IntWidth::I64, 299, -10), Ok(9));
    assert_eq!(rem(IntWidth::I64, MIN, -1), Ok(0));
}

#[test]
fn least_value_by_minus_one_wraps() {
    assert_eq!(div_floor(IntWidth::I64, MIN, -1), Ok(MIN));
    assert_eq!(div_ceil(IntWidth::I8, -128, -1), Ok(-128));
}

#[test]
fn wrapping_is_twos_complement() {
    assert_eq!(add_wrap(IntWidth::I64, MAX, 1), MIN);
    assert_eq!(sub_wrap(IntWidth::I64, MIN, 1), MAX);
    assert_eq!(mul_wrap(IntWidth::I64, MAX, 2), -2);
    assert_eq!(add_wrap(IntWidth::U8, 255, 1), 0);
    assert_eq!(sub_wrap(IntWidth::U8, 0, 1), 255);
    assert_eq!(mul_wrap(IntWidth::I8, 127, 127), 1);
    assert_eq!(mul_wrap(IntWidth::U64, u64::MAX as i128, u64::MAX as i128), 1);
    assert_eq!(mul_wrap(IntWidth::U64, u64::MAX as i128, 2), (u64::MAX - 1) as i128);
    assert_eq!(add_wrap(IntWidth::I64, 1, 2), 3);
}

#[test]
fn checked_operations_report_overflow() {
    assert_eq!(add_checked(IntWidth::I64, 1, 1), Ok(2));
    assert_eq!(add_checked(IntWidth::I64, MAX, 1), Err(Overflow));
    assert_eq!(sub_checked(IntWidth::I64, 1, 1), Ok(0));
    assert_eq!(sub_checked(IntWidth::I64, MIN, 1), Err(Overflow));
    assert_eq!(mul_checked(IntWidth::I64, 20, 2), Ok(40));
    assert_eq!(mul_checked(IntWidth::I64, MAX, 2), Err(Overflow));
    assert_eq!(mul_checked(IntWidth::U64, u64::MAX as i128, u64::MAX as i128), Err(Overflow));
    assert_eq!(sub_checked(IntWidth::U8, 0, 1), Err(Overflow));
}

#[test]
fn bitwise_operations() {
    assert_eq!(bitwise_and(IntWidth::I64, 20, 20), 20);
    assert_eq!(bitwise_and(IntWidth::I64, 25, 10), 8);
    assert_eq!(bitwise_and(IntWidth::I64, 200, 0), 0);
    assert_eq!(bitwise_xor(IntWidth::I64, 20, 20), 0);
    assert_eq!(bitwise_xor(IntWidth::I64, 15, 14), 1);
    assert_eq!(bitwise_xor(IntWidth::I64, 7, 15), 8);
    assert_eq!(bitwise_xor(IntWidth::I64, 200, 0), 200);
    assert_eq!(bitwise_and(IntWidth::I64, -1, 5), 5);
}

#[test]
fn widths_know_their_ranges() {
    assert_eq!(IntWidth::I8.min_value(), -128);
    assert_eq!(IntWidth::I8.max_value(), 127);
    assert_eq!(IntWidth::U64.max_value(), u64::MAX as i128);
    assert_eq!(IntWidth::I64.min_value(), MIN);
    assert!(IntWidth::I16.contains(32767));
    assert!(!IntWidth::I16.contains(32768));
    assert_eq!(IntWidth::I16.wrap(32768), -32768);
    assert_eq!(IntWidth::U16.wrap(-1), 65535);
}
