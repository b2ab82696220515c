use temper_core::ints::{
    i32_to_usize, ignore, int64_div, int64_rem, int64_to_int32, int64_to_string, int_div, int_rem,
    int_to_string, usize_to_i32,
};

#[test]
fn index_conversions_round_trip_in_range() {
    assert_eq!(i32_to_usize(7).unwrap(), 7usize);
    assert!(i32_to_usize(-1).is_err());
    assert_eq!(usize_to_i32(2147483647).unwrap(), i32::MAX);
    assert!(usize_to_i32(2147483648usize).is_err());
    ignore(99);
}

#[test]
fn division_errors_only_on_zero_divisor() {
    assert_eq!(int_div(7, 2).unwrap(), 3);
    assert_eq!(int_div(-7, 2).unwrap(), -3);
    assert_eq!(int_div(7, -2).unwrap(), -3);
    assert!(int_div(1, 0).is_err());
    assert_eq!(int_div(i32::MIN, -1).unwrap(), i32::MIN);
    assert_eq!(int64_div(-9, 4).unwrap(), -2);
    assert!(int64_div(5, 0).is_err());
    assert_eq!(int64_div(i64::MIN, -1).unwrap(), i64::MIN);
}

#[test]
fn remainder_takes_the_dividend_sign() {
    assert_eq!(int_rem(7, 3).unwrap(), 1);
    assert_eq!(int_rem(-7, 3).unwrap(), -1);
    assert_eq!(int_rem(7, -3).unwrap(), 1);
    assert!(int_rem(7, 0).is_err());
    assert_eq!(int_rem(i32::MIN, -1).unwrap(), 0);
    assert_eq!(int64_rem(-9, 4).unwrap(), -1);
    assert!(int64_rem(9, 0).is_err());
}

#[test]
fn narrowing_accepts_exactly_the_i32_range() {
    assert_eq!(int64_to_int32(-2147483648).unwrap(), i32::MIN);
    assert_eq!(int64_to_int32(2147483647).unwrap(), i32::MAX);
    assert!(int64_to_int32(2147483648).is_err());
    assert!(int64_to_int32(-2147483649).is_err());
}

#[test]
fn rendering_decimal() {
    assert_eq!(int_to_string(0, None).as_str(), "0");
    assert_eq!(int_to_string(123, None).as_str(), "123");
    assert_eq!(int_to_string(-45, None).as_str(), "-45");
    assert_eq!(int64_to_string(i64::MIN, None).as_str(), "-9223372036854775808");
    assert_eq!(int64_to_string(i64::MAX, None).as_str(), "9223372036854775807");
}

#[test]
fn rendering_other_bases() {
    assert_eq!(int64_to_string(255, Some(16)).as_str(), "ff");
    assert_eq!(int64_to_string(-255, Some(16)).as_str(), "-ff");
    assert_eq!(int64_to_string(5, Some(2)).as_str(), "101");
    assert_eq!(int64_to_string(35, Some(36)).as_str(), "z");
    assert_eq!(int_to_string(8, Some(8)).as_str(), "10");
}
