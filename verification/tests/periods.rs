use gpioline::period::{
    parse_period, PeriodError, MICROS_PER_MILLI, MICROS_PER_MINUTE, MICROS_PER_SECOND,
};

#[test]
fn a_bare_number_is_in_milliseconds() {
    assert_eq!(parse_period("0"), Ok(0));
    assert_eq!(parse_period("1"), Ok(1_000));
    assert_eq!(parse_period("250"), Ok(250_000));
    assert_eq!(parse_period("007"), Ok(7_000));
}

#[test]
fn a_unit_says_what_the_number_counts() {
    assert_eq!(parse_period("3us"), Ok(3));
    assert_eq!(parse_period("2ms"), Ok(2_000));
    assert_eq!(parse_period("4s"), Ok(4_000_000));
    assert_eq!(parse_period("5m"), Ok(300_000_000));
    assert_eq!(parse_period("0s"), Ok(0));
    assert_eq!(MICROS_PER_MILLI, 1_000);
    assert_eq!(MICROS_PER_SECOND, 1_000_000);
    assert_eq!(MICROS_PER_MINUTE, 60_000_000);
}

#[test]
fn a_period_starts_with_a_digit() {
    assert_eq!(parse_period(""), Err(PeriodError::NoDigits));
    assert_eq!(parse_period("ms"), Err(PeriodError::NoDigits));
    assert_eq!(parse_period("bad"), Err(PeriodError::NoDigits));
    assert_eq!(parse_period("-1"), Err(PeriodError::NoDigits));
    assert_eq!(parse_period("+1"), Err(PeriodError::NoDigits));
    assert_eq!(parse_period(" 1"), Err(PeriodError::NoDigits));
    assert_eq!(parse_period("٣"), Err(PeriodError::NoDigits));
}

#[test]
fn what_follows_the_digits_is_a_unit_or_nothing() {
    assert_eq!(parse_period("5ns"), Err(PeriodError::Units));
    assert_eq!(parse_period("5h"), Err(PeriodError::Units));
    assert_eq!(parse_period("5 ms"), Err(PeriodError::Units));
    assert_eq!(parse_period("5ms "), Err(PeriodError::Units));
    assert_eq!(parse_period("5mss"), Err(PeriodError::Units));
    assert_eq!(parse_period("5S"), Err(PeriodError::Units));
    assert_eq!(parse_period("5.5s"), Err(PeriodError::Units));
    assert_eq!(parse_period("5s5"), Err(PeriodError::Units));
    assert_eq!(parse_period("5µs"), Err(PeriodError::Units));
    // a unit that is not known is told before a number that is too large
    assert_eq!(parse_period("99999999999999999999999h"), Err(PeriodError::Units));
}

#[test]
fn a_period_fits_64_bits_of_microseconds() {
    assert_eq!(parse_period("18446744073709551615us"), Ok(u64::MAX));
    assert_eq!(parse_period("18446744073709551616us"), Err(PeriodError::TooLong));
    assert_eq!(parse_period("18446744073709551ms"), Ok(18_446_744_073_709_551_000));
    assert_eq!(parse_period("18446744073709552ms"), Err(PeriodError::TooLong));
    assert_eq!(parse_period("18446744073709552"), Err(PeriodError::TooLong));
    assert_eq!(parse_period("18446744073709s"), Ok(18_446_744_073_709_000_000));
    assert_eq!(parse_period("18446744073710s"), Err(PeriodError::TooLong));
    assert_eq!(parse_period("307445734561m"), Ok(18_446_744_073_660_000_000));
    assert_eq!(parse_period("307445734562m"), Err(PeriodError::TooLong));
    assert_eq!(parse_period("99999999999999999999999999999"), Err(PeriodError::TooLong));
}
