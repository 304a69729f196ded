use poe2openai::decimal::{parse_i32, parse_u64, parse_usize, to_decimal};

#[test]
fn writes_decimals() {
    assert_eq!(to_decimal(0), "0");
    assert_eq!(to_decimal(1073741824), "1073741824");
    assert_eq!(to_decimal(18446744073709551615), "18446744073709551615");
}

#[test]
fn reads_unsigned_numbers_like_the_standard_library() {
    for s in [
        "0", "7", "+7", "-7", "", "+", "007", "18446744073709551615", "18446744073709551616",
        "99999999999999999999", "1 ", "1a", "++1",
    ] {
        assert_eq!(parse_u64(s), s.parse::<u64>().ok(), "{}", s);
        assert_eq!(parse_usize(s), s.parse::<usize>().ok(), "{}", s);
    }
}

#[test]
fn reads_signed_numbers_like_the_standard_library() {
    for s in [
        "0", "-0", "-1", "+1", "-", "+", "", "-+1", "+-1", "--1", "2147483647", "2147483648",
        "-2147483648", "-2147483649", "4294967296", "-99999999999999999999",
    ] {
        assert_eq!(parse_i32(s), s.parse::<i32>().ok(), "{}", s);
    }
}

#[test]
fn reading_back_a_decimal_gives_the_number() {
    for n in [0u64, 9, 10, 99, 100, 259200, u64::MAX] {
        assert_eq!(parse_u64(&to_decimal(n)), Some(n));
    }
}
