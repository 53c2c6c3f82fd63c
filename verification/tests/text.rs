use optopodi::text::{decimal, parse_decimal};

#[test]
fn decimal_writes_numbers() {
    assert_eq!(decimal(0), "0");
    assert_eq!(decimal(5), "5");
    assert_eq!(decimal(12), "12");
    assert_eq!(decimal(100), "100");
    assert_eq!(decimal(9_007_199_254_740_993), "9007199254740993");
    assert_eq!(decimal(u64::MAX), "18446744073709551615");
}

#[test]
fn parse_decimal_reads_what_decimal_writes() {
    for n in [0u64, 1, 9, 10, 11, 99, 100, 12345, u64::MAX - 1, u64::MAX] {
        assert_eq!(parse_decimal(&decimal(n)), Some(n));
    }
    assert_eq!(parse_decimal("12"), Some(12));
}

#[test]
fn parse_decimal_refuses_everything_else() {
    for text in ["", " ", "01", "00", "+1", "-1", "1 ", " 1", "1_000", "0x10", "12a", "١٢",
        "18446744073709551616", "99999999999999999999999"]
    {
        assert_eq!(parse_decimal(text), None, "{:?}", text);
    }
}
