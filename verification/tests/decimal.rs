use direnv_instant::decimal::{parse_signed, parse_unsigned, push_decimal};

const TEXTS: [&str; 34] = [
    "", "0", "1", "9", "10", "+", "-", "+0", "-0", "+5", "-5", "++5", "+-5", "--5", "5+", " 5",
    "5 ", "05", "0000000000000000000000000000000000007", "a", "1a", "1_000", "٣", "65535", "65536",
    "2147483647", "2147483648", "-2147483648", "-2147483649", "18446744073709551615",
    "18446744073709551616", "99999999999999999999999", "0x10", "-00012",
];

#[test]
fn numbers_are_read_like_std_reads_them() {
    for text in TEXTS {
        assert_eq!(parse_unsigned(text, u64::MAX), text.parse::<u64>().ok(), "{text:?}");
        assert_eq!(
            parse_unsigned(text, 65535),
            text.parse::<u16>().ok().map(u64::from),
            "{text:?}"
        );
        assert_eq!(parse_signed(text), text.parse::<i32>().ok(), "{text:?}");
    }
}

#[test]
fn small_bounds_hold() {
    assert_eq!(parse_unsigned("3", 3), Some(3));
    assert_eq!(parse_unsigned("4", 3), None);
    assert_eq!(parse_unsigned("12", 11), None);
    assert_eq!(parse_unsigned("0", 0), Some(0));
}

#[test]
fn digits_are_written() {
    for n in [0usize, 1, 9, 10, 99, 100, 1234, 65535, 70001] {
        let mut buf = b"x".to_vec();
        push_decimal(&mut buf, n);
        assert_eq!(buf, format!("x{n}").into_bytes());
    }
}
