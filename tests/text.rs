use rusty::text::{split_lines, to_decimal};

#[test]
fn decimal_digits() {
    assert_eq!(to_decimal(0), "0");
    assert_eq!(to_decimal(7), "7");
    assert_eq!(to_decimal(2), "2");
    assert_eq!(to_decimal(1234567890), "1234567890");
    assert_eq!(to_decimal(u64::MAX), u64::MAX.to_string());
}

#[test]
fn lines_like_str_lines() {
    for data in ["a\r\nb\n", "a\nb", "", "\n", "a\n\nb\r\n", "x\r", "\r\n\r\n"] {
        let expected: Vec<String> = data.lines().map(|l| l.to_string()).collect();
        assert_eq!(split_lines(data), expected, "{:?}", data);
    }
}
