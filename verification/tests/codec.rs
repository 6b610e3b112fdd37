use garage::codec::{ascii_to_string, has_prefix, parse_u64, trim_quotes, u64_to_decimal};

#[test]
fn decimal_text() {
    assert_eq!(u64_to_decimal(0), "0");
    assert_eq!(u64_to_decimal(7), "7");
    assert_eq!(u64_to_decimal(1000), "1000");
    assert_eq!(u64_to_decimal(u64::MAX), "18446744073709551615");
}

#[test]
fn parse_u64_like_std() {
    let cases = [
        "0", "1", "+1", "-1", "", "+", "-", "007", " 1", "1 ", "12a", "18446744073709551615",
        "18446744073709551616", "99999999999999999999999", "+18446744073709551615", "٣", "++1",
    ];
    for c in cases.iter() {
        assert_eq!(parse_u64(c), c.parse::<u64>().ok(), "case {:?}", c);
    }
}

#[test]
fn decimal_roundtrip_concrete() {
    for n in [0u64, 9, 10, 11, 99, 100, 12345, u64::MAX - 1, u64::MAX].iter() {
        assert_eq!(parse_u64(&u64_to_decimal(*n)), Some(*n));
    }
}

#[test]
fn trim_quotes_like_trim_matches() {
    let cases = ["\"abc\"", "abc", "\"\"", "\"", "", "\"\"a\"b\"\"", "a\"", "\"a"];
    for c in cases.iter() {
        assert_eq!(trim_quotes(c), c.trim_matches('"'), "case {:?}", c);
    }
}

#[test]
fn prefix_check() {
    assert!(has_prefix("x-amz-meta-color", "x-amz-meta-"));
    assert!(!has_prefix("x-amz-met", "x-amz-meta-"));
    assert!(!has_prefix("content-type", "x-amz-meta-"));
    assert!(has_prefix("", ""));
}

#[test]
fn ascii_bytes_to_text() {
    assert_eq!(ascii_to_string(b"text/plain"), "text/plain");
}
