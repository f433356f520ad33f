use rotor_redis::decimal::{parse_i64_text, parse_usize_text, push_decimal};
use rotor_redis::search::find_substr;

#[test]
fn find_middle() {
    assert_eq!(find_substr(b"hello\r\n\r\nworld", b"\r\n\r\n"), Some(5));
}

#[test]
fn find_end() {
    assert_eq!(find_substr(b"hello world\r\n\r\n", b"\r\n\r\n"), Some(11));
}

#[test]
fn find_after_partial_match() {
    assert_eq!(find_substr(b"hello\r\nworld\r\n\r\n", b"\r\n\r\n"), Some(12));
}

#[test]
fn find_missing_and_short() {
    assert_eq!(find_substr(b"hello", b"\r\n"), None);
    assert_eq!(find_substr(b"\r", b"\r\n"), None);
    assert_eq!(find_substr(b"", b"x"), None);
    assert_eq!(find_substr(b"\r\n", b"\r\n"), Some(0));
}

#[test]
fn usize_texts() {
    assert_eq!(parse_usize_text(b"0"), Some(0));
    assert_eq!(parse_usize_text(b"+12"), Some(12));
    assert_eq!(parse_usize_text(b"18446744073709551615"), Some(usize::MAX));
    assert_eq!(parse_usize_text(b"18446744073709551616"), None);
    assert_eq!(parse_usize_text(b"-1"), None);
    assert_eq!(parse_usize_text(b"+"), None);
    assert_eq!(parse_usize_text(b""), None);
    assert_eq!(parse_usize_text(b"1 "), None);
}

#[test]
fn i64_texts() {
    assert_eq!(parse_i64_text(b"-42"), Some(-42));
    assert_eq!(parse_i64_text(b"+42"), Some(42));
    assert_eq!(parse_i64_text(b"-9223372036854775809"), None);
    assert_eq!(parse_i64_text(b"99999999999999999999999"), None);
    assert_eq!(parse_i64_text(b"--1"), None);
}

#[test]
fn decimal_spelling() {
    let mut out = b"x".to_vec();
    push_decimal(&mut out, 0);
    push_decimal(&mut out, 1234567890);
    assert_eq!(out, b"x01234567890".to_vec());
    let mut max = Vec::new();
    push_decimal(&mut max, usize::MAX);
    assert_eq!(max, usize::MAX.to_string().into_bytes());
}
