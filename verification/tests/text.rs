use kvserver::reply::{bulk_reply, null_bulk_reply, ok_reply, pong_reply};
use kvserver::text::{parse_decimal_from, push_decimal, trim_ascii};

fn b(s: &str) -> Vec<u8> {
    s.as_bytes().to_vec()
}

#[test]
fn fixed_replies_are_exact() {
    assert_eq!(pong_reply(), b("+PONG\r\n"));
    assert_eq!(ok_reply(), b("+OK\r\n"));
    assert_eq!(null_bulk_reply(), b("$-1\r\n"));
}

#[test]
fn bulk_reply_prefixes_the_exact_length() {
    assert_eq!(bulk_reply(&b("hey")), b("$3\r\nhey\r\n"));
    assert_eq!(bulk_reply(&b("")), b("$0\r\n\r\n"));
    assert_eq!(bulk_reply(&b("0123456789")), b("$10\r\n0123456789\r\n"));
}

#[test]
fn push_decimal_writes_canonical_digits() {
    let mut out = Vec::new();
    push_decimal(&mut out, 0);
    assert_eq!(out, b("0"));
    let mut out = b("x");
    push_decimal(&mut out, 10);
    assert_eq!(out, b("x10"));
    let mut out = Vec::new();
    push_decimal(&mut out, 90210);
    assert_eq!(out, b("90210"));
}

#[test]
fn parse_decimal_reads_digits_only() {
    assert_eq!(parse_decimal_from(&b("*12"), 1), Some(12));
    assert_eq!(parse_decimal_from(&b("*0"), 1), Some(0));
    assert_eq!(parse_decimal_from(&b("*007"), 1), Some(7));
    assert_eq!(parse_decimal_from(&b("*"), 1), None);
    assert_eq!(parse_decimal_from(&b("*1a"), 1), None);
    assert_eq!(parse_decimal_from(&b("*-1"), 1), None);
    assert_eq!(parse_decimal_from(&b("123"), 0), Some(123));
}

#[test]
fn parse_decimal_rejects_overflow() {
    let line = format!("*{}0", usize::MAX);
    assert_eq!(parse_decimal_from(&line.into_bytes(), 1), None);
    let line = format!("*{}", usize::MAX);
    assert_eq!(parse_decimal_from(&line.into_bytes(), 1), Some(usize::MAX));
}

#[test]
fn trim_strips_surrounding_ascii_whitespace() {
    assert_eq!(trim_ascii(&b("  PING \r\n")), b("PING"));
    assert_eq!(trim_ascii(&b("PING")), b("PING"));
    assert_eq!(trim_ascii(&b(" \t\r\n")), b(""));
    assert_eq!(trim_ascii(&b("")), b(""));
    assert_eq!(trim_ascii(&b("a b")), b("a b"));
}
