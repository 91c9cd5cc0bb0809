use sse_relay::number::{format_usize, parse_usize};
use sse_relay::text::{find, push_bytes, same_bytes, stands_at};

#[test]
fn find_returns_the_first_occurrence() {
    assert_eq!(find(b"abcabc", b"bc", 0), Some(1));
    assert_eq!(find(b"abcabc", b"bc", 1), Some(1));
    assert_eq!(find(b"abcabc", b"bc", 2), Some(4));
    assert_eq!(find(b"abcabc", b"bc", 5), None);
    assert_eq!(find(b"abcabc", b"x", 0), None);
}

#[test]
fn find_handles_edges() {
    assert_eq!(find(b"", b"a", 0), None);
    assert_eq!(find(b"a", b"ab", 0), None);
    assert_eq!(find(b"ab", b"ab", 0), Some(0));
    assert_eq!(find(b"ab", b"ab", 1), None);
    assert_eq!(find(b"ab", b"", 0), Some(0));
    assert_eq!(find(b"ab", b"", 2), Some(2));
    assert_eq!(find(b"ab", b"", 3), None);
    assert_eq!(find(b"aab", b"ab", 0), Some(1));
}

#[test]
fn bytes_are_compared_whole() {
    assert!(same_bytes(b"", b""));
    assert!(same_bytes(b"GET", b"GET"));
    assert!(!same_bytes(b"GET", b"GE"));
    assert!(!same_bytes(b"GET", b"GEt"));
    assert!(!same_bytes(b"", b"G"));
}

#[test]
fn windows() {
    assert!(stands_at(b"abcd", b"ab", 0));
    assert!(stands_at(b"abcd", b"", 4));
    assert!(!stands_at(b"abcd", b"", 5));
    assert!(stands_at(b"abcd", b"cd", 2));
    assert!(!stands_at(b"abcd", b"cd", 3));
    assert!(!stands_at(b"abcd", b"cd", 9));
}

#[test]
fn pushing_appends() {
    let mut out = b"ab".to_vec();
    push_bytes(&mut out, b"cd");
    push_bytes(&mut out, b"");
    assert_eq!(out, b"abcd".to_vec());
}

#[test]
fn parse_usize_accepts_digits_and_a_plus() {
    assert_eq!(parse_usize(b"0"), Some(0));
    assert_eq!(parse_usize(b"5"), Some(5));
    assert_eq!(parse_usize(b"+5"), Some(5));
    assert_eq!(parse_usize(b"00012"), Some(12));
    assert_eq!(parse_usize(b"65536"), Some(65536));
}

#[test]
fn parse_usize_refuses_everything_else() {
    assert_eq!(parse_usize(b""), None);
    assert_eq!(parse_usize(b"+"), None);
    assert_eq!(parse_usize(b"-1"), None);
    assert_eq!(parse_usize(b"++1"), None);
    assert_eq!(parse_usize(b" 5"), None);
    assert_eq!(parse_usize(b"5 "), None);
    assert_eq!(parse_usize(b"5x"), None);
    assert_eq!(parse_usize(b"0x10"), None);
    assert_eq!(parse_usize(b"1.5"), None);
    assert_eq!(parse_usize("５".as_bytes()), None);
}

#[test]
fn parse_usize_agrees_with_the_standard_parser() {
    let samples = [
        "", "+", "-", "0", "+0", "-0", "7", "+7", "007", "12345", " 1", "1 ", "1_000", "abc", "9a",
        "18446744073709551615", "18446744073709551616", "4294967295", "4294967296",
        "99999999999999999999999999", "+18446744073709551615",
    ];
    for s in samples {
        assert_eq!(parse_usize(s.as_bytes()), s.parse::<usize>().ok(), "{:?}", s);
    }
}

#[test]
fn parse_usize_stops_at_the_largest_value() {
    let max = format!("{}", usize::MAX);
    assert_eq!(parse_usize(max.as_bytes()), Some(usize::MAX));
    let beyond = format!("{}0", usize::MAX);
    assert_eq!(parse_usize(beyond.as_bytes()), None);
}

#[test]
fn format_usize_writes_decimal_digits() {
    assert_eq!(format_usize(0), b"0".to_vec());
    assert_eq!(format_usize(7), b"7".to_vec());
    assert_eq!(format_usize(10), b"10".to_vec());
    assert_eq!(format_usize(65536), b"65536".to_vec());
    assert_eq!(format_usize(usize::MAX), format!("{}", usize::MAX).into_bytes());
}

#[test]
fn a_number_written_reads_back() {
    for n in [0usize, 1, 9, 10, 99, 100, 4096, 65535, 65536, usize::MAX] {
        assert_eq!(parse_usize(&format_usize(n)), Some(n));
    }
}
