//! The byte-level text utilities.
use chagpt::text::{
    bytes_eq, count_scalars, json_quote, parse_dec, parse_dec_u32, trim, u32_to_dec, u64_to_dec,
    utf8_prefix,
};

#[test]
fn trim_whitespace() {
    assert_eq!(trim(b"  abc \t\r\n").as_slice(), b"abc");
    assert_eq!(trim(b"abc").as_slice(), b"abc");
    assert_eq!(trim(b"   ").as_slice(), b"");
    assert_eq!(trim(b"").as_slice(), b"");
    assert_eq!(trim(b" a b ").as_slice(), b"a b");
}

#[test]
fn byte_equality() {
    assert!(bytes_eq(b"abc", b"abc"));
    assert!(!bytes_eq(b"abc", b"abd"));
    assert!(!bytes_eq(b"abc", b"ab"));
    assert!(bytes_eq(b"", b""));
}

#[test]
fn decimal_rendering() {
    assert_eq!(u64_to_dec(0).as_slice(), b"0");
    assert_eq!(u64_to_dec(7).as_slice(), b"7");
    assert_eq!(u64_to_dec(16711680).as_slice(), b"16711680");
    assert_eq!(u64_to_dec(u64::MAX).as_slice(), b"18446744073709551615");
    assert_eq!(u32_to_dec(u32::MAX).as_slice(), b"4294967295");
}

#[test]
fn decimal_parsing() {
    assert_eq!(parse_dec(b"0", u64::MAX), Some(0));
    assert_eq!(parse_dec(b"18446744073709551615", u64::MAX), Some(u64::MAX));
    assert_eq!(parse_dec(b"18446744073709551616", u64::MAX), None);
    assert_eq!(parse_dec(b"", u64::MAX), None);
    assert_eq!(parse_dec(b"12a", u64::MAX), None);
    assert_eq!(parse_dec_u32(b"4294967295"), Some(u32::MAX));
    assert_eq!(parse_dec_u32(b"4294967296"), None);
}

#[test]
fn json_quoting() {
    assert_eq!(json_quote(b"hi").as_slice(), b"\"hi\"");
    assert_eq!(json_quote(b"a\"b\\c").as_slice(), b"\"a\\\"b\\\\c\"");
    assert_eq!(
        json_quote(b"\x08\x09\x0a\x0c\x0d\x01\x1f").as_slice(),
        b"\"\\b\\t\\n\\f\\r\\u0001\\u001f\""
    );
    // Multi-byte UTF-8 passes through unescaped.
    assert_eq!(json_quote("\u{4e16}".as_bytes()).as_slice(), "\"\u{4e16}\"".as_bytes());
}

#[test]
fn scalar_counting() {
    assert_eq!(count_scalars(b""), 0);
    assert_eq!(count_scalars(b"abc"), 3);
    assert_eq!(count_scalars("\u{e9}\u{4e16}\u{1f600}".as_bytes()), 3);
}

#[test]
fn utf8_prefix_truncation() {
    assert_eq!(utf8_prefix(b"hello").as_slice(), b"hello");
    // A dangling lead byte is cut off.
    assert_eq!(utf8_prefix(b"ab\xc3").as_slice(), b"ab");
    // A lone continuation byte ends the prefix.
    assert_eq!(utf8_prefix(b"\x80abc").as_slice(), b"");
    // Overlong encodings and surrogates are invalid.
    assert_eq!(utf8_prefix(b"a\xc0\x80b").as_slice(), b"a");
    assert_eq!(utf8_prefix(b"a\xed\xa0\x80").as_slice(), b"a");
    // A full four-byte character survives.
    let s = "x\u{1f600}".as_bytes();
    assert_eq!(utf8_prefix(s).as_slice(), s);
}
