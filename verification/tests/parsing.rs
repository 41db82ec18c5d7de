use raw_read::{parse_autobase, DumpError};

#[test]
fn parses_hexadecimal() {
    assert_eq!(parse_autobase("0x10"), Ok(16));
    assert_eq!(parse_autobase("0x1000"), Ok(0x1000));
    assert_eq!(parse_autobase("0xdeadbeef"), Ok(0xdead_beef));
    assert_eq!(parse_autobase("0xDEADBEEF"), Ok(0xdead_beef));
    assert_eq!(parse_autobase("0x0"), Ok(0));
}

#[test]
fn parses_octal() {
    assert_eq!(parse_autobase("017"), Ok(15));
    assert_eq!(parse_autobase("0755"), Ok(0o755));
    assert_eq!(parse_autobase("00"), Ok(0));
}

#[test]
fn parses_decimal() {
    assert_eq!(parse_autobase("123"), Ok(123));
    assert_eq!(parse_autobase("4"), Ok(4));
    assert_eq!(parse_autobase("18446744073709551615"), Ok(usize::MAX));
}

#[test]
fn rejects_malformed_hex_digit() {
    assert_eq!(parse_autobase("0xg1"), Err(DumpError::MalformedNumber));
}

#[test]
fn rejects_digits_outside_base() {
    assert_eq!(parse_autobase("089"), Err(DumpError::MalformedNumber));
    assert_eq!(parse_autobase("12a"), Err(DumpError::MalformedNumber));
}

#[test]
fn rejects_empty_digit_strings() {
    assert_eq!(parse_autobase(""), Err(DumpError::MalformedNumber));
    assert_eq!(parse_autobase("0x"), Err(DumpError::MalformedNumber));
    assert_eq!(parse_autobase("0"), Err(DumpError::MalformedNumber));
}

#[test]
fn rejects_overflow() {
    assert_eq!(
        parse_autobase("0x10000000000000000"),
        Err(DumpError::MalformedNumber)
    );
    assert_eq!(
        parse_autobase("18446744073709551616"),
        Err(DumpError::MalformedNumber)
    );
}
