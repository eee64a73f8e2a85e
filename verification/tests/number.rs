//! Numeric literal parsing.

use asm6502::{NumberFormat, NumberParser};

#[test]
fn test_hex_formats() {
    assert_eq!(NumberParser::parse("$FF").unwrap(), 255);
    assert_eq!(NumberParser::parse("$ff").unwrap(), 255);
    assert_eq!(NumberParser::parse("0xFF").unwrap(), 255);
    assert_eq!(NumberParser::parse("0xFFh").unwrap(), 255);
    assert_eq!(NumberParser::parse("$1234").unwrap(), 0x1234);
    assert_eq!(NumberParser::parse("$10000").unwrap(), 0x10000);
}

#[test]
fn test_binary_formats() {
    assert_eq!(NumberParser::parse("%11111111").unwrap(), 255);
    assert_eq!(NumberParser::parse("0b11111111").unwrap(), 255);
    assert_eq!(NumberParser::parse("%10101010").unwrap(), 0xAA);
}

#[test]
fn test_decimal() {
    assert_eq!(NumberParser::parse("255").unwrap(), 255);
    assert_eq!(NumberParser::parse("0").unwrap(), 0);
    assert_eq!(NumberParser::parse("65535").unwrap(), 65535);
    assert_eq!(NumberParser::parse("65536").unwrap(), 65536);
}

#[test]
fn test_format_detection() {
    assert_eq!(NumberParser::detect_format("$FF"), NumberFormat::Hexadecimal);
    assert_eq!(NumberParser::detect_format("%11111111"), NumberFormat::Binary);
    assert_eq!(NumberParser::detect_format("255"), NumberFormat::Decimal);
}

#[test]
fn test_bad_digits_are_rejected() {
    assert!(NumberParser::parse("$GG").is_err());
    assert!(NumberParser::parse("%12").is_err());
    assert!(NumberParser::parse("12a").is_err());
    assert!(NumberParser::parse("").is_err());
    assert!(NumberParser::parse("$").is_err());
}

#[test]
fn test_value_must_fit_in_32_bits() {
    assert_eq!(NumberParser::parse("$FFFFFFFF").unwrap(), 0xFFFF_FFFF);
    assert!(NumberParser::parse("$100000000").is_err());
    assert!(NumberParser::parse("4294967296").is_err());
    assert_eq!(NumberParser::parse("4294967295").unwrap(), u32::MAX);
}

#[test]
fn test_whitespace_is_trimmed() {
    assert_eq!(NumberParser::parse("  $FF  ").unwrap(), 255);
    assert_eq!(NumberParser::detect_format("  %1  "), NumberFormat::Binary);
}
