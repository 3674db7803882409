//! Texts, and bytes as hexadecimal digits.

use fl::hexadecimal::encode;
use fl::piv::apdu::hex;
use fl::text::{contains, parse_u32, rest_after_last, same, trim, trim_line_end};

#[test]
fn contains_finds_text_at_start_middle_and_end() {
    assert!(contains("ccid: power on", "ccid"));
    assert!(contains("ccid: power on", "power"));
    assert!(contains("ccid: power on", "on"));
    assert!(!contains("ccid: power on", "off"));
    assert!(!contains("cc", "ccid"));
}

#[test]
fn contains_empty_text_always() {
    assert!(contains("", ""));
    assert!(contains("abc", ""));
    assert!(!contains("", "a"));
}

#[test]
fn contains_counts_characters_not_bytes() {
    assert!(contains("größe", "öß"));
    assert!(!contains("größe", "os"));
}

#[test]
fn trim_takes_white_space_from_both_ends() {
    assert_eq!(trim("  a b\t\r\n"), "a b");
    assert_eq!(trim("\u{2003}x\u{3000}"), "x");
    assert_eq!(trim(" \u{85}\u{a0} "), "");
    assert_eq!(trim("\u{200b}x"), "\u{200b}x");
    assert_eq!(trim(""), "");
}

#[test]
fn trim_agrees_with_std_on_every_character() {
    for code in 0u32..0x3100 {
        if let Some(c) = char::from_u32(code) {
            let text = format!("{c}a{c}");
            assert_eq!(trim(&text), text.trim());
        }
    }
}

#[test]
fn trim_line_end_keeps_other_white_space() {
    assert_eq!(trim_line_end("a \r\n\r\n"), "a ");
    assert_eq!(trim_line_end("\n"), "");
    assert_eq!(trim_line_end("\nx"), "\nx");
}

#[test]
fn rest_after_last_separator() {
    assert_eq!(rest_after_last("12:34:ab", ':'), "ab");
    assert_eq!(rest_after_last("ab", ':'), "ab");
    assert_eq!(rest_after_last("ab:", ':'), "");
    assert_eq!(rest_after_last("", ':'), "");
}

#[test]
fn same_compares_whole_texts() {
    assert!(same("--serve", "--serve"));
    assert!(!same("--serve", "--server"));
    assert!(!same("", "x"));
}

#[test]
fn parse_u32_reads_what_std_reads() {
    for text in [
        "0", "7", "+7", "007", "4294967295", "4294967296", "99999999999999", "", "+", "-1", "1a", " 1",
        "++1", "\u{661}",
    ] {
        assert_eq!(parse_u32(text), text.parse::<u32>().ok(), "{text:?}");
    }
    assert_eq!(parse_u32("4294967295"), Some(u32::MAX));
    assert_eq!(parse_u32("4294967296"), None);
    assert_eq!(parse_u32("+262144"), Some(262144));
}

#[test]
fn hex_writes_two_digits_for_each_byte() {
    assert_eq!(hex(&[0x00, 0x0f, 0xa4, 0xff]), "000fa4ff");
    assert_eq!(hex(&[]), "");
    assert_eq!(encode(&[0x9a]), "9a");
}

#[test]
fn hex_agrees_with_the_hex_crate() {
    let bytes: Vec<u8> = (0u8..=255).collect();
    assert_eq!(encode(&bytes), hex::encode(&bytes));
    assert_eq!(hex::decode(encode(&bytes)), Ok(bytes));
}
