use sfu_uploader::cmdline::{normalize_port, parse_bin_or_hex};
use sfu_uploader::misc::{
    deserialize_bytes, deserialize_u16_le, deserialize_u32_le, serialize_u32_le,
    strip_trailing_newline, tostr,
};

#[test]
fn le_field_codecs_roundtrip() {
    let buf = [0x78, 0x56, 0x34, 0x12, 0xAA, 0xBB];
    assert_eq!(deserialize_u32_le(&buf, 0), 0x1234_5678);
    assert_eq!(deserialize_u16_le(&buf, 4), 0xBBAA);
    assert_eq!(deserialize_bytes(&buf, 1, 3), vec![0x56, 0x34, 0x12]);
    assert_eq!(serialize_u32_le(0x1234_5678), vec![0x78, 0x56, 0x34, 0x12]);
}

#[test]
fn tostr_escapes_non_printable_bytes() {
    assert_eq!(tostr(b"AB"), "AB");
    assert_eq!(tostr(&[0x41, 0x00, 0xFF, 0x7F]), "A<00><ff>\u{7f}");
    assert_eq!(tostr(&[]), "");
}

#[test]
fn strip_trailing_newline_handles_both_endings() {
    assert_eq!(strip_trailing_newline("abc\r\n"), "abc");
    assert_eq!(strip_trailing_newline("abc\n"), "abc");
    assert_eq!(strip_trailing_newline("abc"), "abc");
    assert_eq!(strip_trailing_newline("\n"), "");
    assert_eq!(strip_trailing_newline(""), "");
}

#[test]
fn bin_or_hex_reads_all_three_forms() {
    assert_eq!(parse_bin_or_hex("0b01"), Some(1));
    assert_eq!(parse_bin_or_hex("0b10"), Some(2));
    assert_eq!(parse_bin_or_hex("0x0003"), Some(3));
    assert_eq!(parse_bin_or_hex("1F"), Some(0x1F));
    assert_eq!(parse_bin_or_hex("ffff"), Some(0xFFFF));
    assert_eq!(parse_bin_or_hex("0XAB"), Some(0xAB));
    assert_eq!(parse_bin_or_hex("0B11"), Some(3));
}

#[test]
fn bin_or_hex_rejects_bad_input() {
    assert_eq!(parse_bin_or_hex(""), None);
    assert_eq!(parse_bin_or_hex("0b"), None);
    assert_eq!(parse_bin_or_hex("0x"), None);
    assert_eq!(parse_bin_or_hex("0b12"), None);
    assert_eq!(parse_bin_or_hex("xyz"), None);
    assert_eq!(parse_bin_or_hex("100000000"), None);
    assert_eq!(parse_bin_or_hex("ffffffff"), Some(0xFFFF_FFFF));
}

#[test]
fn port_names_normalize_per_platform() {
    assert_eq!(normalize_port("ttyUSB0", false), "/dev/ttyUSB0");
    assert_eq!(normalize_port("/dev/ttyACM0", false), "/dev/ttyACM0");
    assert_eq!(normalize_port("COM5", true), "\\\\.\\COM5");
    assert_eq!(normalize_port("com7", true), "\\\\.\\com7");
    assert_eq!(normalize_port("\\\\.\\COM5", true), "\\\\.\\COM5");
    assert_eq!(normalize_port("C:\\dev\\port", true), "C:\\dev\\port");
}
