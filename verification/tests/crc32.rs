use sfu_uploader::crc32::{
    crc32_ieee8023, crc32_ieee8023_raw, crc32_ieee_selftest, crc32_sfu, crc32_sfu_raw,
    crc32_sfu_selftest,
};

#[test]
fn crc32_sfu_known_vectors() {
    assert_eq!(crc32_sfu(b"12345678"), 0xFEFC_54F9);
    assert_eq!(crc32_sfu(b"TESTABCD"), 0xB9CF_5238);
}

#[test]
fn crc32_ieee8023_known_vectors() {
    assert_eq!(crc32_ieee8023(b"12345678"), 0x9AE0_DAAF);
    assert_eq!(crc32_ieee8023(b"TESTABCD"), 0x1FA7_9460);
}

#[test]
fn crc32_ieee8023_incremental_equals_one_shot() {
    let full = b"helloworld";
    let head = b"hello";
    let tail = b"world";

    let one_shot = crc32_ieee8023(full);
    let head_crc = crc32_ieee8023(head);
    let incremental = crc32_ieee8023_raw(head_crc, tail);

    assert_eq!(one_shot, incremental);
}

#[test]
fn crc32_sfu_incremental_equals_one_shot() {
    // Lengths are multiples of 4, as required by the SFU variant.
    let full = b"1234ABCD";
    let head = b"1234";
    let tail = b"ABCD";

    let one_shot = crc32_sfu(full);
    let head_crc = crc32_sfu(head);
    let incremental = crc32_sfu_raw(head_crc, tail);

    assert_eq!(one_shot, incremental);
}

#[test]
fn crc32_selftests_pass() {
    assert!(crc32_sfu_selftest());
    assert!(crc32_ieee_selftest());
}

#[test]
fn crc32_sfu_ignores_trailing_partial_word() {
    // The SFU variant processes whole 32-bit words only.
    assert_eq!(crc32_sfu(b"1234567"), crc32_sfu(b"1234"));
    assert_eq!(crc32_sfu(b""), 0xFFFF_FFFF);
}
