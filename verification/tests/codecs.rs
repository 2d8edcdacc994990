use sfu_uploader::codecs::{
    parse_erase_info, parse_sfu_info, parse_speed_info, parse_start_info, parse_write_info,
    SpeedInfo,
};

fn info_body(
    device_id: &[u8; 12],
    cpu_type: u32,
    flash_kib: u16,
    sfu_ver: u16,
    receive_size: u32,
    main_start: u32,
    main_run: u32,
) -> Vec<u8> {
    let mut b = Vec::new();
    b.extend_from_slice(device_id);
    b.extend_from_slice(&cpu_type.to_le_bytes());
    b.extend_from_slice(&flash_kib.to_le_bytes());
    b.extend_from_slice(&sfu_ver.to_le_bytes());
    b.extend_from_slice(&receive_size.to_le_bytes());
    b.extend_from_slice(&main_start.to_le_bytes());
    b.extend_from_slice(&main_run.to_le_bytes());
    b
}

#[test]
fn sfu_info_decodes_every_field() {
    let body = info_body(
        b"DEVICE-01\0\0\0",
        0x1234_5678,
        512,
        0x0203,
        0x1000,
        0x0800_8000,
        0x0800_8400,
    );
    let info = parse_sfu_info(&body, 0x4000).unwrap();
    assert_eq!(info.device_id, b"DEVICE-01\0\0\0".to_vec());
    assert_eq!(info.cpu_type, 0x1234_5678);
    assert_eq!(info.flash_size_correct, 512 * 1024);
    assert_eq!(info.sfu_ver, 0x0203);
    assert_eq!(info.receive_size, 0x1000);
    assert_eq!(info.main_start_from, 0x0800_8000);
    assert_eq!(info.main_run_from, 0x0800_8400);
    assert_eq!(info.firmware_end_at, 0x0800_8000 + 0x4000);
}

#[test]
fn sfu_info_rejects_short_body() {
    assert!(parse_sfu_info(&[0u8; 31], 0).is_none());
    assert!(parse_sfu_info(&[], 0).is_none());
}

#[test]
fn erase_info_reads_partition_index() {
    assert_eq!(parse_erase_info(&7u32.to_le_bytes()), Some(7));
    assert!(parse_erase_info(&[1, 2, 3]).is_none());
}

#[test]
fn speed_info_distinguishes_get_and_change() {
    match parse_speed_info(&921600u32.to_le_bytes()) {
        Some(SpeedInfo::GET(v)) => assert_eq!(v, 921600),
        _ => panic!("expected a GET reply"),
    }
    let mut body = 921600u32.to_le_bytes().to_vec();
    body.extend_from_slice(&1_000_000u32.to_le_bytes());
    match parse_speed_info(&body) {
        Some(SpeedInfo::CHANGE(ch)) => {
            assert_eq!(ch.old_bod, 921600);
            assert_eq!(ch.new_bod, 1_000_000);
        }
        _ => panic!("expected a CHANGE reply"),
    }
    assert!(parse_speed_info(&[0u8; 5]).is_none());
    assert!(parse_speed_info(&[]).is_none());
}

#[test]
fn write_info_reads_address_and_count() {
    let mut body = 0x0800_9000u32.to_le_bytes().to_vec();
    body.extend_from_slice(&128u32.to_le_bytes());
    let wi = parse_write_info(&body).unwrap();
    assert_eq!(wi.mcu_write_addr, 0x0800_9000);
    assert_eq!(wi.mcu_receive_count, 128);
    assert!(parse_write_info(&body[..7]).is_none());
}

#[test]
fn start_info_reads_range_and_crc() {
    let mut body = 0x0800_8000u32.to_le_bytes().to_vec();
    body.extend_from_slice(&0x4000u32.to_le_bytes());
    body.extend_from_slice(&0xDEAD_BEEFu32.to_le_bytes());
    let si = parse_start_info(&body).unwrap();
    assert_eq!(si.mcu_from, 0x0800_8000);
    assert_eq!(si.mcu_count, 0x4000);
    assert_eq!(si.mcu_crc32, 0xDEAD_BEEF);
    assert!(parse_start_info(&body[..11]).is_none());
}
