use sfu_uploader::crc32::crc32_sfu;
use sfu_uploader::packet::packet_build_rx;
use sfu_uploader::uploader::{
    pad_firmware, Uploader, RESULT_DEVICE_TIMEOUT_ERROR, RESULT_DEVICE_WRITE_ERROR,
    RESULT_HOST_TIMEOUT_ERROR, RESULT_INFO_ERROR, RESULT_PARSE_WRITE_ERROR, RESULT_SPEED_ERROR,
    RESULT_SUCCESS, SFU_CMD_ERASE, SFU_CMD_ERASE_PART, SFU_CMD_HWRESET, SFU_CMD_INFO,
    SFU_CMD_SPEED, SFU_CMD_START, SFU_CMD_TIMEOUT, SFU_CMD_WRERROR, SFU_CMD_WRITE,
};

fn info_body(sfu_ver: u16, receive_size: u32, main_start: u32) -> Vec<u8> {
    let mut b = Vec::new();
    b.extend_from_slice(b"DEVICE-TEST1");
    b.extend_from_slice(&0x0042_0042u32.to_le_bytes());
    b.extend_from_slice(&1024u16.to_le_bytes());
    b.extend_from_slice(&sfu_ver.to_le_bytes());
    b.extend_from_slice(&receive_size.to_le_bytes());
    b.extend_from_slice(&main_start.to_le_bytes());
    b.extend_from_slice(&main_start.to_le_bytes());
    b
}

fn write_ack(addr: u32, buffered: u32) -> Vec<u8> {
    let mut b = addr.to_le_bytes().to_vec();
    b.extend_from_slice(&buffered.to_le_bytes());
    packet_build_rx(SFU_CMD_WRITE, &b)
}

fn start_ack(from: u32, count: u32, crc: u32) -> Vec<u8> {
    let mut b = from.to_le_bytes().to_vec();
    b.extend_from_slice(&count.to_le_bytes());
    b.extend_from_slice(&crc.to_le_bytes());
    packet_build_rx(SFU_CMD_START, &b)
}

#[test]
fn padding_rounds_up_with_ff() {
    assert_eq!(pad_firmware(vec![1, 2, 3]), vec![1, 2, 3, 0xFF]);
    assert_eq!(pad_firmware(vec![1]), vec![1, 0xFF, 0xFF, 0xFF]);
    assert_eq!(pad_firmware(vec![1, 2, 3, 4]), vec![1, 2, 3, 4]);
    assert_eq!(pad_firmware(vec![]), Vec::<u8>::new());
}

#[test]
fn info_only_session_succeeds_without_erase_or_write() {
    let mut up = Uploader::new(Vec::new(), 921600, 921600, true, false, false, 0);
    assert!(up.running(1));
    let frames = up.poll(1);
    assert_eq!(frames.len(), 1);
    assert_eq!(frames[0][4], SFU_CMD_INFO);

    let reply = packet_build_rx(SFU_CMD_INFO, &info_body(0x0100, 0x1000, 0x0800_8000));
    up.receive(&reply, 2);
    let actions = up.process(2);
    assert!(actions.is_empty());
    assert!(!up.running(3));
    assert_eq!(up.exit_code(), RESULT_SUCCESS);
}

#[test]
fn full_flash_of_16_kib_takes_eight_writes() {
    let fw = vec![0xFF; 0x4000];
    let fw_crc = crc32_sfu(&fw);
    let base: u32 = 0x0800_8000;
    let mut up = Uploader::new(fw, 921600, 921600, false, false, false, 0);
    let mut now: u64 = 1;

    // INFO
    let frames = up.poll(now);
    assert_eq!(frames.len(), 1);
    assert_eq!(frames[0][4], SFU_CMD_INFO);
    up.receive(&packet_build_rx(SFU_CMD_INFO, &info_body(0x0100, 0x2000, base)), now);
    up.process(now);

    // ERASE
    now += 10;
    let frames = up.poll(now);
    assert_eq!(frames.len(), 1);
    assert_eq!(frames[0][4], SFU_CMD_ERASE);
    assert_eq!(&frames[0][8..12], &0x4000u32.to_le_bytes());
    up.receive(&packet_build_rx(SFU_CMD_ERASE_PART, &1u32.to_le_bytes()), now);
    up.receive(&packet_build_rx(SFU_CMD_ERASE, &[0, 0, 0, 0]), now);
    up.process(now);
    assert!(up.erase_done());

    // WRITE pipeline: each frame acked in turn
    let mut write_frames = 0usize;
    let mut dev_addr = base;
    let mut start_seen = false;
    let mut start_frame_count = 0usize;
    while up.running(now) && now < 100_000 {
        now += 20;
        let frames = up.poll(now);
        for f in &frames {
            if f[4] == SFU_CMD_WRITE {
                write_frames += 1;
                assert_eq!(&f[8..12], &dev_addr.to_le_bytes());
                let payload = f.len() - 16;
                assert_eq!(payload, 0x800);
                dev_addr += payload as u32;
                up.receive(&write_ack(dev_addr, 0), now);
                up.process(now);
            } else if f[4] == SFU_CMD_START {
                start_frame_count += 1;
                assert_eq!(&f[8..12], &fw_crc.to_le_bytes());
                if !start_seen {
                    start_seen = true;
                    up.receive(&start_ack(base, 0x4000, fw_crc), now);
                    up.process(now);
                }
            }
        }
    }
    assert_eq!(write_frames, 8);
    assert_eq!(dev_addr, base + 0x4000);
    assert!(up.write_done());
    assert!(up.start_done());
    assert_eq!(start_frame_count, 1);
    assert_eq!(up.exit_code(), RESULT_SUCCESS);
    assert_eq!(up.resend_errors(), 0);
}

#[test]
fn duplicate_write_ack_rewinds_and_backs_off() {
    let fw = vec![0xAB; 0x2000]; // 4 blocks
    let fw_crc = crc32_sfu(&fw);
    let base: u32 = 0x0800_8000;
    let mut up = Uploader::new(fw, 921600, 921600, false, false, false, 0);
    let mut now: u64 = 1;

    up.poll(now);
    up.receive(&packet_build_rx(SFU_CMD_INFO, &info_body(0x0100, 0x2000, base)), now);
    up.process(now);
    now += 10;
    up.poll(now);
    up.receive(&packet_build_rx(SFU_CMD_ERASE, &[0, 0, 0, 0]), now);
    up.process(now);

    // first WRITE, acked forward
    now += 10;
    let frames = up.poll(now);
    assert_eq!(frames.len(), 1);
    assert_eq!(frames[0][4], SFU_CMD_WRITE);
    let a1 = base + 0x800;
    up.receive(&write_ack(a1, 0), now);
    up.process(now);

    // second WRITE, acked forward
    now += 10;
    let frames = up.poll(now);
    assert_eq!(frames.len(), 1);
    let a2 = a1 + 0x800;
    up.receive(&write_ack(a2, 0), now);
    up.process(now);

    // third WRITE, but the device acks the second address again
    now += 10;
    let frames = up.poll(now);
    assert_eq!(frames.len(), 1);
    assert_eq!(&frames[0][8..12], &a2.to_le_bytes());
    let dup_at = now;
    up.receive(&write_ack(a2, 0), now);
    up.process(now);
    assert_eq!(up.resend_errors(), 1);

    // the resend is delayed by the 250 ms back-off
    let frames = up.poll(dup_at + 200);
    assert!(frames.is_empty());
    now = dup_at + 251;
    let frames = up.poll(now);
    assert_eq!(frames.len(), 1);
    assert_eq!(frames[0][4], SFU_CMD_WRITE);
    // the cursor was rewound: the resent frame carries the duplicate address
    assert_eq!(&frames[0][8..12], &a2.to_le_bytes());

    // the device acknowledges the resent frame; from here all is forward
    let mut dev_addr = a2 + 0x800;
    up.receive(&write_ack(dev_addr, 0), now);
    up.process(now);
    let mut start_seen = false;
    while up.running(now) && now < 100_000 {
        now += 20;
        let frames = up.poll(now);
        for f in &frames {
            if f[4] == SFU_CMD_WRITE {
                dev_addr += (f.len() - 16) as u32;
                up.receive(&write_ack(dev_addr, 0), now);
                up.process(now);
            } else if f[4] == SFU_CMD_START && !start_seen {
                start_seen = true;
                up.receive(&start_ack(base, 0x2000, fw_crc), now);
                up.process(now);
            }
        }
    }
    assert_eq!(up.exit_code(), RESULT_SUCCESS);
    assert_eq!(up.resend_errors(), 1);
    assert!(up.write_done());
}

#[test]
fn device_write_error_ends_the_session() {
    let fw = vec![0x55; 0x1000];
    let base: u32 = 0x0800_8000;
    let mut up = Uploader::new(fw, 921600, 921600, false, false, false, 0);
    let mut now: u64 = 1;

    up.poll(now);
    up.receive(&packet_build_rx(SFU_CMD_INFO, &info_body(0x0100, 0x2000, base)), now);
    up.process(now);
    now += 10;
    up.poll(now);
    up.receive(&packet_build_rx(SFU_CMD_ERASE, &[0, 0, 0, 0]), now);
    up.process(now);

    // one WRITE goes out, then the device reports a write failure
    now += 10;
    let frames = up.poll(now);
    assert!(frames.iter().any(|f| f[4] == SFU_CMD_WRITE));
    up.receive(&packet_build_rx(SFU_CMD_WRERROR, &[0, 0, 0, 0]), now);
    up.process(now);
    assert!(!up.running(now + 1));
    assert_eq!(up.exit_code(), RESULT_DEVICE_WRITE_ERROR);
    assert!(!up.start_done());
}

#[test]
fn silent_device_times_out_after_two_minutes() {
    let fw = vec![0x00; 0x1000];
    let mut up = Uploader::new(fw, 921600, 921600, false, false, false, 0);
    let mut now: u64 = 1;
    let mut info_frames = 0usize;
    while up.running(now) {
        let frames = up.poll(now);
        for f in &frames {
            assert_eq!(f[4], SFU_CMD_INFO);
            info_frames += 1;
        }
        now += 100;
    }
    assert!(now >= 120_000);
    assert!(info_frames >= 100);
    assert_eq!(up.exit_code(), RESULT_HOST_TIMEOUT_ERROR);
}

#[test]
fn undecodable_replies_map_to_their_exit_codes() {
    // INFO body shorter than 32 bytes
    let mut up = Uploader::new(vec![0u8; 4], 921600, 921600, false, false, false, 0);
    up.receive(&packet_build_rx(SFU_CMD_INFO, &[0u8; 28]), 1);
    up.process(1);
    assert!(!up.running(2));
    assert_eq!(up.exit_code(), RESULT_INFO_ERROR);

    // SPEED body that is neither 4 nor 8 bytes
    let mut up = Uploader::new(vec![0u8; 4], 921600, 1_000_000, false, false, false, 0);
    up.receive(&packet_build_rx(SFU_CMD_SPEED, &[0u8; 12]), 1);
    up.process(1);
    assert_eq!(up.exit_code(), RESULT_SPEED_ERROR);

    // WRITE ack body shorter than 8 bytes
    let mut up = Uploader::new(vec![0u8; 4], 921600, 921600, false, false, false, 0);
    up.receive(&packet_build_rx(SFU_CMD_WRITE, &[0u8; 4]), 1);
    up.process(1);
    assert_eq!(up.exit_code(), RESULT_PARSE_WRITE_ERROR);

    // a device-reported timeout
    let mut up = Uploader::new(vec![0u8; 4], 921600, 921600, false, false, false, 0);
    up.receive(&packet_build_rx(SFU_CMD_TIMEOUT, &[0u8; 4]), 1);
    up.process(1);
    assert_eq!(up.exit_code(), RESULT_DEVICE_TIMEOUT_ERROR);
}

#[test]
fn in_flight_estimate_falls_by_one_frame_per_ack() {
    let fw = vec![0x11; 0x2000];
    let base: u32 = 0x0800_8000;
    let mut up = Uploader::new(fw, 921600, 921600, false, false, false, 0);
    up.poll(1);
    up.receive(&packet_build_rx(SFU_CMD_INFO, &info_body(0x0100, 0x2000, base)), 1);
    up.process(1);
    up.poll(11);
    up.receive(&packet_build_rx(SFU_CMD_ERASE, &[0, 0, 0, 0]), 11);
    up.process(11);
    assert_eq!(up.in_flight_estimate(), 0);

    let frames = up.poll(21);
    assert_eq!(frames.len(), 1);
    let on_wire = frames[0].len() as u64;
    assert_eq!(up.in_flight_estimate(), on_wire);

    up.receive(&write_ack(base + 0x800, 0), 21);
    up.process(21);
    assert_eq!(up.in_flight_estimate(), 0);
}

#[test]
fn no_prewrite_gates_writes_on_erase_completion() {
    let fw = vec![0x77; 0x1000];
    let base: u32 = 0x0800_8000;
    let mut up = Uploader::new(fw, 921600, 921600, false, false, true, 0);
    up.poll(1);
    up.receive(&packet_build_rx(SFU_CMD_INFO, &info_body(0x0100, 0x2000, base)), 1);
    up.process(1);
    up.poll(11);

    // erasing has begun but not finished: with no_prewrite, no WRITE yet
    up.receive(&packet_build_rx(SFU_CMD_ERASE_PART, &1u32.to_le_bytes()), 11);
    up.process(11);
    let frames = up.poll(21);
    assert!(frames.iter().all(|f| f[4] != SFU_CMD_WRITE));
    assert!(frames.iter().all(|f| f[4] != SFU_CMD_START));

    up.receive(&packet_build_rx(SFU_CMD_ERASE, &[0, 0, 0, 0]), 21);
    up.process(21);
    let frames = up.poll(31);
    assert!(frames.iter().any(|f| f[4] == SFU_CMD_WRITE));
}

#[test]
fn overlapped_write_starts_on_first_erase_progress() {
    let fw = vec![0x77; 0x1000];
    let base: u32 = 0x0800_8000;
    let mut up = Uploader::new(fw, 921600, 921600, false, false, false, 0);
    up.poll(1);
    up.receive(&packet_build_rx(SFU_CMD_INFO, &info_body(0x0100, 0x2000, base)), 1);
    up.process(1);
    up.poll(11);
    up.receive(&packet_build_rx(SFU_CMD_ERASE_PART, &1u32.to_le_bytes()), 11);
    up.process(11);
    let frames = up.poll(21);
    assert!(frames.iter().any(|f| f[4] == SFU_CMD_WRITE));
}

#[test]
fn hwreset_reschedules_the_info_request() {
    let mut up = Uploader::new(vec![0u8; 4], 921600, 921600, false, false, false, 0);
    let frames = up.poll(1);
    assert_eq!(frames.len(), 1); // INFO went out, next INFO at t > 1001
    up.receive(&packet_build_rx(SFU_CMD_HWRESET, &[0, 0, 0, 0]), 10);
    up.process(10);
    // the reset pulled the INFO retry in to t > 110
    assert!(up.poll(110).is_empty());
    let frames = up.poll(111);
    assert_eq!(frames.len(), 1);
    assert_eq!(frames[0][4], SFU_CMD_INFO);
}

#[test]
fn speed_exchange_changes_the_rate_and_reconfirms() {
    let fw = vec![0x22; 0x1000];
    let base: u32 = 0x0800_8000;
    let mut up = Uploader::new(fw, 921600, 1_000_000, false, false, false, 0);
    let mut now: u64 = 1;

    up.poll(now);
    // a modern device: sfu_ver >= 0x0200 keeps the SPEED phase alive
    up.receive(&packet_build_rx(SFU_CMD_INFO, &info_body(0x0200, 0x2000, base)), now);
    up.process(now);

    // SPEED query goes out before any ERASE
    now += 10;
    let frames = up.poll(now);
    assert_eq!(frames.len(), 1);
    assert_eq!(frames[0][4], SFU_CMD_SPEED);
    assert_eq!(frames[0].len(), 12); // empty body: a query

    // the reply reports the current rate; the change request follows
    up.receive(&packet_build_rx(SFU_CMD_SPEED, &921600u32.to_le_bytes()), now);
    up.process(now);
    now += 10;
    let frames = up.poll(now);
    assert_eq!(frames.len(), 1);
    assert_eq!(frames[0][4], SFU_CMD_SPEED);
    assert_eq!(&frames[0][8..12], &1_000_000u32.to_le_bytes());

    // the change reply asks the program to switch the port rate
    let mut body = 921600u32.to_le_bytes().to_vec();
    body.extend_from_slice(&1_000_000u32.to_le_bytes());
    up.receive(&packet_build_rx(SFU_CMD_SPEED, &body), now);
    let actions = up.process(now);
    assert_eq!(actions, vec![1_000_000]);

    // a confirming query at the new rate completes the phase; ERASE follows
    now += 301;
    let frames = up.poll(now);
    assert_eq!(frames.len(), 1);
    assert_eq!(frames[0][4], SFU_CMD_SPEED);
    up.receive(&packet_build_rx(SFU_CMD_SPEED, &1_000_000u32.to_le_bytes()), now);
    up.process(now);
    now += 10;
    let frames = up.poll(now);
    assert_eq!(frames.len(), 1);
    assert_eq!(frames[0][4], SFU_CMD_ERASE);
}

#[test]
fn speed_query_exhaustion_skips_the_phase() {
    let fw = vec![0x22; 0x1000];
    let base: u32 = 0x0800_8000;
    let mut up = Uploader::new(fw, 921600, 1_000_000, false, false, false, 0);
    let mut now: u64 = 1;
    up.poll(now);
    up.receive(&packet_build_rx(SFU_CMD_INFO, &info_body(0x0200, 0x2000, base)), now);
    up.process(now);

    // four unanswered queries, then the phase is abandoned and ERASE follows
    let mut speed_frames = 0usize;
    let mut erase_seen = false;
    for _ in 0..6 {
        now += 301;
        for f in up.poll(now) {
            if f[4] == SFU_CMD_SPEED {
                speed_frames += 1;
            } else if f[4] == SFU_CMD_ERASE {
                erase_seen = true;
            }
        }
    }
    assert_eq!(speed_frames, 4);
    assert!(erase_seen);
}

#[test]
fn old_bootloader_skips_the_speed_phase() {
    let fw = vec![0x22; 0x1000];
    let base: u32 = 0x0800_8000;
    let mut up = Uploader::new(fw, 921600, 1_000_000, false, false, false, 0);
    up.poll(1);
    // sfu_ver < 0x0200: the device does not understand SPEED
    up.receive(&packet_build_rx(SFU_CMD_INFO, &info_body(0x0100, 0x2000, base)), 1);
    up.process(1);
    let frames = up.poll(11);
    assert_eq!(frames.len(), 1);
    assert!(frames[0][4] != SFU_CMD_SPEED);
    assert_eq!(frames[0][4], SFU_CMD_ERASE);
}

#[test]
fn erase_only_erases_the_whole_flash_and_stops() {
    let mut up = Uploader::new(Vec::new(), 921600, 921600, false, true, false, 0);
    up.poll(1);
    // flash size 1024 KiB from the INFO body
    up.receive(&packet_build_rx(SFU_CMD_INFO, &info_body(0x0100, 0x2000, 0x0800_8000)), 1);
    up.process(1);
    let frames = up.poll(11);
    assert_eq!(frames.len(), 1);
    assert_eq!(frames[0][4], SFU_CMD_ERASE);
    assert_eq!(&frames[0][8..12], &(1024u32 * 1024).to_le_bytes());
    up.receive(&packet_build_rx(SFU_CMD_ERASE, &[0, 0, 0, 0]), 11);
    up.process(11);
    assert!(!up.running(12));
    assert_eq!(up.exit_code(), RESULT_SUCCESS);
}
