use sfu_uploader::crc32::crc32_sfu;
use sfu_uploader::packet::{packet_build, packet_build_rx, PacketParser, MAX_PACKET_SIZE};

#[test]
fn built_frame_has_the_wire_layout() {
    let frame = packet_build(0x97, &[1, 2, 3, 4]);
    // signature, code, inverted code, little-endian length
    assert_eq!(&frame[..4], &[0x81, 0x7E, 0xA3, 0x45]);
    assert_eq!(frame[4], 0x97);
    assert_eq!(frame[5], 0x97 ^ 0xFF);
    assert_eq!(&frame[6..8], &[4, 0]);
    assert_eq!(&frame[8..12], &[1, 2, 3, 4]);
    let crc = crc32_sfu(&frame[4..12]);
    assert_eq!(&frame[12..], &crc.to_le_bytes());
    assert_eq!(frame.len(), 16);

    let rx = packet_build_rx(0x97, &[1, 2, 3, 4]);
    assert_eq!(&rx[..4], &[0x45, 0xA3, 0x7E, 0x81]);
    assert_eq!(&rx[4..], &frame[4..]);
}

#[test]
fn frame_roundtrip_files_the_body() {
    let mut p = PacketParser::new(0);
    let body = [0xDE, 0xAD, 0xBE, 0xEF];
    let frame = packet_build_rx(0xC5, &body);
    assert_eq!((frame.len()) % 4, 0);
    p.receive_data(&frame, 1);
    assert_eq!(p.stat_valid_packets, 1);
    assert_eq!(p.stat_crc_error_packets, 0);
    assert_eq!(p.stat_incomplete_bytes, 0);
    assert_eq!(p.pop_packet(0xC5), Some(body.to_vec()));
    assert_eq!(p.pop_packet(0xC5), None);
}

#[test]
fn per_code_fifo_keeps_arrival_order() {
    let mut p = PacketParser::new(0);
    let f1 = packet_build_rx(0x38, &[1, 1, 1, 1]);
    let f2 = packet_build_rx(0x38, &[2, 2, 2, 2]);
    p.receive_data(&f1, 1);
    p.receive_data(&f2, 1);
    assert_eq!(p.stat_valid_packets, 2);
    assert_eq!(p.pop_packet(0x38), Some(vec![1, 1, 1, 1]));
    assert_eq!(p.pop_packet(0x38), Some(vec![2, 2, 2, 2]));
    assert_eq!(p.pop_packet(0x38), None);
}

#[test]
fn corrupted_crc_is_counted_not_filed() {
    let mut p = PacketParser::new(0);
    let mut frame = packet_build_rx(0x97, &[9, 9, 9, 9]);
    let last = frame.len() - 1;
    frame[last] ^= 0xFF;
    p.receive_data(&frame, 1);
    assert_eq!(p.stat_valid_packets, 0);
    assert_eq!(p.stat_crc_error_packets, 1);
    assert_eq!(p.pop_packet(0x97), None);
}

#[test]
fn malformed_length_skips_exactly_the_declared_bytes() {
    let mut p = PacketParser::new(0);
    // declared body length 1: total 13 is not a multiple of 4
    let mut stream = vec![0x45, 0xA3, 0x7E, 0x81, 0x42, 0x42 ^ 0xFF, 1, 0];
    stream.extend_from_slice(&[0xAA; 5]); // declared body (1) + CRC (4)
    p.receive_data(&stream, 1);
    assert_eq!(p.stat_size_or_code_error_packets, 1);
    assert_eq!(p.stat_log_bytes, 0); // skipped bytes are not logs
    // the parser is idle again: a valid frame right after still parses
    let frame = packet_build_rx(0x42, &[7, 7, 7, 7]);
    p.receive_data(&frame, 1);
    assert_eq!(p.stat_valid_packets, 1);
    assert_eq!(p.pop_packet(0x42), Some(vec![7, 7, 7, 7]));
}

#[test]
fn oversize_length_is_rejected() {
    let mut p = PacketParser::new(0);
    let len = (MAX_PACKET_SIZE - 12 + 4) as u16; // 4 over the cap, multiple of 4
    let mut stream = vec![0x45, 0xA3, 0x7E, 0x81, 0x11, 0x11 ^ 0xFF];
    stream.extend_from_slice(&len.to_le_bytes());
    stream.extend_from_slice(&vec![0u8; len as usize + 4]);
    p.receive_data(&stream, 1);
    assert_eq!(p.stat_size_or_code_error_packets, 1);
    assert_eq!(p.stat_valid_packets, 0);
}

#[test]
fn inverted_code_mismatch_skips_the_length_field() {
    let mut p = PacketParser::new(0);
    let stream = [0x45, 0xA3, 0x7E, 0x81, 0x42, 0x42, 0xEE, 0xEE];
    p.receive_data(&stream, 1);
    assert_eq!(p.stat_size_or_code_error_packets, 1);
    assert_eq!(p.stat_log_bytes, 0);
    let frame = packet_build_rx(0x42, &[7, 7, 7, 7]);
    p.receive_data(&frame, 1);
    assert_eq!(p.stat_valid_packets, 1);
}

#[test]
fn partial_signature_reclassifies_as_log_in_order() {
    let mut p = PacketParser::new(0);
    // two signature bytes, then a mismatch
    p.receive_data(&[0x45, 0xA3, b'X'], 1);
    assert_eq!(p.stat_log_bytes, 3);
    // 0x45 is printable 'E', 0xA3 becomes an upper-case escape, then 'X'
    assert_eq!(p.current_log_line, b"E<A3>X".to_vec());
    p.receive_data(&[b'\n'], 2);
    assert_eq!(p.pop_log(), Some("E<A3>X".to_string()));
}

#[test]
fn log_byte_interleaving_with_frames() {
    let mut p = PacketParser::new(0);
    let mut stream = b"HELLO\n".to_vec();
    stream.extend_from_slice(&packet_build_rx(0x97, &[5, 6, 7, 8]));
    stream.extend_from_slice(b"WORLD\n");
    p.receive_data(&stream, 1);
    assert_eq!(p.stat_valid_packets, 1);
    assert_eq!(p.stat_crc_error_packets, 0);
    assert_eq!(p.stat_log_lines, 2);
    assert_eq!(p.pop_log(), Some("HELLO".to_string()));
    assert_eq!(p.pop_log(), Some("WORLD".to_string()));
    assert_eq!(p.pop_log(), None);
    assert_eq!(p.pop_packet(0x97), Some(vec![5, 6, 7, 8]));
}

#[test]
fn log_classifier_handles_cr_tab_and_escapes() {
    let mut p = PacketParser::new(0);
    p.receive_data(b"a\rb", 1);
    assert_eq!(p.current_log_line, b"ab".to_vec());
    p.receive_data(b"\t", 1);
    // the line is 2 long; a tab pads with spaces to length 7 modulo 8
    assert_eq!(p.current_log_line.len(), 7);
    p.receive_data(&[0x01], 1);
    assert_eq!(&p.current_log_line[7..], b"<01>");
    assert_eq!(p.stat_log_bytes, 5);
}

#[test]
fn inactive_log_line_is_flushed_by_tick() {
    let mut p = PacketParser::new(0);
    p.receive_data(b"pending", 1000);
    assert_eq!(p.stat_log_lines, 0);
    // the byte at t=1000 set the inactivity deadline to t=1250
    p.tick(1250);
    assert_eq!(p.stat_log_lines, 0);
    p.tick(1251);
    assert_eq!(p.stat_log_lines, 1);
    assert_eq!(p.pop_log(), Some("pending".to_string()));
}

#[test]
fn overlong_log_line_flushes_at_cap() {
    let mut p = PacketParser::new(0);
    let bytes = vec![b'x'; 256];
    p.receive_data(&bytes, 1);
    assert_eq!(p.stat_log_lines, 1);
    assert_eq!(p.pop_log().unwrap().len(), 256);
    assert!(p.current_log_line.is_empty());
}

#[test]
fn reset_clears_state_and_counters() {
    let mut p = PacketParser::new(0);
    p.receive_data(b"text\n", 1);
    p.receive_data(&packet_build_rx(0x97, &[1, 2, 3, 4]), 1);
    p.reset(2);
    assert_eq!(p.stat_valid_packets, 0);
    assert_eq!(p.stat_log_bytes, 0);
    assert_eq!(p.pop_log(), None);
    assert_eq!(p.pop_packet(0x97), None);
}

#[test]
fn reset_error_stats_keeps_successes() {
    let mut p = PacketParser::new(0);
    let mut bad = packet_build_rx(0x97, &[1, 2, 3, 4]);
    let last = bad.len() - 1;
    bad[last] ^= 0xFF;
    p.receive_data(&bad, 1);
    p.receive_data(&packet_build_rx(0x97, &[1, 2, 3, 4]), 1);
    assert_eq!(p.stat_crc_error_packets, 1);
    p.reset_error_stats();
    assert_eq!(p.stat_crc_error_packets, 0);
    assert_eq!(p.stat_valid_packets, 1);
    assert_eq!(p.pop_packet(0x97), Some(vec![1, 2, 3, 4]));
}
