//! The event-driven upload controller.
//!
//! The controller sequences INFO, the optional SPEED exchange, ERASE, the
//! pipelined WRITE stream and START, honouring device backpressure (an
//! in-flight byte window and a burst cap), recovering from duplicate WRITE
//! acknowledgements by rewinding and backing off, and deciding the session's
//! exit code.  It owns the stream parser; the surrounding program only moves
//! bytes between it and the serial port and applies the actions it returns.

use vstd::prelude::*;
use crate::codecs::{SfuInfoModel, spec_parse_sfu_info, parse_sfu_info, parse_speed_info, parse_write_info, parse_start_info, SpeedInfo};
use crate::packet::{PacketParser, ParserModel, spec_parser_init, spec_tick, spec_steps, tx_frame_bytes, packet_build, sat_add64};
use crate::misc::{u32_le_bytes, serialize_u32_le, u32_le_at};
use crate::crc32::{crc32_sfu, spec_crc32_sfu};

verus! {

/// Per-partition erase progress report (device to host).
pub const SFU_CMD_ERASE_PART: u8 = 0xB3;

/// Device information query.
pub const SFU_CMD_INFO: u8 = 0x97;

/// Whole-area erase request and its completion reply.
pub const SFU_CMD_ERASE: u8 = 0xC5;

/// Firmware data write and its acknowledgement.
pub const SFU_CMD_WRITE: u8 = 0x38;

/// Hand control to the written image; carries the host CRC.
pub const SFU_CMD_START: u8 = 0x26;

/// Baud-rate query and change.
pub const SFU_CMD_SPEED: u8 = 0x4B;

/// Device-reported timeout.
pub const SFU_CMD_TIMEOUT: u8 = 0xAA;

/// Device-reported write failure.
pub const SFU_CMD_WRERROR: u8 = 0x55;

/// Device announces it has just reset.
pub const SFU_CMD_HWRESET: u8 = 0x11;

/// Payload bytes carried by one WRITE frame (after the 4-byte address).
pub const WR_BLOCK_SIZE: usize = 0x800;

/// Session ended with the image started successfully.
pub const RESULT_SUCCESS: u8 = 0;

/// Malformed command line (reported by the surrounding program).
pub const RESULT_PARAM_ERROR: u8 = 2;

/// Firmware file could not be read (reported by the surrounding program).
pub const RESULT_FW_LOAD_ERROR: u8 = 3;

/// Pre-session hardware reset failed (reported by the surrounding program).
pub const RESULT_RESET_ERROR: u8 = 4;

/// The host-side wall-clock deadline expired.
pub const RESULT_HOST_TIMEOUT_ERROR: u8 = 5;

/// The device reported a timeout.
pub const RESULT_DEVICE_TIMEOUT_ERROR: u8 = 10;

/// Erase could not be carried out.
pub const RESULT_ERASE_ERROR: u8 = 11;

/// An INFO reply could not be decoded.
pub const RESULT_INFO_ERROR: u8 = 12;

/// A WRITE acknowledgement could not be decoded.
pub const RESULT_PARSE_WRITE_ERROR: u8 = 13;

/// The device reported a write failure.
pub const RESULT_DEVICE_WRITE_ERROR: u8 = 14;

/// A SPEED reply could not be decoded.
pub const RESULT_SPEED_ERROR: u8 = 15;

/// Mathematical image of the controller's session state.
#[verifier::ext_equal]
pub struct SessionModel {
    pub info_only: bool,
    pub erase_only: bool,
    pub no_prewrite: bool,
    pub baud_init: u32,
    pub baud_main: u32,
    /// The padded firmware image.
    pub fw: Seq<u8>,
    /// SFU CRC32 of the padded image.
    pub fw_crc: u32,
    pub dev_info: Option<SfuInfoModel>,
    pub erase_began: bool,
    pub erase_done: bool,
    pub write_done: bool,
    pub start_done: bool,
    pub speed_get_done: bool,
    pub speed_set_done: bool,
    pub speed_get_attempts: u32,
    /// Next address the host will write.
    pub wr_addr: u32,
    /// Address carried by the previous WRITE acknowledgement.
    pub last_mcu_addr: u32,
    /// Base address: where the image begins in flash.
    pub addr_shift: u32,
    /// Estimated unacknowledged on-wire bytes.
    pub inflight: u64,
    /// Device input-buffer capacity.
    pub inflight_limit: u64,
    /// Measured on-wire size of one WRITE frame.
    pub actual: u64,
    /// Bytes sent since the last acknowledgement.
    pub bulk: u64,
    pub bulk_limit: u64,
    /// Session wall-clock deadline.
    pub t_close: u64,
    pub t_info: u64,
    pub t_erase: u64,
    pub t_write: u64,
    pub t_start: u64,
    pub t_speed_get: u64,
    pub t_speed_set: u64,
    /// Current duplicate-ack back-off delay.
    pub resend: u64,
    pub resend_errors: u64,
    pub result: u8,
    pub run: bool,
}

/// Mathematical image of the whole controller: session plus stream parser.
#[verifier::ext_equal]
pub struct UploaderModel {
    pub s: SessionModel,
    pub parser: ParserModel,
}

/// The session as constructed, before any byte has been exchanged.
pub open spec fn spec_session_init(
    fw: Seq<u8>,
    baud_init: u32,
    baud_main: u32,
    info_only: bool,
    erase_only: bool,
    no_prewrite: bool,
    now: u64,
) -> SessionModel {
    SessionModel {
        info_only,
        erase_only,
        no_prewrite,
        baud_init,
        baud_main,
        fw,
        fw_crc: spec_crc32_sfu(fw),
        dev_info: None,
        erase_began: false,
        erase_done: false,
        write_done: false,
        start_done: false,
        speed_get_done: baud_main == baud_init,
        speed_set_done: baud_main == baud_init,
        speed_get_attempts: 4,
        wr_addr: 0,
        last_mcu_addr: 0,
        addr_shift: 0,
        inflight: 0,
        inflight_limit: 0x10000,
        actual: WR_BLOCK_SIZE as u64,
        bulk: 0,
        bulk_limit: 0x8000,
        t_close: sat_add64(now, 120_000),
        t_info: now,
        t_erase: now,
        t_write: now,
        t_start: now,
        t_speed_get: now,
        t_speed_set: now,
        resend: 250,
        resend_errors: 0,
        result: RESULT_HOST_TIMEOUT_ERROR,
        run: true,
    }
}

// ---------------------------------------------------------------------------
// Request emission (the gated timers)
// ---------------------------------------------------------------------------

/// INFO is re-sent while no device information has arrived.
pub open spec fn spec_poll_info(s: SessionModel, now: u64) -> (SessionModel, Seq<Seq<u8>>) {
    if s.dev_info is None && now > s.t_info {
        (
            SessionModel { t_info: sat_add64(now, 1000), ..s },
            seq![tx_frame_bytes(SFU_CMD_INFO, Seq::empty())],
        )
    } else {
        (s, Seq::empty())
    }
}

/// The SPEED exchange runs only between INFO and the first erase progress.
pub open spec fn spec_speed_window(s: SessionModel) -> bool {
    s.dev_info is Some && !s.erase_done && !s.erase_began && !s.write_done
}

/// SPEED query: up to four attempts; on exhaustion the phase is skipped.
pub open spec fn spec_poll_speed_get(s: SessionModel, now: u64) -> (SessionModel, Seq<Seq<u8>>) {
    if spec_speed_window(s) && now > s.t_speed_get && !s.speed_get_done {
        if s.speed_get_attempts > 0 {
            (
                SessionModel {
                    t_speed_get: sat_add64(now, 300),
                    speed_get_attempts: (s.speed_get_attempts - 1) as u32,
                    ..s
                },
                seq![tx_frame_bytes(SFU_CMD_SPEED, Seq::empty())],
            )
        } else {
            (SessionModel { speed_get_done: true, speed_set_done: true, ..s }, Seq::empty())
        }
    } else {
        (s, Seq::empty())
    }
}

/// SPEED change request, carrying the requested main baud rate.
pub open spec fn spec_poll_speed_set(s: SessionModel, now: u64) -> (SessionModel, Seq<Seq<u8>>) {
    if spec_speed_window(s) && now > s.t_speed_set && s.speed_get_done && !s.speed_set_done {
        (
            SessionModel { t_speed_set: sat_add64(now, 1000), ..s },
            seq![tx_frame_bytes(SFU_CMD_SPEED, u32_le_bytes(s.baud_main))],
        )
    } else {
        (s, Seq::empty())
    }
}

/// ERASE request: the firmware length, or the whole flash in erase-only mode.
pub open spec fn spec_poll_erase(s: SessionModel, now: u64) -> (SessionModel, Seq<Seq<u8>>) {
    if s.dev_info is Some && now > s.t_erase && !s.erase_began && !s.erase_done && !s.write_done
        && s.speed_set_done && s.speed_get_done {
        let amount = if s.erase_only {
            match s.dev_info {
                Some(di) => di.flash_size_correct,
                None => 0,
            }
        } else {
            s.fw.len() as u32
        };
        (
            SessionModel { t_erase: sat_add64(now, 1000), ..s },
            seq![tx_frame_bytes(SFU_CMD_ERASE, u32_le_bytes(amount))],
        )
    } else {
        (s, Seq::empty())
    }
}

/// Writing is allowed once erasing has begun, or only once it has finished
/// when overlapped writes are disabled.
pub open spec fn spec_write_gate(s: SessionModel) -> bool {
    (s.erase_began && !s.no_prewrite) || s.erase_done
}

/// All conditions for even considering a WRITE emission.
pub open spec fn spec_write_due(s: SessionModel, now: u64) -> bool {
    now > s.t_write && spec_write_gate(s) && !s.write_done && s.speed_set_done && s.speed_get_done
}

/// Device-buffer window and burst cap, each with room for two more frames.
pub open spec fn spec_window_ok(s: SessionModel) -> bool {
    s.inflight + s.actual * 2 <= s.inflight_limit && s.bulk + s.actual * 2 <= s.bulk_limit
}

/// One WRITE emission: the next block of the image, sliced at the cursor,
/// prefixed by its flash address; accounting updated, the first frame's
/// true on-wire size latched.
pub open spec fn spec_poll_write(s: SessionModel, now: u64) -> (SessionModel, Seq<Seq<u8>>) {
    if spec_write_due(s, now) {
        if spec_window_ok(s) {
            let start = s.wr_addr.wrapping_sub(s.addr_shift) as int;
            let end = if start + WR_BLOCK_SIZE >= s.fw.len() {
                s.fw.len() as int
            } else {
                start + WR_BLOCK_SIZE
            };
            if start < end {
                let frame = tx_frame_bytes(
                    SFU_CMD_WRITE,
                    u32_le_bytes(s.wr_addr) + s.fw.subrange(start, end),
                );
                let inflight2 = sat_add64(s.inflight, frame.len() as u64);
                let actual2 = if s.actual == WR_BLOCK_SIZE as u64 {
                    (inflight2 - s.inflight) as u64
                } else {
                    s.actual
                };
                (
                    SessionModel {
                        wr_addr: s.wr_addr.wrapping_add((end - start) as u32),
                        inflight: inflight2,
                        actual: actual2,
                        bulk: sat_add64(s.bulk, actual2),
                        ..s
                    },
                    seq![frame],
                )
            } else {
                let actual2 = if s.actual == WR_BLOCK_SIZE as u64 {
                    0u64
                } else {
                    s.actual
                };
                (
                    SessionModel { actual: actual2, bulk: sat_add64(s.bulk, actual2), ..s },
                    Seq::empty(),
                )
            }
        } else {
            (SessionModel { t_write: sat_add64(now, 10), ..s }, Seq::empty())
        }
    } else {
        (s, Seq::empty())
    }
}

/// START request, carrying the host-computed image CRC.
pub open spec fn spec_poll_start(s: SessionModel, now: u64) -> (SessionModel, Seq<Seq<u8>>) {
    if s.erase_done && s.write_done && s.speed_set_done && s.speed_get_done && now > s.t_start {
        (
            SessionModel { t_start: sat_add64(now, 1000), ..s },
            seq![tx_frame_bytes(SFU_CMD_START, u32_le_bytes(s.fw_crc))],
        )
    } else {
        (s, Seq::empty())
    }
}

/// One pass over all gated timers, in their fixed order; the frames are to
/// be written to the port in the order returned.
pub open spec fn spec_poll(s: SessionModel, now: u64) -> (SessionModel, Seq<Seq<u8>>) {
    let (s1, f1) = spec_poll_info(s, now);
    let (s2, f2) = spec_poll_speed_get(s1, now);
    let (s3, f3) = spec_poll_speed_set(s2, now);
    let (s4, f4) = spec_poll_erase(s3, now);
    let (s5, f5) = spec_poll_write(s4, now);
    let (s6, f6) = spec_poll_start(s5, now);
    (s6, f1 + f2 + f3 + f4 + f5 + f6)
}

// ---------------------------------------------------------------------------
// Reply handling
// ---------------------------------------------------------------------------

/// HWRESET: the device rebooted; ask for INFO again shortly.
pub open spec fn spec_handle_hwreset(s: SessionModel, body: Seq<u8>, now: u64) -> SessionModel {
    SessionModel { t_info: sat_add64(now, 100), ..s }
}

/// INFO reply: adopt the device information and initialize the write
/// cursor, address base and in-flight window; in info-only mode the session
/// is complete.  An undecodable body is fatal.
pub open spec fn spec_handle_info(s: SessionModel, body: Seq<u8>, now: u64) -> SessionModel {
    if body.len() >= 32 {
        let info = spec_parse_sfu_info(body, s.fw.len() as u32);
        let s1 = SessionModel {
            dev_info: Some(info),
            wr_addr: info.main_start_from,
            addr_shift: info.main_start_from,
            inflight_limit: info.receive_size as u64,
            run: !s.info_only,
            result: if s.info_only {
                RESULT_SUCCESS
            } else {
                s.result
            },
            ..s
        };
        if info.sfu_ver < 0x200 {
            SessionModel { speed_get_done: true, speed_set_done: true, ..s1 }
        } else {
            s1
        }
    } else {
        SessionModel { dev_info: None, result: RESULT_INFO_ERROR, run: false, ..s }
    }
}

/// ERASE_PART: erasing is under way; the burst counter resets.
pub open spec fn spec_handle_erase_part(s: SessionModel, body: Seq<u8>, now: u64) -> SessionModel {
    SessionModel { erase_began: true, bulk: 0, ..s }
}

/// ERASE reply: erasing finished; in erase-only mode the session is complete.
pub open spec fn spec_handle_erase(s: SessionModel, body: Seq<u8>, now: u64) -> SessionModel {
    SessionModel {
        erase_done: true,
        run: !s.erase_only,
        result: if s.erase_only {
            RESULT_SUCCESS
        } else {
            s.result
        },
        ..s
    }
}

/// SPEED reply: a 4-byte query reply schedules the change request at once; an
/// 8-byte change reply asks the program to switch the port to the new rate
/// and re-confirms with a fresh query; anything else is fatal.
pub open spec fn spec_handle_speed(s: SessionModel, body: Seq<u8>, now: u64) -> (
    SessionModel,
    Seq<u32>,
) {
    if body.len() == 4 {
        (SessionModel { t_speed_set: now, speed_get_done: true, ..s }, Seq::empty())
    } else if body.len() == 8 {
        (
            SessionModel {
                speed_set_done: true,
                speed_get_done: false,
                t_speed_get: sat_add64(now, 300),
                ..s
            },
            seq![u32_le_at(body, 4)],
        )
    } else {
        (SessionModel { result: RESULT_SPEED_ERROR, run: false, ..s }, Seq::empty())
    }
}

/// WRITE acknowledgement: the in-flight estimate drops by one frame
/// (clamped at zero) and the burst counter resets.  An address equal to the
/// previous acknowledgement means lost data: rewind the cursor there, delay
/// the next WRITE by the current back-off and grow the back-off by 250 ms.
/// Reaching the image's end address completes the write phase.  An
/// undecodable body is fatal.
pub open spec fn spec_handle_write(s: SessionModel, body: Seq<u8>, now: u64) -> SessionModel {
    if body.len() >= 8 {
        let a = u32_le_at(body, 0);
        let s1 = SessionModel {
            bulk: 0,
            inflight: if s.inflight < s.actual {
                0u64
            } else {
                (s.inflight - s.actual) as u64
            },
            ..s
        };
        let s2 = if s.last_mcu_addr == a {
            SessionModel {
                wr_addr: a,
                t_write: sat_add64(now, s1.resend),
                resend: sat_add64(s1.resend, 250),
                resend_errors: sat_add64(s1.resend_errors, 1),
                ..s1
            }
        } else {
            s1
        };
        let s3 = SessionModel { last_mcu_addr: a, ..s2 };
        let at_end = match s.dev_info {
            Some(di) => a == di.firmware_end_at,
            None => false,
        };
        if at_end {
            SessionModel { write_done: true, ..s3 }
        } else {
            s3
        }
    } else {
        SessionModel { result: RESULT_PARSE_WRITE_ERROR, run: false, ..s }
    }
}

/// START reply: success; linger briefly to drain residual logs, then stop.
/// A short body is ignored.
pub open spec fn spec_handle_start(s: SessionModel, body: Seq<u8>, now: u64) -> SessionModel {
    if body.len() >= 12 {
        SessionModel { t_close: sat_add64(now, 500), result: RESULT_SUCCESS, start_done: true, ..s }
    } else {
        s
    }
}

/// WRERROR: fatal device-side write failure.
pub open spec fn spec_handle_wrerror(s: SessionModel, body: Seq<u8>, now: u64) -> SessionModel {
    SessionModel { result: RESULT_DEVICE_WRITE_ERROR, run: false, ..s }
}

/// TIMEOUT: the device saw the host time out; fatal.
pub open spec fn spec_handle_timeout(s: SessionModel, body: Seq<u8>, now: u64) -> SessionModel {
    SessionModel { result: RESULT_DEVICE_TIMEOUT_ERROR, run: false, ..s }
}

/// One decoded frame body, dispatched by its command code.  The second
/// component lists baud rates the program must switch the port to.
pub open spec fn spec_handle_frame(s: SessionModel, code: u8, body: Seq<u8>, now: u64) -> (
    SessionModel,
    Seq<u32>,
) {
    if code == SFU_CMD_HWRESET {
        (spec_handle_hwreset(s, body, now), Seq::empty())
    } else if code == SFU_CMD_INFO {
        (spec_handle_info(s, body, now), Seq::empty())
    } else if code == SFU_CMD_ERASE_PART {
        (spec_handle_erase_part(s, body, now), Seq::empty())
    } else if code == SFU_CMD_ERASE {
        (spec_handle_erase(s, body, now), Seq::empty())
    } else if code == SFU_CMD_SPEED {
        spec_handle_speed(s, body, now)
    } else if code == SFU_CMD_WRITE {
        (spec_handle_write(s, body, now), Seq::empty())
    } else if code == SFU_CMD_START {
        (spec_handle_start(s, body, now), Seq::empty())
    } else if code == SFU_CMD_WRERROR {
        (spec_handle_wrerror(s, body, now), Seq::empty())
    } else if code == SFU_CMD_TIMEOUT {
        (spec_handle_timeout(s, body, now), Seq::empty())
    } else {
        (s, Seq::empty())
    }
}

/// A whole queue of bodies under one code, oldest first.
pub open spec fn spec_drain(s: SessionModel, code: u8, bodies: Seq<Seq<u8>>, now: u64) -> (
    SessionModel,
    Seq<u32>,
)
    decreases bodies.len(),
{
    if bodies.len() == 0 {
        (s, Seq::empty())
    } else {
        let (s1, a1) = spec_handle_frame(s, code, bodies[0], now);
        let (s2, a2) = spec_drain(s1, code, bodies.skip(1), now);
        (s2, a1 + a2)
    }
}

/// Draining one code empties that inbox queue.
pub open spec fn spec_process_code(s: SessionModel, p: ParserModel, code: u8, now: u64) -> (
    SessionModel,
    ParserModel,
    Seq<u32>,
) {
    if (code as int) < p.inbox.len() {
        let (s2, acts) = spec_drain(s, code, p.inbox[code as int], now);
        (s2, ParserModel { inbox: p.inbox.update(code as int, Seq::empty()), ..p }, acts)
    } else {
        (s, p, Seq::empty())
    }
}

/// One processing pass: every command code's queue drained, in fixed order.
pub open spec fn spec_process(s: SessionModel, p: ParserModel, now: u64) -> (
    SessionModel,
    ParserModel,
    Seq<u32>,
) {
    let (s1, p1, a1) = spec_process_code(s, p, SFU_CMD_HWRESET, now);
    let (s2, p2, a2) = spec_process_code(s1, p1, SFU_CMD_INFO, now);
    let (s3, p3, a3) = spec_process_code(s2, p2, SFU_CMD_ERASE_PART, now);
    let (s4, p4, a4) = spec_process_code(s3, p3, SFU_CMD_ERASE, now);
    let (s5, p5, a5) = spec_process_code(s4, p4, SFU_CMD_SPEED, now);
    let (s6, p6, a6) = spec_process_code(s5, p5, SFU_CMD_WRITE, now);
    let (s7, p7, a7) = spec_process_code(s6, p6, SFU_CMD_START, now);
    let (s8, p8, a8) = spec_process_code(s7, p7, SFU_CMD_WRERROR, now);
    let (s9, p9, a9) = spec_process_code(s8, p8, SFU_CMD_TIMEOUT, now);
    (s9, p9, a1 + a2 + a3 + a4 + a5 + a6 + a7 + a8 + a9)
}

/// The 0xFF padding that rounds an image up to a whole number of words.
pub open spec fn spec_pad(fw: Seq<u8>) -> Seq<u8> {
    fw + Seq::new(((4 - fw.len() % 4) % 4) as nat, |i: int| 0xFFu8)
}

/// Pads a firmware image with 0xFF to a multiple of 4 bytes, as the wire
/// CRC requires.
pub fn pad_firmware(fw: Vec<u8>) -> (r: Vec<u8>)
    ensures
        r@ == spec_pad(fw@),
        r@.len() % 4 == 0,
{
    let mut r = fw;
    let ghost fw0 = r@;
    let rem: usize = r.len() % 4;
    if rem != 0 {
        let k: usize = 4 - rem;
        let mut c: usize = 0;
        while c < k
            invariant
                c <= k,
                k == 4 - fw0.len() % 4,
                fw0.len() % 4 != 0,
                r@ == fw0 + Seq::new(c as nat, |i: int| 0xFFu8),
            decreases k - c,
        {
            r.push(0xFF);
            proof {
                assert(r@ =~= fw0 + Seq::new(c as nat + 1, |i: int| 0xFFu8));
            }
            c = c + 1;
        }
    } else {
        proof {
            assert(r@ =~= fw0 + Seq::new(0, |i: int| 0xFFu8));
        }
    }
    proof {
        assert(r@ =~= spec_pad(fw0));
    }
    r
}

/// The uploader controller: session state plus the owned stream parser.
pub struct Uploader {
    /// The stream parser fed by the session's serial reads.
    pub parser: PacketParser,
    fw_bin: Vec<u8>,
    info_only: bool,
    erase_only: bool,
    no_prewrite: bool,
    baud_init: u32,
    baud_main: u32,
    fw_crc: u32,
    dev_info: Option<crate::codecs::SfuInfo>,
    erase_began: bool,
    erase_done: bool,
    write_done: bool,
    start_done: bool,
    speed_get_done: bool,
    speed_set_done: bool,
    speed_get_attempts: u32,
    wr_addr: u32,
    last_mcu_addr: u32,
    addr_shift: u32,
    inflight: u64,
    inflight_limit: u64,
    actual: u64,
    bulk: u64,
    bulk_limit: u64,
    t_close: u64,
    t_info: u64,
    t_erase: u64,
    t_write: u64,
    t_start: u64,
    t_speed_get: u64,
    t_speed_set: u64,
    resend: u64,
    resend_errors: u64,
    result: u8,
    run: bool,
}

impl View for Uploader {
    type V = UploaderModel;

    closed spec fn view(&self) -> UploaderModel {
        UploaderModel {
            s: SessionModel {
                info_only: self.info_only,
                erase_only: self.erase_only,
                no_prewrite: self.no_prewrite,
                baud_init: self.baud_init,
                baud_main: self.baud_main,
                fw: self.fw_bin@,
                fw_crc: self.fw_crc,
                dev_info: match self.dev_info {
                    Some(i) => Some(i@),
                    None => None,
                },
                erase_began: self.erase_began,
                erase_done: self.erase_done,
                write_done: self.write_done,
                start_done: self.start_done,
                speed_get_done: self.speed_get_done,
                speed_set_done: self.speed_set_done,
                speed_get_attempts: self.speed_get_attempts,
                wr_addr: self.wr_addr,
                last_mcu_addr: self.last_mcu_addr,
                addr_shift: self.addr_shift,
                inflight: self.inflight,
                inflight_limit: self.inflight_limit,
                actual: self.actual,
                bulk: self.bulk,
                bulk_limit: self.bulk_limit,
                t_close: self.t_close,
                t_info: self.t_info,
                t_erase: self.t_erase,
                t_write: self.t_write,
                t_start: self.t_start,
                t_speed_get: self.t_speed_get,
                t_speed_set: self.t_speed_set,
                resend: self.resend,
                resend_errors: self.resend_errors,
                result: self.result,
                run: self.run,
            },
            parser: self.parser@,
        }
    }
}

impl Uploader {
    /// Internal well-formedness: the image fits a 32-bit address space in
    /// whole words, the parser is sound, and the accounting stays within
    /// the bounds its arithmetic needs.
    pub closed spec fn wf(&self) -> bool {
        &&& self.parser.wf()
        &&& self.parser@.inbox.len() == 256
        &&& self.fw_bin@.len() % 4 == 0
        &&& self.fw_bin@.len() <= 0xFFFF_FFFF
        &&& self.inflight_limit <= 0x1_0000_0000
        &&& self.inflight <= 0x1_0000_1000
        &&& self.actual <= 0x1000
        &&& self.bulk_limit <= 0x1_0000_0000
        &&& self.bulk <= self.bulk_limit + 0x1000
    }

    /// A fresh session around a padded firmware image.
    pub fn new(
        fw_bin: Vec<u8>,
        baud_init: u32,
        baud_main: u32,
        info_only: bool,
        erase_only: bool,
        no_prewrite: bool,
        now: u64,
    ) -> (r: Uploader)
        requires
            fw_bin@.len() % 4 == 0,
            fw_bin@.len() <= 0xFFFF_FFFF,
        ensures
            r.wf(),
            r@.s == spec_session_init(
                fw_bin@,
                baud_init,
                baud_main,
                info_only,
                erase_only,
                no_prewrite,
                now,
            ),
            r@.parser == spec_parser_init(now),
    {
        let fw_crc = crc32_sfu(fw_bin.as_slice());
        let r = Uploader {
            parser: PacketParser::new(now),
            fw_bin,
            info_only,
            erase_only,
            no_prewrite,
            baud_init,
            baud_main,
            fw_crc,
            dev_info: None,
            erase_began: false,
            erase_done: false,
            write_done: false,
            start_done: false,
            speed_get_done: baud_main == baud_init,
            speed_set_done: baud_main == baud_init,
            speed_get_attempts: 4,
            wr_addr: 0,
            last_mcu_addr: 0,
            addr_shift: 0,
            inflight: 0,
            inflight_limit: 0x10000,
            actual: WR_BLOCK_SIZE as u64,
            bulk: 0,
            bulk_limit: 0x8000,
            t_close: now.saturating_add(120_000),
            t_info: now,
            t_erase: now,
            t_write: now,
            t_start: now,
            t_speed_get: now,
            t_speed_set: now,
            resend: 250,
            resend_errors: 0,
            result: RESULT_HOST_TIMEOUT_ERROR,
            run: true,
        };
        proof {
            assert(r@.s =~~= spec_session_init(
                r.fw_bin@,
                baud_init,
                baud_main,
                info_only,
                erase_only,
                no_prewrite,
                now,
            ));
        }
        r
    }

    /// The loop continues while no terminal condition has been reached and
    /// the wall-clock deadline has not expired.
    pub fn running(&self, now: u64) -> (r: bool)
        ensures
            r == (self@.s.run && now < self@.s.t_close),
    {
        self.run && now < self.t_close
    }

    /// The process exit code for the session as it stands.
    pub fn exit_code(&self) -> (r: u8)
        ensures
            r == self@.s.result,
    {
        self.result
    }

    /// Whether the device confirmed the end of erasing.
    pub fn erase_done(&self) -> (r: bool)
        ensures
            r == self@.s.erase_done,
    {
        self.erase_done
    }

    /// Whether the device acknowledged the whole image.
    pub fn write_done(&self) -> (r: bool)
        ensures
            r == self@.s.write_done,
    {
        self.write_done
    }

    /// Whether a START reply arrived.
    pub fn start_done(&self) -> (r: bool)
        ensures
            r == self@.s.start_done,
    {
        self.start_done
    }

    /// How many duplicate-ack recoveries the session performed.
    pub fn resend_errors(&self) -> (r: u64)
        ensures
            r == self@.s.resend_errors,
    {
        self.resend_errors
    }

    /// The current estimate of unacknowledged on-wire bytes.
    pub fn in_flight_estimate(&self) -> (r: u64)
        ensures
            r == self@.s.inflight,
    {
        self.inflight
    }

    /// Feeds bytes read from the port into the stream parser.
    pub fn receive(&mut self, data: &[u8], now: u64)
        requires
            old(self).wf(),
        ensures
            final(self).wf(),
            final(self)@.parser == spec_tick(
                spec_steps(old(self)@.parser, data@, now),
                now,
            ),
            final(self)@.s == old(self)@.s,
    {
        self.parser.receive_data(data, now);
        proof {
            crate::packet::lemma_steps_keep_inbox_len(old(self)@.parser, data@, now);
            crate::packet::lemma_tick_keeps_inbox(
                spec_steps(old(self)@.parser, data@, now),
                now,
            );
        }
    }

    /// Runs the parser's log-inactivity check without consuming bytes.
    pub fn tick(&mut self, now: u64)
        requires
            old(self).wf(),
        ensures
            final(self).wf(),
            final(self)@.parser == spec_tick(old(self)@.parser, now),
            final(self)@.s == old(self)@.s,
    {
        self.parser.tick(now);
        proof {
            crate::packet::lemma_tick_keeps_inbox(old(self)@.parser, now);
        }
    }
}

impl Uploader {
    fn poll_info(&mut self, now: u64, out: &mut Vec<Vec<u8>>)
        requires
            old(self).wf(),
        ensures
            final(self).wf(),
            final(self)@.s == spec_poll_info(old(self)@.s, now).0,
            final(self)@.parser == old(self)@.parser,
            final(out).deep_view() == old(out).deep_view() + spec_poll_info(old(self)@.s, now).1,
    {
        if self.dev_info.is_none() && now > self.t_info {
            let body: Vec<u8> = Vec::new();
            let frame = packet_build(SFU_CMD_INFO, body.as_slice());
            self.t_info = now.saturating_add(1000);
            out.push(frame);
            proof {
                assert(body@ =~= Seq::<u8>::empty());
                assert(self@.s =~~= spec_poll_info(old(self)@.s, now).0);
                assert(out.deep_view() =~~= old(out).deep_view() + spec_poll_info(
                    old(self)@.s,
                    now,
                ).1);
            }
        } else {
            proof {
                assert(out.deep_view() =~~= old(out).deep_view() + spec_poll_info(
                    old(self)@.s,
                    now,
                ).1);
            }
        }
    }

    fn poll_speed_get(&mut self, now: u64, out: &mut Vec<Vec<u8>>)
        requires
            old(self).wf(),
        ensures
            final(self).wf(),
            final(self)@.s == spec_poll_speed_get(old(self)@.s, now).0,
            final(self)@.parser == old(self)@.parser,
            final(out).deep_view() == old(out).deep_view() + spec_poll_speed_get(
                old(self)@.s,
                now,
            ).1,
    {
        if self.dev_info.is_some() && !self.erase_done && !self.erase_began && !self.write_done
            && now > self.t_speed_get && !self.speed_get_done {
            if self.speed_get_attempts > 0 {
                let body: Vec<u8> = Vec::new();
                let frame = packet_build(SFU_CMD_SPEED, body.as_slice());
                self.t_speed_get = now.saturating_add(300);
                self.speed_get_attempts = self.speed_get_attempts - 1;
                out.push(frame);
                proof {
                    assert(body@ =~= Seq::<u8>::empty());
                    assert(self@.s =~~= spec_poll_speed_get(old(self)@.s, now).0);
                    assert(out.deep_view() =~~= old(out).deep_view() + spec_poll_speed_get(
                        old(self)@.s,
                        now,
                    ).1);
                }
            } else {
                self.speed_get_done = true;
                self.speed_set_done = true;
                proof {
                    assert(self@.s =~~= spec_poll_speed_get(old(self)@.s, now).0);
                    assert(out.deep_view() =~~= old(out).deep_view() + spec_poll_speed_get(
                        old(self)@.s,
                        now,
                    ).1);
                }
            }
        } else {
            proof {
                assert(out.deep_view() =~~= old(out).deep_view() + spec_poll_speed_get(
                    old(self)@.s,
                    now,
                ).1);
            }
        }
    }

    fn poll_speed_set(&mut self, now: u64, out: &mut Vec<Vec<u8>>)
        requires
            old(self).wf(),
        ensures
            final(self).wf(),
            final(self)@.s == spec_poll_speed_set(old(self)@.s, now).0,
            final(self)@.parser == old(self)@.parser,
            final(out).deep_view() == old(out).deep_view() + spec_poll_speed_set(
                old(self)@.s,
                now,
            ).1,
    {
        if self.dev_info.is_some() && !self.erase_done && !self.erase_began && !self.write_done
            && now > self.t_speed_set && self.speed_get_done && !self.speed_set_done {
            let body = serialize_u32_le(self.baud_main);
            let frame = packet_build(SFU_CMD_SPEED, body.as_slice());
            self.t_speed_set = now.saturating_add(1000);
            out.push(frame);
            proof {
                assert(self@.s =~~= spec_poll_speed_set(old(self)@.s, now).0);
                assert(out.deep_view() =~~= old(out).deep_view() + spec_poll_speed_set(
                    old(self)@.s,
                    now,
                ).1);
            }
        } else {
            proof {
                assert(out.deep_view() =~~= old(out).deep_view() + spec_poll_speed_set(
                    old(self)@.s,
                    now,
                ).1);
            }
        }
    }

    fn poll_erase(&mut self, now: u64, out: &mut Vec<Vec<u8>>)
        requires
            old(self).wf(),
        ensures
            final(self).wf(),
            final(self)@.s == spec_poll_erase(old(self)@.s, now).0,
            final(self)@.parser == old(self)@.parser,
            final(out).deep_view() == old(out).deep_view() + spec_poll_erase(old(self)@.s, now).1,
    {
        if self.dev_info.is_some() && now > self.t_erase && !self.erase_began && !self.erase_done
            && !self.write_done && self.speed_set_done && self.speed_get_done {
            let amount: u32 = if self.erase_only {
                match &self.dev_info {
                    Some(di) => di.flash_size_correct,
                    None => 0,
                }
            } else {
                self.fw_bin.len() as u32
            };
            let body = serialize_u32_le(amount);
            let frame = packet_build(SFU_CMD_ERASE, body.as_slice());
            self.t_erase = now.saturating_add(1000);
            out.push(frame);
            proof {
                assert(self@.s =~~= spec_poll_erase(old(self)@.s, now).0);
                assert(out.deep_view() =~~= old(out).deep_view() + spec_poll_erase(
                    old(self)@.s,
                    now,
                ).1);
            }
        } else {
            proof {
                assert(out.deep_view() =~~= old(out).deep_view() + spec_poll_erase(
                    old(self)@.s,
                    now,
                ).1);
            }
        }
    }

    #[verifier::rlimit(100)]
    fn poll_write(&mut self, now: u64, out: &mut Vec<Vec<u8>>)
        requires
            old(self).wf(),
        ensures
            final(self).wf(),
            final(self)@.s == spec_poll_write(old(self)@.s, now).0,
            final(self)@.parser == old(self)@.parser,
            final(out).deep_view() == old(out).deep_view() + spec_poll_write(old(self)@.s, now).1,
    {
        if now > self.t_write && ((self.erase_began && !self.no_prewrite) || self.erase_done)
            && !self.write_done && self.speed_set_done && self.speed_get_done {
            if self.inflight + self.actual * 2 <= self.inflight_limit && self.bulk
                + self.actual * 2 <= self.bulk_limit {
                let start32: u32 = self.wr_addr.wrapping_sub(self.addr_shift);
                let start: usize = start32 as usize;
                let flen: usize = self.fw_bin.len();
                if start < flen {
                    let end: usize = if flen - start >= WR_BLOCK_SIZE {
                        start + WR_BLOCK_SIZE
                    } else {
                        flen
                    };
                    let ghost wr0 = self.wr_addr;
                    let mut fbody = serialize_u32_le(self.wr_addr);
                    let mut i: usize = start;
                    proof {
                        assert(fbody@ =~= u32_le_bytes(wr0) + self.fw_bin@.subrange(
                            start as int,
                            start as int,
                        ));
                    }
                    while i < end
                        invariant
                            start <= i <= end,
                            end <= self.fw_bin@.len(),
                            fbody@ == u32_le_bytes(wr0) + self.fw_bin@.subrange(
                                start as int,
                                i as int,
                            ),
                        decreases end - i,
                    {
                        fbody.push(self.fw_bin[i]);
                        proof {
                            assert(fbody@ =~= u32_le_bytes(wr0) + self.fw_bin@.subrange(
                                start as int,
                                i as int + 1,
                            ));
                        }
                        i = i + 1;
                    }
                    let frame = packet_build(SFU_CMD_WRITE, fbody.as_slice());
                    let flen64: u64 = frame.len() as u64;
                    let before: u64 = self.inflight;
                    self.wr_addr = self.wr_addr.wrapping_add((end - start) as u32);
                    self.inflight = before.saturating_add(flen64);
                    if self.actual == WR_BLOCK_SIZE as u64 {
                        self.actual = self.inflight - before;
                    }
                    self.bulk = self.bulk.saturating_add(self.actual);
                    out.push(frame);
                    proof {
                        assert(self@.s =~~= spec_poll_write(old(self)@.s, now).0);
                        assert(out.deep_view() =~~= old(out).deep_view() + spec_poll_write(
                            old(self)@.s,
                            now,
                        ).1);
                    }
                } else {
                    if self.actual == WR_BLOCK_SIZE as u64 {
                        self.actual = 0;
                    }
                    self.bulk = self.bulk.saturating_add(self.actual);
                    proof {
                        assert(self@.s =~~= spec_poll_write(old(self)@.s, now).0);
                        assert(out.deep_view() =~~= old(out).deep_view() + spec_poll_write(
                            old(self)@.s,
                            now,
                        ).1);
                    }
                }
            } else {
                self.t_write = now.saturating_add(10);
                proof {
                    assert(self@.s =~~= spec_poll_write(old(self)@.s, now).0);
                    assert(out.deep_view() =~~= old(out).deep_view() + spec_poll_write(
                        old(self)@.s,
                        now,
                    ).1);
                }
            }
        } else {
            proof {
                assert(out.deep_view() =~~= old(out).deep_view() + spec_poll_write(
                    old(self)@.s,
                    now,
                ).1);
            }
        }
    }

    fn poll_start(&mut self, now: u64, out: &mut Vec<Vec<u8>>)
        requires
            old(self).wf(),
        ensures
            final(self).wf(),
            final(self)@.s == spec_poll_start(old(self)@.s, now).0,
            final(self)@.parser == old(self)@.parser,
            final(out).deep_view() == old(out).deep_view() + spec_poll_start(old(self)@.s, now).1,
    {
        if self.erase_done && self.write_done && self.speed_set_done && self.speed_get_done && now
            > self.t_start {
            let body = serialize_u32_le(self.fw_crc);
            let frame = packet_build(SFU_CMD_START, body.as_slice());
            self.t_start = now.saturating_add(1000);
            out.push(frame);
            proof {
                assert(self@.s =~~= spec_poll_start(old(self)@.s, now).0);
                assert(out.deep_view() =~~= old(out).deep_view() + spec_poll_start(
                    old(self)@.s,
                    now,
                ).1);
            }
        } else {
            proof {
                assert(out.deep_view() =~~= old(out).deep_view() + spec_poll_start(
                    old(self)@.s,
                    now,
                ).1);
            }
        }
    }

    /// Evaluates every gated timer once and returns the frames to write to
    /// the port, in order.
    pub fn poll(&mut self, now: u64) -> (r: Vec<Vec<u8>>)
        requires
            old(self).wf(),
        ensures
            final(self).wf(),
            final(self)@.s == spec_poll(old(self)@.s, now).0,
            final(self)@.parser == old(self)@.parser,
            r.deep_view() == spec_poll(old(self)@.s, now).1,
    {
        let mut out: Vec<Vec<u8>> = Vec::new();
        proof {
            assert(out.deep_view() =~~= Seq::<Seq<u8>>::empty());
        }
        self.poll_info(now, &mut out);
        self.poll_speed_get(now, &mut out);
        self.poll_speed_set(now, &mut out);
        self.poll_erase(now, &mut out);
        self.poll_write(now, &mut out);
        self.poll_start(now, &mut out);
        proof {
            assert(out.deep_view() =~~= spec_poll(old(self)@.s, now).1);
        }
        out
    }

    fn do_hwreset(&mut self, now: u64)
        requires
            old(self).wf(),
        ensures
            final(self).wf(),
            final(self)@.s == spec_handle_hwreset(old(self)@.s, Seq::empty(), now),
            final(self)@.parser == old(self)@.parser,
    {
        self.t_info = now.saturating_add(100);
        proof {
            assert(self@.s =~~= spec_handle_hwreset(old(self)@.s, Seq::empty(), now));
        }
    }

    fn do_info(&mut self, body: &Vec<u8>, now: u64)
        requires
            old(self).wf(),
        ensures
            final(self).wf(),
            final(self)@.s == spec_handle_info(old(self)@.s, body@, now),
            final(self)@.parser == old(self)@.parser,
    {
        let fw_len: u32 = self.fw_bin.len() as u32;
        let info = parse_sfu_info(body.as_slice(), fw_len);
        match info {
            Some(i) => {
                self.wr_addr = i.main_start_from;
                self.addr_shift = i.main_start_from;
                self.inflight_limit = i.receive_size as u64;
                self.run = !self.info_only;
                if self.info_only {
                    self.result = RESULT_SUCCESS;
                }
                if i.sfu_ver < 0x200 {
                    self.speed_get_done = true;
                    self.speed_set_done = true;
                }
                self.dev_info = Some(i);
            },
            None => {
                self.dev_info = None;
                self.result = RESULT_INFO_ERROR;
                self.run = false;
            },
        }
        proof {
            assert(self@.s =~~= spec_handle_info(old(self)@.s, body@, now));
        }
    }

    fn do_erase_part(&mut self, now: u64)
        requires
            old(self).wf(),
        ensures
            final(self).wf(),
            final(self)@.s == spec_handle_erase_part(old(self)@.s, Seq::empty(), now),
            final(self)@.parser == old(self)@.parser,
    {
        self.erase_began = true;
        self.bulk = 0;
        proof {
            assert(self@.s =~~= spec_handle_erase_part(old(self)@.s, Seq::empty(), now));
        }
    }

    fn do_erase(&mut self, now: u64)
        requires
            old(self).wf(),
        ensures
            final(self).wf(),
            final(self)@.s == spec_handle_erase(old(self)@.s, Seq::empty(), now),
            final(self)@.parser == old(self)@.parser,
    {
        self.erase_done = true;
        self.run = !self.erase_only;
        if self.erase_only {
            self.result = RESULT_SUCCESS;
        }
        proof {
            assert(self@.s =~~= spec_handle_erase(old(self)@.s, Seq::empty(), now));
        }
    }

    fn do_speed(&mut self, body: &Vec<u8>, now: u64, actions: &mut Vec<u32>)
        requires
            old(self).wf(),
        ensures
            final(self).wf(),
            final(self)@.s == spec_handle_speed(old(self)@.s, body@, now).0,
            final(self)@.parser == old(self)@.parser,
            final(actions)@ == old(actions)@ + spec_handle_speed(old(self)@.s, body@, now).1,
    {
        let sp = parse_speed_info(body.as_slice());
        match sp {
            Some(SpeedInfo::GET(_v)) => {
                self.t_speed_set = now;
                self.speed_get_done = true;
            },
            Some(SpeedInfo::CHANGE(ch)) => {
                actions.push(ch.new_bod);
                self.speed_set_done = true;
                self.speed_get_done = false;
                self.t_speed_get = now.saturating_add(300);
            },
            None => {
                self.result = RESULT_SPEED_ERROR;
                self.run = false;
            },
        }
        proof {
            assert(self@.s =~~= spec_handle_speed(old(self)@.s, body@, now).0);
            assert(actions@ =~= old(actions)@ + spec_handle_speed(old(self)@.s, body@, now).1);
        }
    }

    #[verifier::rlimit(100)]
    fn do_write(&mut self, body: &Vec<u8>, now: u64)
        requires
            old(self).wf(),
        ensures
            final(self).wf(),
            final(self)@.s == spec_handle_write(old(self)@.s, body@, now),
            final(self)@.parser == old(self)@.parser,
    {
        let wi = parse_write_info(body.as_slice());
        match wi {
            Some(info) => {
                self.bulk = 0;
                if self.inflight < self.actual {
                    self.inflight = 0;
                } else {
                    self.inflight = self.inflight - self.actual;
                }
                if self.last_mcu_addr == info.mcu_write_addr {
                    self.wr_addr = info.mcu_write_addr;
                    self.t_write = now.saturating_add(self.resend);
                    self.resend = self.resend.saturating_add(250);
                    self.resend_errors = self.resend_errors.saturating_add(1);
                }
                self.last_mcu_addr = info.mcu_write_addr;
                let at_end: bool = match &self.dev_info {
                    Some(di) => info.mcu_write_addr == di.firmware_end_at,
                    None => false,
                };
                if at_end {
                    self.write_done = true;
                }
            },
            None => {
                self.result = RESULT_PARSE_WRITE_ERROR;
                self.run = false;
            },
        }
        proof {
            assert(self@.s =~~= spec_handle_write(old(self)@.s, body@, now));
        }
    }

    fn do_start(&mut self, body: &Vec<u8>, now: u64)
        requires
            old(self).wf(),
        ensures
            final(self).wf(),
            final(self)@.s == spec_handle_start(old(self)@.s, body@, now),
            final(self)@.parser == old(self)@.parser,
    {
        let si = parse_start_info(body.as_slice());
        match si {
            Some(_info) => {
                self.t_close = now.saturating_add(500);
                self.result = RESULT_SUCCESS;
                self.start_done = true;
            },
            None => {},
        }
        proof {
            assert(self@.s =~~= spec_handle_start(old(self)@.s, body@, now));
        }
    }

    /// Applies one decoded frame body to the session, dispatched by its
    /// command code; appends any baud-rate switch the program must perform.
    #[verifier::rlimit(100)]
    fn handle_frame(&mut self, code: u8, body: &Vec<u8>, now: u64, actions: &mut Vec<u32>)
        requires
            old(self).wf(),
        ensures
            final(self).wf(),
            final(self)@.s == spec_handle_frame(old(self)@.s, code, body@, now).0,
            final(self)@.parser == old(self)@.parser,
            final(actions)@ == old(actions)@ + spec_handle_frame(old(self)@.s, code, body@, now).1,
    {
        let ghost noact = old(actions)@ + Seq::<u32>::empty();
        proof {
            assert(noact =~= old(actions)@);
        }
        if code == SFU_CMD_HWRESET {
            self.do_hwreset(now);
            proof {
                assert(spec_handle_hwreset(old(self)@.s, Seq::empty(), now) == spec_handle_hwreset(
                    old(self)@.s,
                    body@,
                    now,
                ));
            }
        } else if code == SFU_CMD_INFO {
            self.do_info(body, now);
        } else if code == SFU_CMD_ERASE_PART {
            self.do_erase_part(now);
            proof {
                assert(spec_handle_erase_part(old(self)@.s, Seq::empty(), now)
                    == spec_handle_erase_part(old(self)@.s, body@, now));
            }
        } else if code == SFU_CMD_ERASE {
            self.do_erase(now);
            proof {
                assert(spec_handle_erase(old(self)@.s, Seq::empty(), now) == spec_handle_erase(
                    old(self)@.s,
                    body@,
                    now,
                ));
            }
        } else if code == SFU_CMD_SPEED {
            self.do_speed(body, now, actions);
        } else if code == SFU_CMD_WRITE {
            self.do_write(body, now);
        } else if code == SFU_CMD_START {
            self.do_start(body, now);
        } else if code == SFU_CMD_WRERROR {
            self.result = RESULT_DEVICE_WRITE_ERROR;
            self.run = false;
            proof {
                assert(self@.s =~~= spec_handle_wrerror(old(self)@.s, body@, now));
            }
        } else if code == SFU_CMD_TIMEOUT {
            self.result = RESULT_DEVICE_TIMEOUT_ERROR;
            self.run = false;
            proof {
                assert(self@.s =~~= spec_handle_timeout(old(self)@.s, body@, now));
            }
        }
    }

    #[verifier::rlimit(100)]
    fn drain_one(&mut self, code: u8, now: u64, actions: &mut Vec<u32>) -> (r: bool)
        requires
            old(self).wf(),
        ensures
            final(self).wf(),
            old(self)@.parser.inbox[code as int].len() == 0 ==> (!r && final(self)@ == old(self)@
                && final(actions)@ == old(actions)@),
            old(self)@.parser.inbox[code as int].len() > 0 ==> (r && ({
                let q = old(self)@.parser.inbox[code as int];
                let (s2, acts) = spec_handle_frame(old(self)@.s, code, q[0], now);
                final(self)@.s == s2 && final(self)@.parser == (ParserModel {
                    inbox: old(self)@.parser.inbox.update(code as int, q.skip(1)),
                    ..old(self)@.parser
                }) && final(actions)@ == old(actions)@ + acts
            })),
    {
        let popped = self.parser.pop_packet(code);
        match popped {
            Some(body) => {
                self.handle_frame(code, &body, now, actions);
                true
            },
            None => {
                proof {
                    assert(self@ =~~= old(self)@);
                }
                false
            },
        }
    }

    fn process_code(&mut self, code: u8, now: u64, actions: &mut Vec<u32>)
        requires
            old(self).wf(),
        ensures
            final(self).wf(),
            ({
                let (s2, p2, acts) = spec_process_code(
                    old(self)@.s,
                    old(self)@.parser,
                    code,
                    now,
                );
                final(self)@.s == s2 && final(self)@.parser == p2 && final(actions)@ == old(
                    actions,
                )@ + acts
            }),
    {
        let ghost s0 = self@.s;
        let ghost p0 = self@.parser;
        let ghost a0 = actions@;
        let ghost queue0 = p0.inbox[code as int];
        let ghost mut k: int = 0;
        proof {
            assert((code as int) < p0.inbox.len());
            assert(queue0.skip(0) =~= queue0);
            assert(p0.inbox.update(code as int, queue0.skip(0)) =~~= p0.inbox);
        }
        let mut more: bool = true;
        while more
            invariant
                self.wf(),
                0 <= k <= queue0.len(),
                (code as int) < p0.inbox.len(),
                queue0 == p0.inbox[code as int],
                self@.parser == (ParserModel {
                    inbox: p0.inbox.update(code as int, queue0.skip(k)),
                    ..p0
                }),
                spec_drain(self@.s, code, queue0.skip(k), now).0 == spec_drain(
                    s0,
                    code,
                    queue0,
                    now,
                ).0,
                actions@ + spec_drain(self@.s, code, queue0.skip(k), now).1 == a0 + spec_drain(
                    s0,
                    code,
                    queue0,
                    now,
                ).1,
                !more ==> queue0.skip(k).len() == 0,
            decreases queue0.len() - k + (if more {
                1int
            } else {
                0int
            }),
        {
            let ghost pre = self@;
            let ghost apre = actions@;
            more = self.drain_one(code, now, actions);
            proof {
                if pre.parser.inbox[code as int].len() > 0 {
                    assert(queue0.skip(k).len() > 0);
                    assert(queue0.skip(k)[0] == pre.parser.inbox[code as int][0]);
                    assert(queue0.skip(k).skip(1) =~= queue0.skip(k + 1));
                    assert(pre.parser.inbox.update(code as int, queue0.skip(k + 1)) =~~= p0
                        .inbox.update(code as int, queue0.skip(k + 1)));
                    k = k + 1;
                } else {
                    assert(queue0.skip(k).len() == 0);
                }
            }
        }
        proof {
            assert(queue0.skip(k) =~= Seq::<Seq<u8>>::empty());
            assert(spec_drain(self@.s, code, queue0.skip(k), now).0 == self@.s);
            assert(actions@ + spec_drain(self@.s, code, queue0.skip(k), now).1 =~= actions@);
            assert(self@.parser =~~= (ParserModel {
                inbox: p0.inbox.update(code as int, Seq::empty()),
                ..p0
            }));
        }
    }

    /// Drains every command code's inbox queue in the fixed order and
    /// advances the session accordingly; returns the baud rates the program
    /// must switch the port to, in order.
    pub fn process(&mut self, now: u64) -> (r: Vec<u32>)
        requires
            old(self).wf(),
        ensures
            final(self).wf(),
            ({
                let (s2, p2, acts) = spec_process(old(self)@.s, old(self)@.parser, now);
                final(self)@.s == s2 && final(self)@.parser == p2 && r@ == acts
            }),
    {
        let mut actions: Vec<u32> = Vec::new();
        self.process_code(SFU_CMD_HWRESET, now, &mut actions);
        self.process_code(SFU_CMD_INFO, now, &mut actions);
        self.process_code(SFU_CMD_ERASE_PART, now, &mut actions);
        self.process_code(SFU_CMD_ERASE, now, &mut actions);
        self.process_code(SFU_CMD_SPEED, now, &mut actions);
        self.process_code(SFU_CMD_WRITE, now, &mut actions);
        self.process_code(SFU_CMD_START, now, &mut actions);
        self.process_code(SFU_CMD_WRERROR, now, &mut actions);
        self.process_code(SFU_CMD_TIMEOUT, now, &mut actions);
        proof {
            assert(actions@ =~= spec_process(old(self)@.s, old(self)@.parser, now).2);
        }
        actions
    }

    /// Removes and returns the oldest completed device log line, if any.
    pub fn pop_log(&mut self) -> (r: Option<String>)
        requires
            old(self).wf(),
        ensures
            final(self).wf(),
            old(self)@.parser.logs.len() == 0 ==> (r is None && final(self)@ == old(self)@),
            old(self)@.parser.logs.len() > 0 ==> (r matches Some(s) && s@ == old(
                self,
            )@.parser.logs[0] && final(self)@.s == old(self)@.s && final(self)@.parser
                == (ParserModel { logs: old(self)@.parser.logs.skip(1), ..old(self)@.parser })),
    {
        let r = self.parser.pop_log();
        proof {
            if old(self)@.parser.logs.len() == 0 {
                assert(self@ =~~= old(self)@);
            }
        }
        r
    }
}

// ---------------------------------------------------------------------------
// Laws of the controller.
// ---------------------------------------------------------------------------

/// In-flight monotonicity: every decodable WRITE acknowledgement lowers the
/// in-flight estimate by exactly one measured frame, clamped at zero; while
/// anything is outstanding and the frame size is nonzero, the estimate
/// strictly falls.
pub proof fn lemma_write_ack_inflight(s: SessionModel, body: Seq<u8>, now: u64)
    requires
        body.len() >= 8,
    ensures
        spec_handle_write(s, body, now).inflight == if s.inflight < s.actual {
            0u64
        } else {
            (s.inflight - s.actual) as u64
        },
        s.inflight > 0 && s.actual > 0 ==> spec_handle_write(s, body, now).inflight < s.inflight,
{
}

/// Resend back-off: a duplicate WRITE acknowledgement (same address as the
/// previous one) rewinds the cursor there, delays the next WRITE by the
/// current back-off, and grows the back-off by 250 ms, so each further
/// duplicate delays by at least 250 ms more than the one before.
pub proof fn lemma_resend_backoff(s: SessionModel, body: Seq<u8>, now: u64)
    requires
        body.len() >= 8,
        u32_le_at(body, 0) == s.last_mcu_addr,
        s.resend + 250 <= u64::MAX,
        now + s.resend <= u64::MAX,
    ensures
        spec_handle_write(s, body, now).t_write == now + s.resend,
        spec_handle_write(s, body, now).resend == s.resend + 250,
        spec_handle_write(s, body, now).wr_addr == s.last_mcu_addr,
        spec_handle_write(s, body, now).resend_errors == sat_add64(s.resend_errors, 1),
{
}

/// Two consecutive duplicate WRITE acknowledgements: the second delay
/// exceeds the first by exactly the 250 ms growth step.
pub proof fn lemma_resend_backoff_monotonic(
    s: SessionModel,
    b1: Seq<u8>,
    now1: u64,
    b2: Seq<u8>,
    now2: u64,
)
    requires
        b1.len() >= 8,
        u32_le_at(b1, 0) == s.last_mcu_addr,
        b2.len() >= 8,
        u32_le_at(b2, 0) == u32_le_at(b1, 0),
        s.resend + 500 <= u64::MAX,
        now1 + s.resend <= u64::MAX,
        now2 + s.resend + 250 <= u64::MAX,
    ensures
        ({
            let s1 = spec_handle_write(s, b1, now1);
            let s2 = spec_handle_write(s1, b2, now2);
            s1.t_write - now1 == s.resend && s2.t_write - now2 == s.resend + 250 && s2.t_write
                - now2 >= (s1.t_write - now1) + 250
        }),
{
    let s1 = spec_handle_write(s, b1, now1);
    lemma_resend_backoff(s, b1, now1);
    lemma_resend_backoff(s1, b2, now2);
}

proof fn lemma_frame_code_byte(code: u8, body: Seq<u8>)
    ensures
        tx_frame_bytes(code, body).len() >= 12,
        tx_frame_bytes(code, body)[4] == code,
{
    let f = tx_frame_bytes(code, body);
    assert(f[4] == crate::packet::frame_crc_region(code, body)[0]);
}

/// Phase gating: in any single poll, a WRITE frame is emitted only when
/// erasing has begun (or, with overlapped writes disabled, only when it has
/// finished) and the write phase is still open; a START frame is emitted
/// only when both the erase and write phases are complete.  Frames are told
/// apart by the command code in their fifth byte.
#[verifier::rlimit(100)]
pub proof fn lemma_phase_gating(s: SessionModel, now: u64)
    ensures
        ({
            let (s2, fs) = spec_poll(s, now);
            forall|i: int|
                0 <= i < fs.len() ==> ((fs[i].len() >= 12 && fs[i][4] == SFU_CMD_WRITE ==> (
                spec_write_gate(s) && !s.write_done)) && (fs[i].len() >= 12 && fs[i][4]
                    == SFU_CMD_START ==> (s.erase_done && s.write_done)))
        }),
{
    let (s1, f1) = spec_poll_info(s, now);
    let (s2, f2) = spec_poll_speed_get(s1, now);
    let (s3, f3) = spec_poll_speed_set(s2, now);
    let (s4, f4) = spec_poll_erase(s3, now);
    let (s5, f5) = spec_poll_write(s4, now);
    let (s6, f6) = spec_poll_start(s5, now);
    let fs = spec_poll(s, now).1;
    assert(fs == f1 + f2 + f3 + f4 + f5 + f6);
    // none of the earlier phases touches the gating flags
    assert(s4.erase_began == s.erase_began && s4.erase_done == s.erase_done && s4.no_prewrite
        == s.no_prewrite && s4.write_done == s.write_done);
    assert(s5.erase_done == s.erase_done && s5.write_done == s.write_done);
    assert(f1.len() == 1 ==> f1[0] == tx_frame_bytes(SFU_CMD_INFO, Seq::empty()));
    assert(f5.len() == 1 ==> spec_write_due(s4, now));
    assert(f6.len() == 1 ==> s5.erase_done && s5.write_done);
    assert forall|i: int|
        0 <= i < fs.len() implies ((fs[i].len() >= 12 && fs[i][4] == SFU_CMD_WRITE ==> (
    spec_write_gate(s) && !s.write_done)) && (fs[i].len() >= 12 && fs[i][4] == SFU_CMD_START ==> (
    s.erase_done && s.write_done))) by {
        let n1 = f1.len() as int;
        let n2 = n1 + f2.len();
        let n3 = n2 + f3.len();
        let n4 = n3 + f4.len();
        let n5 = n4 + f5.len();
        if i < n1 {
            assert(fs[i] == f1[i]);
            lemma_frame_code_byte(SFU_CMD_INFO, Seq::empty());
        } else if i < n2 {
            assert(fs[i] == f2[i - n1]);
            lemma_frame_code_byte(SFU_CMD_SPEED, Seq::empty());
        } else if i < n3 {
            assert(fs[i] == f3[i - n2]);
            lemma_frame_code_byte(SFU_CMD_SPEED, u32_le_bytes(s2.baud_main));
        } else if i < n4 {
            assert(fs[i] == f4[i - n3]);
            let amount = if s3.erase_only {
                match s3.dev_info {
                    Some(di) => di.flash_size_correct,
                    None => 0u32,
                }
            } else {
                s3.fw.len() as u32
            };
            lemma_frame_code_byte(SFU_CMD_ERASE, u32_le_bytes(amount));
        } else if i < n5 {
            assert(fs[i] == f5[i - n4]);
            let start = s4.wr_addr.wrapping_sub(s4.addr_shift) as int;
            let end = if start + WR_BLOCK_SIZE >= s4.fw.len() {
                s4.fw.len() as int
            } else {
                start + WR_BLOCK_SIZE
            };
            lemma_frame_code_byte(
                SFU_CMD_WRITE,
                u32_le_bytes(s4.wr_addr) + s4.fw.subrange(start, end),
            );
        } else {
            assert(fs[i] == f6[i - n5]);
            lemma_frame_code_byte(SFU_CMD_START, u32_le_bytes(s5.fw_crc));
        }
    }
}

} // verus!
