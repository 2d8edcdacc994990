//! Command payload codecs: fixed little-endian structs decoded from frame
//! bodies (device info, erase ack, speed info, write ack, start ack).

use vstd::prelude::*;
use crate::misc::{u16_le_at, u32_le_at, deserialize_u16_le, deserialize_u32_le, deserialize_bytes};

verus! {

/// Device information reported in the INFO reply.
#[derive(Debug, Clone)]
pub struct SfuInfo {
    /// Printable device tag (12 bytes).
    pub device_id: Vec<u8>,
    pub cpu_type: u32,
    /// Flash size in bytes (the wire carries kibibytes).
    pub flash_size_correct: u32,
    pub sfu_ver: u16,
    /// Device input-buffer capacity in bytes: the in-flight byte window.
    pub receive_size: usize,
    /// Flash address where the image is written.
    pub main_start_from: u32,
    pub main_run_from: u32,
    /// `main_start_from + firmware_length`, wrapped to 32 bits.
    pub firmware_end_at: u32,
}

/// Mathematical image of an `SfuInfo`.
pub struct SfuInfoModel {
    pub device_id: Seq<u8>,
    pub cpu_type: u32,
    pub flash_size_correct: u32,
    pub sfu_ver: u16,
    pub receive_size: usize,
    pub main_start_from: u32,
    pub main_run_from: u32,
    pub firmware_end_at: u32,
}

impl View for SfuInfo {
    type V = SfuInfoModel;

    open spec fn view(&self) -> SfuInfoModel {
        SfuInfoModel {
            device_id: self.device_id@,
            cpu_type: self.cpu_type,
            flash_size_correct: self.flash_size_correct,
            sfu_ver: self.sfu_ver,
            receive_size: self.receive_size,
            main_start_from: self.main_start_from,
            main_run_from: self.main_run_from,
            firmware_end_at: self.firmware_end_at,
        }
    }
}

/// What a well-formed INFO body of at least 32 bytes decodes to.
pub open spec fn spec_parse_sfu_info(b: Seq<u8>, fw_len: u32) -> SfuInfoModel
    recommends
        b.len() >= 32,
{
    SfuInfoModel {
        device_id: b.subrange(0, 12),
        cpu_type: u32_le_at(b, 12),
        flash_size_correct: ((u16_le_at(b, 16) as u32) * 1024) as u32,
        sfu_ver: u16_le_at(b, 18),
        receive_size: u32_le_at(b, 20) as usize,
        main_start_from: u32_le_at(b, 24),
        main_run_from: u32_le_at(b, 28),
        firmware_end_at: u32_le_at(b, 24).wrapping_add(fw_len),
    }
}

/// Decodes an INFO body. Succeeds exactly when the body holds at least the
/// 32 fixed bytes; `firmware_end_at` is derived from `fw_len`.
pub fn parse_sfu_info(body: &[u8], fw_len: u32) -> (r: Option<SfuInfo>)
    ensures
        body@.len() < 32 ==> r is None,
        body@.len() >= 32 ==> (r matches Some(info) && info@ == spec_parse_sfu_info(body@, fw_len)),
{
    if body.len() < 32 {
        return None;
    }
    let device_id = deserialize_bytes(body, 0, 12);
    let cpu_type = deserialize_u32_le(body, 12);
    let flash_correct = deserialize_u16_le(body, 16);
    let sfu_ver = deserialize_u16_le(body, 18);
    let receive_size = deserialize_u32_le(body, 20) as usize;
    let main_start = deserialize_u32_le(body, 24);
    let main_run = deserialize_u32_le(body, 28);
    Some(
        SfuInfo {
            device_id,
            cpu_type,
            flash_size_correct: (flash_correct as u32) * 1024,
            sfu_ver,
            receive_size,
            main_start_from: main_start,
            main_run_from: main_run,
            firmware_end_at: main_start.wrapping_add(fw_len),
        },
    )
}

/// Decodes an ERASE_PART body: the partition index, informational only.
/// Succeeds exactly when the body holds at least 4 bytes.
pub fn parse_erase_info(body: &[u8]) -> (r: Option<i32>)
    ensures
        body@.len() < 4 ==> r is None,
        body@.len() >= 4 ==> r == Some(u32_le_at(body@, 0) as i32),
{
    if body.len() < 4 {
        return None;
    }
    let part_num: i32 = #[verifier::truncate] (deserialize_u32_le(body, 0) as i32);
    Some(part_num)
}

/// A SPEED reply to a change request: the rate before and after.
#[derive(Debug, Clone)]
pub struct SpeedChangeInfo {
    pub old_bod: u32,
    pub new_bod: u32,
}

/// A decoded SPEED reply.
pub enum SpeedInfo {
    /// Reply to a query: the current rate.
    GET(u32),
    /// Reply to a change request.
    CHANGE(SpeedChangeInfo),
}

/// Decodes a SPEED body: 4 bytes report the current rate, 8 bytes report a
/// completed change; any other length is a protocol error.
pub fn parse_speed_info(body: &[u8]) -> (r: Option<SpeedInfo>)
    ensures
        body@.len() == 4 ==> r == Some(SpeedInfo::GET(u32_le_at(body@, 0))),
        body@.len() == 8 ==> r == Some(
            SpeedInfo::CHANGE(
                SpeedChangeInfo { old_bod: u32_le_at(body@, 0), new_bod: u32_le_at(body@, 4) },
            ),
        ),
        body@.len() != 4 && body@.len() != 8 ==> r is None,
{
    if body.len() == 4 {
        let bod = deserialize_u32_le(body, 0);
        Some(SpeedInfo::GET(bod))
    } else if body.len() == 8 {
        let old_bod = deserialize_u32_le(body, 0);
        let new_bod = deserialize_u32_le(body, 4);
        Some(SpeedInfo::CHANGE(SpeedChangeInfo { old_bod, new_bod }))
    } else {
        None
    }
}

/// A WRITE acknowledgement: where the device stands and how much it holds.
#[derive(Debug, Clone)]
pub struct WriteInfo {
    /// Next address the device expects to write.
    pub mcu_write_addr: u32,
    /// Bytes currently buffered on the device.
    pub mcu_receive_count: u32,
}

/// Decodes a WRITE ack body. Succeeds exactly when it holds at least 8 bytes.
pub fn parse_write_info(body: &[u8]) -> (r: Option<WriteInfo>)
    ensures
        body@.len() < 8 ==> r is None,
        body@.len() >= 8 ==> r == Some(
            WriteInfo {
                mcu_write_addr: u32_le_at(body@, 0),
                mcu_receive_count: u32_le_at(body@, 4),
            },
        ),
{
    if body.len() < 8 {
        return None;
    }
    let mcu_write_addr = deserialize_u32_le(body, 0);
    let mcu_receive_count = deserialize_u32_le(body, 4);
    Some(WriteInfo { mcu_write_addr, mcu_receive_count })
}

/// A START acknowledgement: the received image range and the device's CRC.
#[derive(Debug, Clone)]
pub struct StartInfo {
    pub mcu_from: u32,
    pub mcu_count: u32,
    /// Device-computed SFU CRC32 over the received image.
    pub mcu_crc32: u32,
}

/// Decodes a START ack body. Succeeds exactly when it holds at least 12 bytes.
pub fn parse_start_info(body: &[u8]) -> (r: Option<StartInfo>)
    ensures
        body@.len() < 12 ==> r is None,
        body@.len() >= 12 ==> r == Some(
            StartInfo {
                mcu_from: u32_le_at(body@, 0),
                mcu_count: u32_le_at(body@, 4),
                mcu_crc32: u32_le_at(body@, 8),
            },
        ),
{
    if body.len() < 12 {
        return None;
    }
    let mcu_from = deserialize_u32_le(body, 0);
    let mcu_count = deserialize_u32_le(body, 4);
    let mcu_crc32 = deserialize_u32_le(body, 8);
    Some(StartInfo { mcu_from, mcu_count, mcu_crc32 })
}

} // verus!
