//! Host-side firmware uploader for the SFU serial bootloader protocol:
//! CRC32 engines, the framed wire codec and interleaved log parser, the
//! command payload codecs, and the event-driven upload controller.

pub mod cmdline;
pub mod codecs;
pub mod crc32;
pub mod misc;
pub mod packet;
pub mod reset;
pub mod uploader;

pub use crc32::crc32_sfu;
