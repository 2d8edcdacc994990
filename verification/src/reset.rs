//! Pre-session hardware reset: the data types and the bit-level decisions.
//!
//! A reset sequence drives a USB-serial bridge's GPIO latch, or falls back to
//! toggling the DTR/RTS modem lines.  The device I/O lives outside this
//! crate; here stand the sequence description, the outcome types, and the
//! verified computations of what each step writes to either path.

use vstd::prelude::*;

verus! {

/// A GPIO reset sequence: the pause between steps, the pin mask, and the pin
/// states to walk through.
#[derive(Debug, Clone)]
pub struct ResetSequence {
    /// Pause between steps, in milliseconds.
    pub quantum_ms: u32,
    /// Which pins each step updates.
    pub mask: u16,
    /// Pin states, applied in order.
    pub values: Vec<u16>,
}

/// Which path carried out the reset sequence.
#[derive(Debug, Copy, Clone, PartialEq, Eq, Structural)]
pub enum GpioResetStatus {
    /// The bridge's GPIO latch was written directly.
    UsedCp210x,
    /// The classic DTR/RTS modem lines were toggled.
    UsedDtrRts,
}

/// Why a reset sequence could not be carried out.
#[derive(Debug)]
pub enum GpioResetError {
    /// The port could not be opened (not found or access denied).
    PortOpenFailed(String),
    /// The port opened, but a step of the sequence failed on both paths.
    SequenceFailed(String),
}

impl GpioResetError {
    /// A readable description of the failure.
    pub fn message(&self) -> (r: String)
        ensures
            (self matches GpioResetError::PortOpenFailed(m) ==> r@ == "port open failed: "@ + m@),
            (self matches GpioResetError::SequenceFailed(m) ==> r@ == "reset sequence failed: "@
                + m@),
    {
        match self {
            GpioResetError::PortOpenFailed(m) => {
                let mut s = String::from_str("port open failed: ");
                s.append(m.as_str());
                s
            },
            GpioResetError::SequenceFailed(m) => {
                let mut s = String::from_str("reset sequence failed: ");
                s.append(m.as_str());
                s
            },
        }
    }
}

/// The modem-line states one sequence step asks for on the DTR/RTS fallback
/// path: bit 0 drives DTR, bit 1 drives RTS.
pub fn reset_step_lines(val: u16) -> (r: (bool, bool))
    ensures
        r.0 == (val & 0x0001 != 0),
        r.1 == (val & 0x0002 != 0),
{
    ((val & 0x0001) != 0, (val & 0x0002) != 0)
}

/// The wIndex word of one bridge-latch control write: the low byte names the
/// pins to update (the mask), the high byte their new states (the step value
/// restricted to the mask), both taken from the masks' low bytes.
pub fn cp210x_latch_windex(mask: u16, val: u16) -> (r: u16)
    ensures
        r == (((val & mask & 0x00FF) as u16) << 8) | (mask & 0x00FF),
{
    let update_mask: u16 = mask & 0x00FF;
    let new_state_bits: u16 = val & mask & 0x00FF;
    (new_state_bits << 8) | update_mask
}

} // verus!
