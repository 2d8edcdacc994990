use sfu_uploader::reset::{
    cp210x_latch_windex, reset_step_lines, GpioResetError, GpioResetStatus, ResetSequence,
};

#[test]
fn step_values_drive_dtr_and_rts_bits() {
    assert_eq!(reset_step_lines(0b00), (false, false));
    assert_eq!(reset_step_lines(0b01), (true, false));
    assert_eq!(reset_step_lines(0b10), (false, true));
    assert_eq!(reset_step_lines(0b11), (true, true));
    assert_eq!(reset_step_lines(0xFFFC), (false, false));
}

#[test]
fn latch_windex_packs_mask_and_state() {
    // update pins 0 and 1, drive both high
    assert_eq!(cp210x_latch_windex(0x0003, 0x0003), 0x0303);
    // update pins 0 and 1, drive both low
    assert_eq!(cp210x_latch_windex(0x0003, 0x0000), 0x0003);
    // the value is restricted to the mask, both to their low bytes
    assert_eq!(cp210x_latch_windex(0x0001, 0xFFFF), 0x0101);
    assert_eq!(cp210x_latch_windex(0xFF01, 0xFF01), 0x0101);
}

#[test]
fn reset_types_carry_the_sequence() {
    let seq = ResetSequence { quantum_ms: 50, mask: 0x0003, values: vec![0b01, 0b10, 0b00] };
    assert_eq!(seq.values.len(), 3);
    assert_eq!(GpioResetStatus::UsedCp210x, GpioResetStatus::UsedCp210x);
    assert_ne!(GpioResetStatus::UsedCp210x, GpioResetStatus::UsedDtrRts);
    let e = GpioResetError::PortOpenFailed("nope".to_string());
    assert_eq!(e.message(), "port open failed: nope");
    let e = GpioResetError::SequenceFailed("step 2".to_string());
    assert_eq!(e.message(), "reset sequence failed: step 2");
}
