//! Ready-made command frames as owned byte vectors.

use vstd::prelude::*;

use super::{
    address_bytes_of, baud_code, build_factory_reset, build_get_setting, build_save_settings,
    build_set_setting, build_set_setting_2byte, build_trigger_scan, factory_reset_frame, frame_to_vec,
    get_setting_frame, save_settings_frame, set_setting_2byte_frame, set_setting_frame, BaudRate,
    Register,
};

verus! {

/// The factory-reset frame.
pub fn factory_reset() -> (v: Vec<u8>)
    ensures
        v@ == factory_reset_frame(),
{
    frame_to_vec(&build_factory_reset())
}

/// The save-settings frame.
pub fn save_settings() -> (v: Vec<u8>)
    ensures
        v@ == save_settings_frame(),
{
    frame_to_vec(&build_save_settings())
}

/// Enables serial output (SerialOutput := 0xA0).
pub fn enable_serial_output() -> (v: Vec<u8>)
    ensures
        v@ == set_setting_frame(address_bytes_of(Register::SerialOutput), 0xA0),
{
    frame_to_vec(&build_set_setting(Register::SerialOutput.address_bytes(), 0xA0))
}

/// Switches the module to the given baud rate.
pub fn set_baud_rate(rate: BaudRate) -> (v: Vec<u8>)
    ensures
        v@ == set_setting_2byte_frame(address_bytes_of(Register::BaudRate), [baud_code(rate), 0x00]),
{
    frame_to_vec(&build_set_setting_2byte(Register::BaudRate.address_bytes(), [rate.value(), 0x00]))
}

/// Enables raw mode (RawMode := 0x08).
pub fn enable_raw_mode() -> (v: Vec<u8>)
    ensures
        v@ == set_setting_frame(address_bytes_of(Register::RawMode), 0x08),
{
    frame_to_vec(&build_set_setting(Register::RawMode.address_bytes(), 0x08))
}

/// Restricts decoding to QR codes (QrEnable := 1).
pub fn set_qr_only() -> (v: Vec<u8>)
    ensures
        v@ == set_setting_frame(address_bytes_of(Register::QrEnable), 0x01),
{
    frame_to_vec(&build_set_setting(Register::QrEnable.address_bytes(), 0x01))
}

/// Starts a scan.
pub fn trigger_scan() -> (v: Vec<u8>)
    ensures
        v@ == set_setting_frame(address_bytes_of(Register::ScanEnable), 0x01),
{
    frame_to_vec(&build_trigger_scan())
}

/// Reads the register at `addr`.
pub fn get_setting(addr: [u8; 2]) -> (v: Vec<u8>)
    ensures
        v@ == get_setting_frame(addr),
{
    frame_to_vec(&build_get_setting(addr))
}

/// Writes `value` to the register at `addr`.
pub fn set_setting(addr: [u8; 2], value: u8) -> (v: Vec<u8>)
    ensures
        v@ == set_setting_frame(addr, value),
{
    frame_to_vec(&build_set_setting(addr, value))
}

/// Reads the firmware version register.
pub fn query_version() -> (v: Vec<u8>)
    ensures
        v@ == get_setting_frame(address_bytes_of(Register::Version)),
{
    frame_to_vec(&build_get_setting(Register::Version.address_bytes()))
}

} // verus!
