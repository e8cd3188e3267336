//! Register values written during initialization.

use vstd::prelude::*;

verus! {

/// Scan interval in milliseconds.
pub const SCAN_INTERVAL_MS: u8 = 0x01;

/// Delay before the same barcode is reported again.
pub const SAME_BARCODE_DELAY: u8 = 0x85;

/// Command mode settings value (ALWAYS_ON | COMMAND); sound, aim and
/// illumination disabled.
pub const CMD_MODE: u8 = 0x81;

/// Firmware version that requires the raw mode fix.
pub const VERSION_NEEDS_RAW: u8 = 0x69;

/// Raw mode value written by the firmware fix.
pub const RAW_MODE_VALUE: u8 = 0x08;

} // verus!
