//! Driver logic for GM65 / M3Y QR barcode scanner modules.
//!
//! The modules hold the command framing of the GM65 serial protocol, the
//! sans-I/O scanner core (scan buffering and the initialization state
//! machine), the typed Settings register and the scan policies, payload
//! classification and UR fragment reassembly, HID report generation, display
//! text helpers, and the blocking drivers built on them.
#![allow(unused_imports)]

pub mod buffer;
pub mod decoder;
pub mod display_util;
pub mod driver;
pub mod hid;
pub mod policy;
pub mod protocol;
pub mod scanner;
pub mod scanner_core;
pub mod settings;
pub mod state_machine;
pub mod text;

pub use buffer::ScanBuffer;
pub use decoder::{
    classify_payload, decode_payload, parse_ur_fragment, DecodedPayload, ParsedUrFragment,
    PayloadType, UrDecoder,
};
pub use driver::{
    BaudSwitch, Gm65Scanner, Gm65ScannerAsync, NoBaudSwitch, ScanMode, ScannerConfig,
    ScannerDriverSync, ScannerError, ScannerModel, ScannerState, ScannerStatus,
};
pub use policy::{bench_baseline_settings, ScanPolicy};
pub use protocol::{
    build_factory_reset, build_get_setting, build_save_settings, build_set_setting,
    build_trigger_scan, commands, BaudRate as Gm65BaudRate, Gm65Response, Register, RESPONSE_LEN,
    RESPONSE_PREFIX,
};
pub use scanner_core::ScannerSettings;
pub use scanner_core::{InitStep, ScanByteResult, ScannerCore};
