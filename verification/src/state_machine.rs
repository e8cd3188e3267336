//! Transport-agnostic configuration of the GM65: the register sequence and
//! the Settings flags used by the command-mode drivers, without any I/O.

use vstd::prelude::*;

use crate::protocol::Register;

pub mod config;

pub use crate::scanner_core::{
    fix_serial_output, init_config_sequence, serial_output_needs_fix, special_registers,
    version_needs_raw_fix,
};

verus! {

/// A register with the value it should hold.
pub type RegisterConfig = (Register, u8);

/// Flags of the Settings register, defaulting to always-on command mode
/// with sound and aiming.
#[derive(Debug, Clone, Copy, PartialEq, Eq, Structural)]
pub struct ScannerSettings {
    bits: u8,
}

impl ScannerSettings {
    /// The register byte.
    pub closed spec fn spec_bits(&self) -> u8 {
        self.bits
    }

    /// Keep scanner always on.
    pub fn always_on() -> (s: ScannerSettings)
        ensures
            s.spec_bits() == 0x80,
    {
        ScannerSettings { bits: 0x80 }
    }

    /// Beep on successful scan.
    pub fn sound() -> (s: ScannerSettings)
        ensures
            s.spec_bits() == 0x40,
    {
        ScannerSettings { bits: 0x40 }
    }

    /// Undocumented bit 5.
    pub fn unknown_5() -> (s: ScannerSettings)
        ensures
            s.spec_bits() == 0x20,
    {
        ScannerSettings { bits: 0x20 }
    }

    /// Aiming LED.
    pub fn aim() -> (s: ScannerSettings)
        ensures
            s.spec_bits() == 0x10,
    {
        ScannerSettings { bits: 0x10 }
    }

    /// Undocumented bit 3.
    pub fn unknown_3() -> (s: ScannerSettings)
        ensures
            s.spec_bits() == 0x08,
    {
        ScannerSettings { bits: 0x08 }
    }

    /// Illumination LED.
    pub fn light() -> (s: ScannerSettings)
        ensures
            s.spec_bits() == 0x04,
    {
        ScannerSettings { bits: 0x04 }
    }

    /// Continuous reading.
    pub fn continuous() -> (s: ScannerSettings)
        ensures
            s.spec_bits() == 0x02,
    {
        ScannerSettings { bits: 0x02 }
    }

    /// Command-triggered reading.
    pub fn command() -> (s: ScannerSettings)
        ensures
            s.spec_bits() == 0x01,
    {
        ScannerSettings { bits: 0x01 }
    }

    /// The register byte of these flags.
    pub fn bits(&self) -> (b: u8)
        ensures
            b == self.spec_bits(),
    {
        self.bits
    }

    /// Flags from a register byte; every bit is a defined flag, so this never
    /// fails.
    pub fn from_bits(bits: u8) -> (s: Option<ScannerSettings>)
        ensures
            s is Some,
            s.unwrap().spec_bits() == bits,
    {
        Some(ScannerSettings { bits })
    }

    /// True when every flag of `other` is set in `self`.
    pub fn contains(&self, other: ScannerSettings) -> (r: bool)
        ensures
            r == (self.spec_bits() & other.spec_bits() == other.spec_bits()),
    {
        self.bits & other.bits == other.bits
    }

    /// The flags set in either.
    pub fn union(self, other: ScannerSettings) -> (s: ScannerSettings)
        ensures
            s.spec_bits() == self.spec_bits() | other.spec_bits(),
    {
        ScannerSettings { bits: self.bits | other.bits }
    }
}

impl core::ops::BitOr for ScannerSettings {
    type Output = ScannerSettings;

    fn bitor(self, other: ScannerSettings) -> (s: ScannerSettings) {
        ScannerSettings { bits: self.bits | other.bits }
    }
}

impl vstd::std_specs::ops::BitOrSpecImpl for ScannerSettings {
    open spec fn obeys_bitor_spec() -> bool {
        true
    }

    open spec fn bitor_req(self, other: ScannerSettings) -> bool {
        true
    }

    closed spec fn bitor_spec(self, other: ScannerSettings) -> ScannerSettings {
        ScannerSettings { bits: self.bits | other.bits }
    }
}

impl Default for ScannerSettings {
    /// ALWAYS_ON | SOUND | AIM | COMMAND, the byte `config::CMD_MODE`.
    fn default() -> (s: Self)
        ensures
            s.spec_bits() == config::CMD_MODE,
    {
        ScannerSettings { bits: 0xD1 }
    }
}

} // verus!
