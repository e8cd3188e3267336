//! Typed view of the GM65 Settings register.
//!
//! | bits | field     | values                                          |
//! |------|-----------|-------------------------------------------------|
//! | 7    | always_on | 1 = scanner always powered                      |
//! | 6    | buzzer    | 1 = beep on every decode                        |
//! | 5:4  | aim       | 00 off, 01 while reading, 1x always             |
//! | 3:2  | light     | 00 off, 01 while reading, 1x always             |
//! | 1:0  | read mode | 00 manual, 01 command, 10 continuous, 11 induction |

use vstd::prelude::*;

pub mod config;

verus! {

/// Aiming LED behaviour.
#[derive(Clone, Copy, Debug, PartialEq, Eq, Structural)]
pub enum AimSetting {
    Off,
    Reading,
    Always,
}

/// Illumination LED behaviour.
#[derive(Clone, Copy, Debug, PartialEq, Eq, Structural)]
pub enum LightSetting {
    Off,
    Reading,
    Always,
}

/// How reading is started.
#[derive(Clone, Copy, Debug, PartialEq, Eq, Structural)]
pub enum ReadMode {
    Manual,
    Command,
    Continuous,
    Induction,
}

/// The fields of the Settings register.
#[derive(Clone, Copy, Debug, PartialEq, Eq, Structural)]
pub struct ScannerSettings {
    pub always_on: bool,
    pub buzzer: bool,
    pub aim: AimSetting,
    pub light: LightSetting,
    pub read_mode: ReadMode,
}

/// The two-bit code of an aim setting.
pub open spec fn aim_code(a: AimSetting) -> nat {
    match a {
        AimSetting::Off => 0,
        AimSetting::Reading => 1,
        AimSetting::Always => 2,
    }
}

/// The two-bit code of a light setting.
pub open spec fn light_code(l: LightSetting) -> nat {
    match l {
        LightSetting::Off => 0,
        LightSetting::Reading => 1,
        LightSetting::Always => 2,
    }
}

/// The two-bit code of a read mode.
pub open spec fn mode_code(m: ReadMode) -> nat {
    match m {
        ReadMode::Manual => 0,
        ReadMode::Command => 1,
        ReadMode::Continuous => 2,
        ReadMode::Induction => 3,
    }
}

/// The register byte of a set of settings.
pub open spec fn settings_byte_of(s: ScannerSettings) -> nat {
    (if s.always_on { 128nat } else { 0nat }) + (if s.buzzer { 64nat } else { 0nat }) + aim_code(
        s.aim,
    ) * 16 + light_code(s.light) * 4 + mode_code(s.read_mode)
}

/// The aim setting of a two-bit code (11 reads as always).
pub open spec fn aim_of(code: nat) -> AimSetting {
    if code == 0 {
        AimSetting::Off
    } else if code == 1 {
        AimSetting::Reading
    } else {
        AimSetting::Always
    }
}

/// The light setting of a two-bit code (11 reads as always).
pub open spec fn light_of(code: nat) -> LightSetting {
    if code == 0 {
        LightSetting::Off
    } else if code == 1 {
        LightSetting::Reading
    } else {
        LightSetting::Always
    }
}

/// The read mode of a two-bit code.
pub open spec fn mode_of(code: nat) -> ReadMode {
    if code == 0 {
        ReadMode::Manual
    } else if code == 1 {
        ReadMode::Command
    } else if code == 2 {
        ReadMode::Continuous
    } else {
        ReadMode::Induction
    }
}

/// The settings a register byte stands for.
pub open spec fn settings_from_byte(raw: u8) -> ScannerSettings {
    ScannerSettings {
        always_on: raw >= 128,
        buzzer: (raw / 64) % 2 == 1,
        aim: aim_of(((raw / 16) % 4) as nat),
        light: light_of(((raw / 4) % 4) as nat),
        read_mode: mode_of((raw % 4) as nat),
    }
}

/// The settings the module ships configured with by this library: silent
/// command mode.
pub open spec fn default_settings() -> ScannerSettings {
    ScannerSettings {
        always_on: true,
        buzzer: false,
        aim: AimSetting::Reading,
        light: LightSetting::Off,
        read_mode: ReadMode::Command,
    }
}

impl ScannerSettings {
    /// The register byte.
    pub fn bits(&self) -> (b: u8)
        ensures
            b == settings_byte_of(*self),
    {
        let mut val: u8 = 0;
        if self.always_on {
            val = val + 128;
        }
        if self.buzzer {
            val = val + 64;
        }
        let aim: u8 = match self.aim {
            AimSetting::Off => 0,
            AimSetting::Reading => 1,
            AimSetting::Always => 2,
        };
        let light: u8 = match self.light {
            LightSetting::Off => 0,
            LightSetting::Reading => 1,
            LightSetting::Always => 2,
        };
        let mode: u8 = match self.read_mode {
            ReadMode::Manual => 0,
            ReadMode::Command => 1,
            ReadMode::Continuous => 2,
            ReadMode::Induction => 3,
        };
        val + aim * 16 + light * 4 + mode
    }

    /// The settings of a register byte. The aim and light codes 11 read as
    /// "always".
    pub fn from_bits(raw: u8) -> (s: Self)
        ensures
            s == settings_from_byte(raw),
    {
        let aim_bits = (raw >> 4) & 0b11;
        let light_bits = (raw >> 2) & 0b11;
        let mode_bits = raw & 0b11;
        proof {
            assert(aim_bits == (raw / 16) % 4) by (bit_vector)
                requires
                    aim_bits == (raw >> 4) & 0b11,
            ;
            assert(light_bits == (raw / 4) % 4) by (bit_vector)
                requires
                    light_bits == (raw >> 2) & 0b11,
            ;
            assert(mode_bits == raw % 4) by (bit_vector)
                requires
                    mode_bits == raw & 0b11,
            ;
            assert((raw & 0x80 != 0) == (raw >= 128)) by (bit_vector);
            assert((raw & 0x40 != 0) == ((raw / 64) % 2 == 1)) by (bit_vector);
        }
        ScannerSettings {
            always_on: raw & 0x80 != 0,
            buzzer: raw & 0x40 != 0,
            aim: if aim_bits == 0 {
                AimSetting::Off
            } else if aim_bits == 1 {
                AimSetting::Reading
            } else {
                AimSetting::Always
            },
            light: if light_bits == 0 {
                LightSetting::Off
            } else if light_bits == 1 {
                LightSetting::Reading
            } else {
                LightSetting::Always
            },
            read_mode: if mode_bits == 0 {
                ReadMode::Manual
            } else if mode_bits == 1 {
                ReadMode::Command
            } else if mode_bits == 2 {
                ReadMode::Continuous
            } else {
                ReadMode::Induction
            },
        }
    }
}

impl Default for ScannerSettings {
    /// Silent command mode, the byte `config::CMD_MODE`.
    fn default() -> (s: Self)
        ensures
            s == default_settings(),
            settings_byte_of(s) == config::CMD_MODE,
    {
        ScannerSettings {
            always_on: true,
            buzzer: false,
            aim: AimSetting::Reading,
            light: LightSetting::Off,
            read_mode: ReadMode::Command,
        }
    }
}

/// Decoding the byte of any settings gives the same settings back.
pub proof fn lemma_settings_roundtrip(s: ScannerSettings)
    ensures
        settings_byte_of(s) < 256,
        settings_from_byte(settings_byte_of(s) as u8) == s,
{
    let b = settings_byte_of(s);
    let hi: nat = (if s.always_on { 2nat } else { 0nat }) + (if s.buzzer { 1nat } else { 0nat });
    assert(b == hi * 64 + aim_code(s.aim) * 16 + light_code(s.light) * 4 + mode_code(s.read_mode));
    assert(b / 64 == hi);
    assert((b / 16) % 4 == aim_code(s.aim));
    assert((b / 4) % 4 == light_code(s.light));
    assert(b % 4 == mode_code(s.read_mode));
}

/// Encoding the settings of a byte gives the byte back, unless the aim or
/// light code is 11 (which reads as "always", code 10).
pub proof fn lemma_byte_roundtrip(raw: u8)
    requires
        (raw / 16) % 4 != 3,
        (raw / 4) % 4 != 3,
    ensures
        settings_byte_of(settings_from_byte(raw)) == raw,
{
    let s = settings_from_byte(raw);
    assert(aim_code(s.aim) == (raw / 16) % 4);
    assert(light_code(s.light) == (raw / 4) % 4);
    assert(mode_code(s.read_mode) == raw % 4);
    assert(raw == (raw / 64) * 64 + ((raw / 16) % 4) * 16 + ((raw / 4) % 4) * 4 + raw % 4);
}

} // verus!
