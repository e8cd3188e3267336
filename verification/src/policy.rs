//! Scan policies: the supported module configurations, so that callers never
//! compose raw Settings bytes by hand.

use vstd::prelude::*;

use crate::settings::{
    default_settings, settings_byte_of, AimSetting, LightSetting, ReadMode, ScannerSettings,
};

verus! {

/// The supported scan configurations.
#[derive(Debug, Clone, Copy, PartialEq, Eq, Structural)]
pub enum ScanPolicy {
    /// Continuous scanning, aim LED while reading, decode buzzer off
    /// (Settings 0x92).
    SilentContinuous,
    /// Continuous scanning with the decode buzzer armed (Settings 0xD2).
    BuzzingContinuous,
    /// Command-triggered, silent (Settings 0x91). Some module firmwares
    /// acknowledge the trigger in this mode without ever scanning.
    SilentCommand,
}

/// The settings a policy writes: the defaults, with continuous reading for
/// the continuous policies and the buzzer for the buzzing one.
pub open spec fn policy_settings(p: ScanPolicy) -> ScannerSettings {
    match p {
        ScanPolicy::SilentContinuous => ScannerSettings {
            read_mode: ReadMode::Continuous,
            ..default_settings()
        },
        ScanPolicy::BuzzingContinuous => ScannerSettings {
            read_mode: ReadMode::Continuous,
            buzzer: true,
            ..default_settings()
        },
        ScanPolicy::SilentCommand => default_settings(),
    }
}

/// The Settings byte of each policy.
pub open spec fn policy_byte(p: ScanPolicy) -> u8 {
    match p {
        ScanPolicy::SilentContinuous => 0x92,
        ScanPolicy::BuzzingContinuous => 0xD2,
        ScanPolicy::SilentCommand => 0x91,
    }
}

impl ScanPolicy {
    /// The settings this policy writes.
    pub fn settings(self) -> (s: ScannerSettings)
        ensures
            s == policy_settings(self),
            settings_byte_of(s) == policy_byte(self),
    {
        let mut s = ScannerSettings::default();
        match self {
            ScanPolicy::SilentContinuous => {
                s.read_mode = ReadMode::Continuous;
            },
            ScanPolicy::BuzzingContinuous => {
                s.read_mode = ReadMode::Continuous;
                s.buzzer = true;
            },
            ScanPolicy::SilentCommand => {},
        }
        s
    }

    /// The Settings byte this policy writes.
    pub fn settings_byte(self) -> (b: u8)
        ensures
            b == policy_byte(self),
    {
        self.settings().bits()
    }
}

/// The aim and light fields the policies use, with continuous reading and no
/// buzzer.
pub fn bench_baseline_settings() -> (s: ScannerSettings)
    ensures
        s == policy_settings(ScanPolicy::SilentContinuous),
        settings_byte_of(s) == 0x92,
{
    ScannerSettings {
        always_on: true,
        buzzer: false,
        aim: AimSetting::Reading,
        light: LightSetting::Off,
        read_mode: ReadMode::Continuous,
    }
}

/// The two continuous policies differ in the buzzer bit (bit 6) alone.
pub proof fn lemma_continuous_policies_differ_in_buzzer()
    ensures
        policy_byte(ScanPolicy::SilentContinuous) | 0x40 == policy_byte(
            ScanPolicy::BuzzingContinuous,
        ),
        policy_byte(ScanPolicy::SilentContinuous) & 0x40 == 0,
        policy_settings(ScanPolicy::BuzzingContinuous) == (ScannerSettings {
            buzzer: true,
            ..policy_settings(ScanPolicy::SilentContinuous)
        }),
{
    assert(0x92u8 | 0x40u8 == 0xD2u8) by (bit_vector);
    assert(0x92u8 & 0x40u8 == 0u8) by (bit_vector);
}

/// Every policy keeps the module always on with the aim LED while reading,
/// the illumination off, and is silent unless it is the buzzing one.
pub proof fn lemma_policies_share_baseline(p: ScanPolicy)
    ensures
        policy_settings(p).always_on,
        policy_settings(p).aim == AimSetting::Reading,
        policy_settings(p).light == LightSetting::Off,
        policy_settings(p).buzzer <==> p == ScanPolicy::BuzzingContinuous,
{
}

} // verus!
