use gm65_scanner::policy::{bench_baseline_settings, ScanPolicy};

#[test]
fn policy_bytes_match_bench_verified_values() {
    assert_eq!(ScanPolicy::SilentContinuous.settings_byte(), 0x92);
    assert_eq!(ScanPolicy::BuzzingContinuous.settings_byte(), 0xD2);
    assert_eq!(ScanPolicy::SilentCommand.settings_byte(), 0x91);
}

#[test]
fn only_the_buzzer_bit_differs_between_continuous_policies() {
    assert_eq!(
        ScanPolicy::SilentContinuous.settings_byte() | 0x40,
        ScanPolicy::BuzzingContinuous.settings_byte()
    );
}

#[test]
fn baseline_is_silent_continuous() {
    assert_eq!(bench_baseline_settings().bits(), 0x92);
}
