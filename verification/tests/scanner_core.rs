use gm65_scanner::buffer::MAX_SCAN_SIZE;
use gm65_scanner::driver::{ScanMode, ScannerConfig, ScannerError, ScannerModel, ScannerState};
use gm65_scanner::protocol::Register;
use gm65_scanner::scanner_core::{
    config, fix_serial_output, init_config_sequence, serial_output_needs_fix, special_registers,
    version_needs_raw_fix, InitAction, InitStep, ScanByteResult, ScannerCore, ScannerSettings,
};

// ========================================================================
// ScannerCore Tests
// ========================================================================

#[test]
fn scanner_core_test_new() {
    let config = ScannerConfig {
        model: ScannerModel::Gm65,
        baud_rate: 9600,
        mode: ScanMode::CommandTriggered,
        raw_mode: true,
    };
    let core = ScannerCore::new(config);

    assert_eq!(core.state(), ScannerState::Uninitialized);
    assert!(!core.is_initialized());
    assert_eq!(core.detected_model(), ScannerModel::Unknown);
    assert_eq!(core.init_step(), InitStep::Start);
}

#[test]
fn test_with_default_config() {
    let core = ScannerCore::with_default_config();

    assert_eq!(core.state(), ScannerState::Uninitialized);
    assert!(!core.is_initialized());
    assert_eq!(core.detected_model(), ScannerModel::Unknown);
}

#[test]
fn test_begin_scan_not_initialized() {
    let mut core = ScannerCore::with_default_config();

    let result = core.begin_scan();
    assert_eq!(result, Err(ScannerError::NotInitialized));
}

#[test]
fn test_begin_scan_initialized() {
    let mut core = ScannerCore::with_default_config();
    core.complete_init(ScannerModel::Gm65);

    let result = core.begin_scan();
    assert!(result.is_ok());
    assert_eq!(core.state(), ScannerState::Scanning);
}

#[test]
fn test_handle_scan_byte_need_more() {
    let mut core = ScannerCore::with_default_config();

    // Add bytes without EOL (avoid \r and \n which trigger EOL detection)
    for i in 0..100u8 {
        // Skip \r (13) and \n (10) which would trigger EOL
        if i == b'\r' || i == b'\n' {
            continue;
        }
        let result = core.handle_scan_byte(i);
        assert_eq!(result, ScanByteResult::NeedMore);
    }
}

#[test]
fn test_handle_scan_byte_complete() {
    let mut core = ScannerCore::with_default_config();
    core.complete_init(ScannerModel::Gm65);

    // Simulate a complete scan with EOL
    let scan_data = b"SCANNED_DATA\r\n";
    for &byte in scan_data {
        let result = core.handle_scan_byte(byte);
        match result {
            ScanByteResult::Complete(data) => {
                assert_eq!(data, b"SCANNED_DATA");
                assert_eq!(core.status().last_scan_len, Some(12));
                return;
            }
            ScanByteResult::NeedMore => continue,
            ScanByteResult::BufferOverflow => panic!("Unexpected overflow"),
        }
    }
    panic!("Scan should have completed");
}

#[test]
fn test_handle_scan_byte_buffer_overflow() {
    let mut core = ScannerCore::with_default_config();

    // Fill buffer to overflow
    for _ in 0..MAX_SCAN_SIZE {
        core.handle_scan_byte(0x00);
    }

    let result = core.handle_scan_byte(0x01);
    assert_eq!(result, ScanByteResult::BufferOverflow);
}

#[test]
fn test_complete_init() {
    let mut core = ScannerCore::with_default_config();
    core.complete_init(ScannerModel::M3Y);

    assert_eq!(core.state(), ScannerState::Ready);
    assert!(core.is_initialized());
    assert_eq!(core.detected_model(), ScannerModel::M3Y);
    assert_eq!(core.init_step(), InitStep::Complete);
}

#[test]
fn test_fail() {
    let mut core = ScannerCore::with_default_config();
    core.fail(ScannerError::NotDetected);

    assert_eq!(core.state(), ScannerState::Error(ScannerError::NotDetected));
}

#[test]
fn test_status() {
    let mut core = ScannerCore::with_default_config();
    core.complete_init(ScannerModel::Gm65);

    let status = core.status();
    assert_eq!(status.model, ScannerModel::Gm65);
    assert!(status.initialized);
    assert!(status.connected);
    assert_eq!(status.last_scan_len, None);
}

#[test]
fn test_data_ready() {
    let mut core = ScannerCore::with_default_config();
    assert!(!core.data_ready());

    core.complete_init(ScannerModel::Gm65);
    let _ = core.begin_scan();
    assert!(!core.data_ready());

    // Simulate scan complete
    core.handle_scan_byte(b't');
    core.handle_scan_byte(b'\r');
    core.handle_scan_byte(b'\n');

    assert!(core.data_ready());
}

#[test]
fn test_buffer_methods() {
    let mut core = ScannerCore::with_default_config();
    let initial_len = core.buffer().len();

    assert_eq!(initial_len, 0);

    core.buffer_mut().push(0x01);
    core.buffer_mut().push(0x02);

    assert_eq!(core.buffer().len(), 2);
}

#[test]
fn test_empty_scan_data() {
    let mut core = ScannerCore::with_default_config();
    core.complete_init(ScannerModel::Gm65);

    // Send just EOL
    let result = core.handle_scan_byte(b'\r');
    assert_eq!(result, ScanByteResult::NeedMore);

    let result = core.handle_scan_byte(b'\n');
    assert_eq!(result, ScanByteResult::NeedMore);
}

// ========================================================================
// Init State Machine Tests
// ========================================================================

#[test]
fn test_begin_init() {
    let mut core = ScannerCore::with_default_config();
    core.begin_init();

    assert_eq!(core.state(), ScannerState::Detecting);
    assert_eq!(core.init_step(), InitStep::Detecting);
}

#[test]
fn test_advance_init() {
    let mut core = ScannerCore::with_default_config();

    core.advance_init(InitStep::Detecting);
    assert_eq!(core.state(), ScannerState::Detecting);
    assert_eq!(core.init_step(), InitStep::Detecting);

    core.advance_init(InitStep::ReadSerialOutput);
    assert_eq!(core.state(), ScannerState::Configuring);
    assert_eq!(core.init_step(), InitStep::ReadSerialOutput);

    core.advance_init(InitStep::ApplyConfig { index: 2 });
    assert_eq!(core.state(), ScannerState::Configuring);
    assert_eq!(core.init_step(), InitStep::ApplyConfig { index: 2 });

    core.advance_init(InitStep::Complete);
    assert_eq!(core.state(), ScannerState::Ready);
    assert_eq!(core.init_step(), InitStep::Complete);
}

#[test]
fn test_advance_init_failure() {
    let mut core = ScannerCore::with_default_config();

    core.advance_init(InitStep::Failed(ScannerError::ConfigFailed));
    assert_eq!(
        core.state(),
        ScannerState::Error(ScannerError::ConfigFailed)
    );
    assert_eq!(
        core.init_step(),
        InitStep::Failed(ScannerError::ConfigFailed)
    );
}

#[test]
fn test_mark_detected() {
    let mut core = ScannerCore::with_default_config();
    core.begin_init();
    core.mark_detected(ScannerModel::Gm65);

    assert_eq!(core.detected_model(), ScannerModel::Gm65);
    assert_eq!(core.state(), ScannerState::Configuring);
    assert_eq!(core.init_step(), InitStep::ReadSerialOutput);
}

#[test]
fn test_fail_init() {
    let mut core = ScannerCore::with_default_config();
    core.begin_init();
    core.fail_init(ScannerError::NotDetected);

    assert_eq!(core.state(), ScannerState::Error(ScannerError::NotDetected));
    assert_eq!(
        core.init_step(),
        InitStep::Failed(ScannerError::NotDetected)
    );
}

// ========================================================================
// Config Constants Tests
// ========================================================================

#[test]
fn test_config_constants() {
    assert_eq!(config::SCAN_INTERVAL_MS, 0x01);
    assert_eq!(config::SAME_BARCODE_DELAY, 0x85);
    assert_eq!(config::CMD_MODE, 0x81);
    assert_eq!(config::VERSION_NEEDS_RAW, 0x69);
    assert_eq!(config::RAW_MODE_VALUE, 0x08);
}

// ========================================================================
// ScannerSettings Tests
// ========================================================================

#[test]
fn scanner_core_test_scanner_settings_default() {
    let settings = ScannerSettings::default();
    assert!(settings.contains(ScannerSettings::always_on()));
    assert!(settings.contains(ScannerSettings::command()));
    assert!(!settings.contains(ScannerSettings::sound()));
    assert!(!settings.contains(ScannerSettings::aim()));
    assert!(!settings.contains(ScannerSettings::continuous()));
}

#[test]
fn test_scanner_settings_bits() {
    // CMD_MODE should be ALWAYS_ON | COMMAND (sound/aim disabled)
    let expected = (1 << 7) | (1 << 0);
    assert_eq!(config::CMD_MODE, expected);

    let settings = ScannerSettings::from_bits(expected);
    assert_eq!(settings, Some(ScannerSettings::default()));
}

// ========================================================================
// Init Config Sequence Tests
// ========================================================================

#[test]
fn test_init_config_sequence() {
    let seq = init_config_sequence();
    assert_eq!(seq.len(), 5);

    // Verify the sequence contains expected registers
    assert_eq!(seq[0].0, Register::Timeout);
    assert_eq!(seq[0].1, 0x00);

    assert_eq!(seq[1].0, Register::ScanInterval);
    assert_eq!(seq[1].1, config::SCAN_INTERVAL_MS);

    assert_eq!(seq[2].0, Register::SameBarcodeDelay);
    assert_eq!(seq[2].1, config::SAME_BARCODE_DELAY);

    assert_eq!(seq[3].0, Register::BarType);
    assert_eq!(seq[3].1, 0x01);

    assert_eq!(seq[4].0, Register::QrEnable);
    assert_eq!(seq[4].1, 0x01);
}

#[test]
fn test_special_registers() {
    let regs = special_registers();
    assert_eq!(regs.len(), 3);

    assert_eq!(regs[0], Register::SerialOutput);
    assert_eq!(regs[1], Register::Settings);
    assert_eq!(regs[2], Register::Version);
}

// ========================================================================
// Serial Output Helpers Tests
// ========================================================================

#[test]
fn test_serial_output_needs_fix() {
    // Bits 0-1 set should need fix
    assert!(serial_output_needs_fix(0x03));
    assert!(serial_output_needs_fix(0xA3));
    assert!(serial_output_needs_fix(0xFF));

    // Bits 0-1 clear should not need fix
    assert!(!serial_output_needs_fix(0x00));
    assert!(!serial_output_needs_fix(0xA0));
    assert!(!serial_output_needs_fix(0xFC));
}

#[test]
fn test_fix_serial_output() {
    // Should clear bits 0-1
    assert_eq!(fix_serial_output(0x03), 0x00);
    assert_eq!(fix_serial_output(0xA3), 0xA0);
    assert_eq!(fix_serial_output(0xFF), 0xFC);

    // Already correct values should remain unchanged
    assert_eq!(fix_serial_output(0x00), 0x00);
    assert_eq!(fix_serial_output(0xA0), 0xA0);
}

#[test]
fn test_serial_output_roundtrip() {
    // If a value needs fixing, the fixed value should not need fixing
    for value in 0..=255u8 {
        if serial_output_needs_fix(value) {
            let fixed = fix_serial_output(value);
            assert!(!serial_output_needs_fix(fixed));
        }
    }
}

// ========================================================================
// Version Helpers Tests
// ========================================================================

#[test]
fn scanner_core_test_version_needs_raw_fix() {
    // Version 0x69 needs fix
    assert!(version_needs_raw_fix(0x69));

    // Other versions don't
    assert!(!version_needs_raw_fix(0x00));
    assert!(!version_needs_raw_fix(0x68));
    assert!(!version_needs_raw_fix(0x6A));
    assert!(!version_needs_raw_fix(0x87));
    assert!(!version_needs_raw_fix(0xFF));
}

// ========================================================================
// InitStep Tests
// ========================================================================

#[test]
fn test_init_step_default() {
    let step = InitStep::default();
    assert_eq!(step, InitStep::Start);
}

#[test]
fn test_init_step_equality() {
    assert_eq!(InitStep::Start, InitStep::Start);
    assert_eq!(
        InitStep::ApplyConfig { index: 2 },
        InitStep::ApplyConfig { index: 2 }
    );
    assert_ne!(
        InitStep::ApplyConfig { index: 1 },
        InitStep::ApplyConfig { index: 2 }
    );
    assert_ne!(InitStep::Detecting, InitStep::Complete);
}

// ========================================================================
// InitAction State Machine Tests
// ========================================================================

#[test]
fn test_init_begin_returns_drain_and_read() {
    let mut core = ScannerCore::with_default_config();
    let action = core.init_begin();
    assert_eq!(action, InitAction::DrainAndRead(Register::SerialOutput));
    assert_eq!(core.state(), ScannerState::Detecting);
    assert_eq!(core.init_step(), InitStep::Detecting);
}

#[test]
fn test_init_advance_probe_success() {
    let mut core = ScannerCore::with_default_config();
    core.init_begin();
    let action = core.init_advance(Some(0xA0));
    assert_eq!(action, InitAction::ReadRegister(Register::SerialOutput));
    assert_eq!(core.detected_model(), ScannerModel::Gm65);
    assert_eq!(core.init_step(), InitStep::ReadSerialOutput);
}

#[test]
fn test_init_advance_probe_failure() {
    let mut core = ScannerCore::with_default_config();
    core.init_begin();
    let action = core.init_advance(None);
    assert_eq!(action, InitAction::Fail(ScannerError::NotDetected));
    assert_eq!(core.state(), ScannerState::Error(ScannerError::NotDetected));
}

#[test]
fn test_init_advance_serial_output_retry_then_fail() {
    let mut core = ScannerCore::with_default_config();
    core.init_begin();
    core.init_advance(Some(0xA0));

    assert_eq!(core.init_retry_count(), 0);
    let a1 = core.init_advance(None);
    assert_eq!(a1, InitAction::ReadRegister(Register::SerialOutput));
    assert_eq!(core.init_retry_count(), 1);

    let a2 = core.init_advance(None);
    assert_eq!(a2, InitAction::ReadRegister(Register::SerialOutput));
    assert_eq!(core.init_retry_count(), 2);

    let a3 = core.init_advance(None);
    assert_eq!(a3, InitAction::Fail(ScannerError::ConfigFailed));
}

#[test]
fn test_init_advance_serial_output_fix_needed() {
    let mut core = ScannerCore::with_default_config();
    core.init_begin();
    core.init_advance(Some(0xA0));
    let action = core.init_advance(Some(0xA3));
    assert_eq!(
        action,
        InitAction::WriteRegister(Register::SerialOutput, 0xA0)
    );
    assert_eq!(core.init_step(), InitStep::FixSerialOutput);
}

#[test]
fn test_init_advance_serial_output_no_fix() {
    let mut core = ScannerCore::with_default_config();
    core.init_begin();
    core.init_advance(Some(0xA0));
    let action = core.init_advance(Some(0xA0));
    assert_eq!(
        action,
        InitAction::WriteRegister(Register::Settings, config::CMD_MODE)
    );
    assert_eq!(core.init_step(), InitStep::SetCommandMode);
}

#[test]
fn test_init_advance_fix_serial_output_success() {
    let mut core = ScannerCore::with_default_config();
    core.init_begin();
    core.init_advance(Some(0xA0));
    core.init_advance(Some(0xA3));
    let action = core.init_advance(Some(0xA0));
    assert_eq!(
        action,
        InitAction::WriteRegister(Register::Settings, config::CMD_MODE)
    );
    assert_eq!(core.init_step(), InitStep::SetCommandMode);
}

#[test]
fn test_init_advance_fix_serial_output_failure() {
    let mut core = ScannerCore::with_default_config();
    core.init_begin();
    core.init_advance(Some(0xA0));
    core.init_advance(Some(0xA3));
    let action = core.init_advance(None);
    assert_eq!(action, InitAction::Fail(ScannerError::ConfigFailed));
}

#[test]
fn test_init_advance_cmd_mode_success() {
    let mut core = ScannerCore::with_default_config();
    core.init_begin();
    core.init_advance(Some(0xA0));
    core.init_advance(Some(0xA0));
    let action = core.init_advance(Some(config::CMD_MODE));
    let config_seq = init_config_sequence();
    assert_eq!(action, InitAction::ReadRegister(config_seq[0].0));
    assert_eq!(core.init_step(), InitStep::ApplyConfig { index: 0 });
}

#[test]
fn test_init_advance_cmd_mode_failure() {
    let mut core = ScannerCore::with_default_config();
    core.init_begin();
    core.init_advance(Some(0xA0));
    core.init_advance(Some(0xA0));
    let action = core.init_advance(None);
    assert_eq!(action, InitAction::Fail(ScannerError::ConfigFailed));
}

#[test]
fn test_init_advance_config_sequence_write_needed() {
    let config_seq = init_config_sequence();
    let (reg, target) = config_seq[0];
    let wrong_val = if target == 0x00 { 0xFF } else { 0x00 };

    let mut core = ScannerCore::with_default_config();
    core.init_begin();
    core.init_advance(Some(0xA0));
    core.init_advance(Some(0xA0));
    core.init_advance(Some(config::CMD_MODE));
    let action = core.init_advance(Some(wrong_val));
    assert_eq!(action, InitAction::WriteRegister(reg, target));
}

#[test]
fn test_init_advance_config_sequence_no_write_needed() {
    let config_seq = init_config_sequence();
    let (reg, target) = config_seq[0];

    let mut core = ScannerCore::with_default_config();
    core.init_begin();
    core.init_advance(Some(0xA0));
    core.init_advance(Some(0xA0));
    core.init_advance(Some(config::CMD_MODE));
    let action = core.init_advance(Some(target));
    assert_eq!(action, InitAction::VerifyRegister(reg, target));
}

#[test]
fn test_init_advance_config_sequence_failure() {
    let mut core = ScannerCore::with_default_config();
    core.init_begin();
    core.init_advance(Some(0xA0));
    core.init_advance(Some(0xA0));
    core.init_advance(Some(config::CMD_MODE));
    let action = core.init_advance(None);
    assert_eq!(action, InitAction::Fail(ScannerError::ConfigFailed));
}

#[test]
fn test_init_advance_verify_next_register() {
    let config_seq = init_config_sequence();

    let mut core = ScannerCore::with_default_config();
    core.init_begin();
    core.init_advance(Some(0xA0));
    core.init_advance(Some(0xA0));
    core.init_advance(Some(config::CMD_MODE));
    core.init_advance(Some(config_seq[0].1));
    let action = core.init_advance_verify();
    assert_eq!(action, InitAction::ReadRegister(config_seq[1].0));
    assert_eq!(core.init_step(), InitStep::ApplyConfig { index: 1 });
}

#[test]
fn test_init_advance_verify_last_register() {
    let config_seq = init_config_sequence();

    let mut core = ScannerCore::with_default_config();
    core.init_begin();
    core.init_advance(Some(0xA0));
    core.init_advance(Some(0xA0));
    core.init_advance(Some(config::CMD_MODE));

    for i in 0..config_seq.len() {
        core.init_advance(Some(config_seq[i].1));
        if i < config_seq.len() - 1 {
            core.init_advance_verify();
        }
    }
    let action = core.init_advance_verify();
    assert_eq!(action, InitAction::ReadRegister(Register::Version));
    assert_eq!(core.init_step(), InitStep::CheckVersion);
}

#[test]
fn test_init_advance_version_no_fix_needed() {
    let mut core = ScannerCore::with_default_config();
    core.init_begin();
    core.init_advance(Some(0xA0));
    core.init_advance(Some(0xA0));
    core.init_advance(Some(config::CMD_MODE));

    let config_seq = init_config_sequence();
    for i in 0..config_seq.len() {
        core.init_advance(Some(config_seq[i].1));
        if i < config_seq.len() - 1 {
            core.init_advance_verify();
        }
    }
    core.init_advance_verify();
    let action = core.init_advance(Some(0x87));
    assert_eq!(action, InitAction::Complete(ScannerModel::Gm65));
}

#[test]
fn test_init_advance_version_needs_raw_fix() {
    let mut core = ScannerCore::with_default_config();
    core.init_begin();
    core.init_advance(Some(0xA0));
    core.init_advance(Some(0xA0));
    core.init_advance(Some(config::CMD_MODE));

    let config_seq = init_config_sequence();
    for i in 0..config_seq.len() {
        core.init_advance(Some(config_seq[i].1));
        if i < config_seq.len() - 1 {
            core.init_advance_verify();
        }
    }
    core.init_advance_verify();
    let action = core.init_advance(Some(0x69));
    assert_eq!(action, InitAction::ReadRegister(Register::RawMode));
    assert_eq!(core.init_step(), InitStep::SaveSettings);
}

#[test]
fn test_init_advance_save_settings_write_needed() {
    let mut core = ScannerCore::with_default_config();
    core.init_begin();
    core.init_advance(Some(0xA0));
    core.init_advance(Some(0xA0));
    core.init_advance(Some(config::CMD_MODE));

    let config_seq = init_config_sequence();
    for i in 0..config_seq.len() {
        core.init_advance(Some(config_seq[i].1));
        if i < config_seq.len() - 1 {
            core.init_advance_verify();
        }
    }
    core.init_advance_verify();
    core.init_advance(Some(0x69));
    let action = core.init_advance(Some(0x00));
    assert_eq!(
        action,
        InitAction::WriteRegister(Register::RawMode, config::RAW_MODE_VALUE)
    );
    assert_eq!(core.init_step(), InitStep::Complete);
}

#[test]
fn test_init_advance_save_settings_no_write_needed() {
    let mut core = ScannerCore::with_default_config();
    core.init_begin();
    core.init_advance(Some(0xA0));
    core.init_advance(Some(0xA0));
    core.init_advance(Some(config::CMD_MODE));

    let config_seq = init_config_sequence();
    for i in 0..config_seq.len() {
        core.init_advance(Some(config_seq[i].1));
        if i < config_seq.len() - 1 {
            core.init_advance_verify();
        }
    }
    core.init_advance_verify();
    core.init_advance(Some(0x69));
    let action = core.init_advance(Some(config::RAW_MODE_VALUE));
    assert_eq!(action, InitAction::Complete(ScannerModel::Gm65));
}

#[test]
fn test_init_advance_save_settings_failure() {
    let mut core = ScannerCore::with_default_config();
    core.init_begin();
    core.init_advance(Some(0xA0));
    core.init_advance(Some(0xA0));
    core.init_advance(Some(config::CMD_MODE));

    let config_seq = init_config_sequence();
    for i in 0..config_seq.len() {
        core.init_advance(Some(config_seq[i].1));
        if i < config_seq.len() - 1 {
            core.init_advance_verify();
        }
    }
    core.init_advance_verify();
    core.init_advance(Some(0x69));
    let action = core.init_advance(None);
    assert_eq!(action, InitAction::Complete(ScannerModel::Gm65));
}

#[test]
fn test_init_advance_version_none_completes() {
    let mut core = ScannerCore::with_default_config();
    core.init_begin();
    core.init_advance(Some(0xA0));
    core.init_advance(Some(0xA0));
    core.init_advance(Some(config::CMD_MODE));

    let config_seq = init_config_sequence();
    for i in 0..config_seq.len() {
        core.init_advance(Some(config_seq[i].1));
        if i < config_seq.len() - 1 {
            core.init_advance_verify();
        }
    }
    core.init_advance_verify();
    let action = core.init_advance(None);
    assert_eq!(action, InitAction::Complete(ScannerModel::Gm65));
}

#[test]
fn test_init_advance_start_fails() {
    let mut core = ScannerCore::with_default_config();
    let action = core.init_advance(Some(0xFF));
    assert_eq!(action, InitAction::Fail(ScannerError::NotDetected));
}

#[test]
fn test_full_init_happy_path() {
    let mut core = ScannerCore::with_default_config();
    let config_seq = init_config_sequence();

    let mut action = core.init_begin();
    assert_eq!(action, InitAction::DrainAndRead(Register::SerialOutput));

    action = core.init_advance(Some(0xA0));
    assert_eq!(action, InitAction::ReadRegister(Register::SerialOutput));

    action = core.init_advance(Some(0xA0));
    assert_eq!(
        action,
        InitAction::WriteRegister(Register::Settings, config::CMD_MODE)
    );

    action = core.init_advance(Some(config::CMD_MODE));
    assert_eq!(action, InitAction::ReadRegister(config_seq[0].0));

    for i in 0..config_seq.len() {
        action = core.init_advance(Some(config_seq[i].1));
        assert!(matches!(action, InitAction::VerifyRegister(_, _)));
        if i < config_seq.len() - 1 {
            action = core.init_advance_verify();
            assert!(matches!(action, InitAction::ReadRegister(_)));
        }
    }

    action = core.init_advance_verify();
    assert_eq!(action, InitAction::ReadRegister(Register::Version));

    action = core.init_advance(Some(0x87));
    assert_eq!(action, InitAction::Complete(ScannerModel::Gm65));
}

#[test]
fn test_full_init_with_serial_output_fix() {
    let mut core = ScannerCore::with_default_config();
    let config_seq = init_config_sequence();

    core.init_begin();
    core.init_advance(Some(0xA3));
    core.init_advance(Some(0xA0));
    core.init_advance(Some(config::CMD_MODE));

    for i in 0..config_seq.len() {
        core.init_advance(Some(config_seq[i].1));
        if i < config_seq.len() - 1 {
            core.init_advance_verify();
        }
    }

    let action = core.init_advance_verify();
    assert_eq!(action, InitAction::ReadRegister(Register::Version));
}

#[test]
fn test_full_init_with_raw_mode_fix() {
    let mut core = ScannerCore::with_default_config();
    let config_seq = init_config_sequence();

    core.init_begin();
    core.init_advance(Some(0xA0));
    core.init_advance(Some(0xA0));
    core.init_advance(Some(config::CMD_MODE));

    for i in 0..config_seq.len() {
        core.init_advance(Some(config_seq[i].1));
        if i < config_seq.len() - 1 {
            core.init_advance_verify();
        }
    }

    core.init_advance_verify();
    core.init_advance(Some(0x69));
    core.init_advance(Some(0x00));

    let action = core.init_advance(Some(config::RAW_MODE_VALUE));
    assert_eq!(action, InitAction::Complete(ScannerModel::Gm65));
}
