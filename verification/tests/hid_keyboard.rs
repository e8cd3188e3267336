use gm65_scanner::hid::keyboard::{
    us_english, HidKeyboardReport, KeyMapper, KeyboardLayout, Terminator,
    BOOT_KEYBOARD_REPORT_DESCRIPTOR, KEY_ENTER, KEY_TAB, MOD_LEFT_SHIFT,
};

/// The US English layout, kept for the whole test run.
fn layout() -> &'static KeyboardLayout {
    Box::leak(Box::new(us_english()))
}

// ---- HidKeyboardReport tests ----

#[test]
fn test_release_report() {
    let r = HidKeyboardReport::release();
    assert_eq!(r.modifier, 0);
    assert_eq!(r.keycode, 0);
    assert_eq!(r.as_bytes(), [0, 0, 0, 0, 0, 0, 0, 0]);
}

#[test]
fn test_press_report() {
    let r = HidKeyboardReport::press(MOD_LEFT_SHIFT, 0x04);
    assert_eq!(r.modifier, 0x02);
    assert_eq!(r.keycode, 0x04);
    assert_eq!(r.as_bytes(), [0x02, 0, 0x04, 0, 0, 0, 0, 0]);
}

#[test]
fn test_report_8_bytes() {
    let r = HidKeyboardReport::press(0, 0x28);
    let bytes = r.as_bytes();
    assert_eq!(bytes.len(), 8);
}

// ---- Terminator tests ----

#[test]
fn test_terminator_enter() {
    assert_eq!(Terminator::Enter.keycode(), Some(KEY_ENTER));
}

#[test]
fn test_terminator_tab() {
    assert_eq!(Terminator::Tab.keycode(), Some(KEY_TAB));
}

#[test]
fn test_terminator_none() {
    assert_eq!(Terminator::NoKey.keycode(), None);
}

// ---- Layout tests ----

#[test]
fn test_us_layout_lowercase_a() {
    let m = layout()[b'a' as usize];
    assert_eq!(m.keycode, 0x04);
    assert!(!m.shifted);
}

#[test]
fn test_us_layout_uppercase_a() {
    let m = layout()[b'A' as usize];
    assert_eq!(m.keycode, 0x04);
    assert!(m.shifted);
}

#[test]
fn test_us_layout_digit_0() {
    let m = layout()[b'0' as usize];
    assert_eq!(m.keycode, 0x27); // Per HID spec, '0' is 0x27
    assert!(!m.shifted);
}

#[test]
fn test_us_layout_digit_1() {
    let m = layout()[b'1' as usize];
    assert_eq!(m.keycode, 0x1E); // Per HID spec, '1' is 0x1E
    assert!(!m.shifted);
}

#[test]
fn test_us_layout_space() {
    let m = layout()[b' ' as usize];
    assert_eq!(m.keycode, 0x2C);
    assert!(!m.shifted);
}

#[test]
fn test_us_layout_exclamation() {
    let m = layout()[b'!' as usize];
    assert_eq!(m.keycode, 0x1E); // Shift+1
    assert!(m.shifted);
}

#[test]
fn test_us_layout_at_sign() {
    let m = layout()[b'@' as usize];
    assert_eq!(m.keycode, 0x1F); // Shift+2
    assert!(m.shifted);
}

#[test]
fn test_us_layout_control_chars_unmapped() {
    // Control characters (0x00–0x1F) should be unmapped
    for i in 0u8..0x20 {
        assert_eq!(
            layout()[i as usize].keycode, 0,
            "char 0x{:02x} should be unmapped",
            i
        );
    }
}

#[test]
fn test_us_layout_all_lowercase_mapped() {
    for c in b'a'..=b'z' {
        let m = layout()[c as usize];
        assert_ne!(m.keycode, 0, "char '{}' should be mapped", c as char);
        assert!(!m.shifted, "char '{}' should not need shift", c as char);
    }
}

#[test]
fn test_us_layout_all_uppercase_mapped() {
    for c in b'A'..=b'Z' {
        let m = layout()[c as usize];
        assert_ne!(m.keycode, 0, "char '{}' should be mapped", c as char);
        assert!(m.shifted, "char '{}' should need shift", c as char);
    }
}

#[test]
fn test_us_layout_all_digits_mapped() {
    for c in b'0'..=b'9' {
        let m = layout()[c as usize];
        assert_ne!(m.keycode, 0, "char '{}' should be mapped", c as char);
        assert!(!m.shifted, "char '{}' should not need shift", c as char);
    }
}

#[test]
fn test_us_layout_upper_lower_same_keycode() {
    // Upper and lower case should use the same key code, just different shift
    for offset in 0u8..26 {
        let upper = layout()[(b'A' + offset) as usize];
        let lower = layout()[(b'a' + offset) as usize];
        assert_eq!(
            upper.keycode,
            lower.keycode,
            "'{}'/'{}' should have same keycode",
            (b'A' + offset) as char,
            (b'a' + offset) as char
        );
    }
}

// ---- KeyMapper tests ----

#[test]
fn test_map_byte_ascii() {
    let mapper = KeyMapper::new(layout(), Terminator::NoKey);
    let report = mapper.map_byte(b'a').unwrap();
    assert_eq!(report.keycode, 0x04);
    assert_eq!(report.modifier, 0);
}

#[test]
fn test_map_byte_shifted() {
    let mapper = KeyMapper::new(layout(), Terminator::NoKey);
    let report = mapper.map_byte(b'A').unwrap();
    assert_eq!(report.keycode, 0x04);
    assert_eq!(report.modifier, MOD_LEFT_SHIFT);
}

#[test]
fn test_map_byte_non_ascii() {
    let mapper = KeyMapper::new(layout(), Terminator::NoKey);
    assert!(mapper.map_byte(0x80).is_none());
    assert!(mapper.map_byte(0xFF).is_none());
}

#[test]
fn test_map_byte_control_char() {
    let mapper = KeyMapper::new(layout(), Terminator::NoKey);
    assert!(mapper.map_byte(0x00).is_none());
    assert!(mapper.map_byte(0x0A).is_none()); // newline
    assert!(mapper.map_byte(0x0D).is_none()); // carriage return
}

// ---- ReportIterator tests ----

#[test]
fn test_reports_empty_data() {
    let mapper = KeyMapper::new(layout(), Terminator::NoKey);
    let reports: Vec<HidKeyboardReport> = mapper.map_to_reports(b"").collect_reports();
    assert_eq!(reports.len(), 0);
}

#[test]
fn test_reports_empty_data_with_terminator() {
    let mapper = KeyMapper::new(layout(), Terminator::Enter);
    let reports: Vec<HidKeyboardReport> = mapper.map_to_reports(b"").collect_reports();
    // Just terminator: press + release
    assert_eq!(reports.len(), 2);
    assert_eq!(reports[0].keycode, KEY_ENTER);
    assert_eq!(reports[1], HidKeyboardReport::release());
}

#[test]
fn test_reports_single_char() {
    let mapper = KeyMapper::new(layout(), Terminator::NoKey);
    let reports: Vec<HidKeyboardReport> = mapper.map_to_reports(b"a").collect_reports();
    assert_eq!(reports.len(), 2);
    assert_eq!(reports[0].keycode, 0x04); // 'a'
    assert_eq!(reports[0].modifier, 0);
    assert_eq!(reports[1], HidKeyboardReport::release());
}

#[test]
fn test_reports_with_enter_terminator() {
    let mapper = KeyMapper::new(layout(), Terminator::Enter);
    let reports: Vec<HidKeyboardReport> = mapper.map_to_reports(b"1").collect_reports();
    // '1' press + release + Enter press + release = 4
    assert_eq!(reports.len(), 4);
    assert_eq!(reports[0].keycode, 0x1E); // '1'
    assert_eq!(reports[1], HidKeyboardReport::release());
    assert_eq!(reports[2].keycode, KEY_ENTER);
    assert_eq!(reports[3], HidKeyboardReport::release());
}

#[test]
fn test_reports_with_tab_terminator() {
    let mapper = KeyMapper::new(layout(), Terminator::Tab);
    let reports: Vec<HidKeyboardReport> = mapper.map_to_reports(b"x").collect_reports();
    assert_eq!(reports.len(), 4);
    assert_eq!(reports[2].keycode, KEY_TAB);
}

#[test]
fn test_reports_mixed_case() {
    let mapper = KeyMapper::new(layout(), Terminator::NoKey);
    let reports: Vec<HidKeyboardReport> = mapper.map_to_reports(b"Hi").collect_reports();
    assert_eq!(reports.len(), 4);
    // 'H' = shifted
    assert_eq!(reports[0].keycode, 0x0B); // H
    assert_eq!(reports[0].modifier, MOD_LEFT_SHIFT);
    // release
    assert_eq!(reports[1], HidKeyboardReport::release());
    // 'i' = unshifted
    assert_eq!(reports[2].keycode, 0x0C); // I
    assert_eq!(reports[2].modifier, 0);
    // release
    assert_eq!(reports[3], HidKeyboardReport::release());
}

#[test]
fn test_reports_skip_non_ascii() {
    let mapper = KeyMapper::new(layout(), Terminator::NoKey);
    let data = &[0x41, 0xFF, 0x42]; // 'A', 0xFF, 'B'
    let reports: Vec<HidKeyboardReport> = mapper.map_to_reports(data).collect_reports();
    // 0xFF is skipped, so A + B = 4 reports
    assert_eq!(reports.len(), 4);
    assert_eq!(reports[0].keycode, 0x04); // 'A'
    assert_eq!(reports[2].keycode, 0x05); // 'B'
}

#[test]
fn test_reports_typical_barcode() {
    // Typical EAN-13 barcode: "4006381333931"
    let mapper = KeyMapper::new(layout(), Terminator::Enter);
    let data = b"4006381333931";
    let reports: Vec<HidKeyboardReport> = mapper.map_to_reports(data).collect_reports();
    // 13 digits * 2 + terminator * 2 = 28
    assert_eq!(reports.len(), 28);
}

#[test]
fn test_report_count() {
    let mapper = KeyMapper::new(layout(), Terminator::Enter);
    assert_eq!(mapper.report_count(b"Hello"), 12); // 5*2 + 2
    assert_eq!(mapper.report_count(b""), 2); // just terminator

    let mapper_no_term = KeyMapper::new(layout(), Terminator::NoKey);
    assert_eq!(mapper_no_term.report_count(b"Hi"), 4);
    assert_eq!(mapper_no_term.report_count(b""), 0);
}

#[test]
fn test_report_count_matches_iterator() {
    let mapper = KeyMapper::new(layout(), Terminator::Enter);
    let data = b"Test123!@#";
    let expected = mapper.report_count(data);
    let actual = mapper.map_to_reports(data).collect_reports().len();
    assert_eq!(expected, actual);
}

// ---- Boot keyboard descriptor tests ----

#[test]
fn test_boot_keyboard_descriptor_valid() {
    // Must start with Usage Page (Generic Desktop) + Usage (Keyboard)
    assert_eq!(BOOT_KEYBOARD_REPORT_DESCRIPTOR[0], 0x05); // Usage Page
    assert_eq!(BOOT_KEYBOARD_REPORT_DESCRIPTOR[1], 0x01); // Generic Desktop
    assert_eq!(BOOT_KEYBOARD_REPORT_DESCRIPTOR[2], 0x09); // Usage
    assert_eq!(BOOT_KEYBOARD_REPORT_DESCRIPTOR[3], 0x06); // Keyboard
                                                          // Must end with End Collection
    assert_eq!(*BOOT_KEYBOARD_REPORT_DESCRIPTOR.last().unwrap(), 0xC0);
}

#[test]
fn test_boot_keyboard_descriptor_length() {
    // Standard boot keyboard descriptor is 63 bytes
    assert_eq!(BOOT_KEYBOARD_REPORT_DESCRIPTOR.len(), 63);
}

// ---- Edge case tests ----

#[test]
fn test_map_byte_del_unmapped() {
    // DEL (0x7F) is not printable ASCII and must not be mapped
    let mapper = KeyMapper::new(layout(), Terminator::NoKey);
    assert!(!mapper.is_mappable(0x7F));
    assert!(mapper.map_byte(0x7F).is_none());
}

#[test]
fn test_all_printable_ascii_mapped() {
    // Every byte in 0x20–0x7E must have a non-zero keycode in the US layout
    for byte in 0x20u8..=0x7E {
        let m = layout()[byte as usize];
        assert_ne!(
            m.keycode, 0,
            "printable ASCII 0x{:02x} ('{}') should be mapped",
            byte, byte as char
        );
    }
}

#[test]
fn test_no_non_printable_ascii_mapped() {
    // 0x00–0x1F and 0x7F must all have keycode == 0
    for byte in 0x00u8..0x20 {
        assert_eq!(
            layout()[byte as usize].keycode, 0,
            "control char 0x{:02x} should not be mapped",
            byte
        );
    }
    assert_eq!(
        layout()[0x7F].keycode, 0,
        "DEL (0x7F) should not be mapped"
    );
}

#[test]
fn test_report_count_with_unmappable_bytes() {
    // Non-ASCII bytes should be excluded from report count
    let mapper = KeyMapper::new(layout(), Terminator::NoKey);
    let data = &[0x80, 0xFF, 0x00, 0x0A]; // all unmappable
    assert_eq!(mapper.report_count(data), 0);
}

#[test]
fn test_report_count_mixed_mappable_unmappable() {
    let mapper = KeyMapper::new(layout(), Terminator::Enter);
    let data = &[b'A', 0xFF, b'B', 0x00]; // 2 mappable, 2 not
                                          // 2 chars * 2 reports + 2 terminator = 6
    assert_eq!(mapper.report_count(data), 6);
}

#[test]
fn test_reports_all_unmappable_with_terminator() {
    // If all bytes are unmappable but terminator is set, only terminator emitted
    let mapper = KeyMapper::new(layout(), Terminator::Enter);
    let data = &[0xFF, 0x80, 0x00];
    let reports: Vec<HidKeyboardReport> = mapper.map_to_reports(data).collect_reports();
    assert_eq!(reports.len(), 2);
    assert_eq!(reports[0].keycode, KEY_ENTER);
    assert_eq!(reports[1], HidKeyboardReport::release());
}

#[test]
fn test_reports_all_unmappable_no_terminator() {
    let mapper = KeyMapper::new(layout(), Terminator::NoKey);
    let data = &[0xFF, 0x80, 0x00];
    let reports: Vec<HidKeyboardReport> = mapper.map_to_reports(data).collect_reports();
    assert_eq!(reports.len(), 0);
}

#[test]
fn test_report_count_always_matches_iterator() {
    // Exhaustive consistency check: report_count must match actual iterator output
    // for all terminator variants and several data patterns
    let patterns: &[&[u8]] = &[
        b"",
        b"a",
        b"Hello World!",
        &[0xFF, 0x80],
        &[b'A', 0xFF, b'B'],
        b"0123456789",
        b"~!@#$%^&*()",
    ];
    for &term in &[Terminator::NoKey, Terminator::Enter, Terminator::Tab] {
        let mapper = KeyMapper::new(layout(), term);
        for &data in patterns {
            let expected = mapper.report_count(data);
            let actual = mapper.map_to_reports(data).collect_reports().len();
            assert_eq!(
                expected, actual,
                "report_count mismatch for {:?} with {:?}",
                data, term
            );
        }
    }
}

#[test]
fn test_is_mappable_boundary_values() {
    let mapper = KeyMapper::new(layout(), Terminator::NoKey);
    // 0x1F = last control char → not mappable
    assert!(!mapper.is_mappable(0x1F));
    // 0x20 = space → mappable
    assert!(mapper.is_mappable(0x20));
    // 0x7E = tilde → mappable
    assert!(mapper.is_mappable(0x7E));
    // 0x7F = DEL → not mappable
    assert!(!mapper.is_mappable(0x7F));
    // 0x80 = first non-ASCII → not mappable
    assert!(!mapper.is_mappable(0x80));
}
