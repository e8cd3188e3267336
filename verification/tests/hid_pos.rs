use gm65_scanner::hid::pos::{HidPosReport, POS_BARCODE_SCANNER_REPORT_DESCRIPTOR};

#[test]
fn test_pos_descriptor_usage_page() {
    assert_eq!(POS_BARCODE_SCANNER_REPORT_DESCRIPTOR[0], 0x06);
    assert_eq!(POS_BARCODE_SCANNER_REPORT_DESCRIPTOR[1], 0x8C);
    assert_eq!(POS_BARCODE_SCANNER_REPORT_DESCRIPTOR[2], 0x00);
    assert_eq!(*POS_BARCODE_SCANNER_REPORT_DESCRIPTOR.last().unwrap(), 0xC0);
}

#[test]
fn test_pos_report_new() {
    let report = HidPosReport::new(b"Hello", HidPosReport::SYMBOLOGY_QR);
    assert_eq!(report.data_length, 5);
    assert_eq!(&report.data[..5], b"Hello");
    assert_eq!(&report.data[5..], &[0u8; 251]);
    assert_eq!(report.symbology, *b"]Q3");
}

#[test]
fn test_pos_report_as_bytes() {
    let report = HidPosReport::new(b"AB", HidPosReport::SYMBOLOGY_EAN13);
    let bytes = report.as_bytes();
    assert_eq!(bytes.len(), 261);
    assert_eq!(bytes[0], b'A');
    assert_eq!(bytes[1], b'B');
    assert_eq!(bytes[2], 0);
    // Length at offset 256 (LE u16)
    assert_eq!(bytes[256], 2);
    assert_eq!(bytes[257], 0);
    // Symbology at offset 258
    assert_eq!(&bytes[258..261], b"]E0");
}

#[test]
fn test_pos_report_max_data() {
    let data = [0xAA; 300];
    let report = HidPosReport::new(&data, HidPosReport::SYMBOLOGY_CODE128);
    assert_eq!(report.data_length, 256); // truncated
}

#[test]
fn test_pos_symbology_constants() {
    assert_eq!(HidPosReport::SYMBOLOGY_QR, *b"]Q3");
    assert_eq!(HidPosReport::SYMBOLOGY_EAN13, *b"]E0");
    assert_eq!(HidPosReport::SYMBOLOGY_CODE128, *b"]C0");
    assert_eq!(HidPosReport::SYMBOLOGY_CODE39, *b"]A0");
    assert_eq!(HidPosReport::SYMBOLOGY_DATAMATRIX, *b"]d2");
    assert_eq!(HidPosReport::SYMBOLOGY_UNKNOWN, [0x00, 0x00, 0x00]);
}

#[test]
fn test_pos_report_empty_data() {
    let report = HidPosReport::new(b"", HidPosReport::SYMBOLOGY_QR);
    assert_eq!(report.data_length, 0);
    assert_eq!(report.data, [0u8; 256]);
    let bytes = report.as_bytes();
    assert_eq!(bytes[256], 0); // length low
    assert_eq!(bytes[257], 0); // length high
}

#[test]
fn test_pos_report_exactly_256_bytes() {
    // Boundary: exactly max capacity
    let data = [0x42; 256];
    let report = HidPosReport::new(&data, HidPosReport::SYMBOLOGY_CODE128);
    assert_eq!(report.data_length, 256);
    assert_eq!(report.data, [0x42; 256]);
    let bytes = report.as_bytes();
    // 256 as LE u16 = [0x00, 0x01]
    assert_eq!(bytes[256], 0x00);
    assert_eq!(bytes[257], 0x01);
}

#[test]
fn test_pos_report_truncation_at_257() {
    // One byte over max — should truncate to 256
    let data = [0xBB; 257];
    let report = HidPosReport::new(&data, HidPosReport::SYMBOLOGY_QR);
    assert_eq!(report.data_length, 256);
}

#[test]
fn test_pos_descriptor_length() {
    // Sanity check: descriptor should be a reasonable size
    assert!(POS_BARCODE_SCANNER_REPORT_DESCRIPTOR.len() > 10);
    assert!(POS_BARCODE_SCANNER_REPORT_DESCRIPTOR.len() < 200);
}

#[test]
fn test_pos_report_as_bytes_total_length() {
    // Report must always be exactly 261 bytes: 256 data + 2 length + 3 symbology
    let report = HidPosReport::new(b"test", HidPosReport::SYMBOLOGY_QR);
    assert_eq!(report.as_bytes().len(), 261);
}
