use std::cell::RefCell;
use std::rc::Rc;

use gm65_scanner::driver::test_helpers::{success_response, MockInner};
use gm65_scanner::driver::{
    ScannerDriverSync, ScannerError, ScannerModel, ScannerState, SerialRead, SerialWrite,
    SyncScannerIO,
};
use gm65_scanner::protocol::{build_get_setting, build_set_setting, Register};
use gm65_scanner::scanner::Gm65Scanner;
use gm65_scanner::state_machine::ScannerSettings;

/// Scripted UART: a flush releases the next pending response into the read
/// queue.
struct MockUart {
    inner: Rc<RefCell<MockInner>>,
}

impl MockUart {
    fn new() -> Self {
        Self {
            inner: Rc::new(RefCell::new(MockInner {
                read_queue: Vec::new(),
                written: Vec::new(),
                pending_responses: Vec::new(),
            })),
        }
    }

    fn with_responses(responses: &[u8]) -> Self {
        Self {
            inner: Rc::new(RefCell::new(MockInner {
                read_queue: Vec::new(),
                written: Vec::new(),
                pending_responses: Vec::from([Vec::from(responses)]),
            })),
        }
    }

    fn with_response_sequence(responses: &[&[u8]]) -> Self {
        Self {
            inner: Rc::new(RefCell::new(MockInner {
                read_queue: Vec::new(),
                written: Vec::new(),
                pending_responses: responses.iter().map(|r| Vec::from(*r)).collect(),
            })),
        }
    }

    fn written_bytes(&self) -> Vec<u8> {
        self.inner.borrow().written.clone()
    }

    fn load_read_queue(&self, data: &[u8]) {
        self.inner.borrow_mut().read_queue.extend_from_slice(data);
    }
}

impl Clone for MockUart {
    fn clone(&self) -> Self {
        Self {
            inner: Rc::clone(&self.inner),
        }
    }
}

impl SyncScannerIO for MockUart {
    fn read_byte(&mut self) -> SerialRead {
        let mut inner = self.inner.borrow_mut();
        if inner.read_queue.is_empty() {
            SerialRead::WouldBlock
        } else {
            SerialRead::Byte(inner.read_queue.remove(0))
        }
    }

    fn write_byte(&mut self, byte: u8) -> SerialWrite {
        self.inner.borrow_mut().written.push(byte);
        SerialWrite::Done
    }

    fn flush(&mut self) -> SerialWrite {
        let mut inner = self.inner.borrow_mut();
        if !inner.pending_responses.is_empty() {
            let resp = inner.pending_responses.remove(0);
            inner.read_queue.extend_from_slice(&resp);
        }
        SerialWrite::Done
    }
}

/// Responses for a legacy initialization: every register already reads 0x00,
/// so Settings and the non-zero targets are written.
fn legacy_init_responses() -> Vec<[u8; 7]> {
    vec![success_response(0x00); 16]
}

fn ready_scanner() -> (Gm65Scanner<MockUart>, MockUart) {
    let frames = legacy_init_responses();
    let chunks: Vec<&[u8]> = frames.iter().map(|f| &f[..]).collect();
    let mock = MockUart::with_response_sequence(&chunks);
    let handle = mock.clone();
    let mut scanner = Gm65Scanner::with_default_config(mock);
    assert_eq!(scanner.init(), Ok(ScannerModel::Gm65));
    (scanner, handle)
}

#[test]
fn legacy_initial_state() {
    let scanner = Gm65Scanner::with_default_config(MockUart::new());
    assert_eq!(scanner.state(), ScannerState::Uninitialized);
    assert!(!scanner.data_ready());
    assert!(!scanner.status().initialized);
}

#[test]
fn legacy_init_writes_command_mode_0xd1() {
    let (scanner, handle) = ready_scanner();
    assert_eq!(scanner.state(), ScannerState::Ready);
    assert_eq!(scanner.status().model, ScannerModel::Gm65);
    assert_eq!(scanner.status().config.model, ScannerModel::Gm65);
    let written = handle.written_bytes();
    let probe = build_get_setting(Register::SerialOutput.address_bytes());
    assert_eq!(&written[..9], &probe[..]);
    let set_mode = build_set_setting(Register::Settings.address_bytes(), 0xD1);
    assert!(written.windows(9).any(|w| w == &set_mode[..]));
}

#[test]
fn legacy_init_not_detected() {
    let mut scanner = Gm65Scanner::with_default_config(MockUart::new());
    assert_eq!(scanner.init(), Err(ScannerError::NotDetected));
    assert_eq!(scanner.state(), ScannerState::Error(ScannerError::NotDetected));
}

#[test]
fn legacy_init_config_failed_when_serial_output_never_answers() {
    let probe = success_response(0xA0);
    let mock = MockUart::with_response_sequence(&[&probe]);
    let mut scanner = Gm65Scanner::with_default_config(mock);
    assert_eq!(scanner.init(), Err(ScannerError::ConfigFailed));
    assert_eq!(scanner.state(), ScannerState::Error(ScannerError::ConfigFailed));
    let (_uart, _state, initialized, model) = scanner.into_parts();
    assert!(!initialized);
    assert_eq!(model, ScannerModel::Gm65);
}

#[test]
fn legacy_trigger_requires_init() {
    let mut scanner = Gm65Scanner::with_default_config(MockUart::new());
    assert_eq!(scanner.trigger_scan(), Err(ScannerError::NotInitialized));
    assert!(!scanner.stop_scan());
    assert_eq!(scanner.read_scan(), None);
    assert_eq!(scanner.try_read_scan(), None);
}

#[test]
fn legacy_read_scan_returns_payload() {
    let (mut scanner, handle) = ready_scanner();
    handle.load_read_queue(b"HELLO\r\n");
    assert_eq!(scanner.read_scan(), Some(b"HELLO".to_vec()));
    assert_eq!(scanner.state(), ScannerState::ScanComplete);
    assert!(scanner.data_ready());
    assert_eq!(scanner.status().last_scan_len, Some(5));
}

#[test]
fn legacy_read_scan_times_out_without_data() {
    let (mut scanner, _handle) = ready_scanner();
    assert_eq!(scanner.read_scan(), None);
    assert_eq!(scanner.state(), ScannerState::Error(ScannerError::Timeout));
}

#[test]
fn legacy_try_read_scan_takes_one_byte_at_a_time() {
    let (mut scanner, handle) = ready_scanner();
    handle.load_read_queue(b"OK\r");
    assert_eq!(scanner.try_read_scan(), None);
    assert_eq!(scanner.try_read_scan(), None);
    assert_eq!(scanner.try_read_scan(), Some(b"OK".to_vec()));
    assert!(scanner.data_ready());
    // The next read acknowledges the completed scan.
    assert_eq!(scanner.try_read_scan(), None);
    assert_eq!(scanner.state(), ScannerState::Ready);
}

#[test]
fn legacy_settings_flags() {
    let resp = success_response(0xD1);
    let mock = MockUart::with_responses(&resp);
    let mut scanner = Gm65Scanner::with_default_config(mock);
    let s = scanner.get_scanner_settings().unwrap();
    assert_eq!(s.bits(), ScannerSettings::default().bits());
    assert!(s.contains(ScannerSettings::sound()));

    let ack = success_response(0x00);
    let mock = MockUart::with_responses(&ack);
    let handle = mock.clone();
    let mut scanner = Gm65Scanner::with_default_config(mock);
    let flags = ScannerSettings::always_on() | ScannerSettings::continuous();
    assert!(scanner.set_scanner_settings(flags));
    let expected = build_set_setting(Register::Settings.address_bytes(), 0x82);
    assert_eq!(&handle.written_bytes()[..], &expected[..]);
}

#[test]
fn legacy_poll_uart() {
    let mock = MockUart::new();
    mock.load_read_queue(&[0x5A]);
    let mut scanner = Gm65Scanner::with_default_config(mock);
    assert_eq!(scanner.poll_uart(), Some(0x5A));
    assert_eq!(scanner.poll_uart(), None);
    let _uart = scanner.release();
}
