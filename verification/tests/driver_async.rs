use gm65_scanner::driver::{Gm65ScannerAsync, ScannerError, ScannerModel, ScannerState};

/// A UART that is never touched by these tests.
struct MockAsyncUart {
    id: u32,
}

impl MockAsyncUart {
    fn new() -> Self {
        Self { id: 7 }
    }
}

#[test]
fn async__test_initial_state_uninitialized() {
    let mock = MockAsyncUart::new();
    let scanner = Gm65ScannerAsync::with_default_config(mock);
    assert_eq!(scanner.state(), ScannerState::Uninitialized);
    assert!(!scanner.data_ready());
    let status = scanner.status();
    assert!(!status.connected);
    assert!(!status.initialized);
}

#[test]
fn async__test_release_returns_uart() {
    let mock = MockAsyncUart::new();
    let scanner = Gm65ScannerAsync::with_default_config(mock);
    let mock = scanner.release();
    assert_eq!(mock.id, 7);
}

#[test]
fn async__test_into_parts() {
    let mock = MockAsyncUart::new();
    let scanner = Gm65ScannerAsync::with_default_config(mock);
    let (_uart, state, initialized, model) = scanner.into_parts();
    assert_eq!(state, ScannerState::Uninitialized);
    assert!(!initialized);
    assert_eq!(model, ScannerModel::Unknown);
}

#[test]
fn test_cancel_scan() {
    let mock = MockAsyncUart::new();
    let mut scanner = Gm65ScannerAsync::with_default_config(mock);
    scanner.cancel_scan();
    assert!(matches!(
        scanner.state(),
        ScannerState::Error(ScannerError::Timeout)
    ));
}
