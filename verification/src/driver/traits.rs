//! The blocking driver interface.

use vstd::prelude::*;

use super::types::{ScannerError, ScannerModel, ScannerState, ScannerStatus};

verus! {

/// Blocking scanner driver, for polling main loops without an executor.
pub trait ScannerDriverSync {
    /// Initializes the scanner and detects the model.
    fn init(&mut self) -> Result<ScannerModel, ScannerError>;

    /// True when the scanner answers a register read.
    fn ping(&mut self) -> bool;

    /// Starts a scan.
    fn trigger_scan(&mut self) -> Result<(), ScannerError>;

    /// Stops a scan; true when the module acknowledged.
    fn stop_scan(&mut self) -> bool;

    /// Reads a complete scan, or `None` on timeout or error.
    fn read_scan(&mut self) -> Option<Vec<u8>>;

    /// The current scanner state.
    fn state(&self) -> ScannerState;

    /// A status snapshot.
    fn status(&self) -> ScannerStatus;

    /// True when scan data is ready.
    fn data_ready(&self) -> bool;
}

} // verus!
