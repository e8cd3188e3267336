//! Scanner drivers: shared types, the driver traits, the byte-level I/O
//! abstraction and the blocking driver built on the sans-I/O core.

pub mod types;

pub use types::{ScanMode, ScannerConfig, ScannerError, ScannerModel, ScannerState, ScannerStatus};
pub mod io;

pub use io::{SerialRead, SerialWrite, SyncScannerIO};
pub mod traits;
pub mod sync;
pub mod async_;
pub mod baud;
pub mod test_helpers;

pub use traits::ScannerDriverSync;
pub use sync::Gm65Scanner;
pub use async_::Gm65ScannerAsync;
pub use baud::{BaudLadder, BaudSwitch, LadderAction, LadderEvent, LadderStep, NoBaudSwitch};
