//! Shared types for the scanner drivers.

use vstd::prelude::*;

verus! {

/// Scanner model identifier.
#[derive(Debug, Clone, Copy, PartialEq, Eq, Structural)]
pub enum ScannerModel {
    /// GM65 scanner module.
    Gm65,
    /// M3Y scanner module (GM65 variant).
    M3Y,
    /// Unrecognized model (init succeeded but version unknown).
    Generic,
    /// Model not yet detected (pre-init state).
    Unknown,
}

impl ScannerModel {
    /// Human-readable model name.
    pub fn display_name(&self) -> (s: &'static str)
        ensures
            *self is Gm65 ==> s@ == "GM65"@,
            *self is M3Y ==> s@ == "M3Y"@,
            *self is Generic ==> s@ == "Generic"@,
            *self is Unknown ==> s@ == "Unknown"@,
    {
        match self {
            ScannerModel::Gm65 => "GM65",
            ScannerModel::M3Y => "M3Y",
            ScannerModel::Generic => "Generic",
            ScannerModel::Unknown => "Unknown",
        }
    }
}

/// Scan triggering mode.
#[derive(Debug, Clone, Copy, PartialEq, Eq, Structural)]
pub enum ScanMode {
    /// Scanner triggers continuously while a barcode is in view.
    Continuous,
    /// Scanner waits for a trigger command before scanning.
    CommandTriggered,
    /// Scanner uses a hardware trigger pin.
    HardwareTriggered,
}

/// Scanner operational state.
#[derive(Debug, Clone, Copy, PartialEq, Eq, Structural)]
pub enum ScannerState {
    /// Scanner has not been initialized.
    Uninitialized,
    /// Probe in progress.
    Detecting,
    /// Writing configuration registers.
    Configuring,
    /// Idle and ready to accept scan commands.
    Ready,
    /// A scan is in progress.
    Scanning,
    /// Scan data received and available.
    ScanComplete,
    /// An error occurred.
    Error(ScannerError),
}

/// Scanner error kinds.
#[derive(Debug, Clone, Copy, PartialEq, Eq, Structural)]
pub enum ScannerError {
    /// Scanner did not respond to the probe.
    NotDetected,
    /// UART communication timed out.
    Timeout,
    /// Response frame was invalid or unrecognized.
    InvalidResponse,
    /// Scan data exceeded buffer capacity.
    BufferOverflow,
    /// A configuration register write or read failed.
    ConfigFailed,
    /// Operation attempted before initialization.
    NotInitialized,
    /// UART read/write error.
    UartError,
}

impl ScannerError {
    /// Human-readable description.
    pub fn display_name(&self) -> (s: &'static str)
        ensures
            *self is NotDetected ==> s@ == "Scanner not detected"@,
            *self is Timeout ==> s@ == "Communication timeout"@,
            *self is InvalidResponse ==> s@ == "Invalid response"@,
            *self is BufferOverflow ==> s@ == "Buffer overflow"@,
            *self is ConfigFailed ==> s@ == "Configuration failed"@,
            *self is NotInitialized ==> s@ == "Not initialized"@,
            *self is UartError ==> s@ == "UART error"@,
    {
        match self {
            ScannerError::NotDetected => "Scanner not detected",
            ScannerError::Timeout => "Communication timeout",
            ScannerError::InvalidResponse => "Invalid response",
            ScannerError::BufferOverflow => "Buffer overflow",
            ScannerError::ConfigFailed => "Configuration failed",
            ScannerError::NotInitialized => "Not initialized",
            ScannerError::UartError => "UART error",
        }
    }
}

/// Scanner configuration.
#[derive(Debug, Clone, Copy, PartialEq, Eq, Structural)]
pub struct ScannerConfig {
    /// Detected or expected scanner model.
    pub model: ScannerModel,
    /// UART baud rate (informational; the driver does not set it).
    pub baud_rate: u32,
    /// Scan triggering mode.
    pub mode: ScanMode,
    /// Whether raw mode is enabled (firmware-specific).
    pub raw_mode: bool,
}

/// The default configuration: unknown model, 9600 baud, command-triggered, raw mode.
pub open spec fn default_config() -> ScannerConfig {
    ScannerConfig {
        model: ScannerModel::Unknown,
        baud_rate: 9600,
        mode: ScanMode::CommandTriggered,
        raw_mode: true,
    }
}

impl Default for ScannerConfig {
    fn default() -> (c: Self)
        ensures
            c == default_config(),
    {
        ScannerConfig {
            model: ScannerModel::Unknown,
            baud_rate: 9600,
            mode: ScanMode::CommandTriggered,
            raw_mode: true,
        }
    }
}

/// Scanner status snapshot.
#[derive(Debug, Clone, Copy, PartialEq, Eq, Structural)]
pub struct ScannerStatus {
    /// Detected scanner model.
    pub model: ScannerModel,
    /// True if the scanner has been initialized successfully.
    pub connected: bool,
    /// Same as `connected`.
    pub initialized: bool,
    /// Configuration used during initialization.
    pub config: ScannerConfig,
    /// Byte length of the most recent scan, if any.
    pub last_scan_len: Option<usize>,
}

} // verus!
