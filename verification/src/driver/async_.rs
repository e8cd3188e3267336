//! State of the executor-based GM65 driver.
//!
//! The driver's decisions live in the sans-I/O core (the initialization
//! state machine and scan-byte handling); the asynchronous UART operations
//! that feed it are performed by the embedding firmware.

use vstd::prelude::*;

use crate::driver::types::{
    default_config, ScannerConfig, ScannerError, ScannerModel, ScannerState, ScannerStatus,
};
use crate::scanner_core::{initial_model, status_of, CoreModel, ScannerCore};

verus! {

/// GM65 / M3Y driver for executor-based firmware: a sans-I/O core and the
/// UART it is driven over.
pub struct Gm65ScannerAsync<UART> {
    core: ScannerCore,
    uart: UART,
}

impl<UART> Gm65ScannerAsync<UART> {
    /// The state of the sans-I/O core.
    pub closed spec fn core_model(&self) -> CoreModel {
        self.core@
    }

    /// The UART the driver owns.
    pub closed spec fn uart_of(&self) -> UART {
        self.uart
    }

    /// A driver over `uart` with the given configuration.
    pub fn new(uart: UART, config: ScannerConfig) -> (s: Self)
        ensures
            s.core_model() == initial_model(config),
            s.uart_of() == uart,
    {
        Gm65ScannerAsync { core: ScannerCore::new(config), uart }
    }

    /// A driver over `uart` with the default configuration.
    pub fn with_default_config(uart: UART) -> (s: Self)
        ensures
            s.core_model() == initial_model(default_config()),
            s.uart_of() == uart,
    {
        Self::new(uart, ScannerConfig::default())
    }

    /// Gives the UART back.
    pub fn release(self) -> (u: UART)
        ensures
            u == self.uart_of(),
    {
        self.uart
    }

    /// Splits the driver into its UART, state, initialization flag and model.
    pub fn into_parts(self) -> (parts: (UART, ScannerState, bool, ScannerModel))
        ensures
            parts.0 == self.uart_of(),
            parts.1 == self.core_model().state,
            parts.2 == self.core_model().initialized,
            parts.3 == self.core_model().detected_model,
    {
        let state = self.core.state();
        let initialized = self.core.is_initialized();
        let model = self.core.detected_model();
        (self.uart, state, initialized, model)
    }

    /// Abandons a scan in progress: the state becomes `Error(Timeout)`.
    pub fn cancel_scan(&mut self)
        ensures
            final(self).core_model() == (CoreModel {
                state: ScannerState::Error(ScannerError::Timeout),
                ..old(self).core_model()
            }),
            final(self).uart_of() == old(self).uart_of(),
    {
        self.core.fail(ScannerError::Timeout);
    }

    /// The current scanner state.
    pub fn state(&self) -> (s: ScannerState)
        ensures
            s == self.core_model().state,
    {
        self.core.state()
    }

    /// A status snapshot.
    pub fn status(&self) -> (s: ScannerStatus)
        ensures
            s == status_of(self.core_model()),
    {
        self.core.status()
    }

    /// True when scan data is ready.
    pub fn data_ready(&self) -> (b: bool)
        ensures
            b == (self.core_model().state == ScannerState::ScanComplete),
    {
        self.core.data_ready()
    }

    /// The sans-I/O core.
    pub fn scanner_core(&self) -> (c: &ScannerCore)
        ensures
            c@ == self.core_model(),
    {
        &self.core
    }

    /// Mutable access to the sans-I/O core; the UART is left as it is.
    pub fn scanner_core_mut(&mut self) -> (c: &mut ScannerCore)
        ensures
            c@ == old(self).core_model(),
            final(self).core_model() == final(c)@,
            final(self).uart_of() == old(self).uart_of(),
    {
        &mut self.core
    }

    /// Mutable access to the UART; the core is left as it is.
    pub fn uart_mut(&mut self) -> (u: &mut UART)
        ensures
            *u == old(self).uart_of(),
            final(self).uart_of() == *final(u),
            final(self).core_model() == old(self).core_model(),
    {
        &mut self.uart
    }
}

} // verus!
