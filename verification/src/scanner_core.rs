//! Sans-I/O scanner core: scan buffering, the initialization state machine
//! and the configuration helpers shared by the drivers.

use vstd::prelude::*;

use crate::buffer::{ends_with_eol, is_eol_byte, strip_eol, ScanBuffer, MAX_SCAN_SIZE};
use crate::driver::types::{
    default_config, ScannerConfig, ScannerError, ScannerModel, ScannerState, ScannerStatus,
};
use crate::protocol::Register;

pub mod config;

verus! {

// ============================================================================
// Settings register flags
// ============================================================================

/// Flags of the Settings register.
#[derive(Debug, Clone, Copy, PartialEq, Eq, Structural)]
pub struct ScannerSettings {
    bits: u8,
}

impl ScannerSettings {
    /// Keep scanner always on.
    pub fn always_on() -> (s: ScannerSettings)
        ensures
            s.spec_bits() == 0x80,
    {
        ScannerSettings { bits: 0x80 }
    }
    /// Beep on successful scan.
    pub fn sound() -> (s: ScannerSettings)
        ensures
            s.spec_bits() == 0x40,
    {
        ScannerSettings { bits: 0x40 }
    }
    /// Reserved bit 5.
    pub fn unknown_5() -> (s: ScannerSettings)
        ensures
            s.spec_bits() == 0x20,
    {
        ScannerSettings { bits: 0x20 }
    }
    /// Aiming light.
    pub fn aim() -> (s: ScannerSettings)
        ensures
            s.spec_bits() == 0x10,
    {
        ScannerSettings { bits: 0x10 }
    }
    /// Reserved bit 3.
    pub fn unknown_3() -> (s: ScannerSettings)
        ensures
            s.spec_bits() == 0x08,
    {
        ScannerSettings { bits: 0x08 }
    }
    /// Illumination light.
    pub fn light() -> (s: ScannerSettings)
        ensures
            s.spec_bits() == 0x04,
    {
        ScannerSettings { bits: 0x04 }
    }
    /// Continuous scanning.
    pub fn continuous() -> (s: ScannerSettings)
        ensures
            s.spec_bits() == 0x02,
    {
        ScannerSettings { bits: 0x02 }
    }
    /// Command-triggered scanning.
    pub fn command() -> (s: ScannerSettings)
        ensures
            s.spec_bits() == 0x01,
    {
        ScannerSettings { bits: 0x01 }
    }

    /// The register byte.
    pub closed spec fn spec_bits(&self) -> u8 {
        self.bits
    }

    /// The register byte of these flags.
    pub fn bits(&self) -> (b: u8)
        ensures
            b == self.spec_bits(),
    {
        self.bits
    }

    /// Flags from a register byte; every bit is a defined flag, so this never fails.
    pub fn from_bits(bits: u8) -> (s: Option<ScannerSettings>)
        ensures
            s is Some,
            s.unwrap().spec_bits() == bits,
    {
        Some(ScannerSettings { bits })
    }

    /// True when every flag of `other` is set in `self`.
    pub fn contains(&self, other: ScannerSettings) -> (r: bool)
        ensures
            r == (self.spec_bits() & other.spec_bits() == other.spec_bits()),
    {
        self.bits & other.bits == other.bits
    }

    /// The flags set in either.
    pub fn union(self, other: ScannerSettings) -> (s: ScannerSettings)
        ensures
            s.spec_bits() == self.spec_bits() | other.spec_bits(),
    {
        ScannerSettings { bits: self.bits | other.bits }
    }
}

impl core::ops::BitOr for ScannerSettings {
    type Output = ScannerSettings;

    fn bitor(self, other: ScannerSettings) -> (s: ScannerSettings) {
        ScannerSettings { bits: self.bits | other.bits }
    }
}

impl vstd::std_specs::ops::BitOrSpecImpl for ScannerSettings {
    open spec fn obeys_bitor_spec() -> bool {
        true
    }

    open spec fn bitor_req(self, other: ScannerSettings) -> bool {
        true
    }

    closed spec fn bitor_spec(self, other: ScannerSettings) -> ScannerSettings {
        ScannerSettings { bits: self.bits | other.bits }
    }
}

impl Default for ScannerSettings {
    /// ALWAYS_ON | COMMAND, the byte `config::CMD_MODE`: sound, aim and
    /// illumination off.
    fn default() -> (s: Self)
        ensures
            s.spec_bits() == 0x81,
            s.spec_bits() == config::CMD_MODE,
    {
        ScannerSettings { bits: 0x81 }
    }
}


// ============================================================================
// Initialization configuration
// ============================================================================

/// The registers written during initialization, with their target values,
/// in the order they are applied.
pub open spec fn spec_init_config_sequence() -> Seq<(Register, u8)> {
    seq![
        (Register::Timeout, 0x00u8),
        (Register::ScanInterval, config::SCAN_INTERVAL_MS),
        (Register::SameBarcodeDelay, config::SAME_BARCODE_DELAY),
        (Register::BarType, 0x01u8),
        (Register::QrEnable, 0x01u8),
    ]
}

/// The registers read and written during initialization, with their target
/// values. Each register is read and written only when its value differs.
pub fn init_config_sequence() -> (seq: [(Register, u8); 5])
    ensures
        seq@ == spec_init_config_sequence(),
{
    let seq = [
        (Register::Timeout, 0x00),
        (Register::ScanInterval, config::SCAN_INTERVAL_MS),
        (Register::SameBarcodeDelay, config::SAME_BARCODE_DELAY),
        (Register::BarType, 0x01),
        (Register::QrEnable, 0x01),
    ];
    proof {
        assert(seq@ =~= spec_init_config_sequence());
    }
    seq
}

/// Registers with handling beyond read-compare-write during initialization.
pub fn special_registers() -> (regs: [Register; 3])
    ensures
        regs@ == seq![Register::SerialOutput, Register::Settings, Register::Version],
{
    let regs = [Register::SerialOutput, Register::Settings, Register::Version];
    proof {
        assert(regs@ =~= seq![Register::SerialOutput, Register::Settings, Register::Version]);
    }
    regs
}

/// True when bit 0 or bit 1 of a SerialOutput value is set.
pub open spec fn spec_serial_output_needs_fix(value: u8) -> bool {
    value & 0x03 != 0
}

/// A SerialOutput value with bits 0 and 1 cleared.
pub open spec fn spec_fix_serial_output(value: u8) -> u8 {
    value & 0xFC
}

/// Whether a SerialOutput value has bit 0 or bit 1 set and needs fixing.
pub fn serial_output_needs_fix(value: u8) -> (r: bool)
    ensures
        r == spec_serial_output_needs_fix(value),
{
    value & 0x03 != 0
}

/// Clears bits 0 and 1 of a SerialOutput value.
pub fn fix_serial_output(value: u8) -> (r: u8)
    ensures
        r == spec_fix_serial_output(value),
{
    value & 0xFC
}

/// A fixed SerialOutput value never needs fixing again, and a value that
/// needs no fix is left unchanged by the fix.
pub proof fn lemma_fix_serial_output(value: u8)
    ensures
        !spec_serial_output_needs_fix(spec_fix_serial_output(value)),
        !spec_serial_output_needs_fix(value) ==> spec_fix_serial_output(value) == value,
        spec_fix_serial_output(value) & 0xFC == value & 0xFC,
{
    assert((value & 0xFC) & 0x03 == 0) by (bit_vector);
    assert(value & 0x03 == 0 ==> value & 0xFC == value) by (bit_vector);
    assert((value & 0xFC) & 0xFC == value & 0xFC) by (bit_vector);
}

/// Whether a firmware version needs the raw mode fix (only version 0x69).
pub fn version_needs_raw_fix(version: u8) -> (r: bool)
    ensures
        r == (version == config::VERSION_NEEDS_RAW),
{
    version == config::VERSION_NEEDS_RAW
}

// ============================================================================
// Scan byte result
// ============================================================================

/// Result of processing one scan byte.
#[derive(Debug, Clone, PartialEq, Eq)]
pub enum ScanByteResult {
    /// More bytes are needed to complete the scan.
    NeedMore,
    /// A complete scan payload, without its line terminator.
    Complete(Vec<u8>),
    /// The scan buffer overflowed.
    BufferOverflow,
}

/// What processing one scan byte produced, as plain values.
pub enum ScanEvent {
    NeedMore,
    Complete(Seq<u8>),
    BufferOverflow,
}

impl View for ScanByteResult {
    type V = ScanEvent;

    open spec fn view(&self) -> ScanEvent {
        match self {
            ScanByteResult::NeedMore => ScanEvent::NeedMore,
            ScanByteResult::Complete(d) => ScanEvent::Complete(d@),
            ScanByteResult::BufferOverflow => ScanEvent::BufferOverflow,
        }
    }
}

// ============================================================================
// Hardware-in-the-loop results
// ============================================================================

/// Results of the hardware-in-the-loop checks.
#[derive(Debug, Clone, Copy)]
pub struct HilTestResults {
    pub init_detects_scanner: bool,
    pub ping_after_init: bool,
    pub trigger_and_stop: bool,
    pub read_scan_timeout: bool,
    pub state_transitions: bool,
}

impl HilTestResults {
    /// True when every check passed.
    pub fn all_passed(&self) -> (r: bool)
        ensures
            r == (self.init_detects_scanner && self.ping_after_init && self.trigger_and_stop
                && self.read_scan_timeout && self.state_transitions),
    {
        self.init_detects_scanner && self.ping_after_init && self.trigger_and_stop
            && self.read_scan_timeout && self.state_transitions
    }

    /// Number of checks that passed.
    pub fn passed_count(&self) -> (n: usize)
        ensures
            n == (if self.init_detects_scanner { 1int } else { 0int }) + (if self.ping_after_init {
                1int
            } else {
                0int
            }) + (if self.trigger_and_stop { 1int } else { 0int }) + (if self.read_scan_timeout {
                1int
            } else {
                0int
            }) + (if self.state_transitions { 1int } else { 0int }),
    {
        let mut n: usize = 0;
        if self.init_detects_scanner {
            n += 1;
        }
        if self.ping_after_init {
            n += 1;
        }
        if self.trigger_and_stop {
            n += 1;
        }
        if self.read_scan_timeout {
            n += 1;
        }
        if self.state_transitions {
            n += 1;
        }
        n
    }
}

// ============================================================================
// Init steps and actions
// ============================================================================

/// Progress of the initialization sequence.
#[derive(Debug, Clone, Copy, PartialEq, Eq, Structural)]
pub enum InitStep {
    /// Not yet started.
    Start,
    /// Probing for scanner presence.
    Detecting,
    /// Reading the SerialOutput register.
    ReadSerialOutput,
    /// Fixing the SerialOutput register.
    FixSerialOutput,
    /// Setting command mode.
    SetCommandMode,
    /// Applying the configuration entry at `index`.
    ApplyConfig {
        /// Index into `init_config_sequence()`.
        index: usize,
    },
    /// Checking the firmware version.
    CheckVersion,
    /// Checking the raw mode register before saving settings.
    SaveSettings,
    /// Initialization complete.
    Complete,
    /// Initialization failed.
    Failed(ScannerError),
}

impl Default for InitStep {
    fn default() -> (s: Self)
        ensures
            s == InitStep::Start,
    {
        InitStep::Start
    }
}

/// The I/O operation the driver should perform next during initialization.
#[derive(Debug, Clone, Copy, PartialEq, Eq, Structural)]
pub enum InitAction {
    /// Drain the UART, then read the given register (probe).
    DrainAndRead(Register),
    /// Read a register; pass the value (or `None`) to `init_advance`.
    ReadRegister(Register),
    /// Write a register; pass `Some(value)` on success, `None` on failure.
    WriteRegister(Register, u8),
    /// Read back a register; always continue with `init_advance_verify`.
    VerifyRegister(Register, u8),
    /// Initialization complete with the detected model.
    Complete(ScannerModel),
    /// Initialization failed.
    Fail(ScannerError),
}

// ============================================================================
// Scanner core
// ============================================================================

/// The abstract state of a scanner core.
pub struct CoreModel {
    pub state: ScannerState,
    pub config: ScannerConfig,
    pub buffer: Seq<u8>,
    pub initialized: bool,
    pub detected_model: ScannerModel,
    pub last_scan_len: Option<usize>,
    pub init_step: InitStep,
    pub retry: u32,
    pub config_index: usize,
}

/// Sans-I/O scanner core: state, scan buffer and initialization progress,
/// with no I/O of its own.
pub struct ScannerCore {
    state: ScannerState,
    config: ScannerConfig,
    buffer: ScanBuffer,
    initialized: bool,
    detected_model: ScannerModel,
    last_scan_len: Option<usize>,
    init_step: InitStep,
    init_retry_count: u32,
    config_seq_index: usize,
}

impl View for ScannerCore {
    type V = CoreModel;

    closed spec fn view(&self) -> CoreModel {
        CoreModel {
            state: self.state,
            config: self.config,
            buffer: self.buffer@,
            initialized: self.initialized,
            detected_model: self.detected_model,
            last_scan_len: self.last_scan_len,
            init_step: self.init_step,
            retry: self.init_retry_count,
            config_index: self.config_seq_index,
        }
    }
}

/// A fresh core with the given configuration.
pub open spec fn initial_model(config: ScannerConfig) -> CoreModel {
    CoreModel {
        state: ScannerState::Uninitialized,
        config: config,
        buffer: Seq::empty(),
        initialized: false,
        detected_model: ScannerModel::Unknown,
        last_scan_len: None,
        init_step: InitStep::Start,
        retry: 0,
        config_index: 0,
    }
}

/// The status snapshot of a core.
pub open spec fn status_of(m: CoreModel) -> ScannerStatus {
    ScannerStatus {
        model: m.detected_model,
        connected: m.initialized,
        initialized: m.initialized,
        config: m.config,
        last_scan_len: m.last_scan_len,
    }
}

/// The scanner state implied by an init step.
pub open spec fn state_for_step(step: InitStep) -> ScannerState {
    match step {
        InitStep::Start => ScannerState::Uninitialized,
        InitStep::Detecting => ScannerState::Detecting,
        InitStep::Complete => ScannerState::Ready,
        InitStep::Failed(e) => ScannerState::Error(e),
        _ => ScannerState::Configuring,
    }
}

/// Initialization fails with `e`.
pub open spec fn failed_model(m: CoreModel, e: ScannerError) -> CoreModel {
    CoreModel { state: ScannerState::Error(e), init_step: InitStep::Failed(e), ..m }
}

/// The scanner answered the probe as `model`.
pub open spec fn detected_model_of(m: CoreModel, model: ScannerModel) -> CoreModel {
    CoreModel {
        detected_model: model,
        state: ScannerState::Configuring,
        init_step: InitStep::ReadSerialOutput,
        ..m
    }
}

/// Initialization finished with `model`.
pub open spec fn completed_model(m: CoreModel, model: ScannerModel) -> CoreModel {
    CoreModel {
        state: ScannerState::Ready,
        initialized: true,
        detected_model: model,
        config: ScannerConfig { model: model, ..m.config },
        init_step: InitStep::Complete,
        ..m
    }
}

/// The model with a new init step.
pub open spec fn with_step(m: CoreModel, step: InitStep) -> CoreModel {
    CoreModel { init_step: step, ..m }
}

/// The init step and action after `init_begin`.
pub open spec fn init_begin_model(m: CoreModel) -> CoreModel {
    CoreModel {
        retry: 0,
        config_index: 0,
        state: ScannerState::Detecting,
        init_step: InitStep::Detecting,
        ..m
    }
}

/// One transition of the initialization state machine: the model and the
/// action that follow `result` (the outcome of the previous action).
pub open spec fn init_transition(m: CoreModel, result: Option<u8>) -> (CoreModel, InitAction) {
    let cfg = spec_init_config_sequence();
    match m.init_step {
        InitStep::Detecting => match result {
            None => (failed_model(m, ScannerError::NotDetected), InitAction::Fail(ScannerError::NotDetected)),
            Some(_) => (detected_model_of(m, ScannerModel::Gm65), InitAction::ReadRegister(Register::SerialOutput)),
        },
        InitStep::ReadSerialOutput => match result {
            None => {
                let m2 = CoreModel { retry: (m.retry + 1) as u32, ..m };
                if m.retry + 1 >= 3 {
                    (failed_model(m2, ScannerError::ConfigFailed), InitAction::Fail(ScannerError::ConfigFailed))
                } else {
                    (m2, InitAction::ReadRegister(Register::SerialOutput))
                }
            },
            Some(v) => if spec_serial_output_needs_fix(v) {
                (with_step(m, InitStep::FixSerialOutput), InitAction::WriteRegister(Register::SerialOutput, spec_fix_serial_output(v)))
            } else {
                (with_step(m, InitStep::SetCommandMode), InitAction::WriteRegister(Register::Settings, config::CMD_MODE))
            },
        },
        InitStep::FixSerialOutput => match result {
            None => (failed_model(m, ScannerError::ConfigFailed), InitAction::Fail(ScannerError::ConfigFailed)),
            Some(_) => (with_step(m, InitStep::SetCommandMode), InitAction::WriteRegister(Register::Settings, config::CMD_MODE)),
        },
        InitStep::SetCommandMode => match result {
            None => (failed_model(m, ScannerError::ConfigFailed), InitAction::Fail(ScannerError::ConfigFailed)),
            Some(_) => (with_step(m, InitStep::ApplyConfig { index: 0 }), InitAction::ReadRegister(cfg[0].0)),
        },
        InitStep::ApplyConfig { index } => match result {
            None => (failed_model(m, ScannerError::ConfigFailed), InitAction::Fail(ScannerError::ConfigFailed)),
            Some(v) => if v != cfg[index as int].1 {
                (m, InitAction::WriteRegister(cfg[index as int].0, cfg[index as int].1))
            } else {
                (m, InitAction::VerifyRegister(cfg[index as int].0, cfg[index as int].1))
            },
        },
        InitStep::CheckVersion => match result {
            None => (m, InitAction::Complete(ScannerModel::Gm65)),
            Some(v) => if v == config::VERSION_NEEDS_RAW {
                (with_step(m, InitStep::SaveSettings), InitAction::ReadRegister(Register::RawMode))
            } else {
                (m, InitAction::Complete(ScannerModel::Gm65))
            },
        },
        InitStep::SaveSettings => match result {
            None => (m, InitAction::Complete(ScannerModel::Gm65)),
            Some(v) => if v != config::RAW_MODE_VALUE {
                (with_step(m, InitStep::Complete), InitAction::WriteRegister(Register::RawMode, config::RAW_MODE_VALUE))
            } else {
                (m, InitAction::Complete(ScannerModel::Gm65))
            },
        },
        InitStep::Complete => (m, InitAction::Complete(m.detected_model)),
        InitStep::Failed(e) => (m, InitAction::Fail(e)),
        InitStep::Start => (failed_model(m, ScannerError::NotDetected), InitAction::Fail(ScannerError::NotDetected)),
    }
}

/// The transition after a verify step: move to the next configuration entry,
/// or to the version check after the last one.
pub open spec fn verify_transition(m: CoreModel) -> (CoreModel, InitAction) {
    let i = (m.config_index + 1) as usize;
    if i < 5 {
        (
            CoreModel { config_index: i, init_step: InitStep::ApplyConfig { index: i }, ..m },
            InitAction::ReadRegister(spec_init_config_sequence()[i as int].0),
        )
    } else {
        (
            CoreModel { config_index: i, init_step: InitStep::CheckVersion, ..m },
            InitAction::ReadRegister(Register::Version),
        )
    }
}

/// What `init_advance` needs of the core to run without a fault.
pub open spec fn init_advance_ready(m: CoreModel) -> bool {
    &&& (m.init_step matches InitStep::ApplyConfig { index } ==> index < 5)
    &&& (m.init_step is ReadSerialOutput ==> m.retry < u32::MAX)
}

/// Processing one scan byte.
pub open spec fn scan_byte_transition(m: CoreModel, byte: u8) -> (CoreModel, ScanEvent) {
    if m.buffer.len() >= MAX_SCAN_SIZE {
        (CoreModel { state: ScannerState::Error(ScannerError::BufferOverflow), ..m }, ScanEvent::BufferOverflow)
    } else {
        let buf = m.buffer.push(byte);
        if ends_with_eol(buf) {
            let data = strip_eol(buf);
            if data.len() == 0 {
                (CoreModel { buffer: Seq::empty(), ..m }, ScanEvent::NeedMore)
            } else {
                (
                    CoreModel {
                        buffer: Seq::empty(),
                        last_scan_len: Some(data.len() as usize),
                        state: ScannerState::ScanComplete,
                        ..m
                    },
                    ScanEvent::Complete(data),
                )
            }
        } else {
            (CoreModel { buffer: buf, ..m }, ScanEvent::NeedMore)
        }
    }
}

impl ScannerCore {
    /// A new core with the given configuration.
    pub fn new(config: ScannerConfig) -> (c: Self)
        ensures
            c@ == initial_model(config),
    {
        ScannerCore {
            state: ScannerState::Uninitialized,
            config,
            buffer: ScanBuffer::new(),
            initialized: false,
            detected_model: ScannerModel::Unknown,
            last_scan_len: None,
            init_step: InitStep::Start,
            init_retry_count: 0,
            config_seq_index: 0,
        }
    }

    /// A new core with the default configuration.
    pub fn with_default_config() -> (c: Self)
        ensures
            c@ == initial_model(default_config()),
    {
        Self::new(ScannerConfig::default())
    }

    /// The current scanner state.
    pub fn state(&self) -> (s: ScannerState)
        ensures
            s == self@.state,
    {
        self.state
    }

    /// True once initialization has completed.
    pub fn is_initialized(&self) -> (b: bool)
        ensures
            b == self@.initialized,
    {
        self.initialized
    }

    /// The detected scanner model.
    pub fn detected_model(&self) -> (m: ScannerModel)
        ensures
            m == self@.detected_model,
    {
        self.detected_model
    }

    /// A status snapshot.
    pub fn status(&self) -> (s: ScannerStatus)
        ensures
            s == status_of(self@),
    {
        ScannerStatus {
            model: self.detected_model,
            connected: self.initialized,
            initialized: self.initialized,
            config: self.config,
            last_scan_len: self.last_scan_len,
        }
    }

    /// True when a complete scan is ready.
    pub fn data_ready(&self) -> (b: bool)
        ensures
            b == (self@.state == ScannerState::ScanComplete),
    {
        self.state == ScannerState::ScanComplete
    }

    /// The current init step.
    pub fn init_step(&self) -> (s: InitStep)
        ensures
            s == self@.init_step,
    {
        self.init_step
    }

    /// Enters the detecting step.
    pub fn begin_init(&mut self)
        ensures
            final(self)@ == (CoreModel {
                state: ScannerState::Detecting,
                init_step: InitStep::Detecting,
                ..old(self)@
            }),
    {
        self.state = ScannerState::Detecting;
        self.init_step = InitStep::Detecting;
    }

    /// Records an init step and sets the scanner state that goes with it.
    pub fn advance_init(&mut self, step: InitStep)
        ensures
            final(self)@ == (CoreModel { init_step: step, state: state_for_step(step), ..old(self)@ }),
    {
        self.init_step = step;
        match step {
            InitStep::Start => {
                self.state = ScannerState::Uninitialized;
            },
            InitStep::Detecting => {
                self.state = ScannerState::Detecting;
            },
            InitStep::ReadSerialOutput
            | InitStep::FixSerialOutput
            | InitStep::SetCommandMode
            | InitStep::ApplyConfig { .. }
            | InitStep::CheckVersion
            | InitStep::SaveSettings => {
                self.state = ScannerState::Configuring;
            },
            InitStep::Complete => {
                self.state = ScannerState::Ready;
            },
            InitStep::Failed(e) => {
                self.state = ScannerState::Error(e);
            },
        }
    }

    /// Records the detected model after a successful probe.
    pub fn mark_detected(&mut self, model: ScannerModel)
        ensures
            final(self)@ == detected_model_of(old(self)@, model),
    {
        self.detected_model = model;
        self.state = ScannerState::Configuring;
        self.init_step = InitStep::ReadSerialOutput;
    }

    /// Completes initialization with the detected model.
    pub fn complete_init(&mut self, model: ScannerModel)
        ensures
            final(self)@ == completed_model(old(self)@, model),
    {
        self.state = ScannerState::Ready;
        self.initialized = true;
        self.detected_model = model;
        self.config.model = model;
        self.init_step = InitStep::Complete;
    }

    /// Fails initialization with an error.
    pub fn fail_init(&mut self, error: ScannerError)
        ensures
            final(self)@ == failed_model(old(self)@, error),
    {
        self.state = ScannerState::Error(error);
        self.init_step = InitStep::Failed(error);
    }

    /// Starts the initialization sequence and returns the first action.
    pub fn init_begin(&mut self) -> (a: InitAction)
        ensures
            final(self)@ == init_begin_model(old(self)@),
            a == InitAction::DrainAndRead(Register::SerialOutput),
    {
        self.init_retry_count = 0;
        self.config_seq_index = 0;
        self.begin_init();
        InitAction::DrainAndRead(Register::SerialOutput)
    }

    /// The position in the register sequence reached during initialization.
    pub fn init_config_index(&self) -> (i: usize)
        ensures
            i == self@.config_index,
    {
        self.config_seq_index
    }

    /// How many SerialOutput reads have failed in a row during initialization.
    pub fn init_retry_count(&self) -> (n: u32)
        ensures
            n == self@.retry,
    {
        self.init_retry_count
    }

    /// Advances the initialization state machine with the outcome of the
    /// previous action (`Some(value)` on success, `None` on failure) and
    /// returns the next action.
    pub fn init_advance(&mut self, result: Option<u8>) -> (a: InitAction)
        requires
            init_advance_ready(old(self)@),
        ensures
            (final(self)@, a) == init_transition(old(self)@, result),
    {
        match self.init_step {
            InitStep::Detecting => {
                if result.is_none() {
                    self.fail_init(ScannerError::NotDetected);
                    return InitAction::Fail(ScannerError::NotDetected);
                }
                self.mark_detected(ScannerModel::Gm65);
                InitAction::ReadRegister(Register::SerialOutput)
            },
            InitStep::ReadSerialOutput => {
                match result {
                    None => {
                        self.init_retry_count = self.init_retry_count + 1;
                        if self.init_retry_count >= 3 {
                            self.fail_init(ScannerError::ConfigFailed);
                            return InitAction::Fail(ScannerError::ConfigFailed);
                        }
                        InitAction::ReadRegister(Register::SerialOutput)
                    },
                    Some(val) => {
                        if serial_output_needs_fix(val) {
                            let fixed = fix_serial_output(val);
                            self.init_step = InitStep::FixSerialOutput;
                            return InitAction::WriteRegister(Register::SerialOutput, fixed);
                        }
                        self.init_step = InitStep::SetCommandMode;
                        InitAction::WriteRegister(Register::Settings, config::CMD_MODE)
                    },
                }
            },
            InitStep::FixSerialOutput => {
                if result.is_none() {
                    self.fail_init(ScannerError::ConfigFailed);
                    return InitAction::Fail(ScannerError::ConfigFailed);
                }
                self.init_step = InitStep::SetCommandMode;
                InitAction::WriteRegister(Register::Settings, config::CMD_MODE)
            },
            InitStep::SetCommandMode => {
                if result.is_none() {
                    self.fail_init(ScannerError::ConfigFailed);
                    return InitAction::Fail(ScannerError::ConfigFailed);
                }
                let config_seq = init_config_sequence();
                let (reg, _target) = config_seq[0];
                self.init_step = InitStep::ApplyConfig { index: 0 };
                InitAction::ReadRegister(reg)
            },
            InitStep::ApplyConfig { index } => {
                match result {
                    None => {
                        self.fail_init(ScannerError::ConfigFailed);
                        InitAction::Fail(ScannerError::ConfigFailed)
                    },
                    Some(val) => {
                        let config_seq = init_config_sequence();
                        let (reg, target) = config_seq[index];
                        if val != target {
                            self.init_step = InitStep::ApplyConfig { index };
                            return InitAction::WriteRegister(reg, target);
                        }
                        InitAction::VerifyRegister(reg, target)
                    },
                }
            },
            InitStep::CheckVersion => {
                match result {
                    None => InitAction::Complete(ScannerModel::Gm65),
                    Some(version) => {
                        if version_needs_raw_fix(version) {
                            self.init_step = InitStep::SaveSettings;
                            InitAction::ReadRegister(Register::RawMode)
                        } else {
                            InitAction::Complete(ScannerModel::Gm65)
                        }
                    },
                }
            },
            InitStep::SaveSettings => {
                match result {
                    None => InitAction::Complete(ScannerModel::Gm65),
                    Some(val) => {
                        if val != config::RAW_MODE_VALUE {
                            self.init_step = InitStep::Complete;
                            return InitAction::WriteRegister(
                                Register::RawMode,
                                config::RAW_MODE_VALUE,
                            );
                        }
                        InitAction::Complete(ScannerModel::Gm65)
                    },
                }
            },
            InitStep::Complete => InitAction::Complete(self.detected_model),
            InitStep::Failed(e) => InitAction::Fail(e),
            InitStep::Start => {
                self.fail_init(ScannerError::NotDetected);
                InitAction::Fail(ScannerError::NotDetected)
            },
        }
    }

    /// Advances past a verify step to the next configuration entry, or to the
    /// version check after the last entry.
    pub fn init_advance_verify(&mut self) -> (a: InitAction)
        requires
            old(self)@.config_index < usize::MAX,
        ensures
            (final(self)@, a) == verify_transition(old(self)@),
    {
        let config_seq = init_config_sequence();
        self.config_seq_index = self.config_seq_index + 1;
        if self.config_seq_index < 5 {
            let (reg, _target) = config_seq[self.config_seq_index];
            self.init_step = InitStep::ApplyConfig { index: self.config_seq_index };
            InitAction::ReadRegister(reg)
        } else {
            self.init_step = InitStep::CheckVersion;
            InitAction::ReadRegister(Register::Version)
        }
    }

    /// Starts a scan: fails with `NotInitialized` before initialization,
    /// otherwise clears the buffer and enters `Scanning`.
    pub fn begin_scan(&mut self) -> (r: Result<(), ScannerError>)
        ensures
            !old(self)@.initialized ==> r == Err::<(), ScannerError>(ScannerError::NotInitialized)
                && final(self)@ == old(self)@,
            old(self)@.initialized ==> r is Ok && final(self)@ == (CoreModel {
                state: ScannerState::Scanning,
                buffer: Seq::empty(),
                ..old(self)@
            }),
    {
        if !self.initialized {
            return Err(ScannerError::NotInitialized);
        }
        self.state = ScannerState::Scanning;
        self.buffer.clear();
        Ok(())
    }

    /// Processes one scan byte: buffers it and reports a complete payload when
    /// a line terminator arrives after at least one data byte.
    pub fn handle_scan_byte(&mut self, byte: u8) -> (r: ScanByteResult)
        ensures
            (final(self)@, r@) == scan_byte_transition(old(self)@, byte),
    {
        if !self.buffer.push(byte) {
            self.state = ScannerState::Error(ScannerError::BufferOverflow);
            return ScanByteResult::BufferOverflow;
        }
        if self.buffer.has_eol() {
            let data = self.buffer.data_without_eol();
            if data.len() == 0 {
                self.buffer.clear();
                return ScanByteResult::NeedMore;
            }
            self.last_scan_len = Some(data.len());
            self.state = ScannerState::ScanComplete;
            let result = crate::protocol::frame_to_vec(data);
            self.buffer.clear();
            ScanByteResult::Complete(result)
        } else {
            ScanByteResult::NeedMore
        }
    }

    /// Enters the error state.
    pub fn fail(&mut self, error: ScannerError)
        ensures
            final(self)@ == (CoreModel { state: ScannerState::Error(error), ..old(self)@ }),
    {
        self.state = ScannerState::Error(error);
    }

    /// The scan buffer.
    pub fn buffer(&self) -> (b: &ScanBuffer)
        ensures
            b@ == self@.buffer,
            b.wf(),
    {
        proof {
            use_type_invariant(&self.buffer);
        }
        &self.buffer
    }

    /// Mutable access to the scan buffer.
    pub fn buffer_mut(&mut self) -> (b: &mut ScanBuffer)
        ensures
            b@ == old(self)@.buffer,
            final(self)@ == (CoreModel { buffer: final(b)@, ..old(self)@ }),
    {
        &mut self.buffer
    }

    /// The detected model.
    pub fn model(&self) -> (m: ScannerModel)
        ensures
            m == self@.detected_model,
    {
        self.detected_model
    }

    /// The configuration.
    pub fn config(&self) -> (c: &ScannerConfig)
        ensures
            *c == self@.config,
    {
        &self.config
    }

    /// Forgets the length of the last scan.
    pub fn clear_last_scan(&mut self)
        ensures
            final(self)@ == (CoreModel { last_scan_len: None, ..old(self)@ }),
    {
        self.last_scan_len = None;
    }
}

impl Default for ScannerCore {
    fn default() -> (c: Self)
        ensures
            c@ == initial_model(default_config()),
    {
        Self::with_default_config()
    }
}


// ============================================================================
// Progress of the initialization sequence
// ============================================================================

/// True for the actions that end the initialization sequence.
pub open spec fn is_final_action(a: InitAction) -> bool {
    a is Complete || a is Fail
}

/// The outcome a driver reports for an action: a write reports the value it
/// wrote, or `None` when the write failed; reads may report anything.
pub open spec fn result_fits(a: InitAction, result: Option<u8>) -> bool {
    match a {
        InitAction::WriteRegister(_, v) => result is None || result == Some(v),
        _ => true,
    }
}

/// The pairs of core state and pending action that occur while a driver
/// runs the initialization sequence from `init_begin`.
pub open spec fn init_pending(m: CoreModel, a: InitAction) -> bool {
    let cfg = spec_init_config_sequence();
    ||| is_final_action(a)
    ||| (!(m.init_step is Detecting) ==> m.detected_model == ScannerModel::Gm65) && match a {
        InitAction::DrainAndRead(r) => m.init_step is Detecting && r == Register::SerialOutput
            && m.retry < 3 && m.config_index == 0,
        InitAction::ReadRegister(r) => match m.init_step {
            InitStep::ReadSerialOutput => m.retry < 3 && m.config_index == 0,
            InitStep::ApplyConfig { index } => index == m.config_index && index < 5,
            InitStep::CheckVersion => true,
            InitStep::SaveSettings => true,
            _ => false,
        },
        InitAction::WriteRegister(r, v) => match m.init_step {
            InitStep::FixSerialOutput => m.config_index == 0,
            InitStep::SetCommandMode => m.config_index == 0,
            InitStep::ApplyConfig { index } => index == m.config_index && index < 5 && v
                == cfg[index as int].1,
            InitStep::Complete => true,
            _ => false,
        },
        InitAction::VerifyRegister(_, _) => m.init_step matches InitStep::ApplyConfig { index }
            && index == m.config_index && index < 5,
        _ => false,
    }
}

/// Weight of a configuration entry: four per entry still to apply.
pub open spec fn config_rank(index: usize) -> nat {
    (4 * (5 - index) + 5) as nat
}

/// A measure that every step of the initialization sequence decreases.
pub open spec fn init_rank(m: CoreModel, a: InitAction) -> nat {
    match a {
        InitAction::DrainAndRead(_) => 40,
        InitAction::ReadRegister(_) => match m.init_step {
            InitStep::ReadSerialOutput => (33 - m.retry) as nat,
            InitStep::ApplyConfig { index } => config_rank(index) + 2,
            InitStep::CheckVersion => 8,
            InitStep::SaveSettings => 7,
            _ => 0,
        },
        InitAction::WriteRegister(_, _) => match m.init_step {
            InitStep::FixSerialOutput => 29,
            InitStep::SetCommandMode => 28,
            InitStep::ApplyConfig { index } => config_rank(index) + 1,
            InitStep::Complete => 6,
            _ => 0,
        },
        InitAction::VerifyRegister(_, _) => match m.init_step {
            InitStep::ApplyConfig { index } => config_rank(index),
            _ => 0,
        },
        _ => 0,
    }
}

/// `init_begin` leaves the core with a pending action from which the
/// sequence runs.
pub proof fn lemma_init_begin_pending(m: CoreModel)
    ensures
        init_pending(init_begin_model(m), InitAction::DrainAndRead(Register::SerialOutput)),
{
}

/// Each step of the initialization sequence either ends it (with `Complete`
/// of a GM65, or `Fail` with the error recorded in the core) or leaves a
/// pending action of strictly smaller rank: whatever the module answers, the
/// sequence ends after at most 40 steps.
pub proof fn lemma_init_progress(m: CoreModel, a: InitAction, result: Option<u8>)
    requires
        init_pending(m, a),
        !is_final_action(a),
        !(a is VerifyRegister),
        result_fits(a, result),
    ensures
        init_advance_ready(m),
        ({
            let (m2, a2) = init_transition(m, result);
            &&& (a2 matches InitAction::Fail(e) ==> m2.state == ScannerState::Error(e)
                && m2.init_step == InitStep::Failed(e))
            &&& (a2 matches InitAction::Complete(model) ==> model == ScannerModel::Gm65)
            &&& (!is_final_action(a2) ==> init_pending(m2, a2) && init_rank(m2, a2) < init_rank(m, a))
        }),
{
    reveal_with_fuel(spec_init_config_sequence, 1);
}

/// The verify step of a configuration entry moves on to a pending action of
/// smaller rank.
pub proof fn lemma_verify_progress(m: CoreModel, a: InitAction)
    requires
        init_pending(m, a),
        a is VerifyRegister,
    ensures
        m.config_index < usize::MAX,
        ({
            let (m2, a2) = verify_transition(m);
            &&& !is_final_action(a2)
            &&& init_pending(m2, a2)
            &&& init_rank(m2, a2) < init_rank(m, a)
        }),
{
}


// ============================================================================
// Feeding a byte stream
// ============================================================================

/// The core after processing `bytes` one at a time.
pub open spec fn feed_bytes(m: CoreModel, bytes: Seq<u8>) -> CoreModel
    decreases bytes.len(),
{
    if bytes.len() == 0 {
        m
    } else {
        scan_byte_transition(feed_bytes(m, bytes.drop_last()), bytes.last()).0
    }
}

/// What processing the last of `bytes` produced (`NeedMore` for no bytes).
pub open spec fn last_event(m: CoreModel, bytes: Seq<u8>) -> ScanEvent {
    if bytes.len() == 0 {
        ScanEvent::NeedMore
    } else {
        scan_byte_transition(feed_bytes(m, bytes.drop_last()), bytes.last()).1
    }
}

/// Feeding one more byte extends the fold by one transition.
pub proof fn lemma_feed_push(m: CoreModel, bytes: Seq<u8>, b: u8)
    ensures
        feed_bytes(m, bytes.push(b)) == scan_byte_transition(feed_bytes(m, bytes), b).0,
        last_event(m, bytes.push(b)) == scan_byte_transition(feed_bytes(m, bytes), b).1,
{
    assert(bytes.push(b).drop_last() =~= bytes);
}

/// The core after a completed scan has been reset for the next one.
pub open spec fn rescan_model(m: CoreModel) -> CoreModel {
    if m.state == ScannerState::ScanComplete && m.initialized {
        CoreModel { state: ScannerState::Scanning, buffer: Seq::empty(), ..m }
    } else {
        m
    }
}


/// The length of the latest payload completed while feeding `bytes` to a
/// core in state `m`, or what the core recorded before when none completed.
pub open spec fn latest_scan_len(m: CoreModel, bytes: Seq<u8>) -> Option<usize>
    decreases bytes.len(),
{
    if bytes.len() == 0 {
        m.last_scan_len
    } else {
        match last_event(m, bytes) {
            ScanEvent::Complete(d) => Some(d.len() as usize),
            _ => latest_scan_len(m, bytes.drop_last()),
        }
    }
}

/// The status reports the length of the latest completed scan: feeding
/// bytes to the core records the length of the latest payload completed
/// among them, and leaves what was recorded (nothing after a clear) when
/// none completes.
pub proof fn lemma_last_scan_len(m: CoreModel, bytes: Seq<u8>)
    ensures
        feed_bytes(m, bytes).last_scan_len == latest_scan_len(m, bytes),
    decreases bytes.len(),
{
    if bytes.len() > 0 {
        lemma_last_scan_len(m, bytes.drop_last());
    }
}

/// One step of initialization: a failure is recorded in the core; once the
/// version check is reached the sequence can no longer fail, and a missing
/// answer there completes it; the initialized flag is left alone; and the
/// drain-and-read action of the first step never comes again.
pub proof fn lemma_init_advance_step(m: CoreModel, result: Option<u8>)
    requires
        !(m.init_step is Failed),
        init_advance_ready(m),
    ensures
        ({
            let (m2, a) = init_transition(m, result);
            &&& (a matches InitAction::Fail(e) ==> m2.state == ScannerState::Error(e)
                && m2.init_step == InitStep::Failed(e))
            &&& (m.init_step is CheckVersion || m.init_step is SaveSettings
                || m.init_step is Complete) ==> !(a is Fail) && (result is None ==> a is Complete)
            &&& m2.initialized == m.initialized
            &&& !(a is DrainAndRead)
        }),
{
}

/// Bytes without a terminator accumulate in an empty buffer: every byte
/// asks for more and nothing but the buffer changes.
pub proof fn lemma_feed_payload(m: CoreModel, payload: Seq<u8>)
    requires
        m.buffer.len() == 0,
        payload.len() <= MAX_SCAN_SIZE,
        forall|i: int| 0 <= i < payload.len() ==> !is_eol_byte(#[trigger] payload[i]),
    ensures
        feed_bytes(m, payload) == (CoreModel { buffer: payload, ..m }),
        last_event(m, payload) == ScanEvent::NeedMore,
    decreases payload.len(),
{
    if payload.len() > 0 {
        let pre = payload.drop_last();
        assert forall|i: int| 0 <= i < pre.len() implies !is_eol_byte(#[trigger] pre[i]) by {
            assert(pre[i] == payload[i]);
        }
        lemma_feed_payload(m, pre);
        assert(pre.push(payload.last()) =~= payload);
    } else {
        assert(m.buffer =~= payload);
    }
}

/// A scan round trip: a non-empty payload without CR or LF, followed by a
/// terminator, is delivered whole exactly when the terminator arrives, and
/// the core is left with an empty buffer, the payload length recorded and
/// the state `ScanComplete`. A line feed after a carriage return is then
/// absorbed without a second delivery.
pub proof fn lemma_scan_roundtrip(m: CoreModel, payload: Seq<u8>, eol: u8)
    requires
        m.buffer.len() == 0,
        0 < payload.len() < MAX_SCAN_SIZE,
        forall|i: int| 0 <= i < payload.len() ==> !is_eol_byte(#[trigger] payload[i]),
        is_eol_byte(eol),
    ensures
        forall|k: int|
            0 <= k <= payload.len() ==> last_event(m, #[trigger] payload.subrange(0, k))
                == ScanEvent::NeedMore,
        last_event(m, payload.push(eol)) == ScanEvent::Complete(payload),
        feed_bytes(m, payload.push(eol)) == (CoreModel {
            buffer: Seq::empty(),
            last_scan_len: Some(payload.len() as usize),
            state: ScannerState::ScanComplete,
            ..m
        }),
        eol == 0x0D ==> last_event(m, payload.push(0x0Du8).push(0x0Au8)) == ScanEvent::NeedMore
            && feed_bytes(m, payload.push(0x0Du8).push(0x0Au8)) == feed_bytes(
            m,
            payload.push(0x0Du8),
        ),
{
    assert forall|k: int| 0 <= k <= payload.len() implies last_event(
        m,
        #[trigger] payload.subrange(0, k),
    ) == ScanEvent::NeedMore by {
        let q = payload.subrange(0, k);
        assert forall|i: int| 0 <= i < q.len() implies !is_eol_byte(#[trigger] q[i]) by {
            assert(q[i] == payload[i]);
        }
        lemma_feed_payload(m, q);
    }
    lemma_feed_payload(m, payload);
    lemma_feed_push(m, payload, eol);
    let buf = payload.push(eol);
    assert(buf.drop_last() =~= payload);
    assert(strip_eol(buf) =~= payload);
    if eol == 0x0D {
        let done = feed_bytes(m, buf);
        lemma_feed_push(m, buf, 0x0Au8);
        let lf = Seq::<u8>::empty().push(0x0Au8);
        assert(done.buffer.push(0x0Au8) =~= lf);
        assert(strip_eol(lf) =~= Seq::<u8>::empty());
    }
}

} // verus!
