//! Self-contained blocking GM65 driver with its own state, configuring the
//! module into sound-and-aim command mode (Settings 0xD1).
//!
//! Its state is described by the same model as the sans-I/O core, with the
//! core's initialization progress left at its starting values.

use vstd::prelude::*;

use crate::buffer::ScanBuffer;
use crate::driver::io::{
    bytes_read, commanded, extends, response_value, Exchange, IoRecord, lemma_extends_chain, lemma_extends_keeps, lemma_extends_refl,
    lemma_extends_trans, lemma_nowhere_before_push, lemma_reads_push, on_wire, polled_until,
    read_value, reply_response, reply_value, stops_nowhere_before, trailing_blocks, unanswered,
    Port, SerialRead, SyncScannerIO, POLL_BUDGET,
};
use crate::driver::traits::ScannerDriverSync;
use crate::driver::types::{
    default_config, ScannerConfig, ScannerError, ScannerModel, ScannerState, ScannerStatus,
};
use crate::protocol::{
    self, address_bytes_of, get_setting_frame, save_settings_frame, set_setting_2byte_frame,
    set_setting_frame, Gm65Response, Register,
};
use crate::scanner_core::{
    feed_bytes, initial_model, last_event, lemma_feed_push, scan_byte_transition, status_of,
    CoreModel, InitStep, ScanByteResult, ScanEvent,
};
use crate::state_machine::config::{
    CMD_MODE, RAW_MODE_VALUE, SAME_BARCODE_DELAY, SCAN_INTERVAL_MS, VERSION_NEEDS_RAW,
};
use crate::state_machine::ScannerSettings;

verus! {

/// Blocking GM65 driver with its own state.
pub struct Gm65Scanner<UART> {
    port: Port<UART>,
    exchanges: Ghost<Seq<Exchange>>,
    config: ScannerConfig,
    state: ScannerState,
    buffer: ScanBuffer,
    initialized: bool,
    detected_model: ScannerModel,
    last_scan_len: Option<usize>,
}

/// The state after a completed scan has been acknowledged by the next read.
pub open spec fn acknowledged(m: CoreModel) -> CoreModel {
    if m.state == ScannerState::ScanComplete {
        CoreModel { state: ScannerState::Ready, ..m }
    } else {
        m
    }
}

/// A blocking scan read stops on a UART error, after 500 000 empty polls in
/// a row, or at a byte after which the state, started from `m0`, does not
/// ask for more or holds an empty buffer (a terminator with no data before
/// it).
pub open spec fn read_scan_stops(m0: CoreModel, ev: Seq<SerialRead>) -> bool {
    &&& ev.len() > 0
    &&& {
        ||| ev.last() is Failed
        ||| trailing_blocks(ev) >= 500_000
        ||| ev.last() is Byte && (!(last_event(m0, bytes_read(ev)) is NeedMore) || feed_bytes(
            m0,
            bytes_read(ev),
        ).buffer.len() == 0)
    }
}

/// The state after a blocking scan read from `m0` whose read attempts were
/// `ev`: the bytes are fed to it, then a UART error is recorded as
/// `UartError`, a run that ended without a deciding byte as `Timeout`.
pub open spec fn read_scan_model(m0: CoreModel, ev: Seq<SerialRead>) -> CoreModel {
    let m1 = feed_bytes(m0, bytes_read(ev));
    if ev.len() > 0 && ev.last() is Failed {
        CoreModel { state: ScannerState::Error(ScannerError::UartError), ..m1 }
    } else if read_scan_stops(m0, ev) && ev.last() is Byte {
        m1
    } else {
        CoreModel { state: ScannerState::Error(ScannerError::Timeout), ..m1 }
    }
}

/// Where the initialization script of this driver stands: the command it
/// sends next, or its outcome once finished.
pub enum InitPhase {
    /// Probing with a SerialOutput read.
    Probe,
    /// Reading SerialOutput after `tries` failed reads.
    ReadSerial { tries: u8 },
    /// Writing back SerialOutput `value` with its two low bits cleared.
    FixSerial { value: u8 },
    /// Reading the Settings register.
    ReadMode,
    /// Writing command mode to the Settings register.
    WriteMode,
    /// Reading entry `index` of the register sequence.
    ReadConfig { index: u8 },
    /// Writing entry `index` of the register sequence.
    WriteConfig { index: u8 },
    /// Reading the firmware version.
    ReadVersion,
    /// Reading the raw-mode register.
    ReadRaw,
    /// Writing the raw-mode value.
    WriteRaw,
    /// Saving the settings.
    Save,
    /// Done, with this outcome.
    Finished(Result<ScannerModel, ScannerError>),
}

/// The register sequence written during initialization: register and value.
pub open spec fn legacy_config(i: int) -> (Register, u8) {
    if i == 0 {
        (Register::Timeout, 0x00)
    } else if i == 1 {
        (Register::ScanInterval, SCAN_INTERVAL_MS)
    } else if i == 2 {
        (Register::SameBarcodeDelay, SAME_BARCODE_DELAY)
    } else if i == 3 {
        (Register::BarType, 0x01)
    } else {
        (Register::QrEnable, 0x01)
    }
}

/// The command the script sends in phase `ph` (nothing once finished).
pub open spec fn legacy_command(ph: InitPhase) -> Seq<u8> {
    match ph {
        InitPhase::Probe => get_setting_frame(address_bytes_of(Register::SerialOutput)),
        InitPhase::ReadSerial { .. } => get_setting_frame(address_bytes_of(Register::SerialOutput)),
        InitPhase::FixSerial { value } => set_setting_frame(
            address_bytes_of(Register::SerialOutput),
            value & 0xFC,
        ),
        InitPhase::ReadMode => get_setting_frame(address_bytes_of(Register::Settings)),
        InitPhase::WriteMode => set_setting_frame(address_bytes_of(Register::Settings), CMD_MODE),
        InitPhase::ReadConfig { index } => get_setting_frame(address_bytes_of(legacy_config(index as int).0)),
        InitPhase::WriteConfig { index } => set_setting_frame(
            address_bytes_of(legacy_config(index as int).0),
            legacy_config(index as int).1,
        ),
        InitPhase::ReadVersion => get_setting_frame(address_bytes_of(Register::Version)),
        InitPhase::ReadRaw => get_setting_frame(address_bytes_of(Register::RawMode)),
        InitPhase::WriteRaw => set_setting_frame(address_bytes_of(Register::RawMode), RAW_MODE_VALUE),
        InitPhase::Save => save_settings_frame(),
        InitPhase::Finished(_) => Seq::empty(),
    }
}

/// The phase after entry `index` of the register sequence is in place.
pub open spec fn after_config(index: u8) -> InitPhase {
    if index + 1 < 5 {
        InitPhase::ReadConfig { index: (index + 1) as u8 }
    } else {
        InitPhase::ReadVersion
    }
}

/// The phase that follows phase `ph` when its command got `resp`.
pub open spec fn legacy_step(ph: InitPhase, resp: Option<Gm65Response>) -> InitPhase {
    let v = response_value(resp);
    let failed = InitPhase::Finished(Err(ScannerError::ConfigFailed));
    match ph {
        InitPhase::Probe => match v {
            Some(_) => InitPhase::ReadSerial { tries: 0 },
            None => InitPhase::Finished(Err(ScannerError::NotDetected)),
        },
        InitPhase::ReadSerial { tries } => match v {
            Some(x) => if x & 0x03 != 0 {
                InitPhase::FixSerial { value: x }
            } else {
                InitPhase::ReadMode
            },
            None => if tries + 1 < 3 {
                InitPhase::ReadSerial { tries: (tries + 1) as u8 }
            } else {
                failed
            },
        },
        InitPhase::FixSerial { .. } => if resp is Some {
            InitPhase::ReadMode
        } else {
            failed
        },
        InitPhase::ReadMode => match v {
            Some(x) => if x != CMD_MODE {
                InitPhase::WriteMode
            } else {
                InitPhase::ReadConfig { index: 0 }
            },
            None => failed,
        },
        InitPhase::WriteMode => if resp is Some {
            InitPhase::ReadConfig { index: 0 }
        } else {
            failed
        },
        InitPhase::ReadConfig { index } => match v {
            Some(x) => if x != legacy_config(index as int).1 {
                InitPhase::WriteConfig { index }
            } else {
                after_config(index)
            },
            None => failed,
        },
        InitPhase::WriteConfig { index } => if resp is Some {
            after_config(index)
        } else {
            failed
        },
        InitPhase::ReadVersion => if v == Some(VERSION_NEEDS_RAW) {
            InitPhase::ReadRaw
        } else {
            InitPhase::Save
        },
        InitPhase::ReadRaw => match v {
            Some(x) => if x != RAW_MODE_VALUE {
                InitPhase::WriteRaw
            } else {
                InitPhase::Save
            },
            None => InitPhase::Save,
        },
        InitPhase::WriteRaw => InitPhase::Save,
        InitPhase::Save => InitPhase::Finished(Ok(ScannerModel::Gm65)),
        InitPhase::Finished(r) => InitPhase::Finished(r),
    }
}

/// The phase reached from `ph` after the exchanges `xs`.
pub open spec fn legacy_run(ph: InitPhase, xs: Seq<Exchange>) -> InitPhase
    decreases xs.len(),
{
    if xs.len() == 0 {
        ph
    } else {
        legacy_step(legacy_run(ph, xs.drop_last()), xs.last().1)
    }
}

/// The exchanges `xs` follow the script from `ph`: each sends the command of
/// the phase reached before it, and none comes after the script finished.
pub open spec fn legacy_follows(ph: InitPhase, xs: Seq<Exchange>) -> bool {
    forall|i: int|
        0 <= i < xs.len() ==> !(legacy_run(ph, #[trigger] xs.take(i)) is Finished) && xs[i].0
            == legacy_command(legacy_run(ph, xs.take(i)))
}

/// Following the script for one more exchange.
proof fn lemma_follows_push(ph: InitPhase, xs: Seq<Exchange>, x: Exchange)
    requires
        legacy_follows(ph, xs),
        !(legacy_run(ph, xs) is Finished),
        x.0 == legacy_command(legacy_run(ph, xs)),
    ensures
        legacy_follows(ph, xs.push(x)),
        legacy_run(ph, xs.push(x)) == legacy_step(legacy_run(ph, xs), x.1),
{
    let ys = xs.push(x);
    assert(ys.drop_last() =~= xs);
    assert forall|i: int| 0 <= i < ys.len() implies !(legacy_run(ph, #[trigger] ys.take(i)) is Finished) && ys[i].0
        == legacy_command(legacy_run(ph, ys.take(i))) by {
        if i < xs.len() {
            assert(ys.take(i) =~= xs.take(i));
        } else {
            assert(ys.take(i) =~= xs);
        }
    }
}

/// Running the script over two stretches of exchanges one after the other.
proof fn lemma_run_concat(ph: InitPhase, xs: Seq<Exchange>, ys: Seq<Exchange>)
    ensures
        legacy_run(ph, xs + ys) == legacy_run(legacy_run(ph, xs), ys),
    decreases ys.len(),
{
    if ys.len() == 0 {
        assert(xs + ys =~= xs);
    } else {
        lemma_run_concat(ph, xs, ys.drop_last());
        assert((xs + ys).drop_last() =~= xs + ys.drop_last());
    }
}

/// Following the script over two stretches of exchanges one after the other.
proof fn lemma_follows_concat(ph: InitPhase, xs: Seq<Exchange>, ys: Seq<Exchange>)
    requires
        legacy_follows(ph, xs),
        legacy_follows(legacy_run(ph, xs), ys),
    ensures
        legacy_follows(ph, xs + ys),
        legacy_run(ph, xs + ys) == legacy_run(legacy_run(ph, xs), ys),
{
    lemma_run_concat(ph, xs, ys);
    let zs = xs + ys;
    assert forall|i: int| 0 <= i < zs.len() implies !(legacy_run(ph, #[trigger] zs.take(i)) is Finished) && zs[i].0
        == legacy_command(legacy_run(ph, zs.take(i))) by {
        if i < xs.len() {
            assert(zs.take(i) =~= xs.take(i));
        } else {
            let j = i - xs.len();
            assert(zs.take(i) =~= xs + ys.take(j));
            lemma_run_concat(ph, xs, ys.take(j));
            assert(zs[i] == ys[j]);
        }
    }
}

/// The exchanges recorded from `x0` to `x1` follow the script from `ph`.
pub open spec fn followed(ph: InitPhase, x0: Seq<Exchange>, x1: Seq<Exchange>) -> bool {
    extends(x0, x1) && legacy_follows(ph, x1.skip(x0.len() as int))
}

/// The phase reached from `ph` by the exchanges recorded from `x0` to `x1`.
pub open spec fn reached(ph: InitPhase, x0: Seq<Exchange>, x1: Seq<Exchange>) -> InitPhase {
    legacy_run(ph, x1.skip(x0.len() as int))
}

/// No exchange yet: the script stands where it started.
proof fn lemma_follow_start(ph: InitPhase, x0: Seq<Exchange>)
    ensures
        followed(ph, x0, x0),
        reached(ph, x0, x0) == ph,
{
    lemma_extends_refl(x0);
    assert(x0.skip(x0.len() as int) =~= Seq::<Exchange>::empty());
}

/// Two stretches of exchanges that follow the script, one after the other.
proof fn lemma_follow_join(ph: InitPhase, x0: Seq<Exchange>, x1: Seq<Exchange>, x2: Seq<Exchange>)
    requires
        followed(ph, x0, x1),
        followed(reached(ph, x0, x1), x1, x2),
    ensures
        followed(ph, x0, x2),
        reached(ph, x0, x2) == reached(reached(ph, x0, x1), x1, x2),
{
    lemma_extends_trans(x0, x1, x2);
    assert(x2.skip(x0.len() as int) =~= x1.skip(x0.len() as int) + x2.skip(x1.len() as int)) by {
        assert(x2.subrange(0, x1.len() as int) == x1);
    }
    lemma_follows_concat(ph, x1.skip(x0.len() as int), x2.skip(x1.len() as int));
}

/// One more exchange that sends the command of the phase reached.
proof fn lemma_follow_step(ph: InitPhase, x0: Seq<Exchange>, x1: Seq<Exchange>, x2: Seq<Exchange>)
    requires
        followed(ph, x0, x1),
        !(reached(ph, x0, x1) is Finished),
        x2 == x1.push((legacy_command(reached(ph, x0, x1)), x2.last().1)),
    ensures
        followed(ph, x0, x2),
        reached(ph, x0, x2) == legacy_step(reached(ph, x0, x1), x2.last().1),
{
    let p1 = reached(ph, x0, x1);
    let x = x2.last();
    assert(x2.skip(x1.len() as int) =~= seq![x]);
    lemma_follows_push(p1, Seq::empty(), x);
    assert(Seq::<Exchange>::empty().push(x) =~= seq![x]);
    assert(x2.subrange(0, x1.len() as int) =~= x1);
    lemma_follow_join(ph, x0, x1, x2);
}

/// An initialization whose probe got no value fails with `NotDetected` and
/// sends nothing more; a completed one ends with the save command.
pub proof fn lemma_legacy_probe_and_save(xs: Seq<Exchange>, r: Result<ScannerModel, ScannerError>)
    requires
        legacy_follows(InitPhase::Probe, xs),
        legacy_run(InitPhase::Probe, xs) == InitPhase::Finished(r),
    ensures
        xs.len() >= 1,
        xs[0].0 == get_setting_frame(address_bytes_of(Register::SerialOutput)),
        response_value(xs[0].1) is None ==> r == Err::<ScannerModel, ScannerError>(
            ScannerError::NotDetected,
        ) && xs.len() == 1,
        r is Ok ==> xs.last().0 == save_settings_frame(),
{
    assert(xs.take(0) =~= Seq::<Exchange>::empty());
    assert(xs.take(1).drop_last() =~= Seq::<Exchange>::empty());
    assert(xs.take(1).last() == xs[0]);
    if response_value(xs[0].1) is None {
        if xs.len() > 1 {
            assert(legacy_run(InitPhase::Probe, xs.take(1)) is Finished);
            assert(false);
        }
        assert(xs.take(1) =~= xs);
    }
    if r is Ok {
        let n = xs.len() - 1;
        assert(xs.take(n) =~= xs.drop_last());
        assert(legacy_run(InitPhase::Probe, xs.take(n)) == InitPhase::Save) by {
            let p = legacy_run(InitPhase::Probe, xs.drop_last());
            assert(legacy_step(p, xs.last().1) == InitPhase::Finished(r));
        }
    }
}

/// The state after a successful initialization.
pub open spec fn legacy_ready(m: CoreModel) -> CoreModel {
    CoreModel {
        state: ScannerState::Ready,
        initialized: true,
        detected_model: ScannerModel::Gm65,
        config: ScannerConfig { model: ScannerModel::Gm65, ..m.config },
        ..m
    }
}

/// Between two states of the records, command mode was confirmed: the
/// write of `CMD_MODE` to Settings was sent, or a response carrying
/// `CMD_MODE` was received.
pub open spec fn command_mode_confirmed(sent0: Seq<u8>, rx0: Seq<u8>, sent1: Seq<u8>, rx1: Seq<u8>) -> bool {
    ||| exists|k: int|
        sent0.len() <= k && k + 9 <= sent1.len() && #[trigger] sent1.subrange(k, k + 9)
            == set_setting_frame(address_bytes_of(Register::Settings), CMD_MODE)
    ||| exists|j: int|
        rx0.len() <= j && j + 7 <= rx1.len() && reply_value(#[trigger] rx1.subrange(j, j + 7))
            == Some(CMD_MODE)
}

/// A confirmation stays when the records grow, and holds from any earlier
/// start of the records.
proof fn lemma_mode_confirmed_grows(
    s0: Seq<u8>,
    r0: Seq<u8>,
    s1: Seq<u8>,
    r1: Seq<u8>,
    s2: Seq<u8>,
    r2: Seq<u8>,
    s3: Seq<u8>,
    r3: Seq<u8>,
)
    requires
        extends(s0, s1),
        extends(r0, r1),
        command_mode_confirmed(s1, r1, s2, r2),
        extends(s2, s3),
        extends(r2, r3),
    ensures
        command_mode_confirmed(s0, r0, s3, r3),
{
    if exists|k: int|
        s1.len() <= k && k + 9 <= s2.len() && #[trigger] s2.subrange(k, k + 9) == set_setting_frame(
            address_bytes_of(Register::Settings),
            CMD_MODE,
        ) {
        let k = choose|k: int|
            s1.len() <= k && k + 9 <= s2.len() && #[trigger] s2.subrange(k, k + 9)
                == set_setting_frame(address_bytes_of(Register::Settings), CMD_MODE);
        lemma_extends_keeps(s2, s3, k, k + 9);
        assert(s0.len() <= k && k + 9 <= s3.len() && s3.subrange(k, k + 9) == set_setting_frame(
            address_bytes_of(Register::Settings),
            CMD_MODE,
        ));
    } else {
        let j = choose|j: int|
            r1.len() <= j && j + 7 <= r2.len() && reply_value(#[trigger] r2.subrange(j, j + 7))
                == Some(CMD_MODE);
        lemma_extends_keeps(r2, r3, j, j + 7);
        assert(r0.len() <= j && j + 7 <= r3.len() && reply_value(r3.subrange(j, j + 7)) == Some(
            CMD_MODE,
        ));
    }
}

impl<UART> Gm65Scanner<UART> {
    /// The driver's state, as a core model whose initialization progress is
    /// unused.
    pub closed spec fn model(&self) -> CoreModel {
        CoreModel {
            state: self.state,
            config: self.config,
            buffer: self.buffer@,
            initialized: self.initialized,
            detected_model: self.detected_model,
            last_scan_len: self.last_scan_len,
            init_step: InitStep::Start,
            retry: 0,
            config_index: 0,
        }
    }

    /// The UART the driver owns.
    pub closed spec fn uart_of(&self) -> UART {
        self.port.uart_of()
    }

    /// Every byte sent to the module, in order.
    pub closed spec fn sent(&self) -> Seq<u8> {
        self.port.sent()
    }

    /// Every byte received from the module, in order.
    pub closed spec fn received(&self) -> Seq<u8> {
        self.port.received()
    }

    /// The answer to every read attempt on the UART, in order.
    pub closed spec fn reads(&self) -> Seq<SerialRead> {
        self.port.reads()
    }

    /// The records of the port: bytes each way and every attempt made.
    pub closed spec fn record(&self) -> IoRecord {
        self.port.record()
    }

    /// Every command sent to the module, with the response it got, in order.
    pub closed spec fn exchanges(&self) -> Seq<Exchange> {
        self.exchanges@
    }
}

impl<UART: SyncScannerIO> Gm65Scanner<UART> {
    /// A driver over `uart` with the given configuration.
    pub fn new(uart: UART, config: ScannerConfig) -> (s: Self)
        ensures
            s.model() == initial_model(config),
            s.uart_of() == uart,
            s.sent() == Seq::<u8>::empty(),
            s.received() == Seq::<u8>::empty(),
            s.exchanges() == Seq::<Exchange>::empty(),
    {
        Gm65Scanner {
            port: Port::new(uart),
            exchanges: Ghost(Seq::empty()),
            config,
            state: ScannerState::Uninitialized,
            buffer: ScanBuffer::new(),
            initialized: false,
            detected_model: ScannerModel::Unknown,
            last_scan_len: None,
        }
    }

    /// A driver over `uart` with the default configuration.
    pub fn with_default_config(uart: UART) -> (s: Self)
        ensures
            s.model() == initial_model(default_config()),
            s.uart_of() == uart,
            s.sent() == Seq::<u8>::empty(),
            s.received() == Seq::<u8>::empty(),
    {
        Self::new(uart, ScannerConfig::default())
    }

    /// Gives the UART back.
    pub fn release(self) -> (u: UART)
        ensures
            u == self.uart_of(),
    {
        self.port.into_inner()
    }

    /// Splits the driver into its UART, state, initialization flag and model.
    pub fn into_parts(self) -> (parts: (UART, ScannerState, bool, ScannerModel))
        ensures
            parts.0 == self.uart_of(),
            parts.1 == self.model().state,
            parts.2 == self.model().initialized,
            parts.3 == self.model().detected_model,
    {
        (self.port.into_inner(), self.state, self.initialized, self.detected_model)
    }

    /// Reads the Settings register as flags; `None` when the module gives no
    /// valid answer.
    pub fn get_scanner_settings(&mut self) -> (s: Option<ScannerSettings>)
        ensures
            final(self).model() == old(self).model(),
            exists|part: Seq<u8>, junk: Seq<u8>, reply: Seq<u8>|
                #![trigger on_wire(old(self).sent(), old(self).received(), final(self).sent(), final(self).received(), get_setting_frame(address_bytes_of(Register::Settings)), part, junk, reply)]
                on_wire(
                    old(self).sent(),
                    old(self).received(),
                    final(self).sent(),
                    final(self).received(),
                    get_setting_frame(address_bytes_of(Register::Settings)),
                    part,
                    junk,
                    reply,
                ) && (s is Some <==> reply_value(reply) is Some) && (s matches Some(x) ==> reply_value(reply) == Some(x.spec_bits())),
            commanded(
                old(self).exchanges(),
                final(self).exchanges(),
                old(self).record(),
                final(self).record(),
                get_setting_frame(address_bytes_of(Register::Settings)),
                true,
            ),
            (s is Some <==> response_value(final(self).exchanges().last().1) is Some),
            s matches Some(x) ==> response_value(final(self).exchanges().last().1) == Some(x.spec_bits()),
    {
        match self.get_setting(Register::Settings) {
            Some(v) => ScannerSettings::from_bits(v),
            None => None,
        }
    }

    /// Writes the Settings register; true when the module acknowledged.
    pub fn set_scanner_settings(&mut self, settings: ScannerSettings) -> (ok: bool)
        ensures
            final(self).model() == old(self).model(),
            exists|part: Seq<u8>, junk: Seq<u8>, reply: Seq<u8>|
                #![trigger on_wire(old(self).sent(), old(self).received(), final(self).sent(), final(self).received(), set_setting_frame(address_bytes_of(Register::Settings), settings.spec_bits()), part, junk, reply)]
                on_wire(
                    old(self).sent(),
                    old(self).received(),
                    final(self).sent(),
                    final(self).received(),
                    set_setting_frame(address_bytes_of(Register::Settings), settings.spec_bits()),
                    part,
                    junk,
                    reply,
                ) && ok == reply_response(reply) is Some,
            commanded(
                old(self).exchanges(),
                final(self).exchanges(),
                old(self).record(),
                final(self).record(),
                set_setting_frame(address_bytes_of(Register::Settings), settings.spec_bits()),
                true,
            ),
            ok == final(self).exchanges().last().1 is Some,
    {
        self.set_setting(Register::Settings, settings.bits())
    }

    /// One non-blocking read of the UART: the byte it delivered, if any.
    pub fn poll_uart(&mut self) -> (b: Option<u8>)
        ensures
            final(self).reads() == old(self).reads().push(final(self).reads().last()),
            b == read_value(final(self).reads().last()),
            final(self).model() == old(self).model(),
            final(self).sent() == old(self).sent(),
            b matches Some(x) ==> final(self).received() == old(self).received().push(x),
            b is None ==> final(self).received() == old(self).received(),
    {
        match self.port.read_byte() {
            SerialRead::Byte(b) => Some(b),
            SerialRead::WouldBlock => None,
            SerialRead::Failed => None,
        }
    }

    /// Processes one received byte of a scan.
    fn push_scan_byte(&mut self, byte: u8) -> (r: ScanByteResult)
        ensures
            (final(self).model(), r@) == scan_byte_transition(old(self).model(), byte),
            final(self).uart_of() == old(self).uart_of(),
            final(self).sent() == old(self).sent(),
            final(self).received() == old(self).received(),
            final(self).reads() == old(self).reads(),
    {
        if !self.buffer.push(byte) {
            self.state = ScannerState::Error(ScannerError::BufferOverflow);
            return ScanByteResult::BufferOverflow;
        }
        if self.buffer.has_eol() {
            let data = self.buffer.data_without_eol();
            if data.len() == 0 {
                self.buffer.clear();
                return ScanByteResult::NeedMore;
            }
            self.last_scan_len = Some(data.len());
            self.state = ScannerState::ScanComplete;
            let result = crate::protocol::frame_to_vec(data);
            self.buffer.clear();
            ScanByteResult::Complete(result)
        } else {
            ScanByteResult::NeedMore
        }
    }

    /// Non-blocking scan read: takes at most one byte from the UART and
    /// returns a payload when that byte completes one. A completed scan is
    /// acknowledged (state back to `Ready`) first. Before initialization it
    /// does nothing and returns `None`.
    pub fn try_read_scan(&mut self) -> (r: Option<Vec<u8>>)
        ensures
            final(self).sent() == old(self).sent(),
            !old(self).model().initialized ==> r is None && final(self).model() == old(self).model()
                && final(self).received() == old(self).received()
                && final(self).reads() == old(self).reads(),
            old(self).model().initialized ==> final(self).reads() == old(self).reads().push(
                final(self).reads().last(),
            ),
            old(self).model().initialized ==> match read_value(final(self).reads().last()) {
                None => final(self).model() == acknowledged(old(self).model()) && r is None
                    && final(self).received() == old(self).received(),
                Some(b) => {
                    let (m1, ev) = scan_byte_transition(acknowledged(old(self).model()), b);
                    &&& final(self).received() == old(self).received().push(b)
                    &&& final(self).model() == m1
                    &&& (r matches Some(d) ==> ev == ScanEvent::Complete(d@))
                    &&& (r is None ==> !(ev is Complete))
                },
            },
    {
        if !self.initialized {
            return None;
        }
        if self.state == ScannerState::ScanComplete {
            self.state = ScannerState::Ready;
        }
        match self.poll_uart() {
            Some(b) => {
                let res = self.push_scan_byte(b);
                match res {
                    ScanByteResult::Complete(data) => Some(data),
                    _ => None,
                }
            },
            None => None,
        }
    }

    /// Sends a command frame after draining pending input, and reads the
    /// seven-byte response; the result is the response the bytes read after
    /// the command stand for (`None` when the write failed, the UART failed,
    /// or no whole response frame arrived).
    fn send_command(&mut self, cmd: &[u8]) -> (r: Option<Gm65Response>)
        ensures
            final(self).model() == old(self).model(),
            extends(old(self).sent(), final(self).sent()),
            extends(old(self).received(), final(self).received()),
            exists|part: Seq<u8>, junk: Seq<u8>, reply: Seq<u8>|
                #![trigger on_wire(old(self).sent(), old(self).received(), final(self).sent(), final(self).received(), cmd@, part, junk, reply)]
                on_wire(
                    old(self).sent(),
                    old(self).received(),
                    final(self).sent(),
                    final(self).received(),
                    cmd@,
                    part,
                    junk,
                    reply,
                ) && r == reply_response(reply),
            final(self).exchanges() == old(self).exchanges().push((cmd@, r)),
            crate::driver::io::exchanged(old(self).record(), final(self).record(), cmd@, true, r),
    {
        let ghost s0 = self.sent();
        let ghost r0 = self.received();
        let r = self.port.exchange(cmd, true);
        proof {
            let (part, junk, reply) = choose|part: Seq<u8>, junk: Seq<u8>, reply: Seq<u8>|
                on_wire(s0, r0, self.sent(), self.received(), cmd@, part, junk, reply) && r
                    == reply_response(reply);
            assert(on_wire(s0, r0, self.sent(), self.received(), cmd@, part, junk, reply));
        }
        proof {
            self.exchanges@ = self.exchanges@.push((cmd@, r));
        }
        r
    }

    /// Reads a register: sends the read frame for its address and returns
    /// the value the response carries; `None` when no valid response arrives.
    fn get_setting(&mut self, reg: Register) -> (v: Option<u8>)
        ensures
            final(self).model() == old(self).model(),
            extends(old(self).sent(), final(self).sent()),
            extends(old(self).received(), final(self).received()),
            exists|part: Seq<u8>, junk: Seq<u8>, reply: Seq<u8>|
                #![trigger on_wire(old(self).sent(), old(self).received(), final(self).sent(), final(self).received(), get_setting_frame(address_bytes_of(reg)), part, junk, reply)]
                on_wire(
                    old(self).sent(),
                    old(self).received(),
                    final(self).sent(),
                    final(self).received(),
                    get_setting_frame(address_bytes_of(reg)),
                    part,
                    junk,
                    reply,
                ) && v == reply_value(reply),
            commanded(
                old(self).exchanges(),
                final(self).exchanges(),
                old(self).record(),
                final(self).record(),
                get_setting_frame(address_bytes_of(reg)),
                true,
            ),
            v == response_value(final(self).exchanges().last().1),
    {
        let cmd = protocol::build_get_setting(reg.address_bytes());
        match self.send_command(cmd.as_slice()) {
            Some(Gm65Response::SuccessWithValue(v)) => Some(v),
            _ => None,
        }
    }

    /// Writes a register: sends the write frame for its address and value;
    /// true when a valid response arrives.
    fn set_setting(&mut self, reg: Register, value: u8) -> (ok: bool)
        ensures
            final(self).model() == old(self).model(),
            extends(old(self).sent(), final(self).sent()),
            extends(old(self).received(), final(self).received()),
            exists|part: Seq<u8>, junk: Seq<u8>, reply: Seq<u8>|
                #![trigger on_wire(old(self).sent(), old(self).received(), final(self).sent(), final(self).received(), set_setting_frame(address_bytes_of(reg), value), part, junk, reply)]
                on_wire(
                    old(self).sent(),
                    old(self).received(),
                    final(self).sent(),
                    final(self).received(),
                    set_setting_frame(address_bytes_of(reg), value),
                    part,
                    junk,
                    reply,
                ) && ok == reply_response(reply) is Some,
            commanded(
                old(self).exchanges(),
                final(self).exchanges(),
                old(self).record(),
                final(self).record(),
                set_setting_frame(address_bytes_of(reg), value),
                true,
            ),
            ok == final(self).exchanges().last().1 is Some,
    {
        let cmd = protocol::build_set_setting(reg.address_bytes(), value);
        match self.send_command(cmd.as_slice()) {
            Some(r) => r != Gm65Response::Invalid,
            None => false,
        }
    }

    /// Writes a two-byte register value: sends the two-byte write frame;
    /// true when a valid response arrives.
    #[allow(dead_code)]
    fn set_setting_2byte(&mut self, reg: Register, value: [u8; 2]) -> (ok: bool)
        ensures
            final(self).model() == old(self).model(),
            extends(old(self).sent(), final(self).sent()),
            extends(old(self).received(), final(self).received()),
            exists|part: Seq<u8>, junk: Seq<u8>, reply: Seq<u8>|
                #![trigger on_wire(old(self).sent(), old(self).received(), final(self).sent(), final(self).received(), set_setting_2byte_frame(address_bytes_of(reg), value), part, junk, reply)]
                on_wire(
                    old(self).sent(),
                    old(self).received(),
                    final(self).sent(),
                    final(self).received(),
                    set_setting_2byte_frame(address_bytes_of(reg), value),
                    part,
                    junk,
                    reply,
                ) && ok == reply_response(reply) is Some,
            commanded(
                old(self).exchanges(),
                final(self).exchanges(),
                old(self).record(),
                final(self).record(),
                set_setting_2byte_frame(address_bytes_of(reg), value),
                true,
            ),
            ok == final(self).exchanges().last().1 is Some,
    {
        let cmd = protocol::build_set_setting_2byte(reg.address_bytes(), value);
        match self.send_command(cmd.as_slice()) {
            Some(r) => r != Gm65Response::Invalid,
            None => false,
        }
    }

    /// Saves the settings to non-volatile memory; true when acknowledged.
    fn save_settings(&mut self) -> (ok: bool)
        ensures
            final(self).model() == old(self).model(),
            extends(old(self).sent(), final(self).sent()),
            extends(old(self).received(), final(self).received()),
            exists|part: Seq<u8>, junk: Seq<u8>, reply: Seq<u8>|
                #![trigger on_wire(old(self).sent(), old(self).received(), final(self).sent(), final(self).received(), save_settings_frame(), part, junk, reply)]
                on_wire(
                    old(self).sent(),
                    old(self).received(),
                    final(self).sent(),
                    final(self).received(),
                    save_settings_frame(),
                    part,
                    junk,
                    reply,
                ) && ok == reply_response(reply) is Some,
            commanded(
                old(self).exchanges(),
                final(self).exchanges(),
                old(self).record(),
                final(self).record(),
                save_settings_frame(),
                true,
            ),
            ok == final(self).exchanges().last().1 is Some,
    {
        let cmd = protocol::build_save_settings();
        match self.send_command(cmd.as_slice()) {
            Some(r) => r != Gm65Response::Invalid,
            None => false,
        }
    }

    /// True when the module answers a SerialOutput read, sent after draining
    /// pending input.
    fn probe_gm65(&mut self) -> (ok: bool)
        ensures
            final(self).model() == old(self).model(),
            extends(old(self).sent(), final(self).sent()),
            extends(old(self).received(), final(self).received()),
            !ok ==> unanswered(
                old(self).sent(),
                old(self).received(),
                final(self).sent(),
                final(self).received(),
                get_setting_frame(address_bytes_of(Register::SerialOutput)),
            ),
            ok ==> final(self).sent().len() >= old(self).sent().len() + 9 && final(self).sent().subrange(old(self).sent().len() as int, old(self).sent().len() + 9int)
                == get_setting_frame(address_bytes_of(Register::SerialOutput)),
            final(self).exchanges() == old(self).exchanges().push(
                (get_setting_frame(address_bytes_of(Register::SerialOutput)), final(self).exchanges().last().1),
            ),
            ok == response_value(final(self).exchanges().last().1) is Some,
    {
        let ghost s0 = self.sent();
        let ghost r0 = self.received();
        let ghost probe = get_setting_frame(address_bytes_of(Register::SerialOutput));
        self.port.drain_input();
        let ghost r1 = self.received();
        let result = self.get_setting(Register::SerialOutput);
        proof {
            let (part, junk, reply) = choose|part: Seq<u8>, junk: Seq<u8>, reply: Seq<u8>|
                on_wire(s0, r1, self.sent(), self.received(), probe, part, junk, reply) && result
                    == reply_value(reply);
            let drained = r1.subrange(r0.len() as int, r1.len() as int);
            assert(r1 =~= r0 + drained);
            assert(self.received() =~= r0 + (drained + junk) + reply);
            assert(on_wire(s0, r0, self.sent(), self.received(), probe, part, drained + junk, reply));
            if result is Some {
                assert(part =~= probe);
                assert(self.sent().subrange(s0.len() as int, s0.len() + 9int) =~= probe);
            }
            lemma_extends_trans(r0, r1, self.received());
        }
        result.is_some()
    }

    /// Fails initialization with a configuration error.
    fn config_failed(&mut self) -> (r: Result<ScannerModel, ScannerError>)
        ensures
            r == Err::<ScannerModel, ScannerError>(ScannerError::ConfigFailed),
            final(self).model() == (CoreModel {
                state: ScannerState::Error(ScannerError::ConfigFailed),
                ..old(self).model()
            }),
            final(self).sent() == old(self).sent(),
            final(self).received() == old(self).received(),
            final(self).exchanges() == old(self).exchanges(),
    {
        self.state = ScannerState::Error(ScannerError::ConfigFailed);
        Err(ScannerError::ConfigFailed)
    }

    /// Puts the module in command mode: reads Settings and writes `CMD_MODE`
    /// unless it already holds it. False when the read gets no valid answer
    /// or the write is not acknowledged.
    fn ensure_command_mode(&mut self) -> (ok: bool)
        ensures
            final(self).model() == old(self).model(),
            extends(old(self).sent(), final(self).sent()),
            extends(old(self).received(), final(self).received()),
            ok ==> command_mode_confirmed(
                old(self).sent(),
                old(self).received(),
                final(self).sent(),
                final(self).received(),
            ),
            followed(InitPhase::ReadMode, old(self).exchanges(), final(self).exchanges()),
            reached(InitPhase::ReadMode, old(self).exchanges(), final(self).exchanges()) == (if ok {
                InitPhase::ReadConfig { index: 0 }
            } else {
                InitPhase::Finished(Err(ScannerError::ConfigFailed))
            }),
    {
        let ghost s_read = self.sent();
        let ghost r_read = self.received();
        let ghost x0 = self.exchanges();
        proof {
            lemma_follow_start(InitPhase::ReadMode, x0);
        }
        let got = self.get_setting(Register::Settings);
        let ghost x1 = self.exchanges();
        proof {
            lemma_follow_step(InitPhase::ReadMode, x0, x0, x1);
        }
        match got {
            Some(val) => {
                if val != CMD_MODE {
                    let ghost s_write = self.sent();
                    let ghost r_write = self.received();
                    let ok = self.set_setting(Register::Settings, CMD_MODE);
                    proof {
                        lemma_follow_step(InitPhase::ReadMode, x0, x1, self.exchanges());
                        lemma_extends_trans(s_read, s_write, self.sent());
                        lemma_extends_trans(r_read, r_write, self.received());
                        if ok {
                            let (part, junk, reply) = choose|part: Seq<u8>, junk: Seq<u8>, reply: Seq<u8>|
                                on_wire(s_write, r_write, self.sent(), self.received(), set_setting_frame(address_bytes_of(Register::Settings), CMD_MODE), part, junk, reply)
                                    && ok == reply_response(reply) is Some;
                            let k = s_write.len() as int;
                            let frame = set_setting_frame(address_bytes_of(Register::Settings), CMD_MODE);
                            assert(part =~= frame);
                            assert(self.sent().subrange(k, k + 9) =~= part);
                            assert(s_read.len() <= k && k + 9 <= self.sent().len()
                                && self.sent().subrange(k, k + 9) == frame);
                        }
                    }
                    ok
                } else {
                    proof {
                        let (part, junk, reply) = choose|part: Seq<u8>, junk: Seq<u8>, reply: Seq<u8>|
                            on_wire(s_read, r_read, self.sent(), self.received(), get_setting_frame(address_bytes_of(Register::Settings)), part, junk, reply)
                                && Some(val) == reply_value(reply);
                        let rx = self.received();
                        let j = rx.len() - 7;
                        assert(rx.subrange(j, j + 7) =~= reply);
                        assert(r_read.len() <= j && j + 7 <= rx.len() && reply_value(rx.subrange(j, j + 7))
                            == Some(CMD_MODE));
                    }
                    true
                }
            },
            None => false,
        }
    }

    /// Reads each register of the configuration sequence and writes its
    /// target value where it differs. False when a read gets no valid answer
    /// or a write is not acknowledged.
    fn apply_register_sequence(&mut self) -> (ok: bool)
        ensures
            final(self).model() == old(self).model(),
            extends(old(self).sent(), final(self).sent()),
            extends(old(self).received(), final(self).received()),
            followed(InitPhase::ReadConfig { index: 0 }, old(self).exchanges(), final(self).exchanges()),
            reached(InitPhase::ReadConfig { index: 0 }, old(self).exchanges(), final(self).exchanges())
                == (if ok {
                InitPhase::ReadVersion
            } else {
                InitPhase::Finished(Err(ScannerError::ConfigFailed))
            }),
    {
        broadcast use lemma_extends_chain;

        let config_settings: [(Register, u8); 5] = [
            (Register::Timeout, 0x00),
            (Register::ScanInterval, SCAN_INTERVAL_MS),
            (Register::SameBarcodeDelay, SAME_BARCODE_DELAY),
            (Register::BarType, 0x01),
            (Register::QrEnable, 0x01),
        ];
        proof {
            lemma_extends_refl(self.sent());
            lemma_extends_refl(self.received());
        }
        let ghost x0 = self.exchanges();
        let ghost start = InitPhase::ReadConfig { index: 0 };
        proof {
            lemma_follow_start(start, x0);
            assert forall|k: int| 0 <= k < 5 implies #[trigger] config_settings@[k] == legacy_config(k) by {
            }
        }
        let mut i: usize = 0;
        while i < 5
            invariant
                self.model() == old(self).model(),
                extends(old(self).sent(), self.sent()),
                extends(old(self).received(), self.received()),
                x0 == old(self).exchanges(),
                start == (InitPhase::ReadConfig { index: 0 }),
                forall|k: int| 0 <= k < 5 ==> #[trigger] config_settings@[k] == legacy_config(k),
                i <= 5,
                followed(start, x0, self.exchanges()),
                reached(start, x0, self.exchanges()) == (if i < 5 {
                    InitPhase::ReadConfig { index: i as u8 }
                } else {
                    InitPhase::ReadVersion
                }),
            decreases 5 - i,
        {
            broadcast use lemma_extends_chain;

            let (reg, set_val) = config_settings[i];
            let ghost x1 = self.exchanges();
            let got = self.get_setting(reg);
            proof {
                lemma_follow_step(start, x0, x1, self.exchanges());
            }
            match got {
                Some(val) => {
                    if val != set_val {
                        let ghost x2 = self.exchanges();
                        let ok = self.set_setting(reg, set_val);
                        proof {
                            lemma_follow_step(start, x0, x2, self.exchanges());
                        }
                        if !ok {
                            return false;
                        }
                    }
                },
                None => {
                    return false;
                },
            }
            i += 1;
        }
        true
    }

    /// Writes the raw mode value when the firmware version needs it and the
    /// register does not hold it yet; failures are ignored.
    fn apply_raw_mode_fix(&mut self)
        ensures
            final(self).model() == old(self).model(),
            extends(old(self).sent(), final(self).sent()),
            extends(old(self).received(), final(self).received()),
            followed(InitPhase::ReadVersion, old(self).exchanges(), final(self).exchanges()),
            reached(InitPhase::ReadVersion, old(self).exchanges(), final(self).exchanges())
                == InitPhase::Save,
    {
        broadcast use lemma_extends_chain;

        proof {
            lemma_extends_refl(self.sent());
            lemma_extends_refl(self.received());
        }
        let ghost x0 = self.exchanges();
        proof {
            lemma_follow_start(InitPhase::ReadVersion, x0);
        }
        let version = self.get_setting(Register::Version);
        proof {
            lemma_follow_step(InitPhase::ReadVersion, x0, x0, self.exchanges());
        }
        if let Some(version) = version {
            if version == VERSION_NEEDS_RAW {
                let ghost x1 = self.exchanges();
                let raw = self.get_setting(Register::RawMode);
                proof {
                    lemma_follow_step(InitPhase::ReadVersion, x0, x1, self.exchanges());
                }
                if let Some(val) = raw {
                    if val != RAW_MODE_VALUE {
                        let ghost x2 = self.exchanges();
                        let _ = self.set_setting(Register::RawMode, RAW_MODE_VALUE);
                        proof {
                            lemma_follow_step(InitPhase::ReadVersion, x0, x2, self.exchanges());
                        }
                    }
                }
            }
        }
    }

    /// Detects and configures the module: clears the SerialOutput mode bits,
    /// forces command mode, applies the register sequence, applies the raw
    /// mode fix for firmware 0x69, and saves the settings.
    fn do_init(&mut self) -> (r: Result<ScannerModel, ScannerError>)
        ensures
            r matches Ok(model) ==> model == ScannerModel::Gm65 && final(self).model()
                == legacy_ready(old(self).model()),
            r == Err::<ScannerModel, ScannerError>(ScannerError::NotDetected) ==> final(self).model() == (CoreModel {
                state: ScannerState::Error(ScannerError::NotDetected),
                ..old(self).model()
            }),
            r == Err::<ScannerModel, ScannerError>(ScannerError::ConfigFailed) ==> final(self).model() == (CoreModel {
                state: ScannerState::Error(ScannerError::ConfigFailed),
                detected_model: ScannerModel::Gm65,
                ..old(self).model()
            }),
            r is Ok || r == Err::<ScannerModel, ScannerError>(ScannerError::NotDetected) || r
                == Err::<ScannerModel, ScannerError>(ScannerError::ConfigFailed),
            extends(old(self).sent(), final(self).sent()),
            extends(old(self).received(), final(self).received()),
            r is Ok ==> final(self).sent().subrange(
                old(self).sent().len() as int,
                old(self).sent().len() + 9int,
            ) == get_setting_frame(address_bytes_of(Register::SerialOutput)),
            r == Err::<ScannerModel, ScannerError>(ScannerError::NotDetected) ==> unanswered(
                old(self).sent(),
                old(self).received(),
                final(self).sent(),
                final(self).received(),
                get_setting_frame(address_bytes_of(Register::SerialOutput)),
            ),
            r is Ok ==> command_mode_confirmed(
                old(self).sent(),
                old(self).received(),
                final(self).sent(),
                final(self).received(),
            ),
            followed(InitPhase::Probe, old(self).exchanges(), final(self).exchanges()),
            reached(InitPhase::Probe, old(self).exchanges(), final(self).exchanges())
                == InitPhase::Finished(r),
    {
        broadcast use lemma_extends_chain;

        let ghost s0 = self.sent();
        let ghost r0 = self.received();
        let ghost x0 = self.exchanges();
        proof {
            lemma_follow_start(InitPhase::Probe, x0);
        }
        self.state = ScannerState::Detecting;
        let found = self.probe_gm65();
        proof {
            lemma_follow_step(InitPhase::Probe, x0, x0, self.exchanges());
        }
        if !found {
            self.state = ScannerState::Error(ScannerError::NotDetected);
            return Err(ScannerError::NotDetected);
        }
        let ghost sp = self.sent();
        proof {
            lemma_extends_refl(sp);
        }
        self.detected_model = ScannerModel::Gm65;
        self.state = ScannerState::Configuring;

        let mut serial: Option<u8> = None;
        let mut attempt: u32 = 0;
        while attempt < 3 && serial.is_none()
            invariant
                self.model() == (CoreModel {
                    state: ScannerState::Configuring,
                    detected_model: ScannerModel::Gm65,
                    ..old(self).model()
                }),
                s0 == old(self).sent(),
                r0 == old(self).received(),
                extends(s0, sp),
                extends(sp, self.sent()),
                extends(r0, self.received()),
                x0 == old(self).exchanges(),
                attempt <= 3,
                followed(InitPhase::Probe, x0, self.exchanges()),
                serial is None ==> reached(InitPhase::Probe, x0, self.exchanges()) == (if attempt
                    < 3 {
                    InitPhase::ReadSerial { tries: attempt as u8 }
                } else {
                    InitPhase::Finished(Err(ScannerError::ConfigFailed))
                }),
                serial matches Some(v) ==> reached(InitPhase::Probe, x0, self.exchanges()) == (if v
                    & 0x03 != 0 {
                    InitPhase::FixSerial { value: v }
                } else {
                    InitPhase::ReadMode
                }),
            decreases 3 - attempt,
        {
            broadcast use lemma_extends_chain;

            self.port.drain_input();
            let ghost x1 = self.exchanges();
            serial = self.get_setting(Register::SerialOutput);
            proof {
                lemma_follow_step(InitPhase::Probe, x0, x1, self.exchanges());
            }
            attempt += 1;
        }
        let serial_val = match serial {
            Some(v) => v,
            None => {
                return self.config_failed();
            },
        };

        if serial_val & 0x03 != 0 {
            let fixed = serial_val & 0xFC;
            let ghost x1 = self.exchanges();
            let fixed_ok = self.set_setting(Register::SerialOutput, fixed);
            proof {
                lemma_follow_step(InitPhase::Probe, x0, x1, self.exchanges());
            }
            if !fixed_ok {
                return self.config_failed();
            }
        }
        let ghost x_mode = self.exchanges();

        let ghost s_mode = self.sent();
        let ghost r_mode = self.received();
        let mode_ok = self.ensure_command_mode();
        proof {
            lemma_follow_join(InitPhase::Probe, x0, x_mode, self.exchanges());
        }
        if !mode_ok {
            return self.config_failed();
        }
        let ghost s_mode_done = self.sent();
        let ghost r_mode_done = self.received();

        let ghost x_cfg = self.exchanges();
        let cfg_ok = self.apply_register_sequence();
        proof {
            lemma_follow_join(InitPhase::Probe, x0, x_cfg, self.exchanges());
        }
        if !cfg_ok {
            return self.config_failed();
        }
        let ghost x_raw = self.exchanges();
        self.apply_raw_mode_fix();
        proof {
            lemma_follow_join(InitPhase::Probe, x0, x_raw, self.exchanges());
        }
        let ghost x_save = self.exchanges();
        let _ = self.save_settings();
        proof {
            lemma_follow_step(InitPhase::Probe, x0, x_save, self.exchanges());
        }
        proof {
            lemma_extends_keeps(sp, self.sent(), s0.len() as int, s0.len() + 9int);
            lemma_mode_confirmed_grows(
                s0,
                r0,
                s_mode,
                r_mode,
                s_mode_done,
                r_mode_done,
                self.sent(),
                self.received(),
            );
        }
        self.initialized = true;
        self.state = ScannerState::Ready;
        self.config.model = self.detected_model;
        Ok(self.detected_model)
    }

    /// Starts a scan (ScanEnable := 1); the acknowledgement is not required.
    fn do_trigger_scan(&mut self) -> (r: Result<(), ScannerError>)
        ensures
            !old(self).model().initialized ==> r == Err::<(), ScannerError>(
                ScannerError::NotInitialized,
            ) && final(self).model() == old(self).model() && final(self).sent() == old(self).sent()
                && final(self).received() == old(self).received(),
            old(self).model().initialized ==> exists|part: Seq<u8>, junk: Seq<u8>, reply: Seq<u8>|
                #![trigger on_wire(old(self).sent(), old(self).received(), final(self).sent(), final(self).received(), set_setting_frame(address_bytes_of(Register::ScanEnable), 0x01), part, junk, reply)]
                on_wire(
                    old(self).sent(),
                    old(self).received(),
                    final(self).sent(),
                    final(self).received(),
                    set_setting_frame(address_bytes_of(Register::ScanEnable), 0x01),
                    part,
                    junk,
                    reply,
                ),
            old(self).model().initialized ==> r is Ok && final(self).model() == (CoreModel {
                state: ScannerState::Scanning,
                buffer: Seq::empty(),
                ..old(self).model()
            }),
            !old(self).model().initialized ==> final(self).exchanges() == old(self).exchanges()
                && final(self).record() == old(self).record(),
            old(self).model().initialized ==> commanded(
                old(self).exchanges(),
                final(self).exchanges(),
                old(self).record(),
                final(self).record(),
                set_setting_frame(address_bytes_of(Register::ScanEnable), 0x01),
                true,
            ),
    {
        if !self.initialized {
            return Err(ScannerError::NotInitialized);
        }
        self.state = ScannerState::Scanning;
        self.buffer.clear();
        let cmd = protocol::build_set_setting(Register::ScanEnable.address_bytes(), 0x01);
        assert(self.sent() == old(self).sent() && self.received() == old(self).received());
        let _resp = self.send_command(cmd.as_slice());
        Ok(())
    }

    /// Stops a scan (ScanEnable := 0); true when acknowledged, false before
    /// initialization.
    fn do_stop_scan(&mut self) -> (ok: bool)
        ensures
            final(self).model() == old(self).model(),
            !old(self).model().initialized ==> !ok && final(self).sent() == old(self).sent()
                && final(self).received() == old(self).received(),
            old(self).model().initialized ==> exists|part: Seq<u8>, junk: Seq<u8>, reply: Seq<u8>|
                #![trigger on_wire(old(self).sent(), old(self).received(), final(self).sent(), final(self).received(), set_setting_frame(address_bytes_of(Register::ScanEnable), 0x00), part, junk, reply)]
                on_wire(
                    old(self).sent(),
                    old(self).received(),
                    final(self).sent(),
                    final(self).received(),
                    set_setting_frame(address_bytes_of(Register::ScanEnable), 0x00),
                    part,
                    junk,
                    reply,
                ) && ok == reply_response(reply) is Some,
            !old(self).model().initialized ==> final(self).exchanges() == old(self).exchanges()
                && final(self).record() == old(self).record(),
            old(self).model().initialized ==> commanded(
                old(self).exchanges(),
                final(self).exchanges(),
                old(self).record(),
                final(self).record(),
                set_setting_frame(address_bytes_of(Register::ScanEnable), 0x00),
                true,
            ),
            old(self).model().initialized ==> ok == final(self).exchanges().last().1 is Some,
    {
        if !self.initialized {
            return false;
        }
        let cmd = protocol::build_set_setting(Register::ScanEnable.address_bytes(), 0x00);
        let resp = self.send_command(cmd.as_slice());
        resp.is_some()
    }

    /// Reads bytes until a payload completes; `None` for a terminator with
    /// no data before it, on overflow, after 500 000 empty polls in a row
    /// (`Timeout`) and on a UART error (`UartError`).
    fn do_read_scan(&mut self) -> (r: Option<Vec<u8>>)
        ensures
            final(self).sent() == old(self).sent(),
            !old(self).model().initialized ==> r is None && final(self).model() == old(self).model()
                && final(self).received() == old(self).received() && final(self).reads()
                == old(self).reads(),
            old(self).model().initialized ==> ({
                let ev = final(self).reads().skip(old(self).reads().len() as int);
                let bytes = bytes_read(ev);
                &&& extends(old(self).reads(), final(self).reads())
                &&& polled_until(ev, |e: Seq<SerialRead>| read_scan_stops(old(self).model(), e))
                &&& final(self).received() == old(self).received() + bytes
                &&& final(self).model() == read_scan_model(old(self).model(), ev)
                &&& (r matches Some(d) ==> last_event(old(self).model(), bytes)
                    == ScanEvent::Complete(d@))
                &&& (r is Some <==> (ev.len() > 0 && ev.last() is Byte && last_event(
                    old(self).model(),
                    bytes,
                ) is Complete))
            }),
    {
        if !self.initialized {
            return None;
        }
        let ghost m0 = self.model();
        let ghost reads0 = self.reads();
        let ghost stops = |e: Seq<SerialRead>| read_scan_stops(m0, e);
        let ghost mut ev: Seq<SerialRead> = Seq::empty();
        let mut attempts: u32 = 0;
        let max_attempts: u32 = 500_000;
        let mut polls: u64 = POLL_BUDGET;
        while attempts < max_attempts && polls > 0
            invariant
                old(self).model().initialized,
                m0 == old(self).model(),
                reads0 == old(self).reads(),
                stops == (|e: Seq<SerialRead>| read_scan_stops(m0, e)),
                self.model() == feed_bytes(m0, bytes_read(ev)),
                self.sent() == old(self).sent(),
                self.received() == old(self).received() + bytes_read(ev),
                self.reads() == reads0 + ev,
                max_attempts == 500_000,
                attempts <= max_attempts,
                attempts == trailing_blocks(ev),
                ev.len() + polls == POLL_BUDGET,
                ev.len() > 0 ==> !(ev.last() is Failed),
                ev.len() > 0 && ev.last() is Byte ==> last_event(m0, bytes_read(ev)) is NeedMore
                    && feed_bytes(m0, bytes_read(ev)).buffer.len() > 0,
                stops_nowhere_before(ev, stops),
            decreases polls,
        {
            polls -= 1;
            let r = self.port.read_byte();
            proof {
                assert(!stops(ev));
                lemma_nowhere_before_push(ev, r, stops);
                lemma_reads_push(ev, r);
                if let SerialRead::Byte(byte) = r {
                    lemma_feed_push(m0, bytes_read(ev), byte);
                }
                ev = ev.push(r);
                assert(self.reads() =~= reads0 + ev);
                assert(self.reads().skip(reads0.len() as int) =~= ev);
                assert(self.reads().subrange(0, reads0.len() as int) =~= reads0);
            }
            match r {
                SerialRead::Byte(byte) => {
                    let res = self.push_scan_byte(byte);
                    match res {
                        ScanByteResult::Complete(data) => {
                            return Some(data);
                        },
                        ScanByteResult::BufferOverflow => {
                            return None;
                        },
                        ScanByteResult::NeedMore => {
                            // An empty buffer after a byte means a terminator
                            // with no data before it.
                            if self.buffer.len() == 0 {
                                return None;
                            }
                            attempts = 0;
                        },
                    }
                },
                SerialRead::WouldBlock => {
                    attempts += 1;
                },
                SerialRead::Failed => {
                    self.state = ScannerState::Error(ScannerError::UartError);
                    return None;
                },
            }
        }
        proof {
            assert(self.reads().skip(reads0.len() as int) =~= ev);
            assert(self.reads().subrange(0, reads0.len() as int) =~= reads0);
        }
        self.state = ScannerState::Error(ScannerError::Timeout);
        None
    }
}

impl<UART: SyncScannerIO> ScannerDriverSync for Gm65Scanner<UART> {
    fn init(&mut self) -> (r: Result<ScannerModel, ScannerError>)
        ensures
            r matches Ok(model) ==> model == ScannerModel::Gm65 && final(self).model()
                == legacy_ready(old(self).model()),
            r matches Err(e) ==> final(self).model().state == ScannerState::Error(e),
            r is Ok || r == Err::<ScannerModel, ScannerError>(ScannerError::NotDetected) || r
                == Err::<ScannerModel, ScannerError>(ScannerError::ConfigFailed),
            extends(old(self).sent(), final(self).sent()),
            extends(old(self).received(), final(self).received()),
            r is Ok ==> final(self).sent().subrange(
                old(self).sent().len() as int,
                old(self).sent().len() + 9int,
            ) == get_setting_frame(address_bytes_of(Register::SerialOutput)),
            r == Err::<ScannerModel, ScannerError>(ScannerError::NotDetected) ==> unanswered(
                old(self).sent(),
                old(self).received(),
                final(self).sent(),
                final(self).received(),
                get_setting_frame(address_bytes_of(Register::SerialOutput)),
            ),
            r is Ok ==> command_mode_confirmed(
                old(self).sent(),
                old(self).received(),
                final(self).sent(),
                final(self).received(),
            ),
            followed(InitPhase::Probe, old(self).exchanges(), final(self).exchanges()),
            reached(InitPhase::Probe, old(self).exchanges(), final(self).exchanges())
                == InitPhase::Finished(r),
    {
        self.do_init()
    }

    fn ping(&mut self) -> (ok: bool)
        ensures
            final(self).model() == old(self).model(),
            exists|part: Seq<u8>, junk: Seq<u8>, reply: Seq<u8>|
                #![trigger on_wire(old(self).sent(), old(self).received(), final(self).sent(), final(self).received(), get_setting_frame(address_bytes_of(Register::SerialOutput)), part, junk, reply)]
                on_wire(
                    old(self).sent(),
                    old(self).received(),
                    final(self).sent(),
                    final(self).received(),
                    get_setting_frame(address_bytes_of(Register::SerialOutput)),
                    part,
                    junk,
                    reply,
                ) && ok == reply_value(reply) is Some,
            commanded(
                old(self).exchanges(),
                final(self).exchanges(),
                old(self).record(),
                final(self).record(),
                get_setting_frame(address_bytes_of(Register::SerialOutput)),
                true,
            ),
            ok == response_value(final(self).exchanges().last().1) is Some,
    {
        self.get_setting(Register::SerialOutput).is_some()
    }

    fn trigger_scan(&mut self) -> (r: Result<(), ScannerError>)
        ensures
            !old(self).model().initialized ==> r == Err::<(), ScannerError>(
                ScannerError::NotInitialized,
            ) && final(self).model() == old(self).model() && final(self).sent() == old(self).sent()
                && final(self).received() == old(self).received(),
            old(self).model().initialized ==> exists|part: Seq<u8>, junk: Seq<u8>, reply: Seq<u8>|
                #![trigger on_wire(old(self).sent(), old(self).received(), final(self).sent(), final(self).received(), set_setting_frame(address_bytes_of(Register::ScanEnable), 0x01), part, junk, reply)]
                on_wire(
                    old(self).sent(),
                    old(self).received(),
                    final(self).sent(),
                    final(self).received(),
                    set_setting_frame(address_bytes_of(Register::ScanEnable), 0x01),
                    part,
                    junk,
                    reply,
                ),
            old(self).model().initialized ==> r is Ok && final(self).model() == (CoreModel {
                state: ScannerState::Scanning,
                buffer: Seq::empty(),
                ..old(self).model()
            }),
            !old(self).model().initialized ==> final(self).exchanges() == old(self).exchanges()
                && final(self).record() == old(self).record(),
            old(self).model().initialized ==> commanded(
                old(self).exchanges(),
                final(self).exchanges(),
                old(self).record(),
                final(self).record(),
                set_setting_frame(address_bytes_of(Register::ScanEnable), 0x01),
                true,
            ),
    {
        self.do_trigger_scan()
    }

    fn stop_scan(&mut self) -> (ok: bool)
        ensures
            final(self).model() == old(self).model(),
            !old(self).model().initialized ==> !ok && final(self).sent() == old(self).sent()
                && final(self).received() == old(self).received(),
            old(self).model().initialized ==> exists|part: Seq<u8>, junk: Seq<u8>, reply: Seq<u8>|
                #![trigger on_wire(old(self).sent(), old(self).received(), final(self).sent(), final(self).received(), set_setting_frame(address_bytes_of(Register::ScanEnable), 0x00), part, junk, reply)]
                on_wire(
                    old(self).sent(),
                    old(self).received(),
                    final(self).sent(),
                    final(self).received(),
                    set_setting_frame(address_bytes_of(Register::ScanEnable), 0x00),
                    part,
                    junk,
                    reply,
                ) && ok == reply_response(reply) is Some,
            !old(self).model().initialized ==> final(self).exchanges() == old(self).exchanges()
                && final(self).record() == old(self).record(),
            old(self).model().initialized ==> commanded(
                old(self).exchanges(),
                final(self).exchanges(),
                old(self).record(),
                final(self).record(),
                set_setting_frame(address_bytes_of(Register::ScanEnable), 0x00),
                true,
            ),
            old(self).model().initialized ==> ok == final(self).exchanges().last().1 is Some,
    {
        self.do_stop_scan()
    }

    fn read_scan(&mut self) -> (r: Option<Vec<u8>>)
        ensures
            final(self).sent() == old(self).sent(),
            !old(self).model().initialized ==> r is None && final(self).model() == old(self).model()
                && final(self).received() == old(self).received() && final(self).reads()
                == old(self).reads(),
            old(self).model().initialized ==> ({
                let ev = final(self).reads().skip(old(self).reads().len() as int);
                let bytes = bytes_read(ev);
                &&& extends(old(self).reads(), final(self).reads())
                &&& polled_until(ev, |e: Seq<SerialRead>| read_scan_stops(old(self).model(), e))
                &&& final(self).received() == old(self).received() + bytes
                &&& final(self).model() == read_scan_model(old(self).model(), ev)
                &&& (r matches Some(d) ==> last_event(old(self).model(), bytes)
                    == ScanEvent::Complete(d@))
                &&& (r is Some <==> (ev.len() > 0 && ev.last() is Byte && last_event(
                    old(self).model(),
                    bytes,
                ) is Complete))
            }),
    {
        self.do_read_scan()
    }

    fn state(&self) -> (s: ScannerState)
        ensures
            s == self.model().state,
    {
        self.state
    }

    fn status(&self) -> (s: ScannerStatus)
        ensures
            s == status_of(self.model()),
    {
        ScannerStatus {
            model: self.detected_model,
            connected: self.initialized,
            initialized: self.initialized,
            config: self.config,
            last_scan_len: self.last_scan_len,
        }
    }

    fn data_ready(&self) -> (b: bool)
        ensures
            b == (self.model().state == ScannerState::ScanComplete),
    {
        self.state == ScannerState::ScanComplete
    }
}

} // verus!
