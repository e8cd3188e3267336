//! Blocking GM65 driver: runs the sans-I/O core over a polled UART.

use vstd::prelude::*;

pub mod hil_tests;

use crate::driver::io::{
    bytes_read, commanded, exchanged, extends, lemma_bytes_read_concat, lemma_extends_refl, response_value, Exchange,
    IoRecord, lemma_extends_keeps, lemma_extends_trans, lemma_nowhere_before_push,
    lemma_reads_push, on_wire, polled_until, read_value, reply_response, reply_value,
    stops_nowhere_before, trailing_blocks, unanswered, Port, SerialRead, SyncScannerIO,
    POLL_BUDGET,
};
use crate::driver::traits::ScannerDriverSync;
use crate::driver::types::{
    default_config, ScannerConfig, ScannerError, ScannerModel, ScannerState, ScannerStatus,
};
use crate::protocol::{
    self, address_bytes_of, get_setting_frame, save_settings_frame, set_setting_frame,
    Gm65Response, Register, RESPONSE_LEN,
};
use crate::scanner_core::{
    init_begin_model, init_transition, verify_transition, completed_model, feed_bytes, init_pending, init_rank, initial_model, last_event,
    is_final_action, lemma_feed_push, lemma_init_begin_pending, lemma_init_progress,
    lemma_verify_progress, rescan_model, status_of, CoreModel, InitAction, ScanByteResult, ScanEvent, ScannerCore,
    ScannerSettings,
};

verus! {

/// Blocking GM65 / M3Y driver over a UART.
pub struct Gm65Scanner<UART> {
    core: ScannerCore,
    port: Port<UART>,
    exchanges: Ghost<Seq<Exchange>>,
}

/// The core with its error state set to `e`.
pub open spec fn core_failed(m: CoreModel, e: ScannerError) -> CoreModel {
    CoreModel { state: ScannerState::Error(e), ..m }
}

/// A blocking scan read stops on a UART error, after 500 000 empty polls in
/// a row, or at a byte after which the core, started from `m0`, does not ask
/// for more (a completed payload or a buffer overflow).
pub open spec fn scan_read_stops(m0: CoreModel, ev: Seq<SerialRead>) -> bool {
    &&& ev.len() > 0
    &&& {
        ||| ev.last() is Failed
        ||| trailing_blocks(ev) >= 500_000
        ||| ev.last() is Byte && !(last_event(m0, bytes_read(ev)) is NeedMore)
    }
}

/// The core after a blocking scan read from `m0` whose read attempts were
/// `ev`: the bytes are fed to it, then a UART error is recorded as
/// `UartError`, a run that ended without a deciding byte as `Timeout`.
pub open spec fn scan_read_core(m0: CoreModel, ev: Seq<SerialRead>) -> CoreModel {
    let m1 = feed_bytes(m0, bytes_read(ev));
    if ev.len() > 0 && ev.last() is Failed {
        core_failed(m1, ScannerError::UartError)
    } else if scan_read_stops(m0, ev) && ev.last() is Byte {
        m1
    } else {
        core_failed(m1, ScannerError::Timeout)
    }
}

/// What a command exchange reports to the core for action `a`: a read
/// reports the value the response carries, a write the value written when a
/// response arrived.
pub open spec fn action_result(a: InitAction, resp: Option<Gm65Response>) -> Option<u8> {
    match a {
        InitAction::WriteRegister(_, v) => if resp is Some {
            Some(v)
        } else {
            None
        },
        _ => response_value(resp),
    }
}

/// The command that carries out action `a`: a register read or write, or
/// the save that completes the sequence.
pub open spec fn action_command(a: InitAction) -> Seq<u8> {
    match a {
        InitAction::DrainAndRead(r) => get_setting_frame(address_bytes_of(r)),
        InitAction::ReadRegister(r) => get_setting_frame(address_bytes_of(r)),
        InitAction::WriteRegister(r, v) => set_setting_frame(address_bytes_of(r), v),
        InitAction::Complete(_) => save_settings_frame(),
        _ => Seq::empty(),
    }
}

/// A core and pending action, with a pending verify step taken.
pub open spec fn settled(p: (CoreModel, InitAction)) -> (CoreModel, InitAction) {
    if p.1 is VerifyRegister {
        verify_transition(p.0)
    } else {
        p
    }
}

/// The core and its pending action after the exchanges `xs` of an
/// initialization started on a core in state `m0`.
pub open spec fn init_replay(m0: CoreModel, xs: Seq<Exchange>) -> (CoreModel, InitAction)
    decreases xs.len(),
{
    if xs.len() == 0 {
        (init_begin_model(m0), InitAction::DrainAndRead(Register::SerialOutput))
    } else {
        let p = settled(init_replay(m0, xs.drop_last()));
        if is_final_action(p.1) {
            p
        } else {
            init_transition(p.0, action_result(p.1, xs.last().1))
        }
    }
}

/// Each of the exchanges `xs` sends the command of the action pending
/// before it, and that action did not end the sequence.
pub open spec fn init_prefix(m0: CoreModel, xs: Seq<Exchange>) -> bool {
    forall|i: int|
        0 <= i < xs.len() ==> !is_final_action(settled(init_replay(m0, #[trigger] xs.take(i))).1)
            && xs[i].0 == action_command(settled(init_replay(m0, xs.take(i))).1)
}

/// The exchanges `xs` are those the core asks for when started on `m0`:
/// each sends the command of the action pending before it, and none follows
/// the end of the sequence but the save that completes it.
pub open spec fn init_followed(m0: CoreModel, xs: Seq<Exchange>) -> bool {
    forall|i: int|
        0 <= i < xs.len() ==> {
            let a = settled(init_replay(m0, #[trigger] xs.take(i))).1;
            &&& !(a is Fail)
            &&& (a is Complete ==> i == xs.len() - 1)
            &&& xs[i].0 == action_command(a)
        }
}

/// One more exchange for a pending action that does not end the sequence.
proof fn lemma_init_prefix_push(m0: CoreModel, xs: Seq<Exchange>, x: Exchange)
    requires
        init_prefix(m0, xs),
        !is_final_action(settled(init_replay(m0, xs)).1),
        x.0 == action_command(settled(init_replay(m0, xs)).1),
    ensures
        init_prefix(m0, xs.push(x)),
        init_replay(m0, xs.push(x)) == init_transition(
            settled(init_replay(m0, xs)).0,
            action_result(settled(init_replay(m0, xs)).1, x.1),
        ),
{
    let ys = xs.push(x);
    assert(ys.drop_last() =~= xs);
    assert forall|i: int| 0 <= i < ys.len() implies !is_final_action(settled(init_replay(m0, #[trigger] ys.take(i))).1)
        && ys[i].0 == action_command(settled(init_replay(m0, ys.take(i))).1) by {
        if i < xs.len() {
            assert(ys.take(i) =~= xs.take(i));
        } else {
            assert(ys.take(i) =~= xs);
        }
    }
}

/// The save exchange that completes the sequence.
proof fn lemma_init_followed_save(m0: CoreModel, xs: Seq<Exchange>, x: Exchange)
    requires
        init_prefix(m0, xs),
        settled(init_replay(m0, xs)).1 is Complete,
        x.0 == save_settings_frame(),
    ensures
        init_followed(m0, xs.push(x)),
{
    let ys = xs.push(x);
    assert forall|i: int| 0 <= i < ys.len() implies ({
        let a = settled(init_replay(m0, #[trigger] ys.take(i))).1;
        &&& !(a is Fail)
        &&& (a is Complete ==> i == ys.len() - 1)
        &&& ys[i].0 == action_command(a)
    }) by {
        if i < xs.len() {
            assert(ys.take(i) =~= xs.take(i));
        } else {
            assert(ys.take(i) =~= xs);
        }
    }
}

/// A run that never reached the end of the sequence follows the core.
proof fn lemma_init_prefix_followed(m0: CoreModel, xs: Seq<Exchange>)
    requires
        init_prefix(m0, xs),
    ensures
        init_followed(m0, xs),
{
}

/// One more exchange of an initialization run recorded from `x0`, for the
/// pending action, which does not end the sequence.
proof fn lemma_init_step(m0: CoreModel, x0: Seq<Exchange>, x1: Seq<Exchange>, x2: Seq<Exchange>)
    requires
        extends(x0, x1),
        init_prefix(m0, x1.skip(x0.len() as int)),
        !is_final_action(settled(init_replay(m0, x1.skip(x0.len() as int))).1),
        x2 == x1.push(
            (action_command(settled(init_replay(m0, x1.skip(x0.len() as int))).1), x2.last().1),
        ),
    ensures
        extends(x0, x2),
        init_prefix(m0, x2.skip(x0.len() as int)),
        init_replay(m0, x2.skip(x0.len() as int)) == init_transition(
            settled(init_replay(m0, x1.skip(x0.len() as int))).0,
            action_result(settled(init_replay(m0, x1.skip(x0.len() as int))).1, x2.last().1),
        ),
{
    let xs = x1.skip(x0.len() as int);
    assert(x2.skip(x0.len() as int) =~= xs.push(x2.last()));
    lemma_init_prefix_push(m0, xs, x2.last());
    assert(x2.subrange(0, x0.len() as int) =~= x1.subrange(0, x0.len() as int));
}

/// An initialization whose probe got no value fails with `NotDetected`
/// and sends nothing more; a completed one ends with the save command.
pub proof fn lemma_init_probe_and_save(m0: CoreModel, xs: Seq<Exchange>, r: Result<ScannerModel, ScannerError>)
    requires
        init_followed(m0, xs),
        r matches Ok(model) ==> xs.len() > 0 && settled(init_replay(m0, xs.drop_last())).1
            == InitAction::Complete(model),
        r matches Err(e) ==> settled(init_replay(m0, xs)).1 == InitAction::Fail(e),
    ensures
        xs.len() >= 1,
        xs[0].0 == get_setting_frame(address_bytes_of(Register::SerialOutput)),
        response_value(xs[0].1) is None ==> r == Err::<ScannerModel, ScannerError>(
            ScannerError::NotDetected,
        ) && xs.len() == 1,
        r is Ok ==> xs.last().0 == save_settings_frame(),
{
    assert(xs.take(0) =~= Seq::<Exchange>::empty());
    if xs.len() == 0 {
        assert(xs.drop_last() =~= xs);
        assert(false);
    }
    assert(xs.take(1).drop_last() =~= Seq::<Exchange>::empty());
    assert(xs.take(1).last() == xs[0]);
    if response_value(xs[0].1) is None {
        if xs.len() > 1 {
            let a = settled(init_replay(m0, xs.take(1))).1;
            assert(a == InitAction::Fail(ScannerError::NotDetected));
            assert(false);
        }
        assert(xs.drop_last() =~= Seq::<Exchange>::empty());
        assert(xs.take(1) =~= xs);
    }
    if r is Ok {
        assert(xs.take(xs.len() - 1) =~= xs.drop_last());
    }
}

/// A non-blocking scan read stops at the first poll that delivers no byte,
/// or at a byte after which the core, started from `m0`, does not ask for
/// more.
pub open spec fn try_read_stops(m0: CoreModel, ev: Seq<SerialRead>) -> bool {
    &&& ev.len() > 0
    &&& (!(ev.last() is Byte) || !(last_event(m0, bytes_read(ev)) is NeedMore))
}

/// What a blocking driver has done so far: its core, the port records and
/// the command log.
pub struct DriverSnap {
    pub core: CoreModel,
    pub record: IoRecord,
    pub exchanges: Seq<Exchange>,
}

/// The core after a successful `begin_scan`.
pub open spec fn core_scanning(m: CoreModel) -> CoreModel {
    CoreModel { state: ScannerState::Scanning, buffer: Seq::empty(), ..m }
}

impl<UART> Gm65Scanner<UART> {
    /// The state of the sans-I/O core.
    pub closed spec fn core_model(&self) -> CoreModel {
        self.core@
    }

    /// The UART the driver owns.
    pub closed spec fn uart_of(&self) -> UART {
        self.port.uart_of()
    }

    /// Every byte sent to the module, in order.
    pub closed spec fn sent(&self) -> Seq<u8> {
        self.port.sent()
    }

    /// Every byte received from the module, in order.
    pub closed spec fn received(&self) -> Seq<u8> {
        self.port.received()
    }

    /// The answer to every read attempt on the UART, in order.
    pub closed spec fn reads(&self) -> Seq<SerialRead> {
        self.port.reads()
    }

    /// The records of the port: bytes each way and every attempt made.
    pub closed spec fn record(&self) -> IoRecord {
        self.port.record()
    }

    /// Every command sent to the module, with the response it got, in order.
    pub closed spec fn exchanges(&self) -> Seq<Exchange> {
        self.exchanges@
    }

    /// The core, the port records and the command log together.
    pub open spec fn snap(&self) -> DriverSnap {
        DriverSnap { core: self.core_model(), record: self.record(), exchanges: self.exchanges() }
    }
}

impl<UART: SyncScannerIO> Gm65Scanner<UART> {
    /// A driver over `uart` with the given configuration.
    pub fn new(uart: UART, config: ScannerConfig) -> (s: Self)
        ensures
            s.core_model() == initial_model(config),
            s.uart_of() == uart,
            s.sent() == Seq::<u8>::empty(),
            s.received() == Seq::<u8>::empty(),
            s.exchanges() == Seq::<Exchange>::empty(),
    {
        Gm65Scanner {
            core: ScannerCore::new(config),
            port: Port::new(uart),
            exchanges: Ghost(Seq::empty()),
        }
    }

    /// A driver over `uart` with the default configuration.
    pub fn with_default_config(uart: UART) -> (s: Self)
        ensures
            s.core_model() == initial_model(default_config()),
            s.uart_of() == uart,
            s.sent() == Seq::<u8>::empty(),
            s.received() == Seq::<u8>::empty(),
    {
        Self::new(uart, ScannerConfig::default())
    }

    /// Gives the UART back.
    pub fn release(self) -> (u: UART)
        ensures
            u == self.uart_of(),
    {
        self.port.into_inner()
    }

    /// Splits the driver into its UART, state, initialization flag and model.
    pub fn into_parts(self) -> (parts: (UART, ScannerState, bool, ScannerModel))
        ensures
            parts.0 == self.uart_of(),
            parts.1 == self.core_model().state,
            parts.2 == self.core_model().initialized,
            parts.3 == self.core_model().detected_model,
    {
        let state = self.core.state();
        let initialized = self.core.is_initialized();
        let model = self.core.detected_model();
        (self.port.into_inner(), state, initialized, model)
    }

    /// Reads the Settings register as flags; `None` when the module gives no
    /// valid answer.
    pub fn get_scanner_settings(&mut self) -> (s: Option<ScannerSettings>)
        ensures
            final(self).core_model() == old(self).core_model(),
            exists|part: Seq<u8>, junk: Seq<u8>, reply: Seq<u8>|
                #![trigger on_wire(old(self).sent(), old(self).received(), final(self).sent(), final(self).received(), get_setting_frame(address_bytes_of(Register::Settings)), part, junk, reply)]
                on_wire(
                    old(self).sent(),
                    old(self).received(),
                    final(self).sent(),
                    final(self).received(),
                    get_setting_frame(address_bytes_of(Register::Settings)),
                    part,
                    junk,
                    reply,
                ) && (s is Some <==> reply_value(reply) is Some) && (s matches Some(x) ==> reply_value(reply) == Some(x.spec_bits())),
            commanded(
                old(self).exchanges(),
                final(self).exchanges(),
                old(self).record(),
                final(self).record(),
                get_setting_frame(address_bytes_of(Register::Settings)),
                old(self).core_model().state != ScannerState::Scanning,
            ),
            (s is Some <==> response_value(final(self).exchanges().last().1) is Some),
            s matches Some(x) ==> response_value(final(self).exchanges().last().1) == Some(x.spec_bits()),
    {
        match self.get_setting(Register::Settings) {
            Some(v) => ScannerSettings::from_bits(v),
            None => None,
        }
    }

    /// Writes the Settings register; true when the module acknowledged.
    pub fn set_scanner_settings(&mut self, settings: ScannerSettings) -> (ok: bool)
        ensures
            final(self).core_model() == old(self).core_model(),
            exists|part: Seq<u8>, junk: Seq<u8>, reply: Seq<u8>|
                #![trigger on_wire(old(self).sent(), old(self).received(), final(self).sent(), final(self).received(), set_setting_frame(address_bytes_of(Register::Settings), settings.spec_bits()), part, junk, reply)]
                on_wire(
                    old(self).sent(),
                    old(self).received(),
                    final(self).sent(),
                    final(self).received(),
                    set_setting_frame(address_bytes_of(Register::Settings), settings.spec_bits()),
                    part,
                    junk,
                    reply,
                ) && ok == reply_response(reply) is Some,
            commanded(
                old(self).exchanges(),
                final(self).exchanges(),
                old(self).record(),
                final(self).record(),
                set_setting_frame(address_bytes_of(Register::Settings), settings.spec_bits()),
                old(self).core_model().state != ScannerState::Scanning,
            ),
            ok == final(self).exchanges().last().1 is Some,
    {
        self.set_setting(Register::Settings, settings.bits())
    }

    /// One non-blocking read of the UART: the byte it delivered, if any.
    pub fn poll_uart(&mut self) -> (b: Option<u8>)
        ensures
            final(self).reads() == old(self).reads().push(final(self).reads().last()),
            b == read_value(final(self).reads().last()),
            final(self).core_model() == old(self).core_model(),
            final(self).sent() == old(self).sent(),
            b matches Some(x) ==> final(self).received() == old(self).received().push(x),
            b is None ==> final(self).received() == old(self).received(),
    {
        match self.port.read_byte() {
            SerialRead::Byte(b) => Some(b),
            SerialRead::WouldBlock => None,
            SerialRead::Failed => None,
        }
    }

    /// Non-blocking incremental scan read: consumes the bytes the UART has
    /// available and returns a payload when one completes. Before
    /// initialization it does nothing and returns `None`.
    pub fn try_read_scan(&mut self) -> (r: Option<Vec<u8>>)
        ensures
            final(self).sent() == old(self).sent(),
            !old(self).core_model().initialized ==> r is None && final(self).core_model()
                == old(self).core_model() && final(self).received() == old(self).received()
                && final(self).reads() == old(self).reads(),
            old(self).core_model().initialized ==> ({
                let m0 = rescan_model(old(self).core_model());
                let ev = final(self).reads().skip(old(self).reads().len() as int);
                let bytes = bytes_read(ev);
                &&& extends(old(self).reads(), final(self).reads())
                &&& polled_until(ev, |e: Seq<SerialRead>| try_read_stops(m0, e))
                &&& final(self).received() == old(self).received() + bytes
                &&& final(self).core_model() == feed_bytes(m0, bytes)
                &&& (r matches Some(d) ==> last_event(m0, bytes) == ScanEvent::Complete(d@))
                &&& (r is Some <==> (ev.len() > 0 && ev.last() is Byte && last_event(m0, bytes) is Complete))
            }),
    {
        if !self.core.is_initialized() {
            return None;
        }
        if self.core.state() == ScannerState::ScanComplete {
            let _ = self.core.begin_scan();
        }
        let ghost m0 = self.core@;
        let ghost reads0 = self.reads();
        let ghost stops = |e: Seq<SerialRead>| try_read_stops(m0, e);
        let ghost mut ev: Seq<SerialRead> = Seq::empty();
        let mut polls: u64 = POLL_BUDGET;
        while polls > 0
            invariant
                old(self).core_model().initialized,
                m0 == rescan_model(old(self).core_model()),
                reads0 == old(self).reads(),
                stops == (|e: Seq<SerialRead>| try_read_stops(m0, e)),
                self.core@ == feed_bytes(m0, bytes_read(ev)),
                self.sent() == old(self).sent(),
                self.received() == old(self).received() + bytes_read(ev),
                self.reads() == reads0 + ev,
                ev.len() + polls == POLL_BUDGET,
                !stops(ev),
                stops_nowhere_before(ev, stops),
            decreases polls,
        {
            polls -= 1;
            let r = self.port.read_byte();
            proof {
                lemma_nowhere_before_push(ev, r, stops);
                lemma_reads_push(ev, r);
                if let SerialRead::Byte(byte) = r {
                    lemma_feed_push(m0, bytes_read(ev), byte);
                }
                ev = ev.push(r);
                assert(self.reads() =~= reads0 + ev);
                assert(self.reads().skip(reads0.len() as int) =~= ev);
                assert(self.reads().subrange(0, reads0.len() as int) =~= reads0);
            }
            match r {
                SerialRead::Byte(byte) => {
                    let res = self.core.handle_scan_byte(byte);
                    match res {
                        ScanByteResult::Complete(data) => {
                            return Some(data);
                        },
                        ScanByteResult::BufferOverflow => {
                            return None;
                        },
                        ScanByteResult::NeedMore => {},
                    }
                },
                SerialRead::WouldBlock => {
                    return None;
                },
                SerialRead::Failed => {
                    return None;
                },
            }
        }
        proof {
            assert(self.reads().skip(reads0.len() as int) =~= ev);
            assert(self.reads().subrange(0, reads0.len() as int) =~= reads0);
        }
        None
    }

    /// Sends a command frame and reads the seven-byte response: drains the
    /// UART first unless a scan is in progress, then sends `cmd`; the result
    /// is the response the bytes read after it stand for (`None` when the
    /// write failed, the UART failed, or no whole response frame arrived).
    fn send_command(&mut self, cmd: &[u8]) -> (r: Option<Gm65Response>)
        ensures
            final(self).core@ == old(self).core@,
            extends(old(self).sent(), final(self).sent()),
            extends(old(self).received(), final(self).received()),
            exists|part: Seq<u8>, junk: Seq<u8>, reply: Seq<u8>|
                #![trigger on_wire(old(self).sent(), old(self).received(), final(self).sent(), final(self).received(), cmd@, part, junk, reply)]
                on_wire(
                    old(self).sent(),
                    old(self).received(),
                    final(self).sent(),
                    final(self).received(),
                    cmd@,
                    part,
                    junk,
                    reply,
                ) && r == reply_response(reply),
            final(self).exchanges() == old(self).exchanges().push((cmd@, r)),
            exchanged(old(self).record(), final(self).record(), cmd@, old(self).core@.state != ScannerState::Scanning, r),
    {
        let drains = self.core.state() != ScannerState::Scanning;
        let ghost s0 = self.sent();
        let ghost r0 = self.received();
        let r = self.port.exchange(cmd, drains);
        proof {
            let (part, junk, reply) = choose|part: Seq<u8>, junk: Seq<u8>, reply: Seq<u8>|
                on_wire(s0, r0, self.sent(), self.received(), cmd@, part, junk, reply) && r
                    == reply_response(reply);
            assert(on_wire(s0, r0, self.sent(), self.received(), cmd@, part, junk, reply));
        }
        proof {
            self.exchanges@ = self.exchanges@.push((cmd@, r));
        }
        r
    }

    /// Reads a register: sends the read frame for its address and returns
    /// the value the response carries; `None` when no valid response arrives.
    pub fn get_setting(&mut self, reg: Register) -> (v: Option<u8>)
        ensures
            final(self).core_model() == old(self).core_model(),
            extends(old(self).sent(), final(self).sent()),
            extends(old(self).received(), final(self).received()),
            exists|part: Seq<u8>, junk: Seq<u8>, reply: Seq<u8>|
                #![trigger on_wire(old(self).sent(), old(self).received(), final(self).sent(), final(self).received(), get_setting_frame(address_bytes_of(reg)), part, junk, reply)]
                on_wire(
                    old(self).sent(),
                    old(self).received(),
                    final(self).sent(),
                    final(self).received(),
                    get_setting_frame(address_bytes_of(reg)),
                    part,
                    junk,
                    reply,
                ) && v == reply_value(reply),
            commanded(
                old(self).exchanges(),
                final(self).exchanges(),
                old(self).record(),
                final(self).record(),
                get_setting_frame(address_bytes_of(reg)),
                old(self).core_model().state != ScannerState::Scanning,
            ),
            v == response_value(final(self).exchanges().last().1),
    {
        let cmd = protocol::build_get_setting(reg.address_bytes());
        match self.send_command(cmd.as_slice()) {
            Some(Gm65Response::SuccessWithValue(v)) => Some(v),
            _ => None,
        }
    }

    /// Writes a register: sends the write frame for its address and value;
    /// true when a valid response arrives.
    pub fn set_setting(&mut self, reg: Register, value: u8) -> (ok: bool)
        ensures
            final(self).core_model() == old(self).core_model(),
            extends(old(self).sent(), final(self).sent()),
            extends(old(self).received(), final(self).received()),
            exists|part: Seq<u8>, junk: Seq<u8>, reply: Seq<u8>|
                #![trigger on_wire(old(self).sent(), old(self).received(), final(self).sent(), final(self).received(), set_setting_frame(address_bytes_of(reg), value), part, junk, reply)]
                on_wire(
                    old(self).sent(),
                    old(self).received(),
                    final(self).sent(),
                    final(self).received(),
                    set_setting_frame(address_bytes_of(reg), value),
                    part,
                    junk,
                    reply,
                ) && ok == reply_response(reply) is Some,
            commanded(
                old(self).exchanges(),
                final(self).exchanges(),
                old(self).record(),
                final(self).record(),
                set_setting_frame(address_bytes_of(reg), value),
                old(self).core_model().state != ScannerState::Scanning,
            ),
            ok == final(self).exchanges().last().1 is Some,
    {
        let cmd = protocol::build_set_setting(reg.address_bytes(), value);
        match self.send_command(cmd.as_slice()) {
            Some(r) => r != Gm65Response::Invalid,
            None => false,
        }
    }

    /// Saves the settings to non-volatile memory; true when acknowledged.
    fn save_settings(&mut self) -> (ok: bool)
        ensures
            final(self).core@ == old(self).core@,
            extends(old(self).sent(), final(self).sent()),
            extends(old(self).received(), final(self).received()),
            exists|part: Seq<u8>, junk: Seq<u8>, reply: Seq<u8>|
                #![trigger on_wire(old(self).sent(), old(self).received(), final(self).sent(), final(self).received(), save_settings_frame(), part, junk, reply)]
                on_wire(
                    old(self).sent(),
                    old(self).received(),
                    final(self).sent(),
                    final(self).received(),
                    save_settings_frame(),
                    part,
                    junk,
                    reply,
                ) && ok == reply_response(reply) is Some,
            commanded(
                old(self).exchanges(),
                final(self).exchanges(),
                old(self).record(),
                final(self).record(),
                save_settings_frame(),
                old(self).core@.state != ScannerState::Scanning,
            ),
            ok == final(self).exchanges().last().1 is Some,
    {
        let cmd = protocol::build_save_settings();
        match self.send_command(cmd.as_slice()) {
            Some(r) => r != Gm65Response::Invalid,
            None => false,
        }
    }

    /// Runs the initialization sequence of the core over the UART.
    #[verifier::rlimit(60)]
    #[verifier::spinoff_prover]
    fn do_init(&mut self) -> (r: Result<ScannerModel, ScannerError>)
        ensures
            r matches Ok(model) ==> model == ScannerModel::Gm65 && final(self).core@.initialized
                && final(self).core@.state == ScannerState::Ready
                && final(self).core@.detected_model == ScannerModel::Gm65
                && final(self).core@.config == (ScannerConfig {
                model: ScannerModel::Gm65,
                ..old(self).core@.config
            }),
            r matches Err(e) ==> final(self).core@.state == ScannerState::Error(e)
                && final(self).core@.init_step == crate::scanner_core::InitStep::Failed(e)
                && final(self).core@.config == old(self).core@.config,
            r is Ok || r == Err::<ScannerModel, ScannerError>(ScannerError::NotDetected) || r
                == Err::<ScannerModel, ScannerError>(ScannerError::ConfigFailed),
            final(self).core@.buffer == old(self).core@.buffer,
            final(self).core@.last_scan_len == old(self).core@.last_scan_len,
            extends(old(self).sent(), final(self).sent()),
            extends(old(self).received(), final(self).received()),
            r is Ok ==> final(self).sent().subrange(
                old(self).sent().len() as int,
                old(self).sent().len() + 9int,
            ) == get_setting_frame(address_bytes_of(Register::SerialOutput)),
            r == Err::<ScannerModel, ScannerError>(ScannerError::NotDetected) ==> unanswered(
                old(self).sent(),
                old(self).received(),
                final(self).sent(),
                final(self).received(),
                get_setting_frame(address_bytes_of(Register::SerialOutput)),
            ),
            r is Ok ==> exists|k: int|
                old(self).sent().len() <= k && k + 9 <= final(self).sent().len() && #[trigger] final(self).sent().subrange(k, k + 9) == set_setting_frame(
                    address_bytes_of(Register::Settings),
                    crate::scanner_core::config::CMD_MODE,
                ),
            extends(old(self).exchanges(), final(self).exchanges()),
            init_followed(old(self).core@, final(self).exchanges().skip(old(self).exchanges().len() as int)),
            r matches Ok(model) ==> final(self).exchanges().len() > old(self).exchanges().len()
                && settled(init_replay(old(self).core@, final(self).exchanges().skip(old(self).exchanges().len() as int).drop_last())).1
                == InitAction::Complete(model),
            r matches Err(e) ==> settled(init_replay(old(self).core@, final(self).exchanges().skip(old(self).exchanges().len() as int))).1
                == InitAction::Fail(e),
    {
        let ghost s0 = self.sent();
        let ghost mode_frame = set_setting_frame(
            address_bytes_of(Register::Settings),
            crate::scanner_core::config::CMD_MODE,
        );
        let ghost mut mode_written: bool = false;
        let ghost mut mode_at: int = 0;
        let ghost r0 = self.received();
        let ghost probe = get_setting_frame(address_bytes_of(Register::SerialOutput));
        proof {
            lemma_init_begin_pending(self.core@);
            assert(s0.subrange(0, s0.len() as int) =~= s0);
            assert(r0.subrange(0, r0.len() as int) =~= r0);
        }
        let ghost x0 = self.exchanges();
        let ghost m0 = self.core@;
        proof {
            lemma_extends_refl(x0);
            assert(x0.skip(x0.len() as int) =~= Seq::<Exchange>::empty());
        }
        let mut action = self.core.init_begin();
        loop
            invariant
                x0 == old(self).exchanges(),
                m0 == old(self).core@,
                extends(x0, self.exchanges()),
                init_prefix(m0, self.exchanges().skip(x0.len() as int)),
                settled((self.core@, action)) == settled(init_replay(m0, self.exchanges().skip(x0.len() as int))),
                s0 == old(self).sent(),
                r0 == old(self).received(),
                probe == get_setting_frame(address_bytes_of(Register::SerialOutput)),
                extends(s0, self.sent()),
                extends(r0, self.received()),
                action is DrainAndRead ==> self.sent() == s0 && self.received() == r0,
                !(action is DrainAndRead) && action != InitAction::Fail(ScannerError::NotDetected)
                    ==> self.sent().len() >= s0.len() + 9 && self.sent().subrange(
                    s0.len() as int,
                    s0.len() + 9int,
                ) == probe,
                action == InitAction::Fail(ScannerError::NotDetected) ==> unanswered(
                    s0,
                    r0,
                    self.sent(),
                    self.received(),
                    probe,
                ),
                init_pending(self.core@, action),
                mode_frame == set_setting_frame(
                    address_bytes_of(Register::Settings),
                    crate::scanner_core::config::CMD_MODE,
                ),
                self.core@.init_step is SetCommandMode && !is_final_action(action) ==> action
                    == InitAction::WriteRegister(Register::Settings, crate::scanner_core::config::CMD_MODE),
                mode_written ==> s0.len() <= mode_at && mode_at + 9 <= self.sent().len()
                    && self.sent().subrange(mode_at, mode_at + 9) == mode_frame,
                action is Complete || self.core@.init_step is ApplyConfig || self.core@.init_step
                    is CheckVersion || self.core@.init_step is SaveSettings
                    || self.core@.init_step is Complete ==> mode_written,
                action matches InitAction::Complete(model) ==> model == ScannerModel::Gm65,
                action matches InitAction::Fail(e) ==> self.core@.state == ScannerState::Error(e)
                    && self.core@.init_step == crate::scanner_core::InitStep::Failed(e)
                    && (e == ScannerError::NotDetected || e == ScannerError::ConfigFailed),
                self.core@.init_step matches crate::scanner_core::InitStep::Failed(e) ==> (e
                    == ScannerError::NotDetected || e == ScannerError::ConfigFailed),
                self.core@.buffer == old(self).core@.buffer,
                self.core@.last_scan_len == old(self).core@.last_scan_len,
                self.core@.config == old(self).core@.config,
            decreases init_rank(self.core@, action),
        {
            match action {
                InitAction::DrainAndRead(reg) => {
                    self.port.drain_input();
                    let ghost s1 = self.sent();
                    let ghost r1 = self.received();
                    let ghost e1 = self.exchanges();
                    let result = self.get_setting(reg);
                    proof {
                        lemma_init_step(m0, x0, e1, self.exchanges());
                        lemma_init_progress(self.core@, action, result);
                        let (part, junk, reply) = choose|part: Seq<u8>, junk: Seq<u8>, reply: Seq<u8>|
                            on_wire(s1, r1, self.sent(), self.received(), probe, part, junk, reply)
                                && result == reply_value(reply);
                        let drained = r1.subrange(r0.len() as int, r1.len() as int);
                        assert(r1 =~= r0 + drained);
                        assert(self.received() =~= r0 + (drained + junk) + reply);
                        assert(on_wire(s0, r0, self.sent(), self.received(), probe, part, drained + junk, reply));
                        if result is Some {
                            assert(part =~= probe);
                            assert(self.sent().subrange(s0.len() as int, s0.len() + 9int) =~= probe);
                        }
                        lemma_extends_trans(r0, r1, self.received());
                    }
                    action = self.core.init_advance(result);
                },
                InitAction::ReadRegister(reg) => {
                    let ghost s1 = self.sent();
                    let ghost r1 = self.received();
                    let ghost e1 = self.exchanges();
                    let result = self.get_setting(reg);
                    proof {
                        lemma_init_step(m0, x0, e1, self.exchanges());
                        lemma_init_progress(self.core@, action, result);
                        lemma_extends_trans(s0, s1, self.sent());
                        lemma_extends_trans(r0, r1, self.received());
                        lemma_extends_keeps(s1, self.sent(), s0.len() as int, s0.len() + 9int);
                        if mode_written {
                            lemma_extends_keeps(s1, self.sent(), mode_at, mode_at + 9);
                        }
                    }
                    action = self.core.init_advance(result);
                },
                InitAction::WriteRegister(reg, val) => {
                    let ghost s1 = self.sent();
                    let ghost r1 = self.received();
                    let ghost e1 = self.exchanges();
                    let ok = self.set_setting(reg, val);
                    let result = if ok {
                        Some(val)
                    } else {
                        None
                    };
                    proof {
                        lemma_init_step(m0, x0, e1, self.exchanges());
                        lemma_init_progress(self.core@, action, result);
                        lemma_extends_trans(s0, s1, self.sent());
                        lemma_extends_trans(r0, r1, self.received());
                        lemma_extends_keeps(s1, self.sent(), s0.len() as int, s0.len() + 9int);
                        if mode_written {
                            lemma_extends_keeps(s1, self.sent(), mode_at, mode_at + 9);
                        }
                        if ok && self.core@.init_step is SetCommandMode {
                            let (part, junk, reply) = choose|part: Seq<u8>, junk: Seq<u8>, reply: Seq<u8>|
                                on_wire(s1, r1, self.sent(), self.received(), set_setting_frame(address_bytes_of(reg), val), part, junk, reply)
                                    && ok == reply_response(reply) is Some;
                            assert(part =~= mode_frame);
                            assert(self.sent().subrange(s1.len() as int, s1.len() + 9int) =~= mode_frame);
                            mode_written = true;
                            mode_at = s1.len() as int;
                        }
                    }
                    action = self.core.init_advance(result);
                },
                InitAction::VerifyRegister(_reg, _expected) => {
                    proof {
                        lemma_verify_progress(self.core@, action);
                    }
                    action = self.core.init_advance_verify();
                },
                InitAction::Complete(model) => {
                    let ghost s1 = self.sent();
                    let ghost r1 = self.received();
                    let ghost e1 = self.exchanges();
                    let _ = self.save_settings();
                    proof {
                        let xs = e1.skip(x0.len() as int);
                        assert(self.exchanges().skip(x0.len() as int) =~= xs.push(self.exchanges().last()));
                        assert(self.exchanges().skip(x0.len() as int).drop_last() =~= xs);
                        lemma_init_followed_save(m0, xs, self.exchanges().last());
                        assert(self.exchanges().subrange(0, x0.len() as int) =~= e1.subrange(0, x0.len() as int));
                        lemma_extends_trans(s0, s1, self.sent());
                        lemma_extends_trans(r0, r1, self.received());
                        lemma_extends_keeps(s1, self.sent(), s0.len() as int, s0.len() + 9int);
                        lemma_extends_keeps(s1, self.sent(), mode_at, mode_at + 9);
                        assert(self.sent().subrange(mode_at, mode_at + 9) == mode_frame);
                    }
                    self.core.complete_init(model);
                    proof {
                        assert(mode_written);
                        assert(old(self).sent().len() <= mode_at && mode_at + 9 <= self.sent().len()
                            && self.sent().subrange(mode_at, mode_at + 9) == mode_frame);
                    }
                    return Ok(model);
                },
                InitAction::Fail(e) => {
                    proof {
                        lemma_init_prefix_followed(m0, self.exchanges().skip(x0.len() as int));
                    }
                    return Err(e);
                },
            }
        }
    }

    /// Starts a scan (ScanEnable := 1); the acknowledgement is not required.
    fn do_trigger_scan(&mut self) -> (r: Result<(), ScannerError>)
        ensures
            !old(self).core@.initialized ==> r == Err::<(), ScannerError>(
                ScannerError::NotInitialized,
            ) && final(self).core@ == old(self).core@ && final(self).sent() == old(self).sent()
                && final(self).received() == old(self).received(),
            old(self).core@.initialized ==> exists|part: Seq<u8>, junk: Seq<u8>, reply: Seq<u8>|
                #![trigger on_wire(old(self).sent(), old(self).received(), final(self).sent(), final(self).received(), set_setting_frame(address_bytes_of(Register::ScanEnable), 0x01), part, junk, reply)]
                on_wire(
                    old(self).sent(),
                    old(self).received(),
                    final(self).sent(),
                    final(self).received(),
                    set_setting_frame(address_bytes_of(Register::ScanEnable), 0x01),
                    part,
                    junk,
                    reply,
                ),
            old(self).core@.initialized ==> r is Ok && final(self).core@ == core_scanning(
                old(self).core@,
            ),
            !old(self).core@.initialized ==> final(self).exchanges() == old(self).exchanges()
                && final(self).record() == old(self).record(),
            old(self).core@.initialized ==> commanded(
                old(self).exchanges(),
                final(self).exchanges(),
                old(self).record(),
                final(self).record(),
                set_setting_frame(address_bytes_of(Register::ScanEnable), 0x01),
                false,
            ),
    {
        self.core.begin_scan()?;
        let cmd = protocol::build_set_setting(Register::ScanEnable.address_bytes(), 0x01);
        assert(self.sent() == old(self).sent() && self.received() == old(self).received());
        let _resp = self.send_command(cmd.as_slice());
        Ok(())
    }

    /// Stops a scan (ScanEnable := 0); true when acknowledged, false before
    /// initialization.
    fn do_stop_scan(&mut self) -> (ok: bool)
        ensures
            final(self).core@ == old(self).core@,
            !old(self).core@.initialized ==> !ok && final(self).sent() == old(self).sent()
                && final(self).received() == old(self).received(),
            old(self).core@.initialized ==> exists|part: Seq<u8>, junk: Seq<u8>, reply: Seq<u8>|
                #![trigger on_wire(old(self).sent(), old(self).received(), final(self).sent(), final(self).received(), set_setting_frame(address_bytes_of(Register::ScanEnable), 0x00), part, junk, reply)]
                on_wire(
                    old(self).sent(),
                    old(self).received(),
                    final(self).sent(),
                    final(self).received(),
                    set_setting_frame(address_bytes_of(Register::ScanEnable), 0x00),
                    part,
                    junk,
                    reply,
                ) && ok == reply_response(reply) is Some,
            !old(self).core@.initialized ==> final(self).exchanges() == old(self).exchanges()
                && final(self).record() == old(self).record(),
            old(self).core@.initialized ==> commanded(
                old(self).exchanges(),
                final(self).exchanges(),
                old(self).record(),
                final(self).record(),
                set_setting_frame(address_bytes_of(Register::ScanEnable), 0x00),
                old(self).core@.state != ScannerState::Scanning,
            ),
            old(self).core@.initialized ==> ok == final(self).exchanges().last().1 is Some,
    {
        if !self.core.is_initialized() {
            return false;
        }
        let cmd = protocol::build_set_setting(Register::ScanEnable.address_bytes(), 0x00);
        let resp = self.send_command(cmd.as_slice());
        resp.is_some()
    }

    /// Reads bytes until a payload completes; gives up with `Timeout` after
    /// 500 000 empty polls in a row and with `UartError` on a UART error.
    /// The read attempts made are a run that goes on until `scan_read_stops`
    /// first holds of it (or the poll budget runs out); the core ends as
    /// `scan_read_core` says, and a payload is returned exactly when the last
    /// byte completed one.
    fn do_read_scan(&mut self) -> (r: Option<Vec<u8>>)
        ensures
            final(self).exchanges() == old(self).exchanges(),
            final(self).sent() == old(self).sent(),
            !old(self).core@.initialized ==> r is None && final(self).core@ == old(self).core@
                && final(self).received() == old(self).received() && final(self).reads()
                == old(self).reads(),
            old(self).core@.initialized ==> ({
                let ev = final(self).reads().skip(old(self).reads().len() as int);
                let bytes = bytes_read(ev);
                &&& extends(old(self).reads(), final(self).reads())
                &&& polled_until(ev, |e: Seq<SerialRead>| scan_read_stops(old(self).core@, e))
                &&& final(self).received() == old(self).received() + bytes
                &&& final(self).core@ == scan_read_core(old(self).core@, ev)
                &&& (r matches Some(d) ==> last_event(old(self).core@, bytes)
                    == ScanEvent::Complete(d@))
                &&& (r is Some <==> (ev.len() > 0 && ev.last() is Byte && last_event(
                    old(self).core@,
                    bytes,
                ) is Complete))
            }),
    {
        if !self.core.is_initialized() {
            return None;
        }
        let ghost m0 = self.core@;
        let ghost reads0 = self.reads();
        let ghost stops = |e: Seq<SerialRead>| scan_read_stops(m0, e);
        let ghost mut ev: Seq<SerialRead> = Seq::empty();
        let mut attempts: u32 = 0;
        let max_attempts: u32 = 500_000;
        let mut polls: u64 = POLL_BUDGET;
        while attempts < max_attempts && polls > 0
            invariant
                old(self).core@.initialized,
                m0 == old(self).core@,
                self.exchanges() == old(self).exchanges(),
                reads0 == old(self).reads(),
                stops == (|e: Seq<SerialRead>| scan_read_stops(m0, e)),
                self.core@ == feed_bytes(m0, bytes_read(ev)),
                self.sent() == old(self).sent(),
                self.received() == old(self).received() + bytes_read(ev),
                self.reads() == reads0 + ev,
                max_attempts == 500_000,
                attempts <= max_attempts,
                attempts == trailing_blocks(ev),
                ev.len() + polls == POLL_BUDGET,
                ev.len() > 0 ==> !(ev.last() is Failed),
                ev.len() > 0 && ev.last() is Byte ==> last_event(m0, bytes_read(ev)) is NeedMore,
                stops_nowhere_before(ev, stops),
            decreases polls,
        {
            polls -= 1;
            let r = self.port.read_byte();
            proof {
                assert(!stops(ev));
                lemma_nowhere_before_push(ev, r, stops);
                lemma_reads_push(ev, r);
                if let SerialRead::Byte(byte) = r {
                    lemma_feed_push(m0, bytes_read(ev), byte);
                }
                ev = ev.push(r);
                assert(self.reads() =~= reads0 + ev);
                assert(self.reads().skip(reads0.len() as int) =~= ev);
                assert(self.reads().subrange(0, reads0.len() as int) =~= reads0);
            }
            match r {
                SerialRead::Byte(byte) => {
                    let res = self.core.handle_scan_byte(byte);
                    match res {
                        ScanByteResult::Complete(data) => {
                            return Some(data);
                        },
                        ScanByteResult::BufferOverflow => {
                            return None;
                        },
                        ScanByteResult::NeedMore => {
                            attempts = 0;
                        },
                    }
                },
                SerialRead::WouldBlock => {
                    attempts += 1;
                },
                SerialRead::Failed => {
                    self.core.fail(ScannerError::UartError);
                    return None;
                },
            }
        }
        proof {
            assert(self.reads().skip(reads0.len() as int) =~= ev);
            assert(self.reads().subrange(0, reads0.len() as int) =~= reads0);
        }
        self.core.fail(ScannerError::Timeout);
        None
    }
}

impl<UART: SyncScannerIO> ScannerDriverSync for Gm65Scanner<UART> {
    fn init(&mut self) -> (r: Result<ScannerModel, ScannerError>)
        ensures
            r matches Ok(model) ==> model == ScannerModel::Gm65
                && final(self).core_model().initialized && final(self).core_model().state
                == ScannerState::Ready && final(self).core_model().detected_model
                == ScannerModel::Gm65 && final(self).core_model().config == (ScannerConfig {
                model: ScannerModel::Gm65,
                ..old(self).core_model().config
            }),
            r matches Err(e) ==> final(self).core_model().state == ScannerState::Error(e)
                && final(self).core_model().config == old(self).core_model().config,
            r is Ok || r == Err::<ScannerModel, ScannerError>(ScannerError::NotDetected) || r
                == Err::<ScannerModel, ScannerError>(ScannerError::ConfigFailed),
            final(self).core_model().buffer == old(self).core_model().buffer,
            final(self).core_model().last_scan_len == old(self).core_model().last_scan_len,
            extends(old(self).sent(), final(self).sent()),
            extends(old(self).received(), final(self).received()),
            r is Ok ==> final(self).sent().subrange(
                old(self).sent().len() as int,
                old(self).sent().len() + 9int,
            ) == get_setting_frame(address_bytes_of(Register::SerialOutput)),
            r == Err::<ScannerModel, ScannerError>(ScannerError::NotDetected) ==> unanswered(
                old(self).sent(),
                old(self).received(),
                final(self).sent(),
                final(self).received(),
                get_setting_frame(address_bytes_of(Register::SerialOutput)),
            ),
            r is Ok ==> exists|k: int|
                old(self).sent().len() <= k && k + 9 <= final(self).sent().len() && #[trigger] final(self).sent().subrange(k, k + 9) == set_setting_frame(
                    address_bytes_of(Register::Settings),
                    crate::scanner_core::config::CMD_MODE,
                ),
            extends(old(self).exchanges(), final(self).exchanges()),
            init_followed(old(self).core_model(), final(self).exchanges().skip(old(self).exchanges().len() as int)),
            r matches Ok(model) ==> final(self).exchanges().len() > old(self).exchanges().len()
                && settled(init_replay(old(self).core_model(), final(self).exchanges().skip(old(self).exchanges().len() as int).drop_last())).1
                == InitAction::Complete(model),
            r matches Err(e) ==> settled(init_replay(old(self).core_model(), final(self).exchanges().skip(old(self).exchanges().len() as int))).1
                == InitAction::Fail(e),
    {
        self.do_init()
    }

    fn ping(&mut self) -> (ok: bool)
        ensures
            final(self).core_model() == old(self).core_model(),
            exists|part: Seq<u8>, junk: Seq<u8>, reply: Seq<u8>|
                #![trigger on_wire(old(self).sent(), old(self).received(), final(self).sent(), final(self).received(), get_setting_frame(address_bytes_of(Register::SerialOutput)), part, junk, reply)]
                on_wire(
                    old(self).sent(),
                    old(self).received(),
                    final(self).sent(),
                    final(self).received(),
                    get_setting_frame(address_bytes_of(Register::SerialOutput)),
                    part,
                    junk,
                    reply,
                ) && ok == reply_value(reply) is Some,
            commanded(
                old(self).exchanges(),
                final(self).exchanges(),
                old(self).record(),
                final(self).record(),
                get_setting_frame(address_bytes_of(Register::SerialOutput)),
                old(self).core_model().state != ScannerState::Scanning,
            ),
            ok == response_value(final(self).exchanges().last().1) is Some,
    {
        self.get_setting(Register::SerialOutput).is_some()
    }

    fn trigger_scan(&mut self) -> (r: Result<(), ScannerError>)
        ensures
            !old(self).core_model().initialized ==> r == Err::<(), ScannerError>(
                ScannerError::NotInitialized,
            ) && final(self).core_model() == old(self).core_model() && final(self).sent() == old(self).sent()
                && final(self).received() == old(self).received(),
            old(self).core_model().initialized ==> exists|part: Seq<u8>, junk: Seq<u8>, reply: Seq<u8>|
                #![trigger on_wire(old(self).sent(), old(self).received(), final(self).sent(), final(self).received(), set_setting_frame(address_bytes_of(Register::ScanEnable), 0x01), part, junk, reply)]
                on_wire(
                    old(self).sent(),
                    old(self).received(),
                    final(self).sent(),
                    final(self).received(),
                    set_setting_frame(address_bytes_of(Register::ScanEnable), 0x01),
                    part,
                    junk,
                    reply,
                ),
            old(self).core_model().initialized ==> r is Ok && final(self).core_model()
                == core_scanning(old(self).core_model()),
            !old(self).core_model().initialized ==> final(self).exchanges() == old(self).exchanges()
                && final(self).record() == old(self).record(),
            old(self).core_model().initialized ==> commanded(
                old(self).exchanges(),
                final(self).exchanges(),
                old(self).record(),
                final(self).record(),
                set_setting_frame(address_bytes_of(Register::ScanEnable), 0x01),
                false,
            ),
    {
        self.do_trigger_scan()
    }

    fn stop_scan(&mut self) -> (ok: bool)
        ensures
            final(self).core_model() == old(self).core_model(),
            !old(self).core_model().initialized ==> !ok && final(self).sent() == old(self).sent()
                && final(self).received() == old(self).received(),
            old(self).core_model().initialized ==> exists|part: Seq<u8>, junk: Seq<u8>, reply: Seq<u8>|
                #![trigger on_wire(old(self).sent(), old(self).received(), final(self).sent(), final(self).received(), set_setting_frame(address_bytes_of(Register::ScanEnable), 0x00), part, junk, reply)]
                on_wire(
                    old(self).sent(),
                    old(self).received(),
                    final(self).sent(),
                    final(self).received(),
                    set_setting_frame(address_bytes_of(Register::ScanEnable), 0x00),
                    part,
                    junk,
                    reply,
                ) && ok == reply_response(reply) is Some,
            !old(self).core_model().initialized ==> final(self).exchanges() == old(self).exchanges()
                && final(self).record() == old(self).record(),
            old(self).core_model().initialized ==> commanded(
                old(self).exchanges(),
                final(self).exchanges(),
                old(self).record(),
                final(self).record(),
                set_setting_frame(address_bytes_of(Register::ScanEnable), 0x00),
                old(self).core_model().state != ScannerState::Scanning,
            ),
            old(self).core_model().initialized ==> ok == final(self).exchanges().last().1 is Some,
    {
        self.do_stop_scan()
    }

    fn read_scan(&mut self) -> (r: Option<Vec<u8>>)
        ensures
            final(self).exchanges() == old(self).exchanges(),
            final(self).sent() == old(self).sent(),
            !old(self).core_model().initialized ==> r is None && final(self).core_model()
                == old(self).core_model() && final(self).received() == old(self).received()
                && final(self).reads() == old(self).reads(),
            old(self).core_model().initialized ==> ({
                let ev = final(self).reads().skip(old(self).reads().len() as int);
                let bytes = bytes_read(ev);
                &&& extends(old(self).reads(), final(self).reads())
                &&& polled_until(
                    ev,
                    |e: Seq<SerialRead>| scan_read_stops(old(self).core_model(), e),
                )
                &&& final(self).received() == old(self).received() + bytes
                &&& final(self).core_model() == scan_read_core(old(self).core_model(), ev)
                &&& (r matches Some(d) ==> last_event(old(self).core_model(), bytes)
                    == ScanEvent::Complete(d@))
                &&& (r is Some <==> (ev.len() > 0 && ev.last() is Byte && last_event(
                    old(self).core_model(),
                    bytes,
                ) is Complete))
            }),
    {
        self.do_read_scan()
    }

    fn state(&self) -> (s: ScannerState)
        ensures
            s == self.core_model().state,
    {
        self.core.state()
    }

    fn status(&self) -> (s: ScannerStatus)
        ensures
            s == status_of(self.core_model()),
    {
        self.core.status()
    }

    fn data_ready(&self) -> (b: bool)
        ensures
            b == (self.core_model().state == ScannerState::ScanComplete),
    {
        self.core.data_ready()
    }
}

} // verus!
