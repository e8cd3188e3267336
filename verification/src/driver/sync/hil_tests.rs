//! Hardware-in-the-loop checks of the blocking driver on a real module.
//!
//! Each check is stated over what the driver did: the state of its core, the
//! records of its port and its log of commands, before and after.

use vstd::prelude::*;

use crate::driver::io::{
    bytes_read, commanded, extends, polled_until, response_value, SerialRead, SyncScannerIO,
};
use crate::driver::sync::{
    core_scanning, init_followed, init_replay, scan_read_core, scan_read_stops, settled,
    DriverSnap, Gm65Scanner,
};
use crate::driver::traits::ScannerDriverSync;
use crate::driver::types::{ScannerError, ScannerModel, ScannerState};
use crate::protocol::{address_bytes_of, get_setting_frame, set_setting_frame, Register};
use crate::scanner_core::{last_event, HilTestResults, InitAction};

verus! {

/// `init` took the driver from `a` to `b` with result `res`: the commands
/// sent follow the core's initialization sequence, which ended as `res`.
pub open spec fn ran_init(a: DriverSnap, b: DriverSnap, res: Result<ScannerModel, ScannerError>) -> bool {
    let xs = b.exchanges.skip(a.exchanges.len() as int);
    &&& extends(a.exchanges, b.exchanges)
    &&& init_followed(a.core, xs)
    &&& res matches Ok(model) ==> xs.len() > 0 && settled(init_replay(a.core, xs.drop_last())).1
        == InitAction::Complete(model) && b.core.state == ScannerState::Ready && b.core.initialized
    &&& res matches Err(e) ==> settled(init_replay(a.core, xs)).1 == InitAction::Fail(e)
        && b.core.state == ScannerState::Error(e)
}

/// `ping` took the driver from `a` to `b`: one SerialOutput read, and `ok`
/// when its response carried a value.
pub open spec fn ran_ping(a: DriverSnap, b: DriverSnap, ok: bool) -> bool {
    &&& b.core == a.core
    &&& commanded(
        a.exchanges,
        b.exchanges,
        a.record,
        b.record,
        get_setting_frame(address_bytes_of(Register::SerialOutput)),
        a.core.state != ScannerState::Scanning,
    )
    &&& ok == response_value(b.exchanges.last().1) is Some
}

/// `trigger_scan` took the driver from `a` to `b` with result `res`:
/// refused before initialization with nothing done, else the scan-enable
/// command sent and the core scanning.
pub open spec fn ran_trigger(a: DriverSnap, b: DriverSnap, res: Result<(), ScannerError>) -> bool {
    &&& !a.core.initialized ==> res == Err::<(), ScannerError>(ScannerError::NotInitialized)
        && b == a
    &&& a.core.initialized ==> res is Ok && b.core == core_scanning(a.core) && commanded(
        a.exchanges,
        b.exchanges,
        a.record,
        b.record,
        set_setting_frame(address_bytes_of(Register::ScanEnable), 0x01),
        false,
    )
}

/// `stop_scan` took the driver from `a` to `b`: refused before
/// initialization with nothing done, else the scan-disable command sent and
/// `ok` when it was answered.
pub open spec fn ran_stop(a: DriverSnap, b: DriverSnap, ok: bool) -> bool {
    &&& b.core == a.core
    &&& !a.core.initialized ==> !ok && b == a
    &&& a.core.initialized ==> commanded(
        a.exchanges,
        b.exchanges,
        a.record,
        b.record,
        set_setting_frame(address_bytes_of(Register::ScanEnable), 0x00),
        a.core.state != ScannerState::Scanning,
    ) && ok == b.exchanges.last().1 is Some
}

/// `read_scan` took the driver from `a` to `b`: no command sent; before
/// initialization nothing read, else the reads are a run until
/// `scan_read_stops`, the core ends as `scan_read_core` says, and
/// `completed` says whether the last byte completed a payload.
pub open spec fn ran_read(a: DriverSnap, b: DriverSnap, completed: bool) -> bool {
    let ev = b.record.reads.skip(a.record.reads.len() as int);
    &&& b.exchanges == a.exchanges
    &&& !a.core.initialized ==> !completed && b.core == a.core && b.record.reads == a.record.reads
    &&& a.core.initialized ==> {
        &&& extends(a.record.reads, b.record.reads)
        &&& polled_until(ev, |e: Seq<SerialRead>| scan_read_stops(a.core, e))
        &&& b.core == scan_read_core(a.core, ev)
        &&& completed == (ev.len() > 0 && ev.last() is Byte && last_event(
            a.core,
            bytes_read(ev),
        ) is Complete)
    }
}

/// The trigger-and-stop check through driver state `m` after the trigger:
/// it passes when the trigger was accepted, left the core scanning, and the
/// stop was answered.
pub open spec fn trigger_stop_via(
    a: DriverSnap,
    m: DriverSnap,
    b: DriverSnap,
    t: Result<(), ScannerError>,
    stopped: bool,
    ok: bool,
) -> bool {
    &&& ran_trigger(a, m, t)
    &&& t is Err ==> b == m && !ok
    &&& t is Ok && m.core.state != ScannerState::Scanning ==> b == m && !ok
    &&& t is Ok && m.core.state == ScannerState::Scanning ==> ran_stop(m, b, stopped) && ok
        == stopped
}

/// The trigger-and-stop check took the driver from `a` to `b` with result
/// `ok`.
pub open spec fn ran_trigger_stop(a: DriverSnap, b: DriverSnap, ok: bool) -> bool {
    exists|m: DriverSnap, t: Result<(), ScannerError>, stopped: bool|
        #[trigger] trigger_stop_via(a, m, b, t, stopped, ok)
}

/// The read-timeout check through the states `m1` after the trigger and
/// `m2` after the read: it passes when the trigger was accepted and the read
/// either completed a payload or left the core timed out; a stop follows the
/// read.
pub open spec fn read_check_via(
    a: DriverSnap,
    m1: DriverSnap,
    m2: DriverSnap,
    b: DriverSnap,
    t: Result<(), ScannerError>,
    completed: bool,
    stopped: bool,
    ok: bool,
) -> bool {
    &&& ran_trigger(a, m1, t)
    &&& t is Err ==> b == m1 && !ok
    &&& t is Ok ==> ran_read(m1, m2, completed) && ran_stop(m2, b, stopped) && ok == (completed
        || m2.core.state == ScannerState::Error(ScannerError::Timeout))
}

/// The read-timeout check took the driver from `a` to `b` with result `ok`.
pub open spec fn ran_read_check(a: DriverSnap, b: DriverSnap, ok: bool) -> bool {
    exists|m1: DriverSnap, m2: DriverSnap, t: Result<(), ScannerError>, completed: bool, stopped: bool|
        #[trigger] read_check_via(a, m1, m2, b, t, completed, stopped, ok)
}

/// The re-initialization check took the driver from `a` to `b` with result
/// `ok`: it passes when `init` succeeded and left the driver ready.
pub open spec fn ran_reinit(a: DriverSnap, b: DriverSnap, ok: bool) -> bool {
    exists|res: Result<ScannerModel, ScannerError>|
        #[trigger] ran_init(a, b, res) && ok == (res is Ok && b.core.state == ScannerState::Ready)
}

/// The driver states between the checks of `run_hil_tests`, and the result
/// of the first initialization.
pub struct HilTrace {
    pub init: Result<ScannerModel, ScannerError>,
    pub after_init: DriverSnap,
    pub after_ping: DriverSnap,
    pub after_trigger_stop: DriverSnap,
    pub after_read: DriverSnap,
}

/// The checks ran in order from `s0` to `fin` through the states of `w` and
/// gave `r`: initialization; if it failed nothing more and every other check
/// failed; else ping, trigger and stop, read timeout, re-initialization.
pub open spec fn hil_run(s0: DriverSnap, w: HilTrace, fin: DriverSnap, r: HilTestResults) -> bool {
    &&& ran_init(s0, w.after_init, w.init)
    &&& r.init_detects_scanner == w.init is Ok
    &&& w.init is Err ==> fin == w.after_init && !r.ping_after_init && !r.trigger_and_stop
        && !r.read_scan_timeout && !r.state_transitions
    &&& w.init is Ok ==> {
        &&& ran_ping(w.after_init, w.after_ping, r.ping_after_init)
        &&& ran_trigger_stop(w.after_ping, w.after_trigger_stop, r.trigger_and_stop)
        &&& ran_read_check(w.after_trigger_stop, w.after_read, r.read_scan_timeout)
        &&& ran_reinit(w.after_read, fin, r.state_transitions)
    }
}

/// Runs the five checks in order: initialization, ping, trigger and stop,
/// read timeout, re-initialization. Stops after the first when no module
/// answers.
pub fn run_hil_tests<UART: SyncScannerIO>(scanner: &mut Gm65Scanner<UART>) -> (r: HilTestResults)
    ensures
        exists|w: HilTrace| #[trigger] hil_run(old(scanner).snap(), w, final(scanner).snap(), r),
{
    let ghost s0 = scanner.snap();
    let mut results = HilTestResults {
        init_detects_scanner: false,
        ping_after_init: false,
        trigger_and_stop: false,
        read_scan_timeout: false,
        state_transitions: false,
    };
    results.init_detects_scanner = test_init(scanner);
    let ghost s1 = scanner.snap();
    let ghost res1 = choose|res: Result<ScannerModel, ScannerError>|
        ran_init(s0, s1, res) && results.init_detects_scanner == res is Ok;
    if !results.init_detects_scanner {
        proof {
            let w = HilTrace { init: res1, after_init: s1, after_ping: s1, after_trigger_stop: s1, after_read: s1 };
            assert(hil_run(s0, w, scanner.snap(), results));
        }
        return results;
    }
    results.ping_after_init = test_ping(scanner);
    let ghost s2 = scanner.snap();
    results.trigger_and_stop = test_trigger_stop(scanner);
    let ghost s3 = scanner.snap();
    results.read_scan_timeout = test_read_scan_timeout(scanner);
    let ghost s4 = scanner.snap();
    results.state_transitions = test_state_transitions(scanner);
    proof {
        let w = HilTrace { init: res1, after_init: s1, after_ping: s2, after_trigger_stop: s3, after_read: s4 };
        assert(hil_run(s0, w, scanner.snap(), results));
    }
    results
}

/// Initialization detects a module.
fn test_init<UART: SyncScannerIO>(scanner: &mut Gm65Scanner<UART>) -> (ok: bool)
    ensures
        exists|res: Result<ScannerModel, ScannerError>|
            #[trigger] ran_init(old(scanner).snap(), final(scanner).snap(), res) && ok == res is Ok,
{
    let r = scanner.init();
    proof {
        assert(ran_init(old(scanner).snap(), scanner.snap(), r));
    }
    r.is_ok()
}

/// The module answers a register read.
fn test_ping<UART: SyncScannerIO>(scanner: &mut Gm65Scanner<UART>) -> (ok: bool)
    ensures
        ran_ping(old(scanner).snap(), final(scanner).snap(), ok),
{
    scanner.ping()
}

/// A scan can be started, leaves the driver scanning, and can be stopped.
fn test_trigger_stop<UART: SyncScannerIO>(scanner: &mut Gm65Scanner<UART>) -> (ok: bool)
    ensures
        ran_trigger_stop(old(scanner).snap(), final(scanner).snap(), ok),
{
    let ghost a = scanner.snap();
    let t = scanner.trigger_scan();
    let ghost m = scanner.snap();
    proof {
        assert(ran_trigger(a, m, t));
    }
    if t.is_err() {
        proof {
            assert(trigger_stop_via(a, m, scanner.snap(), t, false, false));
        }
        return false;
    }
    if !matches!(scanner.state(), ScannerState::Scanning) {
        proof {
            assert(trigger_stop_via(a, m, scanner.snap(), t, false, false));
        }
        return false;
    }
    let stopped = scanner.stop_scan();
    proof {
        assert(ran_stop(m, scanner.snap(), stopped));
        assert(trigger_stop_via(a, m, scanner.snap(), t, stopped, stopped));
    }
    stopped
}

/// A read with no code presented times out (a code that happens to be in
/// view also passes).
fn test_read_scan_timeout<UART: SyncScannerIO>(scanner: &mut Gm65Scanner<UART>) -> (ok: bool)
    ensures
        ran_read_check(old(scanner).snap(), final(scanner).snap(), ok),
{
    let ghost a = scanner.snap();
    let t = scanner.trigger_scan();
    let ghost m1 = scanner.snap();
    proof {
        assert(ran_trigger(a, m1, t));
    }
    if t.is_err() {
        proof {
            assert(read_check_via(a, m1, m1, scanner.snap(), t, false, false, false));
        }
        return false;
    }
    let result = scanner.read_scan();
    let ghost m2 = scanner.snap();
    let timed_out = result.is_none();
    proof {
        assert(ran_read(m1, m2, !timed_out));
    }
    let stopped = scanner.stop_scan();
    proof {
        assert(ran_stop(m2, scanner.snap(), stopped));
    }
    let ok = if timed_out {
        matches!(scanner.state(), ScannerState::Error(ScannerError::Timeout))
    } else {
        true
    };
    proof {
        assert(read_check_via(a, m1, m2, scanner.snap(), t, !timed_out, stopped, ok));
    }
    ok
}

/// Re-initialization leaves the driver ready.
fn test_state_transitions<UART: SyncScannerIO>(scanner: &mut Gm65Scanner<UART>) -> (ok: bool)
    ensures
        ran_reinit(old(scanner).snap(), final(scanner).snap(), ok),
{
    let r = scanner.init();
    proof {
        assert(ran_init(old(scanner).snap(), scanner.snap(), r));
    }
    match r {
        Ok(_) => matches!(scanner.state(), ScannerState::Ready),
        Err(_) => false,
    }
}

/// Triggers a scan and expects a code to be presented: true exactly when
/// the trigger was accepted (the scan-enable command sent) and the read that
/// follows completed a payload.
pub fn run_hil_test_with_qr<UART: SyncScannerIO>(scanner: &mut Gm65Scanner<UART>) -> (ok: bool)
    ensures
        exists|m: DriverSnap, t: Result<(), ScannerError>|
            #[trigger] ran_trigger(old(scanner).snap(), m, t) && (t is Err ==> final(scanner).snap()
                == m && !ok) && (t is Ok ==> ran_read(m, final(scanner).snap(), ok)),
        ok ==> old(scanner).core_model().initialized,
{
    let ghost a = scanner.snap();
    let t = scanner.trigger_scan();
    let ghost m = scanner.snap();
    proof {
        assert(ran_trigger(a, m, t));
    }
    if t.is_err() {
        return false;
    }
    let result = scanner.read_scan();
    let ok = result.is_some();
    proof {
        assert(ran_read(m, scanner.snap(), ok));
    }
    ok
}

} // verus!
