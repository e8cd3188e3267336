//! Multi-baud initialization: the host-side baud-switch hook and the
//! decisions of the recovery ladder.
//!
//! The ladder initializes at the current baud; when nothing answers it
//! switches the host to the factory-default 9600 and initializes again; when
//! the module answers there, it commands the module to 115200, switches the
//! host up and finishes with a full initialization at operating baud. The
//! firmware performs each action and reports what happened.

use vstd::prelude::*;

use crate::driver::types::{ScannerError, ScannerModel};

verus! {

/// Host hook: switch the underlying UART's baud rate.
pub trait BaudSwitch {
    /// Reconfigures the host UART; `false` aborts the multi-baud ladder.
    fn set_baud(&mut self, baud: u32) -> bool;
}

/// Switch for hosts with a fixed UART: every request is refused, so the
/// ladder stops after the first initialization attempt.
pub struct NoBaudSwitch;

impl BaudSwitch for NoBaudSwitch {
    fn set_baud(&mut self, baud: u32) -> (ok: bool)
        ensures
            !ok,
    {
        false
    }
}

/// The factory-default baud rate of the module.
pub const FACTORY_BAUD: u32 = 9600;

/// The operating baud rate.
pub const OPERATING_BAUD: u32 = 115200;

/// Where the ladder stands.
#[derive(Debug, Clone, Copy, PartialEq, Eq)]
pub enum LadderStep {
    /// Initializing at the current baud.
    OperatingInit,
    /// Switching the host to the factory baud.
    FactorySwitch,
    /// Initializing at the factory baud.
    FactoryInit,
    /// Commanding the module to the operating baud.
    RaiseModule,
    /// Switching the host to the operating baud.
    RaiseHost,
    /// The final initialization at the operating baud.
    FinalInit,
    /// Nothing answered at the factory baud: putting the host back at the
    /// operating baud before reporting the error.
    RestoreHost(ScannerError),
    /// Finished with this result.
    Done(Result<ScannerModel, ScannerError>),
}

/// What the firmware should do next.
#[derive(Debug, Clone, Copy, PartialEq, Eq)]
pub enum LadderAction {
    /// Build a fresh driver with the default configuration over the UART
    /// and initialize it.
    Init,
    /// Switch the host UART to this baud rate.
    SwitchHost(u32),
    /// Command the module to the operating baud rate.
    CommandModuleBaud,
    /// Stop with this result.
    Finish(Result<ScannerModel, ScannerError>),
}

/// What happened when the firmware performed an action.
#[derive(Debug, Clone, Copy, PartialEq, Eq)]
pub enum LadderEvent {
    /// An initialization ended with this result.
    Initialized(Result<ScannerModel, ScannerError>),
    /// A host baud switch succeeded (`true`) or failed.
    Switched(bool),
    /// The module baud command was sent (its answer does not matter).
    Commanded,
}

/// The action that a step is waiting on.
pub open spec fn pending_action(step: LadderStep) -> LadderAction {
    match step {
        LadderStep::OperatingInit => LadderAction::Init,
        LadderStep::FactorySwitch => LadderAction::SwitchHost(FACTORY_BAUD),
        LadderStep::FactoryInit => LadderAction::Init,
        LadderStep::RaiseModule => LadderAction::CommandModuleBaud,
        LadderStep::RaiseHost => LadderAction::SwitchHost(OPERATING_BAUD),
        LadderStep::FinalInit => LadderAction::Init,
        LadderStep::RestoreHost(_) => LadderAction::SwitchHost(OPERATING_BAUD),
        LadderStep::Done(r) => LadderAction::Finish(r),
    }
}

/// The step after `ev` arrives at `step`. An event that does not answer
/// the pending action leaves the step as it is.
pub open spec fn ladder_next(step: LadderStep, ev: LadderEvent) -> LadderStep {
    match (step, ev) {
        (LadderStep::OperatingInit, LadderEvent::Initialized(r)) => match r {
            Ok(m) => LadderStep::Done(Ok(m)),
            Err(ScannerError::NotDetected) => LadderStep::FactorySwitch,
            Err(e) => LadderStep::Done(Err(e)),
        },
        (LadderStep::FactorySwitch, LadderEvent::Switched(ok)) => if ok {
            LadderStep::FactoryInit
        } else {
            LadderStep::Done(Err(ScannerError::UartError))
        },
        (LadderStep::FactoryInit, LadderEvent::Initialized(r)) => match r {
            Ok(_) => LadderStep::RaiseModule,
            Err(e) => LadderStep::RestoreHost(e),
        },
        (LadderStep::RaiseModule, LadderEvent::Commanded) => LadderStep::RaiseHost,
        (LadderStep::RaiseHost, LadderEvent::Switched(ok)) => if ok {
            LadderStep::FinalInit
        } else {
            LadderStep::Done(Err(ScannerError::UartError))
        },
        (LadderStep::FinalInit, LadderEvent::Initialized(r)) => LadderStep::Done(r),
        (LadderStep::RestoreHost(e), LadderEvent::Switched(_)) => LadderStep::Done(Err(e)),
        _ => step,
    }
}

/// True when `ev` answers the action that `step` waits on.
pub open spec fn answers(step: LadderStep, ev: LadderEvent) -> bool {
    match (pending_action(step), ev) {
        (LadderAction::Init, LadderEvent::Initialized(_)) => true,
        (LadderAction::SwitchHost(_), LadderEvent::Switched(_)) => true,
        (LadderAction::CommandModuleBaud, LadderEvent::Commanded) => true,
        _ => false,
    }
}

/// How many answered events at most remain before the ladder is done.
pub open spec fn ladder_rank(step: LadderStep) -> nat {
    match step {
        LadderStep::OperatingInit => 6,
        LadderStep::FactorySwitch => 5,
        LadderStep::FactoryInit => 4,
        LadderStep::RaiseModule => 3,
        LadderStep::RaiseHost => 2,
        LadderStep::FinalInit => 1,
        LadderStep::RestoreHost(_) => 1,
        LadderStep::Done(_) => 0,
    }
}

/// The decisions of the multi-baud initialization ladder.
pub struct BaudLadder {
    step: LadderStep,
}

impl View for BaudLadder {
    type V = LadderStep;

    closed spec fn view(&self) -> LadderStep {
        self.step
    }
}

impl BaudLadder {
    /// A ladder that starts by initializing at the current baud.
    pub fn new() -> (r: (BaudLadder, LadderAction))
        ensures
            r.0@ == LadderStep::OperatingInit,
            r.1 == LadderAction::Init,
    {
        (BaudLadder { step: LadderStep::OperatingInit }, LadderAction::Init)
    }

    /// The current step.
    pub fn step(&self) -> (s: LadderStep)
        ensures
            s == self@,
    {
        self.step
    }

    /// Takes the outcome of the pending action and returns the next action.
    pub fn advance(&mut self, ev: LadderEvent) -> (a: LadderAction)
        ensures
            final(self)@ == ladder_next(old(self)@, ev),
            a == pending_action(final(self)@),
    {
        let next = match (self.step, ev) {
            (LadderStep::OperatingInit, LadderEvent::Initialized(r)) => match r {
                Ok(m) => LadderStep::Done(Ok(m)),
                Err(ScannerError::NotDetected) => LadderStep::FactorySwitch,
                Err(e) => LadderStep::Done(Err(e)),
            },
            (LadderStep::FactorySwitch, LadderEvent::Switched(ok)) => if ok {
                LadderStep::FactoryInit
            } else {
                LadderStep::Done(Err(ScannerError::UartError))
            },
            (LadderStep::FactoryInit, LadderEvent::Initialized(r)) => match r {
                Ok(_) => LadderStep::RaiseModule,
                Err(e) => LadderStep::RestoreHost(e),
            },
            (LadderStep::RaiseModule, LadderEvent::Commanded) => LadderStep::RaiseHost,
            (LadderStep::RaiseHost, LadderEvent::Switched(ok)) => if ok {
                LadderStep::FinalInit
            } else {
                LadderStep::Done(Err(ScannerError::UartError))
            },
            (LadderStep::FinalInit, LadderEvent::Initialized(r)) => LadderStep::Done(r),
            (LadderStep::RestoreHost(e), LadderEvent::Switched(_)) => LadderStep::Done(Err(e)),
            (s, _) => s,
        };
        self.step = next;
        match next {
            LadderStep::OperatingInit => LadderAction::Init,
            LadderStep::FactorySwitch => LadderAction::SwitchHost(FACTORY_BAUD),
            LadderStep::FactoryInit => LadderAction::Init,
            LadderStep::RaiseModule => LadderAction::CommandModuleBaud,
            LadderStep::RaiseHost => LadderAction::SwitchHost(OPERATING_BAUD),
            LadderStep::FinalInit => LadderAction::Init,
            LadderStep::RestoreHost(_) => LadderAction::SwitchHost(OPERATING_BAUD),
            LadderStep::Done(r) => LadderAction::Finish(r),
        }
    }
}

/// Every answered event brings the ladder closer to its end: it finishes
/// after at most six answered events.
pub proof fn lemma_ladder_progress(step: LadderStep, ev: LadderEvent)
    requires
        !(step is Done),
        answers(step, ev),
    ensures
        ladder_rank(ladder_next(step, ev)) < ladder_rank(step),
{
}

/// The ladder only succeeds through an initialization that succeeded, and
/// a success at the factory baud is always followed by the move to the
/// operating baud and a final initialization there.
pub proof fn lemma_ladder_success(step: LadderStep, ev: LadderEvent)
    requires
        !(step is Done),
        ladder_next(step, ev) matches LadderStep::Done(Ok(m)),
    ensures
        step == LadderStep::OperatingInit || step == LadderStep::FinalInit,
        ev == LadderEvent::Initialized(ladder_next(step, ev)->Done_0),
{
}

/// A module that is not found at the factory baud leaves the host at the
/// operating baud before the error is reported.
pub proof fn lemma_ladder_restores_host(e: ScannerError)
    ensures
        ladder_next(LadderStep::FactoryInit, LadderEvent::Initialized(Err(e)))
            == LadderStep::RestoreHost(e),
        pending_action(LadderStep::RestoreHost(e)) == LadderAction::SwitchHost(OPERATING_BAUD),
        forall|ok: bool|
            #[trigger] ladder_next(LadderStep::RestoreHost(e), LadderEvent::Switched(ok))
                == LadderStep::Done(Err::<ScannerModel, ScannerError>(e)),
{
}

} // verus!
