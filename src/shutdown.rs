//! The shutdown signal: armed until triggered once, and a count of the ticks
//! in flight, so that the one who triggers it can wait for them to finish.
use vstd::prelude::*;

verus! {

/// The value of a [`ShutdownSignal`].
pub struct SignalState {
    pub triggered: bool,
    pub in_flight: nat,
}

/// An operation on the signal.
pub enum SignalOp {
    /// A task asks to begin a tick.
    Begin,
    /// A task has finished a tick.
    End,
    /// Shutdown is requested.
    Trigger,
}

/// The state after `op`, and whether a tick that asked to begin may.
pub open spec fn signal_step(s: SignalState, op: SignalOp) -> (SignalState, bool) {
    match op {
        SignalOp::Begin => if !s.triggered && s.in_flight < u64::MAX {
            (SignalState { in_flight: s.in_flight + 1, ..s }, true)
        } else {
            (s, false)
        },
        SignalOp::End => if s.in_flight > 0 {
            (SignalState { in_flight: (s.in_flight - 1) as nat, ..s }, false)
        } else {
            (s, false)
        },
        SignalOp::Trigger => (SignalState { triggered: true, ..s }, false),
    }
}

/// The state after a run of operations.
pub open spec fn signal_run(s: SignalState, ops: Seq<SignalOp>) -> SignalState
    decreases ops.len(),
{
    if ops.len() == 0 {
        s
    } else {
        signal_step(signal_run(s, ops.drop_last()), ops.last()).0
    }
}

/// How many ticks a run of operations lets begin.
pub open spec fn signal_admitted(s: SignalState, ops: Seq<SignalOp>) -> nat
    decreases ops.len(),
{
    if ops.len() == 0 {
        0
    } else {
        signal_admitted(s, ops.drop_last()) + if signal_step(
            signal_run(s, ops.drop_last()),
            ops.last(),
        ).1 {
            1nat
        } else {
            0nat
        }
    }
}

/// A broadcast-once shutdown signal with a count of ticks in flight.
#[derive(Debug)]
pub struct ShutdownSignal {
    triggered: bool,
    in_flight: u64,
}

impl View for ShutdownSignal {
    type V = SignalState;

    closed spec fn view(&self) -> SignalState {
        SignalState { triggered: self.triggered, in_flight: self.in_flight as nat }
    }
}

impl ShutdownSignal {
    /// An armed signal with no tick in flight.
    pub fn new() -> (r: ShutdownSignal)
        ensures
            r@ == (SignalState { triggered: false, in_flight: 0 }),
    {
        ShutdownSignal { triggered: false, in_flight: 0 }
    }

    /// Whether shutdown was requested.
    pub fn is_triggered(&self) -> (r: bool)
        ensures
            r == self@.triggered,
    {
        self.triggered
    }

    /// How many ticks are in flight.
    pub fn in_flight(&self) -> (r: u64)
        ensures
            r == self@.in_flight,
    {
        self.in_flight
    }

    /// A task asks to begin a tick: refused once the signal is triggered.
    pub fn begin_tick(&mut self) -> (r: bool)
        ensures
            (final(self)@, r) == signal_step(old(self)@, SignalOp::Begin),
            old(self)@.triggered ==> !r && final(self)@ == old(self)@,
    {
        if !self.triggered && self.in_flight < u64::MAX {
            self.in_flight = self.in_flight + 1;
            true
        } else {
            false
        }
    }

    /// A task has finished a tick that it was let begin.
    pub fn end_tick(&mut self)
        ensures
            final(self)@ == signal_step(old(self)@, SignalOp::End).0,
    {
        if self.in_flight > 0 {
            self.in_flight = self.in_flight - 1;
        }
    }

    /// Requests shutdown; triggering again changes nothing.
    pub fn trigger(&mut self)
        ensures
            final(self)@ == signal_step(old(self)@, SignalOp::Trigger).0,
            final(self)@.triggered,
            final(self)@.in_flight == old(self)@.in_flight,
    {
        self.triggered = true;
    }

    /// Whether the one who triggered the signal may stop waiting: it is
    /// triggered and no tick is in flight.
    pub fn drained(&self) -> (r: bool)
        ensures
            r == (self@.triggered && self@.in_flight == 0),
    {
        self.triggered && self.in_flight == 0
    }
}

/// Once triggered, the signal stays triggered and lets no tick begin,
/// whatever operations follow; the ticks in flight only decrease.
pub proof fn lemma_no_tick_after_trigger(s: SignalState, ops: Seq<SignalOp>)
    requires
        s.triggered,
    ensures
        signal_run(s, ops).triggered,
        signal_admitted(s, ops) == 0,
        signal_run(s, ops).in_flight <= s.in_flight,
    decreases ops.len(),
{
    if ops.len() > 0 {
        lemma_no_tick_after_trigger(s, ops.drop_last());
    }
}

} // verus!
