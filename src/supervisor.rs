//! The supervisor of the task set: loads the configuration, runs the tasks,
//! and handles termination, reload and retry after a failure.
use vstd::prelude::*;

use crate::shutdown::{signal_step, ShutdownSignal, SignalOp, SignalState};

verus! {

/// How long the supervisor waits, in seconds, before it runs a failed task
/// set again.
pub const RETRY_COOLDOWN_SECS: u64 = 10;

/// Where the supervisor stands.
#[derive(Debug, Clone, Copy, PartialEq, Eq, Structural)]
pub enum Phase {
    Loading,
    Running,
    RetryCooldown,
    ReloadPending,
    ShuttingDown,
    Terminated,
}

/// What happened outside the supervisor.
#[derive(Debug, Clone, Copy, PartialEq, Eq, Structural)]
pub enum Event {
    /// The configuration was read and parsed.
    ConfigLoaded,
    /// The configuration could not be read or parsed.
    ConfigFailed,
    /// The process was asked to terminate.
    TerminationRequested,
    /// The process was asked to reload its configuration.
    ReloadRequested,
    /// The task set as a whole ended with an error.
    TasksFailed,
    /// The retry delay has passed.
    CooldownElapsed,
    /// The ticks in flight may have finished.
    TasksDrained,
    /// Listening for termination or reload failed.
    SignalFailed,
}

/// What the supervisor asks to be done next.
#[derive(Debug, Clone, Copy, PartialEq, Eq, Structural)]
pub enum Command {
    /// Read and parse the configuration.
    ReadConfig,
    /// Start the tasks of the loaded configuration.
    StartTasks,
    /// The signal is triggered: wait for the ticks in flight to finish.
    AwaitDrain,
    /// Wait this many seconds.
    Wait(u64),
    /// End the process.
    Exit,
    /// Nothing: keep waiting for events.
    Idle,
}

/// The value of a [`Supervisor`].
pub struct SupervisorState {
    pub phase: Phase,
    pub generation: nat,
    pub signal: SignalState,
}

pub open spec fn armed() -> SignalState {
    SignalState { triggered: false, in_flight: 0 }
}

/// Trigger the signal and move to `phase`, asking to wait for the drain.
pub open spec fn stop_to(s: SupervisorState, phase: Phase) -> (SupervisorState, Command) {
    (
        SupervisorState { phase, signal: signal_step(s.signal, SignalOp::Trigger).0, ..s },
        Command::AwaitDrain,
    )
}

/// The supervisor's transition on an event.
pub open spec fn transition(s: SupervisorState, e: Event) -> (SupervisorState, Command) {
    let drained = s.signal.triggered && s.signal.in_flight == 0;
    match (s.phase, e) {
        (Phase::Terminated, _) => (s, Command::Exit),
        (_, Event::SignalFailed) => (SupervisorState { phase: Phase::Terminated, ..s }, Command::Exit),
        (Phase::Loading, Event::ConfigLoaded) => (
            SupervisorState { phase: Phase::Running, ..s },
            Command::StartTasks,
        ),
        (Phase::Loading, Event::ConfigFailed) => (
            SupervisorState { phase: Phase::Terminated, ..s },
            Command::Exit,
        ),
        (Phase::Running, Event::TerminationRequested) => stop_to(s, Phase::ShuttingDown),
        (Phase::RetryCooldown, Event::TerminationRequested) => stop_to(s, Phase::ShuttingDown),
        (Phase::Running, Event::ReloadRequested) => stop_to(s, Phase::ReloadPending),
        (Phase::RetryCooldown, Event::ReloadRequested) => stop_to(s, Phase::ReloadPending),
        (Phase::Running, Event::TasksFailed) => (
            SupervisorState { phase: Phase::RetryCooldown, ..s },
            Command::Wait(RETRY_COOLDOWN_SECS),
        ),
        (Phase::RetryCooldown, Event::CooldownElapsed) => (
            SupervisorState { phase: Phase::Running, ..s },
            Command::StartTasks,
        ),
        (Phase::ShuttingDown, Event::TasksDrained) => if drained {
            (SupervisorState { phase: Phase::Terminated, ..s }, Command::Exit)
        } else {
            (s, Command::AwaitDrain)
        },
        (Phase::ReloadPending, Event::TasksDrained) => if !drained {
            (s, Command::AwaitDrain)
        } else if s.generation < u64::MAX {
            (
                SupervisorState {
                    phase: Phase::Loading,
                    generation: s.generation + 1,
                    signal: armed(),
                },
                Command::ReadConfig,
            )
        } else {
            (SupervisorState { phase: Phase::Terminated, ..s }, Command::Exit)
        },
        _ => (s, Command::Idle),
    }
}

/// Whether a task of configuration `generation` may begin a tick, and the
/// state after it asks.
pub open spec fn begin_step(s: SupervisorState, generation: nat) -> (SupervisorState, bool) {
    if s.phase == Phase::Running && generation == s.generation {
        let (sig, ok) = signal_step(s.signal, SignalOp::Begin);
        (SupervisorState { signal: sig, ..s }, ok)
    } else {
        (s, false)
    }
}

/// An input to the supervisor: an event, a task of a configuration that asks
/// to begin a tick, or a task that ends its tick.
pub enum Input {
    Event(Event),
    Begin(nat),
    End,
}

pub open spec fn input_step(s: SupervisorState, i: Input) -> (SupervisorState, bool) {
    match i {
        Input::Event(e) => (transition(s, e).0, false),
        Input::Begin(g) => begin_step(s, g),
        Input::End => (SupervisorState { signal: signal_step(s.signal, SignalOp::End).0, ..s }, false),
    }
}

pub open spec fn supervisor_run(s: SupervisorState, inputs: Seq<Input>) -> SupervisorState
    decreases inputs.len(),
{
    if inputs.len() == 0 {
        s
    } else {
        input_step(supervisor_run(s, inputs.drop_last()), inputs.last()).0
    }
}

/// Whether some input of a run lets a task of configuration `g` begin a tick.
pub open spec fn admits_generation(s: SupervisorState, inputs: Seq<Input>, g: nat) -> bool
    decreases inputs.len(),
{
    if inputs.len() == 0 {
        false
    } else {
        admits_generation(s, inputs.drop_last(), g) || (inputs.last() == Input::Begin(g)
            && input_step(supervisor_run(s, inputs.drop_last()), inputs.last()).1)
    }
}

/// The supervisor: its phase, the generation of the loaded configuration,
/// and the shutdown signal of the running task set.
#[derive(Debug)]
pub struct Supervisor {
    phase: Phase,
    generation: u64,
    signal: ShutdownSignal,
}

impl View for Supervisor {
    type V = SupervisorState;

    closed spec fn view(&self) -> SupervisorState {
        SupervisorState { phase: self.phase, generation: self.generation as nat, signal: self.signal@ }
    }
}

impl Supervisor {
    /// A supervisor about to load its first configuration.
    pub fn new() -> (r: (Supervisor, Command))
        ensures
            r.0@ == (SupervisorState { phase: Phase::Loading, generation: 0, signal: armed() }),
            r.1 == Command::ReadConfig,
    {
        (Supervisor { phase: Phase::Loading, generation: 0, signal: ShutdownSignal::new() }, Command::ReadConfig)
    }

    pub fn phase(&self) -> (r: Phase)
        ensures
            r == self@.phase,
    {
        self.phase
    }

    /// The generation of the loaded configuration; each reload adds one.
    pub fn generation(&self) -> (r: u64)
        ensures
            r == self@.generation,
    {
        self.generation
    }

    /// Whether the running task set was told to stop.
    pub fn is_triggered(&self) -> (r: bool)
        ensures
            r == self@.signal.triggered,
    {
        self.signal.is_triggered()
    }

    /// Whether the running task set was told to stop and no tick is in flight.
    pub fn drained(&self) -> (r: bool)
        ensures
            r == (self@.signal.triggered && self@.signal.in_flight == 0),
    {
        self.signal.drained()
    }

    fn stop(&mut self, phase: Phase) -> (c: Command)
        ensures
            (final(self)@, c) == stop_to(old(self)@, phase),
    {
        self.signal.trigger();
        self.phase = phase;
        Command::AwaitDrain
    }

    /// Handles an event and says what to do next.
    pub fn handle(&mut self, e: Event) -> (c: Command)
        ensures
            (final(self)@, c) == transition(old(self)@, e),
    {
        let drained = self.signal.drained();
        match (self.phase, e) {
            (Phase::Terminated, _) => Command::Exit,
            (_, Event::SignalFailed) => {
                self.phase = Phase::Terminated;
                Command::Exit
            },
            (Phase::Loading, Event::ConfigLoaded) => {
                self.phase = Phase::Running;
                Command::StartTasks
            },
            (Phase::Loading, Event::ConfigFailed) => {
                self.phase = Phase::Terminated;
                Command::Exit
            },
            (Phase::Running, Event::TerminationRequested) => self.stop(Phase::ShuttingDown),
            (Phase::RetryCooldown, Event::TerminationRequested) => self.stop(Phase::ShuttingDown),
            (Phase::Running, Event::ReloadRequested) => self.stop(Phase::ReloadPending),
            (Phase::RetryCooldown, Event::ReloadRequested) => self.stop(Phase::ReloadPending),
            (Phase::Running, Event::TasksFailed) => {
                self.phase = Phase::RetryCooldown;
                Command::Wait(RETRY_COOLDOWN_SECS)
            },
            (Phase::RetryCooldown, Event::CooldownElapsed) => {
                self.phase = Phase::Running;
                Command::StartTasks
            },
            (Phase::ShuttingDown, Event::TasksDrained) => {
                if drained {
                    self.phase = Phase::Terminated;
                    Command::Exit
                } else {
                    Command::AwaitDrain
                }
            },
            (Phase::ReloadPending, Event::TasksDrained) => {
                if !drained {
                    Command::AwaitDrain
                } else if self.generation < u64::MAX {
                    self.phase = Phase::Loading;
                    self.generation = self.generation + 1;
                    self.signal = ShutdownSignal::new();
                    Command::ReadConfig
                } else {
                    self.phase = Phase::Terminated;
                    Command::Exit
                }
            },
            _ => Command::Idle,
        }
    }

    /// A task of configuration `generation` asks to begin a tick: only the
    /// tasks of the running configuration may, and only until the signal is
    /// triggered.
    pub fn begin_tick(&mut self, generation: u64) -> (r: bool)
        ensures
            (final(self)@, r) == begin_step(old(self)@, generation as nat),
    {
        if self.phase == Phase::Running && generation == self.generation {
            self.signal.begin_tick()
        } else {
            false
        }
    }

    /// A task has finished a tick that it was let begin.
    pub fn end_tick(&mut self)
        ensures
            final(self)@ == input_step(old(self)@, Input::End).0,
    {
        self.signal.end_tick();
    }
}

proof fn lemma_generation_grows(s: SupervisorState, inputs: Seq<Input>)
    ensures
        supervisor_run(s, inputs).generation >= s.generation,
    decreases inputs.len(),
{
    if inputs.len() > 0 {
        lemma_generation_grows(s, inputs.drop_last());
    }
}

/// Reload: the tasks of a configuration older than the loaded one never
/// begin a tick again, whatever inputs follow.
pub proof fn lemma_old_tasks_never_tick(s: SupervisorState, inputs: Seq<Input>, g: nat)
    requires
        g < s.generation,
    ensures
        !admits_generation(s, inputs, g),
    decreases inputs.len(),
{
    if inputs.len() > 0 {
        lemma_old_tasks_never_tick(s, inputs.drop_last(), g);
        lemma_generation_grows(s, inputs.drop_last());
    }
}

/// A completed reload loads a configuration of the next generation, with a
/// fresh, armed signal for its tasks, so that every task of the previous one
/// is retired while those of the new one may tick.
pub proof fn lemma_reload_retires_previous(s: SupervisorState, inputs: Seq<Input>)
    requires
        s.phase == Phase::ReloadPending,
        s.signal.triggered,
        s.signal.in_flight == 0,
        s.generation < u64::MAX,
    ensures
        transition(s, Event::TasksDrained).0.phase == Phase::Loading,
        transition(s, Event::TasksDrained).0.generation == s.generation + 1,
        transition(s, Event::TasksDrained).0.signal == armed(),
        !admits_generation(transition(s, Event::TasksDrained).0, inputs, s.generation),
{
    lemma_old_tasks_never_tick(transition(s, Event::TasksDrained).0, inputs, s.generation);
}

/// Shutdown waits for the ticks in flight: while any is in flight, no event
/// ends the process, but a failure to listen for signals, which is fatal.
pub proof fn lemma_no_exit_with_ticks_in_flight(s: SupervisorState, e: Event)
    requires
        s.phase != Phase::Terminated,
        s.signal.in_flight > 0,
        e != Event::SignalFailed,
    ensures
        transition(s, e).0.phase != Phase::Terminated || (s.phase == Phase::Loading && e
            == Event::ConfigFailed),
        transition(s, e).1 != Command::Exit || (s.phase == Phase::Loading && e == Event::ConfigFailed),
        transition(s, e).0.signal.in_flight == s.signal.in_flight,
{
}

} // verus!
