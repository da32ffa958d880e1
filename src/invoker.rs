//! The protocol that drives the engine: take the exclusive lock once, run
//! attempts with a bounded wait each, clean up and retry after a failure
//! while attempts remain, and finish, releasing the lock, on the first
//! success or when the attempts are used up.
//!
//! The caller performs each action (locking, running the engine, killing
//! stray engine processes and waiting, releasing) and reports what happened
//! as the next event.

use vstd::prelude::*;
use crate::voicepeak::{command_line, RequestView, VoicepeakCommand};

verus! {

/// Attempts made for one request before giving up.
pub const DEFAULT_MAX_ATTEMPTS: usize = 10;

/// Seconds that one attempt may run before it is killed.
pub const ATTEMPT_TIMEOUT_SECS: u64 = 15;

/// Seconds waited between a failed attempt and the next.
pub const RETRY_DELAY_SECS: u64 = 5;

/// Why one attempt failed.
#[derive(Clone, Copy, Debug, PartialEq, Eq, Structural)]
pub enum AttemptError {
    /// The engine process could not be started.
    SpawnFailed,
    /// The engine exited with a failure status.
    ExitFailure,
    /// The engine did not finish in time and was killed.
    TimedOut,
}

/// Why an invocation failed.
#[derive(Clone, Copy, Debug, PartialEq, Eq, Structural)]
pub enum InvokeError {
    /// The lock file could not be created or locked.
    LockFailed,
    /// No attempt was allowed.
    NoAttempts,
    /// Every attempt failed; `last` is why the last one did.
    Exhausted { attempts: usize, last: AttemptError },
}

/// Where an invocation stands.
#[derive(Clone, Copy, Debug, PartialEq, Eq, Structural)]
pub enum Phase {
    /// The lock is to be taken.
    AwaitingLock,
    /// The lock is held and attempt number `attempt` (from 1) is running.
    Running { attempt: usize },
    /// Done; the lock, if it was taken, is released.
    Finished,
}

/// What the caller saw after performing the last action.
#[derive(Clone, Copy, Debug, PartialEq, Eq, Structural)]
pub enum Event {
    LockAcquired,
    LockFailed,
    AttemptSucceeded,
    AttemptFailed(AttemptError),
}

/// What the caller is to do next.
#[derive(Clone, Copy, Debug, PartialEq, Eq, Structural)]
pub enum Action {
    /// Run the engine once, bounded by the attempt timeout.
    RunAttempt { attempt: usize },
    /// Kill stray engine processes, wait the retry delay, then run the
    /// engine once more.
    RetryAfterCleanup { attempt: usize },
    /// Release the lock; the request was synthesized.
    Succeed,
    /// Release the lock if held; the request failed.
    Fail(InvokeError),
}

/// Whether `event` can follow in `phase`.
pub open spec fn accepts(phase: Phase, event: Event) -> bool {
    match phase {
        Phase::AwaitingLock => event is LockAcquired || event is LockFailed,
        Phase::Running { .. } => event is AttemptSucceeded || event is AttemptFailed,
        Phase::Finished => false,
    }
}

/// One transition: the next phase and the action that goes with it.
pub open spec fn next(phase: Phase, event: Event, max_attempts: usize) -> (Phase, Action) {
    match (phase, event) {
        (Phase::AwaitingLock, Event::LockAcquired) => if max_attempts == 0 {
            (Phase::Finished, Action::Fail(InvokeError::NoAttempts))
        } else {
            (Phase::Running { attempt: 1 }, Action::RunAttempt { attempt: 1 })
        },
        (Phase::Running { .. }, Event::AttemptSucceeded) => (Phase::Finished, Action::Succeed),
        (Phase::Running { attempt }, Event::AttemptFailed(e)) => if attempt < max_attempts {
            (
                Phase::Running { attempt: (attempt + 1) as usize },
                Action::RetryAfterCleanup { attempt: (attempt + 1) as usize },
            )
        } else {
            (Phase::Finished, Action::Fail(InvokeError::Exhausted { attempts: attempt, last: e }))
        },
        _ => (Phase::Finished, Action::Fail(InvokeError::LockFailed)),
    }
}

/// The lock is held exactly while an attempt is under way.
pub open spec fn holds_lock(phase: Phase) -> bool {
    phase is Running
}

/// Whether `action` runs the engine.
pub open spec fn runs_engine(action: Action) -> bool {
    action is RunAttempt || action is RetryAfterCleanup
}

/// The number of engine runs among `actions`.
pub open spec fn attempts_made(actions: Seq<Action>) -> nat {
    actions.filter(|a: Action| runs_engine(a)).len()
}

/// Feeds `events` from `phase` while they are accepted: the phases reached
/// and the actions issued, step by step.
pub open spec fn run(phase: Phase, events: Seq<Event>, max_attempts: usize) -> (
    Seq<Phase>,
    Seq<Action>,
)
    decreases events.len(),
{
    if events.len() == 0 || !accepts(phase, events[0]) {
        (Seq::empty(), Seq::empty())
    } else {
        let (p, a) = next(phase, events[0], max_attempts);
        let (ps, acts) = run(p, events.drop_first(), max_attempts);
        (seq![p] + ps, seq![a] + acts)
    }
}

/// An invocation as a value: the request, whether the engine's output is
/// shown, the attempt budget, and where it stands.
pub struct InvocationView {
    pub request: RequestView,
    pub verbose: bool,
    pub max_attempts: usize,
    pub phase: Phase,
}

impl InvocationView {
    /// The attempt under way is within the budget.
    pub open spec fn well_formed(self) -> bool {
        match self.phase {
            Phase::Running { attempt } => 1 <= attempt <= self.max_attempts,
            _ => true,
        }
    }
}

/// One execution of a request, driven by its caller event by event.
pub struct Invocation {
    command: VoicepeakCommand,
    verbose: bool,
    max_attempts: usize,
    phase: Phase,
}

impl View for Invocation {
    type V = InvocationView;

    closed spec fn view(&self) -> InvocationView {
        InvocationView {
            request: self.command@,
            verbose: self.verbose,
            max_attempts: self.max_attempts,
            phase: self.phase,
        }
    }
}

impl Invocation {
    /// A new invocation of `command` with `max_attempts` attempts, about to
    /// take the lock.
    pub fn new(command: VoicepeakCommand, verbose: bool, max_attempts: usize) -> (r: Self)
        ensures
            r@ == (InvocationView {
                request: command@,
                verbose,
                max_attempts,
                phase: Phase::AwaitingLock,
            }),
            r@.well_formed(),
    {
        Invocation { command, verbose, max_attempts, phase: Phase::AwaitingLock }
    }

    /// Where the invocation stands.
    pub fn phase(&self) -> (r: Phase)
        ensures
            r == self@.phase,
    {
        self.phase
    }

    /// Whether the engine's own output is to be shown.
    pub fn is_verbose(&self) -> (r: bool)
        ensures
            r == self@.verbose,
    {
        self.verbose
    }

    /// The attempt budget.
    pub fn max_attempts(&self) -> (r: usize)
        ensures
            r == self@.max_attempts,
    {
        self.max_attempts
    }

    /// The engine's arguments for the request.
    pub fn arguments(&self) -> (r: Vec<String>)
        ensures
            r.deep_view() == command_line(self@.request),
    {
        self.command.build_args()
    }

    /// Whether `event` can be reported now.
    pub fn accepts(&self, event: Event) -> (r: bool)
        ensures
            r == accepts(self@.phase, event),
    {
        match self.phase {
            Phase::AwaitingLock => matches!(event, Event::LockAcquired | Event::LockFailed),
            Phase::Running { .. } => matches!(
                event,
                Event::AttemptSucceeded | Event::AttemptFailed(_)
            ),
            Phase::Finished => false,
        }
    }

    /// Takes the outcome of the last action and returns the next one.
    pub fn step(&mut self, event: Event) -> (a: Action)
        requires
            old(self)@.well_formed(),
            accepts(old(self)@.phase, event),
        ensures
            final(self)@.well_formed(),
            (final(self)@.phase, a) == next(old(self)@.phase, event, old(self)@.max_attempts),
            final(self)@.request == old(self)@.request,
            final(self)@.verbose == old(self)@.verbose,
            final(self)@.max_attempts == old(self)@.max_attempts,
    {
        let (phase, action) = match (self.phase, event) {
            (Phase::AwaitingLock, Event::LockAcquired) => if self.max_attempts == 0 {
                (Phase::Finished, Action::Fail(InvokeError::NoAttempts))
            } else {
                (Phase::Running { attempt: 1 }, Action::RunAttempt { attempt: 1 })
            },
            (Phase::Running { .. }, Event::AttemptSucceeded) => (Phase::Finished, Action::Succeed),
            (Phase::Running { attempt }, Event::AttemptFailed(e)) => if attempt
                < self.max_attempts {
                (
                    Phase::Running { attempt: attempt + 1 },
                    Action::RetryAfterCleanup { attempt: attempt + 1 },
                )
            } else {
                (
                    Phase::Finished,
                    Action::Fail(InvokeError::Exhausted { attempts: attempt, last: e }),
                )
            },
            _ => (Phase::Finished, Action::Fail(InvokeError::LockFailed)),
        };
        self.phase = phase;
        action
    }
}

} // verus!
