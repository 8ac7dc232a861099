//! Starts all processes in the order of their declaration, waits for a
//! shutdown trigger, and stops them in reverse order.
//!
//! The supervisor is a state machine. It hands out one [`Action`] at a time;
//! the caller carries it out and answers with the [`Event`] that came of it.
//!
//! Once all processes have started, the supervisor waits for the first
//! shutdown reason, also where no daemon runs: with one-shots only, and with
//! no process at all, it is a reason from outside that ends the wait. Only
//! the failure of a daemon makes the result an error; a start that fails
//! does so too, and then the wait is left out.

use vstd::prelude::*;

use crate::config::process::ProcessConfig;
use crate::config::Config;
use crate::process::{
    continue_start, continue_stop, spec_continue_start, spec_continue_stop, spec_handle,
    spec_start_process, spec_stop_process, start_process, stop_process, ProcessHandle, Reply,
    Request, StartStep, Starting, StopStep, Stopping,
};
use crate::{Error, ShutdownReason, StopProcessError};

verus! {

/// What the supervisor is doing.
#[derive(Copy, Clone, Debug, PartialEq, Eq, Structural)]
pub enum Phase {
    /// The process at the cursor is starting.
    Starting(Starting),
    /// All processes have started; the shutdown trigger is awaited.
    Supervising,
    /// The process at the cursor is stopping.
    Stopping(Stopping),
    /// Nothing runs any more.
    Done,
}

/// What the caller has to do next.
#[derive(Copy, Clone, Debug, PartialEq, Eq, Structural)]
pub enum Action {
    /// Carry out the request for the process at this place in the
    /// configuration, and answer with `Event::Reply`.
    Process(usize, Request),
    /// Wait for the first shutdown reason, and answer with
    /// `Event::Shutdown`.
    AwaitShutdown,
    /// Return the supervisor's result; nothing is left to do.
    Finish,
}

/// What came of an action.
#[derive(Clone, Debug, PartialEq, Eq)]
pub enum Event {
    /// The reply to a process's request.
    Reply(Reply),
    /// The first reason that arrived at the shutdown trigger.
    Shutdown(ShutdownReason),
}

/// Where the supervisor stands.
#[derive(Copy, Clone, Debug, PartialEq, Eq, Structural)]
pub struct Position {
    pub phase: Phase,
    /// While starting: the process that is starting; all before it have
    /// started. While stopping: the process that is stopping; all before it
    /// are still to be stopped.
    pub cursor: usize,
}

/// The state of the supervisor.
pub struct EngineState {
    pub at: Position,
    /// The result as it stands.
    pub result: Result<(), Error>,
    /// The process whose stop ended with the last event, and the error it
    /// ended with, if it ended with one.
    pub last_stop: Option<(usize, StopProcessError)>,
}

/// The state before anything has happened.
pub open spec fn spec_blank() -> EngineState {
    EngineState {
        at: Position { phase: Phase::Supervising, cursor: 0 },
        result: Ok(()),
        last_stop: None,
    }
}

/// The result that a shutdown reason stands for: only a failed daemon makes
/// the shutdown abnormal.
pub open spec fn spec_classify(reason: ShutdownReason) -> Result<(), Error> {
    if reason == ShutdownReason::DaemonFailed {
        Err(Error::AbnormalShutdown)
    } else {
        Ok(())
    }
}

/// Starts the processes from place `i` on: the first of them that has a
/// command to run at its start is asked for it; without one, the shutdown
/// trigger is awaited.
pub open spec fn start_from(config: Seq<ProcessConfig>, i: int) -> (Position, Action)
    decreases config.len() - i,
{
    if i < 0 || i >= config.len() {
        (
            Position { phase: Phase::Supervising, cursor: config.len() as usize },
            Action::AwaitShutdown,
        )
    } else {
        match spec_start_process(config[i]) {
            StartStep::Wait(at) => (
                Position { phase: Phase::Starting(at), cursor: i as usize },
                Action::Process(i as usize, at.spec_request()),
            ),
            _ => start_from(config, i + 1),
        }
    }
}

/// Stops the first `k` processes, the last of them first: the first in that
/// order that has anything to do for its stop is asked for it; without one,
/// the supervisor is done.
pub open spec fn stop_from(config: Seq<ProcessConfig>, k: int) -> (Position, Action)
    decreases k,
{
    if k <= 0 || k > config.len() {
        (Position { phase: Phase::Done, cursor: 0 }, Action::Finish)
    } else {
        match spec_stop_process(config[k - 1], spec_handle(config[k - 1])) {
            StopStep::Wait(at) => (
                Position { phase: Phase::Stopping(at), cursor: (k - 1) as usize },
                Action::Process((k - 1) as usize, at.spec_request()),
            ),
            StopStep::Stopped(_) => stop_from(config, k - 1),
        }
    }
}

/// The cursor points at a process whenever one is starting or stopping.
pub open spec fn wf(config: Seq<ProcessConfig>, at: Position) -> bool {
    match at.phase {
        Phase::Starting(_) => at.cursor < config.len(),
        Phase::Stopping(_) => at.cursor < config.len(),
        Phase::Supervising => true,
        Phase::Done => true,
    }
}

/// The first state and action.
pub open spec fn spec_init(config: Seq<ProcessConfig>) -> (EngineState, Action) {
    (EngineState { at: start_from(config, 0).0, ..spec_blank() }, start_from(config, 0).1)
}

/// The error to remember of a stop that has ended.
pub open spec fn spec_stop_error(process: usize, result: Result<(), StopProcessError>) -> Option<
    (usize, StopProcessError),
> {
    match result {
        Ok(_) => None,
        Err(error) => Some((process, error)),
    }
}

/// One step of the supervisor: the state and the action that follow the
/// event; none where the event does not answer the action that stands.
pub open spec fn spec_step(config: Seq<ProcessConfig>, s: EngineState, event: Event) -> Option<
    (EngineState, Action),
> {
    let i = s.at.cursor as int;
    match (s.at.phase, event) {
        (Phase::Starting(at), Event::Reply(reply)) => match spec_continue_start(
            config[i],
            at,
            reply,
        ) {
            None => None,
            Some(StartStep::Wait(next)) => Some(
                (
                    EngineState {
                        at: Position { phase: Phase::Starting(next), cursor: s.at.cursor },
                        last_stop: None,
                        ..s
                    },
                    Action::Process(s.at.cursor, next.spec_request()),
                ),
            ),
            Some(StartStep::Started(_)) => Some(
                (
                    EngineState { at: start_from(config, i + 1).0, last_stop: None, ..s },
                    start_from(config, i + 1).1,
                ),
            ),
            Some(StartStep::Aborted(failure)) => Some(
                (
                    EngineState {
                        at: stop_from(config, i).0,
                        result: Err(Error::StartupAborted { process: s.at.cursor, failure }),
                        last_stop: None,
                    },
                    stop_from(config, i).1,
                ),
            ),
        },
        (Phase::Supervising, Event::Shutdown(reason)) => Some(
            (
                EngineState {
                    at: stop_from(config, config.len() as int).0,
                    result: spec_classify(reason),
                    last_stop: None,
                },
                stop_from(config, config.len() as int).1,
            ),
        ),
        (Phase::Stopping(at), Event::Reply(reply)) => match spec_continue_stop(
            config[i],
            at,
            reply,
        ) {
            None => None,
            Some(StopStep::Wait(next)) => Some(
                (
                    EngineState {
                        at: Position { phase: Phase::Stopping(next), cursor: s.at.cursor },
                        last_stop: None,
                        ..s
                    },
                    Action::Process(s.at.cursor, next.spec_request()),
                ),
            ),
            Some(StopStep::Stopped(result)) => Some(
                (
                    EngineState {
                        at: stop_from(config, i).0,
                        last_stop: spec_stop_error(s.at.cursor, result),
                        ..s
                    },
                    stop_from(config, i).1,
                ),
            ),
        },
        _ => None,
    }
}

/// A run of the supervisor: the state it has reached, every action it has
/// handed out, and the events it has taken. The last action is the one that
/// stands; each event answers the action at its own place.
pub struct Run {
    pub state: EngineState,
    pub actions: Seq<Action>,
    pub replies: Seq<Event>,
}

/// The run over a configuration that the events give rise to, one after the
/// other. An event that does not answer the action that stands is passed
/// over.
pub open spec fn spec_run(config: Seq<ProcessConfig>, events: Seq<Event>) -> Run
    decreases events.len(),
{
    if events.len() == 0 {
        Run { state: spec_init(config).0, actions: seq![spec_init(config).1], replies: seq![] }
    } else {
        let before = spec_run(config, events.drop_last());
        match spec_step(config, before.state, events.last()) {
            Some((state, action)) => Run {
                state,
                actions: before.actions.push(action),
                replies: before.replies.push(events.last()),
            },
            None => before,
        }
    }
}

/// Starting leaves the cursor at a process, or past the last.
proof fn lemma_start_from_wf(config: Seq<ProcessConfig>, i: int)
    ensures
        wf(config, start_from(config, i).0),
    decreases config.len() - i,
{
    if 0 <= i < config.len() {
        match spec_start_process(config[i]) {
            StartStep::Wait(_) => {},
            _ => lemma_start_from_wf(config, i + 1),
        }
    }
}

/// Stopping leaves the cursor at a process, or the supervisor done.
proof fn lemma_stop_from_wf(config: Seq<ProcessConfig>, k: int)
    ensures
        wf(config, stop_from(config, k).0),
    decreases k,
{
    if 0 < k <= config.len() {
        match spec_stop_process(config[k - 1], spec_handle(config[k - 1])) {
            StopStep::Wait(_) => {},
            StopStep::Stopped(_) => lemma_stop_from_wf(config, k - 1),
        }
    }
}

fn classify(reason: ShutdownReason) -> (result: Result<(), Error>)
    ensures
        result == spec_classify(reason),
{
    match reason {
        ShutdownReason::DaemonFailed => Err(Error::AbnormalShutdown),
        ShutdownReason::ExternalSignal => Ok(()),
        ShutdownReason::DaemonExited => Ok(()),
    }
}

fn handle_of(config: &ProcessConfig) -> (handle: ProcessHandle)
    ensures
        handle == spec_handle(*config),
{
    if config.run.is_some() {
        ProcessHandle::Daemon
    } else {
        ProcessHandle::OneShot
    }
}

fn starting_from(config: &Config, i: usize) -> (r: (Position, Action))
    requires
        i <= config.processes@.len(),
    ensures
        r == start_from(config.processes@, i as int),
        wf(config.processes@, r.0),
{
    let n = config.processes.len();
    let mut j = i;
    proof {
        lemma_start_from_wf(config.processes@, i as int);
    }
    while j < n
        invariant
            n == config.processes@.len(),
            i <= j <= n,
            start_from(config.processes@, j as int) == start_from(config.processes@, i as int),
        decreases n - j,
    {
        match start_process(&config.processes[j]) {
            StartStep::Wait(at) => {
                return (
                    Position { phase: Phase::Starting(at), cursor: j },
                    Action::Process(j, at.request()),
                );
            },
            _ => {
                j += 1;
            },
        }
    }
    (Position { phase: Phase::Supervising, cursor: n }, Action::AwaitShutdown)
}

fn stopping_from(config: &Config, k: usize) -> (r: (Position, Action))
    requires
        k <= config.processes@.len(),
    ensures
        r == stop_from(config.processes@, k as int),
        wf(config.processes@, r.0),
{
    let mut j = k;
    proof {
        lemma_stop_from_wf(config.processes@, k as int);
    }
    while j > 0
        invariant
            j <= k <= config.processes@.len(),
            stop_from(config.processes@, j as int) == stop_from(config.processes@, k as int),
        decreases j,
    {
        let process = &config.processes[j - 1];
        match stop_process(process, handle_of(process)) {
            StopStep::Wait(at) => {
                return (
                    Position { phase: Phase::Stopping(at), cursor: j - 1 },
                    Action::Process(j - 1, at.request()),
                );
            },
            StopStep::Stopped(_) => {
                j -= 1;
            },
        }
    }
    (Position { phase: Phase::Done, cursor: 0 }, Action::Finish)
}

/// The supervisor of one configuration.
pub struct Supervisor {
    config: Config,
    at: Position,
    result: Result<(), Error>,
    last_stop: Option<(usize, StopProcessError)>,
    /// Every event that has been handed in.
    events: Ghost<Seq<Event>>,
}

impl Supervisor {
    #[verifier::type_invariant]
    spec fn inv(self) -> bool {
        &&& wf(self.config.processes@, self.at)
        &&& self.state() == spec_run(self.config.processes@, self.events@).state
    }

    /// Every event that has been handed to the supervisor, in order.
    pub closed spec fn events(&self) -> Seq<Event> {
        self.events@
    }

    /// The run that the supervisor has made.
    pub open spec fn run(&self) -> Run {
        spec_run(self.processes(), self.events())
    }

    /// The processes that are supervised, in the order of their declaration.
    pub closed spec fn processes(&self) -> Seq<ProcessConfig> {
        self.config.processes@
    }

    /// The state of the supervisor.
    pub closed spec fn state(&self) -> EngineState {
        EngineState { at: self.at, result: self.result, last_stop: self.last_stop }
    }

    /// A supervisor for the configuration, and its first action: the first
    /// command that a process needs for its start or, where no process needs
    /// any, the wait for a shutdown trigger.
    pub fn new(config: Config) -> (r: (Supervisor, Action))
        ensures
            r.0.processes() == config.processes@,
            r.0.processes().len() <= usize::MAX,
            r.0.events() == Seq::<Event>::empty(),
            (r.0.state(), r.1) == spec_init(config.processes@),
            r.0.state() == r.0.run().state,
            r.1 == r.0.run().actions.last(),
            wf(r.0.processes(), r.0.state().at),
    {
        let (at, action) = starting_from(&config, 0);
        let _ = config.processes.len();
        (
            Supervisor {
                config,
                at,
                result: Ok(()),
                last_stop: None,
                events: Ghost(Seq::empty()),
            },
            action,
        )
    }

    /// The configuration that is supervised.
    pub fn config(&self) -> (config: &Config)
        ensures
            config.processes@ == self.processes(),
    {
        &self.config
    }

    /// Where the supervisor stands.
    pub fn position(&self) -> (at: Position)
        ensures
            at == self.state().at,
            wf(self.processes(), at),
    {
        proof {
            use_type_invariant(self);
        }
        self.at
    }

    /// Whether nothing is left to do.
    pub fn is_done(&self) -> (done: bool)
        ensures
            done == (self.state().at.phase is Done),
    {
        match self.at.phase {
            Phase::Done => true,
            _ => false,
        }
    }

    /// The result as it stands: a success until a start fails or the
    /// failure of a daemon fires the shutdown trigger.
    pub fn result(&self) -> (result: &Result<(), Error>)
        ensures
            *result == self.state().result,
    {
        &self.result
    }

    /// The process whose stop ended with the last event, and the error that
    /// it ended with, if it ended with one.
    pub fn last_stop(&self) -> (last: Option<(usize, StopProcessError)>)
        ensures
            last == self.state().last_stop,
    {
        self.last_stop
    }

    /// A supervisor of no process at all.
    fn idle() -> (r: Supervisor)
        ensures
            r.processes() == Seq::<ProcessConfig>::empty(),
    {
        Supervisor::new(Config { processes: Vec::new() }).0
    }

    /// The supervisor that the event makes of this one, and the action that
    /// it leads to.
    fn advance(self, event: Event) -> (r: (Supervisor, Option<Action>))
        ensures
            r.0.processes() == self.processes(),
            r.0.events() == self.events().push(event),
            wf(self.processes(), self.state().at),
            match spec_step(self.processes(), self.state(), event) {
                Some((state, next)) => r.0.state() == state && r.1 == Some(next),
                None => r.0.state() == self.state() && r.1 is None,
            },
            self.state() == self.run().state,
            r.0.state() == r.0.run().state,
            r.1 matches Some(next) ==> next == r.0.run().actions.last(),
    {
        proof {
            use_type_invariant(&self);
            let events = self.events@.push(event);
            assert(events.drop_last() =~= self.events@);
            assert(events.last() == event);
        }
        let ghost taken = self.events@.push(event);
        let Supervisor { config, at, result, last_stop, events: _ } = self;
        let cursor = at.cursor;
        let count = config.processes.len();
        let (at, result, last_stop, action) = match (at.phase, event) {
            (Phase::Starting(step), Event::Reply(reply)) => {
                match continue_start(&config.processes[cursor], step, reply) {
                    None => (at, result, last_stop, None),
                    Some(StartStep::Wait(next)) => (
                        Position { phase: Phase::Starting(next), cursor },
                        result,
                        None,
                        Some(Action::Process(cursor, next.request())),
                    ),
                    Some(StartStep::Started(_)) => {
                        let (at, action) = starting_from(&config, cursor + 1);
                        (at, result, None, Some(action))
                    },
                    Some(StartStep::Aborted(failure)) => {
                        let (at, action) = stopping_from(&config, cursor);
                        (
                            at,
                            Err(Error::StartupAborted { process: cursor, failure }),
                            None,
                            Some(action),
                        )
                    },
                }
            },
            (Phase::Supervising, Event::Shutdown(reason)) => {
                let (at, action) = stopping_from(&config, count);
                (at, classify(reason), None, Some(action))
            },
            (Phase::Stopping(step), Event::Reply(reply)) => {
                match continue_stop(&config.processes[cursor], step, reply) {
                    None => (at, result, last_stop, None),
                    Some(StopStep::Wait(next)) => (
                        Position { phase: Phase::Stopping(next), cursor },
                        result,
                        None,
                        Some(Action::Process(cursor, next.request())),
                    ),
                    Some(StopStep::Stopped(stopped)) => {
                        let (at, action) = stopping_from(&config, cursor);
                        let error = match stopped {
                            Ok(_) => None,
                            Err(error) => Some((cursor, error)),
                        };
                        (at, result, error, Some(action))
                    },
                }
            },
            _ => (at, result, last_stop, None),
        };
        (Supervisor { config, at, result, last_stop, events: Ghost(taken) }, action)
    }

    /// Takes the event that came of the last action and says what to do
    /// next. An event that does not answer the last action changes nothing
    /// and gives no action.
    ///
    /// The supervisor is always in the state of the run that the events
    /// handed to it give rise to, and the action it hands out is the last
    /// of that run.
    pub fn step(&mut self, event: Event) -> (action: Option<Action>)
        ensures
            final(self).processes() == old(self).processes(),
            final(self).events() == old(self).events().push(event),
            wf(old(self).processes(), old(self).state().at),
            wf(final(self).processes(), final(self).state().at),
            match spec_step(old(self).processes(), old(self).state(), event) {
                Some((state, next)) => final(self).state() == state && action == Some(next),
                None => final(self).state() == old(self).state() && action is None,
            },
            old(self).state() == old(self).run().state,
            final(self).state() == final(self).run().state,
            action matches Some(next) ==> next == final(self).run().actions.last(),
    {
        let mut taken = Supervisor::idle();
        core::mem::swap(self, &mut taken);
        let (next, action) = taken.advance(event);
        proof {
            use_type_invariant(&next);
        }
        *self = next;
        action
    }
}

} // verus!
