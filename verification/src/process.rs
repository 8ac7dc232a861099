//! Starts and stops one process.
//!
//! A process goes through `pre`, `run`, `stop` and `post`. What each step
//! needs from the outside (a command run to completion, a daemon spawned, a
//! signal delivered, an exit awaited) is a [`Request`]; what came of it is a
//! [`Reply`]. The functions here decide, from the process's configuration,
//! where it stands and the reply, what happens next.

use vstd::prelude::*;

use crate::command::{CommandError, ExitStatus};
use crate::config::command::CommandSpec;
use crate::config::process::{ProcessConfig, StopMechanism};
use crate::config::signal::SignalConfig;
use crate::{StartFailure, StartProcessError, StopProcessError};

verus! {

/// What a process needs done for it.
#[derive(Copy, Clone, Debug, PartialEq, Eq, Structural)]
pub enum Request {
    /// Run the `pre` command to completion.
    RunPre,
    /// Spawn the `run` command, and a watcher that reports its exit.
    SpawnRun,
    /// Look whether the daemon has already exited, without waiting.
    PollExit,
    /// Deliver the signal to the daemon's process group.
    SendSignal(SignalConfig),
    /// Run the `stop` command to completion.
    RunStop,
    /// Wait until the daemon has exited.
    AwaitExit,
    /// Run the `post` command to completion.
    RunPost,
}

/// What came of a request.
#[derive(Clone, Debug, PartialEq, Eq)]
pub enum Reply {
    /// The command ran and ended with this status.
    Exited(ExitStatus),
    /// The command could not be started.
    Failed(CommandError),
    /// The daemon was spawned.
    Spawned,
    /// The daemon's exit status, where it has exited already.
    Polled(Option<ExitStatus>),
    /// Whether the signal was delivered.
    Signalled(bool),
    /// The daemon's exit status; none where its watcher went away
    /// without reporting one.
    ExitObserved(Option<ExitStatus>),
}

/// What is kept of a started process.
#[derive(Copy, Clone, Debug, PartialEq, Eq, Structural)]
pub enum ProcessHandle {
    /// A daemon is running, and has to be stopped.
    Daemon,
    /// Nothing is running.
    OneShot,
}

/// The step of its start that a process waits on.
#[derive(Copy, Clone, Debug, PartialEq, Eq, Structural)]
pub enum Starting {
    /// The `pre` command is running.
    Pre,
    /// The `run` command is being spawned.
    Run,
}

/// The step of its stop that a process waits on.
#[derive(Copy, Clone, Debug, PartialEq, Eq, Structural)]
pub enum Stopping {
    /// Whether the daemon has already exited is being looked up.
    Poll,
    /// The signal is being delivered.
    Signal(SignalConfig),
    /// The `stop` command is running.
    Command,
    /// The daemon's exit is awaited.
    Exit,
    /// The `post` command is running; whether the `stop` command failed
    /// before.
    Post { stop_failed: bool },
}

/// Where a process stands after a step of its start.
#[derive(Clone, Debug, PartialEq, Eq)]
pub enum StartStep {
    /// It waits for the reply to the request of this step.
    Wait(Starting),
    /// It has started.
    Started(ProcessHandle),
    /// Its start has failed.
    Aborted(StartFailure),
}

/// Where a process stands after a step of its stop.
#[derive(Copy, Clone, Debug, PartialEq, Eq)]
pub enum StopStep {
    /// It waits for the reply to the request of this step.
    Wait(Stopping),
    /// It has stopped; with an error where its `stop` or `post` command
    /// failed.
    Stopped(Result<(), StopProcessError>),
}

impl Starting {
    /// The request that this step waits on.
    pub open spec fn spec_request(self) -> Request {
        match self {
            Starting::Pre => Request::RunPre,
            Starting::Run => Request::SpawnRun,
        }
    }

    /// The request that this step waits on.
    pub fn request(self) -> (r: Request)
        ensures
            r == self.spec_request(),
    {
        match self {
            Starting::Pre => Request::RunPre,
            Starting::Run => Request::SpawnRun,
        }
    }
}

impl Stopping {
    /// The request that this step waits on.
    pub open spec fn spec_request(self) -> Request {
        match self {
            Stopping::Poll => Request::PollExit,
            Stopping::Signal(signal) => Request::SendSignal(signal),
            Stopping::Command => Request::RunStop,
            Stopping::Exit => Request::AwaitExit,
            Stopping::Post { .. } => Request::RunPost,
        }
    }

    /// The request that this step waits on.
    pub fn request(self) -> (r: Request)
        ensures
            r == self.spec_request(),
    {
        match self {
            Stopping::Poll => Request::PollExit,
            Stopping::Signal(signal) => Request::SendSignal(signal),
            Stopping::Command => Request::RunStop,
            Stopping::Exit => Request::AwaitExit,
            Stopping::Post { .. } => Request::RunPost,
        }
    }
}

/// The command that a request runs: that of the slot it names. The requests
/// that look at a daemon, signal it or wait for it run none.
pub open spec fn spec_command(config: ProcessConfig, request: Request) -> Option<CommandSpec> {
    match request {
        Request::RunPre => config.pre,
        Request::SpawnRun => config.run,
        Request::RunStop => match config.stop {
            StopMechanism::Command(command) => Some(command),
            StopMechanism::Signal(_) => None,
        },
        Request::RunPost => config.post,
        _ => None,
    }
}

/// The command that a request runs, where it runs one.
pub fn command(config: &ProcessConfig, request: Request) -> (r: Option<&CommandSpec>)
    ensures
        match r {
            Some(command) => spec_command(*config, request) == Some(*command),
            None => spec_command(*config, request) is None,
        },
{
    match request {
        Request::RunPre => config.pre.as_ref(),
        Request::SpawnRun => config.run.as_ref(),
        Request::RunStop => match &config.stop {
            StopMechanism::Command(command) => Some(command),
            StopMechanism::Signal(_) => None,
        },
        Request::RunPost => config.post.as_ref(),
        _ => None,
    }
}

/// What a started process of this configuration keeps.
pub open spec fn spec_handle(config: ProcessConfig) -> ProcessHandle {
    if config.run is Some {
        ProcessHandle::Daemon
    } else {
        ProcessHandle::OneShot
    }
}

/// The start once `pre` is out of the way: a daemon spawns its `run`
/// command, a one-shot has started.
pub open spec fn spec_start_run(config: ProcessConfig) -> StartStep {
    if config.run is Some {
        StartStep::Wait(Starting::Run)
    } else {
        StartStep::Started(ProcessHandle::OneShot)
    }
}

/// The first step of a start: `pre` where there is one.
pub open spec fn spec_start_process(config: ProcessConfig) -> StartStep {
    if config.pre is Some {
        StartStep::Wait(Starting::Pre)
    } else {
        spec_start_run(config)
    }
}

/// The step that follows the reply to a step of the start; none where the
/// reply does not answer the request of that step.
pub open spec fn spec_continue_start(config: ProcessConfig, at: Starting, reply: Reply) -> Option<
    StartStep,
> {
    match (at, reply) {
        (Starting::Pre, Reply::Exited(ExitStatus::Exited(code))) => Some(
            if code == 0 {
                spec_start_run(config)
            } else {
                StartStep::Aborted(
                    StartFailure { error: StartProcessError::PreRunAborted(code), cause: None },
                )
            },
        ),
        (Starting::Pre, Reply::Exited(ExitStatus::Killed)) => Some(
            StartStep::Aborted(
                StartFailure { error: StartProcessError::PreRunKilled, cause: None },
            ),
        ),
        (Starting::Pre, Reply::Failed(cause)) => Some(
            StartStep::Aborted(
                StartFailure { error: StartProcessError::PreRunFailed, cause: Some(cause) },
            ),
        ),
        (Starting::Run, Reply::Spawned) => Some(StartStep::Started(ProcessHandle::Daemon)),
        (Starting::Run, Reply::Failed(cause)) => Some(
            StartStep::Aborted(
                StartFailure { error: StartProcessError::RunFailed, cause: Some(cause) },
            ),
        ),
        _ => None,
    }
}

/// The end of a stop: `post` where there is one.
pub open spec fn spec_stop_post(config: ProcessConfig, stop_failed: bool) -> StopStep {
    if config.post is Some {
        StopStep::Wait(Stopping::Post { stop_failed })
    } else if stop_failed {
        StopStep::Stopped(Err(StopProcessError::StopFailed))
    } else {
        StopStep::Stopped(Ok(()))
    }
}

/// The first step of a stop: a daemon is looked up, a one-shot goes on to
/// `post`.
pub open spec fn spec_stop_process(config: ProcessConfig, handle: ProcessHandle) -> StopStep {
    match handle {
        ProcessHandle::Daemon => StopStep::Wait(Stopping::Poll),
        ProcessHandle::OneShot => spec_stop_post(config, false),
    }
}

/// The step that applies the configured stop mechanism.
pub open spec fn spec_apply_stop(config: ProcessConfig) -> StopStep {
    match config.stop {
        StopMechanism::Signal(signal) => StopStep::Wait(Stopping::Signal(signal)),
        StopMechanism::Command(_) => StopStep::Wait(Stopping::Command),
    }
}

/// What has become of the process once `post` has ended: the failure of
/// `stop` comes first, that of `post` second.
pub open spec fn spec_stop_result(stop_failed: bool, post: Reply) -> Result<(), StopProcessError> {
    if stop_failed {
        Err(StopProcessError::StopFailed)
    } else if post == Reply::Exited(ExitStatus::Exited(0)) {
        Ok(())
    } else {
        Err(StopProcessError::PostRunFailed)
    }
}

/// The step that follows the reply to a step of the stop; none where the
/// reply does not answer the request of that step.
pub open spec fn spec_continue_stop(config: ProcessConfig, at: Stopping, reply: Reply) -> Option<
    StopStep,
> {
    match (at, reply) {
        (Stopping::Poll, Reply::Polled(Some(_))) => Some(spec_stop_post(config, false)),
        (Stopping::Poll, Reply::Polled(None)) => Some(spec_apply_stop(config)),
        (Stopping::Signal(_), Reply::Signalled(_)) => Some(StopStep::Wait(Stopping::Exit)),
        (Stopping::Command, Reply::Exited(status)) => Some(
            if status == ExitStatus::Exited(0) {
                StopStep::Wait(Stopping::Exit)
            } else {
                spec_stop_post(config, true)
            },
        ),
        (Stopping::Command, Reply::Failed(_)) => Some(spec_stop_post(config, true)),
        (Stopping::Exit, Reply::ExitObserved(_)) => Some(spec_stop_post(config, false)),
        (Stopping::Post { stop_failed }, Reply::Exited(_)) => Some(
            StopStep::Stopped(spec_stop_result(stop_failed, reply)),
        ),
        (Stopping::Post { stop_failed }, Reply::Failed(_)) => Some(
            StopStep::Stopped(spec_stop_result(stop_failed, reply)),
        ),
        _ => None,
    }
}

fn start_run(config: &ProcessConfig) -> (step: StartStep)
    ensures
        step == spec_start_run(*config),
{
    if config.run.is_some() {
        StartStep::Wait(Starting::Run)
    } else {
        StartStep::Started(ProcessHandle::OneShot)
    }
}

/// Starts the process: asks for its `pre` command where it has one, else for
/// its `run` command where it has one; a process with neither has started.
pub fn start_process(config: &ProcessConfig) -> (step: StartStep)
    ensures
        step == spec_start_process(*config),
{
    if config.pre.is_some() {
        StartStep::Wait(Starting::Pre)
    } else {
        start_run(config)
    }
}

/// Goes on with the start after the reply to the step `at`.
///
/// A `pre` command has to exit with code 0; then the daemon is spawned, or
/// the one-shot has started. Any other end of `pre`, and any command that
/// could not be started, aborts the start. Nothing waits for a spawned
/// daemon to stay alive.
pub fn continue_start(config: &ProcessConfig, at: Starting, reply: Reply) -> (step: Option<
    StartStep,
>)
    ensures
        step == spec_continue_start(*config, at, reply),
{
    match at {
        Starting::Pre => match reply {
            Reply::Exited(ExitStatus::Exited(code)) => {
                if code == 0 {
                    Some(start_run(config))
                } else {
                    Some(
                        StartStep::Aborted(
                            StartFailure {
                                error: StartProcessError::PreRunAborted(code),
                                cause: None,
                            },
                        ),
                    )
                }
            },
            Reply::Exited(ExitStatus::Killed) => Some(
                StartStep::Aborted(
                    StartFailure { error: StartProcessError::PreRunKilled, cause: None },
                ),
            ),
            Reply::Failed(cause) => Some(
                StartStep::Aborted(
                    StartFailure { error: StartProcessError::PreRunFailed, cause: Some(cause) },
                ),
            ),
            _ => None,
        },
        Starting::Run => match reply {
            Reply::Spawned => Some(StartStep::Started(ProcessHandle::Daemon)),
            Reply::Failed(cause) => Some(
                StartStep::Aborted(
                    StartFailure { error: StartProcessError::RunFailed, cause: Some(cause) },
                ),
            ),
            _ => None,
        },
    }
}

fn stop_post(config: &ProcessConfig, stop_failed: bool) -> (step: StopStep)
    ensures
        step == spec_stop_post(*config, stop_failed),
{
    if config.post.is_some() {
        StopStep::Wait(Stopping::Post { stop_failed })
    } else if stop_failed {
        StopStep::Stopped(Err(StopProcessError::StopFailed))
    } else {
        StopStep::Stopped(Ok(()))
    }
}

/// Stops the process: a daemon is first looked up, to see whether it still
/// runs; a one-shot has only its `post` command left.
pub fn stop_process(config: &ProcessConfig, handle: ProcessHandle) -> (step: StopStep)
    ensures
        step == spec_stop_process(*config, handle),
{
    match handle {
        ProcessHandle::Daemon => StopStep::Wait(Stopping::Poll),
        ProcessHandle::OneShot => stop_post(config, false),
    }
}

/// Goes on with the stop after the reply to the step `at`.
///
/// A daemon that has already exited is not stopped again. One that still
/// runs gets its signal or its `stop` command. After the signal, delivered
/// or not, and after a `stop` command that exited with code 0, the daemon's
/// exit is awaited. A `stop` command that failed is not waited for. Whatever
/// came before, the `post` command runs where there is one.
pub fn continue_stop(config: &ProcessConfig, at: Stopping, reply: Reply) -> (step: Option<StopStep>)
    ensures
        step == spec_continue_stop(*config, at, reply),
{
    match at {
        Stopping::Poll => match reply {
            Reply::Polled(Some(_)) => Some(stop_post(config, false)),
            Reply::Polled(None) => match &config.stop {
                StopMechanism::Signal(signal) => Some(StopStep::Wait(Stopping::Signal(*signal))),
                StopMechanism::Command(_) => Some(StopStep::Wait(Stopping::Command)),
            },
            _ => None,
        },
        Stopping::Signal(_) => match reply {
            Reply::Signalled(_) => Some(StopStep::Wait(Stopping::Exit)),
            _ => None,
        },
        Stopping::Command => match reply {
            Reply::Exited(status) => {
                if status.success() {
                    Some(StopStep::Wait(Stopping::Exit))
                } else {
                    Some(stop_post(config, true))
                }
            },
            Reply::Failed(_) => Some(stop_post(config, true)),
            _ => None,
        },
        Stopping::Exit => match reply {
            Reply::ExitObserved(_) => Some(stop_post(config, false)),
            _ => None,
        },
        Stopping::Post { stop_failed } => match reply {
            Reply::Exited(status) => {
                if stop_failed {
                    Some(StopStep::Stopped(Err(StopProcessError::StopFailed)))
                } else if status.success() {
                    Some(StopStep::Stopped(Ok(())))
                } else {
                    Some(StopStep::Stopped(Err(StopProcessError::PostRunFailed)))
                }
            },
            Reply::Failed(_) => {
                if stop_failed {
                    Some(StopStep::Stopped(Err(StopProcessError::StopFailed)))
                } else {
                    Some(StopStep::Stopped(Err(StopProcessError::PostRunFailed)))
                }
            },
            _ => None,
        },
    }
}

} // verus!
