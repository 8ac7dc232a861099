//! Ground Control: a process supervisor for container-like environments.
//!
//! It starts a configured set of processes in the order of their
//! declaration, waits until a daemon exits or a shutdown is asked for from
//! outside, and stops the processes again in reverse order. Each process may
//! have a `pre` command that runs before it starts, a `run` command that
//! makes it a daemon, a way to `stop` the daemon, and a `post` command that
//! runs after it has stopped.
//!
//! The library decides; it does not act. The supervisor is a state machine
//! that hands out one action at a time (run this command, spawn that
//! daemon, deliver a signal, wait for the shutdown trigger) and takes the
//! event that came of it. Whoever drives it spawns the processes and waits
//! for them.
//!
//! - [`config`]: the configuration, and how it is decoded from a document.
//! - [`command`]: exit statuses, and how a command is made ready to run:
//!   its environment, its arguments, its user.
//! - [`process`]: the steps of starting and stopping one process.
//! - [`supervisor`]: the supervisor of all processes.
//! - [`trace`]: what holds of the runs of the supervisor, as an invariant.
//! - [`laws`]: the laws that follow: in which order things are asked for,
//!   that every process that has started is torn down, and what the result
//!   of a run says.

use vstd::prelude::*;

use crate::command::CommandError;

pub mod command;
pub mod config;
pub mod process;
pub mod supervisor;
pub mod laws;
pub mod trace;

verus! {

/// Why the supervisor leaves its steady state.
#[derive(Clone, Copy, Debug, PartialEq, Eq, Structural)]
pub enum ShutdownReason {
    /// A termination signal, or any other shutdown request from outside.
    ExternalSignal,
    /// A daemon exited with code 0.
    DaemonExited,
    /// A daemon exited with another code, or was killed.
    DaemonFailed,
}

/// Errors generated when starting processes.
#[derive(Copy, Clone, Debug, PartialEq, Eq, Structural)]
pub enum StartProcessError {
    /// The pre-run command could not be started.
    PreRunFailed,
    /// Pre-run command aborted with a non-zero exit code.
    PreRunAborted(i32),
    /// Pre-run command was killed before it could exit.
    PreRunKilled,
    /// The run command could not be started.
    RunFailed,
}

/// Errors generated when stopping processes.
#[derive(Copy, Clone, Debug, PartialEq, Eq, Structural)]
pub enum StopProcessError {
    /// Stop command failed.
    StopFailed,
    /// Process aborted with a non-zero exit code.
    ProcessAborted(i32),
    /// Process was killed before it could be stopped.
    ProcessKilled,
    /// Post-run command failed.
    PostRunFailed,
}

/// Why a process did not start: the step that failed and, where a command
/// could not even be started, the reason for that.
#[derive(Clone, Debug, PartialEq, Eq)]
pub struct StartFailure {
    pub error: StartProcessError,
    pub cause: Option<CommandError>,
}

/// How a run of the supervisor can fail.
#[derive(Clone, Debug, PartialEq, Eq)]
pub enum Error {
    /// A process did not start: its place in the configuration and why. The
    /// processes started before it have been stopped again.
    StartupAborted { process: usize, failure: StartFailure },
    /// A daemon failed while all processes were running.
    AbnormalShutdown,
}

} // verus!
