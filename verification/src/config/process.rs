//! Process configuration.

use vstd::prelude::*;

use crate::config::command::{CommandSpec, CommandSpecView};
use crate::config::signal::SignalConfig;

verus! {

/// The two kinds of process: one that keeps running until it is stopped,
/// and one that has nothing to keep running.
#[derive(Copy, Clone, Eq, PartialEq, Debug, Structural)]
pub enum ProcessType {
    Daemon,
    Oneshot,
}

impl Default for ProcessType {
    fn default() -> (r: Self)
        ensures
            r == ProcessType::Daemon,
    {
        ProcessType::Daemon
    }
}

/// How a running daemon is asked to stop.
#[derive(Clone, Debug, PartialEq, Eq)]
pub enum StopMechanism {
    /// Deliver this signal to the daemon's process group.
    Signal(SignalConfig),
    /// Run this command to completion.
    Command(CommandSpec),
}

/// A stop mechanism as plain values.
pub enum StopMechanismView {
    Signal(SignalConfig),
    Command(CommandSpecView),
}

impl View for StopMechanism {
    type V = StopMechanismView;

    open spec fn view(&self) -> StopMechanismView {
        match self {
            StopMechanism::Signal(signal) => StopMechanismView::Signal(*signal),
            StopMechanism::Command(command) => StopMechanismView::Command(command@),
        }
    }
}

impl Default for StopMechanism {
    fn default() -> (r: Self)
        ensures
            r == StopMechanism::Signal(SignalConfig::SIGTERM),
    {
        StopMechanism::Signal(SignalConfig::SIGTERM)
    }
}

/// One declared process: its name and its four command slots.
#[derive(Clone, Debug, PartialEq, Eq)]
pub struct ProcessConfig {
    /// Name of the process, unique within a configuration.
    pub name: String,
    /// Runs to completion before the process counts as started.
    pub pre: Option<CommandSpec>,
    /// The daemon itself; a process without it is a one-shot.
    pub run: Option<CommandSpec>,
    /// How the daemon is stopped.
    pub stop: StopMechanism,
    /// Runs to completion once the process has been stopped.
    pub post: Option<CommandSpec>,
}

/// A declared process as plain values.
pub struct ProcessConfigView {
    pub name: Seq<char>,
    pub pre: Option<CommandSpecView>,
    pub run: Option<CommandSpecView>,
    pub stop: StopMechanismView,
    pub post: Option<CommandSpecView>,
}

/// An optional command as plain values.
pub open spec fn command_view(command: Option<CommandSpec>) -> Option<CommandSpecView> {
    match command {
        Some(command) => Some(command@),
        None => None,
    }
}

impl View for ProcessConfig {
    type V = ProcessConfigView;

    open spec fn view(&self) -> ProcessConfigView {
        ProcessConfigView {
            name: self.name@,
            pre: command_view(self.pre),
            run: command_view(self.run),
            stop: self.stop@,
            post: command_view(self.post),
        }
    }
}

impl ProcessConfig {
    /// A process is a daemon exactly when it has a `run` command.
    pub open spec fn is_daemon(&self) -> bool {
        self.run is Some
    }

    /// The kind of the process.
    pub open spec fn spec_process_type(&self) -> ProcessType {
        if self.is_daemon() {
            ProcessType::Daemon
        } else {
            ProcessType::Oneshot
        }
    }

    /// The kind of the process: a daemon where it has a `run` command, a
    /// one-shot where it has none.
    pub fn process_type(&self) -> (kind: ProcessType)
        ensures
            kind == self.spec_process_type(),
    {
        if self.run.is_some() {
            ProcessType::Daemon
        } else {
            ProcessType::Oneshot
        }
    }
}

} // verus!
