//! The steps of starting and stopping one process.

use groundcontrol::command::{CommandError, ExitStatus};
use groundcontrol::config::command::CommandSpec;
use groundcontrol::config::process::{ProcessConfig, ProcessType, StopMechanism};
use groundcontrol::config::signal::SignalConfig;
use groundcontrol::process::{
    command, continue_start, continue_stop, start_process, stop_process, ProcessHandle, Reply,
    Request, StartStep, Starting, StopStep, Stopping,
};
use groundcontrol::{StartFailure, StartProcessError, StopProcessError};

fn program(name: &str) -> CommandSpec {
    CommandSpec {
        user: None,
        env_vars: vec![],
        program: name.to_string(),
        args: vec![],
    }
}

fn process(pre: bool, run: bool, stop: StopMechanism, post: bool) -> ProcessConfig {
    ProcessConfig {
        name: "p".to_string(),
        pre: if pre { Some(program("/pre")) } else { None },
        run: if run { Some(program("/run")) } else { None },
        stop,
        post: if post { Some(program("/post")) } else { None },
    }
}

fn sigterm() -> StopMechanism {
    StopMechanism::Signal(SignalConfig::SIGTERM)
}

fn failed() -> Reply {
    Reply::Failed(CommandError::SpawnFailed("No such file".to_string()))
}

fn aborted(error: StartProcessError, cause: Option<CommandError>) -> Option<StartStep> {
    Some(StartStep::Aborted(StartFailure { error, cause }))
}

#[test]
fn a_process_is_a_daemon_where_it_has_a_run_command() {
    assert_eq!(
        ProcessType::Daemon,
        process(false, true, sigterm(), false).process_type()
    );
    assert_eq!(
        ProcessType::Oneshot,
        process(true, false, sigterm(), true).process_type()
    );
    assert_eq!(ProcessType::Daemon, ProcessType::default());
}

#[test]
fn start_begins_with_pre() {
    assert_eq!(
        StartStep::Wait(Starting::Pre),
        start_process(&process(true, true, sigterm(), true))
    );
    assert_eq!(
        StartStep::Wait(Starting::Pre),
        start_process(&process(true, false, sigterm(), false))
    );
}

#[test]
fn start_without_pre_begins_with_run() {
    assert_eq!(
        StartStep::Wait(Starting::Run),
        start_process(&process(false, true, sigterm(), true))
    );
}

#[test]
fn one_shot_without_pre_has_started_at_once() {
    assert_eq!(
        StartStep::Started(ProcessHandle::OneShot),
        start_process(&process(false, false, sigterm(), true))
    );
}

#[test]
fn pre_has_to_exit_with_code_zero() {
    let daemon = process(true, true, sigterm(), false);
    let one_shot = process(true, false, sigterm(), false);
    assert_eq!(
        Some(StartStep::Wait(Starting::Run)),
        continue_start(&daemon, Starting::Pre, Reply::Exited(ExitStatus::Exited(0)))
    );
    assert_eq!(
        Some(StartStep::Started(ProcessHandle::OneShot)),
        continue_start(&one_shot, Starting::Pre, Reply::Exited(ExitStatus::Exited(0)))
    );
    assert_eq!(
        aborted(StartProcessError::PreRunAborted(1), None),
        continue_start(&daemon, Starting::Pre, Reply::Exited(ExitStatus::Exited(1)))
    );
    assert_eq!(
        aborted(StartProcessError::PreRunAborted(-3), None),
        continue_start(&one_shot, Starting::Pre, Reply::Exited(ExitStatus::Exited(-3)))
    );
    assert_eq!(
        aborted(StartProcessError::PreRunKilled, None),
        continue_start(&daemon, Starting::Pre, Reply::Exited(ExitStatus::Killed))
    );
    assert_eq!(
        aborted(
            StartProcessError::PreRunFailed,
            Some(CommandError::UnknownUser("app".to_string()))
        ),
        continue_start(
            &daemon,
            Starting::Pre,
            Reply::Failed(CommandError::UnknownUser("app".to_string()))
        )
    );
}

#[test]
fn spawned_daemon_has_started() {
    let daemon = process(true, true, sigterm(), false);
    assert_eq!(
        Some(StartStep::Started(ProcessHandle::Daemon)),
        continue_start(&daemon, Starting::Run, Reply::Spawned)
    );
    assert_eq!(
        aborted(
            StartProcessError::RunFailed,
            Some(CommandError::SpawnFailed("No such file".to_string()))
        ),
        continue_start(&daemon, Starting::Run, failed())
    );
}

#[test]
fn start_takes_only_the_replies_that_fit() {
    let daemon = process(true, true, sigterm(), false);
    for reply in [
        Reply::Spawned,
        Reply::Polled(None),
        Reply::Signalled(true),
        Reply::ExitObserved(None),
    ] {
        assert_eq!(None, continue_start(&daemon, Starting::Pre, reply));
    }
    for reply in [
        Reply::Exited(ExitStatus::Exited(0)),
        Reply::Polled(None),
        Reply::Signalled(true),
        Reply::ExitObserved(None),
    ] {
        assert_eq!(None, continue_start(&daemon, Starting::Run, reply));
    }
}

#[test]
fn stop_of_a_daemon_begins_by_looking_it_up() {
    assert_eq!(
        StopStep::Wait(Stopping::Poll),
        stop_process(&process(false, true, sigterm(), true), ProcessHandle::Daemon)
    );
}

#[test]
fn stop_of_a_one_shot_is_its_post() {
    assert_eq!(
        StopStep::Wait(Stopping::Post { stop_failed: false }),
        stop_process(&process(true, false, sigterm(), true), ProcessHandle::OneShot)
    );
    assert_eq!(
        StopStep::Stopped(Ok(())),
        stop_process(&process(true, false, sigterm(), false), ProcessHandle::OneShot)
    );
}

#[test]
fn daemon_that_has_exited_is_not_stopped_again() {
    let exited = Reply::Polled(Some(ExitStatus::Exited(3)));
    assert_eq!(
        Some(StopStep::Wait(Stopping::Post { stop_failed: false })),
        continue_stop(
            &process(false, true, sigterm(), true),
            Stopping::Poll,
            exited.clone()
        )
    );
    assert_eq!(
        Some(StopStep::Stopped(Ok(()))),
        continue_stop(&process(false, true, sigterm(), false), Stopping::Poll, exited)
    );
}

#[test]
fn running_daemon_gets_its_stop_mechanism() {
    assert_eq!(
        Some(StopStep::Wait(Stopping::Signal(SignalConfig::SIGINT))),
        continue_stop(
            &process(
                false,
                true,
                StopMechanism::Signal(SignalConfig::SIGINT),
                true
            ),
            Stopping::Poll,
            Reply::Polled(None)
        )
    );
    assert_eq!(
        Some(StopStep::Wait(Stopping::Command)),
        continue_stop(
            &process(false, true, StopMechanism::Command(program("/stop")), true),
            Stopping::Poll,
            Reply::Polled(None)
        )
    );
}

#[test]
fn exit_is_awaited_after_the_signal_delivered_or_not() {
    let daemon = process(false, true, sigterm(), true);
    for delivered in [true, false] {
        assert_eq!(
            Some(StopStep::Wait(Stopping::Exit)),
            continue_stop(
                &daemon,
                Stopping::Signal(SignalConfig::SIGTERM),
                Reply::Signalled(delivered)
            )
        );
    }
}

#[test]
fn exit_is_awaited_after_a_stop_command_that_succeeded() {
    let daemon = process(false, true, StopMechanism::Command(program("/stop")), true);
    assert_eq!(
        Some(StopStep::Wait(Stopping::Exit)),
        continue_stop(
            &daemon,
            Stopping::Command,
            Reply::Exited(ExitStatus::Exited(0))
        )
    );
}

#[test]
fn failed_stop_command_goes_on_to_post() {
    let with_post = process(false, true, StopMechanism::Command(program("/stop")), true);
    let without_post = process(false, true, StopMechanism::Command(program("/stop")), false);
    for reply in [
        Reply::Exited(ExitStatus::Exited(1)),
        Reply::Exited(ExitStatus::Killed),
        failed(),
    ] {
        assert_eq!(
            Some(StopStep::Wait(Stopping::Post { stop_failed: true })),
            continue_stop(&with_post, Stopping::Command, reply.clone())
        );
        assert_eq!(
            Some(StopStep::Stopped(Err(StopProcessError::StopFailed))),
            continue_stop(&without_post, Stopping::Command, reply)
        );
    }
}

#[test]
fn post_follows_the_exit_of_the_daemon() {
    for observed in [Some(ExitStatus::Exited(0)), Some(ExitStatus::Killed), None] {
        assert_eq!(
            Some(StopStep::Wait(Stopping::Post { stop_failed: false })),
            continue_stop(
                &process(false, true, sigterm(), true),
                Stopping::Exit,
                Reply::ExitObserved(observed)
            )
        );
        assert_eq!(
            Some(StopStep::Stopped(Ok(()))),
            continue_stop(
                &process(false, true, sigterm(), false),
                Stopping::Exit,
                Reply::ExitObserved(observed)
            )
        );
    }
}

#[test]
fn post_ends_the_stop_whatever_comes_of_it() {
    let daemon = process(false, true, sigterm(), true);
    let clean = Stopping::Post { stop_failed: false };
    let after_failure = Stopping::Post { stop_failed: true };
    assert_eq!(
        Some(StopStep::Stopped(Ok(()))),
        continue_stop(&daemon, clean, Reply::Exited(ExitStatus::Exited(0)))
    );
    for reply in [
        Reply::Exited(ExitStatus::Exited(1)),
        Reply::Exited(ExitStatus::Killed),
        failed(),
    ] {
        assert_eq!(
            Some(StopStep::Stopped(Err(StopProcessError::PostRunFailed))),
            continue_stop(&daemon, clean, reply.clone())
        );
        assert_eq!(
            Some(StopStep::Stopped(Err(StopProcessError::StopFailed))),
            continue_stop(&daemon, after_failure, reply)
        );
    }
    assert_eq!(
        Some(StopStep::Stopped(Err(StopProcessError::StopFailed))),
        continue_stop(&daemon, after_failure, Reply::Exited(ExitStatus::Exited(0)))
    );
}

#[test]
fn stop_takes_only_the_replies_that_fit() {
    let daemon = process(false, true, StopMechanism::Command(program("/stop")), true);
    assert_eq!(None, continue_stop(&daemon, Stopping::Poll, Reply::Spawned));
    assert_eq!(
        None,
        continue_stop(&daemon, Stopping::Poll, Reply::Signalled(true))
    );
    assert_eq!(
        None,
        continue_stop(
            &daemon,
            Stopping::Signal(SignalConfig::SIGTERM),
            Reply::Polled(None)
        )
    );
    assert_eq!(
        None,
        continue_stop(&daemon, Stopping::Command, Reply::ExitObserved(None))
    );
    assert_eq!(
        None,
        continue_stop(&daemon, Stopping::Exit, Reply::Exited(ExitStatus::Exited(0)))
    );
    assert_eq!(
        None,
        continue_stop(
            &daemon,
            Stopping::Post { stop_failed: false },
            Reply::ExitObserved(None)
        )
    );
}

#[test]
fn each_step_waits_on_its_request() {
    assert_eq!(Request::RunPre, Starting::Pre.request());
    assert_eq!(Request::SpawnRun, Starting::Run.request());
    assert_eq!(Request::PollExit, Stopping::Poll.request());
    assert_eq!(
        Request::SendSignal(SignalConfig::SIGQUIT),
        Stopping::Signal(SignalConfig::SIGQUIT).request()
    );
    assert_eq!(Request::RunStop, Stopping::Command.request());
    assert_eq!(Request::AwaitExit, Stopping::Exit.request());
    assert_eq!(
        Request::RunPost,
        Stopping::Post { stop_failed: true }.request()
    );
}

#[test]
fn each_request_runs_the_command_of_its_slot() {
    let daemon = process(true, true, StopMechanism::Command(program("/stop")), true);
    assert_eq!(Some(&program("/pre")), command(&daemon, Request::RunPre));
    assert_eq!(Some(&program("/run")), command(&daemon, Request::SpawnRun));
    assert_eq!(Some(&program("/stop")), command(&daemon, Request::RunStop));
    assert_eq!(Some(&program("/post")), command(&daemon, Request::RunPost));
    assert_eq!(None, command(&daemon, Request::PollExit));
    assert_eq!(None, command(&daemon, Request::AwaitExit));
    assert_eq!(
        None,
        command(&daemon, Request::SendSignal(SignalConfig::SIGTERM))
    );
    let bare = process(false, false, sigterm(), false);
    assert_eq!(None, command(&bare, Request::RunPre));
    assert_eq!(None, command(&bare, Request::SpawnRun));
    assert_eq!(None, command(&bare, Request::RunStop));
    assert_eq!(None, command(&bare, Request::RunPost));
}
