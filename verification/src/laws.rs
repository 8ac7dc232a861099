//! What holds of every run of the supervisor.
//!
//! Each law is stated of the run that any sequence of events gives rise to
//! over any configuration, or of any single step.

use vstd::prelude::*;

use crate::command::{CommandError, ExitStatus};
use crate::config::process::ProcessConfig;
use crate::config::signal::SignalConfig;
use crate::process::{Reply, Request, Starting, Stopping};
use crate::supervisor::{
    spec_blank, spec_init, spec_run, spec_step, stop_from, Action, EngineState, Event, Phase,
    Position, Run,
};
use crate::trace::{
    aborts, aborts_with, action_inv, asked, configured, fits, started_count, inv, is_process,
    is_stop_request, is_teardown_request, lemma_run_record, lemma_step_fits, lemma_stop_from,
    process_of, rank, request_of, started, torn_down,
};
use crate::{Error, ShutdownReason, StartFailure, StartProcessError};

verus! {

/// Of two actions of a run, the one that comes first in the schedule was
/// handed out first.
pub proof fn law_schedule(config: Seq<ProcessConfig>, events: Seq<Event>, a: int, b: int)
    requires
        config.len() <= usize::MAX,
        0 <= a < spec_run(config, events).actions.len(),
        0 <= b < spec_run(config, events).actions.len(),
        rank(config.len() as int, spec_run(config, events).actions[a]) < rank(
            config.len() as int,
            spec_run(config, events).actions[b],
        ),
    ensures
        a < b,
{
    lemma_run_record(config, events);
}

/// The supervisor asks for one thing at a time: every action but the last
/// has been answered, by an event of the kind that answers it, before the
/// next was handed out.
pub proof fn law_one_at_a_time(config: Seq<ProcessConfig>, events: Seq<Event>)
    requires
        config.len() <= usize::MAX,
    ensures
        spec_run(config, events).actions.len() == spec_run(config, events).replies.len() + 1,
        forall|k: int|
            0 <= k < spec_run(config, events).replies.len() ==> fits(
                spec_run(config, events).actions[k],
                #[trigger] spec_run(config, events).replies[k],
            ),
{
    lemma_run_record(config, events);
}

/// Whatever a process is asked for after its `pre` command, that command has
/// run before and has exited with code 0.
pub proof fn law_pre_succeeds_first(
    config: Seq<ProcessConfig>,
    events: Seq<Event>,
    k: int,
    i: usize,
    request: Request,
)
    requires
        config.len() <= usize::MAX,
        0 <= k < spec_run(config, events).actions.len(),
        spec_run(config, events).actions[k] == Action::Process(i, request),
        request != Request::RunPre,
        config[i as int].pre is Some,
    ensures
        exists|j: int|
            0 <= j < k && #[trigger] spec_run(config, events).actions[j] == Action::Process(
                i,
                Request::RunPre,
            ) && spec_run(config, events).replies[j] == Event::Reply(
                Reply::Exited(ExitStatus::Exited(0)),
            ),
{
    let r = spec_run(config, events);
    lemma_run_record(config, events);
    assert(action_inv(config, r, r.actions[k]));
    let j = choose|j: int|
        0 <= j < r.replies.len() && j < r.actions.len() && is_process(
            #[trigger] r.actions[j],
            i as int,
            Request::RunPre,
        ) && r.replies[j] == Event::Reply(Reply::Exited(ExitStatus::Exited(0)));
    law_schedule(config, events, j, k);
}

/// Whatever a process is asked for, every daemon declared before it has
/// been spawned before.
pub proof fn law_daemons_start_in_order(
    config: Seq<ProcessConfig>,
    events: Seq<Event>,
    k: int,
    i: usize,
    j: usize,
    request: Request,
)
    requires
        config.len() <= usize::MAX,
        0 <= k < spec_run(config, events).actions.len(),
        spec_run(config, events).actions[k] == Action::Process(j, request),
        i < j,
        config[i as int].run is Some,
    ensures
        exists|m: int|
            0 <= m < k && #[trigger] spec_run(config, events).actions[m] == Action::Process(
                i,
                Request::SpawnRun,
            ) && spec_run(config, events).replies[m] == Event::Reply(Reply::Spawned),
{
    let r = spec_run(config, events);
    lemma_run_record(config, events);
    assert(action_inv(config, r, r.actions[k]));
    assert(started(config, r, i as int));
    let m = choose|m: int|
        0 <= m < r.replies.len() && m < r.actions.len() && is_process(
            #[trigger] r.actions[m],
            i as int,
            Request::SpawnRun,
        ) && r.replies[m] == Event::Reply(Reply::Spawned);
    law_schedule(config, events, m, k);
}

/// Whatever a process is asked for, every process declared before it has
/// started before: its `pre` command has exited with code 0 and its `run`
/// command has been spawned, where it has them.
pub proof fn law_processes_start_in_order(
    config: Seq<ProcessConfig>,
    events: Seq<Event>,
    k: int,
    i: usize,
    j: usize,
    request: Request,
)
    requires
        config.len() <= usize::MAX,
        0 <= k < spec_run(config, events).actions.len(),
        spec_run(config, events).actions[k] == Action::Process(j, request),
        i < j,
    ensures
        started(config, spec_run(config, events), i as int),
{
    let r = spec_run(config, events);
    lemma_run_record(config, events);
    assert(0 <= i < process_of(r.actions[k]));
}

/// The `post` command of a process is asked for after everything that
/// belongs to its stop.
pub proof fn law_stop_before_post(
    config: Seq<ProcessConfig>,
    events: Seq<Event>,
    a: int,
    b: int,
    i: usize,
    request: Request,
)
    requires
        config.len() <= usize::MAX,
        0 <= a < spec_run(config, events).actions.len(),
        0 <= b < spec_run(config, events).actions.len(),
        spec_run(config, events).actions[a] == Action::Process(i, request),
        is_stop_request(request),
        spec_run(config, events).actions[b] == Action::Process(i, Request::RunPost),
    ensures
        a < b,
{
    law_schedule(config, events, a, b);
}

/// Before the `post` command of a daemon is asked for, its stop has been
/// begun: the daemon has been looked up.
pub proof fn law_post_after_stop(
    config: Seq<ProcessConfig>,
    events: Seq<Event>,
    b: int,
    i: usize,
)
    requires
        config.len() <= usize::MAX,
        0 <= b < spec_run(config, events).actions.len(),
        spec_run(config, events).actions[b] == Action::Process(i, Request::RunPost),
        config[i as int].run is Some,
    ensures
        exists|a: int|
            0 <= a < b && #[trigger] spec_run(config, events).actions[a] == Action::Process(
                i,
                Request::PollExit,
            ),
{
    let r = spec_run(config, events);
    lemma_run_record(config, events);
    assert(action_inv(config, r, r.actions[b]));
    let a = choose|a: int|
        0 <= a < r.actions.len() && is_process(#[trigger] r.actions[a], i as int, Request::PollExit);
    law_schedule(config, events, a, b);
}

/// A process is asked only for what its configuration holds: a `post`
/// command is asked for only where there is one, and so for every other
/// request.
pub proof fn law_only_configured(
    config: Seq<ProcessConfig>,
    events: Seq<Event>,
    k: int,
    i: usize,
    request: Request,
)
    requires
        config.len() <= usize::MAX,
        0 <= k < spec_run(config, events).actions.len(),
        spec_run(config, events).actions[k] == Action::Process(i, request),
    ensures
        i < config.len(),
        configured(config[i as int], request),
        is_teardown_request(request) ==> i < started_count(config, spec_run(config, events).state.result),
{
    let r = spec_run(config, events);
    lemma_run_record(config, events);
    assert(action_inv(config, r, r.actions[k]));
}

/// Once the supervisor is done, every process that had started has been
/// torn down: each daemon among them has gone through its stop, and the
/// `post` command has been asked for exactly where there is one. The
/// processes that had started are those before the one whose start failed,
/// or all.
pub proof fn law_teardown_complete(config: Seq<ProcessConfig>, events: Seq<Event>, p: int)
    requires
        config.len() <= usize::MAX,
        spec_run(config, events).state.at.phase is Done,
        0 <= p < config.len(),
    ensures
        p < started_count(config, spec_run(config, events).state.result) ==> started(
            config,
            spec_run(config, events),
            p,
        ) && torn_down(config, spec_run(config, events), p),
        asked(spec_run(config, events), p, Request::RunPost) <==> config[p].post is Some && p
            < started_count(config, spec_run(config, events).state.result),
        asked(spec_run(config, events), p, Request::PollExit) <==> config[p].run is Some && p
            < started_count(config, spec_run(config, events).state.result),
{
    let r = spec_run(config, events);
    lemma_run_record(config, events);
    if p < started_count(config, r.state.result) {
        assert(started(config, r, p));
        assert(torn_down(config, r, p));
    }
    if asked(r, p, Request::RunPost) {
        let k = choose|k: int|
            0 <= k < r.actions.len() && is_process(#[trigger] r.actions[k], p, Request::RunPost);
        assert(action_inv(config, r, r.actions[k]));
    }
    if asked(r, p, Request::PollExit) {
        let k = choose|k: int|
            0 <= k < r.actions.len() && is_process(#[trigger] r.actions[k], p, Request::PollExit);
        assert(action_inv(config, r, r.actions[k]));
    }
}

/// The processes are torn down in the reverse of the order of their
/// declaration: everything that belongs to the teardown of a process is
/// asked for before anything that belongs to the teardown of one declared
/// before it.
pub proof fn law_reverse_teardown(
    config: Seq<ProcessConfig>,
    events: Seq<Event>,
    a: int,
    b: int,
    i: usize,
    j: usize,
    first: Request,
    second: Request,
)
    requires
        config.len() <= usize::MAX,
        0 <= a < spec_run(config, events).actions.len(),
        0 <= b < spec_run(config, events).actions.len(),
        spec_run(config, events).actions[a] == Action::Process(j, first),
        spec_run(config, events).actions[b] == Action::Process(i, second),
        is_teardown_request(first),
        is_teardown_request(second),
        i < j,
    ensures
        a < b,
{
    let r = spec_run(config, events);
    lemma_run_record(config, events);
    assert(action_inv(config, r, r.actions[a]));
    law_schedule(config, events, a, b);
}

/// Whatever comes of a `post` command, the teardown goes on in the same way:
/// with the stop of the processes declared before, and with the result as
/// it stood.
pub proof fn law_failed_post_goes_on(
    config: Seq<ProcessConfig>,
    s: EngineState,
    stop_failed: bool,
    reply: Reply,
)
    requires
        config.len() <= usize::MAX,
        s.at.cursor < config.len(),
        s.at.phase == Phase::Stopping(Stopping::Post { stop_failed }),
        reply is Exited || reply is Failed,
    ensures
        spec_step(config, s, Event::Reply(reply)) matches Some((next, action)) && (next.at, action)
            == stop_from(config, s.at.cursor as int) && next.result == s.result,
{
}

/// A `stop` command that fails keeps nothing from going on: the `post`
/// command of the same process is asked for next, where there is one, and
/// else the teardown goes on with the processes declared before; the result
/// stays as it stood.
pub proof fn law_failed_stop_goes_on(config: Seq<ProcessConfig>, s: EngineState, reply: Reply)
    requires
        config.len() <= usize::MAX,
        s.at.cursor < config.len(),
        s.at.phase == Phase::Stopping(Stopping::Command),
        reply is Failed || (reply is Exited && reply != Reply::Exited(ExitStatus::Exited(0))),
    ensures
        spec_step(config, s, Event::Reply(reply)) matches Some((next, action)) && next.result
            == s.result && if config[s.at.cursor as int].post is Some {
            action == Action::Process(s.at.cursor, Request::RunPost) && next.at == (Position {
                phase: Phase::Stopping(Stopping::Post { stop_failed: true }),
                cursor: s.at.cursor,
            })
        } else {
            (next.at, action) == stop_from(config, s.at.cursor as int)
        },
{
}

/// A signal that could not be delivered keeps nothing from going on: the
/// daemon's exit is awaited next.
pub proof fn law_failed_signal_goes_on(
    config: Seq<ProcessConfig>,
    s: EngineState,
    signal: SignalConfig,
    delivered: bool,
)
    requires
        s.at.cursor < config.len(),
        s.at.phase == Phase::Stopping(Stopping::Signal(signal)),
    ensures
        spec_step(config, s, Event::Reply(Reply::Signalled(delivered))) matches Some(
            (next, action),
        ) && action == Action::Process(s.at.cursor, Request::AwaitExit) && next.result
            == s.result,
{
}

/// The first shutdown reason wins: once the supervisor has taken one, it
/// takes no other, whatever state that is in.
pub proof fn law_single_shutdown(
    config: Seq<ProcessConfig>,
    s: EngineState,
    first: ShutdownReason,
    second: ShutdownReason,
)
    requires
        config.len() <= usize::MAX,
        spec_step(config, s, Event::Shutdown(first)) is Some,
    ensures
        spec_step(config, s, Event::Shutdown(first)) matches Some((next, _)) && spec_step(
            config,
            next,
            Event::Shutdown(second),
        ) is None,
{
    lemma_stop_from(config, config.len() as int);
}

/// A run takes at most one shutdown reason, and waits for one at most once.
pub proof fn law_one_shutdown_per_run(
    config: Seq<ProcessConfig>,
    events: Seq<Event>,
    a: int,
    b: int,
)
    requires
        config.len() <= usize::MAX,
        0 <= a < spec_run(config, events).replies.len(),
        0 <= b < spec_run(config, events).replies.len(),
        spec_run(config, events).replies[a] is Shutdown,
        spec_run(config, events).replies[b] is Shutdown,
    ensures
        a == b,
        spec_run(config, events).actions[a] == Action::AwaitShutdown,
{
    let r = spec_run(config, events);
    lemma_run_record(config, events);
    assert(fits(r.actions[a], r.replies[a]));
    assert(fits(r.actions[b], r.replies[b]));
    if a < b {
        assert(rank(config.len() as int, r.actions[a]) < rank(config.len() as int, r.actions[b]));
    } else if b < a {
        assert(rank(config.len() as int, r.actions[b]) < rank(config.len() as int, r.actions[a]));
    }
}

/// With no process declared, the supervisor waits for the shutdown trigger
/// at once, and is done, with success, as soon as a reason arrives that is
/// not the failure of a daemon.
pub proof fn law_empty_configuration(config: Seq<ProcessConfig>, reason: ShutdownReason)
    requires
        config.len() == 0,
        reason != ShutdownReason::DaemonFailed,
    ensures
        spec_init(config) == (spec_blank(), Action::AwaitShutdown),
        spec_step(config, spec_init(config).0, Event::Shutdown(reason)) == Some(
            (
                EngineState {
                    at: Position { phase: Phase::Done, cursor: 0 },
                    result: Ok(()),
                    last_stop: None,
                },
                Action::Finish,
            ),
        ),
{
}

/// The result of a run is a success exactly when no start has failed and no
/// failure of a daemon has fired the trigger.
pub proof fn law_result(config: Seq<ProcessConfig>, events: Seq<Event>)
    requires
        config.len() <= usize::MAX,
    ensures
        ({
            let r = spec_run(config, events);
            match r.state.result {
                Ok(_) => forall|k: int|
                    0 <= k < r.replies.len() ==> !aborts(
                        config,
                        r.actions[k],
                        #[trigger] r.replies[k],
                    ) && r.replies[k] != Event::Shutdown(ShutdownReason::DaemonFailed),
                Err(Error::AbnormalShutdown) => exists|k: int|
                    0 <= k < r.replies.len() && #[trigger] r.replies[k] == Event::Shutdown(
                        ShutdownReason::DaemonFailed,
                    ),
                Err(Error::StartupAborted { process, failure }) => exists|k: int|
                    0 <= k < r.replies.len() && aborts_with(
                        config,
                        r.actions[k],
                        #[trigger] r.replies[k],
                        process,
                        failure,
                    ),
            }
        }),
{
    lemma_run_record(config, events);
}

/// Without a daemon, the result of a run is a success as long as every `pre`
/// command has exited with code 0 and the shutdown reason, if one has come,
/// came from outside.
pub proof fn law_one_shots_only(config: Seq<ProcessConfig>, events: Seq<Event>)
    requires
        config.len() <= usize::MAX,
        forall|p: int| 0 <= p < config.len() ==> (#[trigger] config[p]).run is None,
        forall|k: int|
            0 <= k < spec_run(config, events).replies.len() && (#[trigger] spec_run(
                config,
                events,
            ).replies[k]) is Shutdown ==> spec_run(config, events).replies[k] == Event::Shutdown(
                ShutdownReason::ExternalSignal,
            ),
        forall|k: int|
            0 <= k < spec_run(config, events).replies.len() && request_of(
                #[trigger] spec_run(config, events).actions[k],
            ) == Some(Request::RunPre) ==> spec_run(
                config,
                events,
            ).replies[k] == Event::Reply(Reply::Exited(ExitStatus::Exited(0))),
    ensures
        spec_run(config, events).state.result is Ok,
        forall|k: int|
            0 <= k < spec_run(config, events).actions.len() ==> match #[trigger] spec_run(
                config,
                events,
            ).actions[k] {
                Action::Process(_, request) => request == Request::RunPre || request
                    == Request::RunPost,
                _ => true,
            },
{
    let r = spec_run(config, events);
    lemma_run_record(config, events);
    assert forall|k: int| 0 <= k < r.actions.len() implies match #[trigger] r.actions[k] {
        Action::Process(_, request) => request == Request::RunPre || request == Request::RunPost,
        _ => true,
    } by {
        assert(action_inv(config, r, r.actions[k]));
    }
    match r.state.result {
        Ok(_) => {},
        Err(Error::AbnormalShutdown) => {
            let k = choose|k: int|
                0 <= k < r.replies.len() && #[trigger] r.replies[k] == Event::Shutdown(
                    ShutdownReason::DaemonFailed,
                );
            assert(r.replies[k] is Shutdown);
        },
        Err(Error::StartupAborted { process, failure }) => {
            let k = choose|k: int|
                0 <= k < r.replies.len() && aborts_with(
                    config,
                    r.actions[k],
                    #[trigger] r.replies[k],
                    process,
                    failure,
                );
            assert(action_inv(config, r, r.actions[k]));
            assert(r.actions[k] == Action::Process(process, Request::RunPre));
        },
    }
}

/// A command of the start that cannot be started aborts the startup: the
/// result names the process, the step and the cause, and the processes that
/// had started are stopped, the last of them first.
pub proof fn law_command_failure_aborts_startup(
    config: Seq<ProcessConfig>,
    s: EngineState,
    step: Starting,
    cause: CommandError,
)
    requires
        config.len() <= usize::MAX,
        s.at.cursor < config.len(),
        s.at.phase == Phase::Starting(step),
    ensures
        spec_step(config, s, Event::Reply(Reply::Failed(cause))) matches Some((next, action))
            && next.result == Err::<(), Error>(
            Error::StartupAborted {
                process: s.at.cursor,
                failure: StartFailure {
                    error: if step == Starting::Pre {
                        StartProcessError::PreRunFailed
                    } else {
                        StartProcessError::RunFailed
                    },
                    cause: Some(cause),
                },
            },
        ) && (next.at, action) == stop_from(config, s.at.cursor as int) && (next.at.phase
            is Stopping || next.at.phase is Done),
{
    lemma_stop_from(config, s.at.cursor as int);
}

/// The supervisor takes an event exactly when it is of the kind that answers
/// the action that stands, so that it never waits in vain; and it hands out
/// no more actions than the schedule holds.
pub proof fn law_progress(config: Seq<ProcessConfig>, events: Seq<Event>, event: Event)
    requires
        config.len() <= usize::MAX,
    ensures
        spec_step(config, spec_run(config, events).state, event) is Some <==> fits(
            spec_run(config, events).actions.last(),
            event,
        ),
        spec_run(config, events).actions.len() <= 6 * config.len() + 2,
{
    let r = spec_run(config, events);
    lemma_run_record(config, events);
    assert(action_inv(config, r, r.actions[r.actions.len() - 1]));
    lemma_step_fits(config, r.state, event);
    lemma_rank_bound(config, r, r.actions.len() - 1);
}

/// The place of an action in the schedule is no less than its place in the
/// run.
proof fn lemma_rank_bound(config: Seq<ProcessConfig>, r: Run, k: int)
    requires
        inv(config, r),
        0 <= k < r.actions.len(),
    ensures
        k <= rank(config.len() as int, r.actions[k]) <= 6 * config.len() + 1,
    decreases k,
{
    assert(action_inv(config, r, r.actions[k]));
    if k > 0 {
        lemma_rank_bound(config, r, k - 1);
        assert(rank(config.len() as int, r.actions[k - 1]) < rank(
            config.len() as int,
            r.actions[k],
        ));
    }
}

} // verus!
