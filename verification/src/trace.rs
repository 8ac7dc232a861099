//! Runs of the supervisor: what it asks for, in which order, whatever the
//! replies are.

use vstd::prelude::*;

use crate::command::ExitStatus;
use crate::config::process::{ProcessConfig, StopMechanism};
use crate::process::{
    spec_continue_start, spec_continue_stop, spec_handle, spec_start_process, spec_stop_process,
    Reply, Request, StartStep, Starting, StopStep, Stopping,
};
use crate::supervisor::{
    spec_init, spec_run, spec_step, start_from, stop_from, wf, Action, EngineState, Event, Phase,
    Position, Run,
};
use crate::{Error, ShutdownReason};

verus! {

/// A request of the start of a process.
pub open spec fn is_start_request(request: Request) -> bool {
    request == Request::RunPre || request == Request::SpawnRun
}

/// A request of the stop mechanism of a daemon.
pub open spec fn is_stop_request(request: Request) -> bool {
    !is_start_request(request) && request != Request::RunPost
}

/// A request of the teardown of a process: of its stop, or its `post`.
pub open spec fn is_teardown_request(request: Request) -> bool {
    !is_start_request(request)
}

/// The place of a request among those of one process.
pub open spec fn request_rank(request: Request) -> int {
    match request {
        Request::RunPre => 0,
        Request::SpawnRun => 1,
        Request::PollExit => 0,
        Request::SendSignal(_) => 1,
        Request::RunStop => 1,
        Request::AwaitExit => 2,
        Request::RunPost => 3,
    }
}

/// The place of an action in the schedule of `n` processes: the starts in
/// the order of declaration, the wait for the trigger, the teardowns in
/// reverse order, the end.
pub open spec fn rank(n: int, action: Action) -> int {
    match action {
        Action::Process(i, request) => if is_start_request(request) {
            2 * i + request_rank(request)
        } else {
            2 * n + 1 + 4 * (n - 1 - i) + request_rank(request)
        },
        Action::AwaitShutdown => 2 * n,
        Action::Finish => 6 * n + 1,
    }
}

/// The action that stands at a position.
pub open spec fn pending(at: Position) -> Action {
    match at.phase {
        Phase::Starting(step) => Action::Process(at.cursor, step.spec_request()),
        Phase::Supervising => Action::AwaitShutdown,
        Phase::Stopping(step) => Action::Process(at.cursor, step.spec_request()),
        Phase::Done => Action::Finish,
    }
}

/// The request is one that the process's configuration gives rise to.
pub open spec fn configured(config: ProcessConfig, request: Request) -> bool {
    match request {
        Request::RunPre => config.pre is Some,
        Request::SpawnRun => config.run is Some,
        Request::PollExit => config.run is Some,
        Request::SendSignal(signal) => config.run is Some && config.stop == StopMechanism::Signal(
            signal,
        ),
        Request::RunStop => config.run is Some && config.stop is Command,
        Request::AwaitExit => config.run is Some,
        Request::RunPost => config.post is Some,
    }
}

/// Nothing has to be done to start the process.
pub open spec fn starts_silently(config: ProcessConfig) -> bool {
    config.pre is None && config.run is None
}

/// Nothing has to be done to stop the process.
pub open spec fn stops_silently(config: ProcessConfig) -> bool {
    config.run is None && config.post is None
}

/// Starting from place `i` passes over the processes that start silently
/// and stops at the first that does not.
pub proof fn lemma_start_from(config: Seq<ProcessConfig>, i: int)
    requires
        0 <= i <= config.len() <= usize::MAX,
    ensures
        ({
            let (at, action) = start_from(config, i);
            &&& action == pending(at)
            &&& wf(config, at)
            &&& match at.phase {
                Phase::Starting(step) => i <= at.cursor < config.len() && spec_start_process(
                    config[at.cursor as int],
                ) == StartStep::Wait(step),
                Phase::Supervising => at.cursor == config.len(),
                _ => false,
            }
            &&& forall|p: int| i <= p < at.cursor ==> starts_silently(#[trigger] config[p])
        }),
    decreases config.len() - i,
{
    if i < config.len() {
        match spec_start_process(config[i]) {
            StartStep::Wait(_) => {},
            _ => {
                lemma_start_from(config, i + 1);
            },
        }
    }
}

/// Stopping the first `k` processes passes over those that stop silently,
/// from the last down, and stops at the first that does not.
pub proof fn lemma_stop_from(config: Seq<ProcessConfig>, k: int)
    requires
        0 <= k <= config.len() <= usize::MAX,
    ensures
        ({
            let (at, action) = stop_from(config, k);
            &&& action == pending(at)
            &&& wf(config, at)
            &&& match at.phase {
                Phase::Stopping(step) => at.cursor < k && spec_stop_process(
                    config[at.cursor as int],
                    spec_handle(config[at.cursor as int]),
                ) == StopStep::Wait(step) && forall|p: int|
                    at.cursor < p < k ==> stops_silently(#[trigger] config[p]),
                Phase::Done => forall|p: int| 0 <= p < k ==> stops_silently(#[trigger] config[p]),
                _ => false,
            }
        }),
    decreases k,
{
    if 0 < k {
        match spec_stop_process(config[k - 1], spec_handle(config[k - 1])) {
            StopStep::Wait(_) => {},
            StopStep::Stopped(_) => {
                lemma_stop_from(config, k - 1);
            },
        }
    }
}

/// The action asks process `p` for `request`.
pub open spec fn is_process(action: Action, p: int, request: Request) -> bool {
    action == Action::Process(p as usize, request) && 0 <= p <= usize::MAX
}

/// The process that an action is about; -1 for the actions about none.
pub open spec fn process_of(action: Action) -> int {
    match action {
        Action::Process(i, _) => i as int,
        _ => -1,
    }
}

/// The request that an action makes of a process.
pub open spec fn request_of(action: Action) -> Option<Request> {
    match action {
        Action::Process(_, request) => Some(request),
        _ => None,
    }
}

/// The run has asked process `p` for `request`.
pub open spec fn asked(r: Run, p: int, request: Request) -> bool {
    exists|k: int| 0 <= k < r.actions.len() && is_process(#[trigger] r.actions[k], p, request)
}

/// The run has asked process `p` for `request` and has got `reply`.
pub open spec fn answered(r: Run, p: int, request: Request, reply: Reply) -> bool {
    exists|k: int|
        0 <= k < r.replies.len() && k < r.actions.len() && is_process(
            #[trigger] r.actions[k],
            p,
            request,
        ) && r.replies[k] == Event::Reply(reply)
}

/// The `pre` command of process `p` has run and has exited with code 0.
pub open spec fn pre_done(r: Run, p: int) -> bool {
    answered(r, p, Request::RunPre, Reply::Exited(ExitStatus::Exited(0)))
}

/// The `run` command of process `p` has been spawned.
pub open spec fn spawned(r: Run, p: int) -> bool {
    answered(r, p, Request::SpawnRun, Reply::Spawned)
}

/// Process `p` has started: what its configuration holds for its start has
/// been done, with success.
pub open spec fn started(config: Seq<ProcessConfig>, r: Run, p: int) -> bool {
    &&& config[p].pre is Some ==> pre_done(r, p)
    &&& config[p].run is Some ==> spawned(r, p)
}

/// Process `p` has been torn down: a daemon has gone through its stop, and
/// the `post` command has been asked for where there is one.
pub open spec fn torn_down(config: Seq<ProcessConfig>, r: Run, p: int) -> bool {
    &&& config[p].run is Some ==> asked(r, p, Request::PollExit)
    &&& config[p].post is Some ==> asked(r, p, Request::RunPost)
}

/// How many processes have started once the startup is over: all of them,
/// or those before the one whose start failed.
pub open spec fn started_count(config: Seq<ProcessConfig>, result: Result<(), Error>) -> int {
    match result {
        Err(Error::StartupAborted { process, .. }) => process as int,
        _ => config.len() as int,
    }
}

/// The actions of a run keep to the schedule: each comes later in it than
/// all before.
pub open spec fn ordered(n: int, actions: Seq<Action>) -> bool {
    forall|a: int, b: int|
        0 <= a < b < actions.len() ==> rank(n, #[trigger] actions[a]) < rank(
            n,
            #[trigger] actions[b],
        )
}

/// What holds of every action of a run.
pub open spec fn action_inv(config: Seq<ProcessConfig>, r: Run, action: Action) -> bool {
    match action {
        Action::Process(i, request) => {
            &&& i < config.len()
            &&& configured(config[i as int], request)
            &&& request != Request::RunPre && config[i as int].pre is Some ==> pre_done(
                r,
                i as int,
            )
            &&& is_teardown_request(request) ==> started(config, r, i as int) && i < started_count(
                config,
                r.state.result,
            )
            &&& is_teardown_request(request) && config[i as int].run is Some ==> asked(
                r,
                i as int,
                Request::PollExit,
            )
        },
        _ => true,
    }
}

/// What holds of the state that a run has reached.
pub open spec fn state_inv(config: Seq<ProcessConfig>, r: Run) -> bool {
    let at = r.state.at;
    let top = started_count(config, r.state.result);
    match at.phase {
        Phase::Starting(step) => {
            &&& r.state.result is Ok
            &&& forall|p: int| 0 <= p < at.cursor ==> #[trigger] started(config, r, p)
            &&& step == Starting::Run && config[at.cursor as int].pre is Some ==> pre_done(
                r,
                at.cursor as int,
            )
        },
        Phase::Supervising => {
            &&& r.state.result is Ok
            &&& forall|p: int| 0 <= p < config.len() ==> #[trigger] started(config, r, p)
        },
        Phase::Stopping(step) => {
            &&& at.cursor < top <= config.len()
            &&& forall|p: int| 0 <= p < top ==> #[trigger] started(config, r, p)
            &&& forall|p: int| at.cursor < p < top ==> #[trigger] torn_down(config, r, p)
            &&& config[at.cursor as int].run is Some ==> asked(
                r,
                at.cursor as int,
                Request::PollExit,
            )
        },
        Phase::Done => {
            &&& 0 <= top <= config.len()
            &&& forall|p: int| 0 <= p < top ==> #[trigger] started(config, r, p)
            &&& forall|p: int| 0 <= p < top ==> #[trigger] torn_down(config, r, p)
        },
    }
}

/// What holds of every run.
pub open spec fn inv(config: Seq<ProcessConfig>, r: Run) -> bool {
    &&& r.actions.len() == r.replies.len() + 1
    &&& wf(config, r.state.at)
    &&& r.actions.last() == pending(r.state.at)
    &&& ordered(config.len() as int, r.actions)
    &&& forall|k: int| 0 <= k < r.actions.len() ==> action_inv(config, r, #[trigger] r.actions[k])
    &&& forall|k: int, p: int|
        0 <= k < r.actions.len() && 0 <= p < process_of(#[trigger] r.actions[k]) ==> #[trigger] started(
            config,
            r,
            p,
        )
    &&& state_inv(config, r)
}

/// The run that one more event, taken with the action it leads to, makes of
/// a run.
pub open spec fn extend(r: Run, state: EngineState, action: Action, event: Event) -> Run {
    Run { state, actions: r.actions.push(action), replies: r.replies.push(event) }
}

/// What a run has been asked and answered stays so when the run goes on.
proof fn lemma_extend_keeps(
    config: Seq<ProcessConfig>,
    r: Run,
    state: EngineState,
    action: Action,
    event: Event,
)
    requires
        r.actions.len() == r.replies.len() + 1,
    ensures
        forall|p: int, request: Request|
            asked(r, p, request) ==> #[trigger] asked(
                extend(r, state, action, event),
                p,
                request,
            ),
        forall|p: int, request: Request, reply: Reply|
            answered(r, p, request, reply) ==> #[trigger] answered(
                extend(r, state, action, event),
                p,
                request,
                reply,
            ),
        forall|p: int|
            started(config, r, p) ==> #[trigger] started(
                config,
                extend(r, state, action, event),
                p,
            ),
        forall|p: int|
            torn_down(config, r, p) ==> #[trigger] torn_down(
                config,
                extend(r, state, action, event),
                p,
            ),
{
    let r2 = extend(r, state, action, event);
    assert forall|p: int, request: Request| asked(r, p, request) implies #[trigger] asked(
        r2,
        p,
        request,
    ) by {
        let k = choose|k: int|
            0 <= k < r.actions.len() && is_process(#[trigger] r.actions[k], p, request);
        assert(r2.actions[k] == r.actions[k]);
    }
    assert forall|p: int, request: Request, reply: Reply|
        answered(r, p, request, reply) implies #[trigger] answered(r2, p, request, reply) by {
        let k = choose|k: int|
            0 <= k < r.replies.len() && k < r.actions.len() && is_process(
                #[trigger] r.actions[k],
                p,
                request,
            ) && r.replies[k] == Event::Reply(reply);
        assert(r2.actions[k] == r.actions[k]);
        assert(r2.replies[k] == r.replies[k]);
    }
}

/// The event that a run takes answers the action that stood.
proof fn lemma_extend_answers(
    r: Run,
    state: EngineState,
    action: Action,
    reply: Reply,
    p: int,
    request: Request,
)
    requires
        r.actions.len() == r.replies.len() + 1,
        is_process(r.actions.last(), p, request),
    ensures
        answered(extend(r, state, action, Event::Reply(reply)), p, request, reply),
{
    let r2 = extend(r, state, action, Event::Reply(reply));
    let k = r.replies.len() as int;
    assert(r2.actions[k] == r.actions.last());
    assert(r2.replies[k] == Event::Reply(reply));
    assert(is_process(r2.actions[k], p, request));
}

/// The action that a run is extended by has been asked.
proof fn lemma_extend_asks(
    r: Run,
    state: EngineState,
    p: int,
    request: Request,
    event: Event,
)
    requires
        0 <= p <= usize::MAX,
    ensures
        asked(extend(r, state, Action::Process(p as usize, request), event), p, request),
{
    let r2 = extend(r, state, Action::Process(p as usize, request), event);
    let k = r.actions.len() as int;
    assert(is_process(r2.actions[k], p, request));
}

/// An action that comes later in the schedule than the last one keeps the
/// order.
proof fn lemma_ordered_push(n: int, actions: Seq<Action>, action: Action)
    requires
        ordered(n, actions),
        actions.len() > 0,
        rank(n, actions.last()) < rank(n, action),
    ensures
        ordered(n, actions.push(action)),
{
    let next = actions.push(action);
    assert forall|a: int, b: int| 0 <= a < b < next.len() implies rank(n, #[trigger] next[a])
        < rank(n, #[trigger] next[b]) by {
        if b < actions.len() {
            assert(next[a] == actions[a] && next[b] == actions[b]);
        } else {
            assert(next[a] == actions[a]);
            if a < actions.len() - 1 {
                assert(rank(n, actions[a]) < rank(n, actions[actions.len() - 1]));
            }
        }
    }
}

/// While the processes start, and while the trigger is awaited, no teardown
/// has been asked for.
proof fn lemma_no_teardown_yet(config: Seq<ProcessConfig>, r: Run)
    requires
        inv(config, r),
        r.state.at.phase is Starting || r.state.at.phase is Supervising,
    ensures
        forall|k: int|
            0 <= k < r.actions.len() ==> match #[trigger] r.actions[k] {
                Action::Process(_, request) => is_start_request(request),
                Action::AwaitShutdown => true,
                Action::Finish => false,
            },
{
    let n = config.len() as int;
    let last = r.actions.len() - 1;
    assert(rank(n, r.actions[last]) <= 2 * n);
    assert forall|k: int| 0 <= k < r.actions.len() implies match #[trigger] r.actions[k] {
        Action::Process(_, request) => is_start_request(request),
        Action::AwaitShutdown => true,
        Action::Finish => false,
    } by {
        assert(action_inv(config, r, r.actions[k]));
        if k < last {
            assert(rank(n, r.actions[k]) < rank(n, r.actions[last]));
        }
    }
}

/// What held of the actions of a run holds of them in the run that goes on,
/// as long as no process that was torn down falls out of the started ones.
proof fn lemma_old_actions(
    config: Seq<ProcessConfig>,
    r: Run,
    state: EngineState,
    action: Action,
    event: Event,
)
    requires
        inv(config, r),
        started_count(config, state.result) == started_count(config, r.state.result) || r.state.at.phase
            is Starting || r.state.at.phase is Supervising,
    ensures
        ({
            let r2 = extend(r, state, action, event);
            &&& forall|k: int|
                0 <= k < r.actions.len() ==> action_inv(config, r2, #[trigger] r2.actions[k])
            &&& forall|k: int, p: int|
                0 <= k < r.actions.len() && 0 <= p < process_of(#[trigger] r2.actions[k])
                    ==> #[trigger] started(config, r2, p)
        }),
{
    let r2 = extend(r, state, action, event);
    lemma_extend_keeps(config, r, state, action, event);
    if r.state.at.phase is Starting || r.state.at.phase is Supervising {
        lemma_no_teardown_yet(config, r);
    }
    assert forall|k: int| 0 <= k < r.actions.len() implies action_inv(
        config,
        r2,
        #[trigger] r2.actions[k],
    ) by {
        assert(r2.actions[k] == r.actions[k]);
        assert(action_inv(config, r, r.actions[k]));
    }
    assert forall|k: int, p: int|
        0 <= k < r.actions.len() && 0 <= p < process_of(
            #[trigger] r2.actions[k],
        ) implies #[trigger] started(config, r2, p) by {
        assert(r2.actions[k] == r.actions[k]);
        assert(started(config, r, p));
    }
}

/// A run that goes on by a step stays within what holds of every run, given
/// what has to be shown of the new state and the new action.
proof fn lemma_inv_extend(
    config: Seq<ProcessConfig>,
    r: Run,
    state: EngineState,
    action: Action,
    event: Event,
)
    requires
        inv(config, r),
        wf(config, state.at),
        action == pending(state.at),
        rank(config.len() as int, r.actions.last()) < rank(config.len() as int, action),
        started_count(config, state.result) == started_count(config, r.state.result) || r.state.at.phase
            is Starting || r.state.at.phase is Supervising,
        action_inv(config, extend(r, state, action, event), action),
        forall|p: int|
            0 <= p < process_of(action) ==> #[trigger] started(
                config,
                extend(r, state, action, event),
                p,
            ),
        state_inv(config, extend(r, state, action, event)),
    ensures
        inv(config, extend(r, state, action, event)),
{
    let r2 = extend(r, state, action, event);
    lemma_ordered_push(config.len() as int, r.actions, action);
    lemma_old_actions(config, r, state, action, event);
    assert forall|k: int| 0 <= k < r2.actions.len() implies action_inv(
        config,
        r2,
        #[trigger] r2.actions[k],
    ) by {
        if k == r.actions.len() {
            assert(r2.actions[k] == action);
        }
    }
    assert forall|k: int, p: int|
        0 <= k < r2.actions.len() && 0 <= p < process_of(
            #[trigger] r2.actions[k],
        ) implies #[trigger] started(config, r2, p) by {
        if k == r.actions.len() {
            assert(r2.actions[k] == action);
        }
    }
}

/// The start of the process at the cursor goes on to its next step.
proof fn lemma_inv_start_wait(config: Seq<ProcessConfig>, r: Run, reply: Reply)
    requires
        config.len() <= usize::MAX,
        inv(config, r),
        r.state.at.phase matches Phase::Starting(step) && spec_continue_start(
            config[r.state.at.cursor as int],
            step,
            reply,
        ) matches Some(StartStep::Wait(_)),
    ensures
        ({
            let step = spec_step(config, r.state, Event::Reply(reply))->0;
            inv(config, extend(r, step.0, step.1, Event::Reply(reply)))
        }),
{
    let event = Event::Reply(reply);
    let (state, action) = spec_step(config, r.state, event)->0;
    let r2 = extend(r, state, action, event);
    let i = r.state.at.cursor as int;
    lemma_extend_keeps(config, r, state, action, event);
    assert(is_process(r.actions.last(), i, Request::RunPre));
    lemma_extend_answers(r, state, action, reply, i, Request::RunPre);
    assert(pre_done(r2, i));
    assert forall|p: int| 0 <= p < i implies #[trigger] started(config, r2, p) by {
        assert(started(config, r, p));
    }
    lemma_inv_extend(config, r, state, action, event);
}

/// The process at the cursor has started; the next ones start.
proof fn lemma_inv_started(config: Seq<ProcessConfig>, r: Run, reply: Reply)
    requires
        config.len() <= usize::MAX,
        inv(config, r),
        r.state.at.phase matches Phase::Starting(step) && spec_continue_start(
            config[r.state.at.cursor as int],
            step,
            reply,
        ) matches Some(StartStep::Started(_)),
    ensures
        ({
            let step = spec_step(config, r.state, Event::Reply(reply))->0;
            inv(config, extend(r, step.0, step.1, Event::Reply(reply)))
        }),
{
    let event = Event::Reply(reply);
    let (state, action) = spec_step(config, r.state, event)->0;
    let r2 = extend(r, state, action, event);
    let i = r.state.at.cursor as int;
    let step = r.state.at.phase->Starting_0;
    lemma_extend_keeps(config, r, state, action, event);
    lemma_start_from(config, i + 1);
    assert(is_process(r.actions.last(), i, step.spec_request()));
    lemma_extend_answers(r, state, action, reply, i, step.spec_request());
    assert(started(config, r2, i));
    let j = if state.at.phase is Starting {
        state.at.cursor as int
    } else {
        config.len() as int
    };
    assert forall|p: int| 0 <= p < j implies #[trigger] started(config, r2, p) by {
        if p < i {
            assert(started(config, r, p));
        } else if p > i {
            assert(starts_silently(config[p]));
        }
    }
    lemma_inv_extend(config, r, state, action, event);
}

/// What holds once the first `k` processes are stopped from the last down,
/// all of them having started and none of them having been torn down yet.
proof fn lemma_inv_stop_from(
    config: Seq<ProcessConfig>,
    r: Run,
    state: EngineState,
    action: Action,
    event: Event,
    k: int,
)
    requires
        config.len() <= usize::MAX,
        inv(config, r),
        0 <= k <= config.len(),
        (state.at, action) == stop_from(config, k),
        k <= started_count(config, state.result) <= config.len(),
        forall|p: int| 0 <= p < started_count(config, state.result) ==> #[trigger] started(config, r, p),
        forall|p: int|
            k <= p < started_count(config, state.result) ==> #[trigger] torn_down(
                config,
                extend(r, state, action, event),
                p,
            ),
    ensures
        wf(config, state.at),
        action == pending(state.at),
        action_inv(config, extend(r, state, action, event), action),
        forall|p: int|
            0 <= p < process_of(action) ==> #[trigger] started(
                config,
                extend(r, state, action, event),
                p,
            ),
        state_inv(config, extend(r, state, action, event)),
        rank(config.len() as int, action) >= 2 * config.len() + 1 + 4 * (config.len() - k),
{
    let r2 = extend(r, state, action, event);
    let top = started_count(config, state.result);
    lemma_extend_keeps(config, r, state, action, event);
    lemma_stop_from(config, k);
    assert forall|p: int| 0 <= p < top implies #[trigger] started(config, r2, p) by {
        assert(started(config, r, p));
    }
    match state.at.phase {
        Phase::Stopping(step) => {
            let j = state.at.cursor as int;
            assert(started(config, r2, j));
            if config[j].run is Some {
                lemma_extend_asks(r, state, j, Request::PollExit, event);
            }
            assert forall|p: int| j < p < top implies #[trigger] torn_down(config, r2, p) by {
                if p < k {
                    assert(stops_silently(config[p]));
                }
            }
        },
        _ => {
            assert forall|p: int| 0 <= p < top implies #[trigger] torn_down(config, r2, p) by {
                if p < k {
                    assert(stops_silently(config[p]));
                }
            }
        },
    }
}

/// The start of the process at the cursor has failed; the processes before
/// it are stopped.
proof fn lemma_inv_aborted(config: Seq<ProcessConfig>, r: Run, reply: Reply)
    requires
        config.len() <= usize::MAX,
        inv(config, r),
        r.state.at.phase matches Phase::Starting(step) && spec_continue_start(
            config[r.state.at.cursor as int],
            step,
            reply,
        ) matches Some(StartStep::Aborted(_)),
    ensures
        ({
            let step = spec_step(config, r.state, Event::Reply(reply))->0;
            inv(config, extend(r, step.0, step.1, Event::Reply(reply)))
        }),
{
    let event = Event::Reply(reply);
    let (state, action) = spec_step(config, r.state, event)->0;
    let i = r.state.at.cursor as int;
    lemma_inv_stop_from(config, r, state, action, event, i);
    lemma_inv_extend(config, r, state, action, event);
}

/// The shutdown trigger has fired; all processes are stopped.
proof fn lemma_inv_shutdown(config: Seq<ProcessConfig>, r: Run, reason: ShutdownReason)
    requires
        config.len() <= usize::MAX,
        inv(config, r),
        r.state.at.phase is Supervising,
    ensures
        ({
            let step = spec_step(config, r.state, Event::Shutdown(reason))->0;
            inv(config, extend(r, step.0, step.1, Event::Shutdown(reason)))
        }),
{
    let event = Event::Shutdown(reason);
    let (state, action) = spec_step(config, r.state, event)->0;
    lemma_inv_stop_from(config, r, state, action, event, config.len() as int);
    lemma_inv_extend(config, r, state, action, event);
}

/// The stop of the process at the cursor goes on to its next step.
proof fn lemma_inv_stop_wait(config: Seq<ProcessConfig>, r: Run, reply: Reply)
    requires
        config.len() <= usize::MAX,
        inv(config, r),
        r.state.at.phase matches Phase::Stopping(step) && spec_continue_stop(
            config[r.state.at.cursor as int],
            step,
            reply,
        ) matches Some(StopStep::Wait(_)),
    ensures
        ({
            let step = spec_step(config, r.state, Event::Reply(reply))->0;
            inv(config, extend(r, step.0, step.1, Event::Reply(reply)))
        }),
{
    let event = Event::Reply(reply);
    let (state, action) = spec_step(config, r.state, event)->0;
    let r2 = extend(r, state, action, event);
    let i = r.state.at.cursor as int;
    let top = started_count(config, r.state.result);
    lemma_extend_keeps(config, r, state, action, event);
    assert(action_inv(config, r, r.actions[r.actions.len() - 1]));
    assert forall|p: int| 0 <= p < top implies #[trigger] started(config, r2, p) by {
        assert(started(config, r, p));
    }
    assert forall|p: int| i < p < top implies #[trigger] torn_down(config, r2, p) by {
        assert(torn_down(config, r, p));
    }
    lemma_inv_extend(config, r, state, action, event);
}

/// The process at the cursor has stopped; the ones before it are stopped.
proof fn lemma_inv_stopped(config: Seq<ProcessConfig>, r: Run, reply: Reply)
    requires
        config.len() <= usize::MAX,
        inv(config, r),
        r.state.at.phase matches Phase::Stopping(step) && spec_continue_stop(
            config[r.state.at.cursor as int],
            step,
            reply,
        ) matches Some(StopStep::Stopped(_)),
    ensures
        ({
            let step = spec_step(config, r.state, Event::Reply(reply))->0;
            inv(config, extend(r, step.0, step.1, Event::Reply(reply)))
        }),
{
    let event = Event::Reply(reply);
    let (state, action) = spec_step(config, r.state, event)->0;
    let r2 = extend(r, state, action, event);
    let i = r.state.at.cursor as int;
    let top = started_count(config, r.state.result);
    lemma_extend_keeps(config, r, state, action, event);
    assert(action_inv(config, r, r.actions[r.actions.len() - 1]));
    if config[i].post is Some {
        assert(is_process(r.actions[r.actions.len() - 1], i, Request::RunPost));
        assert(asked(r, i, Request::RunPost));
    }
    assert(torn_down(config, r, i));
    assert forall|p: int| i <= p < top implies #[trigger] torn_down(config, r2, p) by {
        assert(torn_down(config, r, p));
    }
    assert forall|p: int| 0 <= p < top implies #[trigger] started(config, r, p) by {}
    lemma_inv_stop_from(config, r, state, action, event, i);
    lemma_inv_extend(config, r, state, action, event);
}

/// What holds of every run holds of the run that a step makes of one.
pub proof fn lemma_step_inv(config: Seq<ProcessConfig>, r: Run, event: Event)
    requires
        config.len() <= usize::MAX,
        inv(config, r),
        spec_step(config, r.state, event) is Some,
    ensures
        ({
            let step = spec_step(config, r.state, event)->0;
            inv(config, extend(r, step.0, step.1, event))
        }),
{
    let i = r.state.at.cursor as int;
    match (r.state.at.phase, event) {
        (Phase::Starting(step), Event::Reply(reply)) => {
            match spec_continue_start(config[i], step, reply) {
                Some(StartStep::Wait(_)) => lemma_inv_start_wait(config, r, reply),
                Some(StartStep::Started(_)) => lemma_inv_started(config, r, reply),
                Some(StartStep::Aborted(_)) => lemma_inv_aborted(config, r, reply),
                None => {},
            }
        },
        (Phase::Supervising, Event::Shutdown(reason)) => lemma_inv_shutdown(config, r, reason),
        (Phase::Stopping(step), Event::Reply(reply)) => {
            match spec_continue_stop(config[i], step, reply) {
                Some(StopStep::Wait(_)) => lemma_inv_stop_wait(config, r, reply),
                Some(StopStep::Stopped(_)) => lemma_inv_stopped(config, r, reply),
                None => {},
            }
        },
        _ => {},
    }
}

/// What holds of every run holds of the run that has taken no event yet.
proof fn lemma_init_inv(config: Seq<ProcessConfig>)
    requires
        config.len() <= usize::MAX,
    ensures
        inv(config, spec_run(config, Seq::empty())),
{
    let r = spec_run(config, Seq::empty());
    lemma_start_from(config, 0);
    assert(r.actions[0] == pending(r.state.at));
    assert forall|p: int| 0 <= p < r.state.at.cursor implies #[trigger] started(config, r, p) by {
        assert(starts_silently(config[p]));
    }
}

/// The invariant of the supervisor: it holds of the run that any events
/// give rise to.
pub proof fn lemma_run_inv(config: Seq<ProcessConfig>, events: Seq<Event>)
    requires
        config.len() <= usize::MAX,
    ensures
        inv(config, spec_run(config, events)),
    decreases events.len(),
{
    if events.len() == 0 {
        assert(events =~= Seq::empty());
        lemma_init_inv(config);
    } else {
        let before = spec_run(config, events.drop_last());
        lemma_run_inv(config, events.drop_last());
        if spec_step(config, before.state, events.last()) is Some {
            lemma_step_inv(config, before, events.last());
        }
    }
}

/// The reply is of the kind that answers the request.
pub open spec fn reply_fits(request: Request, reply: Reply) -> bool {
    match request {
        Request::RunPre => reply is Exited || reply is Failed,
        Request::SpawnRun => reply is Spawned || reply is Failed,
        Request::PollExit => reply is Polled,
        Request::SendSignal(_) => reply is Signalled,
        Request::RunStop => reply is Exited || reply is Failed,
        Request::AwaitExit => reply is ExitObserved,
        Request::RunPost => reply is Exited || reply is Failed,
    }
}

/// The event is of the kind that answers the action.
pub open spec fn fits(action: Action, event: Event) -> bool {
    match action {
        Action::Process(_, request) => event matches Event::Reply(reply) && reply_fits(
            request,
            reply,
        ),
        Action::AwaitShutdown => event is Shutdown,
        Action::Finish => false,
    }
}

/// The step of a start that a request belongs to.
pub open spec fn start_step_of(request: Request) -> Starting {
    if request == Request::RunPre {
        Starting::Pre
    } else {
        Starting::Run
    }
}

/// The event, as the answer to the action, makes the start of the process
/// fail with this failure.
pub open spec fn aborts_with(
    config: Seq<ProcessConfig>,
    action: Action,
    event: Event,
    process: usize,
    failure: crate::StartFailure,
) -> bool {
    &&& action matches Action::Process(i, request)
    &&& i == process
    &&& is_start_request(request)
    &&& event matches Event::Reply(reply)
    &&& spec_continue_start(config[i as int], start_step_of(request), reply) == Some(
        StartStep::Aborted(failure),
    )
}

/// The event, as the answer to the action, makes the start of a process
/// fail.
pub open spec fn aborts(config: Seq<ProcessConfig>, action: Action, event: Event) -> bool {
    &&& action matches Action::Process(i, request)
    &&& is_start_request(request)
    &&& event matches Event::Reply(reply)
    &&& spec_continue_start(config[i as int], start_step_of(request), reply) matches Some(
        StartStep::Aborted(_),
    )
}

/// The result of a run goes by what the run has taken: it is an error
/// exactly when a start has failed or a daemon's failure has fired the
/// trigger, and the error says which.
pub open spec fn result_inv(config: Seq<ProcessConfig>, r: Run) -> bool {
    match r.state.result {
        Ok(_) => forall|k: int|
            0 <= k < r.replies.len() ==> !aborts(config, r.actions[k], #[trigger] r.replies[k])
                && r.replies[k] != Event::Shutdown(ShutdownReason::DaemonFailed),
        Err(Error::AbnormalShutdown) => exists|k: int|
            0 <= k < r.replies.len() && #[trigger] r.replies[k] == Event::Shutdown(
                ShutdownReason::DaemonFailed,
            ),
        Err(Error::StartupAborted { process, failure }) => exists|k: int|
            0 <= k < r.replies.len() && aborts_with(
                config,
                r.actions[k],
                #[trigger] r.replies[k],
                process,
                failure,
            ),
    }
}

/// What holds of the events that a run has taken.
pub open spec fn record_inv(config: Seq<ProcessConfig>, r: Run) -> bool {
    &&& forall|k: int| 0 <= k < r.replies.len() ==> fits(r.actions[k], #[trigger] r.replies[k])
    &&& result_inv(config, r)
}

/// The supervisor takes an event exactly when it is of the kind that
/// answers the action that stands.
pub proof fn lemma_step_fits(config: Seq<ProcessConfig>, s: EngineState, event: Event)
    requires
        wf(config, s.at),
        match s.at.phase {
            Phase::Starting(step) => configured(config[s.at.cursor as int], step.spec_request()),
            _ => true,
        },
    ensures
        spec_step(config, s, event) is Some <==> fits(pending(s.at), event),
{
}

/// What holds of the events of a run holds of those of the run that a step
/// makes of it.
pub proof fn lemma_step_record(config: Seq<ProcessConfig>, r: Run, event: Event)
    requires
        config.len() <= usize::MAX,
        inv(config, r),
        record_inv(config, r),
        spec_step(config, r.state, event) is Some,
    ensures
        ({
            let step = spec_step(config, r.state, event)->0;
            record_inv(config, extend(r, step.0, step.1, event))
        }),
{
    let (state, action) = spec_step(config, r.state, event)->0;
    let r2 = extend(r, state, action, event);
    let last = r.replies.len() as int;
    assert(action_inv(config, r, r.actions[last]));
    lemma_step_fits(config, r.state, event);
    assert forall|k: int| 0 <= k < r2.replies.len() implies fits(
        r2.actions[k],
        #[trigger] r2.replies[k],
    ) by {
        if k < last {
            assert(r2.replies[k] == r.replies[k]);
            assert(r2.actions[k] == r.actions[k]);
        }
    }
    assert(r2.replies[last] == event);
    assert(r2.actions[last] == r.actions[last]);
    match state.result {
        Ok(_) => {
            assert forall|k: int| 0 <= k < r2.replies.len() implies !aborts(
                config,
                r2.actions[k],
                #[trigger] r2.replies[k],
            ) && r2.replies[k] != Event::Shutdown(ShutdownReason::DaemonFailed) by {
                if k < last {
                    assert(r2.replies[k] == r.replies[k]);
                    assert(r2.actions[k] == r.actions[k]);
                }
            }
        },
        Err(Error::AbnormalShutdown) => {
            if r.state.result == state.result {
                let k = choose|k: int|
                    0 <= k < r.replies.len() && #[trigger] r.replies[k] == Event::Shutdown(
                        ShutdownReason::DaemonFailed,
                    );
                assert(r2.replies[k] == r.replies[k]);
            }
        },
        Err(Error::StartupAborted { process, failure }) => {
            if r.state.result == state.result {
                let k = choose|k: int|
                    0 <= k < r.replies.len() && aborts_with(
                        config,
                        r.actions[k],
                        #[trigger] r.replies[k],
                        process,
                        failure,
                    );
                assert(r2.replies[k] == r.replies[k]);
                assert(r2.actions[k] == r.actions[k]);
            } else {
                assert(aborts_with(config, r2.actions[last], r2.replies[last], process, failure));
            }
        },
    }
}

/// What holds of the events of a run: it holds of the run that any events
/// give rise to.
pub proof fn lemma_run_record(config: Seq<ProcessConfig>, events: Seq<Event>)
    requires
        config.len() <= usize::MAX,
    ensures
        inv(config, spec_run(config, events)),
        record_inv(config, spec_run(config, events)),
    decreases events.len(),
{
    lemma_run_inv(config, events);
    if events.len() > 0 {
        let before = spec_run(config, events.drop_last());
        lemma_run_record(config, events.drop_last());
        if spec_step(config, before.state, events.last()) is Some {
            lemma_step_record(config, before, events.last());
        }
    }
}

} // verus!
