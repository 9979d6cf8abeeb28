//! What the supervisor does next, whatever it is told: which process is started, polled or stopped,
//! how nodes change their states, and what is logged.

use vstd::prelude::*;
use vstd::seq_lib::*;

use crate::lifecycle;
use crate::lifecycle::{
    BatchModel, BatchStageModel, LaunchModel, LaunchStageModel, Model, PhaseModel, RoundModel,
    RoundStageModel,
};
use crate::lifecycle_laws;
use crate::lists;
use crate::order;
use crate::protocol;
use crate::protocol::{
    Action, ActionModel, ExitModel, Notice, NoticeModel, Report, ReportModel, WatcherEnd,
    WatcherEndModel,
};
use crate::runner;
use crate::text;
use crate::types::{GraphView, State};

verus! {

/// The state of a node.
pub open spec fn state_of(m: Model, x: usize) -> State {
    m.graph.nodes[x as int].state
}

/// Node `x` is in `state` now, and all other nodes are in the states that they were in.
pub open spec fn only_marks(m: Model, next: Model, x: usize, state: State) -> bool {
    &&& state_of(next, x) == state
    &&& forall|y: usize|
        y != x && y < m.graph.nodes.len() ==> #[trigger] state_of(next, y) == state_of(m, y)
}

/// All nodes are in the states that they were in.
pub open spec fn marks_nothing(m: Model, next: Model) -> bool {
    forall|y: usize| y < m.graph.nodes.len() ==> #[trigger] state_of(next, y) == state_of(m, y)
}

/// A message that is logged for node `x`, under its name and in its color.
pub open spec fn message_of(m: Model, x: usize, message: Seq<char>) -> NoticeModel {
    NoticeModel::Service {
        name: m.graph.nodes[x as int].service.name,
        color: m.graph.nodes[x as int].service.color,
        message,
    }
}

/// The running services are being stopped one after the other, first the first; where none runs,
/// the watcher is waited for, if there is one, and then the supervisor is done.
pub open spec fn is_stopping(next: Model) -> bool {
    if next.children.len() > 0 {
        next.wanted() == ActionModel::Terminate(next.children[0]) && next.phase is Stopping
    } else if next.watching {
        next.wanted() is JoinWatcher
    } else {
        next.wanted() == ActionModel::Finish(Ok(()))
    }
}

/// The targets are being started from number `k` on; where none is left, the supervisor goes on to
/// the next round.
pub open spec fn is_launching(next: Model, targets: Seq<usize>, k: int) -> bool {
    &&& next.wanted() is Resume
    &&& if k < targets.len() {
        next.phase == PhaseModel::Launching(
            LaunchModel { targets, position: k, stage: LaunchStageModel::Check },
        )
    } else {
        next.phase is Between
    }
}

/// The outcome of a turn of polling: the next service is polled; after the last one changes are
/// waited for exactly when files are watched, whether or not a service still runs. Where nothing is
/// watched, the supervisor goes on after a pause as long as a service runs, and is done otherwise.
pub open spec fn polls_on(next: Model, round: RoundModel) -> bool {
    if round.position + 1 < round.pending.len() {
        next.wanted() == ActionModel::Poll(round.pending[round.position + 1])
    } else if next.watching {
        next.wanted() is AwaitChanges
    } else if next.children.len() > 0 {
        next.wanted() is Pause
    } else {
        next.wanted() == ActionModel::Finish(Ok(()))
    }
}

/// A service that is found running, or whose state is not known, stays as it is, and the round goes
/// on. One that has ended is stopped with its descendants before the round goes on, and leaves the
/// running services at once, alone.
pub proof fn lemma_polled_service(m: Model, round: RoundModel, report: ReportModel)
    requires
        m.in_range(),
        m.phase == PhaseModel::Polling(round),
        round.stage is Polling,
    ensures
        marks_nothing(m, m.step(report).0),
        report matches ReportModel::Polled(Ok(None)) ==> {
            let (next, notices) = m.step(report);
            polls_on(next, round) && next.children == m.children && notices.len() == 0
        },
        report matches ReportModel::Polled(Err(message)) ==> {
            let (next, notices) = m.step(report);
            &&& polls_on(next, round)
            &&& next.children == m.children
            &&& notices == seq![
                NoticeModel::Error(
                    "failed to poll service "@ + text::decimal(round.current() as nat) + ": "@
                        + message,
                ),
            ]
        },
        report matches ReportModel::Polled(Ok(Some(status))) ==> {
            let (next, notices) = m.step(report);
            &&& next.wanted() == ActionModel::Terminate(round.current())
            &&& next.phase == PhaseModel::Polling(
                (RoundModel { stage: RoundStageModel::Ended(status), ..round }),
            )
            &&& notices.len() == 0
            &&& forall|x: usize| #[trigger]
                next.children.contains(x) <==> m.children.contains(x) && x != round.current()
        },
{
    lists::lemma_filter_keeps(m.children, lists::other_than(round.current()));
}

/// A service that has ended is marked as succeeded or failed as its process did, and this is logged
/// for it, after a warning where its descendants could not be stopped. Then the round goes on.
pub proof fn lemma_ended_service(
    m: Model,
    round: RoundModel,
    status: ExitModel,
    result: Result<(), Seq<char>>,
)
    requires
        m.in_range(),
        m.phase == PhaseModel::Polling(round),
        round.stage == RoundStageModel::Ended(status),
    ensures
        ({
            let (next, notices) = m.step(ReportModel::Terminated(result));
            let index = round.current();
            &&& polls_on(next, round)
            &&& next.children == m.children
            &&& status.success ==> only_marks(m, next, index, State::Succeeded)
            &&& !status.success ==> only_marks(m, next, index, State::Failed)
            &&& notices.len() > 0
            &&& notices.last() == message_of(m, index, "exited ("@ + status.text + ")"@)
            &&& result is Ok ==> notices.len() == 1
            &&& result matches Err(message) ==> notices.drop_last() == seq![
                NoticeModel::Warn(
                    "failed to stop descendants of service "@ + text::decimal(index as nat) + ": "@
                        + message,
                ),
            ]
        }),
{
    let (next, notices) = m.step(ReportModel::Terminated(result));
    if let Err(message) = result {
        assert(notices.drop_last() =~= seq![
            NoticeModel::Warn(
                "failed to stop descendants of service "@ + text::decimal(
                    round.current() as nat,
                ) + ": "@ + message,
            ),
        ]);
    }
}

/// While files are watched and the program is not asked to stop, neither polling nor the end of a
/// service ends the supervision: it goes on to poll or to wait for changes.
pub proof fn lemma_watching_outlives_services(m: Model, report: ReportModel)
    requires
        m.in_range(),
        m.watching,
        m.phase is Polling || m.phase is Between,
        !(report matches ReportModel::Resumed { stop } && stop),
    ensures
        m.step(report).0.phase is Polling || m.step(report).0.phase is Watching
            || m.step(report).0.phase is Between,
        m.step(report).0.wanted() !is Finish,
        m.step(report).0.wanted() !is JoinWatcher,
{
}

/// A round polls every running service, in the order in which they were started. Where none runs,
/// changes are waited for exactly when files are watched; otherwise the supervisor is done.
pub proof fn lemma_round_polls_all(m: Model)
    requires
        m.in_range(),
        m.phase is Between,
    ensures
        ({
            let (next, notices) = m.step(ReportModel::Resumed { stop: false });
            &&& next.children == m.children
            &&& marks_nothing(m, next)
            &&& notices.len() == 0
            &&& m.children.len() > 0 ==> next.wanted() == ActionModel::Poll(m.children[0])
                && next.phase == PhaseModel::Polling(
                (RoundModel { pending: m.children, position: 0, stage: RoundStageModel::Polling }),
            )
            &&& m.children.len() == 0 && m.watching ==> next.wanted() is AwaitChanges
            &&& m.children.len() == 0 && !m.watching ==> next.wanted() == ActionModel::Finish(
                Ok(()),
            )
        }),
{
}

/// A round goes from service to service without leaving one out.
pub proof fn lemma_round_goes_in_turn(m: Model, round: RoundModel, report: ReportModel)
    requires
        m.in_range(),
        m.phase == PhaseModel::Polling(round),
    ensures
        m.step(report).0.phase matches PhaseModel::Polling(after) ==> after.pending
            == round.pending && (after.position == round.position || after.position
            == round.position + 1 && after.stage is Polling),
        m.step(report).0.phase !is Polling ==> round.position + 1 == round.pending.len(),
{
}

/// Unless the program is to stop, every service whose turn it is in a launch is started, whatever
/// state it was left in. One that is kept running is stopped before.
pub proof fn lemma_launch_starts_the_service(m: Model, launch: LaunchModel)
    requires
        m.in_range(),
        m.phase == PhaseModel::Launching(launch),
        launch.stage is Check,
    ensures
        ({
            let (next, notices) = m.step(ReportModel::Resumed { stop: false });
            let index = launch.targets[launch.position];
            &&& notices.len() == 0
            &&& !m.children.contains(index) ==> next.wanted() == ActionModel::Spawn(index)
                && only_marks(m, next, index, State::Ready) && next.children == m.children
            &&& m.children.contains(index) ==> next.wanted() == ActionModel::Terminate(index)
                && marks_nothing(m, next)
            &&& forall|x: usize| #[trigger]
                next.children.contains(x) <==> m.children.contains(x) && x != index
        }),
        ({
            let (next, notices) = m.step(ReportModel::Resumed { stop: true });
            &&& next.phase is Between
            &&& next.children == m.children
            &&& marks_nothing(m, next)
            &&& notices.len() == 0
        }),
{
    lists::lemma_filter_keeps(m.children, lists::other_than(launch.current()));
}

/// Once the old process of a service is stopped, the service is started again. Where that fails,
/// this is logged and the launch goes on with the next service.
pub proof fn lemma_replaced_service_is_started(
    m: Model,
    launch: LaunchModel,
    result: Result<(), Seq<char>>,
)
    requires
        m.in_range(),
        m.phase == PhaseModel::Launching(launch),
        launch.stage is Replacing,
    ensures
        ({
            let (next, notices) = m.step(ReportModel::Terminated(result));
            let index = launch.targets[launch.position];
            &&& next.children == m.children
            &&& result is Ok ==> next.wanted() == ActionModel::Spawn(index) && only_marks(
                m,
                next,
                index,
                State::Ready,
            ) && notices.len() == 0
            &&& result matches Err(message) ==> is_launching(
                next,
                launch.targets,
                launch.position + 1,
            ) && marks_nothing(m, next) && notices == seq![
                NoticeModel::Error("failed to stop service before restart: "@ + message),
            ]
        }),
{
}

/// A service that was started is marked and kept as running, behind those that run already; one
/// that could not be started is marked as failed. Either way this is logged and the launch goes on
/// with the next service.
pub proof fn lemma_started_service_is_kept(
    m: Model,
    launch: LaunchModel,
    result: Result<(), Seq<char>>,
)
    requires
        m.in_range(),
        m.phase == PhaseModel::Launching(launch),
        launch.stage is Spawning,
    ensures
        ({
            let (next, notices) = m.step(ReportModel::Spawned(result));
            let index = launch.targets[launch.position];
            &&& is_launching(next, launch.targets, launch.position + 1)
            &&& result is Ok ==> only_marks(m, next, index, State::Running) && next.children
                == m.children.push(index) && notices == seq![message_of(m, index, "started"@)]
            &&& result matches Err(message) ==> only_marks(m, next, index, State::Failed)
                && next.children == m.children && notices == seq![NoticeModel::Error(message)]
        }),
{
}

/// In a launch no service's turn ends without an attempt to start it: it ends with the report of
/// that attempt, or because its old process cannot be stopped, or because the program is to stop.
pub proof fn lemma_no_target_is_passed_over(m: Model, launch: LaunchModel, report: ReportModel)
    requires
        m.in_range(),
        m.phase == PhaseModel::Launching(launch),
    ensures
        ({
            let same_turn = m.step(report).0.phase matches PhaseModel::Launching(after)
                && after.targets == launch.targets && after.position == launch.position;
            same_turn || {
                ||| m.wanted() == ActionModel::Spawn(launch.current()) && report is Spawned
                ||| m.wanted() == ActionModel::Terminate(launch.current()) && (
                report matches ReportModel::Terminated(result) && result is Err)
                ||| report == (ReportModel::Resumed { stop: true })
            }
        }),
{
}

/// How a failed prerequisite is dealt with: at startup it is the end, with its message; on a later
/// run it is logged and the supervisor goes on as before.
pub open spec fn fails_with(
    next: Model,
    notices: Seq<NoticeModel>,
    batch: BatchModel,
    message: Seq<char>,
) -> bool {
    if batch.restart is None {
        next.wanted() == ActionModel::Finish(Err(message)) && notices.len() == 0
    } else {
        &&& next.wanted() is Resume
        &&& next.phase is Between
        &&& notices == seq![
            NoticeModel::Error("watch-triggered prerequisite run failed: "@ + message),
        ]
    }
}

/// How a request to stop is heeded while prerequisites run: at startup nothing is left to do; on a
/// later run the services are stopped.
pub open spec fn stops_run(next: Model, batch: BatchModel) -> bool {
    if batch.restart is None {
        next.wanted() == ActionModel::Finish(Ok(()))
    } else {
        is_stopping(next)
    }
}

/// A prerequisite whose turn it is becomes ready and is started, unless the program is to stop.
pub proof fn lemma_prerequisite_is_started(m: Model, batch: BatchModel)
    requires
        m.in_range(),
        m.phase == PhaseModel::Prerequisites(batch),
        batch.stage is Check,
    ensures
        ({
            let (next, notices) = m.step(ReportModel::Resumed { stop: false });
            let index = batch.indices[batch.position];
            &&& next.wanted() == ActionModel::Spawn(index)
            &&& only_marks(m, next, index, State::Ready)
            &&& next.children == m.children
            &&& notices.len() == 0
        }),
        ({
            let (next, notices) = m.step(ReportModel::Resumed { stop: true });
            &&& stops_run(next, batch)
            &&& marks_nothing(m, next)
            &&& next.children == m.children
            &&& notices.len() == 0
        }),
{
}

/// A prerequisite that was started is running, and this is logged; one that could not be started
/// has failed.
pub proof fn lemma_prerequisite_was_spawned(
    m: Model,
    batch: BatchModel,
    result: Result<(), Seq<char>>,
)
    requires
        m.in_range(),
        m.phase == PhaseModel::Prerequisites(batch),
        batch.stage is Spawning,
    ensures
        ({
            let (next, notices) = m.step(ReportModel::Spawned(result));
            let index = batch.indices[batch.position];
            &&& next.children == m.children
            &&& result is Ok ==> {
                &&& next.wanted() is Resume
                &&& next.phase == PhaseModel::Prerequisites(
                    (BatchModel { stage: BatchStageModel::Waiting { pause: false }, ..batch }),
                )
                &&& only_marks(m, next, index, State::Running)
                &&& notices == seq![message_of(m, index, "started prerequisite"@)]
            }
            &&& result matches Err(message) ==> fails_with(next, notices, batch, message)
                && only_marks(m, next, index, State::Failed)
        }),
{
}

/// A running prerequisite is polled, unless the program is to stop: then it is stopped.
pub proof fn lemma_running_prerequisite_is_polled(m: Model, batch: BatchModel, stop: bool)
    requires
        m.in_range(),
        m.phase == PhaseModel::Prerequisites(batch),
        batch.stage is Waiting,
    ensures
        ({
            let (next, notices) = m.step(ReportModel::Resumed { stop });
            let index = batch.indices[batch.position];
            &&& stop ==> next.wanted() == ActionModel::Terminate(index)
                && lifecycle_laws::winding_down(next)
            &&& !stop ==> next.wanted() == ActionModel::Poll(index)
            &&& marks_nothing(m, next)
            &&& next.children == m.children
            &&& notices.len() == 0
        }),
{
}

/// A prerequisite that is still running is polled again after a pause; one that has ended is
/// stopped with its descendants; one of which nothing is known counts as failed.
pub proof fn lemma_polled_prerequisite(m: Model, batch: BatchModel, report: ReportModel)
    requires
        m.in_range(),
        m.phase == PhaseModel::Prerequisites(batch),
        batch.stage is Polling,
    ensures
        marks_nothing(m, m.step(report).0),
        m.step(report).0.children == m.children,
        report matches ReportModel::Polled(Ok(None)) ==> m.step(report).0.wanted() is Pause
            && m.step(report).1.len() == 0,
        report matches ReportModel::Polled(Ok(Some(status))) ==> m.step(report).0.wanted()
            == ActionModel::Terminate(batch.indices[batch.position]) && m.step(report).0.phase
            == PhaseModel::Prerequisites(
            (BatchModel { stage: BatchStageModel::Reaping(status), ..batch }),
        ) && m.step(report).1.len() == 0,
        report matches ReportModel::Polled(Err(message)) ==> fails_with(
            m.step(report).0,
            m.step(report).1,
            batch,
            "failed to check prerequisite "@
                + m.graph.nodes[batch.indices[batch.position] as int].service.name + ": "@
                + message,
        ),
{
}

/// What follows the last prerequisite: on a later run the services to restart are launched; at
/// startup the watcher is started where files are watched, and else all services are launched.
pub open spec fn follows_run(m: Model, next: Model, batch: BatchModel) -> bool {
    match batch.restart {
        Some(targets) => is_launching(next, targets, 0),
        None => if m.watching {
            next.wanted() is StartWatcher
        } else {
            is_launching(next, m.services, 0)
        },
    }
}

/// A prerequisite that ended in success is marked so, this is logged, and the next one has its
/// turn. One that did not, or that cannot be stopped for good, has failed.
pub proof fn lemma_ended_prerequisite(
    m: Model,
    batch: BatchModel,
    status: ExitModel,
    result: Result<(), Seq<char>>,
)
    requires
        m.in_range(),
        m.phase == PhaseModel::Prerequisites(batch),
        batch.stage == BatchStageModel::Reaping(status),
    ensures
        ({
            let (next, notices) = m.step(ReportModel::Terminated(result));
            let index = batch.indices[batch.position];
            &&& next.children == m.children
            &&& result is Ok && status.success ==> {
                &&& only_marks(m, next, index, State::Succeeded)
                &&& notices == seq![message_of(m, index, "prerequisite completed"@)]
                &&& batch.position + 1 < batch.indices.len() ==> next.wanted() is Resume
                    && next.phase == PhaseModel::Prerequisites(
                    (BatchModel {
                        position: batch.position + 1,
                        stage: BatchStageModel::Check,
                        ..batch
                    }),
                )
                &&& batch.position + 1 == batch.indices.len() ==> follows_run(m, next, batch)
            }
            &&& result is Ok && !status.success ==> only_marks(m, next, index, State::Failed)
                && fails_with(
                next,
                notices,
                batch,
                "prerequisite "@ + m.graph.nodes[index as int].service.name
                    + " exited unsuccessfully ("@ + status.text + ")"@,
            )
            &&& result matches Err(message) ==> fails_with(next, notices, batch, message)
                && marks_nothing(m, next)
        }),
{
}

/// A prerequisite that is stopped because the program is to stop ends the run.
pub proof fn lemma_halted_prerequisite(
    m: Model,
    batch: BatchModel,
    result: Result<(), Seq<char>>,
)
    requires
        m.in_range(),
        m.phase == PhaseModel::Prerequisites(batch),
        batch.stage is Halting,
    ensures
        ({
            let (next, notices) = m.step(ReportModel::Terminated(result));
            &&& next.children == m.children
            &&& marks_nothing(m, next)
            &&& result is Ok ==> stops_run(next, batch) && notices.len() == 0
            &&& result matches Err(message) ==> fails_with(next, notices, batch, message)
        }),
{
}

/// All services are launched once the watcher has started; a watcher that cannot be started is the
/// end, with its message.
pub proof fn lemma_services_follow_the_watcher(m: Model, result: Result<(), Seq<char>>)
    requires
        m.in_range(),
        m.phase is StartingWatcher,
    ensures
        ({
            let (next, notices) = m.step(ReportModel::WatcherStarted(result));
            &&& result is Ok ==> is_launching(next, m.services, 0)
            &&& result matches Err(message) ==> next.wanted() == ActionModel::Finish(Err(message))
            &&& marks_nothing(m, next)
            &&& next.children == m.children
            &&& notices.len() == 0
        }),
{
}

/// Between two rounds a request to stop leads to the stopping of all services.
pub proof fn lemma_stop_request_stops_services(m: Model)
    requires
        m.in_range(),
        m.phase is Between,
    ensures
        ({
            let (next, notices) = m.step(ReportModel::Resumed { stop: true });
            &&& is_stopping(next)
            &&& next.children == m.children
            &&& marks_nothing(m, next)
            &&& notices.len() == 0
        }),
{
}

/// While changes are waited for, silence leads to the next round and the end of all reports to the
/// stopping of all services, which is logged.
pub proof fn lemma_waiting_for_changes(m: Model, report: ReportModel)
    requires
        m.in_range(),
        m.phase is Watching,
    ensures
        report is Quiet || report == ReportModel::Changed(Set::empty()) ==> {
            let (next, notices) = m.step(report);
            &&& next.wanted() is Resume
            &&& next.phase is Between
            &&& next.children == m.children
            &&& marks_nothing(m, next)
            &&& notices.len() == 0
        },
        report is Closed ==> {
            let (next, notices) = m.step(report);
            &&& is_stopping(next)
            &&& next.children == m.children
            &&& marks_nothing(m, next)
            &&& notices == seq![NoticeModel::Error("Watchexec event channel closed"@)]
        },
{
}

/// Changed services are restarted in the supervisor's order, after what they depend on.
pub proof fn lemma_changed_services_keep_their_order(m: Model, affected: Set<usize>, i: int, j: int)
    requires
        m.order.no_duplicates(),
        0 <= i < j < lists::within(m.order, affected).len(),
    ensures
        m.order.contains(lists::within(m.order, affected)[i]),
        m.order.contains(lists::within(m.order, affected)[j]),
        m.order.index_of(lists::within(m.order, affected)[i]) < m.order.index_of(
            lists::within(m.order, affected)[j],
        ),
{
    lists::lemma_filter_keeps_order(m.order, lists::held_by(affected), i, j);
}

/// When services are stopped, each is asked to stop in turn and is pending again, whether or not it
/// could be stopped; where it could not, this is logged. The last one is followed by the watcher.
pub proof fn lemma_services_are_stopped_in_turn(m: Model, result: Result<(), Seq<char>>)
    requires
        m.in_range(),
        m.phase is Stopping,
    ensures
        m.wanted() == ActionModel::Terminate(m.children[0]),
        ({
            let (next, notices) = m.step(ReportModel::Terminated(result));
            &&& next.children == m.children.drop_first()
            &&& only_marks(m, next, m.children[0], State::Pending)
            &&& is_stopping(next)
            &&& result is Ok ==> notices.len() == 0
            &&& result matches Err(message) ==> notices == seq![
                NoticeModel::Warn(
                    "failed to stop service "@ + text::decimal(m.children[0] as nat) + ": "@
                        + message,
                ),
            ]
        }),
{
}

/// Once the watcher has ended the supervisor is done, without an error; how the watcher ended is
/// logged unless it ended as it should.
pub proof fn lemma_watcher_end_is_logged(m: Model, end: WatcherEndModel)
    requires
        m.phase is Joining,
    ensures
        ({
            let (next, notices) = m.step(ReportModel::WatcherJoined(end));
            &&& next.wanted() == ActionModel::Finish(Ok(()))
            &&& next.children == m.children
            &&& marks_nothing(m, next)
            &&& end is Clean ==> notices.len() == 0
            &&& end matches WatcherEndModel::Failed(message) ==> notices == seq![
                NoticeModel::Error("Watchexec stopped: "@ + message),
            ]
            &&& end matches WatcherEndModel::Panicked(message) ==> notices == seq![
                NoticeModel::Error("Watchexec thread panicked: "@ + message),
            ]
        }),
{
}

/// A supervisor starts out with the whole graph and nothing running. It begins with all nodes that
/// others depend on, in dependency order; where there are none, with the watcher where files are
/// watched, and else with the services, which are all other nodes in configuration order.
pub proof fn lemma_supervisor_begins(g: GraphView, watching: bool)
    requires
        g.nodes.len() <= usize::MAX,
    ensures
        lifecycle::start(g, watching).graph == g,
        lifecycle::start(g, watching).order == order::visit_order(g),
        lifecycle::start(g, watching).watching == watching,
        lifecycle::start(g, watching).children.len() == 0,
        forall|x: usize| #[trigger]
            lifecycle::start(g, watching).services.contains(x) <==> x < g.nodes.len()
                && g.nodes[x as int].dependents.len() == 0,
        forall|i: int, j: int|
            0 <= i < j < lifecycle::start(g, watching).services.len() ==> (
            #[trigger] lifecycle::start(g, watching).services[i]) < (
            #[trigger] lifecycle::start(g, watching).services[j]),
        lifecycle::start(g, watching).phase matches PhaseModel::Prerequisites(batch) ==> {
            &&& batch.position == 0
            &&& batch.stage is Check
            &&& batch.restart is None
            &&& forall|x: usize| #[trigger]
                batch.indices.contains(x) <==> order::visit_order(g).contains(x)
                    && g.nodes[x as int].dependents.len() > 0
        },
        lifecycle::start(g, watching).phase !is Prerequisites ==> {
            &&& forall|x: usize| #[trigger]
                order::visit_order(g).contains(x) ==> g.nodes[x as int].dependents.len() == 0
            &&& watching ==> lifecycle::start(g, watching).wanted() is StartWatcher
            &&& !watching ==> is_launching(
                lifecycle::start(g, watching),
                lifecycle::start(g, watching).services,
                0,
            )
        },
{
    let v = order::visit_order(g);
    let keep = |i: usize| g.nodes[i as int].dependents.len() != 0;
    lists::lemma_filter_keeps(v, keep);
    order::lemma_selected(g.nodes.len(), |i: usize| g.nodes[i as int].dependents.len() == 0);
    let indices = lifecycle::startup_batch(g, v);
    if indices.len() == 0 {
        assert forall|x: usize| #[trigger] v.contains(x) implies g.nodes[x as int].dependents.len()
            == 0 by {
            if g.nodes[x as int].dependents.len() != 0 {
                assert(indices.contains(x));
            }
        }
    }
}

/// The prerequisites of the startup run keep the supervisor's order.
pub proof fn lemma_startup_keeps_the_order(g: GraphView, i: int, j: int)
    requires
        g.nodes.len() <= usize::MAX,
        0 <= i < j < lifecycle::startup_batch(g, order::visit_order(g)).len(),
    ensures
        order::visit_order(g).index_of(lifecycle::startup_batch(g, order::visit_order(g))[i])
            < order::visit_order(g).index_of(
            lifecycle::startup_batch(g, order::visit_order(g))[j],
        ),
{
    order::lemma_visited_distinct(g, g.nodes.len() as int);
    lists::lemma_filter_keeps_order(
        order::visit_order(g),
        |i: usize| g.nodes[i as int].dependents.len() != 0,
        i,
        j,
    );
}

/// A node that is put into a state is in it, and nothing else of the graph changes.
pub proof fn lemma_marking_changes_one_state(g: GraphView, index: usize, state: State)
    requires
        index < g.nodes.len(),
    ensures
        ({
            let h = runner::with_state(g, index, state);
            &&& h.nodes.len() == g.nodes.len()
            &&& h.lookup == g.lookup
            &&& h.nodes[index as int].state == state
            &&& h.nodes[index as int].service == g.nodes[index as int].service
            &&& h.nodes[index as int].deps == g.nodes[index as int].deps
            &&& h.nodes[index as int].dependents == g.nodes[index as int].dependents
            &&& forall|i: int|
                0 <= i < g.nodes.len() && i != index ==> #[trigger] h.nodes[i] == g.nodes[i]
        }),
{
}

/// A report says what it was made of.
pub proof fn lemma_report_says_all(report: Report)
    ensures
        match report {
            Report::Resumed { stop } => report@ == (ReportModel::Resumed { stop }),
            Report::Spawned(Ok(_)) => report@ == ReportModel::Spawned(Ok(())),
            Report::Spawned(Err(message)) => report@ == ReportModel::Spawned(Err(message@)),
            Report::Polled(Ok(None)) => report@ == ReportModel::Polled(Ok(None)),
            Report::Polled(Ok(Some(status))) => report@ matches ReportModel::Polled(Ok(Some(seen)))
                && seen.success == status.success && seen.text == status.text@,
            Report::Polled(Err(message)) => report@ == ReportModel::Polled(Err(message@)),
            Report::Terminated(Ok(_)) => report@ == ReportModel::Terminated(Ok(())),
            Report::Terminated(Err(message)) => report@ == ReportModel::Terminated(Err(message@)),
            Report::WatcherStarted(Ok(_)) => report@ == ReportModel::WatcherStarted(Ok(())),
            Report::WatcherStarted(Err(message)) => report@ == ReportModel::WatcherStarted(
                Err(message@),
            ),
            Report::Changed(affected) => report@ == ReportModel::Changed(affected@),
            Report::Quiet => report@ is Quiet,
            Report::Closed => report@ is Closed,
            Report::WatcherJoined(WatcherEnd::Clean) => report@ == ReportModel::WatcherJoined(
                WatcherEndModel::Clean,
            ),
            Report::WatcherJoined(WatcherEnd::Failed(message)) => report@
                == ReportModel::WatcherJoined(WatcherEndModel::Failed(message@)),
            Report::WatcherJoined(WatcherEnd::Panicked(message)) => report@
                == ReportModel::WatcherJoined(WatcherEndModel::Panicked(message@)),
        },
{
}

/// An action says what it was made of.
pub proof fn lemma_action_says_all(action: Action)
    ensures
        match action {
            Action::Resume => action@ is Resume,
            Action::Pause => action@ is Pause,
            Action::Spawn(index) => action@ == ActionModel::Spawn(index),
            Action::Poll(index) => action@ == ActionModel::Poll(index),
            Action::Terminate(index) => action@ == ActionModel::Terminate(index),
            Action::StartWatcher => action@ is StartWatcher,
            Action::AwaitChanges => action@ is AwaitChanges,
            Action::JoinWatcher => action@ is JoinWatcher,
            Action::Finish(Ok(_)) => action@ == ActionModel::Finish(Ok(())),
            Action::Finish(Err(message)) => action@ == ActionModel::Finish(Err(message@)),
        },
{
}

/// A notice says what it was made of.
pub proof fn lemma_notice_says_all(notice: Notice)
    ensures
        match notice {
            Notice::Service { name, color, message } => {
                &&& notice@ is Service
                &&& notice@->name == name@
                &&& notice@->message == message@
                &&& color matches Some(text) ==> notice@->color == Some(text@)
                &&& color is None ==> notice@->color is None
            },
            Notice::Warn(message) => notice@ == NoticeModel::Warn(message@),
            Notice::Error(message) => notice@ == NoticeModel::Error(message@),
        },
{
}

/// A list of notices says each of them at its place.
pub proof fn lemma_notices_say_each(notices: Seq<Notice>, i: int)
    requires
        0 <= i < notices.len(),
    ensures
        protocol::notice_models(notices).len() == notices.len(),
        protocol::notice_models(notices)[i] == notices[i]@,
{
}

/// A change by itself stops nothing, marks nothing and logs nothing: the services go on running
/// until what they depend on has run again.
pub proof fn lemma_change_keeps_services_running(m: Model, affected: Set<usize>)
    requires
        m.phase is Watching,
    ensures
        ({
            let (next, notices) = m.step(ReportModel::Changed(affected));
            &&& next.children == m.children
            &&& marks_nothing(m, next)
            &&& notices.len() == 0
            &&& next.watching == m.watching
        }),
{
}

} // verus!
