//! The life of a supervised set of services, as a machine that goes from report to report.

use vstd::prelude::*;
use vstd::seq_lib::*;

use crate::graph;
use crate::lists;
use crate::order;
use crate::protocol::{ActionModel, ExitModel, NoticeModel, ReportModel, WatcherEndModel};
use crate::runner;
use crate::text;
use crate::types::{GraphView, State};

verus! {

/// Where a run of prerequisites stands with its current node.
pub enum BatchStageModel {
    /// To be started, unless the program is to stop.
    Check,
    /// Being started.
    Spawning,
    /// Running; `pause` tells whether to let a moment pass before it is polled.
    Waiting { pause: bool },
    /// Being polled.
    Polling,
    /// Being stopped because the program is to stop.
    Halting,
    /// Ended; its descendants are being stopped.
    Reaping(ExitModel),
}

/// A run of prerequisites, one after the other.
pub struct BatchModel {
    pub indices: Seq<usize>,
    pub position: int,
    pub stage: BatchStageModel,
    /// The services to restart afterwards; `None` for the run at startup.
    pub restart: Option<Seq<usize>>,
}

/// Where a launch stands with its current service.
pub enum LaunchStageModel {
    /// To be started, unless the program is to stop.
    Check,
    /// The old process is being stopped.
    Replacing,
    /// Being started.
    Spawning,
}

/// A launch of services, one after the other.
pub struct LaunchModel {
    pub targets: Seq<usize>,
    pub position: int,
    pub stage: LaunchStageModel,
}

/// Where a round of polling stands with its current service.
pub enum RoundStageModel {
    /// Being polled.
    Polling,
    /// Ended; its descendants are being stopped.
    Ended(ExitModel),
}

/// A round of polling over the running services.
pub struct RoundModel {
    pub pending: Seq<usize>,
    pub position: int,
    pub stage: RoundStageModel,
}

/// What the supervisor is doing.
pub enum PhaseModel {
    /// Running prerequisites.
    Prerequisites(BatchModel),
    /// Starting the watcher.
    StartingWatcher,
    /// Starting or restarting services.
    Launching(LaunchModel),
    /// Between two rounds; `pause` tells whether to let a moment pass.
    Between { pause: bool },
    /// Polling the running services.
    Polling(RoundModel),
    /// Waiting for file changes.
    Watching,
    /// Stopping the running services.
    Stopping,
    /// Waiting for the watcher to end.
    Joining,
    /// Done.
    Finished(Result<(), Seq<char>>),
}

/// What the supervisor knows and does.
pub struct Model {
    pub graph: GraphView,
    /// All nodes in topological order.
    pub order: Seq<usize>,
    /// The leaf services.
    pub services: Seq<usize>,
    /// Some service watches files.
    pub watching: bool,
    /// The services whose processes are running.
    pub children: Seq<usize>,
    pub phase: PhaseModel,
}

impl BatchModel {
    /// The node that the run is at.
    pub open spec fn current(self) -> usize {
        self.indices[self.position]
    }

    /// The run, at another stage with its current node.
    pub open spec fn at(self, stage: BatchStageModel) -> BatchModel {
        BatchModel { stage, ..self }
    }
}

impl LaunchModel {
    /// The service that the launch is at.
    pub open spec fn current(self) -> usize {
        self.targets[self.position]
    }

    /// The launch, at another stage with its current service.
    pub open spec fn at(self, stage: LaunchStageModel) -> LaunchModel {
        LaunchModel { stage, ..self }
    }
}

impl RoundModel {
    /// The service that the round is at.
    pub open spec fn current(self) -> usize {
        self.pending[self.position]
    }

    /// The round, at another stage with its current service.
    pub open spec fn at(self, stage: RoundStageModel) -> RoundModel {
        RoundModel { stage, ..self }
    }
}

impl Model {
    /// The supervisor in another phase.
    pub open spec fn to(self, phase: PhaseModel) -> Model {
        Model { phase, ..self }
    }

    /// The supervisor with node `index` in `state`.
    pub open spec fn mark(self, index: usize, state: State) -> Model {
        Model { graph: runner::with_state(self.graph, index, state), ..self }
    }

    /// The supervisor without `index` among the running services.
    pub open spec fn without(self, index: usize) -> Model {
        Model { children: lists::except(self.children, index), ..self }
    }

    /// The name of a node.
    pub open spec fn name(self, index: usize) -> Seq<char> {
        self.graph.nodes[index as int].service.name
    }

    /// A message of a node.
    pub open spec fn says(self, index: usize, message: Seq<char>) -> NoticeModel {
        NoticeModel::Service {
            name: self.name(index),
            color: self.graph.nodes[index as int].service.color,
            message,
        }
    }

    /// Begin to run prerequisites.
    pub open spec fn run_batch(self, indices: Seq<usize>, restart: Option<Seq<usize>>) -> Model {
        if indices.len() == 0 {
            self.batch_done(restart)
        } else {
            self.to(
                PhaseModel::Prerequisites(
                    BatchModel { indices, position: 0, stage: BatchStageModel::Check, restart },
                ),
            )
        }
    }

    /// All prerequisites have run: watch where a service does, then launch.
    pub open spec fn batch_done(self, restart: Option<Seq<usize>>) -> Model {
        match restart {
            Some(targets) => self.launch(targets),
            None => if self.watching {
                self.to(PhaseModel::StartingWatcher)
            } else {
                self.launch(self.services)
            },
        }
    }

    /// The program is to stop while prerequisites run.
    pub open spec fn batch_stopped(self, restart: Option<Seq<usize>>) -> Model {
        match restart {
            Some(_) => self.stop_services(),
            None => self.to(PhaseModel::Finished(Ok(()))),
        }
    }

    /// A prerequisite failed: fatal at startup, else logged.
    pub open spec fn batch_failed(self, restart: Option<Seq<usize>>, message: Seq<char>) -> (
        Model,
        Seq<NoticeModel>,
    ) {
        match restart {
            Some(_) => (
                self.to(PhaseModel::Between { pause: false }),
                seq![NoticeModel::Error("watch-triggered prerequisite run failed: "@ + message)],
            ),
            None => (self.to(PhaseModel::Finished(Err(message))), Seq::empty()),
        }
    }

    /// The current prerequisite has succeeded; go on with the next.
    pub open spec fn batch_advance(self, batch: BatchModel) -> Model {
        if batch.position + 1 < batch.indices.len() {
            self.to(
                PhaseModel::Prerequisites(
                    BatchModel {
                        position: batch.position + 1,
                        stage: BatchStageModel::Check,
                        ..batch
                    },
                ),
            )
        } else {
            self.batch_done(batch.restart)
        }
    }

    /// Begin to launch services.
    pub open spec fn launch(self, targets: Seq<usize>) -> Model {
        if targets.len() == 0 {
            self.to(PhaseModel::Between { pause: false })
        } else {
            self.to(
                PhaseModel::Launching(
                    LaunchModel { targets, position: 0, stage: LaunchStageModel::Check },
                ),
            )
        }
    }

    /// The current service is dealt with; go on with the next.
    pub open spec fn launch_advance(self, launch: LaunchModel) -> Model {
        if launch.position + 1 < launch.targets.len() {
            self.to(
                PhaseModel::Launching(
                    LaunchModel {
                        position: launch.position + 1,
                        stage: LaunchStageModel::Check,
                        ..launch
                    },
                ),
            )
        } else {
            self.to(PhaseModel::Between { pause: false })
        }
    }

    /// Begin to poll the running services.
    pub open spec fn poll_services(self) -> Model {
        if self.children.len() == 0 {
            self.round_done()
        } else {
            self.to(
                PhaseModel::Polling(
                    RoundModel {
                        pending: self.children,
                        position: 0,
                        stage: RoundStageModel::Polling,
                    },
                ),
            )
        }
    }

    /// The current service is dealt with; go on with the next.
    pub open spec fn round_advance(self, round: RoundModel) -> Model {
        if round.position + 1 < round.pending.len() {
            self.to(
                PhaseModel::Polling(
                    RoundModel {
                        position: round.position + 1,
                        stage: RoundStageModel::Polling,
                        ..round
                    },
                ),
            )
        } else {
            self.round_done()
        }
    }

    /// All services have been polled: wait for changes, or, where nothing is watched, go on as
    /// long as a service runs.
    pub open spec fn round_done(self) -> Model {
        if self.watching {
            self.to(PhaseModel::Watching)
        } else if self.children.len() == 0 {
            self.stop_services()
        } else {
            self.to(PhaseModel::Between { pause: true })
        }
    }

    /// Begin, or go on, to stop the running services.
    pub open spec fn stop_services(self) -> Model {
        if self.children.len() > 0 {
            self.to(PhaseModel::Stopping)
        } else if self.watching {
            self.to(PhaseModel::Joining)
        } else {
            self.to(PhaseModel::Finished(Ok(())))
        }
    }

    /// What the supervisor asks for.
    pub open spec fn wanted(self) -> ActionModel {
        match self.phase {
            PhaseModel::Prerequisites(batch) => match batch.stage {
                BatchStageModel::Check => ActionModel::Resume,
                BatchStageModel::Spawning => ActionModel::Spawn(batch.current()),
                BatchStageModel::Waiting { pause } => if pause {
                    ActionModel::Pause
                } else {
                    ActionModel::Resume
                },
                BatchStageModel::Polling => ActionModel::Poll(batch.current()),
                BatchStageModel::Halting => ActionModel::Terminate(batch.current()),
                BatchStageModel::Reaping(_) => ActionModel::Terminate(batch.current()),
            },
            PhaseModel::StartingWatcher => ActionModel::StartWatcher,
            PhaseModel::Launching(launch) => match launch.stage {
                LaunchStageModel::Check => ActionModel::Resume,
                LaunchStageModel::Replacing => ActionModel::Terminate(launch.current()),
                LaunchStageModel::Spawning => ActionModel::Spawn(launch.current()),
            },
            PhaseModel::Between { pause } => if pause {
                ActionModel::Pause
            } else {
                ActionModel::Resume
            },
            PhaseModel::Polling(round) => match round.stage {
                RoundStageModel::Polling => ActionModel::Poll(round.current()),
                RoundStageModel::Ended(_) => ActionModel::Terminate(round.current()),
            },
            PhaseModel::Watching => ActionModel::AwaitChanges,
            PhaseModel::Stopping => ActionModel::Terminate(self.children[0]),
            PhaseModel::Joining => ActionModel::JoinWatcher,
            PhaseModel::Finished(result) => ActionModel::Finish(result),
        }
    }

    /// What a report leads to while prerequisites run.
    pub open spec fn step_batch(self, batch: BatchModel, report: ReportModel) -> (
        Model,
        Seq<NoticeModel>,
    ) {
        let index = batch.current();
        match (batch.stage, report) {
            (BatchStageModel::Check, ReportModel::Resumed { stop }) => if stop {
                (self.batch_stopped(batch.restart), Seq::empty())
            } else {
                (
                    self.mark(index, State::Ready).to(
                        PhaseModel::Prerequisites(batch.at(BatchStageModel::Spawning)),
                    ),
                    Seq::empty(),
                )
            },
            (BatchStageModel::Spawning, ReportModel::Spawned(Err(message))) => self.mark(
                index,
                State::Failed,
            ).batch_failed(batch.restart, message),
            (BatchStageModel::Spawning, ReportModel::Spawned(Ok(_))) => (
                self.mark(index, State::Running).to(
                    PhaseModel::Prerequisites(batch.at(BatchStageModel::Waiting { pause: false })),
                ),
                seq![self.says(index, "started prerequisite"@)],
            ),
            (BatchStageModel::Waiting { pause: _ }, ReportModel::Resumed { stop }) => (
                self.to(
                    PhaseModel::Prerequisites(
                        batch.at(
                            if stop {
                                BatchStageModel::Halting
                            } else {
                                BatchStageModel::Polling
                            },
                        ),
                    ),
                ),
                Seq::empty(),
            ),
            (BatchStageModel::Halting, ReportModel::Terminated(Ok(_))) => (
                self.batch_stopped(batch.restart),
                Seq::empty(),
            ),
            (BatchStageModel::Halting, ReportModel::Terminated(Err(message))) => self.batch_failed(
                batch.restart,
                message,
            ),
            (BatchStageModel::Polling, ReportModel::Polled(Err(message))) => self.batch_failed(
                batch.restart,
                "failed to check prerequisite "@ + self.name(index) + ": "@ + message,
            ),
            (BatchStageModel::Polling, ReportModel::Polled(Ok(None))) => (
                self.to(
                    PhaseModel::Prerequisites(batch.at(BatchStageModel::Waiting { pause: true })),
                ),
                Seq::empty(),
            ),
            (BatchStageModel::Polling, ReportModel::Polled(Ok(Some(status)))) => (
                self.to(PhaseModel::Prerequisites(batch.at(BatchStageModel::Reaping(status)))),
                Seq::empty(),
            ),
            (
                BatchStageModel::Reaping(_),
                ReportModel::Terminated(Err(message)),
            ) => self.batch_failed(batch.restart, message),
            (BatchStageModel::Reaping(status), ReportModel::Terminated(Ok(_))) => if status.success {
                (
                    self.mark(index, State::Succeeded).batch_advance(batch),
                    seq![self.says(index, "prerequisite completed"@)],
                )
            } else {
                self.mark(index, State::Failed).batch_failed(
                    batch.restart,
                    "prerequisite "@ + self.name(index) + " exited unsuccessfully ("@ + status.text
                        + ")"@,
                )
            },
            _ => (self, Seq::empty()),
        }
    }

    /// What a report leads to while services are launched.
    pub open spec fn step_launch(self, launch: LaunchModel, report: ReportModel) -> (
        Model,
        Seq<NoticeModel>,
    ) {
        let index = launch.current();
        let spawning = self.mark(index, State::Ready).to(
            PhaseModel::Launching(launch.at(LaunchStageModel::Spawning)),
        );
        match (launch.stage, report) {
            (LaunchStageModel::Check, ReportModel::Resumed { stop }) => if stop {
                (self.to(PhaseModel::Between { pause: false }), Seq::empty())
            } else if self.children.contains(index) {
                (
                    self.without(index).to(
                        PhaseModel::Launching(launch.at(LaunchStageModel::Replacing)),
                    ),
                    Seq::empty(),
                )
            } else {
                (spawning, Seq::empty())
            },
            (LaunchStageModel::Replacing, ReportModel::Terminated(Ok(_))) => (
                spawning,
                Seq::empty(),
            ),
            (LaunchStageModel::Replacing, ReportModel::Terminated(Err(message))) => (
                self.launch_advance(launch),
                seq![NoticeModel::Error("failed to stop service before restart: "@ + message)],
            ),
            (LaunchStageModel::Spawning, ReportModel::Spawned(Err(message))) => (
                self.mark(index, State::Failed).launch_advance(launch),
                seq![NoticeModel::Error(message)],
            ),
            (LaunchStageModel::Spawning, ReportModel::Spawned(Ok(_))) => (
                Model {
                    children: self.children.push(index),
                    ..self.mark(index, State::Running)
                }.launch_advance(launch),
                seq![self.says(index, "started"@)],
            ),
            _ => (self, Seq::empty()),
        }
    }

    /// What a report leads to while services are polled.
    pub open spec fn step_round(self, round: RoundModel, report: ReportModel) -> (
        Model,
        Seq<NoticeModel>,
    ) {
        let index = round.current();
        let number = text::decimal(index as nat);
        match (round.stage, report) {
            (RoundStageModel::Polling, ReportModel::Polled(Err(message))) => (
                self.round_advance(round),
                seq![
                    NoticeModel::Error(
                        "failed to poll service "@ + number + ": "@ + message,
                    ),
                ],
            ),
            (RoundStageModel::Polling, ReportModel::Polled(Ok(None))) => (
                self.round_advance(round),
                Seq::empty(),
            ),
            (RoundStageModel::Polling, ReportModel::Polled(Ok(Some(status)))) => (
                self.without(index).to(
                    PhaseModel::Polling(round.at(RoundStageModel::Ended(status))),
                ),
                Seq::empty(),
            ),
            (RoundStageModel::Ended(status), ReportModel::Terminated(result)) => (
                self.mark(
                    index,
                    if status.success {
                        State::Succeeded
                    } else {
                        State::Failed
                    },
                ).round_advance(round),
                match result {
                    Ok(_) => Seq::empty(),
                    Err(message) => seq![
                        NoticeModel::Warn(
                            "failed to stop descendants of service "@ + number + ": "@ + message,
                        ),
                    ],
                }.push(self.says(index, "exited ("@ + status.text + ")"@)),
            ),
            _ => (self, Seq::empty()),
        }
    }

    /// What a report leads to: the supervisor afterwards, and what is to be logged. A report that
    /// does not answer what the supervisor asked for changes nothing.
    pub open spec fn step(self, report: ReportModel) -> (Model, Seq<NoticeModel>) {
        match (self.phase, report) {
            (PhaseModel::Prerequisites(batch), _) => self.step_batch(batch, report),
            (PhaseModel::StartingWatcher, ReportModel::WatcherStarted(result)) => (
                match result {
                    Ok(_) => self.launch(self.services),
                    Err(message) => self.to(PhaseModel::Finished(Err(message))),
                },
                Seq::empty(),
            ),
            (PhaseModel::Launching(launch), _) => self.step_launch(launch, report),
            (PhaseModel::Between { pause: _ }, ReportModel::Resumed { stop }) => (
                if stop {
                    self.stop_services()
                } else {
                    self.poll_services()
                },
                Seq::empty(),
            ),
            (PhaseModel::Polling(round), _) => self.step_round(round, report),
            (PhaseModel::Watching, ReportModel::Changed(affected)) => (
                if affected.is_empty() {
                    self.to(PhaseModel::Between { pause: false })
                } else {
                    self.run_batch(
                        runner::required(self.graph, self.order, affected),
                        Some(lists::within(self.order, affected)),
                    )
                },
                Seq::empty(),
            ),
            (PhaseModel::Watching, ReportModel::Quiet) => (
                self.to(PhaseModel::Between { pause: false }),
                Seq::empty(),
            ),
            (PhaseModel::Watching, ReportModel::Closed) => (
                self.stop_services(),
                seq![NoticeModel::Error("Watchexec event channel closed"@)],
            ),
            (PhaseModel::Stopping, ReportModel::Terminated(result)) => (
                Model {
                    children: self.children.drop_first(),
                    ..self.mark(self.children[0], State::Pending)
                }.stop_services(),
                match result {
                    Ok(_) => Seq::empty(),
                    Err(message) => seq![
                        NoticeModel::Warn(
                            "failed to stop service "@ + text::decimal(self.children[0] as nat)
                                + ": "@ + message,
                        ),
                    ],
                },
            ),
            (PhaseModel::Joining, ReportModel::WatcherJoined(end)) => (
                self.to(PhaseModel::Finished(Ok(()))),
                match end {
                    WatcherEndModel::Clean => Seq::empty(),
                    WatcherEndModel::Failed(message) => seq![
                        NoticeModel::Error("Watchexec stopped: "@ + message),
                    ],
                    WatcherEndModel::Panicked(message) => seq![
                        NoticeModel::Error("Watchexec thread panicked: "@ + message),
                    ],
                },
            ),
            _ => (self, Seq::empty()),
        }
    }

    /// All positions are in range.
    pub open spec fn in_range(self) -> bool {
        let n = self.graph.nodes.len();
        &&& lists::below(self.order, n)
        &&& lists::below(self.services, n)
        &&& lists::below(self.children, n)
        &&& self.children.no_duplicates()
        &&& match self.phase {
            PhaseModel::Prerequisites(batch) => {
                &&& 0 <= batch.position < batch.indices.len()
                &&& lists::below(batch.indices, n)
                &&& batch.restart matches Some(targets) ==> lists::below(targets, n)
            },
            PhaseModel::Launching(launch) => {
                &&& 0 <= launch.position < launch.targets.len()
                &&& lists::below(launch.targets, n)
                &&& launch.stage is Check || !self.children.contains(launch.current())
            },
            PhaseModel::Polling(round) => {
                &&& 0 <= round.position < round.pending.len()
                &&& lists::below(round.pending, n)
            },
            PhaseModel::Stopping => self.children.len() > 0,
            _ => true,
        }
    }
}

/// The prerequisites of a graph in the given order.
pub open spec fn startup_batch(g: GraphView, order: Seq<usize>) -> Seq<usize> {
    order.filter(|i: usize| g.nodes[i as int].dependents.len() != 0)
}

/// The supervisor of a graph before anything has been done.
pub open spec fn start(g: GraphView, watching: bool) -> Model {
    Model {
        graph: g,
        order: order::visit_order(g),
        services: graph::leaves(g),
        watching,
        children: Seq::empty(),
        phase: PhaseModel::Watching,
    }.run_batch(startup_batch(g, order::visit_order(g)), None)
}

/// A supervisor that begins to run prerequisites is in range.
proof fn lemma_run_batch_in_range(m: Model, indices: Seq<usize>, restart: Option<Seq<usize>>)
    requires
        m.to(PhaseModel::Watching).in_range(),
        lists::below(indices, m.graph.nodes.len()),
        restart matches Some(targets) ==> lists::below(targets, m.graph.nodes.len()),
    ensures
        m.run_batch(indices, restart).in_range(),
{
}

/// No report takes a position out of range.
pub proof fn lemma_step_in_range(m: Model, report: ReportModel)
    requires
        m.in_range(),
    ensures
        m.step(report).0.in_range(),
        m.step(report).0.graph.nodes.len() == m.graph.nodes.len(),
{
    match m.phase {
        PhaseModel::Launching(launch) => {
            lists::lemma_filter_keeps(m.children, lists::other_than(launch.current()));
            assert(m.launch_advance(launch).in_range());
            let pushed = m.children.push(launch.current());
            if !m.children.contains(launch.current()) {
                assert(pushed.no_duplicates());
            }
        },
        PhaseModel::Polling(round) => {
            lists::lemma_filter_keeps(m.children, lists::other_than(round.current()));
        },
        PhaseModel::Watching => {
            if let ReportModel::Changed(affected) = report {
                lists::lemma_filter_keeps(m.order, lists::held_by(affected));
                lists::lemma_filter_keeps(
                    m.order,
                    |x: usize| runner::is_required(m.graph, affected, x),
                );
                lemma_run_batch_in_range(
                    m,
                    runner::required(m.graph, m.order, affected),
                    Some(lists::within(m.order, affected)),
                );
            }
        },
        PhaseModel::Stopping => {
            let rest = m.children.drop_first();
            assert(rest.no_duplicates()) by {
                assert forall|i: int, j: int|
                    0 <= i < rest.len() && 0 <= j < rest.len() && i != j implies rest[i]
                    != rest[j] by {
                    assert(m.children[i + 1] != m.children[j + 1]);
                }
            }
            assert(lists::below(rest, m.graph.nodes.len())) by {
                assert forall|i: int| 0 <= i < rest.len() implies (#[trigger] rest[i])
                    < m.graph.nodes.len() by {
                    assert(m.children[i + 1] < m.graph.nodes.len());
                }
            }
        },
        _ => {},
    }
}

/// The supervisor of a graph starts in range.
pub proof fn lemma_start_in_range(g: GraphView, watching: bool)
    requires
        g.nodes.len() <= usize::MAX,
    ensures
        start(g, watching).in_range(),
{
    let v = order::visit_order(g);
    order::lemma_visited_distinct(g, g.nodes.len() as int);
    lists::lemma_filter_keeps(v, |i: usize| g.nodes[i as int].dependents.len() != 0);
    order::lemma_selected(g.nodes.len(), |i: usize| g.nodes[i as int].dependents.len() == 0);
    assert(lists::below(v, g.nodes.len()));
    assert(lists::below(startup_batch(g, v), g.nodes.len()));
}

} // verus!
