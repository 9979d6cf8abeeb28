//! The supervisor: which prerequisites and services to start, poll, stop and restart, and when.

use vstd::prelude::*;
use vstd::seq_lib::*;

use crate::graph;
use crate::graph::{default_graph, partition_helper, topological_sort};
use crate::graph_laws;
use crate::lifecycle;
use crate::lifecycle::{
    BatchModel, BatchStageModel, LaunchModel, LaunchStageModel, Model, PhaseModel, RoundModel,
    RoundStageModel,
};
use crate::lifecycle_laws;
use crate::lists;
use crate::lists::{all_but, all_in, copy_positions, holds};
use crate::order;
use crate::protocol;
use crate::protocol::{Action, ExitStatus, Notice, NoticeModel, Report, WatcherEnd};
use crate::runner::{prerequisite_closure, service_details, set_state};
use crate::text::{concat2, concat3, concat4, decimal_text};
use crate::types::{Graph, State};
use crate::watch;
use crate::watch::{compile_watch_targets, WatchTarget};

verus! {

/// Where a run of prerequisites stands with its current node.
#[derive(Debug)]
enum BatchStage {
    Check,
    Spawning,
    Waiting { pause: bool },
    Polling,
    Halting,
    Reaping(ExitStatus),
}

/// A run of prerequisites, one after the other.
#[derive(Debug)]
struct Batch {
    indices: Vec<usize>,
    position: usize,
    stage: BatchStage,
    restart: Option<Vec<usize>>,
}

/// Where a launch stands with its current service.
#[derive(Debug)]
enum LaunchStage {
    Check,
    Replacing,
    Spawning,
}

/// A launch of services, one after the other.
#[derive(Debug)]
struct Launch {
    targets: Vec<usize>,
    position: usize,
    stage: LaunchStage,
}

/// Where a round of polling stands with its current service.
#[derive(Debug)]
enum RoundStage {
    Polling,
    Ended(ExitStatus),
}

/// A round of polling over the running services.
#[derive(Debug)]
struct Round {
    pending: Vec<usize>,
    position: usize,
    stage: RoundStage,
}

/// What the supervisor is doing.
#[derive(Debug)]
enum Phase {
    Prerequisites(Batch),
    StartingWatcher,
    Launching(Launch),
    Between { pause: bool },
    Polling(Round),
    Watching,
    Stopping,
    Joining,
    Finished(Result<(), String>),
}

/// What the supervisor knows and does.
struct Machine {
    graph: Graph,
    order: Vec<usize>,
    services: Vec<usize>,
    watching: bool,
    children: Vec<usize>,
    phase: Phase,
}

/// The entries of an optional list.
spec fn entries(list: Option<Vec<usize>>) -> Option<Seq<usize>> {
    match list {
        Some(v) => Some(v@),
        None => None,
    }
}

impl View for BatchStage {
    type V = BatchStageModel;

    closed spec fn view(&self) -> BatchStageModel {
        match *self {
            BatchStage::Check => BatchStageModel::Check,
            BatchStage::Spawning => BatchStageModel::Spawning,
            BatchStage::Waiting { pause } => BatchStageModel::Waiting { pause },
            BatchStage::Polling => BatchStageModel::Polling,
            BatchStage::Halting => BatchStageModel::Halting,
            BatchStage::Reaping(status) => BatchStageModel::Reaping(status@),
        }
    }
}

impl View for Batch {
    type V = BatchModel;

    closed spec fn view(&self) -> BatchModel {
        BatchModel {
            indices: self.indices@,
            position: self.position as int,
            stage: self.stage@,
            restart: entries(self.restart),
        }
    }
}

impl View for LaunchStage {
    type V = LaunchStageModel;

    closed spec fn view(&self) -> LaunchStageModel {
        match *self {
            LaunchStage::Check => LaunchStageModel::Check,
            LaunchStage::Replacing => LaunchStageModel::Replacing,
            LaunchStage::Spawning => LaunchStageModel::Spawning,
        }
    }
}

impl View for Launch {
    type V = LaunchModel;

    closed spec fn view(&self) -> LaunchModel {
        LaunchModel {
            targets: self.targets@,
            position: self.position as int,
            stage: self.stage@,
        }
    }
}

impl View for RoundStage {
    type V = RoundStageModel;

    closed spec fn view(&self) -> RoundStageModel {
        match *self {
            RoundStage::Polling => RoundStageModel::Polling,
            RoundStage::Ended(status) => RoundStageModel::Ended(status@),
        }
    }
}

impl View for Round {
    type V = RoundModel;

    closed spec fn view(&self) -> RoundModel {
        RoundModel {
            pending: self.pending@,
            position: self.position as int,
            stage: self.stage@,
        }
    }
}

impl View for Phase {
    type V = PhaseModel;

    closed spec fn view(&self) -> PhaseModel {
        match *self {
            Phase::Prerequisites(batch) => PhaseModel::Prerequisites(batch@),
            Phase::StartingWatcher => PhaseModel::StartingWatcher,
            Phase::Launching(launch) => PhaseModel::Launching(launch@),
            Phase::Between { pause } => PhaseModel::Between { pause },
            Phase::Polling(round) => PhaseModel::Polling(round@),
            Phase::Watching => PhaseModel::Watching,
            Phase::Stopping => PhaseModel::Stopping,
            Phase::Joining => PhaseModel::Joining,
            Phase::Finished(result) => PhaseModel::Finished(protocol::outcome(result)),
        }
    }
}

impl View for Machine {
    type V = Model;

    closed spec fn view(&self) -> Model {
        Model {
            graph: self.graph@,
            order: self.order@,
            services: self.services@,
            watching: self.watching,
            children: self.children@,
            phase: self.phase@,
        }
    }
}

/// A list of one notice.
fn one(notice: Notice) -> (notices: Vec<Notice>)
    ensures
        protocol::notice_models(notices@) == seq![notice@],
{
    let mut notices: Vec<Notice> = Vec::new();
    notices.push(notice);
    assert(protocol::notice_models(notices@) =~= seq![notice@]);
    notices
}

/// An empty list of notices.
fn none() -> (notices: Vec<Notice>)
    ensures
        protocol::notice_models(notices@) == Seq::<NoticeModel>::empty(),
{
    let notices: Vec<Notice> = Vec::new();
    assert(protocol::notice_models(notices@) =~= Seq::<NoticeModel>::empty());
    notices
}

/// What a step gives: the supervisor afterwards, and what is to be logged.
spec fn stepped(result: (Machine, Vec<Notice>)) -> (Model, Seq<NoticeModel>) {
    (result.0@, protocol::notice_models(result.1@))
}

/// Each step does what the step of the same name does to a [`Model`].
impl Machine {
    fn to(self, phase: Phase) -> (result: Machine)
        ensures
            result@ == self@.to(phase@),
    {
        Machine { phase, ..self }
    }

    fn mark(self, index: usize, state: State) -> (result: Machine)
        requires
            index < self@.graph.nodes.len(),
        ensures
            result@ == self@.mark(index, state),
    {
        let mut graph = self.graph;
        let _ = set_state(&mut graph, index, state);
        Machine { graph, ..self }
    }

    fn without(self, index: usize) -> (result: Machine)
        ensures
            result@ == self@.without(index),
    {
        let children = all_but(&self.children, index);
        Machine { children, ..self }
    }

    fn name(&self, index: usize) -> (name: String)
        requires
            index < self@.graph.nodes.len(),
        ensures
            name@ == self@.name(index),
    {
        assert(self.graph@.nodes[index as int] == self.graph.nodes@[index as int]@);
        self.graph.nodes[index].service.name.clone()
    }

    fn says(&self, index: usize, message: String) -> (notice: Notice)
        requires
            index < self@.graph.nodes.len(),
        ensures
            notice@ == self@.says(index, message@),
    {
        match service_details(&self.graph, index) {
            Ok((name, color)) => Notice::Service { name, color, message },
            Err(error) => Notice::Error(error),
        }
    }

    fn run_batch(self, indices: Vec<usize>, restart: Option<Vec<usize>>) -> (result: Machine)
        ensures
            result@ == self@.run_batch(indices@, entries(restart)),
    {
        if indices.len() == 0 {
            self.batch_done(restart)
        } else {
            self.to(
                Phase::Prerequisites(
                    Batch { indices, position: 0, stage: BatchStage::Check, restart },
                ),
            )
        }
    }

    fn batch_done(self, restart: Option<Vec<usize>>) -> (result: Machine)
        ensures
            result@ == self@.batch_done(entries(restart)),
    {
        match restart {
            Some(targets) => self.launch(targets),
            None => if self.watching {
                self.to(Phase::StartingWatcher)
            } else {
                let services = copy_positions(&self.services);
                self.launch(services)
            },
        }
    }

    fn batch_stopped(self, restart: Option<Vec<usize>>) -> (result: Machine)
        ensures
            result@ == self@.batch_stopped(entries(restart)),
    {
        match restart {
            Some(_) => self.stop_services(),
            None => self.to(Phase::Finished(Ok(()))),
        }
    }

    fn batch_failed(self, restart: Option<Vec<usize>>, message: String) -> (result: (
        Machine,
        Vec<Notice>,
    ))
        ensures
            stepped(result) == self@.batch_failed(entries(restart), message@),
    {
        match restart {
            Some(_) => (
                self.to(Phase::Between { pause: false }),
                one(
                    Notice::Error(
                        concat2("watch-triggered prerequisite run failed: ", message.as_str()),
                    ),
                ),
            ),
            None => (self.to(Phase::Finished(Err(message))), none()),
        }
    }

    fn batch_advance(self, batch: Batch) -> (result: Machine)
        requires
            batch.position < batch.indices@.len(),
        ensures
            result@ == self@.batch_advance(batch@),
    {
        if batch.indices.len() - batch.position > 1 {
            let position: usize = batch.position + 1;
            self.to(Phase::Prerequisites(Batch { position, stage: BatchStage::Check, ..batch }))
        } else {
            self.batch_done(batch.restart)
        }
    }

    fn launch(self, targets: Vec<usize>) -> (result: Machine)
        ensures
            result@ == self@.launch(targets@),
    {
        if targets.len() == 0 {
            self.to(Phase::Between { pause: false })
        } else {
            self.to(Phase::Launching(Launch { targets, position: 0, stage: LaunchStage::Check }))
        }
    }

    fn launch_advance(self, launch: Launch) -> (result: Machine)
        requires
            launch.position < launch.targets@.len(),
        ensures
            result@ == self@.launch_advance(launch@),
    {
        if launch.targets.len() - launch.position > 1 {
            let position: usize = launch.position + 1;
            self.to(Phase::Launching(Launch { position, stage: LaunchStage::Check, ..launch }))
        } else {
            self.to(Phase::Between { pause: false })
        }
    }

    fn poll_services(self) -> (result: Machine)
        ensures
            result@ == self@.poll_services(),
    {
        if self.children.len() == 0 {
            self.round_done()
        } else {
            let pending = copy_positions(&self.children);
            self.to(Phase::Polling(Round { pending, position: 0, stage: RoundStage::Polling }))
        }
    }

    fn round_advance(self, round: Round) -> (result: Machine)
        requires
            round.position < round.pending@.len(),
        ensures
            result@ == self@.round_advance(round@),
    {
        if round.pending.len() - round.position > 1 {
            let position: usize = round.position + 1;
            self.to(Phase::Polling(Round { position, stage: RoundStage::Polling, ..round }))
        } else {
            self.round_done()
        }
    }

    fn round_done(self) -> (result: Machine)
        ensures
            result@ == self@.round_done(),
    {
        if self.watching {
            self.to(Phase::Watching)
        } else if self.children.len() == 0 {
            self.stop_services()
        } else {
            self.to(Phase::Between { pause: true })
        }
    }

    fn stop_services(self) -> (result: Machine)
        ensures
            result@ == self@.stop_services(),
    {
        if self.children.len() > 0 {
            self.to(Phase::Stopping)
        } else if self.watching {
            self.to(Phase::Joining)
        } else {
            self.to(Phase::Finished(Ok(())))
        }
    }

    fn step_batch(self, batch: Batch, report: Report) -> (result: (Machine, Vec<Notice>))
        requires
            batch.position < batch.indices@.len(),
            batch@.current() < self@.graph.nodes.len(),
        ensures
            stepped(result) == self@.to(PhaseModel::Prerequisites(batch@)).step_batch(batch@, report@),
    {
        let index: usize = batch.indices[batch.position];
        match batch.stage {
            BatchStage::Check => match report {
                Report::Resumed { stop } => if stop {
                    (self.batch_stopped(batch.restart), none())
                } else {
                    let next = Phase::Prerequisites(Batch { stage: BatchStage::Spawning, ..batch });
                    (self.mark(index, State::Ready).to(next), none())
                },
                _ => (self.to(Phase::Prerequisites(batch)), none()),
            },
            BatchStage::Spawning => match report {
                Report::Spawned(Err(message)) => self.mark(index, State::Failed).batch_failed(
                    batch.restart,
                    message,
                ),
                Report::Spawned(Ok(_)) => {
                    let notice = self.says(index, "started prerequisite".to_owned());
                    let next = Phase::Prerequisites(
                        Batch { stage: BatchStage::Waiting { pause: false }, ..batch },
                    );
                    (self.mark(index, State::Running).to(next), one(notice))
                },
                _ => (self.to(Phase::Prerequisites(batch)), none()),
            },
            BatchStage::Waiting { pause } => match report {
                Report::Resumed { stop } => {
                    let stage = if stop {
                        BatchStage::Halting
                    } else {
                        BatchStage::Polling
                    };
                    (self.to(Phase::Prerequisites(Batch { stage, ..batch })), none())
                },
                _ => (
                    self.to(
                        Phase::Prerequisites(
                            Batch { stage: BatchStage::Waiting { pause }, ..batch },
                        ),
                    ),
                    none(),
                ),
            },
            BatchStage::Halting => match report {
                Report::Terminated(Ok(_)) => (self.batch_stopped(batch.restart), none()),
                Report::Terminated(Err(message)) => self.batch_failed(batch.restart, message),
                _ => (self.to(Phase::Prerequisites(batch)), none()),
            },
            BatchStage::Polling => match report {
                Report::Polled(Err(message)) => {
                    let name = self.name(index);
                    let failure = concat4(
                        "failed to check prerequisite ",
                        name.as_str(),
                        ": ",
                        message.as_str(),
                    );
                    self.batch_failed(batch.restart, failure)
                },
                Report::Polled(Ok(None)) => (
                    self.to(
                        Phase::Prerequisites(
                            Batch { stage: BatchStage::Waiting { pause: true }, ..batch },
                        ),
                    ),
                    none(),
                ),
                Report::Polled(Ok(Some(status))) => (
                    self.to(
                        Phase::Prerequisites(Batch { stage: BatchStage::Reaping(status), ..batch }),
                    ),
                    none(),
                ),
                _ => (self.to(Phase::Prerequisites(batch)), none()),
            },
            BatchStage::Reaping(status) => match report {
                Report::Terminated(Err(message)) => self.batch_failed(batch.restart, message),
                Report::Terminated(Ok(_)) => if status.success {
                    let notice = self.says(index, "prerequisite completed".to_owned());
                    let rest = Batch { stage: BatchStage::Check, ..batch };
                    (self.mark(index, State::Succeeded).batch_advance(rest), one(notice))
                } else {
                    let name = self.name(index);
                    let mut failure = concat4(
                        "prerequisite ",
                        name.as_str(),
                        " exited unsuccessfully (",
                        status.text.as_str(),
                    );
                    failure.append(")");
                    self.mark(index, State::Failed).batch_failed(batch.restart, failure)
                },
                _ => (
                    self.to(
                        Phase::Prerequisites(Batch { stage: BatchStage::Reaping(status), ..batch }),
                    ),
                    none(),
                ),
            },
        }
    }

    fn step_launch(self, launch: Launch, report: Report) -> (result: (Machine, Vec<Notice>))
        requires
            launch.position < launch.targets@.len(),
            launch@.current() < self@.graph.nodes.len(),
        ensures
            stepped(result) == self@.to(PhaseModel::Launching(launch@)).step_launch(launch@, report@),
    {
        let index: usize = launch.targets[launch.position];
        match launch.stage {
            LaunchStage::Check => match report {
                Report::Resumed { stop } => if stop {
                    (self.to(Phase::Between { pause: false }), none())
                } else if holds(&self.children, index) {
                    let next = Phase::Launching(Launch { stage: LaunchStage::Replacing, ..launch });
                    (self.without(index).to(next), none())
                } else {
                    let next = Phase::Launching(Launch { stage: LaunchStage::Spawning, ..launch });
                    (self.mark(index, State::Ready).to(next), none())
                },
                _ => (self.to(Phase::Launching(launch)), none()),
            },
            LaunchStage::Replacing => match report {
                Report::Terminated(Ok(_)) => {
                    let next = Phase::Launching(Launch { stage: LaunchStage::Spawning, ..launch });
                    (self.mark(index, State::Ready).to(next), none())
                },
                Report::Terminated(Err(message)) => (
                    self.launch_advance(launch),
                    one(
                        Notice::Error(
                            concat2("failed to stop service before restart: ", message.as_str()),
                        ),
                    ),
                ),
                _ => (self.to(Phase::Launching(launch)), none()),
            },
            LaunchStage::Spawning => match report {
                Report::Spawned(Err(message)) => (
                    self.mark(index, State::Failed).launch_advance(launch),
                    one(Notice::Error(message)),
                ),
                Report::Spawned(Ok(_)) => {
                    let notice = self.says(index, "started".to_owned());
                    let marked = self.mark(index, State::Running);
                    let mut children = copy_positions(&marked.children);
                    children.push(index);
                    (Machine { children, ..marked }.launch_advance(launch), one(notice))
                },
                _ => (self.to(Phase::Launching(launch)), none()),
            },
        }
    }

    fn step_round(self, round: Round, report: Report) -> (result: (Machine, Vec<Notice>))
        requires
            round.position < round.pending@.len(),
            round@.current() < self@.graph.nodes.len(),
        ensures
            stepped(result) == self@.to(PhaseModel::Polling(round@)).step_round(round@, report@),
    {
        let index: usize = round.pending[round.position];
        let number = decimal_text(index as u64);
        match round.stage {
            RoundStage::Polling => match report {
                Report::Polled(Err(message)) => {
                    let notice = Notice::Error(
                        concat4(
                            "failed to poll service ",
                            number.as_str(),
                            ": ",
                            message.as_str(),
                        ),
                    );
                    (self.round_advance(round), one(notice))
                },
                Report::Polled(Ok(None)) => (self.round_advance(round), none()),
                Report::Polled(Ok(Some(status))) => {
                    let next = Phase::Polling(Round { stage: RoundStage::Ended(status), ..round });
                    (self.without(index).to(next), none())
                },
                _ => (self.to(Phase::Polling(round)), none()),
            },
            RoundStage::Ended(status) => match report {
                Report::Terminated(result) => {
                    let mut notices: Vec<Notice> = match result {
                        Ok(_) => none(),
                        Err(message) => one(
                            Notice::Warn(
                                concat4(
                                    "failed to stop descendants of service ",
                                    number.as_str(),
                                    ": ",
                                    message.as_str(),
                                ),
                            ),
                        ),
                    };
                    let notice = self.says(index, concat3("exited (", status.text.as_str(), ")"));
                    let ghost before = notices@;
                    notices.push(notice);
                    assert(protocol::notice_models(notices@) =~= protocol::notice_models(before).push(notice@));
                    let state = if status.success {
                        State::Succeeded
                    } else {
                        State::Failed
                    };
                    let rest = Round { stage: RoundStage::Polling, ..round };
                    (self.mark(index, state).round_advance(rest), notices)
                },
                _ => (
                    self.to(Phase::Polling(Round { stage: RoundStage::Ended(status), ..round })),
                    none(),
                ),
            },
        }
    }

    fn step_stop(self, result: Result<(), String>) -> (stepped_to: (Machine, Vec<Notice>))
        requires
            self@.children.len() > 0,
            self@.children[0] < self@.graph.nodes.len(),
        ensures
            stepped(stepped_to) == self@.to(PhaseModel::Stopping).step(
                protocol::ReportModel::Terminated(protocol::outcome(result)),
            ),
    {
        let index: usize = self.children[0];
        let number = decimal_text(index as u64);
        let notices = match result {
            Ok(_) => none(),
            Err(message) => one(
                Notice::Warn(
                    concat4("failed to stop service ", number.as_str(), ": ", message.as_str()),
                ),
            ),
        };
        let marked = self.mark(index, State::Pending);
        let mut children = copy_positions(&marked.children);
        let ghost before = children@;
        let _ = children.remove(0);
        assert(children@ =~= before.drop_first());
        (Machine { children, ..marked }.stop_services(), notices)
    }

    fn step(self, report: Report) -> (result: (Machine, Vec<Notice>))
        requires
            self@.in_range(),
        ensures
            stepped(result) == self@.step(report@),
    {
        let Machine { graph, order, services, watching, children, phase } = self;
        let rest = Machine { graph, order, services, watching, children, phase: Phase::Watching };
        match phase {
            Phase::Prerequisites(batch) => rest.step_batch(batch, report),
            Phase::StartingWatcher => match report {
                Report::WatcherStarted(Ok(_)) => {
                    let targets = copy_positions(&rest.services);
                    (rest.launch(targets), none())
                },
                Report::WatcherStarted(Err(message)) => (
                    rest.to(Phase::Finished(Err(message))),
                    none(),
                ),
                _ => (rest.to(Phase::StartingWatcher), none()),
            },
            Phase::Launching(launch) => rest.step_launch(launch, report),
            Phase::Between { pause } => match report {
                Report::Resumed { stop } => if stop {
                    (rest.stop_services(), none())
                } else {
                    (rest.poll_services(), none())
                },
                _ => (rest.to(Phase::Between { pause }), none()),
            },
            Phase::Polling(round) => rest.step_round(round, report),
            Phase::Watching => match report {
                Report::Changed(affected) => if affected.is_empty() {
                    (rest.to(Phase::Between { pause: false }), none())
                } else {
                    let again = prerequisite_closure(&rest.graph, rest.order.as_slice(), &affected);
                    let targets = all_in(&rest.order, &affected);
                    (rest.run_batch(again, Some(targets)), none())
                },
                Report::Quiet => (rest.to(Phase::Between { pause: false }), none()),
                Report::Closed => (
                    rest.stop_services(),
                    one(Notice::Error("Watchexec event channel closed".to_owned())),
                ),
                _ => (rest, none()),
            },
            Phase::Stopping => match report {
                Report::Terminated(result) => rest.step_stop(result),
                _ => (rest.to(Phase::Stopping), none()),
            },
            Phase::Joining => match report {
                Report::WatcherJoined(end) => {
                    let notices = match end {
                        WatcherEnd::Clean => none(),
                        WatcherEnd::Failed(message) => one(
                            Notice::Error(concat2("Watchexec stopped: ", message.as_str())),
                        ),
                        WatcherEnd::Panicked(message) => one(
                            Notice::Error(concat2("Watchexec thread panicked: ", message.as_str())),
                        ),
                    };
                    (rest.to(Phase::Finished(Ok(()))), notices)
                },
                _ => (rest.to(Phase::Joining), none()),
            },
            Phase::Finished(result) => (rest.to(Phase::Finished(result)), none()),
        }
    }
}

/// Runs prerequisites, then looks after the services and restarts them on watched changes.
pub struct Supervisor {
    machine: Machine,
}

impl View for Supervisor {
    type V = Model;

    closed spec fn view(&self) -> Model {
        self.machine@
    }
}

/// The prerequisites of a graph in the given order.
fn startup_order(graph: &Graph, order: &Vec<usize>) -> (result: Vec<usize>)
    requires
        lists::below(order@, graph@.nodes.len()),
    ensures
        result@ == lifecycle::startup_batch(graph@, order@),
{
    let ghost g = graph@;
    let ghost keep = |i: usize| g.nodes[i as int].dependents.len() != 0;
    let mut result: Vec<usize> = Vec::new();
    let mut i: usize = 0;
    proof {
        reveal(Seq::filter);
        assert(order@.take(0) =~= Seq::<usize>::empty());
    }
    while i < order.len()
        invariant
            g == graph@,
            lists::below(order@, g.nodes.len()),
            i <= order@.len(),
            keep == (|i: usize| g.nodes[i as int].dependents.len() != 0),
            result@ == order@.take(i as int).filter(keep),
        decreases order@.len() - i,
    {
        let index: usize = order[i];
        proof {
            assert(order@.take(i + 1) =~= order@.take(i as int).push(index));
            order@.take(i as int).lemma_filter_push(index, keep);
            assert(g.nodes[index as int] == graph.nodes@[index as int]@);
        }
        if !graph.nodes[index].dependents.is_empty() {
            result.push(index);
        }
        i = i + 1;
    }
    assert(order@.take(order@.len() as int) =~= order@);
    result
}

impl Supervisor {
    #[verifier::type_invariant]
    spec fn in_range(self) -> bool {
        self.machine@.in_range()
    }

    /// The supervisor of a graph, and what to watch for it.
    ///
    /// # Errors
    ///
    /// Returns a message when the graph has no order, or when a watch pattern is not a regular
    /// expression.
    pub fn new(graph: Graph) -> (result: Result<(Supervisor, Vec<WatchTarget>), String>)
        ensures
            match result {
                Ok((supervisor, targets)) => {
                    &&& order::consistent(graph@)
                    &&& order::visit_order(graph@).len() == graph@.nodes.len()
                    &&& forall|i: int|
                        0 <= i < graph::leaves(graph@).len() ==> watch::is_watchable(
                            graph@,
                            #[trigger] graph::leaves(graph@)[i],
                        )
                    &&& watch::target_views(targets@) == watch::targets_of(
                        graph@,
                        graph::leaves(graph@),
                    )
                    &&& supervisor@ == lifecycle::start(graph@, targets@.len() > 0)
                    &&& graph_laws::well_formed(graph@) ==> lifecycle_laws::sound(supervisor@)
                },
                Err(message) => {
                    ||| !order::consistent(graph@) && message@ == graph::malformed_message()
                    ||| order::consistent(graph@) && order::visit_order(graph@).len()
                        != graph@.nodes.len() && message@ == order::cycle_message(graph@)
                    ||| order::consistent(graph@) && order::visit_order(graph@).len()
                        == graph@.nodes.len() && watch::is_first_watch_flaw(
                        graph@,
                        graph::leaves(graph@),
                        message@,
                    )
                },
            },
    {
        let order = match topological_sort(&graph) {
            Ok(order) => order,
            Err(message) => {
                return Err(message);
            },
        };
        let services = partition_helper(&graph).services;
        let targets = match compile_watch_targets(&graph, services.as_slice()) {
            Ok(targets) => targets,
            Err(message) => {
                return Err(message);
            },
        };
        proof {
            assert(graph@.nodes.len() == graph.nodes.len());
            order::lemma_visited_distinct(graph@, graph@.nodes.len() as int);
            lifecycle::lemma_start_in_range(graph@, targets@.len() > 0);
            if graph_laws::well_formed(graph@) {
                graph_laws::lemma_order_exists_iff_acyclic(graph@);
                lifecycle_laws::lemma_start_is_sound(graph@, targets@.len() > 0);
            }
        }
        let first = startup_order(&graph, &order);
        let watching = targets.len() > 0;
        let machine = Machine {
            graph,
            order,
            services,
            watching,
            children: Vec::new(),
            phase: Phase::Watching,
        };
        let machine = machine.run_batch(first, None);
        Ok((Supervisor { machine }, targets))
    }

    /// What to do next.
    pub fn action(&self) -> (action: Action)
        ensures
            action@ == self@.wanted(),
    {
        proof {
            use_type_invariant(self);
        }
        match &self.machine.phase {
            Phase::Prerequisites(batch) => {
                let index: usize = batch.indices[batch.position];
                match &batch.stage {
                    BatchStage::Check => Action::Resume,
                    BatchStage::Spawning => Action::Spawn(index),
                    BatchStage::Waiting { pause } => if *pause {
                        Action::Pause
                    } else {
                        Action::Resume
                    },
                    BatchStage::Polling => Action::Poll(index),
                    BatchStage::Halting => Action::Terminate(index),
                    BatchStage::Reaping(_) => Action::Terminate(index),
                }
            },
            Phase::StartingWatcher => Action::StartWatcher,
            Phase::Launching(launch) => {
                let index: usize = launch.targets[launch.position];
                match &launch.stage {
                    LaunchStage::Check => Action::Resume,
                    LaunchStage::Replacing => Action::Terminate(index),
                    LaunchStage::Spawning => Action::Spawn(index),
                }
            },
            Phase::Between { pause } => if *pause {
                Action::Pause
            } else {
                Action::Resume
            },
            Phase::Polling(round) => {
                let index: usize = round.pending[round.position];
                match &round.stage {
                    RoundStage::Polling => Action::Poll(index),
                    RoundStage::Ended(_) => Action::Terminate(index),
                }
            },
            Phase::Watching => Action::AwaitChanges,
            Phase::Stopping => Action::Terminate(self.machine.children[0]),
            Phase::Joining => Action::JoinWatcher,
            Phase::Finished(Ok(_)) => Action::Finish(Ok(())),
            Phase::Finished(Err(message)) => Action::Finish(Err(message.clone())),
        }
    }

    /// Take in what came of the action, and say what to log.
    pub fn handle(&mut self, report: Report) -> (notices: Vec<Notice>)
        ensures
            (final(self)@, protocol::notice_models(notices@)) == old(self)@.step(report@),
            lifecycle_laws::sound(old(self)@) && lifecycle_laws::admissible(old(self)@, report@)
                ==> lifecycle_laws::sound(final(self)@),
    {
        proof {
            use_type_invariant(&*self);
            lifecycle::lemma_step_in_range(self@, report@);
            if lifecycle_laws::sound(self@) && lifecycle_laws::admissible(self@, report@) {
                lifecycle_laws::lemma_step_keeps_sound(self@, report@);
            }
        }
        let mut machine = Machine {
            graph: default_graph(),
            order: Vec::new(),
            services: Vec::new(),
            watching: false,
            children: Vec::new(),
            phase: Phase::Watching,
        };
        std::mem::swap(&mut machine, &mut self.machine);
        let (next, notices) = machine.step(report);
        self.machine = next;
        notices
    }

    /// The graph with the states of its nodes.
    pub fn graph(&self) -> (graph: &Graph)
        ensures
            graph@ == self@.graph,
    {
        &self.machine.graph
    }
}

} // verus!
