//! How the process of a service is stopped, and what is made of its output.
//!
//! Stopping a process goes step by step: [`Termination::action`] says what to do, and
//! [`Termination::handle`] takes in what came of it.

use vstd::prelude::*;

use crate::protocol;
use crate::text::concat2;

verus! {

/// Why a process group could not be signalled.
#[derive(Debug)]
pub enum SignalFailure {
    /// There is no such process group.
    Gone,
    /// Anything else, with its message.
    Failed(String),
}

/// What came of a step.
#[derive(Debug)]
pub enum TerminationReport {
    /// The process group was signalled, or could not be.
    Signalled(Result<(), SignalFailure>),
    /// Whether the process has ended, or why that is not known.
    Checked(Result<bool, String>),
    /// The process was killed, or could not be.
    Killed(Result<(), String>),
    /// The process has ended, or could not be waited for.
    Waited(Result<(), String>),
    /// The output of the process has been read to its end.
    Drained,
}

/// What to do next.
#[derive(Debug)]
pub enum TerminationAction {
    /// Kill the process group.
    Signal,
    /// Ask whether the process has ended.
    Check,
    /// Kill the process.
    Kill,
    /// Wait for the process to end.
    Wait,
    /// Wait for the output to end.
    Drain,
    /// Leave.
    Finish(Result<(), String>),
}

/// What a [`SignalFailure`] says.
pub enum SignalFailureModel {
    Gone,
    Failed(Seq<char>),
}

/// What a [`TerminationReport`] says.
pub enum TerminationReportModel {
    Signalled(Result<(), SignalFailureModel>),
    Checked(Result<bool, Seq<char>>),
    Killed(Result<(), Seq<char>>),
    Waited(Result<(), Seq<char>>),
    Drained,
}

/// What a [`TerminationAction`] says.
pub enum TerminationActionModel {
    Signal,
    Check,
    Kill,
    Wait,
    Drain,
    Finish(Result<(), Seq<char>>),
}

impl View for SignalFailure {
    type V = SignalFailureModel;

    open spec fn view(&self) -> SignalFailureModel {
        match *self {
            SignalFailure::Gone => SignalFailureModel::Gone,
            SignalFailure::Failed(message) => SignalFailureModel::Failed(message@),
        }
    }
}

impl View for TerminationReport {
    type V = TerminationReportModel;

    open spec fn view(&self) -> TerminationReportModel {
        match *self {
            TerminationReport::Signalled(Ok(_)) => TerminationReportModel::Signalled(Ok(())),
            TerminationReport::Signalled(Err(failure)) => TerminationReportModel::Signalled(
                Err(failure@),
            ),
            TerminationReport::Checked(Ok(ended)) => TerminationReportModel::Checked(Ok(ended)),
            TerminationReport::Checked(Err(message)) => TerminationReportModel::Checked(
                Err(message@),
            ),
            TerminationReport::Killed(result) => TerminationReportModel::Killed(
                protocol::outcome(result),
            ),
            TerminationReport::Waited(result) => TerminationReportModel::Waited(
                protocol::outcome(result),
            ),
            TerminationReport::Drained => TerminationReportModel::Drained,
        }
    }
}

impl View for TerminationAction {
    type V = TerminationActionModel;

    open spec fn view(&self) -> TerminationActionModel {
        match *self {
            TerminationAction::Signal => TerminationActionModel::Signal,
            TerminationAction::Check => TerminationActionModel::Check,
            TerminationAction::Kill => TerminationActionModel::Kill,
            TerminationAction::Wait => TerminationActionModel::Wait,
            TerminationAction::Drain => TerminationActionModel::Drain,
            TerminationAction::Finish(result) => TerminationActionModel::Finish(
                protocol::outcome(result),
            ),
        }
    }
}

/// How far the stopping of a process has come: what to do next, and whether the process leads a
/// process group that can be killed as a whole.
pub struct TerminationModel {
    pub groups: bool,
    pub next: TerminationActionModel,
}

impl TerminationModel {
    /// A process that is to be stopped. A process group is killed first.
    pub open spec fn start(groups: bool) -> TerminationModel {
        TerminationModel {
            groups,
            next: if groups {
                TerminationActionModel::Signal
            } else {
                TerminationActionModel::Check
            },
        }
    }

    /// The same process, with something else to do next.
    pub open spec fn to(self, next: TerminationActionModel) -> TerminationModel {
        TerminationModel { next, ..self }
    }

    /// Go on where a step succeeded, and give up with its message where it failed.
    pub open spec fn proceed(
        self,
        result: Result<(), Seq<char>>,
        next: TerminationActionModel,
    ) -> TerminationModel {
        match result {
            Ok(_) => self.to(next),
            Err(message) => self.to(TerminationActionModel::Finish(Err(message))),
        }
    }

    /// What a report leads to. A report that does not answer what was to be done changes nothing.
    pub open spec fn step(self, report: TerminationReportModel) -> TerminationModel {
        match (self.next, report) {
            (TerminationActionModel::Signal, TerminationReportModel::Signalled(result)) => {
                match result {
                    Err(SignalFailureModel::Failed(message)) => self.to(
                        TerminationActionModel::Finish(Err(message)),
                    ),
                    _ => self.to(TerminationActionModel::Check),
                }
            },
            (TerminationActionModel::Check, TerminationReportModel::Checked(result)) => {
                match result {
                    Ok(true) => self.to(TerminationActionModel::Drain),
                    Ok(false) => if self.groups {
                        self.to(TerminationActionModel::Wait)
                    } else {
                        self.to(TerminationActionModel::Kill)
                    },
                    Err(message) => self.to(TerminationActionModel::Finish(Err(message))),
                }
            },
            (TerminationActionModel::Kill, TerminationReportModel::Killed(result)) => self.proceed(
                result,
                TerminationActionModel::Wait,
            ),
            (TerminationActionModel::Wait, TerminationReportModel::Waited(result)) => self.proceed(
                result,
                TerminationActionModel::Drain,
            ),
            (TerminationActionModel::Drain, TerminationReportModel::Drained) => self.to(
                TerminationActionModel::Finish(Ok(())),
            ),
            _ => self,
        }
    }
}

/// The stopping of a process and its descendants.
#[derive(Debug)]
pub struct Termination {
    groups: bool,
    next: TerminationAction,
}

impl View for Termination {
    type V = TerminationModel;

    closed spec fn view(&self) -> TerminationModel {
        TerminationModel { groups: self.groups, next: self.next@ }
    }
}

impl Termination {
    /// A process that is to be stopped. `groups` tells whether it leads a process group.
    pub fn new(groups: bool) -> (termination: Termination)
        ensures
            termination@ == TerminationModel::start(groups),
    {
        let next = if groups {
            TerminationAction::Signal
        } else {
            TerminationAction::Check
        };
        Termination { groups, next }
    }

    /// What to do next.
    pub fn action(&self) -> (action: TerminationAction)
        ensures
            action@ == self@.next,
    {
        match &self.next {
            TerminationAction::Signal => TerminationAction::Signal,
            TerminationAction::Check => TerminationAction::Check,
            TerminationAction::Kill => TerminationAction::Kill,
            TerminationAction::Wait => TerminationAction::Wait,
            TerminationAction::Drain => TerminationAction::Drain,
            TerminationAction::Finish(Ok(_)) => TerminationAction::Finish(Ok(())),
            TerminationAction::Finish(Err(message)) => TerminationAction::Finish(
                Err(message.clone()),
            ),
        }
    }

    /// Take in what came of the step.
    pub fn handle(&mut self, report: TerminationReport)
        ensures
            final(self)@ == old(self)@.step(report@),
    {
        let next = match (&self.next, report) {
            (TerminationAction::Signal, TerminationReport::Signalled(result)) => match result {
                Err(SignalFailure::Failed(message)) => TerminationAction::Finish(Err(message)),
                Err(SignalFailure::Gone) => TerminationAction::Check,
                Ok(_) => TerminationAction::Check,
            },
            (TerminationAction::Check, TerminationReport::Checked(result)) => match result {
                Ok(ended) => if ended {
                    TerminationAction::Drain
                } else if self.groups {
                    TerminationAction::Wait
                } else {
                    TerminationAction::Kill
                },
                Err(message) => TerminationAction::Finish(Err(message)),
            },
            (TerminationAction::Kill, TerminationReport::Killed(result)) => match result {
                Ok(_) => TerminationAction::Wait,
                Err(message) => TerminationAction::Finish(Err(message)),
            },
            (TerminationAction::Wait, TerminationReport::Waited(result)) => match result {
                Ok(_) => TerminationAction::Drain,
                Err(message) => TerminationAction::Finish(Err(message)),
            },
            (TerminationAction::Drain, TerminationReport::Drained) => TerminationAction::Finish(
                Ok(()),
            ),
            _ => {
                return ;
            },
        };
        self.next = next;
    }
}

/// A process after a series of reports.
pub open spec fn after(m: TerminationModel, reports: Seq<TerminationReportModel>) -> TerminationModel
    decreases reports.len(),
{
    if reports.len() == 0 {
        m
    } else {
        after(m, reports.drop_last()).step(reports.last())
    }
}

/// The report says that the process has ended.
pub open spec fn tells_of_end(report: TerminationReportModel) -> bool {
    match report {
        TerminationReportModel::Checked(Ok(ended)) => ended,
        TerminationReportModel::Waited(Ok(_)) => true,
        _ => false,
    }
}

/// The report says that the process group was killed or was gone already.
pub open spec fn tells_of_signal(report: TerminationReportModel) -> bool {
    match report {
        TerminationReportModel::Signalled(Ok(_)) => true,
        TerminationReportModel::Signalled(Err(SignalFailureModel::Gone)) => true,
        _ => false,
    }
}

/// A report said that the process has ended.
pub open spec fn end_was_seen(reports: Seq<TerminationReportModel>) -> bool {
    exists|i: int| 0 <= i < reports.len() && tells_of_end(#[trigger] reports[i])
}

/// A report said that the process group was killed or was gone already.
pub open spec fn group_was_killed(reports: Seq<TerminationReportModel>) -> bool {
    exists|i: int| 0 <= i < reports.len() && tells_of_signal(#[trigger] reports[i])
}

/// A report said that the output has been read to its end.
pub open spec fn output_was_drained(reports: Seq<TerminationReportModel>) -> bool {
    exists|i: int| 0 <= i < reports.len() && (#[trigger] reports[i]) is Drained
}

/// What has been seen at each point on the way to the end.
proof fn lemma_seen_so_far(groups: bool, reports: Seq<TerminationReportModel>)
    ensures
        ({
            let m = after(TerminationModel::start(groups), reports);
            let stopped = m.next == TerminationActionModel::Finish(Ok(()));
            &&& m.groups == groups
            &&& stopped ==> output_was_drained(reports)
            &&& stopped || m.next is Drain ==> end_was_seen(reports)
            &&& groups && (stopped || m.next is Check || m.next is Wait || m.next is Drain)
                ==> group_was_killed(reports)
            &&& groups ==> m.next !is Kill
        }),
    decreases reports.len(),
{
    if reports.len() > 0 {
        let earlier = reports.drop_last();
        let n = earlier.len() as int;
        lemma_seen_so_far(groups, earlier);
        assert(reports[n] == reports.last());
        if end_was_seen(earlier) {
            let i = choose|i: int| 0 <= i < n && tells_of_end(#[trigger] earlier[i]);
            assert(reports[i] == earlier[i]);
        }
        if group_was_killed(earlier) {
            let i = choose|i: int| 0 <= i < n && tells_of_signal(#[trigger] earlier[i]);
            assert(reports[i] == earlier[i]);
        }
        if output_was_drained(earlier) {
            let i = choose|i: int| 0 <= i < n && (#[trigger] earlier[i]) is Drained;
            assert(reports[i] == earlier[i]);
        }
    }
}

/// A process counts as stopped only when it was seen to have ended and its output was read to the
/// end, and, where it leads a process group, only after the group was killed or found gone.
pub proof fn lemma_stopped_means_ended(groups: bool, reports: Seq<TerminationReportModel>)
    requires
        after(TerminationModel::start(groups), reports).next == TerminationActionModel::Finish(
            Ok(()),
        ),
    ensures
        end_was_seen(reports),
        output_was_drained(reports),
        groups ==> group_was_killed(reports),
{
    lemma_seen_so_far(groups, reports);
}

/// How many answers are needed at most.
pub open spec fn answers_left(m: TerminationModel) -> nat {
    match m.next {
        TerminationActionModel::Signal => 5,
        TerminationActionModel::Check => 4,
        TerminationActionModel::Kill => 3,
        TerminationActionModel::Wait => 2,
        TerminationActionModel::Drain => 1,
        TerminationActionModel::Finish(_) => 0,
    }
}

/// Every report either brings the end closer or changes nothing.
pub proof fn lemma_stopping_ends(m: TerminationModel, report: TerminationReportModel)
    ensures
        answers_left(m.step(report)) < answers_left(m) || m.step(report) == m,
{
}

/// A step that fails is the end of the stopping, with the message of that step. That a process
/// group is gone already is no failure.
pub proof fn lemma_failed_step_is_the_end(m: TerminationModel, message: Seq<char>)
    ensures
        m.next is Signal ==> m.step(
            TerminationReportModel::Signalled(Err(SignalFailureModel::Failed(message))),
        ).next == TerminationActionModel::Finish(Err(message)),
        m.next is Check ==> m.step(TerminationReportModel::Checked(Err(message))).next
            == TerminationActionModel::Finish(Err(message)),
        m.next is Kill ==> m.step(TerminationReportModel::Killed(Err(message))).next
            == TerminationActionModel::Finish(Err(message)),
        m.next is Wait ==> m.step(TerminationReportModel::Waited(Err(message))).next
            == TerminationActionModel::Finish(Err(message)),
{
}

/// Stopping begins with the process group where there is one. A process that has not ended is
/// waited for, where it leads no group after it was killed; what follows its end is its output.
pub proof fn lemma_steps_of_stopping(m: TerminationModel)
    ensures
        TerminationModel::start(true).next is Signal,
        TerminationModel::start(false).next is Check,
        m.next is Signal ==> m.step(TerminationReportModel::Signalled(Ok(()))).next is Check
            && m.step(
            TerminationReportModel::Signalled(Err(SignalFailureModel::Gone)),
        ).next is Check,
        m.next is Check ==> m.step(TerminationReportModel::Checked(Ok(true))).next is Drain,
        m.next is Check && m.groups ==> m.step(
            TerminationReportModel::Checked(Ok(false)),
        ).next is Wait,
        m.next is Check && !m.groups ==> m.step(
            TerminationReportModel::Checked(Ok(false)),
        ).next is Kill,
        m.next is Kill ==> m.step(TerminationReportModel::Killed(Ok(()))).next is Wait,
        m.next is Wait ==> m.step(TerminationReportModel::Waited(Ok(()))).next is Drain,
        m.next is Drain ==> m.step(TerminationReportModel::Drained).next
            == TerminationActionModel::Finish(Ok(())),
{
}

/// A finished stopping stays as it is, and whether there is a group never changes.
pub proof fn lemma_finished_stopping_stays(m: TerminationModel, report: TerminationReportModel)
    ensures
        m.next is Finish ==> m.step(report) == m,
        m.step(report).groups == m.groups,
{
}

/// Reports and actions of a stopping say what they were made of.
pub proof fn lemma_stopping_says_all(report: TerminationReport, action: TerminationAction)
    ensures
        match report {
            TerminationReport::Signalled(Ok(_)) => report@ == TerminationReportModel::Signalled(
                Ok(()),
            ),
            TerminationReport::Signalled(Err(SignalFailure::Gone)) => report@
                == TerminationReportModel::Signalled(Err(SignalFailureModel::Gone)),
            TerminationReport::Signalled(Err(SignalFailure::Failed(message))) => report@
                == TerminationReportModel::Signalled(Err(SignalFailureModel::Failed(message@))),
            TerminationReport::Checked(Ok(ended)) => report@ == TerminationReportModel::Checked(
                Ok(ended),
            ),
            TerminationReport::Checked(Err(message)) => report@ == TerminationReportModel::Checked(
                Err(message@),
            ),
            TerminationReport::Killed(Ok(_)) => report@ == TerminationReportModel::Killed(Ok(())),
            TerminationReport::Killed(Err(message)) => report@ == TerminationReportModel::Killed(
                Err(message@),
            ),
            TerminationReport::Waited(Ok(_)) => report@ == TerminationReportModel::Waited(Ok(())),
            TerminationReport::Waited(Err(message)) => report@ == TerminationReportModel::Waited(
                Err(message@),
            ),
            TerminationReport::Drained => report@ is Drained,
        },
        match action {
            TerminationAction::Signal => action@ is Signal,
            TerminationAction::Check => action@ is Check,
            TerminationAction::Kill => action@ is Kill,
            TerminationAction::Wait => action@ is Wait,
            TerminationAction::Drain => action@ is Drain,
            TerminationAction::Finish(Ok(_)) => action@ == TerminationActionModel::Finish(Ok(())),
            TerminationAction::Finish(Err(message)) => action@ == TerminationActionModel::Finish(
                Err(message@),
            ),
        },
{
}

/// What to log for a line of output, and whether that was the last one: a line that cannot be read
/// ends the output.
pub fn output_line(line: Result<String, String>) -> (result: (String, bool))
    ensures
        match line {
            Ok(text) => result.0@ == text@ && !result.1,
            Err(error) => result.0@ == "failed to read service output: "@ + error@ && result.1,
        },
{
    match line {
        Ok(text) => (text, false),
        Err(error) => (concat2("failed to read service output: ", error.as_str()), true),
    }
}

} // verus!
