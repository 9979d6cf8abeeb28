//! What passes between the supervisor and whoever drives it.
//!
//! The supervisor asks for one [`Action`] at a time. Whoever drives it performs the action and
//! hands back a [`Report`] of what came of it.

use std::collections::HashSet;
use vstd::prelude::*;

use crate::text;

verus! {

/// How a process ended.
#[derive(Debug)]
pub struct ExitStatus {
    pub success: bool,
    pub text: String,
}

/// How the watcher ended.
#[derive(Debug)]
pub enum WatcherEnd {
    Clean,
    Failed(String),
    Panicked(String),
}

/// What came of an action.
#[derive(Debug)]
pub enum Report {
    /// Time went on; `stop` tells whether the program was asked to stop.
    Resumed { stop: bool },
    /// A process was started, or could not be.
    Spawned(Result<(), String>),
    /// A process was asked whether it has ended.
    Polled(Result<Option<ExitStatus>, String>),
    /// A process and its descendants were stopped, or could not be.
    Terminated(Result<(), String>),
    /// The watcher was started, or could not be.
    WatcherStarted(Result<(), String>),
    /// Watched files of these services changed.
    Changed(HashSet<usize>),
    /// Nothing changed for a while.
    Quiet,
    /// No more changes will be reported.
    Closed,
    /// The watcher ended.
    WatcherJoined(WatcherEnd),
}

/// What to do next.
#[derive(Debug)]
pub enum Action {
    /// Go on at once.
    Resume,
    /// Go on after a moment.
    Pause,
    /// Start the process of a node.
    Spawn(usize),
    /// Ask whether the process of a node has ended.
    Poll(usize),
    /// Stop the process of a node and its descendants.
    Terminate(usize),
    /// Start watching for file changes.
    StartWatcher,
    /// Wait a moment for file changes.
    AwaitChanges,
    /// Wait for the watcher to end.
    JoinWatcher,
    /// Leave.
    Finish(Result<(), String>),
}

/// Something to log.
#[derive(Debug)]
pub enum Notice {
    Service { name: String, color: Option<String>, message: String },
    Warn(String),
    Error(String),
}

/// What an [`ExitStatus`] says.
pub struct ExitModel {
    pub success: bool,
    pub text: Seq<char>,
}

/// What a [`WatcherEnd`] says.
pub enum WatcherEndModel {
    Clean,
    Failed(Seq<char>),
    Panicked(Seq<char>),
}

/// What a [`Report`] says.
pub enum ReportModel {
    Resumed { stop: bool },
    Spawned(Result<(), Seq<char>>),
    Polled(Result<Option<ExitModel>, Seq<char>>),
    Terminated(Result<(), Seq<char>>),
    WatcherStarted(Result<(), Seq<char>>),
    Changed(Set<usize>),
    Quiet,
    Closed,
    WatcherJoined(WatcherEndModel),
}

/// What an [`Action`] says.
pub enum ActionModel {
    Resume,
    Pause,
    Spawn(usize),
    Poll(usize),
    Terminate(usize),
    StartWatcher,
    AwaitChanges,
    JoinWatcher,
    Finish(Result<(), Seq<char>>),
}

/// What a [`Notice`] says.
pub enum NoticeModel {
    Service { name: Seq<char>, color: Option<Seq<char>>, message: Seq<char> },
    Warn(Seq<char>),
    Error(Seq<char>),
}

/// The outcome, or the message of the error.
pub open spec fn outcome(result: Result<(), String>) -> Result<(), Seq<char>> {
    match result {
        Ok(_) => Ok(()),
        Err(message) => Err(message@),
    }
}

impl View for ExitStatus {
    type V = ExitModel;

    open spec fn view(&self) -> ExitModel {
        ExitModel { success: self.success, text: self.text@ }
    }
}

impl View for WatcherEnd {
    type V = WatcherEndModel;

    open spec fn view(&self) -> WatcherEndModel {
        match *self {
            WatcherEnd::Clean => WatcherEndModel::Clean,
            WatcherEnd::Failed(message) => WatcherEndModel::Failed(message@),
            WatcherEnd::Panicked(message) => WatcherEndModel::Panicked(message@),
        }
    }
}

impl View for Report {
    type V = ReportModel;

    open spec fn view(&self) -> ReportModel {
        match *self {
            Report::Resumed { stop } => ReportModel::Resumed { stop },
            Report::Spawned(result) => ReportModel::Spawned(outcome(result)),
            Report::Polled(result) => ReportModel::Polled(
                match result {
                    Ok(Some(status)) => Ok(Some(status@)),
                    Ok(None) => Ok(None),
                    Err(message) => Err(message@),
                },
            ),
            Report::Terminated(result) => ReportModel::Terminated(outcome(result)),
            Report::WatcherStarted(result) => ReportModel::WatcherStarted(outcome(result)),
            Report::Changed(affected) => ReportModel::Changed(affected@),
            Report::Quiet => ReportModel::Quiet,
            Report::Closed => ReportModel::Closed,
            Report::WatcherJoined(end) => ReportModel::WatcherJoined(end@),
        }
    }
}

impl View for Action {
    type V = ActionModel;

    open spec fn view(&self) -> ActionModel {
        match *self {
            Action::Resume => ActionModel::Resume,
            Action::Pause => ActionModel::Pause,
            Action::Spawn(index) => ActionModel::Spawn(index),
            Action::Poll(index) => ActionModel::Poll(index),
            Action::Terminate(index) => ActionModel::Terminate(index),
            Action::StartWatcher => ActionModel::StartWatcher,
            Action::AwaitChanges => ActionModel::AwaitChanges,
            Action::JoinWatcher => ActionModel::JoinWatcher,
            Action::Finish(result) => ActionModel::Finish(outcome(result)),
        }
    }
}

impl View for Notice {
    type V = NoticeModel;

    open spec fn view(&self) -> NoticeModel {
        match *self {
            Notice::Service { name, color, message } => NoticeModel::Service {
                name: name@,
                color: text::text_of(color),
                message: message@,
            },
            Notice::Warn(message) => NoticeModel::Warn(message@),
            Notice::Error(message) => NoticeModel::Error(message@),
        }
    }
}

/// What a list of notices says.
pub open spec fn notice_models(notices: Seq<Notice>) -> Seq<NoticeModel> {
    notices.map_values(|notice: Notice| notice@)
}

/// A report answers an action.
pub open spec fn answers(action: ActionModel, report: ReportModel) -> bool {
    match action {
        ActionModel::Resume => report is Resumed,
        ActionModel::Pause => report is Resumed,
        ActionModel::Spawn(_) => report is Spawned,
        ActionModel::Poll(_) => report is Polled,
        ActionModel::Terminate(_) => report is Terminated,
        ActionModel::StartWatcher => report is WatcherStarted,
        ActionModel::AwaitChanges => report is Changed || report is Quiet || report is Closed,
        ActionModel::JoinWatcher => report is WatcherJoined,
        ActionModel::Finish(_) => false,
    }
}

} // verus!
