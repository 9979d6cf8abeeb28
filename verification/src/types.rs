//! Core types shared by the library.

use vstd::hash_map::StringHashMap;
use vstd::prelude::*;

use crate::text;
use crate::text::{concat2, decimal_text};

verus! {

/// The command representation used in a service configuration.
#[derive(Debug, PartialEq, Eq)]
pub enum CommandSpec {
    /// A single command string.
    String(String),
    /// An executable followed by its arguments.
    Args(Vec<String>),
}

/// A service as described in the service configuration file.
#[derive(Debug, PartialEq, Eq)]
pub struct ServiceSchema {
    /// Unique name of the service.
    pub name: String,
    /// Command string or executable and its arguments.
    pub command: CommandSpec,
    /// Run a string command through the platform shell.
    pub run_as_shell: bool,
    /// Optional display color, for example `#74ACDF`.
    pub color: Option<String>,
    /// Names of the services this service waits for.
    pub dependencies: Option<Vec<String>>,
    /// Optional regex patterns matched against working-directory-relative paths.
    /// A matching change reruns this leaf service's prerequisites before the service.
    pub watchlist: Option<Vec<String>>,
}

/// Semantic version of Butler.
#[derive(Debug, Clone, Copy, PartialEq, Eq, Structural)]
pub struct Version {
    pub major: u32,
    pub minor: u32,
    pub patch: u32,
}

/// Lifecycle state of a service node.
#[derive(Debug, Clone, Copy, PartialEq, Eq, Structural)]
pub enum State {
    /// Not started yet.
    Pending,
    /// Dependencies are satisfied and the service can start.
    Ready,
    /// The service process is running.
    Running,
    /// The service exited successfully.
    Succeeded,
    /// The service exited with an error.
    Failed,
    /// A dependency cannot be satisfied.
    Blocked,
}

/// One node of the dependency graph.
#[derive(Debug, PartialEq, Eq)]
pub struct Node {
    /// The service this node describes.
    pub service: ServiceSchema,
    /// Indices of the services this node depends on.
    pub deps: Vec<usize>,
    /// Indices of the services that depend on this node.
    pub dependents: Vec<usize>,
    /// Current lifecycle state.
    pub state: State,
}

/// Dependency graph over the configured services.
pub struct Graph {
    /// One node per configured service, in configuration order.
    pub nodes: Vec<Node>,
    /// Maps a service name to its index in `nodes`.
    pub lookup: StringHashMap<usize>,
}

/// What a [`CommandSpec`] says.
pub enum CommandView {
    Line(Seq<char>),
    Args(Seq<Seq<char>>),
}

/// What a [`ServiceSchema`] says.
pub struct ServiceView {
    pub name: Seq<char>,
    pub command: CommandView,
    pub run_as_shell: bool,
    pub color: Option<Seq<char>>,
    pub dependencies: Option<Seq<Seq<char>>>,
    pub watchlist: Option<Seq<Seq<char>>>,
}

/// What a [`Node`] says.
pub struct NodeView {
    pub service: ServiceView,
    pub deps: Seq<usize>,
    pub dependents: Seq<usize>,
    pub state: State,
}

/// What a [`Graph`] says.
pub struct GraphView {
    pub nodes: Seq<NodeView>,
    pub lookup: Map<Seq<char>, usize>,
}

/// The texts of an optional list of strings.
pub open spec fn texts_of(strings: Option<Vec<String>>) -> Option<Seq<Seq<char>>> {
    match strings {
        Some(v) => Some(text::texts(v@)),
        None => None,
    }
}

impl View for CommandSpec {
    type V = CommandView;

    open spec fn view(&self) -> CommandView {
        match *self {
            CommandSpec::String(s) => CommandView::Line(s@),
            CommandSpec::Args(v) => CommandView::Args(text::texts(v@)),
        }
    }
}

impl View for ServiceSchema {
    type V = ServiceView;

    open spec fn view(&self) -> ServiceView {
        ServiceView {
            name: self.name@,
            command: self.command@,
            run_as_shell: self.run_as_shell,
            color: text::text_of(self.color),
            dependencies: texts_of(self.dependencies),
            watchlist: texts_of(self.watchlist),
        }
    }
}

impl View for Node {
    type V = NodeView;

    open spec fn view(&self) -> NodeView {
        NodeView {
            service: self.service@,
            deps: self.deps@,
            dependents: self.dependents@,
            state: self.state,
        }
    }
}

impl View for Graph {
    type V = GraphView;

    open spec fn view(&self) -> GraphView {
        GraphView {
            nodes: self.nodes@.map_values(|node: Node| node@),
            lookup: self.lookup@,
        }
    }
}

impl ServiceView {
    /// The names this service depends on; none when the field is missing.
    pub open spec fn dependency_names(self) -> Seq<Seq<char>> {
        match self.dependencies {
            Some(names) => names,
            None => Seq::empty(),
        }
    }

    /// The watch patterns of this service; none when the field is missing.
    pub open spec fn watch_patterns(self) -> Seq<Seq<char>> {
        match self.watchlist {
            Some(patterns) => patterns,
            None => Seq::empty(),
        }
    }

    /// The service with missing lists replaced by empty ones.
    pub open spec fn normalized(self) -> ServiceView {
        ServiceView {
            dependencies: Some(self.dependency_names()),
            watchlist: Some(self.watch_patterns()),
            ..self
        }
    }
}

/// What a list of services says.
pub open spec fn service_views(services: Seq<ServiceSchema>) -> Seq<ServiceView> {
    services.map_values(|service: ServiceSchema| service@)
}

impl Default for State {
    /// A service starts out pending.
    fn default() -> (state: State)
        ensures
            state == State::Pending,
    {
        State::Pending
    }
}

/// A copy of a list of strings.
pub fn copy_strings(strings: &Vec<String>) -> (copy: Vec<String>)
    ensures
        copy@ == strings@,
{
    let copy = strings.clone();
    assert(copy@ =~= strings@);
    copy
}

/// A copy of an optional list of strings.
fn copy_optional_strings(strings: &Option<Vec<String>>) -> (copy: Option<Vec<String>>)
    ensures
        texts_of(copy) == texts_of(*strings),
{
    match strings {
        Some(v) => Some(copy_strings(v)),
        None => None,
    }
}

/// A copy of an optional string.
pub fn copy_optional_string(string: &Option<String>) -> (copy: Option<String>)
    ensures
        copy == *string,
{
    match string {
        Some(s) => Some(s.clone()),
        None => None,
    }
}

impl Clone for CommandSpec {
    fn clone(&self) -> (copy: Self)
        ensures
            copy@ == self@,
    {
        match self {
            CommandSpec::String(s) => CommandSpec::String(s.clone()),
            CommandSpec::Args(v) => CommandSpec::Args(copy_strings(v)),
        }
    }
}

impl Clone for ServiceSchema {
    fn clone(&self) -> (copy: Self)
        ensures
            copy@ == self@,
    {
        ServiceSchema {
            name: self.name.clone(),
            command: self.command.clone(),
            run_as_shell: self.run_as_shell,
            color: copy_optional_string(&self.color),
            dependencies: copy_optional_strings(&self.dependencies),
            watchlist: copy_optional_strings(&self.watchlist),
        }
    }
}

impl Clone for Node {
    fn clone(&self) -> (copy: Self)
        ensures
            copy@ == self@,
    {
        let deps = self.deps.clone();
        let dependents = self.dependents.clone();
        assert(deps@ =~= self.deps@);
        assert(dependents@ =~= self.dependents@);
        Node { service: self.service.clone(), deps, dependents, state: self.state }
    }
}

impl Version {
    /// The version as `major.minor.patch`.
    pub open spec fn text(self) -> Seq<char> {
        text::decimal(self.major as nat) + "."@ + text::decimal(self.minor as nat)
            + "."@ + text::decimal(self.patch as nat)
    }

    /// The version as `major.minor.patch`.
    pub fn to_string(&self) -> (result: String)
        ensures
            result@ == self.text(),
    {
        let mut result = concat2(decimal_text(self.major as u64).as_str(), ".");
        result.append(decimal_text(self.minor as u64).as_str());
        result.append(".");
        result.append(decimal_text(self.patch as u64).as_str());
        result
    }
}

} // verus!
