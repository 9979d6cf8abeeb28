//! Which file changes concern which services.

use regex::Regex;
use std::collections::HashSet;
use std::path::PathBuf;
use vstd::prelude::*;
use vstd::seq_lib::*;

use crate::outside;
use crate::outside::{path_lossy_text, path_strip_prefix, regex_error_text};
use crate::text;
use crate::text::{concat2, concat3, concat4};
use crate::types::{Graph, GraphView};

verus! {

/// How a file was modified.
#[derive(Debug, Clone, Copy, PartialEq, Eq, Structural)]
pub enum ModifyKind {
    /// Not known.
    Any,
    /// The content changed.
    Data,
    /// The attributes changed.
    Metadata,
    /// The name changed.
    Name,
    /// Something else changed.
    Other,
}

/// What happened to a file.
#[derive(Debug, Clone, Copy, PartialEq, Eq, Structural)]
pub enum FileEventKind {
    /// Not known.
    Any,
    /// It was opened, read or closed.
    Access,
    /// It was created.
    Create,
    /// It was modified.
    Modify(ModifyKind),
    /// It was removed.
    Remove,
    /// Something else.
    Other,
}

/// One piece of information about an event.
#[derive(Debug, Clone, Copy, PartialEq, Eq, Structural)]
pub enum Tag {
    /// What happened to the file that the event is about.
    FileEventKind(FileEventKind),
    /// Anything else.
    Other,
}

/// Something that happened, described by its tags.
#[derive(Debug)]
pub struct Event {
    pub tags: Vec<Tag>,
}

/// A file was created, removed or renamed, or its content changed.
pub open spec fn is_content_change(tag: Tag) -> bool {
    match tag {
        Tag::FileEventKind(FileEventKind::Create) => true,
        Tag::FileEventKind(FileEventKind::Remove) => true,
        Tag::FileEventKind(FileEventKind::Modify(ModifyKind::Data)) => true,
        Tag::FileEventKind(FileEventKind::Modify(ModifyKind::Name)) => true,
        _ => false,
    }
}

/// Lets events through that change the content or the path of a file.
#[derive(Debug, Clone, Copy)]
pub struct ContentChangeFilterer;

impl ContentChangeFilterer {
    /// Every directory is watched.
    pub fn check_dir(&self) -> (accepted: bool)
        ensures
            accepted,
    {
        true
    }

    /// Whether the event changes the content or the path of a file.
    pub fn check_event(&self, event: &Event) -> (accepted: bool)
        ensures
            accepted <==> exists|i: int|
                0 <= i < event.tags@.len() && is_content_change(#[trigger] event.tags@[i]),
    {
        let mut i: usize = 0;
        while i < event.tags.len()
            invariant
                i <= event.tags@.len(),
                forall|k: int| 0 <= k < i ==> !is_content_change(#[trigger] event.tags@[k]),
            decreases event.tags@.len() - i,
        {
            let found = match event.tags[i] {
                Tag::FileEventKind(FileEventKind::Create) => true,
                Tag::FileEventKind(FileEventKind::Remove) => true,
                Tag::FileEventKind(FileEventKind::Modify(ModifyKind::Data)) => true,
                Tag::FileEventKind(FileEventKind::Modify(ModifyKind::Name)) => true,
                _ => false,
            };
            if found {
                assert(is_content_change(event.tags@[i as int]));
                return true;
            }
            i = i + 1;
        }
        false
    }
}

/// A service and the patterns of the paths that it watches.
#[derive(Debug)]
pub struct WatchTarget {
    pub node_index: usize,
    pub patterns: Vec<Regex>,
}

/// What a [`WatchTarget`] says.
pub struct TargetView {
    pub node_index: usize,
    pub patterns: Seq<Regex>,
}

impl View for WatchTarget {
    type V = TargetView;

    open spec fn view(&self) -> TargetView {
        TargetView { node_index: self.node_index, patterns: self.patterns@ }
    }
}

/// What a list of watch targets says.
pub open spec fn target_views(targets: Seq<WatchTarget>) -> Seq<TargetView> {
    targets.map_values(|target: WatchTarget| target@)
}

/// The pattern made to match a whole path, whatever alternatives it has.
pub open spec fn anchored(pattern: Seq<char>) -> Seq<char> {
    "^(?:"@ + pattern + ")$"@
}

/// The watch patterns of node `leaf`.
pub open spec fn patterns_of(g: GraphView, leaf: usize) -> Seq<Seq<char>> {
    g.nodes[leaf as int].service.watch_patterns()
}

/// Pattern `j` of node `leaf`, compiled.
pub open spec fn compiled(g: GraphView, leaf: usize, j: int) -> Result<Regex, regex::Error> {
    outside::regex_compiled(anchored(patterns_of(g, leaf)[j]))
}

/// The first `k` patterns of node `leaf` are regular expressions.
pub open spec fn patterns_compile(g: GraphView, leaf: usize, k: int) -> bool {
    forall|j: int| 0 <= j < k ==> #[trigger] compiled(g, leaf, j) is Ok
}

/// `leaf` is a node and all its patterns are regular expressions.
pub open spec fn is_watchable(g: GraphView, leaf: usize) -> bool {
    leaf < g.nodes.len() && patterns_compile(g, leaf, patterns_of(g, leaf).len() as int)
}

/// Node `leaf` with its compiled patterns.
pub open spec fn target_of(g: GraphView, leaf: usize) -> TargetView {
    TargetView {
        node_index: leaf,
        patterns: Seq::new(
            patterns_of(g, leaf).len(),
            |j: int| compiled(g, leaf, j)->Ok_0,
        ),
    }
}

/// The watch targets of the given nodes: those with patterns, in the given order.
pub open spec fn targets_of(g: GraphView, nodes: Seq<usize>) -> Seq<TargetView> {
    nodes.filter(|leaf: usize| patterns_of(g, leaf).len() != 0).map_values(
        |leaf: usize| target_of(g, leaf),
    )
}

/// The message for a node that cannot be watched.
pub open spec fn is_watch_flaw(g: GraphView, leaf: usize, message: Seq<char>) -> bool {
    if leaf >= g.nodes.len() {
        message == "invalid graph node index"@
    } else {
        exists|j: int|
            0 <= j < patterns_of(g, leaf).len() && #[trigger] patterns_compile(g, leaf, j)
                && compiled(g, leaf, j) is Err && message == pattern_flaw(
                g.nodes[leaf as int].service.name,
                compiled(g, leaf, j)->Err_0,
            )
    }
}

/// The message for the first node that cannot be watched.
pub open spec fn is_first_watch_flaw(g: GraphView, nodes: Seq<usize>, message: Seq<char>) -> bool {
    exists|i: int|
        0 <= i < nodes.len() && !is_watchable(g, #[trigger] nodes[i]) && is_watch_flaw(
            g,
            nodes[i],
            message,
        ) && forall|k: int| 0 <= k < i ==> is_watchable(g, #[trigger] nodes[k])
}

/// The message for a pattern that is not a regular expression.
pub open spec fn pattern_flaw(service: Seq<char>, error: regex::Error) -> Seq<char> {
    "invalid watch pattern for "@ + service + ": "@ + outside::regex_error_message(error)
}

/// The compiled pattern.
///
/// # Errors
///
/// Returns a message when the pattern is not a regular expression.
pub fn accept_pattern(regex: Result<Regex, regex::Error>, service_name: &str) -> (result: Result<
    Regex,
    String,
>)
    ensures
        match regex {
            Ok(pattern) => result == Ok::<Regex, String>(pattern),
            Err(error) => result matches Err(message) && message@ == pattern_flaw(
                service_name@,
                error,
            ),
        },
{
    match regex {
        Ok(pattern) => Ok(pattern),
        Err(error) => Err(
            concat4(
                "invalid watch pattern for ",
                service_name,
                ": ",
                regex_error_text(&error).as_str(),
            ),
        ),
    }
}

/// Compile the patterns of one node.
fn compile_patterns(graph: &Graph, leaf: usize) -> (result: Result<Vec<Regex>, String>)
    requires
        leaf < graph@.nodes.len(),
    ensures
        match result {
            Ok(patterns) => is_watchable(graph@, leaf) && patterns@ == target_of(
                graph@,
                leaf,
            ).patterns,
            Err(message) => !is_watchable(graph@, leaf) && is_watch_flaw(graph@, leaf, message@),
        },
{
    let ghost g = graph@;
    let ghost wanted = patterns_of(g, leaf);
    let ghost expected = target_of(g, leaf).patterns;
    let service = &graph.nodes[leaf].service;
    assert(g.nodes[leaf as int].service == service@);
    let mut patterns: Vec<Regex> = Vec::new();
    if let Some(list) = &service.watchlist {
        let mut j: usize = 0;
        assert(wanted == text::texts(list@));
        while j < list.len()
            invariant
                g == graph@,
                leaf < g.nodes.len(),
                g.nodes[leaf as int].service == service@,
                wanted == patterns_of(g, leaf),
                wanted == text::texts(list@),
                expected == target_of(g, leaf).patterns,
                j <= list@.len(),
                patterns_compile(g, leaf, j as int),
                patterns@ == expected.take(j as int),
            decreases list@.len() - j,
        {
            assert(wanted[j as int] == list@[j as int]@);
            let whole = concat3("^(?:", list[j].as_str(), ")$");
            assert(whole@ == anchored(wanted[j as int]));
            match accept_pattern(Regex::new(whole.as_str()), service.name.as_str()) {
                Ok(pattern) => {
                    assert(expected.take(j + 1) =~= expected.take(j as int).push(
                        expected[j as int],
                    ));
                    patterns.push(pattern);
                },
                Err(message) => {
                    proof {
                        assert(compiled(g, leaf, j as int) is Err);
                        assert(patterns_compile(g, leaf, j as int));
                    }
                    return Err(message);
                },
            }
            j = j + 1;
        }
        assert(expected.take(list@.len() as int) =~= expected);
    } else {
        assert(patterns@ =~= expected);
    }
    Ok(patterns)
}

/// Compile the watch patterns of the given nodes; nodes without patterns are left out.
///
/// # Errors
///
/// Returns a message for the first node that does not exist or has a pattern that is not a regular
/// expression.
pub fn compile_watch_targets(graph: &Graph, leaves: &[usize]) -> (result: Result<
    Vec<WatchTarget>,
    String,
>)
    ensures
        match result {
            Ok(targets) => {
                &&& forall|i: int|
                    0 <= i < leaves@.len() ==> is_watchable(graph@, #[trigger] leaves@[i])
                &&& target_views(targets@) == targets_of(graph@, leaves@)
            },
            Err(message) => is_first_watch_flaw(graph@, leaves@, message@),
        },
{
    let ghost g = graph@;
    let ghost keep = |leaf: usize| patterns_of(g, leaf).len() != 0;
    let ghost build = |leaf: usize| target_of(g, leaf);
    let mut targets: Vec<WatchTarget> = Vec::new();
    let mut i: usize = 0;
    proof {
        reveal(Seq::filter);
        assert(leaves@.take(0) =~= Seq::<usize>::empty());
        assert(target_views(targets@) =~= leaves@.take(0).filter(keep).map_values(build));
    }
    while i < leaves.len()
        invariant
            g == graph@,
            keep == (|leaf: usize| patterns_of(g, leaf).len() != 0),
            build == (|leaf: usize| target_of(g, leaf)),
            i <= leaves@.len(),
            forall|k: int| 0 <= k < i ==> is_watchable(g, #[trigger] leaves@[k]),
            target_views(targets@) == leaves@.take(i as int).filter(keep).map_values(build),
        decreases leaves@.len() - i,
    {
        let leaf: usize = leaves[i];
        if leaf >= graph.nodes.len() {
            assert(!is_watchable(g, leaves@[i as int]));
            return Err("invalid graph node index".to_owned());
        }
        let patterns = match compile_patterns(graph, leaf) {
            Ok(patterns) => patterns,
            Err(message) => {
                assert(!is_watchable(g, leaves@[i as int]));
                return Err(message);
            },
        };
        let ghost kept = leaves@.take(i as int).filter(keep);
        let ghost before = targets@;
        proof {
            assert(leaves@.take(i + 1) =~= leaves@.take(i as int).push(leaf));
            leaves@.take(i as int).lemma_filter_push(leaf, keep);
            assert(kept.push(leaf).map_values(build) =~= kept.map_values(build).push(
                target_of(g, leaf),
            ));
        }
        if !patterns.is_empty() {
            targets.push(WatchTarget { node_index: leaf, patterns });
            assert(target_views(targets@) =~= target_views(before).push(target_of(g, leaf)));
        }
        i = i + 1;
    }
    proof {
        assert(leaves@.take(leaves@.len() as int) =~= leaves@);
        assert(leaves@.filter(keep).map_values(build) =~= targets_of(g, leaves@));
    }
    Ok(targets)
}

/// One of the patterns matches the path.
pub open spec fn pattern_matches(target: TargetView, path: Seq<char>) -> bool {
    exists|j: int|
        0 <= j < target.patterns.len() && outside::regex_matches(#[trigger] target.patterns[j], path)
}

/// A path below the watched directory matches a pattern of the target. `None` stands for a path
/// outside of that directory.
pub open spec fn is_affected(paths: Seq<Option<Seq<char>>>, target: TargetView) -> bool {
    exists|i: int|
        0 <= i < paths.len() && (#[trigger] paths[i] matches Some(path) && pattern_matches(
            target,
            path,
        ))
}

/// The nodes of the targets that are affected.
pub open spec fn affected_nodes(
    paths: Seq<Option<Seq<char>>>,
    targets: Seq<TargetView>,
) -> Set<usize> {
    Set::new(
        |x: usize|
            exists|k: int|
                0 <= k < targets.len() && (#[trigger] targets[k]).node_index == x && is_affected(
                    paths,
                    targets[k],
                ),
    )
}

fn any_match(target: &WatchTarget, path: &str) -> (result: bool)
    ensures
        result == pattern_matches(target@, path@),
{
    let mut j: usize = 0;
    while j < target.patterns.len()
        invariant
            j <= target.patterns@.len(),
            forall|k: int|
                0 <= k < j ==> !outside::regex_matches(#[trigger] target@.patterns[k], path@),
        decreases target.patterns@.len() - j,
    {
        if target.patterns[j].is_match(path) {
            assert(outside::regex_matches(target@.patterns[j as int], path@));
            return true;
        }
        j = j + 1;
    }
    false
}

/// Insert the nodes of the targets that `path` affects.
fn add_matches(path: &str, targets: &Vec<WatchTarget>, affected: &mut HashSet<usize>)
    ensures
        forall|x: usize| #[trigger]
            final(affected)@.contains(x) <==> old(affected)@.contains(x) || exists|k: int|
                0 <= k < targets@.len() && (#[trigger] target_views(targets@)[k]).node_index == x
                    && pattern_matches(target_views(targets@)[k], path@),
{
    broadcast use vstd::std_specs::hash::group_hash_axioms;

    let ghost views = target_views(targets@);
    let mut k: usize = 0;
    while k < targets.len()
        invariant
            k <= targets@.len(),
            views == target_views(targets@),
            forall|x: usize| #[trigger]
                affected@.contains(x) <==> old(affected)@.contains(x) || exists|i: int|
                    0 <= i < k && (#[trigger] views[i]).node_index == x && pattern_matches(
                        views[i],
                        path@,
                    ),
        decreases targets@.len() - k,
    {
        let target = &targets[k];
        let ghost before = affected@;
        let hit = any_match(target, path);
        assert(views[k as int] == target@);
        if hit {
            affected.insert(target.node_index);
        }
        proof {
            assert forall|x: usize| #[trigger]
                affected@.contains(x) <==> old(affected)@.contains(x) || exists|i: int|
                    0 <= i < k + 1 && (#[trigger] views[i]).node_index == x && pattern_matches(
                        views[i],
                        path@,
                    ) by {
                assert(before.contains(x) <==> old(affected)@.contains(x) || exists|i: int|
                    0 <= i < k && (#[trigger] views[i]).node_index == x && pattern_matches(
                        views[i],
                        path@,
                    ));
                if hit && x == target.node_index {
                    assert(views[k as int].node_index == x);
                }
            }
        }
        k = k + 1;
    }
}

/// What a list of optional strings says.
pub open spec fn path_views(paths: Seq<Option<String>>) -> Seq<Option<Seq<char>>> {
    paths.map_values(|path: Option<String>| text::text_of(path))
}

/// The nodes whose watch patterns match one of the changed paths.
///
/// A path is given as text relative to the watched directory, or as `None` when it lies outside
/// of it.
pub fn matching_texts(paths: &Vec<Option<String>>, targets: &Vec<WatchTarget>) -> (affected:
    HashSet<usize>)
    ensures
        affected@ == affected_nodes(path_views(paths@), target_views(targets@)),
{
    let ghost shown = path_views(paths@);
    let ghost views = target_views(targets@);
    let mut affected: HashSet<usize> = HashSet::new();
    let mut i: usize = 0;
    while i < paths.len()
        invariant
            i <= paths@.len(),
            shown == path_views(paths@),
            views == target_views(targets@),
            forall|x: usize| #[trigger]
                affected@.contains(x) <==> affected_nodes(shown.take(i as int), views).contains(x),
        decreases paths@.len() - i,
    {
        let ghost before = affected@;
        match &paths[i] {
            Some(path) => {
                add_matches(path.as_str(), targets, &mut affected);
            },
            None => {},
        }
        proof {
            let shorter = shown.take(i as int);
            let longer = shown.take(i + 1);
            assert(shown[i as int] == text::text_of(paths@[i as int]));
            assert forall|x: usize| #[trigger]
                affected@.contains(x) <==> affected_nodes(longer, views).contains(x) by {
                if affected_nodes(longer, views).contains(x) {
                    let k = choose|k: int|
                        0 <= k < views.len() && (#[trigger] views[k]).node_index == x
                            && is_affected(longer, views[k]);
                    let p = choose|p: int|
                        0 <= p < longer.len() && (#[trigger] longer[p] matches Some(path)
                            && pattern_matches(views[k], path));
                    if p < i {
                        assert(shorter[p] == longer[p]);
                        assert(is_affected(shorter, views[k]));
                        assert(affected_nodes(shorter, views).contains(x));
                        assert(before.contains(x));
                    } else {
                        assert(longer[p] == shown[i as int]);
                        assert(views[k].node_index == x);
                    }
                }
                if before.contains(x) {
                    assert(affected_nodes(shorter, views).contains(x));
                    let k = choose|k: int|
                        0 <= k < views.len() && (#[trigger] views[k]).node_index == x
                            && is_affected(shorter, views[k]);
                    let p = choose|p: int|
                        0 <= p < shorter.len() && (#[trigger] shorter[p] matches Some(path)
                            && pattern_matches(views[k], path));
                    assert(longer[p] == shorter[p]);
                    assert(is_affected(longer, views[k]));
                }
                if affected@.contains(x) && !before.contains(x) {
                    let k = choose|k: int|
                        0 <= k < views.len() && (#[trigger] views[k]).node_index == x
                            && pattern_matches(views[k], shown[i as int]->0);
                    assert(longer[i as int] == shown[i as int]);
                    assert(is_affected(longer, views[k]));
                }
            }
        }
        i = i + 1;
    }
    assert(shown.take(shown.len() as int) =~= shown);
    assert(affected@ =~= affected_nodes(shown, views));
    affected
}

/// A path as text relative to `root`; `None` when it lies outside of `root`.
pub open spec fn relative_text(path: PathBuf, root: PathBuf) -> Option<Seq<char>> {
    match outside::path_below(path, root) {
        Some(rest) => Some(outside::path_text(rest)),
        None => None,
    }
}

/// Paths as texts relative to `root`.
pub open spec fn relative_texts(paths: Seq<PathBuf>, root: PathBuf) -> Seq<Option<Seq<char>>> {
    paths.map_values(|path: PathBuf| relative_text(path, root))
}

/// The nodes whose watch patterns match one of the changed paths, relative to `root`. Paths
/// outside of `root` concern no node.
pub fn matching_targets(paths: &Vec<PathBuf>, targets: &Vec<WatchTarget>, root: &PathBuf) -> (
    affected: HashSet<usize>)
    ensures
        affected@ == affected_nodes(relative_texts(paths@, *root), target_views(targets@)),
{
    let mut texts: Vec<Option<String>> = Vec::new();
    let mut i: usize = 0;
    while i < paths.len()
        invariant
            i <= paths@.len(),
            texts@.len() == i,
            forall|k: int|
                0 <= k < i ==> text::text_of(#[trigger] texts@[k]) == relative_text(
                    paths@[k],
                    *root,
                ),
        decreases paths@.len() - i,
    {
        let shown = match path_strip_prefix(&paths[i], root) {
            Some(rest) => Some(path_lossy_text(&rest)),
            None => None,
        };
        texts.push(shown);
        i = i + 1;
    }
    assert(path_views(texts@) =~= relative_texts(paths@, *root));
    matching_texts(&texts, targets)
}

/// A signal that reached the program.
#[derive(Debug, Clone, Copy, PartialEq, Eq, Structural)]
pub enum Signal {
    /// The user asked to stop.
    Interrupt,
    /// The system asked to stop.
    Terminate,
    /// Any other signal.
    Other,
}

/// What to do about a batch of signals and changed paths.
#[derive(Debug)]
pub enum WatchAction {
    /// Stop watching and stop the services.
    Quit,
    /// Report the affected nodes.
    Report(HashSet<usize>),
    /// Nothing.
    Ignore,
}

/// A signal asks to stop.
pub open spec fn asks_to_stop(signals: Seq<Signal>) -> bool {
    exists|i: int|
        0 <= i < signals.len() && (#[trigger] signals[i] == Signal::Interrupt || signals[i]
            == Signal::Terminate)
}

/// Decide what to do about signals and changed paths: a request to stop comes first; otherwise the
/// affected nodes are reported, if there are any.
pub fn watch_action(
    signals: &Vec<Signal>,
    paths: &Vec<PathBuf>,
    targets: &Vec<WatchTarget>,
    root: &PathBuf,
) -> (action: WatchAction)
    ensures
        match action {
            WatchAction::Quit => asks_to_stop(signals@),
            WatchAction::Report(affected) => !asks_to_stop(signals@) && affected@
                == affected_nodes(relative_texts(paths@, *root), target_views(targets@))
                && !affected@.is_empty(),
            WatchAction::Ignore => !asks_to_stop(signals@) && affected_nodes(
                relative_texts(paths@, *root),
                target_views(targets@),
            ).is_empty(),
        },
{
    let mut i: usize = 0;
    while i < signals.len()
        invariant
            i <= signals@.len(),
            forall|k: int|
                0 <= k < i ==> #[trigger] signals@[k] != Signal::Interrupt && signals@[k]
                    != Signal::Terminate,
        decreases signals@.len() - i,
    {
        let stop = match signals[i] {
            Signal::Interrupt => true,
            Signal::Terminate => true,
            Signal::Other => false,
        };
        if stop {
            assert(signals@[i as int] == Signal::Interrupt || signals@[i as int]
                == Signal::Terminate);
            return WatchAction::Quit;
        }
        i = i + 1;
    }
    let affected = matching_targets(paths, targets, root);
    if affected.is_empty() {
        WatchAction::Ignore
    } else {
        WatchAction::Report(affected)
    }
}

/// Why watching for changes could not start or did not go on.
#[derive(Debug)]
pub enum WatchFailure {
    /// The runtime for the watcher could not be created.
    Runtime(String),
    /// The watcher could not be created.
    Create(String),
    /// The watcher gave no sign of having started.
    Startup(String),
    /// The watcher's task could not be run to its end.
    Task(String),
    /// The watcher failed while it was running.
    Run(String),
}

impl WatchFailure {
    /// The message for the failure.
    pub open spec fn text(self) -> Seq<char> {
        match self {
            WatchFailure::Runtime(error) => "failed to create Watchexec runtime: "@ + error@,
            WatchFailure::Create(error) => "failed to create Watchexec: "@ + error@,
            WatchFailure::Startup(error) => "Watchexec startup failed: "@ + error@,
            WatchFailure::Task(error) => "Watchexec task failed: "@ + error@,
            WatchFailure::Run(error) => "Watchexec failed: "@ + error@,
        }
    }

    /// The message for the failure.
    pub fn message(&self) -> (message: String)
        ensures
            message@ == self.text(),
    {
        match self {
            WatchFailure::Runtime(error) => concat2(
                "failed to create Watchexec runtime: ",
                error.as_str(),
            ),
            WatchFailure::Create(error) => concat2("failed to create Watchexec: ", error.as_str()),
            WatchFailure::Startup(error) => concat2("Watchexec startup failed: ", error.as_str()),
            WatchFailure::Task(error) => concat2("Watchexec task failed: ", error.as_str()),
            WatchFailure::Run(error) => concat2("Watchexec failed: ", error.as_str()),
        }
    }
}

/// Whether the watcher has started, from what it reported: its own outcome, or the error of
/// waiting for its report.
///
/// # Errors
///
/// Returns the watcher's message, or one that says that it gave no report.
pub fn startup_outcome(report: Result<Result<(), String>, String>) -> (result: Result<(), String>)
    ensures
        match report {
            Ok(outcome) => result == outcome,
            Err(error) => result matches Err(message) && message@ == WatchFailure::Startup(
                error,
            ).text(),
        },
{
    match report {
        Ok(outcome) => outcome,
        Err(error) => Err(WatchFailure::Startup(error).message()),
    }
}

/// A node is reported only when it has a target, and the more paths change the more nodes are
/// reported.
pub proof fn lemma_more_paths_affect_more(
    fewer: Seq<Option<Seq<char>>>,
    more: Seq<Option<Seq<char>>>,
    targets: Seq<TargetView>,
)
    ensures
        affected_nodes(fewer, targets).subset_of(affected_nodes(fewer + more, targets)),
        affected_nodes(more, targets).subset_of(affected_nodes(fewer + more, targets)),
        forall|x: usize| #[trigger]
            affected_nodes(fewer, targets).contains(x) ==> exists|k: int|
                0 <= k < targets.len() && (#[trigger] targets[k]).node_index == x,
{
    let all = fewer + more;
    assert forall|x: usize| affected_nodes(fewer, targets).contains(x) implies affected_nodes(
        all,
        targets,
    ).contains(x) by {
        let k = choose|k: int|
            0 <= k < targets.len() && (#[trigger] targets[k]).node_index == x && is_affected(
                fewer,
                targets[k],
            );
        let p = choose|p: int|
            0 <= p < fewer.len() && (#[trigger] fewer[p] matches Some(path) && pattern_matches(
                targets[k],
                path,
            ));
        assert(all[p] == fewer[p]);
        assert(is_affected(all, targets[k]));
    }
    assert forall|x: usize| affected_nodes(more, targets).contains(x) implies affected_nodes(
        all,
        targets,
    ).contains(x) by {
        let k = choose|k: int|
            0 <= k < targets.len() && (#[trigger] targets[k]).node_index == x && is_affected(
                more,
                targets[k],
            );
        let p = choose|p: int|
            0 <= p < more.len() && (#[trigger] more[p] matches Some(path) && pattern_matches(
                targets[k],
                path,
            ));
        assert(all[fewer.len() + p] == more[p]);
        assert(is_affected(all, targets[k]));
    }
}

} // verus!
