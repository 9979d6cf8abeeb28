//! What watch patterns, file events and changed paths lead to.

use std::path::PathBuf;
use vstd::prelude::*;
use vstd::seq_lib::*;

use crate::lists;
use crate::outside;
use crate::types::GraphView;
use crate::watch;
use crate::watch::{FileEventKind, ModifyKind, Signal, Tag, TargetView, WatchFailure, WatchTarget};

verus! {

/// A file changes when it is created, removed or renamed, or when its content is modified. Being
/// accessed, having other attributes, or anything that is not known to be a change is none.
pub proof fn lemma_what_counts_as_change(tag: Tag)
    ensures
        watch::is_content_change(tag) <==> {
            ||| tag == Tag::FileEventKind(FileEventKind::Create)
            ||| tag == Tag::FileEventKind(FileEventKind::Remove)
            ||| tag == Tag::FileEventKind(FileEventKind::Modify(ModifyKind::Name))
            ||| tag == Tag::FileEventKind(FileEventKind::Modify(ModifyKind::Data))
        },
{
}

/// An anchored pattern is the pattern in a group of its own, between the beginning and the end of
/// the text.
pub proof fn lemma_anchors_enclose_the_pattern(pattern: Seq<char>)
    ensures
        watch::anchored(pattern).len() == pattern.len() + 6,
        watch::anchored(pattern).take(4) == "^(?:"@,
        watch::anchored(pattern).subrange(4, (pattern.len() + 4) as int) == pattern,
        watch::anchored(pattern).skip((pattern.len() + 4) as int) == ")$"@,
{
    reveal_strlit("^(?:");
    reveal_strlit(")$");
    assert(watch::anchored(pattern).take(4) =~= "^(?:"@);
    assert(watch::anchored(pattern).subrange(4, (pattern.len() + 4) as int) =~= pattern);
    assert(watch::anchored(pattern).skip((pattern.len() + 4) as int) =~= ")$"@);
}

/// How many watch patterns a node has.
pub open spec fn pattern_count(g: GraphView, x: usize) -> nat {
    match g.nodes[x as int].service.watchlist {
        Some(patterns) => patterns.len(),
        None => 0,
    }
}

/// A target watches with all patterns of its own node, in their order, each anchored.
pub proof fn lemma_target_has_the_patterns_of_its_node(g: GraphView, leaf: usize, j: int)
    requires
        0 <= j < pattern_count(g, leaf),
    ensures
        watch::target_of(g, leaf).node_index == leaf,
        watch::target_of(g, leaf).patterns.len() == pattern_count(g, leaf),
        watch::target_of(g, leaf).patterns[j] == outside::regex_compiled(
            "^(?:"@ + g.nodes[leaf as int].service.watchlist->0[j] + ")$"@,
        )->Ok_0,
{
}

/// Of the given nodes exactly those with patterns become targets, each as often and in the order in
/// which they are given.
pub proof fn lemma_targets_are_the_nodes_with_patterns(g: GraphView, nodes: Seq<usize>, k: int)
    requires
        0 <= k < watch::targets_of(g, nodes).len(),
    ensures
        nodes.contains(watch::targets_of(g, nodes)[k].node_index),
        pattern_count(g, watch::targets_of(g, nodes)[k].node_index) > 0,
        watch::targets_of(g, nodes)[k] == watch::target_of(
            g,
            watch::targets_of(g, nodes)[k].node_index,
        ),
        nodes.no_duplicates() ==> forall|i: int|
            0 <= i < k ==> nodes.index_of((#[trigger] watch::targets_of(g, nodes)[i]).node_index)
                < nodes.index_of(watch::targets_of(g, nodes)[k].node_index),
{
    let keep = |leaf: usize| watch::patterns_of(g, leaf).len() != 0;
    let kept = nodes.filter(keep);
    lists::lemma_filter_keeps(nodes, keep);
    assert(kept.contains(kept[k]));
    if nodes.no_duplicates() {
        assert forall|i: int| 0 <= i < k implies nodes.index_of(
            (#[trigger] watch::targets_of(g, nodes)[i]).node_index,
        ) < nodes.index_of(watch::targets_of(g, nodes)[k].node_index) by {
            lists::lemma_filter_keeps_order(nodes, keep, i, k);
        }
    }
}

/// Every given node with patterns becomes a target.
pub proof fn lemma_every_node_with_patterns_is_a_target(g: GraphView, nodes: Seq<usize>, x: usize)
    requires
        nodes.contains(x),
        pattern_count(g, x) > 0,
    ensures
        exists|k: int|
            0 <= k < watch::targets_of(g, nodes).len() && (#[trigger] watch::targets_of(
                g,
                nodes,
            )[k]).node_index == x,
{
    let keep = |leaf: usize| watch::patterns_of(g, leaf).len() != 0;
    let kept = nodes.filter(keep);
    lists::lemma_filter_keeps(nodes, keep);
    assert(kept.contains(x));
    let k = kept.index_of(x);
    assert(watch::targets_of(g, nodes)[k].node_index == x);
}

/// A node can be watched exactly when it is a node and each of its patterns, anchored, is a regular
/// expression.
pub proof fn lemma_watchable_iff(g: GraphView, leaf: usize)
    ensures
        watch::is_watchable(g, leaf) <==> leaf < g.nodes.len() && forall|j: int|
            0 <= j < pattern_count(g, leaf) ==> outside::regex_compiled(
                "^(?:"@ + #[trigger] g.nodes[leaf as int].service.watchlist->0[j] + ")$"@,
            ) is Ok,
{
    let patterns = g.nodes[leaf as int].service.watchlist->0;
    if watch::is_watchable(g, leaf) {
        assert forall|j: int| 0 <= j < pattern_count(g, leaf) implies outside::regex_compiled(
            "^(?:"@ + #[trigger] patterns[j] + ")$"@,
        ) is Ok by {
            assert(watch::compiled(g, leaf, j) is Ok);
        }
    }
    if leaf < g.nodes.len() && forall|j: int|
        0 <= j < pattern_count(g, leaf) ==> outside::regex_compiled(
            "^(?:"@ + #[trigger] patterns[j] + ")$"@,
        ) is Ok {
        assert forall|j: int| 0 <= j < pattern_count(g, leaf) implies #[trigger] watch::compiled(
            g,
            leaf,
            j,
        ) is Ok by {
            assert(patterns[j] == watch::patterns_of(g, leaf)[j]);
        }
    }
}

/// The complaint about a pattern that is no regular expression names the service that has it, and
/// is about the first such pattern of that service.
pub proof fn lemma_pattern_complaint(g: GraphView, leaf: usize, message: Seq<char>)
    requires
        leaf < g.nodes.len(),
        watch::is_watch_flaw(g, leaf, message),
    ensures
        exists|j: int|
            {
                &&& 0 <= j < pattern_count(g, leaf)
                &&& outside::regex_compiled(
                    #[trigger] watch::anchored(g.nodes[leaf as int].service.watchlist->0[j]),
                ) matches Err(error) && message == "invalid watch pattern for "@
                    + g.nodes[leaf as int].service.name + ": "@ + outside::regex_error_message(
                    error,
                )
                &&& forall|i: int|
                    0 <= i < j ==> outside::regex_compiled(
                        #[trigger] watch::anchored(g.nodes[leaf as int].service.watchlist->0[i]),
                    ) is Ok
            },
{
    let patterns = g.nodes[leaf as int].service.watchlist->0;
    let j = choose|j: int|
        0 <= j < watch::patterns_of(g, leaf).len() && #[trigger] watch::patterns_compile(g, leaf, j)
            && watch::compiled(g, leaf, j) is Err && message == watch::pattern_flaw(
            g.nodes[leaf as int].service.name,
            watch::compiled(g, leaf, j)->Err_0,
        );
    assert(outside::regex_compiled(watch::anchored(patterns[j])) is Err);
    assert forall|i: int| 0 <= i < j implies outside::regex_compiled(
        #[trigger] watch::anchored(patterns[i]),
    ) is Ok by {
        assert(watch::compiled(g, leaf, i) is Ok);
    }
}

/// A node is affected exactly when a pattern of one of its targets matches one of the paths; a path
/// outside of the watched directory is matched by nothing.
pub proof fn lemma_affected_iff_a_pattern_matches(
    paths: Seq<Option<Seq<char>>>,
    targets: Seq<TargetView>,
    x: usize,
)
    ensures
        watch::affected_nodes(paths, targets).contains(x) <==> exists|k: int, j: int, i: int|
            {
                &&& 0 <= k < targets.len()
                &&& targets[k].node_index == x
                &&& 0 <= j < targets[k].patterns.len()
                &&& 0 <= i < paths.len()
                &&& (#[trigger] paths[i]) is Some
                &&& outside::regex_matches(#[trigger] targets[k].patterns[j], paths[i]->0)
            },
{
    if watch::affected_nodes(paths, targets).contains(x) {
        let k = choose|k: int|
            0 <= k < targets.len() && (#[trigger] targets[k]).node_index == x
                && watch::is_affected(paths, targets[k]);
        let i = choose|i: int|
            0 <= i < paths.len() && (#[trigger] paths[i] matches Some(path)
                && watch::pattern_matches(targets[k], path));
        let j = choose|j: int|
            0 <= j < targets[k].patterns.len() && outside::regex_matches(
                #[trigger] targets[k].patterns[j],
                paths[i]->0,
            );
        assert(paths[i] is Some && outside::regex_matches(targets[k].patterns[j], paths[i]->0));
    }
    if exists|k: int, j: int, i: int|
        {
            &&& 0 <= k < targets.len()
            &&& targets[k].node_index == x
            &&& 0 <= j < targets[k].patterns.len()
            &&& 0 <= i < paths.len()
            &&& (#[trigger] paths[i]) is Some
            &&& outside::regex_matches(#[trigger] targets[k].patterns[j], paths[i]->0)
        } {
        let (k, j, i) = choose|k: int, j: int, i: int|
            {
                &&& 0 <= k < targets.len()
                &&& targets[k].node_index == x
                &&& 0 <= j < targets[k].patterns.len()
                &&& 0 <= i < paths.len()
                &&& (#[trigger] paths[i]) is Some
                &&& outside::regex_matches(#[trigger] targets[k].patterns[j], paths[i]->0)
            };
        assert(watch::pattern_matches(targets[k], paths[i]->0));
        assert(watch::is_affected(paths, targets[k]));
    }
}

/// Each changed path is looked at as the text of what is left of it below the watched directory;
/// nothing is left of a path outside.
pub proof fn lemma_paths_are_seen_from_the_root(paths: Seq<PathBuf>, root: PathBuf, i: int)
    requires
        0 <= i < paths.len(),
    ensures
        watch::relative_texts(paths, root).len() == paths.len(),
        outside::path_below(paths[i], root) is None ==> watch::relative_texts(
            paths,
            root,
        )[i] is None,
        outside::path_below(paths[i], root) matches Some(rest) ==> watch::relative_texts(
            paths,
            root,
        )[i] == Some(outside::path_text(rest)),
{
}

/// A target says which node it is for and all its patterns.
pub proof fn lemma_target_says_all(targets: Seq<WatchTarget>, i: int)
    requires
        0 <= i < targets.len(),
    ensures
        watch::target_views(targets).len() == targets.len(),
        watch::target_views(targets)[i].node_index == targets[i].node_index,
        watch::target_views(targets)[i].patterns == targets[i].patterns@,
{
}

/// The program is asked to stop exactly when one of the signals is an interrupt or a request to
/// terminate.
pub proof fn lemma_signals_that_stop(signals: Seq<Signal>)
    ensures
        watch::asks_to_stop(signals) <==> signals.contains(Signal::Interrupt) || signals.contains(
            Signal::Terminate,
        ),
{
    if watch::asks_to_stop(signals) {
        let i = choose|i: int|
            0 <= i < signals.len() && (#[trigger] signals[i] == Signal::Interrupt || signals[i]
                == Signal::Terminate);
        assert(signals.contains(signals[i]));
    }
    if signals.contains(Signal::Interrupt) {
        assert(signals[signals.index_of(Signal::Interrupt)] == Signal::Interrupt);
    }
    if signals.contains(Signal::Terminate) {
        assert(signals[signals.index_of(Signal::Terminate)] == Signal::Terminate);
    }
}

/// The message of a failed watcher ends with the reason, unchanged, after what went wrong.
pub proof fn lemma_failure_message_ends_with_the_reason(failure: WatchFailure)
    ensures
        match failure {
            WatchFailure::Runtime(error) => failure.text() == "failed to create Watchexec runtime: "@
                + error@,
            WatchFailure::Create(error) => failure.text() == "failed to create Watchexec: "@ + error@,
            WatchFailure::Startup(error) => failure.text() == "Watchexec startup failed: "@ + error@,
            WatchFailure::Task(error) => failure.text() == "Watchexec task failed: "@ + error@,
            WatchFailure::Run(error) => failure.text() == "Watchexec failed: "@ + error@,
        },
{
}

/// A list of optional strings says each of them at its place.
pub proof fn lemma_paths_say_each(paths: Seq<Option<String>>, i: int)
    requires
        0 <= i < paths.len(),
    ensures
        watch::path_views(paths).len() == paths.len(),
        paths[i] is None ==> watch::path_views(paths)[i] is None,
        paths[i] matches Some(path) ==> watch::path_views(paths)[i] == Some(path@),
{
}

/// The node that is complained about is the first of the given nodes that cannot be watched; a
/// position without a node is complained about as such.
pub proof fn lemma_first_unwatchable_node(g: GraphView, nodes: Seq<usize>, message: Seq<char>)
    requires
        watch::is_first_watch_flaw(g, nodes, message),
    ensures
        exists|i: int|
            {
                &&& 0 <= i < nodes.len()
                &&& !watch::is_watchable(g, #[trigger] nodes[i])
                &&& watch::is_watch_flaw(g, nodes[i], message)
                &&& nodes[i] >= g.nodes.len() ==> message == "invalid graph node index"@
                &&& forall|k: int| 0 <= k < i ==> watch::is_watchable(g, #[trigger] nodes[k])
            },
{
}

/// The nodes that are complained about are found whenever there are any: where some node cannot be
/// watched, one is the first.
pub proof fn lemma_some_node_is_first_unwatchable(g: GraphView, nodes: Seq<usize>, i: int) -> (k:
    int)
    requires
        0 <= i < nodes.len(),
        !watch::is_watchable(g, nodes[i]),
    ensures
        0 <= k <= i,
        !watch::is_watchable(g, nodes[k]),
        forall|j: int| 0 <= j < k ==> watch::is_watchable(g, #[trigger] nodes[j]),
    decreases i,
{
    if exists|j: int| 0 <= j < i && !watch::is_watchable(g, #[trigger] nodes[j]) {
        let j = choose|j: int| 0 <= j < i && !watch::is_watchable(g, #[trigger] nodes[j]);
        lemma_some_node_is_first_unwatchable(g, nodes, j)
    } else {
        i
    }
}

} // verus!
