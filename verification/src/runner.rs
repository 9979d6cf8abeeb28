//! Node states and the prerequisites that a restart has to run again.

use std::collections::HashSet;
use vstd::prelude::*;
use vstd::seq_lib::*;
use vstd::set_lib::*;

use crate::graph_laws;
use crate::lists;
use crate::text;
use crate::types::{copy_optional_string, Graph, GraphView, NodeView, State};

verus! {

/// The graph with node `index` in `state`.
pub open spec fn with_state(g: GraphView, index: usize, state: State) -> GraphView {
    GraphView {
        nodes: g.nodes.update(index as int, NodeView { state, ..g.nodes[index as int] }),
        lookup: g.lookup,
    }
}

/// The name and the display color of a service.
///
/// # Errors
///
/// Returns a message when there is no such node.
pub fn service_details(graph: &Graph, index: usize) -> (result: Result<
    (String, Option<String>),
    String,
>)
    ensures
        match result {
            Ok(details) => {
                &&& index < graph@.nodes.len()
                &&& details.0@ == graph@.nodes[index as int].service.name
                &&& text::text_of(details.1) == graph@.nodes[index as int].service.color
            },
            Err(message) => index >= graph@.nodes.len() && message@ == "invalid graph node index"@,
        },
{
    if index >= graph.nodes.len() {
        return Err("invalid graph node index".to_owned());
    }
    assert(graph@.nodes[index as int] == graph.nodes@[index as int]@);
    let service = &graph.nodes[index].service;
    Ok((service.name.clone(), copy_optional_string(&service.color)))
}

/// Put node `index` into `state`.
///
/// # Errors
///
/// Returns a message, and changes nothing, when there is no such node.
pub fn set_state(graph: &mut Graph, index: usize, state: State) -> (result: Result<(), String>)
    ensures
        match result {
            Ok(_) => index < old(graph)@.nodes.len() && final(graph)@ == with_state(
                old(graph)@,
                index,
                state,
            ),
            Err(message) => index >= old(graph)@.nodes.len() && message@
                == "invalid graph node index"@ && final(graph)@ == old(graph)@,
        },
{
    let ghost before = graph@;
    if index >= graph.nodes.len() {
        return Err("invalid graph node index".to_owned());
    }
    let ghost nodes = graph.nodes@;
    graph.nodes[index].state = state;
    proof {
        assert(graph@.nodes =~= with_state(before, index, state).nodes) by {
            assert forall|k: int| 0 <= k < nodes.len() implies #[trigger] graph@.nodes[k]
                == with_state(before, index, state).nodes[k] by {
                assert(before.nodes[k] == nodes[k]@);
                if k != index {
                    assert(graph.nodes@[k] == nodes[k]);
                }
            }
        }
    }
    Ok(())
}

/// A target depends on `x`, directly or through others.
pub open spec fn is_required(g: GraphView, targets: Set<usize>, x: usize) -> bool {
    exists|walk: Seq<usize>|
        #![trigger graph_laws::is_walk(g, walk)]
        graph_laws::is_walk(g, walk) && walk.len() > 1 && targets.contains(walk[0]) && walk.last()
            == x
}

/// The entries of `order` that a target depends on, directly or through others.
pub open spec fn required(g: GraphView, order: Seq<usize>, targets: Set<usize>) -> Seq<usize> {
    order.filter(|x: usize| is_required(g, targets, x))
}

/// A dependency of a target, or of a node that a target requires, is required.
pub proof fn lemma_required_step(g: GraphView, targets: Set<usize>, d: usize, x: usize)
    requires
        targets.contains(d) || is_required(g, targets, d),
        graph_laws::depends_on(g, d, x),
    ensures
        is_required(g, targets, x),
{
    if is_required(g, targets, d) {
        let walk = choose|walk: Seq<usize>|
            #![trigger graph_laws::is_walk(g, walk)]
            graph_laws::is_walk(g, walk) && walk.len() > 1 && targets.contains(walk[0])
                && walk.last() == d;
        let longer = walk.push(x);
        assert forall|i: int|
            #![trigger longer[i]]
            0 <= i < longer.len() - 1 implies graph_laws::depends_on(g, longer[i], longer[i + 1]) by {
            if i < walk.len() - 1 {
                assert(walk[i] == longer[i] && walk[i + 1] == longer[i + 1]);
            }
        }
        assert(graph_laws::is_walk(g, longer));
    } else {
        let walk = seq![d, x];
        assert(graph_laws::is_walk(g, walk));
    }
}

/// A set that holds the dependencies of the targets and of its own members holds all that the
/// targets require.
proof fn lemma_closed_set_is_complete(
    g: GraphView,
    targets: Set<usize>,
    closed: Set<usize>,
    walk: Seq<usize>,
)
    requires
        graph_laws::is_walk(g, walk),
        walk.len() > 1,
        targets.contains(walk[0]),
        forall|d: usize, x: usize|
            (targets.contains(d) || closed.contains(d)) && #[trigger] graph_laws::depends_on(g, d, x)
                ==> closed.contains(x),
    ensures
        closed.contains(walk.last()),
    decreases walk.len(),
{
    let n = walk.len() as int;
    assert(graph_laws::depends_on(g, walk[n - 2], walk[n - 2 + 1]));
    if n > 2 {
        let shorter = walk.drop_last();
        assert forall|i: int|
            #![trigger shorter[i]]
            0 <= i < shorter.len() - 1 implies graph_laws::depends_on(
            g,
            shorter[i],
            shorter[i + 1],
        ) by {
            assert(shorter[i] == walk[i] && shorter[i + 1] == walk[i + 1]);
        }
        lemma_closed_set_is_complete(g, targets, closed, shorter);
        assert(shorter.last() == walk[n - 2]);
    }
}

/// A finite set of machine integers has at most as many members as there are such integers.
proof fn lemma_size_bound(s: Set<usize>)
    requires
        s.finite(),
    ensures
        s.len() <= usize::MAX + 1,
{
    let ints = s.map(|x: usize| x as int);
    lemma_int_range(0, usize::MAX + 1);
    assert(ints.subset_of(set_int_range(0, usize::MAX + 1)));
    lemma_len_subset(ints, set_int_range(0, usize::MAX + 1));
    lemma_map_size(s, ints, |x: usize| x as int);
}

/// The members of a set, in some order.
fn members(set: &HashSet<usize>) -> (list: Vec<usize>)
    ensures
        forall|x: usize| #[trigger] list@.contains(x) <==> set@.contains(x),
{
    broadcast use vstd::std_specs::hash::group_hash_axioms;

    let mut list: Vec<usize> = Vec::new();
    for x in it: set.iter()
        invariant
            list@ == it.seq().unref().take(it.index() as int),
            it.seq().unref().to_set() == set@,
            it.index() == it.seq().len() ==> list@ =~= it.seq().unref(),
            it.index() == it.seq().len() ==> list@.to_set() == set@,
    {
        proof {
            let all = it.seq().unref();
            let k = it.index() as int;
            assert(all.take(k + 1) =~= all.take(k).push(all[k]));
            assert(k + 1 == all.len() ==> all.take(k + 1) =~= all);
        }
        list.push(*x);
    }
    assert(forall|x: usize| #[trigger] list@.contains(x) <==> list@.to_set().contains(x));
    list
}

/// The prerequisites that the targets depend on, directly or through others, in the given order.
pub fn prerequisite_closure(graph: &Graph, order: &[usize], targets: &HashSet<usize>) -> (result:
    Vec<usize>)
    ensures
        result@ == required(graph@, order@, targets@),
{
    broadcast use vstd::std_specs::hash::group_hash_axioms;

    let ghost g = graph@;
    let mut closure: HashSet<usize> = HashSet::new();
    let mut pending = members(targets);
    proof {
        assert forall|i: int| 0 <= i < pending@.len() implies targets@.contains(
            #[trigger] pending@[i],
        ) by {
            assert(pending@.contains(pending@[i]));
        }
    }
    while pending.len() > 0
        invariant
            g == graph@,
            closure@.finite(),
            forall|c: usize| #[trigger] closure@.contains(c) ==> is_required(g, targets@, c),
            forall|i: int|
                0 <= i < pending@.len() ==> targets@.contains(#[trigger] pending@[i])
                    || closure@.contains(pending@[i]),
            forall|d: usize, x: usize|
                (targets@.contains(d) || closure@.contains(d)) && !pending@.contains(d)
                    && #[trigger] graph_laws::depends_on(g, d, x) ==> closure@.contains(x),
        decreases usize::MAX + 1 - closure@.len(), pending@.len(),
    {
        let ghost waiting = pending@;
        let ghost closed = closure@;
        proof {
            lemma_size_bound(closure@);
        }
        if let Some(index) = pending.pop() {
            proof {
                assert(waiting.last() == index);
                assert(waiting =~= pending@.push(index));
            }
            if index < graph.nodes.len() {
                let node = &graph.nodes[index];
                let ghost deps = g.nodes[index as int].deps;
                assert(g.nodes[index as int] == node@);
                let mut k: usize = 0;
                proof {
                    assert forall|d: usize, x: usize|
                        (targets@.contains(d) || closure@.contains(d)) && d != index
                            && !pending@.contains(d) && #[trigger] graph_laws::depends_on(g, d, x)
                        implies closure@.contains(x) by {
                        if waiting.contains(d) {
                            let j = waiting.index_of(d);
                            assert(pending@[j] == d);
                        }
                    }
                }
                while k < node.deps.len()
                    invariant
                        g == graph@,
                        index < g.nodes.len(),
                        deps == g.nodes[index as int].deps,
                        deps == node.deps@,
                        k <= deps.len(),
                        closure@.finite(),
                        targets@.contains(index) || closure@.contains(index),
                        forall|c: usize| #[trigger]
                            closure@.contains(c) ==> is_required(g, targets@, c),
                        forall|i: int|
                            0 <= i < pending@.len() ==> targets@.contains(#[trigger] pending@[i])
                                || closure@.contains(pending@[i]),
                        forall|j: int| 0 <= j < k ==> closure@.contains(#[trigger] deps[j]),
                        forall|d: usize, x: usize|
                            (targets@.contains(d) || closure@.contains(d)) && d != index
                                && !pending@.contains(d) && #[trigger] graph_laws::depends_on(
                                g,
                                d,
                                x,
                            ) ==> closure@.contains(x),
                        closed.subset_of(closure@),
                        closure@.len() >= closed.len(),
                        closure@.len() == closed.len() ==> pending@.len() < waiting.len(),
                    decreases deps.len() - k,
                {
                    let dependency: usize = node.deps[k];
                    let ghost closed_before = closure@;
                    let ghost pending_before = pending@;
                    proof {
                        assert(deps.contains(dependency));
                        assert(graph_laws::depends_on(g, index, dependency));
                        lemma_required_step(g, targets@, index, dependency);
                    }
                    let is_new = closure.insert(dependency);
                    if is_new {
                        pending.push(dependency);
                    }
                    proof {
                        assert(closure@ == closed_before.insert(dependency));
                        assert(is_new == !closed_before.contains(dependency));
                        if !is_new {
                            assert(closure@ =~= closed_before);
                        }
                        assert forall|d: usize, x: usize|
                            (targets@.contains(d) || closure@.contains(d)) && d != index
                                && !pending@.contains(d) && #[trigger] graph_laws::depends_on(
                                g,
                                d,
                                x,
                            ) implies closure@.contains(x) by {
                            if is_new {
                                assert(pending@[pending_before.len() as int] == dependency);
                                if pending_before.contains(d) {
                                    let j = pending_before.index_of(d);
                                    assert(pending@[j] == d);
                                }
                            }
                        }
                    }
                    k = k + 1;
                }
                proof {
                    assert forall|d: usize, x: usize|
                        (targets@.contains(d) || closure@.contains(d)) && !pending@.contains(d)
                            && #[trigger] graph_laws::depends_on(g, d, x) implies closure@.contains(
                        x,
                    ) by {
                        if d == index {
                            let j = deps.index_of(x);
                            assert(deps[j] == x);
                        }
                    }
                    lemma_size_bound(closure@);
                }
            } else {
                proof {
                    assert forall|d: usize, x: usize|
                        (targets@.contains(d) || closure@.contains(d)) && !pending@.contains(d)
                            && #[trigger] graph_laws::depends_on(g, d, x) implies closure@.contains(
                        x,
                    ) by {
                        if waiting.contains(d) {
                            let j = waiting.index_of(d);
                            if j < pending@.len() {
                                assert(pending@[j] == d);
                            }
                        }
                    }
                }
            }
        }
    }
    let ghost keep = |x: usize| is_required(g, targets@, x);
    proof {
        assert forall|x: usize| #[trigger] closure@.contains(x) <==> is_required(
            g,
            targets@,
            x,
        ) by {
            if is_required(g, targets@, x) {
                let walk = choose|walk: Seq<usize>|
                    #![trigger graph_laws::is_walk(g, walk)]
                    graph_laws::is_walk(g, walk) && walk.len() > 1 && targets@.contains(walk[0])
                        && walk.last() == x;
                lemma_closed_set_is_complete(g, targets@, closure@, walk);
            }
        }
    }
    let mut result: Vec<usize> = Vec::new();
    let mut i: usize = 0;
    proof {
        reveal(Seq::filter);
        assert(order@.take(0) =~= Seq::<usize>::empty());
    }
    while i < order.len()
        invariant
            i <= order@.len(),
            keep == (|x: usize| is_required(g, targets@, x)),
            forall|x: usize| #[trigger] closure@.contains(x) <==> is_required(g, targets@, x),
            result@ == order@.take(i as int).filter(keep),
        decreases order@.len() - i,
    {
        let index: usize = order[i];
        proof {
            assert(order@.take(i + 1) =~= order@.take(i as int).push(index));
            order@.take(i as int).lemma_filter_push(index, keep);
        }
        if closure.contains(&index) {
            result.push(index);
        }
        i = i + 1;
    }
    assert(order@.take(order@.len() as int) =~= order@);
    result
}

/// What a restart runs again: every direct and transitive dependency of the targets and nothing
/// else, each once, and each after its own dependencies.
pub proof fn lemma_required_is_exact(g: GraphView, order: Seq<usize>, targets: Set<usize>)
    requires
        graph_laws::well_formed(g),
        graph_laws::is_permutation(g, order),
        graph_laws::dependencies_first(g, order),
    ensures
        required(g, order, targets).no_duplicates(),
        forall|x: usize| #[trigger]
            required(g, order, targets).contains(x) <==> is_required(g, targets, x),
        graph_laws::dependencies_first(g, required(g, order, targets)),
{
    let keep = |x: usize| is_required(g, targets, x);
    lists::lemma_filter_keeps(order, keep);
    assert forall|d: usize, x: usize|
        keep(d) && #[trigger] graph_laws::depends_on(g, d, x) implies keep(x) by {
        lemma_required_step(g, targets, d, x);
    }
    graph_laws::lemma_selection_keeps_dependencies_first(g, order, keep);
    assert forall|x: usize| is_required(g, targets, x) implies #[trigger] order.contains(x) by {
        lemma_required_has_dependent(g, targets, x);
    }
}

/// A required node is one that some node depends on.
pub proof fn lemma_required_has_dependent(g: GraphView, targets: Set<usize>, x: usize)
    requires
        graph_laws::well_formed(g),
        is_required(g, targets, x),
    ensures
        x < g.nodes.len(),
        exists|d: usize| #[trigger] graph_laws::depends_on(g, d, x),
{
    let walk = choose|walk: Seq<usize>|
        #![trigger graph_laws::is_walk(g, walk)]
        graph_laws::is_walk(g, walk) && walk.len() > 1 && targets.contains(walk[0]) && walk.last()
            == x;
    let d = walk[walk.len() - 2];
    assert(graph_laws::depends_on(g, d, walk[walk.len() - 2 + 1]));
    let deps = g.nodes[d as int].deps;
    assert(deps[deps.index_of(x)] < g.nodes.len());
}

/// What targets require is the least that holds their dependencies and the dependencies of all it
/// holds: every other such set holds it.
pub proof fn lemma_required_is_least(g: GraphView, targets: Set<usize>, closed: Set<usize>, x: usize)
    requires
        forall|d: usize, y: usize|
            (targets.contains(d) || closed.contains(d)) && #[trigger] graph_laws::depends_on(g, d, y)
                ==> closed.contains(y),
        is_required(g, targets, x),
    ensures
        closed.contains(x),
{
    let walk = choose|walk: Seq<usize>|
        #![trigger graph_laws::is_walk(g, walk)]
        graph_laws::is_walk(g, walk) && walk.len() > 1 && targets.contains(walk[0]) && walk.last()
            == x;
    lemma_closed_set_is_complete(g, targets, closed, walk);
}

/// Whatever order is given, what is run again are its entries that a target requires, and they keep
/// their order.
pub proof fn lemma_required_keeps_the_order(
    g: GraphView,
    order: Seq<usize>,
    targets: Set<usize>,
    i: int,
    j: int,
)
    requires
        order.no_duplicates(),
        0 <= i < j < required(g, order, targets).len(),
    ensures
        order.index_of(required(g, order, targets)[i]) < order.index_of(
            required(g, order, targets)[j],
        ),
        forall|x: usize| #[trigger]
            required(g, order, targets).contains(x) <==> order.contains(x) && is_required(
                g,
                targets,
                x,
            ),
{
    let keep = |x: usize| is_required(g, targets, x);
    lists::lemma_filter_keeps(order, keep);
    lists::lemma_filter_keeps_order(order, keep, i, j);
}

} // verus!
