//! What holds of a supervised set of services at every moment.

use vstd::prelude::*;
use vstd::seq_lib::*;

use crate::graph;
use crate::graph_laws;
use crate::lifecycle;
use crate::lifecycle::{
    BatchModel, BatchStageModel, LaunchModel, Model, PhaseModel, RoundModel,
};
use crate::lists;
use crate::order;
use crate::protocol;
use crate::protocol::{ActionModel, NoticeModel, ReportModel};
use crate::runner;
use crate::types::{GraphView, State};
use crate::watch;

verus! {

/// No node depends on `x`.
pub open spec fn is_leaf(g: GraphView, x: usize) -> bool {
    x < g.nodes.len() && g.nodes[x as int].dependents.len() == 0
}

/// Node `x` has run to success.
pub open spec fn has_succeeded(g: GraphView, x: usize) -> bool {
    x < g.nodes.len() && g.nodes[x as int].state == State::Succeeded
}

/// All direct dependencies of `x` have run to success.
pub open spec fn is_ready(g: GraphView, x: usize) -> bool {
    forall|d: usize| #[trigger] graph_laws::depends_on(g, x, d) ==> has_succeeded(g, d)
}

/// All entries are leaves.
pub open spec fn all_leaves(g: GraphView, list: Seq<usize>) -> bool {
    forall|i: int| 0 <= i < list.len() ==> is_leaf(g, #[trigger] list[i])
}

/// All entries are ready to start.
pub open spec fn all_ready(g: GraphView, list: Seq<usize>) -> bool {
    forall|i: int| 0 <= i < list.len() ==> is_ready(g, #[trigger] list[i])
}

/// All entries are marked as running.
pub open spec fn all_running(g: GraphView, list: Seq<usize>) -> bool {
    forall|i: int|
        0 <= i < list.len() ==> g.nodes[(#[trigger] list[i]) as int].state == State::Running
}

/// The first `k` entries have run to success.
pub open spec fn done_before(g: GraphView, list: Seq<usize>, k: int) -> bool {
    forall|i: int| 0 <= i < k ==> has_succeeded(g, #[trigger] list[i])
}

/// `list` holds all that the entries of `targets` depend on.
pub open spec fn covers(g: GraphView, list: Seq<usize>, targets: Seq<usize>) -> bool {
    forall|i: int, d: usize|
        0 <= i < targets.len() && #[trigger] graph_laws::depends_on(g, targets[i], d)
            ==> list.contains(d)
}

/// A run of prerequisites holds each at most once and each after its own dependencies, no leaf
/// is among them, and what ran before the current one has succeeded. The services that are
/// started afterwards depend on nothing else. At startup no service runs yet.
pub open spec fn sound_batch(m: Model, batch: BatchModel) -> bool {
    &&& batch.indices.no_duplicates()
    &&& graph_laws::dependencies_first(m.graph, batch.indices)
    &&& forall|i: int|
        0 <= i < batch.indices.len() ==> !is_leaf(m.graph, #[trigger] batch.indices[i])
    &&& done_before(m.graph, batch.indices, batch.position)
    &&& match batch.restart {
        Some(targets) => all_leaves(m.graph, targets) && covers(m.graph, batch.indices, targets),
        None => m.children.len() == 0 && covers(m.graph, batch.indices, m.services),
    }
}

/// A round of polling holds each service at most once, and the services still to be polled run.
/// The current one has left the running services exactly when it has ended.
pub open spec fn sound_round(m: Model, round: RoundModel) -> bool {
    &&& round.pending.no_duplicates()
    &&& all_leaves(m.graph, round.pending)
    &&& m.children.contains(round.current()) <==> round.stage is Polling
    &&& forall|k: int|
        round.position < k < round.pending.len() ==> m.children.contains(
            #[trigger] round.pending[k],
        )
}

/// What holds of a supervisor in its phase.
pub open spec fn sound_phase(m: Model) -> bool {
    match m.phase {
        PhaseModel::Prerequisites(batch) => sound_batch(m, batch),
        PhaseModel::StartingWatcher => m.children.len() == 0 && all_ready(m.graph, m.services),
        PhaseModel::Launching(launch) => all_leaves(m.graph, launch.targets) && all_ready(
            m.graph,
            launch.targets,
        ),
        PhaseModel::Polling(round) => sound_round(m, round),
        PhaseModel::Joining => m.children.len() == 0,
        PhaseModel::Finished(_) => m.children.len() == 0,
        _ => true,
    }
}

/// What holds of a supervisor in every phase: its graph is well formed, its order holds every
/// node once and runs dependencies first, only leaves are kept running, and they are marked so.
pub open spec fn grounded(m: Model) -> bool {
    &&& graph_laws::well_formed(m.graph)
    &&& graph_laws::is_permutation(m.graph, m.order)
    &&& graph_laws::dependencies_first(m.graph, m.order)
    &&& all_leaves(m.graph, m.services)
    &&& all_leaves(m.graph, m.children)
    &&& all_running(m.graph, m.children)
}

/// What holds of a supervisor at every moment.
pub open spec fn sound(m: Model) -> bool {
    &&& m.in_range()
    &&& grounded(m)
    &&& sound_phase(m)
}

/// A set holds only leaves.
pub open spec fn holds_leaves(g: GraphView, set: Set<usize>) -> bool {
    forall|x: usize| #[trigger] set.contains(x) ==> is_leaf(g, x)
}

/// Only leaves are reported as changed.
pub open spec fn admissible(m: Model, report: ReportModel) -> bool {
    report matches ReportModel::Changed(affected) ==> holds_leaves(m.graph, affected)
}

/// Two graphs that differ at most in the states of their nodes.
pub open spec fn same_links(g: GraphView, h: GraphView) -> bool {
    &&& g.nodes.len() == h.nodes.len()
    &&& g.lookup == h.lookup
    &&& forall|i: int|
        #![trigger g.nodes[i]]
        #![trigger h.nodes[i]]
        0 <= i < g.nodes.len() ==> g.nodes[i].service == h.nodes[i].service && g.nodes[i].deps
            == h.nodes[i].deps && g.nodes[i].dependents == h.nodes[i].dependents
}

/// What is said of links alone holds of both graphs.
proof fn lemma_same_links(g: GraphView, h: GraphView)
    requires
        same_links(g, h),
    ensures
        forall|d: usize, x: usize| #[trigger]
            graph_laws::depends_on(h, d, x) <==> graph_laws::depends_on(g, d, x),
        forall|x: usize| #[trigger] is_leaf(h, x) <==> is_leaf(g, x),
        graph_laws::well_formed(g) ==> graph_laws::well_formed(h),
{
    if graph_laws::well_formed(g) {
        assert forall|d: int, k: int|
            0 <= d < h.nodes.len() && 0 <= k < h.nodes[d].deps.len() implies #[trigger] h.nodes[d].deps[k]
            < h.nodes.len() by {
            assert(g.nodes[d].deps[k] < g.nodes.len());
        }
        assert forall|x: int, k: int|
            0 <= x < h.nodes.len() && 0 <= k < h.nodes[x].dependents.len() implies #[trigger] h.nodes[x].dependents[k]
            < h.nodes.len() by {
            assert(g.nodes[x].dependents[k] < g.nodes.len());
        }
        assert forall|d: usize, x: usize|
            d < h.nodes.len() && x < h.nodes.len() implies #[trigger] graph::occurrences(
            h.nodes[x as int].dependents,
            d,
        ) == #[trigger] graph::occurrences(h.nodes[d as int].deps, x) by {
            assert(graph::occurrences(g.nodes[x as int].dependents, d) == graph::occurrences(
                g.nodes[d as int].deps,
                x,
            ));
        }
        assert forall|i: int| 0 <= i < h.nodes.len() implies h.lookup.contains_key(
            #[trigger] h.nodes[i].service.name,
        ) && h.lookup[h.nodes[i].service.name] == i by {
            assert(g.lookup.contains_key(g.nodes[i].service.name));
        }
        assert forall|name: Seq<char>| #[trigger] h.lookup.contains_key(name) implies h.lookup[name]
            < h.nodes.len() && h.nodes[h.lookup[name] as int].service.name == name by {
            assert(g.lookup.contains_key(name));
        }
    }
}

/// Dependencies stay first when only states change.
proof fn lemma_same_links_first(g: GraphView, h: GraphView, list: Seq<usize>)
    requires
        same_links(g, h),
        graph_laws::dependencies_first(g, list),
    ensures
        graph_laws::dependencies_first(h, list),
{
    lemma_same_links(g, h);
    assert forall|i: int, x: usize|
        0 <= i < list.len() && #[trigger] graph_laws::depends_on(h, list[i], x) implies list.take(
        i,
    ).contains(x) by {
        assert(graph_laws::depends_on(g, list[i], x));
    }
}

/// A leaf is nobody's dependency.
proof fn lemma_leaf_is_no_dependency(g: GraphView, d: usize, x: usize)
    requires
        graph_laws::well_formed(g),
        graph_laws::depends_on(g, d, x),
    ensures
        x < g.nodes.len(),
        !is_leaf(g, x),
{
    let deps = g.nodes[d as int].deps;
    assert(g.nodes[d as int].deps[deps.index_of(x)] < g.nodes.len());
    graph_laws::lemma_prerequisites_are_depended_on(g, x);
    order::lemma_selected(g.nodes.len(), |i: usize| g.nodes[i as int].dependents.len() == 0);
}

/// The base of soundness, apart from the phase and the running services, is kept by a change of
/// one state.
proof fn lemma_mark(g: GraphView, index: usize, state: State)
    requires
        index < g.nodes.len(),
    ensures
        same_links(g, runner::with_state(g, index, state)),
        runner::with_state(g, index, state).nodes[index as int].state == state,
        forall|x: usize|
            x != index && x < g.nodes.len() ==> (#[trigger] runner::with_state(
                g,
                index,
                state,
            ).nodes[x as int]) == g.nodes[x as int],
{
}

/// A change of a leaf's state leaves the others ready that were.
proof fn lemma_mark_leaf_keeps_ready(g: GraphView, index: usize, state: State, list: Seq<usize>)
    requires
        graph_laws::well_formed(g),
        is_leaf(g, index),
        all_ready(g, list),
    ensures
        all_ready(runner::with_state(g, index, state), list),
{
    let h = runner::with_state(g, index, state);
    lemma_mark(g, index, state);
    lemma_same_links(g, h);
    assert forall|i: int| 0 <= i < list.len() implies is_ready(h, #[trigger] list[i]) by {
        assert(is_ready(g, list[i]));
        assert forall|d: usize| #[trigger] graph_laws::depends_on(
            h,
            list[i],
            d,
        ) implies has_succeeded(h, d) by {
            assert(graph_laws::depends_on(g, list[i], d));
            lemma_leaf_is_no_dependency(g, list[i], d);
            assert(h.nodes[d as int] == g.nodes[d as int]);
        }
    }
}

/// A change of the state of a node that is not kept running leaves the supervisor grounded.
proof fn lemma_mark_grounded(m: Model, index: usize, state: State)
    requires
        grounded(m),
        index < m.graph.nodes.len(),
        !m.children.contains(index),
    ensures
        grounded(m.mark(index, state)),
{
    let g = m.graph;
    let h = m.mark(index, state).graph;
    lemma_mark(g, index, state);
    lemma_same_links(g, h);
    lemma_same_links_first(g, h, m.order);
    assert forall|i: int| 0 <= i < m.children.len() implies h.nodes[(
    #[trigger] m.children[i]) as int].state == State::Running by {
        assert(is_leaf(g, m.children[i]));
        assert(m.children.contains(m.children[i]));
    }
}

/// Fewer running services leave the supervisor grounded.
proof fn lemma_fewer_grounded(m: Model, children: Seq<usize>)
    requires
        grounded(m),
        forall|x: usize| #[trigger] children.contains(x) ==> m.children.contains(x),
    ensures
        grounded(Model { children, ..m }),
{
    assert forall|i: int| 0 <= i < children.len() implies is_leaf(m.graph, #[trigger] children[i])
        && m.graph.nodes[children[i] as int].state == State::Running by {
        assert(children.contains(children[i]));
        let k = m.children.index_of(children[i]);
        assert(m.children[k] == children[i]);
    }
}

/// A run of prerequisites stays sound when the state of its current node changes.
proof fn lemma_mark_batch(m: Model, batch: BatchModel, state: State)
    requires
        grounded(m),
        sound_batch(m, batch),
        0 <= batch.position < batch.indices.len(),
        batch.current() < m.graph.nodes.len(),
    ensures
        grounded(m.mark(batch.current(), state)),
        sound_batch(m.mark(batch.current(), state), batch),
{
    let g = m.graph;
    let index = batch.current();
    let h = m.mark(index, state).graph;
    lemma_mark(g, index, state);
    lemma_same_links(g, h);
    lemma_same_links_first(g, h, batch.indices);
    assert(!m.children.contains(index)) by {
        if m.children.contains(index) {
            assert(is_leaf(g, m.children[m.children.index_of(index)]));
        }
    }
    lemma_mark_grounded(m, index, state);
    assert forall|i: int| 0 <= i < batch.position implies has_succeeded(
        h,
        #[trigger] batch.indices[i],
    ) by {
        assert(has_succeeded(g, batch.indices[i]));
        assert(batch.indices[i] != batch.indices[batch.position]);
    }
    if let Some(targets) = batch.restart {
        assert forall|i: int, d: usize|
            0 <= i < targets.len() && #[trigger] graph_laws::depends_on(
                h,
                targets[i],
                d,
            ) implies batch.indices.contains(d) by {
            assert(graph_laws::depends_on(g, targets[i], d));
        }
    } else {
        assert forall|i: int, d: usize|
            0 <= i < m.services.len() && #[trigger] graph_laws::depends_on(
                h,
                m.services[i],
                d,
            ) implies batch.indices.contains(d) by {
            assert(graph_laws::depends_on(g, m.services[i], d));
        }
    }
}

/// What is covered by nodes that have succeeded is ready.
proof fn lemma_covered_is_ready(g: GraphView, list: Seq<usize>, targets: Seq<usize>)
    requires
        covers(g, list, targets),
        done_before(g, list, list.len() as int),
    ensures
        all_ready(g, targets),
{
    assert forall|i: int| 0 <= i < targets.len() implies is_ready(g, #[trigger] targets[i]) by {
        assert forall|d: usize| #[trigger] graph_laws::depends_on(
            g,
            targets[i],
            d,
        ) implies has_succeeded(g, d) by {
            assert(list.contains(d));
            assert(list[list.index_of(d)] == d);
        }
    }
}

/// The end of a run of prerequisites is sound.
proof fn lemma_batch_done(m: Model, indices: Seq<usize>, restart: Option<Seq<usize>>)
    requires
        grounded(m),
        done_before(m.graph, indices, indices.len() as int),
        match restart {
            Some(targets) => all_leaves(m.graph, targets) && covers(m.graph, indices, targets),
            None => m.children.len() == 0 && covers(m.graph, indices, m.services),
        },
    ensures
        grounded(m.batch_done(restart)),
        sound_phase(m.batch_done(restart)),
{
    match restart {
        Some(targets) => {
            lemma_covered_is_ready(m.graph, indices, targets);
        },
        None => {
            lemma_covered_is_ready(m.graph, indices, m.services);
        },
    }
}

/// A report keeps a run of prerequisites sound.
proof fn lemma_step_batch(m: Model, batch: BatchModel, report: ReportModel)
    requires
        sound(m),
        m.phase == PhaseModel::Prerequisites(batch),
    ensures
        grounded(m.step_batch(batch, report).0),
        sound_phase(m.step_batch(batch, report).0),
{
    let index = batch.current();
    lemma_mark_batch(m, batch, State::Ready);
    lemma_mark_batch(m, batch, State::Running);
    lemma_mark_batch(m, batch, State::Failed);
    lemma_mark_batch(m, batch, State::Succeeded);
    lemma_mark(m.graph, index, State::Succeeded);
    let done = m.mark(index, State::Succeeded);
    assert(done_before(done.graph, batch.indices, batch.position + 1)) by {
        assert forall|i: int| 0 <= i < batch.position + 1 implies has_succeeded(
            done.graph,
            #[trigger] batch.indices[i],
        ) by {
            if i == batch.position {
                assert(batch.indices[i] == index);
            }
        }
    }
    if batch.position + 1 == batch.indices.len() {
        lemma_batch_done(done, batch.indices, batch.restart);
    }
}

/// A report keeps a launch of services sound.
proof fn lemma_step_launch(m: Model, launch: LaunchModel, report: ReportModel)
    requires
        sound(m),
        m.phase == PhaseModel::Launching(launch),
    ensures
        grounded(m.step_launch(launch, report).0),
        sound_phase(m.step_launch(launch, report).0),
{
    let g = m.graph;
    let index = launch.current();
    assert(is_leaf(g, launch.targets[launch.position]));
    lists::lemma_filter_keeps(m.children, lists::other_than(index));
    lemma_fewer_grounded(m, lists::except(m.children, index));
    if !m.children.contains(index) {
        lemma_mark_grounded(m, index, State::Ready);
        lemma_mark_grounded(m, index, State::Running);
        lemma_mark_grounded(m, index, State::Failed);
        lemma_mark_leaf_keeps_ready(g, index, State::Ready, launch.targets);
        lemma_mark_leaf_keeps_ready(g, index, State::Running, launch.targets);
        lemma_mark_leaf_keeps_ready(g, index, State::Failed, launch.targets);
        lemma_mark(g, index, State::Ready);
        lemma_mark(g, index, State::Running);
        lemma_mark(g, index, State::Failed);
        lemma_same_links(g, runner::with_state(g, index, State::Ready));
        lemma_same_links(g, runner::with_state(g, index, State::Running));
        lemma_same_links(g, runner::with_state(g, index, State::Failed));
    }
}

/// A report keeps a round of polling sound.
proof fn lemma_step_round(m: Model, round: RoundModel, report: ReportModel)
    requires
        sound(m),
        m.phase == PhaseModel::Polling(round),
    ensures
        grounded(m.step_round(round, report).0),
        sound_phase(m.step_round(round, report).0),
{
    let g = m.graph;
    let index = round.current();
    lists::lemma_filter_keeps(m.children, lists::other_than(index));
    lemma_fewer_grounded(m, lists::except(m.children, index));
    if !m.children.contains(index) {
        lemma_mark_grounded(m, index, State::Succeeded);
        lemma_mark_grounded(m, index, State::Failed);
        lemma_mark(g, index, State::Succeeded);
        lemma_mark(g, index, State::Failed);
        lemma_same_links(g, runner::with_state(g, index, State::Succeeded));
        lemma_same_links(g, runner::with_state(g, index, State::Failed));
    }
    assert forall|k: int|
        round.position < k < round.pending.len() implies lists::except(
        m.children,
        index,
    ).contains(#[trigger] round.pending[k]) by {
        assert(round.pending[k] != round.pending[round.position]);
    }
}

/// A report of changes leads to a sound run of prerequisites.
proof fn lemma_step_changed(m: Model, affected: Set<usize>)
    requires
        sound(m),
        holds_leaves(m.graph, affected),
    ensures
        ({
            let next = m.run_batch(
                runner::required(m.graph, m.order, affected),
                Some(lists::within(m.order, affected)),
            );
            grounded(next) && sound_phase(next)
        }),
{
    let g = m.graph;
    let indices = runner::required(g, m.order, affected);
    let targets = lists::within(m.order, affected);
    runner::lemma_required_is_exact(g, m.order, affected);
    lists::lemma_filter_keeps(m.order, lists::held_by(affected));
    assert forall|i: int| 0 <= i < targets.len() implies is_leaf(g, #[trigger] targets[i]) by {
        assert(targets.contains(targets[i]));
        assert(affected.contains(targets[i]));
    }
    assert forall|i: int, d: usize|
        0 <= i < targets.len() && #[trigger] graph_laws::depends_on(
            g,
            targets[i],
            d,
        ) implies indices.contains(d) by {
        assert(targets.contains(targets[i]));
        runner::lemma_required_step(g, affected, targets[i], d);
    }
    assert forall|i: int| 0 <= i < indices.len() implies !is_leaf(g, #[trigger] indices[i]) by {
        assert(indices.contains(indices[i]));
        runner::lemma_required_has_dependent(g, affected, indices[i]);
        let d = choose|d: usize| #[trigger] graph_laws::depends_on(g, d, indices[i]);
        lemma_leaf_is_no_dependency(g, d, indices[i]);
    }
    if indices.len() == 0 {
        lemma_batch_done(m, indices, Some(targets));
    }
}

/// A supervisor stays sound whatever is reported, as long as only leaves are reported as changed.
pub proof fn lemma_step_keeps_sound(m: Model, report: ReportModel)
    requires
        sound(m),
        admissible(m, report),
    ensures
        sound(m.step(report).0),
{
    lifecycle::lemma_step_in_range(m, report);
    match m.phase {
        PhaseModel::Prerequisites(batch) => {
            lemma_step_batch(m, batch, report);
        },
        PhaseModel::Launching(launch) => {
            lemma_step_launch(m, launch, report);
        },
        PhaseModel::Polling(round) => {
            lemma_step_round(m, round, report);
        },
        PhaseModel::Watching => {
            if let ReportModel::Changed(affected) = report {
                lemma_step_changed(m, affected);
            }
        },
        PhaseModel::Between { pause: _ } => {
            assert forall|k: int| 0 <= k < m.children.len() implies m.children.contains(
                #[trigger] m.children[k],
            ) by {}
        },
        PhaseModel::Stopping => {
            let first = m.children[0];
            let rest = m.children.drop_first();
            assert(!rest.contains(first)) by {
                if rest.contains(first) {
                    let k = rest.index_of(first);
                    assert(m.children[k + 1] == first);
                }
            }
            assert forall|x: usize| #[trigger] rest.contains(x) implies m.children.contains(x) by {
                assert(m.children[rest.index_of(x) + 1] == x);
            }
            lemma_fewer_grounded(m, rest);
            lemma_mark_grounded(Model { children: rest, ..m }, first, State::Pending);
        },
        _ => {},
    }
}

/// The supervisor of a well formed graph without a dependency cycle starts out sound.
pub proof fn lemma_start_is_sound(g: GraphView, watching: bool)
    requires
        graph_laws::well_formed(g),
        !graph_laws::has_cycle(g),
    ensures
        sound(lifecycle::start(g, watching)),
{
    let v = order::visit_order(g);
    let keep = |i: usize| g.nodes[i as int].dependents.len() != 0;
    let indices = lifecycle::startup_batch(g, v);
    let leaves = graph::leaves(g);
    graph_laws::lemma_order_exists_iff_acyclic(g);
    graph_laws::lemma_well_formed_is_consistent(g);
    graph_laws::lemma_full_order_is_permutation(g);
    graph_laws::lemma_visit_order_is_topological(g);
    lifecycle::lemma_start_in_range(g, watching);
    lists::lemma_filter_keeps(v, keep);
    order::lemma_selected(g.nodes.len(), |i: usize| g.nodes[i as int].dependents.len() == 0);
    assert forall|d: usize, x: usize|
        keep(d) && #[trigger] graph_laws::depends_on(g, d, x) implies keep(x) by {
        lemma_leaf_is_no_dependency(g, d, x);
    }
    graph_laws::lemma_selection_keeps_dependencies_first(g, v, keep);
    assert forall|i: int| 0 <= i < leaves.len() implies is_leaf(g, #[trigger] leaves[i]) by {
        assert(leaves.contains(leaves[i]));
    }
    assert forall|i: int, d: usize|
        0 <= i < leaves.len() && #[trigger] graph_laws::depends_on(
            g,
            leaves[i],
            d,
        ) implies indices.contains(d) by {
        lemma_leaf_is_no_dependency(g, leaves[i], d);
        assert(v.contains(d));
    }
    assert forall|i: int| 0 <= i < indices.len() implies !is_leaf(g, #[trigger] indices[i]) by {
        assert(indices.contains(indices[i]));
    }
    let m = Model {
        graph: g,
        order: v,
        services: leaves,
        watching,
        children: Seq::empty(),
        phase: PhaseModel::Watching,
    };
    assert(grounded(m));
    if indices.len() == 0 {
        lemma_batch_done(m, indices, None);
    }
}

/// The supervisor after a series of reports.
pub open spec fn after(m: Model, reports: Seq<ReportModel>) -> Model
    decreases reports.len(),
{
    if reports.len() == 0 {
        m
    } else {
        after(m, reports.drop_last()).step(reports.last()).0
    }
}

/// No report says that a node other than a leaf of `g` changed.
pub open spec fn only_leaves_change(g: GraphView, reports: Seq<ReportModel>) -> bool {
    forall|i: int|
        0 <= i < reports.len() ==> ((#[trigger] reports[i]) matches ReportModel::Changed(affected)
            ==> holds_leaves(g, affected))
}

/// A report changes at most the states of nodes: links, order, the set of services and whether
/// they are watched stay as they are.
pub proof fn lemma_step_changes_only_states(m: Model, report: ReportModel)
    requires
        m.in_range(),
    ensures
        same_links(m.graph, m.step(report).0.graph),
        m.step(report).0.order == m.order,
        m.step(report).0.services == m.services,
        m.step(report).0.watching == m.watching,
{
}

/// Whatever is reported, and however often, the supervisor of a well formed graph without a
/// dependency cycle stays sound, and only the states of its nodes change.
pub proof fn lemma_always_sound(g: GraphView, watching: bool, reports: Seq<ReportModel>)
    requires
        graph_laws::well_formed(g),
        !graph_laws::has_cycle(g),
        only_leaves_change(g, reports),
    ensures
        sound(after(lifecycle::start(g, watching), reports)),
        same_links(g, after(lifecycle::start(g, watching), reports).graph),
    decreases reports.len(),
{
    let m = lifecycle::start(g, watching);
    lemma_start_is_sound(g, watching);
    if reports.len() > 0 {
        let before = after(m, reports.drop_last());
        let report = reports.last();
        lemma_always_sound(g, watching, reports.drop_last());
        lemma_same_links(g, before.graph);
        assert(reports[reports.len() - 1] == report);
        if let ReportModel::Changed(affected) = report {
            assert(holds_leaves(before.graph, affected));
        }
        lemma_step_keeps_sound(before, report);
        lemma_step_changes_only_states(before, report);
    }
}

/// Nothing is started before all that it depends on has run to success.
pub proof fn lemma_started_only_when_ready(
    g: GraphView,
    watching: bool,
    reports: Seq<ReportModel>,
    index: usize,
)
    requires
        graph_laws::well_formed(g),
        !graph_laws::has_cycle(g),
        only_leaves_change(g, reports),
        after(lifecycle::start(g, watching), reports).wanted() == ActionModel::Spawn(index),
    ensures
        forall|d: usize| #[trigger]
            graph_laws::depends_on(g, index, d) ==> has_succeeded(
                after(lifecycle::start(g, watching), reports).graph,
                d,
            ),
{
    let m = after(lifecycle::start(g, watching), reports);
    lemma_always_sound(g, watching, reports);
    lemma_same_links(g, m.graph);
    assert forall|d: usize| #[trigger] graph_laws::depends_on(g, index, d) implies has_succeeded(
        m.graph,
        d,
    ) by {
        assert(graph_laws::depends_on(m.graph, index, d));
        match m.phase {
            PhaseModel::Prerequisites(batch) => {
                let k = batch.position;
                assert(batch.indices[k] == index);
                assert(graph_laws::depends_on(m.graph, batch.indices[k], d));
                let earlier = batch.indices.take(k);
                assert(earlier.contains(d));
                assert(batch.indices[earlier.index_of(d)] == d);
            },
            PhaseModel::Launching(launch) => {
                assert(launch.targets[launch.position] == index);
                assert(is_ready(m.graph, launch.targets[launch.position]));
            },
            _ => {},
        }
    }
}

/// At the end no service is left running.
pub proof fn lemma_nothing_runs_at_the_end(
    g: GraphView,
    watching: bool,
    reports: Seq<ReportModel>,
)
    requires
        graph_laws::well_formed(g),
        !graph_laws::has_cycle(g),
        only_leaves_change(g, reports),
        after(lifecycle::start(g, watching), reports).wanted() is Finish,
    ensures
        after(lifecycle::start(g, watching), reports).children.len() == 0,
{
    lemma_always_sound(g, watching, reports);
}

/// Services are kept running only while they are marked so, and only services that no other
/// depends on are.
pub proof fn lemma_running_services_are_leaves(
    g: GraphView,
    watching: bool,
    reports: Seq<ReportModel>,
    index: usize,
)
    requires
        graph_laws::well_formed(g),
        !graph_laws::has_cycle(g),
        only_leaves_change(g, reports),
        after(lifecycle::start(g, watching), reports).children.contains(index),
    ensures
        graph::leaves(g).contains(index),
        after(lifecycle::start(g, watching), reports).graph.nodes[index as int].state
            == State::Running,
{
    let m = after(lifecycle::start(g, watching), reports);
    lemma_always_sound(g, watching, reports);
    lemma_same_links(g, m.graph);
    let k = m.children.index_of(index);
    assert(is_leaf(m.graph, m.children[k]));
    assert(m.graph.nodes[m.children[k] as int].state == State::Running);
    order::lemma_selected(g.nodes.len(), |i: usize| g.nodes[i as int].dependents.len() == 0);
}

/// A report that does not answer what was asked for changes nothing and is not logged.
pub proof fn lemma_unasked_report_changes_nothing(m: Model, report: ReportModel)
    requires
        !protocol::answers(m.wanted(), report),
    ensures
        m.step(report) == (m, Seq::<NoticeModel>::empty()),
{
}

/// Once it has finished, the supervisor stays as it is.
pub proof fn lemma_finished_stays(m: Model, report: ReportModel)
    requires
        m.phase is Finished,
    ensures
        m.step(report) == (m, Seq::<NoticeModel>::empty()),
{
}

/// A service begins to be kept running only when it was to be started and was.
pub proof fn lemma_service_enters_when_spawned(m: Model, report: ReportModel, index: usize)
    requires
        m.in_range(),
        !m.children.contains(index),
        m.step(report).0.children.contains(index),
    ensures
        m.wanted() == ActionModel::Spawn(index),
        report matches ReportModel::Spawned(result) && result is Ok,
{
    if let PhaseModel::Launching(launch) = m.phase {
        lists::lemma_filter_keeps(m.children, lists::other_than(launch.current()));
        let pushed = m.children.push(launch.current());
        if pushed.contains(index) {
            let k = pushed.index_of(index);
            if k < m.children.len() {
                assert(m.children[k] == index);
            }
        }
    }
    if let PhaseModel::Polling(round) = m.phase {
        lists::lemma_filter_keeps(m.children, lists::other_than(round.current()));
    }
    if m.phase is Stopping {
        let rest = m.children.drop_first();
        if rest.contains(index) {
            assert(m.children[rest.index_of(index) + 1] == index);
        }
    }
}

/// A service stops being kept running only when it is being stopped, with its descendants: the
/// supervisor asks for that next, or has just had the answer.
pub proof fn lemma_service_leaves_when_stopped(m: Model, report: ReportModel, index: usize)
    requires
        m.in_range(),
        m.children.contains(index),
        !m.step(report).0.children.contains(index),
    ensures
        ({
            ||| m.step(report).0.wanted() == ActionModel::Terminate(index)
            ||| m.wanted() == ActionModel::Terminate(index) && report is Terminated
        }),
{
    if let PhaseModel::Launching(launch) = m.phase {
        lists::lemma_filter_keeps(m.children, lists::other_than(launch.current()));
        let pushed = m.children.push(launch.current());
        assert(pushed[m.children.index_of(index)] == index);
    }
    if let PhaseModel::Polling(round) = m.phase {
        lists::lemma_filter_keeps(m.children, lists::other_than(round.current()));
    }
    if m.phase is Stopping {
        let k = m.children.index_of(index);
        if k > 0 {
            assert(m.children.drop_first()[k - 1] == index);
        }
    }
}

/// The supervisor gives up with an error only before the services are launched: when a
/// prerequisite fails at startup, or when the watcher cannot be started. A prerequisite that
/// fails on a later run leaves all running services as they are.
pub proof fn lemma_errors_end_only_startup(m: Model, report: ReportModel)
    ensures
        m.step(report).0.phase matches PhaseModel::Finished(Err(_)) ==> {
            ||| m.phase matches PhaseModel::Finished(Err(_))
            ||| m.phase matches PhaseModel::Prerequisites(batch) && batch.restart is None
            ||| m.phase is StartingWatcher
        },
        m.phase is Prerequisites ==> m.step(report).0.children == m.children,
{
}

/// The report tells that the current prerequisite, which ended in success, is stopped for good.
pub open spec fn completes_current(batch: BatchModel, report: ReportModel) -> bool {
    &&& batch.stage matches BatchStageModel::Reaping(status) && status.success
    &&& report matches ReportModel::Terminated(result) && result is Ok
}

/// Prerequisites run in turn: the run goes on to the next one only when the current one has
/// succeeded, and to the watcher or to the services only after the last one has.
pub proof fn lemma_prerequisites_run_in_turn(m: Model, batch: BatchModel, report: ReportModel)
    requires
        m.in_range(),
        m.phase == PhaseModel::Prerequisites(batch),
    ensures
        m.step(report).0.phase matches PhaseModel::Prerequisites(next) ==> {
            &&& next.indices == batch.indices
            &&& next.restart == batch.restart
            &&& next.position == batch.position || next.position == batch.position + 1
                && completes_current(batch, report)
        },
        m.step(report).0.phase is StartingWatcher ==> {
            &&& batch.restart is None
            &&& batch.position + 1 == batch.indices.len()
            &&& completes_current(batch, report)
        },
        m.step(report).0.phase matches PhaseModel::Launching(launch) ==> {
            &&& launch.targets == match batch.restart {
                Some(targets) => targets,
                None => m.services,
            }
            &&& batch.position + 1 == batch.indices.len()
            &&& completes_current(batch, report)
        },
{
}

/// A change begins a run of exactly what the changed services depend on, from the first of it on,
/// and the changed services are to be restarted after it. Where they depend on nothing, they are
/// restarted at once.
pub proof fn lemma_change_reruns_prerequisites(m: Model, affected: Set<usize>)
    requires
        sound(m),
        m.phase is Watching,
        !affected.is_empty(),
        holds_leaves(m.graph, affected),
    ensures
        ({
            let again = runner::required(m.graph, m.order, affected);
            let targets = lists::within(m.order, affected);
            let next = m.step(ReportModel::Changed(affected)).0;
            &&& forall|x: usize| #[trigger]
                again.contains(x) <==> runner::is_required(m.graph, affected, x)
            &&& forall|x: usize| #[trigger] targets.contains(x) <==> affected.contains(x)
            &&& again.len() > 0 ==> next.phase == PhaseModel::Prerequisites(
                BatchModel {
                    indices: again,
                    position: 0,
                    stage: BatchStageModel::Check,
                    restart: Some(targets),
                },
            )
            &&& again.len() == 0 ==> (next.phase matches PhaseModel::Launching(launch)
                && launch.targets == targets && launch.position == 0)
        }),
{
    let targets = lists::within(m.order, affected);
    runner::lemma_required_is_exact(m.graph, m.order, affected);
    lists::lemma_filter_keeps(m.order, lists::held_by(affected));
    assert forall|x: usize| #[trigger] targets.contains(x) <==> affected.contains(x) by {
        if affected.contains(x) {
            assert(is_leaf(m.graph, x));
            assert(m.order.contains(x));
        }
    }
    let x = choose|x: usize| affected.contains(x);
    assert(affected.contains(x));
    assert(targets.contains(x));
}

/// The supervisor is on its way out: nothing is started or polled any more.
pub open spec fn winding_down(m: Model) -> bool {
    match m.phase {
        PhaseModel::Prerequisites(batch) => batch.stage is Halting,
        PhaseModel::Between { pause: _ } => true,
        PhaseModel::Stopping => true,
        PhaseModel::Joining => true,
        PhaseModel::Finished(_) => true,
        _ => false,
    }
}

/// The program is still to stop.
pub open spec fn stop_stands(report: ReportModel) -> bool {
    report matches ReportModel::Resumed { stop } ==> stop
}

/// How many answers a supervisor on its way out needs at most.
pub open spec fn answers_left(m: Model) -> nat {
    match m.phase {
        PhaseModel::Prerequisites(_) => m.children.len() + 3,
        PhaseModel::Between { pause: _ } => m.children.len() + 2,
        PhaseModel::Stopping => m.children.len() + 1,
        PhaseModel::Joining => 1,
        _ => 0,
    }
}

/// When the program is to stop, the next time the supervisor looks it begins to wind down.
pub proof fn lemma_stop_is_heeded(m: Model)
    requires
        m.wanted() is Resume || m.wanted() is Pause,
    ensures
        winding_down(m.step(ReportModel::Resumed { stop: true }).0),
{
}

/// A supervisor on its way out stays so while the program is to stop: it starts nothing, and
/// every answer brings it closer to the end.
pub proof fn lemma_winding_down_ends(m: Model, report: ReportModel)
    requires
        m.in_range(),
        winding_down(m),
        stop_stands(report),
    ensures
        m.wanted() !is Spawn,
        m.wanted() !is Poll,
        m.wanted() !is StartWatcher,
        winding_down(m.step(report).0),
        m.wanted() is Finish || !protocol::answers(m.wanted(), report) || answers_left(
            m.step(report).0,
        ) < answers_left(m),
        answers_left(m) == 0 <==> m.wanted() is Finish,
{
}

/// A stopped service is pending again.
pub proof fn lemma_stopped_service_is_pending(m: Model, result: Result<(), Seq<char>>)
    requires
        m.in_range(),
        m.phase is Stopping,
    ensures
        ({
            let next = m.step(ReportModel::Terminated(result)).0;
            &&& next.graph.nodes[m.children[0] as int].state == State::Pending
            &&& next.children == m.children.drop_first()
        }),
{
}

/// What the watcher reports as changed are leaves: only they are watched.
pub proof fn lemma_watched_changes_are_of_leaves(g: GraphView, paths: Seq<Option<Seq<char>>>)
    requires
        g.nodes.len() <= usize::MAX,
    ensures
        holds_leaves(
            g,
            watch::affected_nodes(paths, watch::targets_of(g, graph::leaves(g))),
        ),
{
    let leaves = graph::leaves(g);
    let keep = |leaf: usize| watch::patterns_of(g, leaf).len() != 0;
    let targets = watch::targets_of(g, leaves);
    lists::lemma_filter_keeps(leaves, keep);
    order::lemma_selected(g.nodes.len(), |i: usize| g.nodes[i as int].dependents.len() == 0);
    assert forall|x: usize| #[trigger]
        watch::affected_nodes(paths, targets).contains(x) implies is_leaf(g, x) by {
        let k = choose|k: int|
            0 <= k < targets.len() && (#[trigger] targets[k]).node_index == x
                && watch::is_affected(paths, targets[k]);
        assert(targets[k].node_index == leaves.filter(keep)[k]);
        assert(leaves.filter(keep).contains(x));
        assert(leaves.contains(x));
    }
}

} // verus!
