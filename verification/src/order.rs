//! The order in which the nodes of a graph are visited: round by round, each round with the nodes
//! whose dependencies have all been visited in earlier rounds, in configuration order.

use vstd::prelude::*;
use vstd::seq_lib::*;
use vstd::set_lib::*;

use crate::graph;
use crate::text;
use crate::types::GraphView;

verus! {

/// The numbers below `n` in ascending order.
pub open spec fn positions(n: nat) -> Seq<usize> {
    Seq::new(n, |i: int| i as usize)
}

/// The positions of the nodes without dependencies, in ascending order.
pub open spec fn roots(g: GraphView) -> Seq<usize> {
    positions(g.nodes.len()).filter(|i: usize| g.nodes[i as int].deps.len() == 0)
}

/// The nodes that depend on `x`, each once per link.
pub open spec fn dependents(g: GraphView, x: usize) -> Seq<usize> {
    g.nodes[x as int].dependents
}

/// How many dependency links of `d` lead to the nodes in `done`.
pub open spec fn released(g: GraphView, done: Seq<usize>, d: usize) -> nat
    decreases done.len(),
{
    if done.len() == 0 {
        0
    } else {
        released(g, done.drop_last(), d) + graph::occurrences(dependents(g, done.last()), d)
    }
}

/// How many dependencies of `d` are left when the nodes in `done` have been visited.
pub open spec fn remaining(g: GraphView, done: Seq<usize>, d: usize) -> int {
    g.nodes[d as int].deps.len() - released(g, done, d)
}

/// How many dependencies of `d` are left when, after the nodes in `done`, the first `k` links of
/// `x` have been released as well.
pub open spec fn remaining_within(
    g: GraphView,
    done: Seq<usize>,
    x: usize,
    k: int,
    d: usize,
) -> int {
    remaining(g, done, d) - graph::occurrences(dependents(g, x).take(k), d)
}

/// The first `k` links of `x` lead to nodes of the graph that still have a dependency to release.
pub open spec fn links_fit(g: GraphView, done: Seq<usize>, x: usize, k: int) -> bool {
    forall|j: int|
        0 <= j < k ==> (#[trigger] dependents(g, x)[j]) < g.nodes.len() && remaining_within(
            g,
            done,
            x,
            j + 1,
            dependents(g, x)[j],
        ) >= 0
}

/// Node `i` is not among the nodes in `done`, and none of its dependencies is left once they have
/// been visited.
pub open spec fn is_ready(g: GraphView, done: Seq<usize>, i: usize) -> bool {
    !done.contains(i) && remaining(g, done, i) == 0
}

/// The nodes that become ready when the nodes in `done` have been visited, in ascending order.
pub open spec fn ready(g: GraphView, done: Seq<usize>) -> Seq<usize> {
    positions(g.nodes.len()).filter(|i: usize| is_ready(g, done, i))
}

/// The nodes visited in the first `r` rounds.
pub open spec fn visited(g: GraphView, r: int) -> Seq<usize>
    decreases r,
{
    if r <= 0 {
        Seq::empty()
    } else {
        visited(g, r - 1) + ready(g, visited(g, r - 1))
    }
}

/// All nodes that can be visited, in visiting order.
pub open spec fn visit_order(g: GraphView) -> Seq<usize> {
    visited(g, g.nodes.len() as int)
}

/// The links of the node that is visited in step `p` fit; true when no node is left to visit.
pub open spec fn step_fits(g: GraphView, p: int) -> bool {
    p < visit_order(g).len() ==> links_fit(
        g,
        visit_order(g).take(p),
        visit_order(g)[p],
        dependents(g, visit_order(g)[p]).len() as int,
    )
}

/// No visit meets a link that contradicts the nodes' dependency lists.
pub open spec fn consistent(g: GraphView) -> bool {
    forall|p: int| 0 <= p < g.nodes.len() ==> #[trigger] step_fits(g, p)
}

/// The positions of the nodes that keep an unvisited dependency for good, in ascending order.
pub open spec fn blocked(g: GraphView) -> Seq<usize> {
    positions(g.nodes.len()).filter(|i: usize| remaining(g, visit_order(g), i) > 0)
}

/// The message that names the blocked services, in lexicographic order.
pub open spec fn cycle_message(g: GraphView) -> Seq<char> {
    "dependency cycle: "@ + text::joined(
        text::sorted_texts(blocked(g).map_values(|i: usize| g.nodes[i as int].service.name)),
        ", "@,
    )
}

/// `done` holds exactly the nodes without a remaining dependency.
pub open spec fn settled(g: GraphView, done: Seq<usize>) -> bool {
    forall|d: usize|
        d < g.nodes.len() ==> (#[trigger] remaining(g, done, d)) >= 0 && (done.contains(d)
            <==> remaining(g, done, d) == 0)
}

/// A filter over ascending positions keeps them ascending, within range and without duplicates,
/// and keeps exactly those that pass.
pub proof fn lemma_selected(n: nat, keep: spec_fn(usize) -> bool)
    requires
        n <= usize::MAX + 1,
    ensures
        positions(n).filter(keep).no_duplicates(),
        forall|i: int|
            0 <= i < positions(n).filter(keep).len() ==> (#[trigger] positions(n).filter(keep)[i])
                < n,
        forall|i: int, j: int|
            0 <= i < j < positions(n).filter(keep).len() ==> (#[trigger] positions(n).filter(
                keep,
            )[i]) < (#[trigger] positions(n).filter(keep)[j]),
        forall|x: usize|
            #[trigger] positions(n).filter(keep).contains(x) <==> x < n && keep(x),
    decreases n,
{
    reveal(Seq::filter);
    if n > 0 {
        let m = (n - 1) as nat;
        let x = m as usize;
        lemma_selected(m, keep);
        let shorter = positions(m).filter(keep);
        let longer = positions(n).filter(keep);
        assert(positions(n).drop_last() =~= positions(m));
        assert(positions(n).last() == x);
        assert(longer == if keep(x) {
            shorter.push(x)
        } else {
            shorter
        });
        assert forall|y: usize| #[trigger] longer.contains(y) <==> y < n && keep(y) by {
            assert(shorter.contains(y) <==> y < m && keep(y));
            if keep(x) {
                assert(longer.last() == x);
                if shorter.contains(y) {
                    let k = shorter.index_of(y);
                    assert(longer[k] == y);
                }
                if longer.contains(y) && y != x {
                    let k = longer.index_of(y);
                    assert(shorter[k] == y);
                }
            }
        }
    } else {
        assert(positions(n) =~= Seq::<usize>::empty());
    }
}

/// A list of distinct positions below `n` has at most `n` entries, and all of them when it has
/// `n`.
pub proof fn lemma_distinct_below(list: Seq<usize>, n: nat)
    requires
        list.no_duplicates(),
        forall|i: int| 0 <= i < list.len() ==> (#[trigger] list[i]) < n,
    ensures
        list.len() <= n,
        list.len() == n ==> forall|x: usize| x < n ==> #[trigger] list.contains(x),
{
    let ints = list.map_values(|x: usize| x as int);
    assert(ints.no_duplicates());
    ints.unique_seq_to_set();
    lemma_int_range(0, n as int);
    assert(ints.to_set().subset_of(set_int_range(0, n as int))) by {
        assert forall|x: int| ints.to_set().contains(x) implies set_int_range(
            0,
            n as int,
        ).contains(x) by {
            let k = ints.index_of(x);
            assert(list[k] < n);
        }
    }
    lemma_len_subset(ints.to_set(), set_int_range(0, n as int));
    if list.len() == n {
        lemma_subset_equality(ints.to_set(), set_int_range(0, n as int));
        assert forall|x: usize| x < n implies #[trigger] list.contains(x) by {
            assert(set_int_range(0, n as int).contains(x as int));
            assert(ints.contains(x as int));
            let k = ints.index_of(x as int);
            assert(list[k] == x);
        }
    }
}

/// Each round holds distinct nodes of the graph that were not visited before.
pub proof fn lemma_visited_distinct(g: GraphView, r: int)
    requires
        g.nodes.len() <= usize::MAX + 1,
    ensures
        visited(g, r).no_duplicates(),
        forall|i: int| 0 <= i < visited(g, r).len() ==> (#[trigger] visited(g, r)[i]) < g.nodes.len(),
        visited(g, r).len() <= g.nodes.len(),
    decreases r,
{
    if r > 0 {
        let v = visited(g, r - 1);
        let next = ready(g, v);
        let w = visited(g, r);
        lemma_visited_distinct(g, r - 1);
        lemma_selected(g.nodes.len(), |i: usize| is_ready(g, v, i));
        assert forall|i: int| 0 <= i < w.len() implies (#[trigger] w[i]) < g.nodes.len() by {
            if i >= v.len() {
                assert(w[i] == next[i - v.len()]);
            }
        }
        assert forall|i: int, j: int| 0 <= i < j < w.len() implies w[i] != w[j] by {
            if j >= v.len() {
                assert(next.contains(next[j - v.len()]));
                if i < v.len() {
                    assert(v.contains(v[i]));
                }
            }
        }
    }
    lemma_distinct_below(visited(g, r), g.nodes.len());
}

/// Later rounds only append.
pub proof fn lemma_visited_prefix(g: GraphView, p: int, q: int)
    requires
        0 <= p <= q,
    ensures
        visited(g, p).is_prefix_of(visited(g, q)),
    decreases q - p,
{
    if p < q {
        lemma_visited_prefix(g, p, q - 1);
    }
}

/// When nothing becomes ready, further rounds change nothing.
proof fn lemma_visited_stable(g: GraphView, p: int, q: int)
    requires
        0 <= p <= q,
        ready(g, visited(g, p)).len() == 0,
    ensures
        visited(g, q) == visited(g, p),
    decreases q - p,
{
    if p < q {
        lemma_visited_stable(g, p, q - 1);
        assert(visited(g, q) =~= visited(g, p));
    }
}

/// Every round visits a node, unless nothing is left that could become ready.
proof fn lemma_rounds_advance(g: GraphView, r: int)
    requires
        0 <= r,
    ensures
        visited(g, r).len() >= r || ready(g, visited(g, r)).len() == 0,
    decreases r,
{
    if r > 0 {
        lemma_rounds_advance(g, r - 1);
        if ready(g, visited(g, r - 1)).len() == 0 {
            lemma_visited_stable(g, r - 1, r);
        }
    }
}

/// After as many rounds as there are nodes, nothing is left that could become ready.
pub proof fn lemma_order_is_complete(g: GraphView)
    requires
        g.nodes.len() <= usize::MAX + 1,
    ensures
        ready(g, visit_order(g)).len() == 0,
{
    let n = g.nodes.len();
    let v = visit_order(g);
    lemma_rounds_advance(g, n as int);
    lemma_visited_distinct(g, n as int);
    lemma_distinct_below(v, n);
    lemma_selected(n, |i: usize| is_ready(g, v, i));
    if ready(g, v).len() > 0 {
        let x = ready(g, v)[0];
        assert(ready(g, v).contains(x));
        assert(v.contains(x));
    }
}

/// What any number of rounds visits is the beginning of the order, and all of it when nothing
/// becomes ready any more.
pub proof fn lemma_rounds_begin_order(g: GraphView, r: int)
    requires
        g.nodes.len() <= usize::MAX + 1,
        0 <= r,
    ensures
        visited(g, r).is_prefix_of(visit_order(g)),
        ready(g, visited(g, r)).len() == 0 ==> visited(g, r) == visit_order(g),
{
    let n = g.nodes.len() as int;
    lemma_order_is_complete(g);
    if r <= n {
        lemma_visited_prefix(g, r, n);
        if ready(g, visited(g, r)).len() == 0 {
            lemma_visited_stable(g, r, n);
        }
    } else {
        lemma_visited_stable(g, n, r);
    }
}

/// Links that fit leave no node with less than no dependency.
proof fn lemma_fitting_links(g: GraphView, done: Seq<usize>, x: usize, k: int, d: usize)
    requires
        0 <= k <= dependents(g, x).len(),
        links_fit(g, done, x, k),
        remaining(g, done, d) >= 0,
    ensures
        remaining_within(g, done, x, k, d) >= 0,
    decreases k,
{
    let links = dependents(g, x);
    if k == 0 {
        assert(links.take(0) =~= Seq::<usize>::empty());
    } else {
        lemma_fitting_links(g, done, x, k - 1, d);
        assert(links.take(k).drop_last() =~= links.take(k - 1));
        if links[k - 1] == d {
            assert(dependents(g, x)[k - 1] == d);
            assert(remaining_within(g, done, x, k - 1 + 1, dependents(g, x)[k - 1]) >= 0);
        }
    }
}

/// Once all links of `x` are released, `x` counts as visited.
pub proof fn lemma_visit_done(g: GraphView, done: Seq<usize>, x: usize, d: usize)
    ensures
        remaining(g, done.push(x), d) == remaining_within(
            g,
            done,
            x,
            dependents(g, x).len() as int,
            d,
        ),
{
    let links = dependents(g, x);
    assert(links.take(links.len() as int) =~= links);
    assert(done.push(x).drop_last() =~= done);
}

/// As long as links fit, no node has less than no dependency left.
proof fn lemma_remaining_is_not_negative(g: GraphView, p: int, d: usize)
    requires
        g.nodes.len() <= usize::MAX + 1,
        consistent(g),
        0 <= p <= visit_order(g).len(),
    ensures
        remaining(g, visit_order(g).take(p), d) >= 0,
    decreases p,
{
    let v = visit_order(g);
    if p == 0 {
        assert(v.take(0) =~= Seq::<usize>::empty());
    } else {
        let done = v.take(p - 1);
        let x = v[p - 1];
        lemma_visited_distinct(g, g.nodes.len() as int);
        lemma_remaining_is_not_negative(g, p - 1, d);
        assert(step_fits(g, p - 1));
        lemma_fitting_links(g, done, x, dependents(g, x).len() as int, d);
        lemma_visit_done(g, done, x, d);
        assert(done.push(x) =~= v.take(p));
    }
}

/// Visiting more nodes leaves no more dependencies.
proof fn lemma_remaining_falls(g: GraphView, list: Seq<usize>, p: int, d: usize)
    requires
        0 <= p <= list.len(),
    ensures
        remaining(g, list, d) <= remaining(g, list.take(p), d),
    decreases list.len() - p,
{
    if p < list.len() {
        lemma_remaining_falls(g, list, p + 1, d);
        assert(list.take(p + 1).drop_last() =~= list.take(p));
    } else {
        assert(list.take(p) =~= list);
    }
}

/// A node that is visited within `r` rounds had no dependency left in one of them.
proof fn lemma_visited_was_ready(g: GraphView, r: int, d: usize) -> (q: int)
    requires
        g.nodes.len() <= usize::MAX + 1,
        0 <= r,
        visited(g, r).contains(d),
    ensures
        0 <= q < r,
        is_ready(g, visited(g, q), d),
    decreases r,
{
    let v = visited(g, r - 1);
    if r == 0 {
        assert(visited(g, 0).len() == 0);
        0
    } else if v.contains(d) {
        lemma_visited_was_ready(g, r - 1, d)
    } else {
        let next = ready(g, v);
        let k = visited(g, r).index_of(d);
        if k < v.len() {
            assert(v[k] == d);
        }
        assert(next[k - v.len()] == d);
        lemma_selected(g.nodes.len(), |i: usize| is_ready(g, v, i));
        assert(next.contains(d));
        r - 1
    }
}

/// The order of a consistent graph holds exactly the nodes without a remaining dependency.
pub proof fn lemma_visit_order_settled(g: GraphView)
    requires
        g.nodes.len() <= usize::MAX + 1,
        consistent(g),
    ensures
        settled(g, visit_order(g)),
{
    let n = g.nodes.len();
    let v = visit_order(g);
    lemma_order_is_complete(g);
    lemma_selected(n, |i: usize| is_ready(g, v, i));
    assert forall|d: usize| d < n implies (#[trigger] remaining(g, v, d)) >= 0 && (v.contains(d)
        <==> remaining(g, v, d) == 0) by {
        lemma_remaining_is_not_negative(g, v.len() as int, d);
        assert(v.take(v.len() as int) =~= v);
        if v.contains(d) {
            let q = lemma_visited_was_ready(g, n as int, d);
            let u = visited(g, q);
            lemma_visited_prefix(g, q, n as int);
            assert(v.take(u.len() as int) =~= u);
            lemma_remaining_falls(g, v, u.len() as int, d);
        } else if remaining(g, v, d) == 0 {
            assert(is_ready(g, v, d));
            assert(ready(g, v).contains(d));
        }
    }
}

/// A graph is consistent exactly when the links of all nodes that can be visited lead to nodes of
/// the graph, and no node is linked to by them more often than it has dependencies.
pub proof fn lemma_consistent_iff(g: GraphView)
    requires
        g.nodes.len() <= usize::MAX + 1,
    ensures
        consistent(g) <==> {
            &&& forall|p: int, j: int|
                0 <= p < visit_order(g).len() && 0 <= j < dependents(g, visit_order(g)[p]).len()
                    ==> #[trigger] dependents(g, visit_order(g)[p])[j] < g.nodes.len()
            &&& forall|d: usize|
                d < g.nodes.len() ==> #[trigger] released(g, visit_order(g), d)
                    <= g.nodes[d as int].deps.len()
        },
{
    let v = visit_order(g);
    lemma_visited_distinct(g, g.nodes.len() as int);
    if consistent(g) {
        assert forall|p: int, j: int|
            0 <= p < v.len() && 0 <= j < dependents(g, v[p]).len() implies #[trigger] dependents(
            g,
            v[p],
        )[j] < g.nodes.len() by {
            assert(step_fits(g, p));
        }
        assert forall|d: usize| d < g.nodes.len() implies #[trigger] released(g, v, d)
            <= g.nodes[d as int].deps.len() by {
            lemma_remaining_is_not_negative(g, v.len() as int, d);
            assert(v.take(v.len() as int) =~= v);
        }
    }
    if (forall|p: int, j: int|
        0 <= p < v.len() && 0 <= j < dependents(g, v[p]).len() ==> #[trigger] dependents(g, v[p])[j]
            < g.nodes.len()) && (forall|d: usize|
        d < g.nodes.len() ==> #[trigger] released(g, v, d) <= g.nodes[d as int].deps.len()) {
        assert forall|p: int| 0 <= p < g.nodes.len() implies #[trigger] step_fits(g, p) by {
            if p < v.len() {
                let done = v.take(p);
                let x = v[p];
                assert forall|j: int| 0 <= j < dependents(g, x).len() implies (
                #[trigger] dependents(g, x)[j]) < g.nodes.len() && remaining_within(
                    g,
                    done,
                    x,
                    j + 1,
                    dependents(g, x)[j],
                ) >= 0 by {
                    let e = dependents(g, x)[j];
                    assert(dependents(g, v[p])[j] < g.nodes.len());
                    assert(released(g, v, e) <= g.nodes[e as int].deps.len());
                    lemma_remaining_falls(g, v, p + 1, e);
                    lemma_visit_done(g, done, x, e);
                    assert(done.push(x) =~= v.take(p + 1));
                    lemma_links_fall(g, done, x, j + 1, e);
                }
            }
        }
    }
}

/// Releasing more links of a node leaves no more dependencies.
proof fn lemma_links_fall(g: GraphView, done: Seq<usize>, x: usize, k: int, d: usize)
    requires
        0 <= k <= dependents(g, x).len(),
    ensures
        remaining_within(g, done, x, dependents(g, x).len() as int, d) <= remaining_within(
            g,
            done,
            x,
            k,
            d,
        ),
    decreases dependents(g, x).len() - k,
{
    let links = dependents(g, x);
    if k < links.len() {
        lemma_links_fall(g, done, x, k + 1, d);
        assert(links.take(k + 1).drop_last() =~= links.take(k));
    }
}

} // verus!
