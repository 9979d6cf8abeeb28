//! What holds of dependency graphs and of the order of their nodes.

use vstd::prelude::*;
use vstd::seq_lib::*;

use crate::graph;
use crate::lists;
use crate::order;
use crate::types::{GraphView, ServiceView};

verus! {

/// Node `d` lists node `x` among its dependencies.
pub open spec fn depends_on(g: GraphView, d: usize, x: usize) -> bool {
    d < g.nodes.len() && g.nodes[d as int].deps.contains(x)
}

/// Links lead to nodes of the graph, each link is recorded at both of its ends, and the lookup
/// table maps exactly the names of the nodes, each to its position.
pub open spec fn well_formed(g: GraphView) -> bool {
    &&& g.nodes.len() <= usize::MAX
    &&& forall|d: int, k: int|
        0 <= d < g.nodes.len() && 0 <= k < g.nodes[d].deps.len() ==> #[trigger] g.nodes[d].deps[k]
            < g.nodes.len()
    &&& forall|x: int, k: int|
        0 <= x < g.nodes.len() && 0 <= k < g.nodes[x].dependents.len()
            ==> #[trigger] g.nodes[x].dependents[k] < g.nodes.len()
    &&& forall|d: usize, x: usize|
        d < g.nodes.len() && x < g.nodes.len() ==> #[trigger] graph::occurrences(
            g.nodes[x as int].dependents,
            d,
        ) == #[trigger] graph::occurrences(g.nodes[d as int].deps, x)
    &&& forall|i: int|
        0 <= i < g.nodes.len() ==> g.lookup.contains_key(#[trigger] g.nodes[i].service.name)
            && g.lookup[g.nodes[i].service.name] == i
    &&& forall|name: Seq<char>| #[trigger]
        g.lookup.contains_key(name) ==> g.lookup[name] < g.nodes.len()
            && g.nodes[g.lookup[name] as int].service.name == name
}

/// `list` holds every node exactly once.
pub open spec fn is_permutation(g: GraphView, list: Seq<usize>) -> bool {
    &&& list.len() == g.nodes.len()
    &&& list.no_duplicates()
    &&& forall|x: usize| #[trigger] list.contains(x) <==> x < g.nodes.len()
}

/// Every dependency of an entry comes before it.
pub open spec fn dependencies_first(g: GraphView, list: Seq<usize>) -> bool {
    forall|i: int, x: usize|
        0 <= i < list.len() && #[trigger] depends_on(g, list[i], x) ==> list.take(i).contains(x)
}

/// A walk along dependency links.
pub open spec fn is_walk(g: GraphView, walk: Seq<usize>) -> bool {
    &&& walk.len() > 0
    &&& forall|i: int|
        #![trigger walk[i]]
        0 <= i < walk.len() - 1 ==> depends_on(g, walk[i], walk[i + 1])
}

/// Following dependencies from `u` can come back to a node it has passed.
pub open spec fn leads_to_cycle(g: GraphView, u: usize) -> bool {
    exists|walk: Seq<usize>|
        #![trigger is_walk(g, walk)]
        is_walk(g, walk) && walk[0] == u && !walk.no_duplicates()
}

/// Some node depends on itself, directly or through others.
pub open spec fn has_cycle(g: GraphView) -> bool {
    exists|walk: Seq<usize>|
        #![trigger is_walk(g, walk)]
        is_walk(g, walk) && walk.len() > 1 && walk[0] == walk.last()
}

proof fn lemma_occurs(s: Seq<usize>, x: usize)
    ensures
        s.contains(x) <==> graph::occurrences(s, x) > 0,
    decreases s.len(),
{
    if s.len() > 0 {
        lemma_occurs(s.drop_last(), x);
        if s.drop_last().contains(x) {
            assert(s[s.drop_last().index_of(x)] == x);
        }
        if s.contains(x) && s.last() != x {
            assert(s.drop_last()[s.index_of(x)] == x);
        }
    }
}

proof fn lemma_occurrences_add(a: Seq<usize>, b: Seq<usize>, x: usize)
    ensures
        graph::occurrences(a + b, x) == graph::occurrences(a, x) + graph::occurrences(b, x),
    decreases b.len(),
{
    if b.len() == 0 {
        assert(a + b =~= a);
    } else {
        lemma_occurrences_add(a, b.drop_last(), x);
        assert((a + b).drop_last() =~= a + b.drop_last());
    }
}

proof fn lemma_occurrences_take(s: Seq<usize>, k: int, x: usize)
    requires
        0 <= k <= s.len(),
    ensures
        graph::occurrences(s.take(k), x) <= graph::occurrences(s, x),
{
    lemma_occurrences_add(s.take(k), s.skip(k), x);
    assert(s.take(k) + s.skip(k) =~= s);
}

proof fn lemma_occurrences_repeat(count: nat, value: usize, x: usize)
    ensures
        graph::occurrences(Seq::new(count, |_r: int| value), x) == if x == value {
            count
        } else {
            0
        },
    decreases count,
{
    let s = Seq::new(count, |_r: int| value);
    if count > 0 {
        lemma_occurrences_repeat((count - 1) as nat, value, x);
        assert(s.drop_last() =~= Seq::new((count - 1) as nat, |_r: int| value));
    }
}

/// The entries of `s` that are not in `list`.
spec fn outside(s: Seq<usize>, list: Seq<usize>) -> nat
    decreases s.len(),
{
    if s.len() == 0 {
        0
    } else {
        outside(s.drop_last(), list) + if list.contains(s.last()) {
            0nat
        } else {
            1nat
        }
    }
}

proof fn lemma_outside_zero(s: Seq<usize>, list: Seq<usize>)
    ensures
        outside(s, list) == 0 <==> forall|x: usize| #[trigger]
            s.contains(x) ==> list.contains(x),
    decreases s.len(),
{
    if s.len() > 0 {
        lemma_outside_zero(s.drop_last(), list);
        if outside(s, list) == 0 {
            assert forall|x: usize| #[trigger] s.contains(x) implies list.contains(x) by {
                if x != s.last() {
                    assert(s.drop_last()[s.index_of(x)] == x);
                    assert(s.drop_last().contains(x));
                }
            }
        }
        if forall|x: usize| #[trigger] s.contains(x) ==> list.contains(x) {
            assert(s.contains(s.last()));
            assert forall|x: usize| #[trigger] s.drop_last().contains(x) implies list.contains(
                x,
            ) by {
                assert(s[s.drop_last().index_of(x)] == x);
                assert(s.contains(x));
            }
        }
    }
}

proof fn lemma_outside_push(s: Seq<usize>, list: Seq<usize>, y: usize)
    requires
        !list.contains(y),
    ensures
        outside(s, list) == outside(s, list.push(y)) + graph::occurrences(s, y),
    decreases s.len(),
{
    if s.len() > 0 {
        lemma_outside_push(s.drop_last(), list, y);
        let z = s.last();
        assert(list.push(y).contains(z) <==> (list.contains(z) || z == y)) by {
            if list.contains(z) {
                assert(list.push(y)[list.index_of(z)] == z);
            }
            if list.push(y).contains(z) && z != y {
                assert(list[list.push(y).index_of(z)] == z);
            }
            assert(list.push(y)[list.len() as int] == y);
        }
    }
}

/// In a well-formed graph the dependencies that are left are those outside the visited nodes.
proof fn lemma_remaining_is_outside(g: GraphView, done: Seq<usize>, d: usize)
    requires
        well_formed(g),
        d < g.nodes.len(),
        done.no_duplicates(),
        forall|i: int| 0 <= i < done.len() ==> (#[trigger] done[i]) < g.nodes.len(),
    ensures
        order::remaining(g, done, d) == outside(g.nodes[d as int].deps, done),
    decreases done.len(),
{
    let deps = g.nodes[d as int].deps;
    if done.len() == 0 {
        lemma_outside_empty(deps, done);
    } else {
        let shorter = done.drop_last();
        let y = done.last();
        assert forall|i: int| 0 <= i < shorter.len() implies (#[trigger] shorter[i])
            < g.nodes.len() by {
            assert(done[i] < g.nodes.len());
        }
        lemma_remaining_is_outside(g, shorter, d);
        assert(!shorter.contains(y));
        lemma_outside_push(deps, shorter, y);
        assert(shorter.push(y) =~= done);
        assert(y < g.nodes.len());
        assert(graph::occurrences(g.nodes[y as int].dependents, d) == graph::occurrences(deps, y));
    }
}

proof fn lemma_outside_empty(s: Seq<usize>, list: Seq<usize>)
    requires
        list.len() == 0,
    ensures
        outside(s, list) == s.len(),
    decreases s.len(),
{
    if s.len() > 0 {
        lemma_outside_empty(s.drop_last(), list);
    }
}

/// In a well-formed graph no link contradicts another.
pub proof fn lemma_well_formed_is_consistent(g: GraphView)
    requires
        well_formed(g),
    ensures
        order::consistent(g),
{
    let v = order::visit_order(g);
    order::lemma_visited_distinct(g, g.nodes.len() as int);
    assert forall|p: int| 0 <= p < g.nodes.len() implies #[trigger] order::step_fits(g, p) by {
        if p < v.len() {
            let x = v[p];
            let done = v.take(p);
            let links = order::dependents(g, x);
            assert(x < g.nodes.len());
            assert(!done.contains(x)) by {
                if done.contains(x) {
                    assert(v[done.index_of(x)] == v[p]);
                }
            }
            assert forall|i: int| 0 <= i < done.len() implies (#[trigger] done[i])
                < g.nodes.len() by {
                assert(v[i] < g.nodes.len());
            }
            assert forall|j: int| 0 <= j < links.len() implies (#[trigger] order::dependents(
                g,
                x,
            )[j]) < g.nodes.len() && order::remaining_within(
                g,
                done,
                x,
                j + 1,
                order::dependents(g, x)[j],
            ) >= 0 by {
                let e = links[j];
                assert(g.nodes[x as int].dependents[j] < g.nodes.len());
                lemma_remaining_is_outside(g, done, e);
                lemma_outside_push(g.nodes[e as int].deps, done, x);
                lemma_occurrences_take(links, j + 1, e);
                assert(graph::occurrences(g.nodes[x as int].dependents, e) == graph::occurrences(
                    g.nodes[e as int].deps,
                    x,
                ));
            }
        }
    }
}

/// A node becomes ready after a round exactly when it has not been visited and all that it depends
/// on has.
pub proof fn lemma_ready_iff_dependencies_visited(g: GraphView, r: int, x: usize)
    requires
        well_formed(g),
    ensures
        order::ready(g, order::visited(g, r)).contains(x) <==> x < g.nodes.len()
            && !order::visited(g, r).contains(x) && forall|d: usize| #[trigger]
            depends_on(g, x, d) ==> order::visited(g, r).contains(d),
{
    let v = order::visited(g, r);
    order::lemma_visited_distinct(g, r);
    order::lemma_selected(g.nodes.len(), |i: usize| order::is_ready(g, v, i));
    if x < g.nodes.len() {
        let deps = g.nodes[x as int].deps;
        lemma_remaining_is_outside(g, v, x);
        lemma_outside_zero(deps, v);
        if order::remaining(g, v, x) == 0 {
            assert forall|d: usize| #[trigger] depends_on(g, x, d) implies v.contains(d) by {
                assert(deps.contains(d));
            }
        }
        if forall|d: usize| #[trigger] depends_on(g, x, d) ==> v.contains(d) {
            assert forall|d: usize| #[trigger] deps.contains(d) implies v.contains(d) by {
                assert(depends_on(g, x, d));
            }
        }
    }
}

/// After every round each visited node comes after all its dependencies.
proof fn lemma_visited_dependencies_first(g: GraphView, r: int)
    requires
        well_formed(g),
    ensures
        dependencies_first(g, order::visited(g, r)),
    decreases r,
{
    let w = order::visited(g, r);
    if r > 0 {
        lemma_visited_dependencies_first(g, r - 1);
        let v = order::visited(g, r - 1);
        let next = order::ready(g, v);
        assert forall|i: int, x: usize|
            0 <= i < w.len() && #[trigger] depends_on(g, w[i], x) implies w.take(i).contains(x) by {
            if i < v.len() {
                assert(v[i] == w[i]);
                assert(v.take(i).contains(x));
                assert(v.take(i) =~= w.take(i));
            } else {
                assert(w[i] == next[i - v.len()]);
                assert(next.contains(w[i]));
                lemma_ready_iff_dependencies_visited(g, r - 1, w[i]);
                assert(v.contains(x));
                assert(w.take(i)[v.index_of(x)] == x);
            }
        }
    }
}

/// Every service sits after all the services it depends on, and none appears twice.
pub proof fn lemma_visit_order_is_topological(g: GraphView)
    requires
        well_formed(g),
    ensures
        dependencies_first(g, order::visit_order(g)),
        order::visit_order(g).no_duplicates(),
        forall|i: int|
            0 <= i < order::visit_order(g).len() ==> (#[trigger] order::visit_order(g)[i])
                < g.nodes.len(),
{
    let n = g.nodes.len() as int;
    lemma_visited_dependencies_first(g, n);
    order::lemma_visited_distinct(g, n);
}

/// An order with as many entries as there are nodes is a permutation of the nodes.
pub proof fn lemma_full_order_is_permutation(g: GraphView)
    requires
        well_formed(g),
        order::visit_order(g).len() == g.nodes.len(),
    ensures
        is_permutation(g, order::visit_order(g)),
{
    lemma_visit_order_is_topological(g);
    let v = order::visit_order(g);
    order::lemma_distinct_below(v, g.nodes.len());
    assert forall|x: usize| #[trigger] v.contains(x) <==> x < g.nodes.len() by {
        if v.contains(x) {
            assert(v[v.index_of(x)] < g.nodes.len());
        }
    }
}

/// Services without dependencies come first, in configuration order; every later entry has a
/// dependency.
pub proof fn lemma_roots_come_first(g: GraphView)
    requires
        well_formed(g),
    ensures
        order::roots(g).is_prefix_of(order::visit_order(g)),
        forall|i: int|
            order::roots(g).len() <= i < order::visit_order(g).len() ==> g.nodes[(
            #[trigger] order::visit_order(g)[i]) as int].deps.len() > 0,
{
    let v = order::visit_order(g);
    let first = order::visited(g, 1);
    order::lemma_rounds_begin_order(g, 1);
    lemma_visit_order_is_topological(g);
    order::lemma_selected(g.nodes.len(), |i: usize| g.nodes[i as int].deps.len() == 0);
    assert(first =~= order::roots(g)) by {
        let none = order::visited(g, 0);
        assert(none =~= Seq::<usize>::empty());
        let is_root = |i: usize| g.nodes[i as int].deps.len() == 0;
        let is_ready = |i: usize| order::is_ready(g, none, i);
        assert(is_root =~= is_ready);
        assert(first =~= none + order::ready(g, none));
    }
    assert forall|i: int| order::roots(g).len() <= i < v.len() implies g.nodes[(
    #[trigger] v[i]) as int].deps.len() > 0 by {
        if g.nodes[v[i] as int].deps.len() == 0 {
            assert(order::roots(g).contains(v[i]));
            let k = order::roots(g).index_of(v[i]);
            assert(v[k] == order::roots(g)[k]);
            assert(v[k] == v[i]);
        }
    }
}

/// Along a walk that starts at an ordered node, positions in the order strictly fall.
proof fn lemma_walk_descends(g: GraphView, walk: Seq<usize>, i: int, j: int)
    requires
        well_formed(g),
        is_walk(g, walk),
        order::visit_order(g).contains(walk[0]),
        0 <= i <= j < walk.len(),
    ensures
        order::visit_order(g).contains(walk[i]),
        order::visit_order(g).contains(walk[j]),
        order::visit_order(g).index_of(walk[j]) <= order::visit_order(g).index_of(walk[i]) - (j
            - i),
    decreases j,
{
    let v = order::visit_order(g);
    lemma_visit_order_is_topological(g);
    if j > 0 {
        if i == j {
            lemma_walk_descends(g, walk, j - 1, j - 1);
        } else {
            lemma_walk_descends(g, walk, i, j - 1);
        }
        let a = walk[j - 1];
        let b = walk[j];
        assert(depends_on(g, walk[j - 1], walk[j - 1 + 1]));
        let at = v.index_of(a);
        assert(v[at] == a);
        assert(depends_on(g, v[at], b));
        assert(v.take(at).contains(b));
        let k = v.take(at).index_of(b);
        assert(v[k] == b);
        assert(v.contains(b));
        let kb = v.index_of(b);
        assert(v[kb] == b);
        assert(kb == k);
    }
}

/// A dependency of `u` that is never visited.
spec fn unvisited_dependency(g: GraphView, u: usize) -> usize {
    choose|x: usize| depends_on(g, u, x) && !order::visit_order(g).contains(x)
}

proof fn lemma_unvisited_dependency(g: GraphView, u: usize)
    requires
        well_formed(g),
        u < g.nodes.len(),
        !order::visit_order(g).contains(u),
    ensures
        depends_on(g, u, unvisited_dependency(g, u)),
        unvisited_dependency(g, u) < g.nodes.len(),
        !order::visit_order(g).contains(unvisited_dependency(g, u)),
{
    let v = order::visit_order(g);
    lemma_visit_order_is_topological(g);
    lemma_well_formed_is_consistent(g);
    order::lemma_visit_order_settled(g);
    assert(order::remaining(g, v, u) != 0);
    lemma_remaining_is_outside(g, v, u);
    let deps = g.nodes[u as int].deps;
    lemma_outside_zero(deps, v);
    let x = choose|x: usize| #[trigger] deps.contains(x) && !v.contains(x);
    assert(depends_on(g, u, x) && !v.contains(x));
    let y = unvisited_dependency(g, u);
    let k = g.nodes[u as int].deps.index_of(y);
    assert(g.nodes[u as int].deps[k] == y);
}

/// From `u` along dependencies that are never visited, `k` links far.
spec fn unvisited_walk(g: GraphView, u: usize, k: nat) -> Seq<usize>
    decreases k,
{
    if k == 0 {
        seq![u]
    } else {
        let w = unvisited_walk(g, u, (k - 1) as nat);
        w.push(unvisited_dependency(g, w.last()))
    }
}

proof fn lemma_unvisited_walk(g: GraphView, u: usize, k: nat)
    requires
        well_formed(g),
        u < g.nodes.len(),
        !order::visit_order(g).contains(u),
    ensures
        is_walk(g, unvisited_walk(g, u, k)),
        unvisited_walk(g, u, k).len() == k + 1,
        unvisited_walk(g, u, k)[0] == u,
        forall|i: int|
            0 <= i <= k ==> (#[trigger] unvisited_walk(g, u, k)[i]) < g.nodes.len()
                && !order::visit_order(g).contains(unvisited_walk(g, u, k)[i]),
    decreases k,
{
    if k > 0 {
        lemma_unvisited_walk(g, u, (k - 1) as nat);
        let w = unvisited_walk(g, u, (k - 1) as nat);
        assert(w[k - 1] < g.nodes.len());
        lemma_unvisited_dependency(g, w.last());
        let longer = unvisited_walk(g, u, k);
        assert forall|i: int|
            #![trigger longer[i]]
            0 <= i < longer.len() - 1 implies depends_on(g, longer[i], longer[i + 1]) by {
            if i < w.len() - 1 {
                assert(w[i] == longer[i] && w[i + 1] == longer[i + 1]);
            }
        }
        assert forall|i: int| 0 <= i <= k implies (#[trigger] longer[i]) < g.nodes.len()
            && !order::visit_order(g).contains(longer[i]) by {
            if i < k {
                assert(longer[i] == w[i]);
            }
        }
    }
}

/// A node is ordered exactly when following its dependencies never comes back to a node it has
/// passed.
pub proof fn lemma_ordered_iff_acyclic(g: GraphView, u: usize)
    requires
        well_formed(g),
        u < g.nodes.len(),
    ensures
        order::visit_order(g).contains(u) <==> !leads_to_cycle(g, u),
{
    let v = order::visit_order(g);
    if v.contains(u) && leads_to_cycle(g, u) {
        let walk = choose|walk: Seq<usize>|
            #![trigger is_walk(g, walk)]
            is_walk(g, walk) && walk[0] == u && !walk.no_duplicates();
        let (i, j) = choose|i: int, j: int|
            0 <= i < walk.len() && 0 <= j < walk.len() && i != j && walk[i] == walk[j];
        if i < j {
            lemma_walk_descends(g, walk, i, j);
        } else {
            lemma_walk_descends(g, walk, j, i);
        }
        assert(false);
    }
    if !v.contains(u) {
        let walk = unvisited_walk(g, u, g.nodes.len());
        lemma_unvisited_walk(g, u, g.nodes.len());
        if walk.no_duplicates() {
            order::lemma_distinct_below(walk, g.nodes.len());
        }
        assert(is_walk(g, walk));
    }
}

/// The services that are named when no order exists are exactly those that lead into a cycle.
pub proof fn lemma_blocked_iff_leads_to_cycle(g: GraphView, u: usize)
    requires
        well_formed(g),
    ensures
        order::blocked(g).contains(u) <==> u < g.nodes.len() && leads_to_cycle(g, u),
{
    let v = order::visit_order(g);
    order::lemma_selected(g.nodes.len(), |i: usize| order::remaining(g, v, i) > 0);
    if u < g.nodes.len() {
        lemma_ordered_iff_acyclic(g, u);
        lemma_well_formed_is_consistent(g);
        order::lemma_visit_order_settled(g);
        assert(order::remaining(g, v, u) >= 0);
    }
}

/// A node leads into a cycle exactly when the graph has one: there is a cycle if and only if some
/// node leads into one.
proof fn lemma_cycle_iff_some_node_leads_to_one(g: GraphView)
    requires
        well_formed(g),
    ensures
        has_cycle(g) <==> exists|u: usize|
            u < g.nodes.len() && #[trigger] leads_to_cycle(g, u),
{
    if has_cycle(g) {
        let walk = choose|walk: Seq<usize>|
            #![trigger is_walk(g, walk)]
            is_walk(g, walk) && walk.len() > 1 && walk[0] == walk.last();
        assert(depends_on(g, walk[0], walk[0int + 1]));
        assert(walk[0] == walk[walk.len() - 1]);
        assert(leads_to_cycle(g, walk[0]));
    }
    if exists|u: usize| u < g.nodes.len() && #[trigger] leads_to_cycle(g, u) {
        let u = choose|u: usize| u < g.nodes.len() && #[trigger] leads_to_cycle(g, u);
        let walk = choose|walk: Seq<usize>|
            #![trigger is_walk(g, walk)]
            is_walk(g, walk) && walk[0] == u && !walk.no_duplicates();
        let (a, b) = choose|i: int, j: int|
            0 <= i < walk.len() && 0 <= j < walk.len() && i != j && walk[i] == walk[j];
        let (i, j) = if a < b {
            (a, b)
        } else {
            (b, a)
        };
        let cycle = walk.subrange(i, j + 1);
        assert forall|k: int|
            #![trigger cycle[k]]
            0 <= k < cycle.len() - 1 implies depends_on(g, cycle[k], cycle[k + 1]) by {
            assert(depends_on(g, walk[i + k], walk[i + k + 1]));
        }
        assert(is_walk(g, cycle));
    }
}

/// An order of all nodes exists exactly when the graph has no dependency cycle.
pub proof fn lemma_order_exists_iff_acyclic(g: GraphView)
    requires
        well_formed(g),
    ensures
        order::visit_order(g).len() == g.nodes.len() <==> !has_cycle(g),
{
    let v = order::visit_order(g);
    lemma_visit_order_is_topological(g);
    order::lemma_distinct_below(v, g.nodes.len());
    lemma_cycle_iff_some_node_leads_to_one(g);
    if v.len() == g.nodes.len() && has_cycle(g) {
        let u = choose|u: usize| u < g.nodes.len() && #[trigger] leads_to_cycle(g, u);
        lemma_ordered_iff_acyclic(g, u);
    }
    if v.len() != g.nodes.len() {
        if forall|x: usize| x < g.nodes.len() ==> #[trigger] v.contains(x) {
            let all = order::positions(g.nodes.len());
            assert(all.no_duplicates());
            lemma_covering_list_is_long(all, v);
        }
        let x = choose|x: usize| x < g.nodes.len() && !#[trigger] v.contains(x);
        lemma_ordered_iff_acyclic(g, x);
    }
}

proof fn lemma_covering_list_is_long(all: Seq<usize>, v: Seq<usize>)
    requires
        all.no_duplicates(),
        forall|i: int| 0 <= i < all.len() ==> v.contains(#[trigger] all[i]),
    ensures
        all.len() <= v.len(),
{
    all.unique_seq_to_set();
    v.lemma_cardinality_of_set();
    assert(all.to_set().subset_of(v.to_set()));
    vstd::set_lib::lemma_len_subset(all.to_set(), v.to_set());
}

proof fn lemma_dependents_within(deps: Seq<Seq<usize>>, k: int, d: usize, x: usize)
    requires
        0 <= k <= deps.len(),
        deps.len() <= usize::MAX,
    ensures
        graph::occurrences(graph::dependents_within(deps, k, d), x) == if x < k {
            graph::occurrences(deps[x as int], d)
        } else {
            0
        },
        forall|i: int|
            0 <= i < graph::dependents_within(deps, k, d).len() ==> (
            #[trigger] graph::dependents_within(deps, k, d)[i]) < k,
    decreases k,
{
    if k > 0 {
        lemma_dependents_within(deps, k - 1, d, x);
        let a = graph::dependents_within(deps, k - 1, d);
        let b = Seq::new(graph::occurrences(deps[k - 1], d), |_r: int| (k - 1) as usize);
        lemma_occurrences_add(a, b, x);
        lemma_occurrences_repeat(graph::occurrences(deps[k - 1], d), (k - 1) as usize, x);
    }
}

/// The graph of a configuration with distinct names and known dependencies is well formed.
pub proof fn lemma_graph_of_is_well_formed(services: Seq<ServiceView>)
    requires
        services.len() <= usize::MAX,
        graph::distinct_names(services),
        graph::all_dependencies_known(services),
    ensures
        well_formed(graph::graph_of(services)),
{
    let g = graph::graph_of(services);
    let deps = graph::all_positions(services);
    let n = services.len() as int;
    assert forall|d: int, k: int|
        0 <= d < g.nodes.len() && 0 <= k < g.nodes[d].deps.len() implies #[trigger] g.nodes[d].deps[k]
        < g.nodes.len() by {
        assert(graph::dependencies_known(services, d));
        let name = services[d].dependency_names()[k];
        assert(graph::is_known(services, name));
        let p = graph::position_of(services, name);
        assert(0 <= p < services.len());
    }
    assert forall|x: int, k: int|
        0 <= x < g.nodes.len() && 0 <= k < g.nodes[x].dependents.len() implies #[trigger] g.nodes[x].dependents[k]
        < g.nodes.len() by {
        lemma_dependents_within(deps, n, x as usize, 0);
    }
    assert forall|d: usize, x: usize|
        d < g.nodes.len() && x < g.nodes.len() implies #[trigger] graph::occurrences(
        g.nodes[x as int].dependents,
        d,
    ) == #[trigger] graph::occurrences(g.nodes[d as int].deps, x) by {
        lemma_dependents_within(deps, n, x, d);
    }
    assert forall|i: int| 0 <= i < g.nodes.len() implies g.lookup.contains_key(
        #[trigger] g.nodes[i].service.name,
    ) && g.lookup[g.nodes[i].service.name] == i by {
        assert(services[i].name == g.nodes[i].service.name);
        graph::lemma_position_of(services, i);
    }
    assert forall|name: Seq<char>| #[trigger] g.lookup.contains_key(name) implies g.lookup[name]
        < g.nodes.len() && g.nodes[g.lookup[name] as int].service.name == name by {
        let p = graph::position_of(services, name);
        assert(0 <= p < services.len() && services[p].name == name);
    }
}

/// Every node is either a prerequisite or a leaf service, and none is both.
pub proof fn lemma_partition_is_exact(g: GraphView, x: usize)
    requires
        g.nodes.len() <= usize::MAX,
    ensures
        graph::prerequisites(g).contains(x) || graph::leaves(g).contains(x) <==> x
            < g.nodes.len(),
        !(graph::prerequisites(g).contains(x) && graph::leaves(g).contains(x)),
        graph::prerequisites(g).no_duplicates(),
        graph::leaves(g).no_duplicates(),
{
    order::lemma_selected(
        g.nodes.len(),
        |i: usize| g.nodes[i as int].dependents.len() != 0,
    );
    order::lemma_selected(
        g.nodes.len(),
        |i: usize| g.nodes[i as int].dependents.len() == 0,
    );
}

/// Leaves and prerequisites are told apart by whether a node has dependents, and both are listed in
/// configuration order.
pub proof fn lemma_partition_by_dependents(g: GraphView, x: usize)
    requires
        x < g.nodes.len() <= usize::MAX,
    ensures
        graph::leaves(g).contains(x) <==> g.nodes[x as int].dependents.len() == 0,
        graph::prerequisites(g).contains(x) <==> g.nodes[x as int].dependents.len() > 0,
        forall|i: int, j: int|
            0 <= i < j < graph::leaves(g).len() ==> (#[trigger] graph::leaves(g)[i]) < (
            #[trigger] graph::leaves(g)[j]),
        forall|i: int, j: int|
            0 <= i < j < graph::prerequisites(g).len() ==> (#[trigger] graph::prerequisites(g)[i])
                < (#[trigger] graph::prerequisites(g)[j]),
{
    order::lemma_selected(
        g.nodes.len(),
        |i: usize| g.nodes[i as int].dependents.len() != 0,
    );
    order::lemma_selected(
        g.nodes.len(),
        |i: usize| g.nodes[i as int].dependents.len() == 0,
    );
}

/// A node is a prerequisite exactly when some node depends on it; no node depends on a leaf.
pub proof fn lemma_prerequisites_are_depended_on(g: GraphView, x: usize)
    requires
        well_formed(g),
        x < g.nodes.len(),
    ensures
        graph::prerequisites(g).contains(x) <==> exists|d: usize| #[trigger] depends_on(g, d, x),
        graph::leaves(g).contains(x) <==> forall|d: usize| !#[trigger] depends_on(g, d, x),
{
    lemma_partition_is_exact(g, x);
    order::lemma_selected(
        g.nodes.len(),
        |i: usize| g.nodes[i as int].dependents.len() != 0,
    );
    let links = g.nodes[x as int].dependents;
    if links.len() > 0 {
        let d = links[0];
        assert(g.nodes[x as int].dependents[0] < g.nodes.len());
        assert(links.contains(d));
        lemma_occurs(links, d);
        lemma_occurs(g.nodes[d as int].deps, x);
        assert(graph::occurrences(g.nodes[x as int].dependents, d) == graph::occurrences(
            g.nodes[d as int].deps,
            x,
        ));
        assert(depends_on(g, d, x));
    }
    if exists|d: usize| #[trigger] depends_on(g, d, x) {
        let d = choose|d: usize| #[trigger] depends_on(g, d, x);
        lemma_occurs(links, d);
        lemma_occurs(g.nodes[d as int].deps, x);
        assert(graph::occurrences(g.nodes[x as int].dependents, d) == graph::occurrences(
            g.nodes[d as int].deps,
            x,
        ));
    }
}

/// A selection that leaves out no dependency of a selected node keeps dependencies first.
pub proof fn lemma_selection_keeps_dependencies_first(
    g: GraphView,
    list: Seq<usize>,
    keep: spec_fn(usize) -> bool,
)
    requires
        dependencies_first(g, list),
        forall|d: usize, x: usize| keep(d) && #[trigger] depends_on(g, d, x) ==> keep(x),
    ensures
        dependencies_first(g, list.filter(keep)),
    decreases list.len(),
{
    reveal(Seq::filter);
    let kept = list.filter(keep);
    if list.len() > 0 {
        let shorter = list.drop_last();
        let last = list.last();
        let before = shorter.filter(keep);
        assert forall|i: int, x: usize|
            0 <= i < shorter.len() && #[trigger] depends_on(g, shorter[i], x) implies shorter.take(
            i,
        ).contains(x) by {
            assert(depends_on(g, list[i], x));
            assert(shorter.take(i) =~= list.take(i));
        }
        lemma_selection_keeps_dependencies_first(g, shorter, keep);
        lists::lemma_filter_keeps(shorter, keep);
        assert forall|i: int, x: usize|
            0 <= i < kept.len() && #[trigger] depends_on(g, kept[i], x) implies kept.take(
            i,
        ).contains(x) by {
            if i < before.len() {
                assert(depends_on(g, before[i], x));
                assert(kept.take(i) =~= before.take(i));
            } else {
                assert(kept.take(i) =~= before);
                assert(kept[i] == last && keep(last));
                assert(depends_on(g, list[list.len() - 1], x));
                assert(list.take(list.len() - 1) =~= shorter);
            }
        }
    }
}

/// Configuration position breaks ties: of two services that become ready in the same round, the
/// one with the smaller position comes first. Services of earlier rounds come before those of
/// later rounds.
pub proof fn lemma_ties_follow_configuration(g: GraphView, r: int, s: int, x: usize, y: usize)
    requires
        g.nodes.len() <= usize::MAX,
        0 <= r,
        0 <= s,
        order::ready(g, order::visited(g, r)).contains(x),
        order::ready(g, order::visited(g, s)).contains(y),
        r < s || r == s && x < y,
    ensures
        order::visit_order(g).contains(x),
        order::visit_order(g).contains(y),
        order::visit_order(g).index_of(x) < order::visit_order(g).index_of(y),
{
    let v = order::visit_order(g);
    let i = lemma_place_in_round(g, r, x);
    let j = lemma_place_in_round(g, s, y);
    order::lemma_visited_distinct(g, g.nodes.len() as int);
    if r < s {
        order::lemma_visited_prefix(g, r + 1, s);
    } else {
        let before = order::visited(g, r).len();
        let round = order::ready(g, order::visited(g, r));
        order::lemma_selected(
            g.nodes.len(),
            |i: usize| order::is_ready(g, order::visited(g, r), i),
        );
        if j < i {
            assert(round[j - before] < round[i - before]);
        }
    }
    assert(v[i] == x && v[j] == y);
    assert(v[v.index_of(x)] == v[i] && v[v.index_of(y)] == v[j]);
}

/// The place in the order of a node that becomes ready after `r` rounds.
proof fn lemma_place_in_round(g: GraphView, r: int, x: usize) -> (i: int)
    requires
        g.nodes.len() <= usize::MAX,
        0 <= r,
        order::ready(g, order::visited(g, r)).contains(x),
    ensures
        order::visited(g, r).len() <= i < order::visited(g, r + 1).len(),
        i < order::visit_order(g).len(),
        order::visit_order(g)[i] == x,
        order::ready(g, order::visited(g, r))[i - order::visited(g, r).len()] == x,
{
    let u = order::visited(g, r);
    let w = order::visited(g, r + 1);
    let k = order::ready(g, u).index_of(x);
    let i = u.len() + k;
    order::lemma_rounds_begin_order(g, r + 1);
    assert(w == u + order::ready(g, u));
    assert(w[i] == x);
    assert(w == order::visit_order(g).subrange(0, w.len() as int));
    i
}

} // verus!
