//! Dependency graph construction.

use vstd::hash_map::StringHashMap;
use vstd::prelude::*;
use vstd::seq_lib::*;

use crate::graph_laws;
use crate::order;
use crate::text;
use crate::text::{concat2, concat4, join, sort_texts};
use crate::types;
use crate::types::{
    copy_optional_string, copy_strings, Graph, GraphView, Node, NodeView, ServiceSchema, ServiceView,
    State,
};

verus! {

/// How often `x` occurs in `s`.
pub open spec fn occurrences(s: Seq<usize>, x: usize) -> nat
    decreases s.len(),
{
    if s.len() == 0 {
        0
    } else {
        occurrences(s.drop_last(), x) + if s.last() == x {
            1nat
        } else {
            0nat
        }
    }
}

/// The services contain one that is called `name`.
pub open spec fn is_known(services: Seq<ServiceView>, name: Seq<char>) -> bool {
    exists|i: int| 0 <= i < services.len() && (#[trigger] services[i]).name == name
}

/// Service `i` has the name of an earlier service.
pub open spec fn is_duplicate(services: Seq<ServiceView>, i: int) -> bool {
    is_known(services.take(i), services[i].name)
}

/// No two services share a name.
pub open spec fn distinct_names(services: Seq<ServiceView>) -> bool {
    forall|i: int| 0 <= i < services.len() ==> !#[trigger] is_duplicate(services, i)
}

/// Service `i` is the first that has the name of an earlier one.
pub open spec fn first_duplicate(services: Seq<ServiceView>, i: int) -> bool {
    &&& 0 <= i < services.len()
    &&& is_duplicate(services, i)
    &&& distinct_names(services.take(i))
}

/// Every name that service `i` depends on is the name of a service.
pub open spec fn dependencies_known(services: Seq<ServiceView>, i: int) -> bool {
    forall|j: int|
        0 <= j < services[i].dependency_names().len() ==> is_known(
            services,
            #[trigger] services[i].dependency_names()[j],
        )
}

/// Every name that a service depends on is the name of a service.
pub open spec fn all_dependencies_known(services: Seq<ServiceView>) -> bool {
    forall|i: int| 0 <= i < services.len() ==> #[trigger] dependencies_known(services, i)
}

/// Dependency `j` of service `i` is the first, in configuration order, that names no service.
pub open spec fn first_unknown(services: Seq<ServiceView>, i: int, j: int) -> bool {
    &&& 0 <= i < services.len()
    &&& 0 <= j < services[i].dependency_names().len()
    &&& !is_known(services, services[i].dependency_names()[j])
    &&& forall|k: int| 0 <= k < i ==> #[trigger] dependencies_known(services, k)
    &&& forall|k: int|
        0 <= k < j ==> is_known(services, #[trigger] services[i].dependency_names()[k])
}

/// The position of the service that is called `name`.
pub open spec fn position_of(services: Seq<ServiceView>, name: Seq<char>) -> int {
    choose|i: int| 0 <= i < services.len() && (#[trigger] services[i]).name == name
}

/// The positions of the services that service `i` depends on, in the order it lists them.
pub open spec fn dependency_positions(services: Seq<ServiceView>, i: int) -> Seq<usize> {
    services[i].dependency_names().map_values(
        |name: Seq<char>| position_of(services, name) as usize,
    )
}

/// Each of the first `k` positions, in ascending order, as often as its entry in `deps`
/// lists `d`.
pub open spec fn dependents_within(deps: Seq<Seq<usize>>, k: int, d: usize) -> Seq<usize>
    decreases k,
{
    if k <= 0 {
        Seq::empty()
    } else {
        dependents_within(deps, k - 1, d) + Seq::new(
            occurrences(deps[k - 1], d),
            |_r: int| (k - 1) as usize,
        )
    }
}

/// The dependency positions of every service.
pub open spec fn all_positions(services: Seq<ServiceView>) -> Seq<Seq<usize>> {
    Seq::new(services.len(), |i: int| dependency_positions(services, i))
}

/// The dependency graph of the services: missing lists are empty, `deps` holds the positions of
/// the named dependencies, `dependents` the same links seen from the other end, and every node
/// is pending.
pub open spec fn graph_of(services: Seq<ServiceView>) -> GraphView {
    GraphView {
        nodes: Seq::new(
            services.len(),
            |i: int|
                NodeView {
                    service: services[i].normalized(),
                    deps: dependency_positions(services, i),
                    dependents: dependents_within(
                        all_positions(services),
                        services.len() as int,
                        i as usize,
                    ),
                    state: State::Pending,
                },
        ),
        lookup: Map::new(
            |name: Seq<char>| is_known(services, name),
            |name: Seq<char>| position_of(services, name) as usize,
        ),
    }
}

/// The graph with no nodes.
pub open spec fn empty_graph() -> GraphView {
    GraphView { nodes: Seq::empty(), lookup: Map::empty() }
}

pub proof fn lemma_position_of(services: Seq<ServiceView>, i: int)
    requires
        distinct_names(services),
        0 <= i < services.len(),
    ensures
        position_of(services, services[i].name) == i,
{
    let p = position_of(services, services[i].name);
    assert(0 <= p < services.len() && services[p].name == services[i].name);
    if p < i {
        assert(services.take(i)[p].name == services[i].name);
        assert(is_duplicate(services, i));
    } else if i < p {
        assert(services.take(p)[i].name == services[p].name);
        assert(is_duplicate(services, p));
    }
}

proof fn lemma_distinct_prefix(services: Seq<ServiceView>, n: int)
    requires
        0 <= n <= services.len(),
        forall|i: int| 0 <= i < n ==> !#[trigger] is_duplicate(services, i),
    ensures
        distinct_names(services.take(n)),
{
    assert forall|i: int| 0 <= i < services.take(n).len() implies !#[trigger] is_duplicate(
        services.take(n),
        i,
    ) by {
        assert(services.take(n).take(i) =~= services.take(i));
        assert(!is_duplicate(services, i));
    }
}

/// An empty graph with no nodes.
#[must_use]
pub fn default_graph() -> (graph: Graph)
    ensures
        graph@ == empty_graph(),
{
    let graph = Graph { nodes: Vec::new(), lookup: StringHashMap::new() };
    assert(graph@.nodes =~= Seq::<NodeView>::empty());
    graph
}

/// A copy of a list that may be missing; a missing one gives an empty one.
fn list_or_empty(strings: &Option<Vec<String>>) -> (list: Vec<String>)
    ensures
        text::texts(list@) == match types::texts_of(*strings) {
            Some(t) => t,
            None => Seq::<Seq<char>>::empty(),
        },
{
    match strings {
        Some(v) => copy_strings(v),
        None => {
            let list: Vec<String> = Vec::new();
            assert(text::texts(list@) =~= Seq::<Seq<char>>::empty());
            list
        },
    }
}

/// The service with missing lists replaced by empty ones.
fn normalized(service: &ServiceSchema) -> (result: ServiceSchema)
    ensures
        result@ == service@.normalized(),
{
    ServiceSchema {
        name: service.name.clone(),
        command: service.command.clone(),
        run_as_shell: service.run_as_shell,
        color: copy_optional_string(&service.color),
        dependencies: Some(list_or_empty(&service.dependencies)),
        watchlist: Some(list_or_empty(&service.watchlist)),
    }
}

/// Map each service name to its position.
///
/// # Errors
///
/// Returns a message when two services share a name.
fn index_names(raw_services: &[ServiceSchema]) -> (result: Result<StringHashMap<usize>, String>)
    ensures
        match result {
            Ok(lookup) => {
                &&& distinct_names(types::service_views(raw_services@))
                &&& lookup@ == graph_of(types::service_views(raw_services@)).lookup
            },
            Err(message) => exists|i: int| #[trigger]
                first_duplicate(types::service_views(raw_services@), i) && message@
                    == "duplicate service: "@ + types::service_views(raw_services@)[i].name,
        },
{
    let ghost services = types::service_views(raw_services@);
    let mut lookup: StringHashMap<usize> = StringHashMap::new();
    let mut i: usize = 0;
    while i < raw_services.len()
        invariant
            services == types::service_views(raw_services@),
            i <= raw_services@.len(),
            forall|k: int| 0 <= k < i ==> !#[trigger] is_duplicate(services, k),
            forall|name: Seq<char>| #[trigger]
                lookup@.contains_key(name) <==> is_known(services.take(i as int), name),
            forall|k: int| 0 <= k < i ==> lookup@[#[trigger] services[k].name] == k,
        decreases raw_services@.len() - i,
    {
        let name = &raw_services[i].name;
        assert(services[i as int].name == name@);
        if lookup.contains_key(name.as_str()) {
            proof {
                lemma_distinct_prefix(services, i as int);
                assert(first_duplicate(services, i as int));
            }
            return Err(concat2("duplicate service: ", name.as_str()));
        }
        let ghost before = lookup@;
        lookup.insert(name.clone(), i);
        proof {
            let next = services.take(i + 1);
            assert(!is_duplicate(services, i as int));
            assert forall|other: Seq<char>| #[trigger]
                lookup@.contains_key(other) <==> is_known(next, other) by {
                if before.contains_key(other) {
                    let k = choose|k: int|
                        0 <= k < i && (#[trigger] services.take(i as int)[k]).name == other;
                    assert(next[k].name == other);
                }
                if other == name@ {
                    assert(next[i as int].name == other);
                }
                if is_known(next, other) && other != name@ {
                    let k = choose|k: int| 0 <= k < i + 1 && (#[trigger] next[k]).name == other;
                    assert(services.take(i as int)[k].name == other);
                }
            }
            assert forall|k: int| 0 <= k < i + 1 implies lookup@[#[trigger] services[k].name]
                == k by {
                if k < i && services[k].name == name@ {
                    assert(services.take(i as int)[k].name == services[i as int].name);
                }
            }
        }
        i = i + 1;
    }
    proof {
        assert(services.take(services.len() as int) =~= services);
        assert forall|k: int| 0 <= k < services.len() implies !#[trigger] is_duplicate(
            services,
            k,
        ) by {}
        let expected = graph_of(services).lookup;
        assert forall|name: Seq<char>| lookup@.contains_key(name) implies #[trigger] lookup@[name]
            == expected[name] by {
            let k = choose|k: int| 0 <= k < services.len() && (#[trigger] services[k]).name == name;
            lemma_position_of(services, k);
        }
        assert(lookup@ =~= expected);
    }
    Ok(lookup)
}

/// Look up the positions of the services that service `i` depends on.
///
/// # Errors
///
/// Returns a message for the first name that is not in the configuration.
fn resolve_dependencies(
    service: &ServiceSchema,
    lookup: &StringHashMap<usize>,
    services: Ghost<Seq<ServiceView>>,
    i: Ghost<int>,
) -> (result: Result<Vec<usize>, String>)
    requires
        0 <= i@ < services@.len(),
        service@ == services@[i@].normalized(),
        lookup@ == graph_of(services@).lookup,
        forall|k: int| 0 <= k < i@ ==> #[trigger] dependencies_known(services@, k),
    ensures
        match result {
            Ok(deps) => {
                &&& dependencies_known(services@, i@)
                &&& deps@ == dependency_positions(services@, i@)
            },
            Err(message) => exists|j: int| #[trigger]
                first_unknown(services@, i@, j) && message@ == unknown_dependency_message(
                    "unknown dependency for service "@,
                    services@[i@].name,
                    services@[i@].dependency_names()[j],
                ),
        },
{
    let ghost wanted = services@[i@].dependency_names();
    let mut deps: Vec<usize> = Vec::new();
    if let Some(names) = &service.dependencies {
        let mut j: usize = 0;
        assert(wanted == text::texts(names@));
        while j < names.len()
            invariant
                j <= names@.len(),
                wanted == text::texts(names@),
                wanted == services@[i@].dependency_names(),
                service@ == services@[i@].normalized(),
                0 <= i@ < services@.len(),
                lookup@ == graph_of(services@).lookup,
                forall|k: int| 0 <= k < i@ ==> #[trigger] dependencies_known(services@, k),
                forall|k: int| 0 <= k < j ==> is_known(services@, #[trigger] wanted[k]),
                deps@ == dependency_positions(services@, i@).take(j as int),
            decreases names@.len() - j,
        {
            assert(wanted[j as int] == names@[j as int]@);
            match lookup.get(names[j].as_str()) {
                Some(index) => {
                    proof {
                        let positions = dependency_positions(services@, i@);
                        assert(positions.take(j + 1) =~= positions.take(j as int).push(
                            positions[j as int],
                        ));
                    }
                    deps.push(*index);
                },
                None => {
                    assert(first_unknown(services@, i@, j as int));
                    return Err(
                        concat4(
                            "unknown dependency for service ",
                            service.name.as_str(),
                            ": ",
                            names[j].as_str(),
                        ),
                    );
                },
            }
            j = j + 1;
        }
        proof {
            assert(wanted.len() == names@.len());
            assert forall|k: int| 0 <= k < services@[i@].dependency_names().len() implies is_known(
                services@,
                #[trigger] services@[i@].dependency_names()[k],
            ) by {}
            let positions = dependency_positions(services@, i@);
            assert(positions.take(names@.len() as int) =~= positions);
        }
    }
    Ok(deps)
}

/// The message for a dependency that names no service.
pub open spec fn unknown_dependency_message(
    prefix: Seq<char>,
    service: Seq<char>,
    dependency: Seq<char>,
) -> Seq<char> {
    prefix + service + ": "@ + dependency
}

/// What the nodes say about which services each of them depends on.
pub open spec fn deps_of(nodes: Seq<Node>) -> Seq<Seq<usize>> {
    nodes.map_values(|node: Node| node.deps@)
}

/// Fill in the dependents of every node from the dependencies of all.
fn link_dependents(nodes: &mut Vec<Node>)
    requires
        forall|x: int| 0 <= x < old(nodes)@.len() ==> (#[trigger] old(nodes)@[x]).dependents@.len()
            == 0,
        forall|x: int, k: int|
            0 <= x < old(nodes)@.len() && 0 <= k < old(nodes)@[x].deps@.len() ==> #[trigger] old(
                nodes,
            )@[x].deps@[k] < old(nodes)@.len(),
    ensures
        final(nodes)@.len() == old(nodes)@.len(),
        forall|x: int|
            0 <= x < old(nodes)@.len() ==> (#[trigger] final(nodes)@[x])@ == (NodeView {
                dependents: dependents_within(
                    deps_of(old(nodes)@),
                    old(nodes)@.len() as int,
                    x as usize,
                ),
                ..old(nodes)@[x]@
            }),
{
    let ghost start = nodes@;
    let ghost deps = deps_of(start);
    let n: usize = nodes.len();
    let mut index: usize = 0;
    proof {
        assert forall|x: int| 0 <= x < n implies (#[trigger] nodes@[x])@ == (NodeView {
            dependents: dependents_within(deps, 0, x as usize),
            ..start[x]@
        }) by {
            assert(start[x].dependents@ =~= Seq::<usize>::empty());
        }
    }
    while index < n
        invariant
            n == start.len(),
            n == nodes@.len(),
            index <= n,
            deps == deps_of(start),
            forall|x: int, k: int|
                0 <= x < n && 0 <= k < start[x].deps@.len() ==> #[trigger] start[x].deps@[k] < n,
            forall|x: int|
                0 <= x < n ==> (#[trigger] nodes@[x])@ == (NodeView {
                    dependents: dependents_within(deps, index as int, x as usize),
                    ..start[x]@
                }),
        decreases n - index,
    {
        let links = nodes[index].deps.clone();
        let ghost own = deps[index as int];
        proof {
            assert(nodes@[index as int]@.deps == start[index as int].deps@);
            assert(links@ =~= own);
        }
        let mut j: usize = 0;
        while j < links.len()
            invariant
                n == start.len(),
                n == nodes@.len(),
                index < n,
                j <= links@.len(),
                links@ == own,
                own == start[index as int].deps@,
                deps == deps_of(start),
                own == deps[index as int],
                forall|x: int, k: int|
                    0 <= x < n && 0 <= k < start[x].deps@.len() ==> #[trigger] start[x].deps@[k]
                        < n,
                forall|x: int|
                    0 <= x < n ==> (#[trigger] nodes@[x])@ == (NodeView {
                        dependents: dependents_within(deps, index as int, x as usize) + Seq::new(
                            occurrences(own.take(j as int), x as usize),
                            |_r: int| index,
                        ),
                        ..start[x]@
                    }),
            decreases links@.len() - j,
        {
            let d: usize = links[j];
            assert(start[index as int].deps@[j as int] < n);
            let ghost before = nodes@;
            nodes[d].dependents.push(index);
            proof {
                assert(own.take(j + 1).drop_last() =~= own.take(j as int));
                assert forall|x: int| 0 <= x < n implies (#[trigger] nodes@[x])@ == (NodeView {
                    dependents: dependents_within(deps, index as int, x as usize) + Seq::new(
                        occurrences(own.take(j + 1), x as usize),
                        |_r: int| index,
                    ),
                    ..start[x]@
                }) by {
                    let base = dependents_within(deps, index as int, x as usize);
                    let old_tail = Seq::new(
                        occurrences(own.take(j as int), x as usize),
                        |_r: int| index,
                    );
                    let new_tail = Seq::new(
                        occurrences(own.take(j + 1), x as usize),
                        |_r: int| index,
                    );
                    assert(before[x]@.dependents == base + old_tail);
                    if x == d {
                        assert(nodes@[x].dependents@ == (base + old_tail).push(index));
                        assert((base + old_tail).push(index) =~= base + new_tail);
                    } else {
                        assert(nodes@[x] == before[x]);
                        assert(old_tail =~= new_tail);
                    }
                }
            }
            j = j + 1;
        }
        proof {
            assert(own.take(own.len() as int) =~= own);
            assert forall|x: int| 0 <= x < n implies (#[trigger] nodes@[x])@ == (NodeView {
                dependents: dependents_within(deps, index + 1, x as usize),
                ..start[x]@
            }) by {
                assert(Seq::new(occurrences(own, x as usize), |_r: int| index) =~= Seq::new(
                    occurrences(deps[index as int], x as usize),
                    |_r: int| ((index + 1) - 1) as usize,
                ));
            }
        }
        index = index + 1;
    }
}

/// Build the dependency graph of `raw_services`.
///
/// Missing `dependencies` and `watchlist` fields are replaced by empty lists,
/// and every node starts in [`State::Pending`].
///
/// # Errors
///
/// Returns a message when two services share a name, or when a service
/// depends on a name that is not in the configuration.
pub fn generate_graph(raw_services: &[ServiceSchema]) -> (result: Result<Graph, String>)
    ensures
        match result {
            Ok(graph) => {
                &&& distinct_names(types::service_views(raw_services@))
                &&& all_dependencies_known(types::service_views(raw_services@))
                &&& graph@ == graph_of(types::service_views(raw_services@))
            },
            Err(message) => {
                ||| exists|i: int| #[trigger]
                    first_duplicate(types::service_views(raw_services@), i) && message@
                        == "duplicate service: "@ + types::service_views(raw_services@)[i].name
                ||| distinct_names(types::service_views(raw_services@)) && exists|i: int, j: int|
                    #[trigger]
                    first_unknown(types::service_views(raw_services@), i, j) && message@
                        == unknown_dependency_message(
                        "unknown dependency for service "@,
                        types::service_views(raw_services@)[i].name,
                        types::service_views(raw_services@)[i].dependency_names()[j],
                    )
            },
        },
        result is Ok <==> distinct_names(types::service_views(raw_services@))
            && all_dependencies_known(types::service_views(raw_services@)),
        result matches Ok(graph) ==> graph_laws::well_formed(graph@),
{
    let ghost services = types::service_views(raw_services@);
    let lookup = match index_names(raw_services) {
        Ok(lookup) => lookup,
        Err(message) => {
            return Err(message);
        },
    };
    let mut nodes: Vec<Node> = Vec::new();
    let mut i: usize = 0;
    while i < raw_services.len()
        invariant
            services == types::service_views(raw_services@),
            distinct_names(services),
            lookup@ == graph_of(services).lookup,
            i <= raw_services@.len(),
            nodes@.len() == i,
            forall|k: int| 0 <= k < i ==> #[trigger] dependencies_known(services, k),
            forall|k: int|
                0 <= k < i ==> (#[trigger] nodes@[k])@ == (NodeView {
                    dependents: Seq::empty(),
                    ..graph_of(services).nodes[k]
                }),
        decreases raw_services@.len() - i,
    {
        let service = normalized(&raw_services[i]);
        assert(service@ == services[i as int].normalized());
        let deps = match resolve_dependencies(&service, &lookup, Ghost(services), Ghost(i as int)) {
            Ok(deps) => deps,
            Err(message) => {
                assert(!dependencies_known(services, i as int));
                return Err(message);
            },
        };
        nodes.push(Node { service, deps, dependents: Vec::new(), state: State::Pending });
        i = i + 1;
    }
    let ghost plain = nodes@;
    proof {
        assert forall|x: int, k: int|
            0 <= x < plain.len() && 0 <= k < plain[x].deps@.len() implies #[trigger] plain[x].deps@[k]
            < plain.len() by {
            assert(dependencies_known(services, x));
            assert(plain[x]@.deps == dependency_positions(services, x));
            let name = services[x].dependency_names()[k];
            assert(is_known(services, name));
            let p = position_of(services, name);
            assert(0 <= p < services.len());
        }
        assert forall|x: int| 0 <= x < plain.len() implies (#[trigger] plain[x]).dependents@.len()
            == 0 by {
            assert(plain[x]@.dependents == Seq::<usize>::empty());
        }
    }
    link_dependents(&mut nodes);
    let graph = Graph { nodes, lookup };
    proof {
        assert(deps_of(plain) =~= all_positions(services)) by {
            assert forall|k: int| 0 <= k < plain.len() implies deps_of(plain)[k] == #[trigger] all_positions(
                services,
            )[k] by {
                assert(plain[k]@.deps == graph_of(services).nodes[k].deps);
            }
        }
        assert(graph@.nodes =~= graph_of(services).nodes) by {
            assert forall|k: int| 0 <= k < services.len() implies #[trigger] graph@.nodes[k]
                == graph_of(services).nodes[k] by {
                assert(graph.nodes@[k]@ == graph@.nodes[k]);
                assert(plain[k]@ == (NodeView {
                    dependents: Seq::empty(),
                    ..graph_of(services).nodes[k]
                }));
            }
        }
        graph_laws::lemma_graph_of_is_well_formed(services);
    }
    Ok(graph)
}

/// The number of dependencies of each node.
fn dependency_counts(graph: &Graph) -> (counts: Vec<usize>)
    ensures
        counts@.len() == graph@.nodes.len(),
        forall|d: int|
            0 <= d < counts@.len() ==> #[trigger] counts@[d] == graph@.nodes[d].deps.len(),
{
    let mut counts: Vec<usize> = Vec::new();
    let mut i: usize = 0;
    while i < graph.nodes.len()
        invariant
            i <= graph.nodes@.len(),
            counts@.len() == i,
            forall|d: int| 0 <= d < i ==> #[trigger] counts@[d] == graph@.nodes[d].deps.len(),
        decreases graph.nodes@.len() - i,
    {
        assert(graph@.nodes[i as int] == graph.nodes@[i as int]@);
        counts.push(graph.nodes[i].deps.len());
        i = i + 1;
    }
    counts
}

/// The nodes that become ready when the nodes in `done` have been visited, in configuration order.
fn ready_nodes(
    graph: &Graph,
    in_degree: &Vec<usize>,
    placed: &Vec<bool>,
    done: Ghost<Seq<usize>>,
) -> (round: Vec<usize>)
    requires
        in_degree@.len() == graph@.nodes.len(),
        placed@.len() == graph@.nodes.len(),
        forall|d: int|
            0 <= d < in_degree@.len() ==> #[trigger] in_degree@[d] == order::remaining(
                graph@,
                done@,
                d as usize,
            ),
        forall|d: int|
            0 <= d < placed@.len() ==> #[trigger] placed@[d] == done@.contains(d as usize),
    ensures
        round@ == order::ready(graph@, done@),
{
    let ghost g = graph@;
    let ghost keep = |i: usize| order::is_ready(g, done@, i);
    let mut round: Vec<usize> = Vec::new();
    let mut i: usize = 0;
    proof {
        assert(order::positions(0) =~= Seq::<usize>::empty());
        reveal(Seq::filter);
    }
    while i < in_degree.len()
        invariant
            i <= in_degree@.len(),
            in_degree@.len() == g.nodes.len(),
            placed@.len() == g.nodes.len(),
            keep == (|i: usize| order::is_ready(g, done@, i)),
            forall|d: int|
                0 <= d < in_degree@.len() ==> #[trigger] in_degree@[d] == order::remaining(
                    g,
                    done@,
                    d as usize,
                ),
            forall|d: int|
                0 <= d < placed@.len() ==> #[trigger] placed@[d] == done@.contains(d as usize),
            round@ == order::positions(i as nat).filter(keep),
        decreases in_degree@.len() - i,
    {
        proof {
            assert(order::positions((i + 1) as nat) =~= order::positions(i as nat).push(i));
            order::positions(i as nat).lemma_filter_push(i, keep);
            assert(placed@[i as int] == done@.contains(i));
            assert(in_degree@[i as int] == order::remaining(g, done@, i));
        }
        if !placed[i] && in_degree[i] == 0 {
            round.push(i);
        }
        i = i + 1;
    }
    round
}

/// Take the links of node `index` off the dependency counts. Tells whether all of them fit: each
/// leads to a node that still has a dependency to release.
fn release_links(
    graph: &Graph,
    index: usize,
    in_degree: &mut Vec<usize>,
    done: Ghost<Seq<usize>>,
) -> (fits: bool)
    requires
        index < graph@.nodes.len(),
        old(in_degree)@.len() == graph@.nodes.len(),
        forall|d: int|
            0 <= d < old(in_degree)@.len() ==> #[trigger] old(in_degree)@[d] == order::remaining(
                graph@,
                done@,
                d as usize,
            ),
    ensures
        fits == order::links_fit(
            graph@,
            done@,
            index,
            order::dependents(graph@, index).len() as int,
        ),
        fits ==> final(in_degree)@.len() == graph@.nodes.len(),
        fits ==> forall|d: int|
            0 <= d < graph@.nodes.len() ==> #[trigger] final(in_degree)@[d] == order::remaining(
                graph@,
                done@.push(index),
                d as usize,
            ),
{
    let ghost g = graph@;
    let ghost links = order::dependents(g, index);
    let ghost n = g.nodes.len() as int;
    let mut k: usize = 0;
    proof {
        assert(g.nodes[index as int] == graph.nodes@[index as int]@);
        assert(links.take(0) =~= Seq::<usize>::empty());
    }
    while k < graph.nodes[index].dependents.len()
        invariant
            g == graph@,
            n == g.nodes.len(),
            n == graph.nodes@.len(),
            in_degree@.len() == n,
            index < n,
            links == order::dependents(g, index),
            links == graph.nodes@[index as int].dependents@,
            k <= links.len(),
            order::links_fit(g, done@, index, k as int),
            forall|d: int|
                0 <= d < n ==> #[trigger] in_degree@[d] == order::remaining_within(
                    g,
                    done@,
                    index,
                    k as int,
                    d as usize,
                ),
        decreases links.len() - k,
    {
        let dependent: usize = graph.nodes[index].dependents[k];
        proof {
            assert(links.take(k + 1).drop_last() =~= links.take(k as int));
            assert(links.take(k + 1).last() == dependent);
            assert(order::dependents(g, index)[k as int] == dependent);
        }
        if dependent >= in_degree.len() || in_degree[dependent] == 0 {
            proof {
                if dependent < n {
                    assert(in_degree@[dependent as int] == order::remaining_within(
                        g,
                        done@,
                        index,
                        k as int,
                        dependent,
                    ));
                }
                assert(!order::links_fit(g, done@, index, links.len() as int));
            }
            return false;
        }
        let next: usize = in_degree[dependent] - 1;
        let ghost before = in_degree@;
        in_degree.set(dependent, next);
        proof {
            assert forall|d: int| 0 <= d < n implies #[trigger] in_degree@[d]
                == order::remaining_within(g, done@, index, k + 1, d as usize) by {
                assert(before[d] == order::remaining_within(
                    g,
                    done@,
                    index,
                    k as int,
                    d as usize,
                ));
            }
            assert(in_degree@[dependent as int] == order::remaining_within(
                g,
                done@,
                index,
                k + 1,
                dependent,
            ));
        }
        k = k + 1;
    }
    proof {
        assert forall|d: int| 0 <= d < n implies #[trigger] in_degree@[d] == order::remaining(
            g,
            done@.push(index),
            d as usize,
        ) by {
            order::lemma_visit_done(g, done@, index, d as usize);
        }
    }
    true
}

/// No node has been placed.
fn unplaced(n: usize) -> (placed: Vec<bool>)
    ensures
        placed@.len() == n,
        forall|d: int| 0 <= d < n ==> !#[trigger] placed@[d],
{
    let mut placed: Vec<bool> = Vec::new();
    while placed.len() < n
        invariant
            placed@.len() <= n,
            forall|d: int| 0 <= d < placed@.len() ==> !#[trigger] placed@[d],
        decreases n - placed@.len(),
    {
        placed.push(false);
    }
    placed
}

/// The message that names the services with dependencies left, in lexicographic order.
fn blocked_message(graph: &Graph, in_degree: &Vec<usize>, done: Ghost<Seq<usize>>) -> (message:
    String)
    requires
        in_degree@.len() == graph@.nodes.len(),
        done@ == order::visit_order(graph@),
        forall|d: int|
            0 <= d < in_degree@.len() ==> #[trigger] in_degree@[d] == order::remaining(
                graph@,
                done@,
                d as usize,
            ),
    ensures
        message@ == order::cycle_message(graph@),
{
    let ghost g = graph@;
    let ghost keep = |i: usize| order::remaining(g, order::visit_order(g), i) > 0;
    let ghost name = |i: usize| g.nodes[i as int].service.name;
    let mut names: Vec<String> = Vec::new();
    let mut i: usize = 0;
    proof {
        assert(order::positions(0) =~= Seq::<usize>::empty());
        reveal(Seq::filter);
        assert(text::texts(names@) =~= order::positions(0).filter(keep).map_values(name));
    }
    while i < graph.nodes.len()
        invariant
            g == graph@,
            i <= graph.nodes@.len(),
            in_degree@.len() == graph@.nodes.len(),
            done@ == order::visit_order(g),
            keep == (|i: usize| order::remaining(g, order::visit_order(g), i) > 0),
            name == (|i: usize| g.nodes[i as int].service.name),
            forall|d: int|
                0 <= d < in_degree@.len() ==> #[trigger] in_degree@[d] == order::remaining(
                    g,
                    done@,
                    d as usize,
                ),
            text::texts(names@) == order::positions(i as nat).filter(keep).map_values(name),
        decreases graph.nodes@.len() - i,
    {
        let ghost before = order::positions(i as nat).filter(keep);
        proof {
            assert(graph@.nodes[i as int] == graph.nodes@[i as int]@);
            assert(order::positions((i + 1) as nat) =~= order::positions(i as nat).push(i));
            order::positions(i as nat).lemma_filter_push(i, keep);
            assert(before.push(i).map_values(name) =~= before.map_values(name).push(name(i)));
        }
        if in_degree[i] > 0 {
            let ghost earlier = names@;
            names.push(graph.nodes[i].service.name.clone());
            assert(text::texts(names@) =~= text::texts(earlier).push(name(i)));
        }
        i = i + 1;
    }
    sort_texts(&mut names);
    proof {
        assert(order::blocked(g) == order::positions(g.nodes.len()).filter(keep));
        assert(order::blocked(g).map_values(name) =~= order::blocked(g).map_values(
            |i: usize| g.nodes[i as int].service.name,
        ));
    }
    concat2("dependency cycle: ", join(&names, ", ").as_str())
}

/// The message for a graph whose links contradict each other.
pub open spec fn malformed_message() -> Seq<char> {
    "Failed to properly build graph"@
}

/// Order the graph's nodes so that every service follows its dependencies.
///
/// The result is a permutation of the graph's nodes: every service appears
/// exactly once, and every service sits after all the services it depends on.
/// Services without dependencies come first, then, round by round, those whose
/// dependencies all sit in earlier rounds. Ties are broken by configuration
/// position, so the same graph always yields the same order.
///
/// # Errors
///
/// Returns a message naming the services involved when the graph contains a
/// dependency cycle, because a cyclic graph has no valid order.
pub fn topological_sort(graph: &Graph) -> (result: Result<Vec<usize>, String>)
    ensures
        match result {
            Ok(order) => {
                &&& order::consistent(graph@)
                &&& order::visit_order(graph@).len() == graph@.nodes.len()
                &&& order@ == order::visit_order(graph@)
            },
            Err(message) => {
                ||| !order::consistent(graph@) && message@ == malformed_message()
                ||| order::consistent(graph@) && order::visit_order(graph@).len()
                    != graph@.nodes.len() && message@ == order::cycle_message(graph@)
            },
        },
        graph_laws::well_formed(graph@) ==> {
            &&& result is Ok <==> !graph_laws::has_cycle(graph@)
            &&& result matches Ok(order) ==> graph_laws::is_permutation(graph@, order@)
                && graph_laws::dependencies_first(graph@, order@)
            &&& result matches Err(message) ==> message@ == order::cycle_message(graph@)
        },
{
    let ghost g = graph@;
    let n: usize = graph.nodes.len();
    let mut in_degree = dependency_counts(graph);
    let mut placed = unplaced(n);
    let mut order: Vec<usize> = Vec::new();
    let ghost mut r: int = 0;
    proof {
        assert(order@ =~= order::visited(g, 0));
    }
    loop
        invariant
            g == graph@,
            n == g.nodes.len(),
            0 <= r,
            in_degree@.len() == n,
            placed@.len() == n,
            order@ == order::visited(g, r),
            forall|q: int| 0 <= q < order@.len() ==> #[trigger] order::step_fits(g, q),
            forall|d: int|
                0 <= d < n ==> #[trigger] in_degree@[d] == order::remaining(g, order@, d as usize),
            forall|d: int| 0 <= d < n ==> #[trigger] placed@[d] == order@.contains(d as usize),
        ensures
            order::ready(g, order@).len() == 0,
        decreases n - order@.len(),
    {
        let ghost done = order@;
        let round = ready_nodes(graph, &in_degree, &placed, Ghost(done));
        if round.len() == 0 {
            break ;
        }
        let ghost w = order::visited(g, r + 1);
        let ghost all = order::visit_order(g);
        proof {
            order::lemma_visited_distinct(g, r + 1);
            order::lemma_rounds_begin_order(g, r + 1);
            assert(w =~= done + round@);
            assert(w == all.subrange(0, w.len() as int));
            assert(done + round@.take(0) =~= done);
        }
        let mut i: usize = 0;
        while i < round.len()
            invariant
                g == graph@,
                n == g.nodes.len(),
                in_degree@.len() == n,
                placed@.len() == n,
                i <= round@.len(),
                w == done + round@,
                w.len() <= all.len(),
                w.len() <= n,
                all == order::visit_order(g),
                w == all.subrange(0, w.len() as int),
                forall|q: int| 0 <= q < w.len() ==> (#[trigger] w[q]) < n,
                order@ == done + round@.take(i as int),
                forall|q: int| 0 <= q < order@.len() ==> #[trigger] order::step_fits(g, q),
                forall|d: int|
                    0 <= d < n ==> #[trigger] in_degree@[d] == order::remaining(
                        g,
                        order@,
                        d as usize,
                    ),
                forall|d: int| 0 <= d < n ==> #[trigger] placed@[d] == order@.contains(d as usize),
            decreases round@.len() - i,
        {
            let index: usize = round[i];
            let ghost before = order@;
            let ghost p = before.len() as int;
            proof {
                assert(w[p] == index);
                assert(all[p] == w[p]);
                assert(all.take(p) =~= before);
            }
            order.push(index);
            let fits = release_links(graph, index, &mut in_degree, Ghost(before));
            if !fits {
                proof {
                    assert(!order::step_fits(g, p));
                    if graph_laws::well_formed(g) {
                        graph_laws::lemma_well_formed_is_consistent(g);
                    }
                }
                return Err("Failed to properly build graph".to_owned());
            }
            let ghost placed_before = placed@;
            placed.set(index, true);
            proof {
                assert(order::step_fits(g, p));
                assert(order@ =~= done + round@.take(i + 1));
                assert forall|d: int| 0 <= d < n implies #[trigger] placed@[d] == order@.contains(
                    d as usize,
                ) by {
                    assert(placed_before[d] == before.contains(d as usize));
                    assert(order@[p] == index);
                    if before.contains(d as usize) {
                        assert(order@[before.index_of(d as usize)] == d as usize);
                    }
                    if order@.contains(d as usize) && d as usize != index {
                        assert(before[order@.index_of(d as usize)] == d as usize);
                    }
                }
                assert forall|q: int| 0 <= q < order@.len() implies #[trigger] order::step_fits(
                    g,
                    q,
                ) by {}
            }
            i = i + 1;
        }
        proof {
            assert(round@.take(round@.len() as int) =~= round@);
            r = r + 1;
        }
    }
    proof {
        order::lemma_rounds_begin_order(g, r);
        assert(order@ == order::visit_order(g));
        assert forall|q: int| 0 <= q < n implies #[trigger] order::step_fits(g, q) by {}
    }
    proof {
        if graph_laws::well_formed(g) {
            graph_laws::lemma_well_formed_is_consistent(g);
            graph_laws::lemma_order_exists_iff_acyclic(g);
            graph_laws::lemma_visit_order_is_topological(g);
            if order::visit_order(g).len() == n {
                graph_laws::lemma_full_order_is_permutation(g);
            }
        }
    }
    if order.len() != n {
        return Err(blocked_message(graph, &in_degree, Ghost(order@)));
    }
    Ok(order)
}

/// The nodes split by whether another node depends on them.
#[derive(Debug)]
pub struct Partition {
    pub prerequisites: Vec<usize>,
    pub services: Vec<usize>,
}

impl Default for Partition {
    /// No nodes on either side.
    fn default() -> (partition: Partition)
        ensures
            partition.prerequisites@ == Seq::<usize>::empty(),
            partition.services@ == Seq::<usize>::empty(),
    {
        Partition { prerequisites: Vec::new(), services: Vec::new() }
    }
}

/// The nodes that another node depends on, in configuration order.
pub open spec fn prerequisites(g: GraphView) -> Seq<usize> {
    order::positions(g.nodes.len()).filter(|i: usize| g.nodes[i as int].dependents.len() != 0)
}

/// The nodes that no node depends on, in configuration order.
pub open spec fn leaves(g: GraphView) -> Seq<usize> {
    order::positions(g.nodes.len()).filter(|i: usize| g.nodes[i as int].dependents.len() == 0)
}

/// Split the nodes into prerequisites, which other nodes depend on, and leaf services.
#[must_use]
pub fn partition_helper(graph: &Graph) -> (partition: Partition)
    ensures
        partition.prerequisites@ == prerequisites(graph@),
        partition.services@ == leaves(graph@),
{
    let ghost g = graph@;
    let ghost is_leaf = |i: usize| g.nodes[i as int].dependents.len() == 0;
    let ghost is_needed = |i: usize| g.nodes[i as int].dependents.len() != 0;
    let mut partition = Partition::default();
    let mut i: usize = 0;
    proof {
        assert(order::positions(0) =~= Seq::<usize>::empty());
        reveal(Seq::filter);
    }
    while i < graph.nodes.len()
        invariant
            g == graph@,
            i <= graph.nodes@.len(),
            is_leaf == (|i: usize| g.nodes[i as int].dependents.len() == 0),
            is_needed == (|i: usize| g.nodes[i as int].dependents.len() != 0),
            partition.prerequisites@ == order::positions(i as nat).filter(is_needed),
            partition.services@ == order::positions(i as nat).filter(is_leaf),
        decreases graph.nodes@.len() - i,
    {
        proof {
            assert(graph@.nodes[i as int] == graph.nodes@[i as int]@);
            assert(order::positions((i + 1) as nat) =~= order::positions(i as nat).push(i));
            order::positions(i as nat).lemma_filter_push(i, is_leaf);
            order::positions(i as nat).lemma_filter_push(i, is_needed);
        }
        if graph.nodes[i].dependents.is_empty() {
            partition.services.push(i);
        } else {
            partition.prerequisites.push(i);
        }
        i = i + 1;
    }
    partition
}

} // verus!
