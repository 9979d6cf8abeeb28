use std::collections::HashSet;

use butler::graph::{default_graph, generate_graph, partition_helper, topological_sort};
use butler::runner::{prerequisite_closure, service_details, set_state};
use butler::types::{CommandSpec, Graph, ServiceSchema, State};

fn service(name: &str, dependencies: &[&str]) -> ServiceSchema {
    ServiceSchema {
        name: name.to_owned(),
        command: CommandSpec::Args(vec!["dummy".to_owned()]),
        run_as_shell: false,
        color: None,
        dependencies: Some(dependencies.iter().map(|name| (*name).to_owned()).collect()),
        watchlist: None,
    }
}

fn graph(services: &[ServiceSchema]) -> Graph {
    generate_graph(services).ok().unwrap()
}

#[test]
fn watcher_restart_includes_transitive_prerequisites_once_in_topological_order() {
    let services = vec![
        service("base", &[]),
        service("middle", &["base"]),
        service("leaf-a", &["middle"]),
        service("leaf-b", &["base"]),
    ];
    let graph_result = generate_graph(&services);
    assert!(graph_result.is_ok());
    let Some(graph) = graph_result.ok() else {
        return;
    };
    let order_result = topological_sort(&graph);
    assert!(order_result.is_ok());
    let Some(order) = order_result.ok() else {
        return;
    };
    let targets: HashSet<usize> = std::iter::once(2).collect();
    assert_eq!(prerequisite_closure(&graph, &order, &targets), vec![0, 1]);
}

#[test]
fn a_graph_links_both_ways_and_fills_in_lists() {
    let mut plain = service("plain", &[]);
    plain.dependencies = None;
    let services = [service("top", &["plain", "mid"]), plain, service("mid", &["plain"])];
    let graph = graph(&services);
    assert_eq!(graph.nodes.len(), 3);
    assert_eq!(graph.nodes[0].deps, vec![1, 2]);
    assert_eq!(graph.nodes[0].dependents, Vec::<usize>::new());
    assert_eq!(graph.nodes[1].deps, Vec::<usize>::new());
    assert_eq!(graph.nodes[1].dependents, vec![0, 2]);
    assert_eq!(graph.nodes[2].deps, vec![1]);
    assert_eq!(graph.nodes[2].dependents, vec![0]);
    assert_eq!(graph.nodes[1].service.dependencies, Some(Vec::new()));
    assert_eq!(graph.nodes[1].service.watchlist, Some(Vec::new()));
    assert!(graph.nodes.iter().all(|node| node.state == State::Pending));
    assert_eq!(graph.lookup.get("mid"), Some(&2));
    assert_eq!(graph.lookup.get("nowhere"), None);
}

#[test]
fn a_repeated_dependency_is_linked_twice() {
    let services = [service("a", &[]), service("b", &["a", "a"])];
    let graph = graph(&services);
    assert_eq!(graph.nodes[1].deps, vec![0, 0]);
    assert_eq!(graph.nodes[0].dependents, vec![1, 1]);
    assert_eq!(topological_sort(&graph), Ok(vec![0, 1]));
}

#[test]
fn the_empty_graph_has_the_empty_order() {
    let graph = default_graph();
    assert_eq!(graph.nodes.len(), 0);
    assert_eq!(topological_sort(&graph), Ok(Vec::new()));
    let partition = partition_helper(&graph);
    assert_eq!(partition.prerequisites, Vec::<usize>::new());
    assert_eq!(partition.services, Vec::<usize>::new());
}

#[test]
fn dependencies_come_first_and_roots_lead() {
    let services = [
        service("web", &["api", "cache"]),
        service("api", &["db"]),
        service("db", &[]),
        service("cache", &[]),
    ];
    assert_eq!(topological_sort(&graph(&services)), Ok(vec![2, 3, 1, 0]));
}

#[test]
fn ties_are_broken_by_configuration_position() {
    let services = [
        service("root", &[]),
        service("first", &["root"]),
        service("second", &["root"]),
        service("third", &["root"]),
    ];
    assert_eq!(topological_sort(&graph(&services)), Ok(vec![0, 1, 2, 3]));
}

#[test]
fn ties_do_not_depend_on_which_dependency_was_waited_for() {
    let crossed = [
        service("a", &[]),
        service("b", &[]),
        service("on-b", &["b"]),
        service("on-a", &["a"]),
    ];
    assert_eq!(topological_sort(&graph(&crossed)), Ok(vec![0, 1, 2, 3]));
    let reversed = [
        service("x", &["r2"]),
        service("y", &["r1"]),
        service("r1", &[]),
        service("r2", &[]),
    ];
    assert_eq!(topological_sort(&graph(&reversed)), Ok(vec![2, 3, 0, 1]));
}

#[test]
fn services_of_a_later_round_come_later() {
    let services = [
        service("deep", &["late"]),
        service("early", &["root"]),
        service("late", &["root"]),
        service("deepest", &["deep", "early"]),
        service("root", &[]),
    ];
    assert_eq!(topological_sort(&graph(&services)), Ok(vec![4, 1, 2, 0, 3]));
}

#[test]
fn a_cycle_is_named_in_lexicographic_order() {
    let services = [
        service("zeta", &["alpha"]),
        service("alpha", &["zeta"]),
        service("free", &[]),
        service("behind", &["zeta", "free"]),
    ];
    assert_eq!(
        topological_sort(&graph(&services)),
        Err("dependency cycle: alpha, behind, zeta".to_owned())
    );
    assert_eq!(
        topological_sort(&graph(&[service("self", &["self"])])),
        Err("dependency cycle: self".to_owned())
    );
}

#[test]
fn contradicting_links_are_refused() {
    let expected = Err("Failed to properly build graph".to_owned());
    let mut extra = graph(&[service("a", &[]), service("b", &["a"])]);
    extra.nodes[0].dependents.push(1);
    assert_eq!(topological_sort(&extra), expected);
    let mut astray = graph(&[service("a", &[])]);
    astray.nodes[0].dependents.push(7);
    assert_eq!(topological_sort(&astray), expected);
}

#[test]
fn leaves_and_prerequisites_are_told_apart() {
    let services = [
        service("leaf", &["base"]),
        service("base", &[]),
        service("alone", &[]),
    ];
    let partition = partition_helper(&graph(&services));
    assert_eq!(partition.prerequisites, vec![1]);
    assert_eq!(partition.services, vec![0, 2]);
}

#[test]
fn closures_follow_the_given_order_and_skip_unknown_targets() {
    let services = [
        service("leaf", &["right", "left"]),
        service("left", &["base"]),
        service("right", &["base"]),
        service("base", &[]),
        service("other", &[]),
    ];
    let graph = graph(&services);
    let order = topological_sort(&graph).unwrap();
    assert_eq!(order, vec![3, 4, 1, 2, 0]);
    let leaf: HashSet<usize> = [0].into_iter().collect();
    assert_eq!(prerequisite_closure(&graph, &order, &leaf), vec![3, 1, 2]);
    let both: HashSet<usize> = [1, 2].into_iter().collect();
    assert_eq!(prerequisite_closure(&graph, &order, &both), vec![3]);
    let none: HashSet<usize> = [4, 99].into_iter().collect();
    assert_eq!(prerequisite_closure(&graph, &order, &none), Vec::<usize>::new());
    assert_eq!(prerequisite_closure(&graph, &[2, 1], &leaf), vec![2, 1]);
}

#[test]
fn states_are_set_and_details_read() {
    let mut colored = service("colored", &[]);
    colored.color = Some("#74ACDF".to_owned());
    let mut graph = graph(&[colored, service("plain", &[])]);
    assert_eq!(set_state(&mut graph, 1, State::Running), Ok(()));
    assert_eq!(graph.nodes[0].state, State::Pending);
    assert_eq!(graph.nodes[1].state, State::Running);
    let missing = "invalid graph node index".to_owned();
    assert_eq!(set_state(&mut graph, 2, State::Failed), Err(missing.clone()));
    assert_eq!(
        service_details(&graph, 0),
        Ok(("colored".to_owned(), Some("#74ACDF".to_owned())))
    );
    assert_eq!(service_details(&graph, 1), Ok(("plain".to_owned(), None)));
    assert_eq!(service_details(&graph, 2), Err(missing));
}
