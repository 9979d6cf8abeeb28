//! What configurations, the graphs built from them and the commands of their services mean.

use vstd::prelude::*;
use vstd::seq_lib::*;

use crate::app;
use crate::command;
use crate::graph;
use crate::graph_laws;
use crate::outside;
use crate::types;
use crate::types::{
    CommandSpec, CommandView, Graph, GraphView, Node, ServiceSchema, ServiceView, State,
};

verus! {

/// `words` are the texts of `strings`, one for one.
pub open spec fn are_texts_of(words: Seq<Seq<char>>, strings: Seq<String>) -> bool {
    words.len() == strings.len() && forall|i: int|
        0 <= i < strings.len() ==> #[trigger] words[i] == strings[i]@
}

/// Two services are told apart by any difference in their fields: each field of a service can be
/// read off what the service is taken to say.
pub proof fn lemma_service_says_every_field(service: ServiceSchema)
    ensures
        service@.name == service.name@,
        service@.run_as_shell == service.run_as_shell,
        match service.command {
            CommandSpec::String(source) => service@.command == CommandView::Line(source@),
            CommandSpec::Args(list) => service@.command matches CommandView::Args(words)
                && are_texts_of(words, list@),
        },
        match service.color {
            Some(color) => service@.color == Some(color@),
            None => service@.color is None,
        },
        match service.dependencies {
            Some(list) => service@.dependencies matches Some(names) && are_texts_of(names, list@),
            None => service@.dependencies is None,
        },
        match service.watchlist {
            Some(list) => service@.watchlist matches Some(names) && are_texts_of(names, list@),
            None => service@.watchlist is None,
        },
{
}

/// A graph says every field of every node, and its lookup table.
pub proof fn lemma_graph_says_every_field(graph: Graph)
    ensures
        graph@.nodes.len() == graph.nodes@.len(),
        graph@.lookup == graph.lookup@,
        forall|i: int|
            0 <= i < graph.nodes@.len() ==> {
                let node: Node = graph.nodes@[i];
                &&& (#[trigger] graph@.nodes[i]).service == node.service@
                &&& graph@.nodes[i].deps == node.deps@
                &&& graph@.nodes[i].dependents == node.dependents@
                &&& graph@.nodes[i].state == node.state
            },
{
}

/// Every configured service becomes the node at its position, pending, with its name, command,
/// shell flag and color as configured. A list that the configuration gives is kept; one that it
/// leaves out is empty.
pub proof fn lemma_node_keeps_its_service(services: Seq<ServiceView>, i: int)
    requires
        0 <= i < services.len(),
    ensures
        graph::graph_of(services).nodes.len() == services.len(),
        graph::graph_of(services).nodes[i].state == State::Pending,
        ({
            let kept = graph::graph_of(services).nodes[i].service;
            &&& kept.name == services[i].name
            &&& kept.command == services[i].command
            &&& kept.run_as_shell == services[i].run_as_shell
            &&& kept.color == services[i].color
            &&& services[i].dependencies is Some ==> kept.dependencies == services[i].dependencies
            &&& services[i].watchlist is Some ==> kept.watchlist == services[i].watchlist
            &&& services[i].dependencies is None ==> (kept.dependencies matches Some(names)
                && names.len() == 0)
            &&& services[i].watchlist is None ==> (kept.watchlist matches Some(patterns)
                && patterns.len() == 0)
        }),
{
}

/// Filling in the missing lists of a service changes nothing that the service stands for, and
/// filling them in twice is filling them in once.
pub proof fn lemma_filling_in_lists_changes_nothing_else(service: ServiceView)
    ensures
        service.normalized().normalized() == service.normalized(),
        service.dependencies is Some && service.watchlist is Some ==> service.normalized()
            == service,
        service.normalized().dependencies is Some,
        service.normalized().watchlist is Some,
        service.normalized().name == service.name,
        service.normalized().command == service.command,
        service.normalized().run_as_shell == service.run_as_shell,
        service.normalized().color == service.color,
        service.dependencies is None ==> service.normalized().dependencies->0.len() == 0,
        service.watchlist is None ==> service.normalized().watchlist->0.len() == 0,
{
}

/// How many dependencies a service lists.
pub open spec fn listed(service: ServiceView) -> nat {
    match service.dependencies {
        Some(names) => names.len(),
        None => 0,
    }
}

/// A node's dependency links lead to the services whose names its configuration lists, one for one
/// and in the listed order.
pub proof fn lemma_links_follow_names(services: Seq<ServiceView>, i: int, k: int)
    requires
        graph::distinct_names(services),
        graph::all_dependencies_known(services),
        0 <= i < services.len() <= usize::MAX,
        0 <= k < listed(services[i]),
    ensures
        graph::graph_of(services).nodes[i].deps.len() == listed(services[i]),
        graph::graph_of(services).nodes[i].deps[k] < services.len(),
        services[graph::graph_of(services).nodes[i].deps[k] as int].name
            == services[i].dependencies->0[k],
{
    let name = services[i].dependency_names()[k];
    assert(graph::dependencies_known(services, i));
    assert(graph::is_known(services, name));
    let p = graph::position_of(services, name);
    assert(0 <= p < services.len() && services[p].name == name);
}

/// A node of a service without dependencies has no dependency links.
pub proof fn lemma_no_names_no_links(services: Seq<ServiceView>, i: int)
    requires
        0 <= i < services.len(),
        listed(services[i]) == 0,
    ensures
        graph::graph_of(services).nodes[i].deps.len() == 0,
{
}

/// Each link is seen from both ends equally often, and a node's dependents are in configuration
/// order.
pub proof fn lemma_links_have_two_ends(services: Seq<ServiceView>, d: usize, x: usize)
    requires
        graph::distinct_names(services),
        graph::all_dependencies_known(services),
        services.len() <= usize::MAX,
        d < services.len(),
        x < services.len(),
    ensures
        graph::occurrences(graph::graph_of(services).nodes[x as int].dependents, d)
            == graph::occurrences(graph::graph_of(services).nodes[d as int].deps, x),
        forall|a: int, b: int|
            0 <= a <= b < graph::graph_of(services).nodes[x as int].dependents.len() ==> (
            #[trigger] graph::graph_of(services).nodes[x as int].dependents[a]) <= (
            #[trigger] graph::graph_of(services).nodes[x as int].dependents[b]) < services.len(),
{
    graph_laws::lemma_graph_of_is_well_formed(services);
    lemma_dependents_ascend(graph::all_positions(services), services.len() as int, x);
}

/// The lookup table leads from the name of each service to its position, and knows no other names.
pub proof fn lemma_lookup_finds_services(services: Seq<ServiceView>, name: Seq<char>)
    requires
        graph::distinct_names(services),
        services.len() <= usize::MAX,
    ensures
        graph::graph_of(services).lookup.contains_key(name) <==> has_service(services, name),
        has_service(services, name) ==> {
            let i = graph::graph_of(services).lookup[name];
            i < services.len() && services[i as int].name == name
        },
{
    if has_service(services, name) {
        let k = choose|k: int| 0 <= k < services.len() && (#[trigger] services[k]).name == name;
        graph::lemma_position_of(services, k);
        assert(graph::is_known(services, name));
    }
}

proof fn lemma_dependents_ascend(deps: Seq<Seq<usize>>, k: int, d: usize)
    requires
        0 <= k <= deps.len(),
        deps.len() <= usize::MAX,
    ensures
        forall|a: int, b: int|
            0 <= a <= b < graph::dependents_within(deps, k, d).len() ==> (
            #[trigger] graph::dependents_within(deps, k, d)[a]) <= (
            #[trigger] graph::dependents_within(deps, k, d)[b]) < k,
    decreases k,
{
    if k > 0 {
        lemma_dependents_ascend(deps, k - 1, d);
        let s = graph::dependents_within(deps, k - 1, d);
        let t = graph::dependents_within(deps, k, d);
        assert forall|a: int, b: int| 0 <= a <= b < t.len() implies #[trigger] t[a]
            <= #[trigger] t[b] < k by {
            if b < s.len() {
                assert(s[a] <= s[b] < k - 1);
                assert(t[a] == s[a] && t[b] == s[b]);
            } else {
                assert(t[b] == (k - 1) as usize);
                if a < s.len() {
                    assert(s[a] <= s[a] < k - 1);
                    assert(t[a] == s[a]);
                } else {
                    assert(t[a] == (k - 1) as usize);
                }
            }
        }
    }
}

/// Some service has this name.
pub open spec fn has_service(services: Seq<ServiceView>, name: Seq<char>) -> bool {
    exists|k: int| 0 <= k < services.len() && (#[trigger] services[k]).name == name
}

/// Any two of the first `n` services have different names.
pub open spec fn names_differ(services: Seq<ServiceView>, n: int) -> bool {
    forall|a: int, b: int|
        0 <= a < b < n ==> (#[trigger] services[a]).name != (#[trigger] services[b]).name
}

/// Dependencies that are listed by the first `n` services name services.
pub open spec fn names_are_of_services(services: Seq<ServiceView>, n: int) -> bool {
    forall|i: int|
        0 <= i < n ==> ((#[trigger] services[i]).dependencies matches Some(names) ==> forall|j: int|
            0 <= j < names.len() ==> has_service(services, #[trigger] names[j]))
}

/// Of the first `n` services, those that ask for a shell have a command string.
pub open spec fn shells_get_strings(services: Seq<ServiceView>, n: int) -> bool {
    forall|i: int|
        0 <= i < n && (#[trigger] services[i]).run_as_shell ==> services[i].command is Line
}

/// A configuration has a graph exactly when no two services share a name and every listed
/// dependency names a service.
pub proof fn lemma_graph_exists_iff(services: Seq<ServiceView>)
    ensures
        graph::distinct_names(services) <==> names_differ(services, services.len() as int),
        graph::all_dependencies_known(services) <==> names_are_of_services(
            services,
            services.len() as int,
        ),
{
    let n = services.len() as int;
    if graph::distinct_names(services) {
        assert forall|a: int, b: int| 0 <= a < b < n implies (#[trigger] services[a]).name != (
        #[trigger] services[b]).name by {
            lemma_duplicate_iff(services, b);
            assert(!graph::is_duplicate(services, b));
        }
    }
    if names_differ(services, n) {
        assert forall|i: int| 0 <= i < n implies !#[trigger] graph::is_duplicate(services, i) by {
            lemma_duplicate_iff(services, i);
        }
    }
    if graph::all_dependencies_known(services) {
        assert forall|i: int| 0 <= i < n implies ((#[trigger] services[i]).dependencies matches Some(
            names,
        ) ==> forall|j: int| 0 <= j < names.len() ==> has_service(services, #[trigger] names[j])) by {
            assert(graph::dependencies_known(services, i));
            if let Some(names) = services[i].dependencies {
                assert forall|j: int| 0 <= j < names.len() implies has_service(
                    services,
                    #[trigger] names[j],
                ) by {
                    assert(graph::is_known(services, services[i].dependency_names()[j]));
                }
            }
        }
    }
    if names_are_of_services(services, n) {
        assert forall|i: int| 0 <= i < n implies #[trigger] graph::dependencies_known(
            services,
            i,
        ) by {
            assert(services[i].dependencies matches Some(names) ==> forall|j: int|
                0 <= j < names.len() ==> has_service(services, #[trigger] names[j]));
            assert forall|j: int|
                0 <= j < services[i].dependency_names().len() implies graph::is_known(
                services,
                #[trigger] services[i].dependency_names()[j],
            ) by {
                assert(has_service(services, services[i].dependencies->0[j]));
            }
        }
    }
}

/// A service is a duplicate exactly when an earlier one has its name.
pub proof fn lemma_duplicate_iff(services: Seq<ServiceView>, i: int)
    requires
        0 <= i < services.len(),
    ensures
        graph::is_duplicate(services, i) <==> exists|k: int|
            0 <= k < i && (#[trigger] services[k]).name == services[i].name,
{
    let earlier = services.take(i);
    if graph::is_duplicate(services, i) {
        let k = choose|k: int| 0 <= k < i && (#[trigger] earlier[k]).name == services[i].name;
        assert(services[k].name == services[i].name);
    }
    if exists|k: int| 0 <= k < i && (#[trigger] services[k]).name == services[i].name {
        let k = choose|k: int| 0 <= k < i && (#[trigger] services[k]).name == services[i].name;
        assert(earlier[k].name == services[i].name);
    }
}

/// A configuration is accepted exactly when no two services share a name, every service that asks
/// for a shell has a command string, and every listed dependency names a service.
pub proof fn lemma_configuration_accepted_iff(services: Seq<ServiceView>)
    ensures
        app::valid_schema(services) <==> {
            &&& names_differ(services, services.len() as int)
            &&& shells_get_strings(services, services.len() as int)
            &&& names_are_of_services(services, services.len() as int)
        },
{
    lemma_sound_before_iff(services, services.len() as int);
    lemma_graph_exists_iff(services);
}

/// Without shell flags, only names matter: whatever the commands are, a configuration with distinct
/// names and known dependencies is accepted.
pub proof fn lemma_commands_do_not_matter_without_shell_flags(services: Seq<ServiceView>)
    requires
        forall|i: int| 0 <= i < services.len() ==> !(#[trigger] services[i]).run_as_shell,
        names_differ(services, services.len() as int),
        names_are_of_services(services, services.len() as int),
    ensures
        app::valid_schema(services),
{
    lemma_configuration_accepted_iff(services);
}

/// Only names, dependencies and the commands of services with the shell flag count: what is
/// accepted stays accepted when shell flags are taken away and when anything else changes.
pub proof fn lemma_acceptance_depends_on(
    services: Seq<ServiceView>,
    others: Seq<ServiceView>,
)
    requires
        app::valid_schema(services),
        others.len() == services.len(),
        forall|i: int|
            0 <= i < services.len() ==> (#[trigger] others[i]).name == services[i].name
                && others[i].dependencies == services[i].dependencies && (others[i].run_as_shell
                ==> services[i].run_as_shell && others[i].command == services[i].command),
    ensures
        app::valid_schema(others),
{
    lemma_configuration_accepted_iff(services);
    lemma_configuration_accepted_iff(others);
    let n = services.len() as int;
    assert forall|a: int, b: int| 0 <= a < b < n implies (#[trigger] others[a]).name != (
    #[trigger] others[b]).name by {
        assert(services[a].name != services[b].name);
    }
    assert forall|i: int| 0 <= i < n && (#[trigger] others[i]).run_as_shell implies others[i].command is Line by {
        assert(services[i].run_as_shell);
    }
    assert forall|i: int| 0 <= i < n implies ((#[trigger] others[i]).dependencies matches Some(
        names,
    ) ==> forall|j: int| 0 <= j < names.len() ==> has_service(others, #[trigger] names[j])) by {
        if let Some(names) = others[i].dependencies {
            assert(services[i].dependencies == Some(names));
            assert forall|j: int| 0 <= j < names.len() implies has_service(
                others,
                #[trigger] names[j],
            ) by {
                assert(has_service(services, names[j]));
                let k = choose|k: int| 0 <= k < n && (#[trigger] services[k]).name == names[j];
                assert(others[k].name == names[j]);
            }
        }
    }
}

/// The services before `i` are in order exactly when their names differ and those that ask for a
/// shell have a command string.
pub proof fn lemma_sound_before_iff(services: Seq<ServiceView>, i: int)
    requires
        0 <= i <= services.len(),
    ensures
        app::sound_before(services, i) <==> names_differ(services, i) && shells_get_strings(
            services,
            i,
        ),
{
    if app::sound_before(services, i) {
        assert forall|a: int, b: int| 0 <= a < b < i implies (#[trigger] services[a]).name != (
        #[trigger] services[b]).name by {
            lemma_duplicate_iff(services, b);
            assert(!app::shell_mismatch(services[b]));
        }
        assert forall|k: int| 0 <= k < i && (#[trigger] services[k]).run_as_shell implies services[k].command is Line by {
            assert(!app::shell_mismatch(services[k]));
        }
    }
    if names_differ(services, i) && shells_get_strings(services, i) {
        assert forall|k: int| 0 <= k < i implies !graph::is_duplicate(services, k)
            && !app::shell_mismatch(#[trigger] services[k]) by {
            lemma_duplicate_iff(services, k);
        }
    }
}

/// A service has a shell flaw exactly when it asks for a shell and its command is a list; what
/// else it says does not matter.
pub proof fn lemma_shell_flaw_iff(service: ServiceView)
    ensures
        !service.run_as_shell ==> !app::shell_mismatch(service),
        service.command is Line ==> !app::shell_mismatch(service),
        service.run_as_shell && service.command is Args ==> app::shell_mismatch(service),
{
}

/// The complaint about a service names it; a name that was seen before comes before the shell mode.
pub proof fn lemma_complaint_names_the_service(services: Seq<ServiceView>, i: int, k: int)
    requires
        0 <= i < services.len(),
    ensures
        0 <= k < i && services[k].name == services[i].name ==> app::service_message(services, i)
            == "Duplicate service name: "@ + services[i].name,
        names_differ(services, i + 1) ==> app::service_message(services, i) == "Service "@
            + services[i].name + " sets run-as-shell but command is not a string"@,
{
    lemma_duplicate_iff(services, i);
}

/// The duplicate that is complained about is the first: the names before it differ.
pub proof fn lemma_first_duplicate_iff(services: Seq<ServiceView>, i: int)
    requires
        0 <= i < services.len(),
    ensures
        graph::first_duplicate(services, i) <==> names_differ(services, i) && exists|k: int|
            0 <= k < i && (#[trigger] services[k]).name == services[i].name,
{
    let earlier = services.take(i);
    lemma_duplicate_iff(services, i);
    lemma_graph_exists_iff(earlier);
    if names_differ(services, i) {
        assert forall|a: int, b: int| 0 <= a < b < i implies (#[trigger] earlier[a]).name != (
        #[trigger] earlier[b]).name by {
            assert(services[a].name != services[b].name);
        }
    }
    if names_differ(earlier, i) {
        assert forall|a: int, b: int| 0 <= a < b < i implies (#[trigger] services[a]).name != (
        #[trigger] services[b]).name by {
            assert(earlier[a].name != earlier[b].name);
        }
    }
}

/// The unknown dependency that is complained about is the first: of a service before which all
/// dependencies are known, and before which that service lists only names of services.
pub proof fn lemma_first_unknown_iff(services: Seq<ServiceView>, i: int, j: int)
    requires
        0 <= i < services.len(),
        services[i].dependencies is Some,
        0 <= j < services[i].dependencies->0.len(),
    ensures
        graph::first_unknown(services, i, j) <==> {
            &&& !has_service(services, services[i].dependencies->0[j])
            &&& names_are_of_services(services, i)
            &&& forall|k: int|
                0 <= k < j ==> has_service(services, #[trigger] services[i].dependencies->0[k])
        },
{
    let listed = services[i].dependencies->0;
    assert(listed == services[i].dependency_names());
    if graph::first_unknown(services, i, j) {
        assert forall|a: int| 0 <= a < i implies ((#[trigger] services[a]).dependencies matches Some(
            names,
        ) ==> forall|b: int| 0 <= b < names.len() ==> has_service(services, #[trigger] names[b])) by {
            assert(graph::dependencies_known(services, a));
            if let Some(names) = services[a].dependencies {
                assert forall|b: int| 0 <= b < names.len() implies has_service(
                    services,
                    #[trigger] names[b],
                ) by {
                    assert(graph::is_known(services, services[a].dependency_names()[b]));
                }
            }
        }
        assert forall|k: int| 0 <= k < j implies has_service(services, #[trigger] listed[k]) by {
            assert(graph::is_known(services, services[i].dependency_names()[k]));
        }
    }
    if !has_service(services, listed[j]) && names_are_of_services(services, i) && (forall|k: int|
        0 <= k < j ==> has_service(services, #[trigger] listed[k])) {
        assert forall|a: int| 0 <= a < i implies #[trigger] graph::dependencies_known(
            services,
            a,
        ) by {
            assert forall|b: int|
                0 <= b < services[a].dependency_names().len() implies graph::is_known(
                services,
                #[trigger] services[a].dependency_names()[b],
            ) by {
                assert(services[a].dependencies is Some);
                assert(has_service(services, services[a].dependencies->0[b]));
            }
        }
        assert forall|k: int| 0 <= k < j implies graph::is_known(
            services,
            #[trigger] services[i].dependency_names()[k],
        ) by {
            assert(has_service(services, listed[k]));
        }
        assert(!graph::is_known(services, services[i].dependency_names()[j]));
    }
}

/// A program with its arguments is the list of words that it was made of.
pub open spec fn spells(line: command::CommandLineView, words: Seq<Seq<char>>) -> bool {
    seq![line.program] + line.arguments == words
}

/// A command that is a list of words is run as these words, without a shell. An empty list, and a
/// list together with the shell flag, are refused with the name of the service.
pub proof fn lemma_list_is_run_as_it_is(service: ServiceView, words: Seq<Seq<char>>, windows: bool)
    requires
        service.command == CommandView::Args(words),
    ensures
        !service.run_as_shell && words.len() > 0 ==> (command::command_of(service, windows) matches Ok(
            line,
        ) && spells(line, words)),
        !service.run_as_shell && words.len() == 0 ==> command::command_of(service, windows) == Err::<
            command::CommandLineView,
            Seq<char>,
        >("service "@ + service.name + " has an empty command"@),
        service.run_as_shell ==> command::command_of(service, windows) == Err::<
            command::CommandLineView,
            Seq<char>,
        >("service "@ + service.name + " sets run-as-shell but command is not a string"@),
{
    if words.len() > 0 {
        assert(seq![words[0]] + words.drop_first() =~= words);
    }
}

/// A command string with the shell flag is handed to the platform's shell unchanged, as one word
/// after the option that makes the shell run it.
pub proof fn lemma_shell_gets_the_string(service: ServiceView, source: Seq<char>, windows: bool)
    requires
        service.command == CommandView::Line(source),
        service.run_as_shell,
    ensures
        command::command_of(service, windows) matches Ok(line) && spells(
            line,
            if windows {
                seq!["cmd.exe"@, "/C"@, source]
            } else {
                seq!["sh"@, "-c"@, source]
            },
        ),
{
    let line = command::command_of(service, windows)->Ok_0;
    assert(seq![line.program] + line.arguments =~= if windows {
        seq!["cmd.exe"@, "/C"@, source]
    } else {
        seq!["sh"@, "-c"@, source]
    });
}

/// A command string without the shell flag is run as the words that it splits into.
pub proof fn lemma_string_is_run_as_its_words(
    service: ServiceView,
    source: Seq<char>,
    windows: bool,
)
    requires
        service.command == CommandView::Line(source),
        !service.run_as_shell,
    ensures
        match outside::shell_split(source) {
            Some(words) => if words.len() > 0 {
                command::command_of(service, windows) matches Ok(line) && spells(line, words)
            } else {
                command::command_of(service, windows) == Err::<
                    command::CommandLineView,
                    Seq<char>,
                >("service "@ + service.name + " has an empty command"@)
            },
            None => command::command_of(service, windows) == Err::<
                command::CommandLineView,
                Seq<char>,
            >(
                "invalid command string for service "@ + service.name + ": "@
                    + "missing closing quote"@,
            ),
        },
{
    if let Some(words) = outside::shell_split(source) {
        if words.len() > 0 {
            assert(seq![words[0]] + words.drop_first() =~= words);
        }
    }
}

/// What a node is started with is the command of that very node's service. Nothing else in the
/// graph matters: not the other nodes, nor the links and the state of this one.
pub proof fn lemma_node_is_started_with_its_own_command(
    g: GraphView,
    h: GraphView,
    index: usize,
    windows: bool,
)
    requires
        index < g.nodes.len(),
        index < h.nodes.len(),
        g.nodes[index as int].service == h.nodes[index as int].service,
    ensures
        command::node_command(g, index, windows) == command::command_of(
            g.nodes[index as int].service,
            windows,
        ),
        command::node_command(g, index, windows) == command::node_command(h, index, windows),
{
}

/// A configured service whose command is a list of words is started with exactly these words,
/// wherever in the configuration it stands.
pub proof fn lemma_configured_words_are_started(
    services: Seq<ServiceView>,
    index: usize,
    words: Seq<Seq<char>>,
    windows: bool,
)
    requires
        index < services.len(),
        services[index as int].command == CommandView::Args(words),
        !services[index as int].run_as_shell,
        words.len() > 0,
    ensures
        command::node_command(graph::graph_of(services), index, windows) matches Ok(line) && spells(
            line,
            words,
        ),
{
    let service = graph::graph_of(services).nodes[index as int].service;
    lemma_node_keeps_its_service(services, index as int);
    lemma_list_is_run_as_it_is(service, words, windows);
}

/// A configured service with the shell flag is started by the shell with exactly the configured
/// string, wherever in the configuration it stands.
pub proof fn lemma_configured_string_reaches_the_shell(
    services: Seq<ServiceView>,
    index: usize,
    source: Seq<char>,
    windows: bool,
)
    requires
        index < services.len(),
        services[index as int].command == CommandView::Line(source),
        services[index as int].run_as_shell,
    ensures
        command::node_command(graph::graph_of(services), index, windows) matches Ok(line) && spells(
            line,
            if windows {
                seq!["cmd.exe"@, "/C"@, source]
            } else {
                seq!["sh"@, "-c"@, source]
            },
        ),
{
    let service = graph::graph_of(services).nodes[index as int].service;
    lemma_node_keeps_its_service(services, index as int);
    lemma_shell_gets_the_string(service, source, windows);
}

/// How often a position occurs in a list is how many entries of the list it equals.
pub proof fn lemma_occurrences_count_entries(list: Seq<usize>, x: usize)
    ensures
        graph::occurrences(list, x) == list.to_multiset().count(x),
    decreases list.len(),
{
    list.to_multiset_ensures();
    if list.len() > 0 {
        let shorter = list.drop_last();
        lemma_occurrences_count_entries(shorter, x);
        shorter.to_multiset_ensures();
        assert(shorter.push(list.last()) =~= list);
        assert(shorter.push(list.last()).to_multiset() =~= shorter.to_multiset().insert(
            list.last(),
        ));
    } else {
        assert(list.to_multiset().len() == 0);
        assert(list.to_multiset().count(x) == 0) by {
            if list.to_multiset().count(x) > 0 {
                assert(list.to_multiset().contains(x));
                assert(list.contains(x));
            }
        }
    }
}

/// A list of services says each of them at its place.
pub proof fn lemma_services_say_each(services: Seq<ServiceSchema>, i: int)
    requires
        0 <= i < services.len(),
    ensures
        types::service_views(services).len() == services.len(),
        types::service_views(services)[i] == services[i]@,
{
}

/// A command line says its program and all its arguments, and an error its message.
pub proof fn lemma_command_line_says_all(result: Result<command::CommandLine, String>)
    ensures
        match result {
            Ok(line) => command::outcome(result) matches Ok(said) && said.program == line.program@
                && are_texts_of(said.arguments, line.arguments@),
            Err(message) => command::outcome(result) == Err::<command::CommandLineView, Seq<char>>(
                message@,
            ),
        },
{
}

/// The empty graph has no nodes and knows no names.
pub proof fn lemma_empty_graph_is_empty()
    ensures
        graph::empty_graph().nodes.len() == 0,
        forall|name: Seq<char>| !#[trigger] graph::empty_graph().lookup.contains_key(name),
{
}

/// The complaint about an unknown dependency begins as given and names the service, then the
/// dependency.
pub proof fn lemma_unknown_dependency_is_named(
    beginning: Seq<char>,
    service: Seq<char>,
    dependency: Seq<char>,
)
    ensures
        ({
            let message = graph::unknown_dependency_message(beginning, service, dependency);
            let a = beginning.len() as int;
            let b = a + service.len();
            &&& message.len() == b + 2 + dependency.len()
            &&& message.subrange(0, a) == beginning
            &&& message.subrange(a, b) == service
            &&& message.subrange(b, b + 2) == ": "@
            &&& message.subrange(b + 2, message.len() as int) == dependency
        }),
{
    reveal_strlit(": ");
    let message = graph::unknown_dependency_message(beginning, service, dependency);
    let a = beginning.len() as int;
    let b = a + service.len();
    assert(message.subrange(0, a) =~= beginning);
    assert(message.subrange(a, b) =~= service);
    assert(message.subrange(b, b + 2) =~= ": "@);
    assert(message.subrange(b + 2, message.len() as int) =~= dependency);
}

/// A node depends on another exactly when that one is among its dependency links.
pub proof fn lemma_depends_on_follows_links(g: GraphView, d: usize, x: usize)
    ensures
        graph_laws::depends_on(g, d, x) <==> d < g.nodes.len() && exists|k: int|
            0 <= k < g.nodes[d as int].deps.len() && #[trigger] g.nodes[d as int].deps[k] == x,
{
}

/// A position without a node has no command.
pub proof fn lemma_no_node_no_command(g: GraphView, index: usize, windows: bool)
    requires
        index >= g.nodes.len(),
    ensures
        command::node_command(g, index, windows) == Err::<command::CommandLineView, Seq<char>>(
            "invalid graph node index"@,
        ),
{
}

} // verus!
