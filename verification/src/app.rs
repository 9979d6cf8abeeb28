//! Service configuration loading and validation.

use serde_yaml::Value;
use vstd::hash_set::StringHashSet;
use vstd::prelude::*;

use crate::graph;
use crate::outside;
use crate::outside::{yaml_error_text, yaml_from_str, yaml_into_sequence};
use crate::text::{concat2, concat3, concat4};
use crate::types;
use crate::types::{CommandSpec, ServiceSchema, ServiceView};

verus! {

/// The service asks for a shell but its command is not a string.
pub open spec fn shell_mismatch(service: ServiceView) -> bool {
    service.run_as_shell && !(service.command is Line)
}

/// The first services, up to and without service `i`, have distinct names and fitting shell modes.
pub open spec fn sound_before(services: Seq<ServiceView>, i: int) -> bool {
    forall|k: int|
        0 <= k < i ==> !graph::is_duplicate(services, k) && !shell_mismatch(#[trigger] services[k])
}

/// Names are distinct, shell modes fit the commands, and dependencies name services.
pub open spec fn valid_schema(services: Seq<ServiceView>) -> bool {
    &&& sound_before(services, services.len() as int)
    &&& graph::all_dependencies_known(services)
}

/// The message for the first service that has a duplicate name or a shell mode that does not fit.
pub open spec fn service_message(services: Seq<ServiceView>, i: int) -> Seq<char> {
    if graph::is_duplicate(services, i) {
        "Duplicate service name: "@ + services[i].name
    } else {
        "Service "@ + services[i].name + " sets run-as-shell but command is not a string"@
    }
}

/// A valid configuration has a dependency graph.
pub proof fn lemma_valid_schema_has_graph(services: Seq<ServiceView>)
    requires
        valid_schema(services),
    ensures
        graph::distinct_names(services),
        graph::all_dependencies_known(services),
{
    assert forall|i: int| 0 <= i < services.len() implies !#[trigger] graph::is_duplicate(
        services,
        i,
    ) by {
        assert(!shell_mismatch(services[i]));
    }
}

/// The entries of a configuration file, each still to be read as a service.
///
/// `contents` is the text of the file, or the message of the error that reading it gave.
///
/// # Errors
///
/// Returns a message when the file could not be read, when the contents are not
/// valid YAML, or when the top level value is not a list.
pub fn parse_service_entries(contents: Result<String, String>) -> (result: Result<
    Vec<Value>,
    String,
>)
    ensures
        match contents {
            Err(message) => result matches Err(e) && e@ == message@,
            Ok(text) => match outside::yaml_document(text@) {
                Err(error) => result matches Err(e) && e@ == outside::yaml_error_message(error),
                Ok(value) => match outside::yaml_items(value) {
                    Some(items) => result matches Ok(list) && list@ == items,
                    None => result matches Err(e) && e@ == "Expected a list of services"@,
                },
            },
        },
{
    let text = match contents {
        Ok(text) => text,
        Err(message) => {
            return Err(message);
        },
    };
    match yaml_from_str(text.as_str()) {
        Ok(value) => list_of_services(yaml_into_sequence(value)),
        Err(error) => Err(yaml_error_text(&error)),
    }
}

/// The items of the top level list.
///
/// # Errors
///
/// Returns a message when the top level value is not a list.
pub fn list_of_services(items: Option<Vec<Value>>) -> (result: Result<Vec<Value>, String>)
    ensures
        match items {
            Some(list) => result == Ok::<Vec<Value>, String>(list),
            None => result matches Err(e) && e@ == "Expected a list of services"@,
        },
{
    match items {
        Some(list) => Ok(list),
        None => Err("Expected a list of services".to_owned()),
    }
}

/// Collect the services that the entries were read as.
///
/// # Errors
///
/// Returns the message of the first entry that is not a valid service schema.
pub fn parse_service_schema_internal(entries: Vec<Result<ServiceSchema, String>>) -> (result:
    Result<Vec<ServiceSchema>, String>)
    ensures
        match result {
            Ok(services) => {
                &&& services@.len() == entries@.len()
                &&& forall|i: int|
                    0 <= i < entries@.len() ==> #[trigger] entries@[i] == Ok::<
                        ServiceSchema,
                        String,
                    >(services@[i])
            },
            Err(message) => exists|i: int|
                0 <= i < entries@.len() && #[trigger] entries@[i] == Err::<ServiceSchema, String>(
                    message,
                ) && forall|k: int| 0 <= k < i ==> #[trigger] entries@[k] is Ok,
        },
{
    let ghost all = entries@;
    let mut services: Vec<ServiceSchema> = Vec::new();
    for entry in it: entries
        invariant
            it.seq() == all,
            services@.len() == it.index(),
            forall|k: int|
                0 <= k < it.index() ==> #[trigger] all[k] == Ok::<ServiceSchema, String>(
                    services@[k],
                ),
    {
        match entry {
            Ok(service) => {
                services.push(service);
            },
            Err(message) => {
                assert(all[it.index() as int] == Err::<ServiceSchema, String>(message));
                return Err(message);
            },
        }
    }
    Ok(services)
}

/// Check service names, command modes, and dependency references.
///
/// # Errors
///
/// Returns a message for the first duplicate name, invalid shell mode, or unknown dependency.
pub fn validate_service_schema(services: &[ServiceSchema]) -> (result: Result<(), String>)
    ensures
        result is Ok <==> valid_schema(types::service_views(services@)),
        result matches Err(message) ==> {
            ||| exists|i: int|
                0 <= i < services@.len() && #[trigger] sound_before(
                    types::service_views(services@),
                    i,
                ) && (graph::is_duplicate(types::service_views(services@), i) || shell_mismatch(
                    services@[i]@,
                )) && message@ == service_message(types::service_views(services@), i)
            ||| sound_before(types::service_views(services@), services@.len() as int) && exists|
                i: int,
                j: int,
            | #[trigger]
                graph::first_unknown(types::service_views(services@), i, j) && message@
                    == graph::unknown_dependency_message(
                    "Unknown dependency for service "@,
                    services@[i]@.name,
                    services@[i]@.dependency_names()[j],
                )
        },
{
    let ghost views = types::service_views(services@);
    let mut seen = StringHashSet::new();
    let mut i: usize = 0;
    while i < services.len()
        invariant
            views == types::service_views(services@),
            i <= services@.len(),
            sound_before(views, i as int),
            forall|name: Seq<char>| #[trigger]
                seen@.contains(name) <==> graph::is_known(views.take(i as int), name),
        decreases services@.len() - i,
    {
        let service = &services[i];
        assert(views[i as int] == service@);
        let is_new = seen.insert(service.name.clone());
        assert(is_new == !graph::is_duplicate(views, i as int));
        if !is_new {
            return Err(concat2("Duplicate service name: ", service.name.as_str()));
        }
        let is_line = match &service.command {
            CommandSpec::String(_) => true,
            CommandSpec::Args(_) => false,
        };
        if service.run_as_shell && !is_line {
            return Err(
                concat3(
                    "Service ",
                    service.name.as_str(),
                    " sets run-as-shell but command is not a string",
                ),
            );
        }
        proof {
            let next = views.take(i + 1);
            assert forall|name: Seq<char>| #[trigger]
                seen@.contains(name) <==> graph::is_known(next, name) by {
                if graph::is_known(views.take(i as int), name) {
                    let k = choose|k: int|
                        0 <= k < i && (#[trigger] views.take(i as int)[k]).name == name;
                    assert(next[k].name == name);
                }
                if name == service.name@ {
                    assert(next[i as int].name == name);
                }
                if graph::is_known(next, name) && name != service.name@ {
                    let k = choose|k: int| 0 <= k < i + 1 && (#[trigger] next[k]).name == name;
                    assert(views.take(i as int)[k].name == name);
                }
            }
        }
        i = i + 1;
    }
    assert(views.take(views.len() as int) =~= views);
    let mut i: usize = 0;
    while i < services.len()
        invariant
            views == types::service_views(services@),
            i <= services@.len(),
            sound_before(views, views.len() as int),
            forall|name: Seq<char>| #[trigger]
                seen@.contains(name) <==> graph::is_known(views, name),
            forall|k: int| 0 <= k < i ==> #[trigger] graph::dependencies_known(views, k),
        decreases services@.len() - i,
    {
        let service = &services[i];
        assert(views[i as int] == service@);
        if let Some(names) = &service.dependencies {
            let ghost wanted = service@.dependency_names();
            let mut j: usize = 0;
            while j < names.len()
                invariant
                    views == types::service_views(services@),
                    i < services@.len(),
                    views[i as int] == service@,
                    *service == services@[i as int],
                    sound_before(views, views.len() as int),
                    forall|name: Seq<char>| #[trigger]
                        seen@.contains(name) <==> graph::is_known(views, name),
                    forall|k: int| 0 <= k < i ==> #[trigger] graph::dependencies_known(views, k),
                    wanted == service@.dependency_names(),
                    wanted == crate::text::texts(names@),
                    j <= names@.len(),
                    forall|k: int| 0 <= k < j ==> graph::is_known(views, #[trigger] wanted[k]),
                decreases names@.len() - j,
            {
                assert(wanted[j as int] == names@[j as int]@);
                if !seen.contains(names[j].as_str()) {
                    proof {
                        assert(graph::first_unknown(views, i as int, j as int));
                        assert(!graph::dependencies_known(views, i as int));
                    }
                    return Err(
                        concat4(
                            "Unknown dependency for service ",
                            service.name.as_str(),
                            ": ",
                            names[j].as_str(),
                        ),
                    );
                }
                j = j + 1;
            }
            assert(wanted.len() == names@.len());
        }
        assert(graph::dependencies_known(views, i as int));
        i = i + 1;
    }
    Ok(())
}

} // verus!
