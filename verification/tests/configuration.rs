use butler::app::{
    list_of_services, parse_service_entries, parse_service_schema_internal, validate_service_schema,
};
use butler::command::{
    direct_command, service_command, shell_command, spawn_command, split_command, start_failure,
    CommandLine,
};
use butler::graph::generate_graph;
use butler::types::{CommandSpec, ServiceSchema, State, Version};

fn service(name: &str, dependencies: &[&str]) -> ServiceSchema {
    ServiceSchema {
        name: name.to_owned(),
        command: CommandSpec::Args(vec!["dummy".to_owned()]),
        run_as_shell: false,
        color: None,
        dependencies: Some(dependencies.iter().map(|name| (*name).to_owned()).collect()),
        watchlist: None,
    }
}

fn line(program: &str, arguments: &[&str]) -> CommandLine {
    CommandLine {
        program: program.to_owned(),
        arguments: arguments.iter().map(|word| (*word).to_owned()).collect(),
    }
}

#[test]
fn yaml_list_is_split_into_entries() {
    let entries = parse_service_entries(Ok("- name: a\n- name: b\n- 3\n".to_owned())).unwrap();
    assert_eq!(entries.len(), 3);
    assert_eq!(entries[0].get("name").and_then(|v| v.as_str()), Some("a"));
    assert_eq!(entries[1].get("name").and_then(|v| v.as_str()), Some("b"));
    assert_eq!(entries[2].as_u64(), Some(3));
}

#[test]
fn yaml_other_than_a_list_is_refused() {
    let expected = Err("Expected a list of services".to_owned());
    let texts = ["name: a\n", "3", "text", "", "true", "!tagged [1]"];
    for text in texts {
        assert_eq!(parse_service_entries(Ok(text.to_owned())), expected);
    }
    assert_eq!(list_of_services(None), expected);
    assert_eq!(list_of_services(Some(Vec::new())), Ok(Vec::new()));
}

#[test]
fn invalid_yaml_and_unread_files_give_their_message() {
    let direct = serde_yaml::from_str::<serde_yaml::Value>("[1, 2").unwrap_err();
    assert_eq!(
        parse_service_entries(Ok("[1, 2".to_owned())),
        Err(direct.to_string())
    );
    assert_eq!(
        parse_service_entries(Err("No such file or directory (os error 2)".to_owned())),
        Err("No such file or directory (os error 2)".to_owned())
    );
}

#[test]
fn entries_are_collected_up_to_the_first_bad_one() {
    let good = vec![Ok(service("a", &[])), Ok(service("b", &["a"]))];
    assert_eq!(
        parse_service_schema_internal(good),
        Ok(vec![service("a", &[]), service("b", &["a"])])
    );
    let bad = vec![
        Ok(service("a", &[])),
        Err("first".to_owned()),
        Err("second".to_owned()),
    ];
    assert_eq!(parse_service_schema_internal(bad), Err("first".to_owned()));
    assert_eq!(parse_service_schema_internal(Vec::new()), Ok(Vec::new()));
}

#[test]
fn sound_configurations_are_accepted() {
    let services = [service("a", &["b"]), service("b", &[]), service("c", &["a", "b"])];
    assert_eq!(validate_service_schema(&services), Ok(()));
    assert!(generate_graph(&services).is_ok());
    assert_eq!(validate_service_schema(&[]), Ok(()));
    let mut shell = service("shell", &[]);
    shell.command = CommandSpec::String("echo hello".to_owned());
    shell.run_as_shell = true;
    shell.dependencies = None;
    assert_eq!(validate_service_schema(&[shell]), Ok(()));
}

#[test]
fn duplicate_names_are_refused() {
    let services = [service("a", &[]), service("b", &[]), service("a", &["nowhere"])];
    assert_eq!(
        validate_service_schema(&services),
        Err("Duplicate service name: a".to_owned())
    );
    assert_eq!(
        generate_graph(&services).err(),
        Some("duplicate service: a".to_owned())
    );
}

#[test]
fn unknown_dependencies_are_refused() {
    let services = [service("a", &["b", "x", "y"]), service("b", &["z"])];
    assert_eq!(
        validate_service_schema(&services),
        Err("Unknown dependency for service a: x".to_owned())
    );
    assert_eq!(
        generate_graph(&services).err(),
        Some("unknown dependency for service a: x".to_owned())
    );
}

#[test]
fn shell_flag_needs_a_command_string() {
    let mut sequence = service("argv", &[]);
    sequence.command = CommandSpec::Args(vec!["echo".to_owned(), "hello".to_owned()]);
    sequence.run_as_shell = true;
    assert_eq!(
        validate_service_schema(&[sequence]),
        Err("Service argv sets run-as-shell but command is not a string".to_owned())
    );
}

#[test]
fn a_bad_shell_flag_comes_before_unknown_dependencies() {
    let mut late = service("late", &[]);
    late.run_as_shell = true;
    let services = [service("early", &["nowhere"]), late];
    assert_eq!(
        validate_service_schema(&services),
        Err("Service late sets run-as-shell but command is not a string".to_owned())
    );
}

#[test]
fn commands_are_split_like_a_shell_does() {
    let mut scalar = service("scalar", &[]);
    scalar.command = CommandSpec::String("echo 'hello world' \"a b\" c\\ d".to_owned());
    assert_eq!(
        service_command(&scalar, false),
        Ok(line("echo", &["hello world", "a b", "c d"]))
    );
    assert_eq!(
        service_command(&scalar, true),
        Ok(line("echo", &["hello world", "a b", "c d"]))
    );
}

#[test]
fn an_open_quote_is_refused() {
    let mut open = service("open", &[]);
    open.command = CommandSpec::String("echo 'hello".to_owned());
    assert_eq!(
        service_command(&open, false),
        Err("invalid command string for service open: missing closing quote".to_owned())
    );
    assert_eq!(
        split_command(shell_words::split("\""), "s"),
        Err("invalid command string for service s: missing closing quote".to_owned())
    );
}

#[test]
fn an_empty_command_is_refused() {
    let mut blank = service("blank", &[]);
    let expected = Err("service blank has an empty command".to_owned());
    blank.command = CommandSpec::String("  ".to_owned());
    assert_eq!(service_command(&blank, false), expected);
    blank.command = CommandSpec::Args(Vec::new());
    assert_eq!(service_command(&blank, false), expected);
    assert_eq!(direct_command(&Vec::new(), "blank"), expected);
}

#[test]
fn the_shell_runs_the_text_as_it_is() {
    assert_eq!(shell_command("a | b", false), line("sh", &["-c", "a | b"]));
    assert_eq!(shell_command("a | b", true), line("cmd.exe", &["/C", "a | b"]));
    let mut shell = service("shell", &[]);
    shell.command = CommandSpec::String("echo 'hello".to_owned());
    shell.run_as_shell = true;
    assert_eq!(service_command(&shell, false), Ok(line("sh", &["-c", "echo 'hello"])));
}

#[test]
fn a_list_of_arguments_is_run_directly() {
    let mut argv = service("argv", &[]);
    argv.command = CommandSpec::Args(vec!["echo".to_owned(), "a b".to_owned()]);
    assert_eq!(service_command(&argv, false), Ok(line("echo", &["a b"])));
    argv.run_as_shell = true;
    assert_eq!(
        service_command(&argv, false),
        Err("service argv sets run-as-shell but command is not a string".to_owned())
    );
}

#[test]
fn the_command_of_a_node_is_that_of_its_service() {
    let graph = generate_graph(&[service("a", &[])]).ok().unwrap();
    assert_eq!(spawn_command(&graph, 0, false), Ok(line("dummy", &[])));
    assert_eq!(
        spawn_command(&graph, 1, false),
        Err("invalid graph node index".to_owned())
    );
    assert_eq!(
        start_failure("a", "not found"),
        "failed to start service a: not found"
    );
}

#[test]
fn versions_are_written_with_dots() {
    let version = Version { major: 0, minor: 1, patch: 0 };
    assert_eq!(version.to_string(), "0.1.0");
    let large = Version { major: 10, minor: 4294967295, patch: 7 };
    assert_eq!(large.to_string(), "10.4294967295.7");
    assert_eq!(State::default(), State::Pending);
}
