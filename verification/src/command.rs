//! The command lines that services are started with.

use shell_words::ParseError;
use vstd::prelude::*;

use crate::outside;
use crate::outside::split_error_text;
use crate::text;
use crate::text::{concat3, concat4};
use crate::types::{copy_strings, CommandSpec, CommandView, Graph, GraphView, ServiceSchema, ServiceView};

verus! {

/// A program and the arguments it is started with.
#[derive(Debug, PartialEq, Eq)]
pub struct CommandLine {
    pub program: String,
    pub arguments: Vec<String>,
}

/// What a [`CommandLine`] says.
pub struct CommandLineView {
    pub program: Seq<char>,
    pub arguments: Seq<Seq<char>>,
}

impl View for CommandLine {
    type V = CommandLineView;

    open spec fn view(&self) -> CommandLineView {
        CommandLineView { program: self.program@, arguments: text::texts(self.arguments@) }
    }
}

/// The command line, or the message of the reason why there is none.
pub open spec fn outcome(result: Result<CommandLine, String>) -> Result<
    CommandLineView,
    Seq<char>,
> {
    match result {
        Ok(line) => Ok(line@),
        Err(message) => Err(message@),
    }
}

/// The first word is the program, the others are its arguments; no words are an empty command.
pub open spec fn direct(words: Seq<Seq<char>>, service: Seq<char>) -> Result<
    CommandLineView,
    Seq<char>,
> {
    if words.len() == 0 {
        Err("service "@ + service + " has an empty command"@)
    } else {
        Ok(CommandLineView { program: words[0], arguments: words.drop_first() })
    }
}

/// The platform's shell, told to run `source`.
pub open spec fn through_shell(source: Seq<char>, windows: bool) -> CommandLineView {
    if windows {
        CommandLineView { program: "cmd.exe"@, arguments: seq!["/C"@, source] }
    } else {
        CommandLineView { program: "sh"@, arguments: seq!["-c"@, source] }
    }
}

/// The command of a service whose command string was split into `words`; `None` stands for a
/// string that cannot be split.
pub open spec fn from_words(words: Option<Seq<Seq<char>>>, service: Seq<char>) -> Result<
    CommandLineView,
    Seq<char>,
> {
    match words {
        Some(list) => direct(list, service),
        None => Err(
            "invalid command string for service "@ + service + ": "@ + "missing closing quote"@,
        ),
    }
}

/// The command that a service is started with.
pub open spec fn command_of(service: ServiceView, windows: bool) -> Result<
    CommandLineView,
    Seq<char>,
> {
    match service.command {
        CommandView::Line(source) => if service.run_as_shell {
            Ok(through_shell(source, windows))
        } else {
            from_words(outside::shell_split(source), service.name)
        },
        CommandView::Args(words) => if service.run_as_shell {
            Err("service "@ + service.name + " sets run-as-shell but command is not a string"@)
        } else {
            direct(words, service.name)
        },
    }
}

/// Start the first word as a program with the other words as its arguments.
///
/// # Errors
///
/// Returns a message when there are no words.
pub fn direct_command(arguments: &Vec<String>, service_name: &str) -> (result: Result<
    CommandLine,
    String,
>)
    ensures
        outcome(result) == direct(text::texts(arguments@), service_name@),
{
    if arguments.len() == 0 {
        return Err(concat3("service ", service_name, " has an empty command"));
    }
    let mut rest = copy_strings(arguments);
    let program = rest.remove(0);
    let line = CommandLine { program, arguments: rest };
    proof {
        assert(line@.arguments =~= text::texts(arguments@).drop_first());
        assert(line@.program == text::texts(arguments@)[0]);
    }
    Ok(line)
}

/// Run `source` through the platform's shell.
pub fn shell_command(source: &str, windows: bool) -> (line: CommandLine)
    ensures
        line@ == through_shell(source@, windows),
{
    let mut arguments: Vec<String> = Vec::new();
    if windows {
        arguments.push("/C".to_owned());
        arguments.push(source.to_owned());
        let line = CommandLine { program: "cmd.exe".to_owned(), arguments };
        assert(line@.arguments =~= seq!["/C"@, source@]);
        line
    } else {
        arguments.push("-c".to_owned());
        arguments.push(source.to_owned());
        let line = CommandLine { program: "sh".to_owned(), arguments };
        assert(line@.arguments =~= seq!["-c"@, source@]);
        line
    }
}

/// The command line of a service whose command string was split.
///
/// # Errors
///
/// Returns a message when the string could not be split or holds no words.
pub fn split_command(words: Result<Vec<String>, ParseError>, service_name: &str) -> (result:
    Result<CommandLine, String>)
    ensures
        outcome(result) == from_words(
            match words {
                Ok(list) => Some(text::texts(list@)),
                Err(_) => None,
            },
            service_name@,
        ),
{
    match words {
        Ok(list) => direct_command(&list, service_name),
        Err(error) => Err(
            concat4(
                "invalid command string for service ",
                service_name,
                ": ",
                split_error_text(&error).as_str(),
            ),
        ),
    }
}

/// The command line that a service is started with.
///
/// # Errors
///
/// Returns a message when the command is empty, cannot be split, or is a list that asks for a
/// shell.
pub fn service_command(service: &ServiceSchema, windows: bool) -> (result: Result<
    CommandLine,
    String,
>)
    ensures
        outcome(result) == command_of(service@, windows),
{
    match &service.command {
        CommandSpec::String(source) => if service.run_as_shell {
            Ok(shell_command(source.as_str(), windows))
        } else {
            split_command(shell_words::split(source.as_str()), service.name.as_str())
        },
        CommandSpec::Args(arguments) => if service.run_as_shell {
            Err(
                concat3(
                    "service ",
                    service.name.as_str(),
                    " sets run-as-shell but command is not a string",
                ),
            )
        } else {
            direct_command(arguments, service.name.as_str())
        },
    }
}

/// The command that node `index` is started with.
pub open spec fn node_command(g: GraphView, index: usize, windows: bool) -> Result<
    CommandLineView,
    Seq<char>,
> {
    if index < g.nodes.len() {
        command_of(g.nodes[index as int].service, windows)
    } else {
        Err("invalid graph node index"@)
    }
}

/// The command line that node `index` is started with.
///
/// # Errors
///
/// Returns a message when there is no such node, or when its service has no usable command.
pub fn spawn_command(graph: &Graph, index: usize, windows: bool) -> (result: Result<
    CommandLine,
    String,
>)
    ensures
        outcome(result) == node_command(graph@, index, windows),
{
    if index >= graph.nodes.len() {
        return Err("invalid graph node index".to_owned());
    }
    assert(graph@.nodes[index as int] == graph.nodes@[index as int]@);
    service_command(&graph.nodes[index].service, windows)
}

/// The message for a service whose process could not be started.
pub fn start_failure(service_name: &str, error: &str) -> (message: String)
    ensures
        message@ == "failed to start service "@ + service_name@ + ": "@ + error@,
{
    concat4("failed to start service ", service_name, ": ", error)
}

/// A service that passes validation and whose command holds a program has a command line.
pub proof fn lemma_valid_service_has_command(service: ServiceView, windows: bool)
    requires
        !crate::app::shell_mismatch(service),
        match service.command {
            CommandView::Line(source) => !service.run_as_shell ==> {
                &&& outside::shell_split(source) is Some
                &&& outside::shell_split(source)->0.len() > 0
            },
            CommandView::Args(words) => words.len() > 0,
        },
    ensures
        command_of(service, windows) is Ok,
{
}

} // verus!
