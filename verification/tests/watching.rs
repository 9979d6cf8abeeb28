use std::collections::HashSet;
use std::path::PathBuf;

use butler::graph::generate_graph;
use butler::types::{CommandSpec, Graph, ServiceSchema};
use butler::watch::{
    accept_pattern, compile_watch_targets, matching_targets, matching_texts, startup_outcome,
    watch_action,
    ContentChangeFilterer, Event, FileEventKind, ModifyKind, Signal, Tag, WatchAction,
    WatchFailure, WatchTarget,
};

fn file_event(kind: FileEventKind) -> Event {
    Event {
        tags: vec![Tag::FileEventKind(kind)],
    }
}

fn service(name: &str, dependencies: &[&str]) -> ServiceSchema {
    ServiceSchema {
        name: name.to_owned(),
        command: CommandSpec::Args(vec!["dummy".to_owned()]),
        run_as_shell: false,
        color: None,
        dependencies: Some(dependencies.iter().map(|name| (*name).to_owned()).collect()),
        watchlist: None,
    }
}

fn watched(name: &str, patterns: &[&str]) -> ServiceSchema {
    let mut service = service(name, &[]);
    service.watchlist = Some(patterns.iter().map(|pattern| (*pattern).to_owned()).collect());
    service
}

fn graph(services: &[ServiceSchema]) -> Graph {
    generate_graph(services).ok().unwrap()
}

fn targets(services: &[ServiceSchema]) -> Vec<WatchTarget> {
    let leaves: Vec<usize> = (0..services.len()).collect();
    compile_watch_targets(&graph(services), &leaves).unwrap()
}

fn root() -> PathBuf {
    PathBuf::from("/work")
}

fn paths(list: &[&str]) -> Vec<PathBuf> {
    list.iter().map(|path| root().join(path)).collect()
}

fn set(list: &[usize]) -> HashSet<usize> {
    list.iter().copied().collect()
}

#[test]
fn content_filter_rejects_open_and_attribute_events() {
    let filter = ContentChangeFilterer;
    let opened = file_event(FileEventKind::Access);
    let attributed = file_event(FileEventKind::Modify(ModifyKind::Metadata));
    assert!(!filter.check_event(&opened));
    assert!(!filter.check_event(&attributed));
    assert!(!filter.check_event(&Event { tags: Vec::new() }));
}

#[test]
fn content_filter_accepts_file_content_and_path_changes() {
    let filter = ContentChangeFilterer;
    let changes = [
        file_event(FileEventKind::Create),
        file_event(FileEventKind::Remove),
        file_event(FileEventKind::Modify(ModifyKind::Data)),
        file_event(FileEventKind::Modify(ModifyKind::Name)),
    ];
    assert!(changes.iter().all(|event| filter.check_event(event)));
}

#[test]
fn content_filter_looks_at_every_tag() {
    let filter = ContentChangeFilterer;
    let mixed = Event {
        tags: vec![
            Tag::Other,
            Tag::FileEventKind(FileEventKind::Any),
            Tag::FileEventKind(FileEventKind::Create),
        ],
    };
    assert!(filter.check_event(&mixed));
    let vague = Event {
        tags: vec![
            Tag::Other,
            Tag::FileEventKind(FileEventKind::Other),
            Tag::FileEventKind(FileEventKind::Modify(ModifyKind::Any)),
            Tag::FileEventKind(FileEventKind::Modify(ModifyKind::Other)),
        ],
    };
    assert!(!filter.check_event(&vague));
    assert!(filter.check_dir());
}

#[test]
fn watch_patterns_are_anchored_without_changing_alternatives() {
    let mut watched = service("watch", &[]);
    watched.watchlist = Some(vec!["foo|bar".to_owned()]);
    let graph_result = generate_graph(&[watched]);
    assert!(graph_result.is_ok());
    let Some(graph) = graph_result.ok() else {
        return;
    };
    let targets_result = compile_watch_targets(&graph, &[0]);
    assert!(targets_result.is_ok());
    let Some(targets) = targets_result.ok() else {
        return;
    };
    let Some(pattern) = targets.first().and_then(|target| target.patterns.first()) else {
        return;
    };
    assert!(pattern.is_match("foo"));
    assert!(pattern.is_match("bar"));
    assert!(!pattern.is_match("nested/foo/file.txt"));
}

#[test]
fn services_without_patterns_are_not_watched() {
    let services = [
        watched("a", &["src/.*", "Cargo\\.toml"]),
        service("b", &[]),
        watched("c", &[]),
        watched("d", &["d"]),
    ];
    let targets = targets(&services);
    assert_eq!(targets.len(), 2);
    assert_eq!(targets[0].node_index, 0);
    assert_eq!(targets[0].patterns.len(), 2);
    assert_eq!(targets[0].patterns[1].as_str(), "^(?:Cargo\\.toml)$");
    assert_eq!(targets[1].node_index, 3);
}

#[test]
fn a_bad_pattern_is_refused_with_its_service() {
    let graph = graph(&[watched("good", &["x"]), watched("bad", &["x", "["])]);
    let error = regex::Regex::new("^(?:[)$").unwrap_err();
    let expected = format!("invalid watch pattern for bad: {error}");
    assert_eq!(
        compile_watch_targets(&graph, &[0, 1]).err(),
        Some(expected.clone())
    );
    assert_eq!(
        accept_pattern(regex::Regex::new("^(?:[)$"), "bad").err(),
        Some(expected)
    );
    assert!(accept_pattern(regex::Regex::new("x"), "good").is_ok());
    assert!(compile_watch_targets(&graph, &[0]).is_ok());
    assert_eq!(
        compile_watch_targets(&graph, &[0, 9]).err(),
        Some("invalid graph node index".to_owned())
    );
}

#[test]
fn changed_paths_affect_the_services_that_watch_them() {
    let targets = targets(&[
        watched("a", &["src/.*\\.rs"]),
        watched("b", &["src/lib\\.rs", "docs/.*"]),
    ]);
    let affected = |list: &[&str]| matching_targets(&paths(list), &targets, &root());
    assert_eq!(affected(&["src/main.rs"]), set(&[0]));
    assert_eq!(affected(&["src/lib.rs"]), set(&[0, 1]));
    assert_eq!(affected(&["docs/a", "src/x.rs"]), set(&[0, 1]));
    assert_eq!(affected(&["other/src/lib.rs"]), set(&[]));
    assert_eq!(affected(&[]), set(&[]));
}

#[test]
fn paths_outside_of_the_root_affect_nothing() {
    let targets = targets(&[watched("a", &[".*"])]);
    let outside = vec![
        PathBuf::from("/elsewhere/src/lib.rs"),
        PathBuf::from("/workshop/src/lib.rs"),
        PathBuf::from("src/lib.rs"),
    ];
    assert_eq!(matching_targets(&outside, &targets, &root()), set(&[]));
    assert_eq!(
        matching_targets(&vec![root()], &targets, &root()),
        set(&[0])
    );
    assert_eq!(matching_texts(&vec![None, None], &targets), set(&[]));
    assert_eq!(
        matching_texts(&vec![None, Some("x".to_owned())], &targets),
        set(&[0])
    );
}

#[test]
fn a_request_to_stop_comes_before_changes() {
    let targets = targets(&[watched("a", &["a"])]);
    let changed = paths(&["a"]);
    let action = |signals: &[Signal], paths: &Vec<PathBuf>| {
        watch_action(&signals.to_vec(), paths, &targets, &root())
    };
    assert!(matches!(
        action(&[Signal::Other, Signal::Interrupt], &changed),
        WatchAction::Quit
    ));
    assert!(matches!(
        action(&[Signal::Terminate], &Vec::new()),
        WatchAction::Quit
    ));
    let WatchAction::Report(affected) = action(&[Signal::Other], &changed) else {
        panic!("a change was expected");
    };
    assert_eq!(affected, set(&[0]));
    assert!(matches!(action(&[], &paths(&["b"])), WatchAction::Ignore));
}

#[test]
fn watch_failures_have_messages() {
    let e = || "e".to_owned();
    assert_eq!(
        WatchFailure::Runtime(e()).message(),
        "failed to create Watchexec runtime: e"
    );
    assert_eq!(WatchFailure::Create(e()).message(), "failed to create Watchexec: e");
    assert_eq!(WatchFailure::Startup(e()).message(), "Watchexec startup failed: e");
    assert_eq!(WatchFailure::Task(e()).message(), "Watchexec task failed: e");
    assert_eq!(WatchFailure::Run(e()).message(), "Watchexec failed: e");
    assert_eq!(startup_outcome(Ok(Ok(()))), Ok(()));
    assert_eq!(startup_outcome(Ok(Err(e()))), Err(e()));
    assert_eq!(
        startup_outcome(Err("receiving on a closed channel".to_owned())),
        Err("Watchexec startup failed: receiving on a closed channel".to_owned())
    );
}
